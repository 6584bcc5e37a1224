//! The logging levels, as the command line names them.

use vstd::prelude::*;
use vstd::string::*;
use crate::text::lowercase;
use crate::text::same_text;

verus! {

/// How much is logged.
#[derive(Clone, Copy, Debug, PartialEq, Eq, Structural)]
pub enum LevelFilter {
    Trace,
    Debug,
    Info,
    Warn,
    Error,
}

/// The level that `text` names, in any mix of upper and lower case.
pub open spec fn level_named(text: Seq<char>) -> Option<LevelFilter> {
    let name = lowercase(text);
    if name == "trace"@ {
        Some(LevelFilter::Trace)
    } else if name == "debug"@ {
        Some(LevelFilter::Debug)
    } else if name == "info"@ {
        Some(LevelFilter::Info)
    } else if name == "warn"@ {
        Some(LevelFilter::Warn)
    } else if name == "error"@ {
        Some(LevelFilter::Error)
    } else {
        None
    }
}

/// The message for a text that names no level.
pub open spec fn unknown_level_message(text: Seq<char>) -> Seq<char> {
    "\""@ + text + "\" is not a valid LevelFilter value."@
}

/// The level that `level_str` names.
pub fn level_from_string(level_str: &str) -> (r: Result<LevelFilter, String>)
    ensures
        match r {
            Ok(level) => level_named(level_str@) == Some(level),
            Err(message) => level_named(level_str@) is None && message@ == unknown_level_message(
                level_str@,
            ),
        },
{
    let lowered = level_str.to_lowercase();
    let name = lowered.as_str();
    if same_text(name, "trace") {
        Ok(LevelFilter::Trace)
    } else if same_text(name, "debug") {
        Ok(LevelFilter::Debug)
    } else if same_text(name, "info") {
        Ok(LevelFilter::Info)
    } else if same_text(name, "warn") {
        Ok(LevelFilter::Warn)
    } else if same_text(name, "error") {
        Ok(LevelFilter::Error)
    } else {
        let mut message = "\"".to_owned();
        message.append(level_str);
        message.append("\" is not a valid LevelFilter value.");
        Err(message)
    }
}

} // verus!
