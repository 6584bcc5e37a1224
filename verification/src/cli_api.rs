//! The checks of command-line values that need no look at the disk.

use vstd::prelude::*;
use vstd::string::*;
use crate::logging::level_from_string;
use crate::logging::level_named;
use crate::logging::unknown_level_message;
use crate::text::chars_of;

verus! {

/// Whether `c` may stand in a list of extensions: an ASCII letter, an ASCII
/// digit or a comma.
pub open spec fn is_extension_char(c: char) -> bool {
    ('a' <= c <= 'z') || ('A' <= c <= 'Z') || ('0' <= c <= '9') || c == ','
}

/// Whether `text` passes as a list of extensions: it holds at least one
/// letter, digit or comma.
pub open spec fn is_extension_list(text: Seq<char>) -> bool {
    exists|i: int| 0 <= i < text.len() && is_extension_char(#[trigger] text[i])
}

/// The message for a text that does not pass as a list of extensions.
pub open spec fn invalid_extensions_message(text: Seq<char>) -> Seq<char> {
    "\""@ + text + "\" is not a valid extension list."@
}

/// Checks that `log_level_str` names a logging level.
pub fn valid_level(log_level_str: String) -> (r: Result<(), String>)
    ensures
        match r {
            Ok(()) => level_named(log_level_str@) is Some,
            Err(message) => level_named(log_level_str@) is None && message@
                == unknown_level_message(log_level_str@),
        },
{
    match level_from_string(log_level_str.as_str()) {
        Ok(_) => Ok(()),
        Err(message) => Err(message),
    }
}

/// Checks that `extension` passes as a list of extensions.
pub fn extension_list_valid(extension: String) -> (r: Result<(), String>)
    ensures
        match r {
            Ok(()) => is_extension_list(extension@),
            Err(message) => !is_extension_list(extension@) && message@
                == invalid_extensions_message(extension@),
        },
{
    let letters = chars_of(extension.as_str());
    let mut i: usize = 0;
    while i < letters.len()
        invariant
            i <= letters.len(),
            letters@ == extension@,
            forall|j: int| 0 <= j < i ==> !is_extension_char(#[trigger] letters@[j]),
        decreases letters.len() - i,
    {
        let c = letters[i];
        if ('a' <= c && c <= 'z') || ('A' <= c && c <= 'Z') || ('0' <= c && c <= '9') || c == ',' {
            return Ok(());
        }
        i += 1;
    }
    let mut message = "\"".to_owned();
    message.append(extension.as_str());
    message.append("\" is not a valid extension list.");
    Err(message)
}

} // verus!
