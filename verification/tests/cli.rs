use dict_walker::cli_api::extension_list_valid;
use dict_walker::cli_api::valid_level;
use dict_walker::logging::level_from_string;
use dict_walker::logging::LevelFilter;
use regex::Regex;

#[test]
fn levels_are_named_in_any_case() {
    assert_eq!(level_from_string("trace"), Ok(LevelFilter::Trace));
    assert_eq!(level_from_string("debug"), Ok(LevelFilter::Debug));
    assert_eq!(level_from_string("info"), Ok(LevelFilter::Info));
    assert_eq!(level_from_string("warn"), Ok(LevelFilter::Warn));
    assert_eq!(level_from_string("error"), Ok(LevelFilter::Error));
    assert_eq!(level_from_string("INFO"), Ok(LevelFilter::Info));
    assert_eq!(level_from_string("WaRn"), Ok(LevelFilter::Warn));
}

#[test]
fn an_unknown_level_is_reported_as_it_was_written() {
    assert_eq!(
        level_from_string("Loud"),
        Err(String::from("\"Loud\" is not a valid LevelFilter value."))
    );
    assert_eq!(level_from_string(""), Err(String::from("\"\" is not a valid LevelFilter value.")));
    assert!(level_from_string("off").is_err());
    assert!(level_from_string(" info").is_err());
}

#[test]
fn a_level_is_valid_if_it_is_named() {
    assert_eq!(valid_level(String::from("Debug")), Ok(()));
    assert_eq!(
        valid_level(String::from("verbose")),
        Err(String::from("\"verbose\" is not a valid LevelFilter value."))
    );
}

#[test]
fn extension_lists_need_a_letter_a_digit_or_a_comma() {
    assert_eq!(extension_list_valid(String::from("wav")), Ok(()));
    assert_eq!(extension_list_valid(String::from("wav,mp3")), Ok(()));
    assert_eq!(extension_list_valid(String::from(",")), Ok(()));
    assert_eq!(extension_list_valid(String::from("..7")), Ok(()));
    assert_eq!(
        extension_list_valid(String::from("")),
        Err(String::from("\"\" is not a valid extension list."))
    );
    assert_eq!(
        extension_list_valid(String::from(".ž-")),
        Err(String::from("\".ž-\" is not a valid extension list."))
    );
}

#[test]
fn extension_lists_agree_with_their_pattern() {
    let pattern = Regex::new(r"[a-zA-Z0-9,]").unwrap();
    let alphabet = ['a', 'z', 'A', 'Z', '0', '9', ',', '.', ' ', 'ž', '@', '[', '`', '{', '/', ':'];
    for a in alphabet {
        for b in alphabet {
            for text in [format!("{}", a), format!("{}{}", a, b)] {
                assert_eq!(extension_list_valid(text.clone()).is_ok(), pattern.is_match(&text), "{:?}", text);
            }
        }
    }
}
