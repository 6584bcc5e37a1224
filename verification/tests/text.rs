use dict_walker::text::chars_of;
use dict_walker::text::collapse_spaces;
use dict_walker::text::is_whitespace_char;
use dict_walker::text::matches_at;
use dict_walker::text::replace_all;
use dict_walker::text::same_text;
use dict_walker::text::split_on;
use dict_walker::text::split_words;
use dict_walker::text::string_of;
use dict_walker::text::string_of_range;
use dict_walker::text::strip_accents;
use dict_walker::text::trim;
use regex::Regex;

/// Texts over a small alphabet, every text up to the length 6, then longer
/// ones picked by a fixed rule.
fn samples(alphabet: &[char]) -> Vec<String> {
    let mut all = vec![String::new()];
    let mut from = 0;
    for _ in 0..5 {
        let upto = all.len();
        for i in from..upto {
            for c in alphabet {
                let mut next = all[i].clone();
                next.push(*c);
                all.push(next);
            }
        }
        from = upto;
        if all.len() > 4000 {
            break;
        }
    }
    let mut state: u64 = 12345;
    for _ in 0..2000 {
        let mut text = String::new();
        state = state.wrapping_mul(6364136223846793005).wrapping_add(1442695040888963407);
        let len = 5 + (state >> 33) % 20;
        for _ in 0..len {
            state = state.wrapping_mul(6364136223846793005).wrapping_add(1442695040888963407);
            text.push(alphabet[((state >> 33) % alphabet.len() as u64) as usize]);
        }
        all.push(text);
    }
    all
}

fn strings(parts: &Vec<Vec<char>>) -> Vec<String> {
    parts.iter().map(|p| string_of(p)).collect()
}

#[test]
fn characters_go_there_and_back() {
    for text in ["", "a", "žąsis ėda", "a\u{1F600}b", "\u{feff}x"] {
        let letters = chars_of(text);
        assert_eq!(letters, text.chars().collect::<Vec<char>>());
        assert_eq!(string_of(&letters), text);
    }
    let letters = chars_of("labas");
    assert_eq!(string_of_range(&letters, 1, 3), "ab");
    assert_eq!(string_of_range(&letters, 2, 2), "");
    assert_eq!(string_of_range(&letters, 0, 5), "labas");
}

#[test]
fn same_text_is_equality() {
    assert!(same_text("", ""));
    assert!(same_text("žodis", "žodis"));
    assert!(!same_text("žodis", "zodis"));
    assert!(!same_text("a", "ab"));
    assert!(!same_text("ab", "a"));
    assert!(!same_text("A", "a"));
}

#[test]
fn white_space_is_what_the_standard_library_calls_so() {
    for code in 0u32..0x110000 {
        if let Some(c) = char::from_u32(code) {
            assert_eq!(is_whitespace_char(c), c.is_whitespace(), "U+{:04X}", code);
        }
    }
}

#[test]
fn matches_are_found_where_they_stand() {
    let text = chars_of("abcabc");
    let pattern = chars_of("bc");
    assert!(!matches_at(&text, 0, &pattern));
    assert!(matches_at(&text, 1, &pattern));
    assert!(matches_at(&text, 4, &pattern));
    assert!(!matches_at(&text, 5, &pattern));
    assert!(!matches_at(&text, 6, &pattern));
    assert!(matches_at(&text, 6, &Vec::new()));
}

#[test]
fn replacing_agrees_with_the_standard_library() {
    let patterns = [("a", "b"), ("ab", ""), ("aa", "a"), ("ab", "ba"), ("a", "aa"), ("aba", "x"), ("b ", "ab")];
    for text in samples(&['a', 'b', ' ']) {
        for (from, to) in patterns {
            let ours = string_of(&replace_all(&chars_of(&text), &chars_of(from), &chars_of(to)));
            assert_eq!(ours, text.replace(from, to), "{:?} {:?} {:?}", text, from, to);
        }
    }
}

#[test]
fn an_empty_pattern_replaces_nothing() {
    let ours = replace_all(&chars_of("abc"), &Vec::new(), &chars_of("x"));
    assert_eq!(string_of(&ours), "abc");
}

#[test]
fn trimming_agrees_with_the_standard_library() {
    for text in samples(&['a', ' ', '\t', '\u{a0}']) {
        assert_eq!(string_of(&trim(&chars_of(&text))), text.trim(), "{:?}", text);
    }
}

#[test]
fn words_agree_with_the_standard_library() {
    for text in samples(&['a', 'b', ' ', '\n', '\u{3000}']) {
        let ours = strings(&split_words(&chars_of(&text)));
        let theirs: Vec<String> = text.split_whitespace().map(String::from).collect();
        assert_eq!(ours, theirs, "{:?}", text);
    }
}

#[test]
fn pieces_agree_with_the_standard_library() {
    for text in samples(&['a', 'b', '-']) {
        for separator in ["-", "ab", "aa", "a-a"] {
            let ours = strings(&split_on(&chars_of(&text), &chars_of(separator)));
            let theirs: Vec<String> = text.split(separator).map(String::from).collect();
            assert_eq!(ours, theirs, "{:?} {:?}", text, separator);
        }
    }
}

#[test]
fn a_text_without_separator_is_its_own_piece() {
    assert_eq!(strings(&split_on(&chars_of("labas"), &chars_of("[midwordpause]"))), vec!["labas"]);
    assert_eq!(strings(&split_on(&chars_of(""), &chars_of("x"))), vec![""]);
    assert_eq!(strings(&split_on(&chars_of("x"), &chars_of("x"))), vec!["", ""]);
    assert_eq!(strings(&split_on(&chars_of("abc"), &Vec::new())), vec!["abc"]);
}

#[test]
fn collapsing_agrees_with_the_pattern_of_two_or_more_spaces() {
    let pattern = Regex::new(r" {2,}").unwrap();
    for text in samples(&['a', ' ', '_']) {
        let ours = string_of(&collapse_spaces(&chars_of(&text)));
        assert_eq!(ours, pattern.replace_all(&text, " "), "{:?}", text);
    }
    assert_eq!(string_of(&collapse_spaces(&chars_of("a   b  c d"))), "a b c d");
}

#[test]
fn accent_suffixes_agree_with_their_pattern() {
    let pattern = Regex::new(r"(?P<last>[^ ])(?P<accent>_[^ ]+)").unwrap();
    for text in samples(&['a', 'b', ' ', '_']) {
        let ours = string_of(&strip_accents(&chars_of(&text)));
        assert_eq!(ours, pattern.replace_all(&text, "$last"), "{:?}", text);
    }
    for text in samples(&['a', '_', '\n', ' ', 'ž']) {
        let ours = string_of(&strip_accents(&chars_of(&text)));
        assert_eq!(ours, pattern.replace_all(&text, "$last"), "{:?}", text);
    }
}

#[test]
fn an_accent_suffix_runs_to_the_end_of_its_word() {
    assert_eq!(string_of(&strip_accents(&chars_of("ka_3s yra"))), "ka yra");
    assert_eq!(string_of(&strip_accents(&chars_of("a_b_c d_e"))), "a d");
    assert_eq!(string_of(&strip_accents(&chars_of("_pradzia a_ b"))), "_pradzia a_ b");
    assert_eq!(string_of(&strip_accents(&chars_of("__x"))), "_");
}
