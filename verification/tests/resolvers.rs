use dict_walker::phoneme_resolvers::resolve_word;
use dict_walker::phoneme_resolvers::DeadEndPhonemeResolver;
use dict_walker::phoneme_resolvers::DictionaryPhonemeResolver;
use dict_walker::phoneme_resolvers::DummyPhonemeResolver;
use dict_walker::phoneme_resolvers::MarkerPhonemeResolver;
use dict_walker::phoneme_resolvers::PhonemeResolver;
use dict_walker::phoneme_resolvers::Resolver;
use dict_walker::phonemes::render_phonemes;
use dict_walker::phonemes::Phoneme;
use regex::Regex;
use std::cell::Cell;
use std::collections::HashMap;
use std::rc::Rc;

/// A resolver from outside the library: it answers one word and counts how
/// often it is asked.
struct Fixed {
    word: String,
    asked: Rc<Cell<usize>>,
}

impl PhonemeResolver for Fixed {
    fn resolve(&self, graphemes: &str) -> Option<Vec<Phoneme>> {
        self.asked.set(self.asked.get() + 1);
        if graphemes == self.word {
            Some(vec![Phoneme::from_symbol("A", false), Phoneme::from_symbol("B", false)])
        } else {
            None
        }
    }
}

fn rendered(answer: Option<Vec<Phoneme>>) -> Option<String> {
    answer.map(|phonemes| render_phonemes(&phonemes))
}

#[test]
fn the_dummy_declines_everything() {
    let dummy = DummyPhonemeResolver::new();
    assert!(dummy.resolve("labas").is_none());
    assert!(dummy.resolve("[PAUSE]").is_none());
    assert!(dummy.resolve("").is_none());
}

#[test]
fn the_dead_end_answers_everything() {
    let dead_end = DeadEndPhonemeResolver::new();
    assert_eq!(rendered(dead_end.resolve("labas")), Some(String::from("[ERR-labas]")));
    assert_eq!(rendered(dead_end.resolve("A")), Some(String::from("[A]")));
    assert_eq!(rendered(dead_end.resolve("")), Some(String::from("[ERR-]")));
    let answer = dead_end.resolve("labas").unwrap();
    assert_eq!(answer.len(), 1);
    assert!(!answer[0].valid);
}

#[test]
fn the_marker_resolver_answers_known_markers_only() {
    let marker = MarkerPhonemeResolver::new();
    let answer = marker.resolve("[PAUSE]").unwrap();
    assert_eq!(answer.len(), 1);
    assert_eq!(answer[0].ordinal, 37);
    assert_eq!(answer[0].symbol, "PAUSE");
    assert!(marker.resolve("[UNKNOWN]").is_none());
    assert!(marker.resolve("[pause]").is_none());
    assert!(marker.resolve("A").is_none());
    assert!(marker.resolve("PAUSE").is_none());
    assert!(marker.resolve("").is_none());
    assert!(marker.resolve("[MIDWORDPAUSE]b").is_none());
}

#[test]
fn dictionary_lines_are_parsed() {
    let resolver = DictionaryPhonemeResolver::load("labas L A B A S\nbroken\nas  A S\n");
    assert_eq!(rendered(resolver.resolve("labas")), Some(String::from("[L][A][B][A][S]")));
    assert!(resolver.resolve("broken").is_none());
    assert_eq!(rendered(resolver.resolve("as")), Some(String::from("[A][S]")));
    assert!(resolver.resolve("Labas").is_none());
    assert!(resolver.resolve("").is_none());
}

#[test]
fn a_later_dictionary_line_replaces_an_earlier_one() {
    let resolver = DictionaryPhonemeResolver::load("a A\na B C");
    assert_eq!(rendered(resolver.resolve("a")), Some(String::from("[B][C]")));
}

#[test]
fn unknown_codes_in_the_dictionary_give_invalid_phonemes() {
    let resolver = DictionaryPhonemeResolver::load("a A qq [PAUSE]");
    assert_eq!(rendered(resolver.resolve("a")), Some(String::from("[A][ERR-qq][PAUSE]")));
}

#[test]
fn a_line_needs_graphemes_a_space_and_one_more_character() {
    let resolver = DictionaryPhonemeResolver::load("a \nb  \n c C\nd\tD\ne E\r\n\n");
    assert!(resolver.resolve("a").is_none());
    assert_eq!(resolver.resolve("b").unwrap().len(), 0);
    assert!(resolver.resolve("c").is_none());
    assert!(resolver.resolve("").is_none());
    assert!(resolver.resolve("d").is_none());
    assert!(resolver.resolve("d\tD").is_none());
    assert_eq!(rendered(resolver.resolve("e")), Some(String::from("[E]")));
}

#[test]
fn dictionaries_agree_with_the_pattern_of_their_lines() {
    let pattern = Regex::new(r"^(?P<graph>[^ ]+) +(?P<accent>.+)$").unwrap();
    let alphabet = ['a', 'A', 'B', ' ', '\t', '\n', '_'];
    let mut state: u64 = 7;
    for _ in 0..3000 {
        let mut text = String::new();
        state = state.wrapping_mul(6364136223846793005).wrapping_add(1442695040888963407);
        let len = (state >> 33) % 24;
        for _ in 0..len {
            state = state.wrapping_mul(6364136223846793005).wrapping_add(1442695040888963407);
            text.push(alphabet[((state >> 33) % alphabet.len() as u64) as usize]);
        }
        let mut expected: HashMap<String, String> = HashMap::new();
        for line in text.split("\n") {
            if let Some(caps) = pattern.captures(line) {
                let codes: Vec<Phoneme> = caps
                    .get(2)
                    .unwrap()
                    .as_str()
                    .split_whitespace()
                    .map(|code| Phoneme::from_symbol(code, false))
                    .collect();
                expected.insert(caps.get(1).unwrap().as_str().to_string(), render_phonemes(&codes));
            }
        }
        let resolver = DictionaryPhonemeResolver::load(&text);
        for line in text.split("\n") {
            for word in line.split(" ") {
                assert_eq!(rendered(resolver.resolve(word)), expected.get(word).cloned(), "{:?} {:?}", text, word);
            }
            assert_eq!(rendered(resolver.resolve(line)), expected.get(line).cloned(), "{:?}", text);
        }
    }
}

#[test]
fn first_resolver_that_answers_wins() {
    let asked = Rc::new(Cell::new(0));
    let chain: Vec<Resolver> = vec![
        Resolver::Dictionary(DictionaryPhonemeResolver::load("labas L A B A S")),
        Resolver::Other(Box::new(Fixed { word: String::from("rytas"), asked: asked.clone() })),
        Resolver::Marker(MarkerPhonemeResolver::new()),
        Resolver::DeadEnd(DeadEndPhonemeResolver::new()),
    ];
    assert_eq!(rendered(resolve_word(&chain, "labas")), Some(String::from("[L][A][B][A][S]")));
    assert_eq!(asked.get(), 0);
    assert_eq!(rendered(resolve_word(&chain, "rytas")), Some(String::from("[A][B]")));
    assert_eq!(asked.get(), 1);
    assert_eq!(rendered(resolve_word(&chain, "[PAUSE]")), Some(String::from("[PAUSE]")));
    assert_eq!(asked.get(), 2);
    assert_eq!(rendered(resolve_word(&chain, "xyz")), Some(String::from("[ERR-xyz]")));
    assert_eq!(asked.get(), 3);
}

#[test]
fn a_chain_is_deterministic() {
    let chain: Vec<Resolver> = vec![
        Resolver::Dictionary(DictionaryPhonemeResolver::load("labas L A B A S")),
        Resolver::Dummy(DummyPhonemeResolver::new()),
        Resolver::Marker(MarkerPhonemeResolver::new()),
        Resolver::DeadEnd(DeadEndPhonemeResolver::new()),
    ];
    for word in ["labas", "[EH]", "[eh]", "", "žodis", " "] {
        let first = rendered(resolve_word(&chain, word));
        let second = rendered(resolve_word(&chain, word));
        assert!(first.is_some());
        assert_eq!(first, second);
    }
}

#[test]
fn a_chain_without_catch_all_may_decline() {
    let chain: Vec<Resolver> = vec![
        Resolver::Dummy(DummyPhonemeResolver::new()),
        Resolver::Marker(MarkerPhonemeResolver::new()),
    ];
    assert!(resolve_word(&chain, "labas").is_none());
    assert!(resolve_word(&chain, "[DOOR]").is_some());
    assert!(resolve_word(&Vec::new(), "labas").is_none());
}

#[test]
fn a_resolver_in_a_chain_answers_as_it_does_alone() {
    let member = Resolver::Marker(MarkerPhonemeResolver::new());
    assert_eq!(rendered(member.resolve("[SMACK]")), Some(String::from("[SMACK]")));
    assert!(member.resolve("smack").is_none());
    let outside = Resolver::Other(Box::new(Fixed { word: String::from("a"), asked: Rc::new(Cell::new(0)) }));
    assert_eq!(rendered(outside.resolve("a")), Some(String::from("[A][B]")));
}
