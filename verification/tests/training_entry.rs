use dict_walker::dict_entry::DictEntry;
use dict_walker::phoneme_resolvers::DeadEndPhonemeResolver;
use dict_walker::phoneme_resolvers::DictionaryPhonemeResolver;
use dict_walker::phoneme_resolvers::DummyPhonemeResolver;
use dict_walker::phoneme_resolvers::MarkerPhonemeResolver;
use dict_walker::phoneme_resolvers::Resolver;
use dict_walker::phonemes::render_phonemes;
use dict_walker::phonemes::Phoneme;
use dict_walker::text::chars_of;
use dict_walker::training_entry::join_answers;
use dict_walker::training_entry::resolve_words;
use dict_walker::training_entry::TrainingEntry;

fn chain() -> Vec<Resolver> {
    vec![
        Resolver::Dictionary(DictionaryPhonemeResolver::load("labas L A B A S\nas A S\n[pause] P")),
        Resolver::Dummy(DummyPhonemeResolver::new()),
        Resolver::Marker(MarkerPhonemeResolver::new()),
        Resolver::DeadEnd(DeadEndPhonemeResolver::new()),
    ]
}

#[test]
fn words_are_separated_but_for_the_last() {
    let phonemes = TrainingEntry::convert_to_phonemes("labas as", &chain());
    assert_eq!(render_phonemes(&phonemes), "[L][A][B][A][S] [A][S]");
    assert_eq!(phonemes[5].ordinal, 0);
}

#[test]
fn words_are_looked_up_in_lower_case() {
    let phonemes = TrainingEntry::convert_to_phonemes("LABAS As", &chain());
    assert_eq!(render_phonemes(&phonemes), "[L][A][B][A][S] [A][S]");
}

#[test]
fn bracketed_words_keep_their_case() {
    let phonemes = TrainingEntry::convert_to_phonemes("[PAUSE] [pause] [Pause]", &chain());
    assert_eq!(render_phonemes(&phonemes), "[PAUSE] [P] [ERR-[Pause]]");
}

#[test]
fn unknown_words_end_in_the_dead_end() {
    let phonemes = TrainingEntry::convert_to_phonemes("Rytas", &chain());
    assert_eq!(render_phonemes(&phonemes), "[ERR-rytas]");
    assert!(!phonemes[0].valid);
}

#[test]
fn an_empty_text_has_no_phonemes() {
    assert_eq!(TrainingEntry::convert_to_phonemes("", &chain()).len(), 0);
    assert_eq!(TrainingEntry::convert_to_phonemes(" \t ", &chain()).len(), 0);
}

#[test]
fn an_unresolved_word_adds_nothing() {
    let open: Vec<Resolver> = vec![Resolver::Marker(MarkerPhonemeResolver::new())];
    let phonemes = TrainingEntry::convert_to_phonemes("[EH] labas [DOOR] rytas", &open);
    assert_eq!(render_phonemes(&phonemes), "[EH] [DOOR] ");
    let phonemes = TrainingEntry::convert_to_phonemes("labas [DOOR]", &open);
    assert_eq!(render_phonemes(&phonemes), "[DOOR]");
}

#[test]
fn answers_are_asked_word_by_word_and_then_joined() {
    let words = vec![chars_of("Labas"), chars_of("[EH]"), chars_of("x")];
    let open: Vec<Resolver> = vec![
        Resolver::Dictionary(DictionaryPhonemeResolver::load("labas L A")),
        Resolver::Marker(MarkerPhonemeResolver::new()),
    ];
    let answers = resolve_words(&words, &open);
    assert_eq!(answers.len(), 3);
    assert_eq!(answers[0].as_ref().map(|p| render_phonemes(p)), Some(String::from("[L][A]")));
    assert_eq!(answers[1].as_ref().map(|p| render_phonemes(p)), Some(String::from("[EH]")));
    assert!(answers[2].is_none());
    assert_eq!(render_phonemes(&join_answers(&answers)), "[L][A] [EH] ");
}

#[test]
fn joining_puts_no_separator_behind_the_last_answer() {
    let a = vec![Phoneme::from_symbol("A", false)];
    let b = vec![Phoneme::from_symbol("B", true), Phoneme::from_symbol("C", false)];
    assert_eq!(render_phonemes(&join_answers(&vec![Some(a.clone()), Some(b.clone())])), "[A] {B}[C]");
    assert_eq!(render_phonemes(&join_answers(&vec![Some(a.clone()), None])), "[A] ");
    assert_eq!(render_phonemes(&join_answers(&vec![None, Some(b)])), "{B}[C]");
    assert_eq!(render_phonemes(&join_answers(&vec![Some(a)])), "[A]");
    assert_eq!(join_answers(&vec![None, None]).len(), 0);
    assert_eq!(join_answers(&Vec::new()).len(), 0);
}

#[test]
fn an_entry_is_constructed_from_its_raw_transcript() {
    let de = DictEntry {
        name: String::from("a"),
        transcript: String::from("\u{feff}Labas  _pauze as-as\r\n"),
        containing_dir: String::from("d"),
        audio_path: String::from("d/a.wav"),
        transcript_path: String::from("d/a.txt"),
    };
    let entry = TrainingEntry::construct(de, &chain());
    assert_eq!(entry.transcript, "Labas [PAUSE] as[MIDWORDPAUSE]as");
    assert_eq!(entry.audio_path, "d/a.wav");
    assert_eq!(render_phonemes(&entry.phonemes), "[L][A][B][A][S] [PAUSE] [ERR-as[midwordpause]as]");
}
