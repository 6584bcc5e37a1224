use dict_walker::phonemes::render_phonemes;
use dict_walker::phonemes::Phoneme;

fn catalog() -> Vec<(&'static str, &'static str)> {
    vec![
        (" ", " "),
        ("A", "A"),
        ("A_", "A_"),
        ("B", "B"),
        ("C", "C"),
        ("C2", "C2"),
        ("CH", "CH"),
        ("D", "D"),
        ("DZ", "DZ"),
        ("DZ2", "DZ2"),
        ("E", "E"),
        ("E_", "E_"),
        ("E3_", "E3_"),
        ("F", "F"),
        ("G", "G"),
        ("H", "H"),
        ("I", "I"),
        ("I_", "I_"),
        ("IO_", "IO_"),
        ("IU", "IU"),
        ("IU_", "IU_"),
        ("J.", "J."),
        ("K", "K"),
        ("L", "L"),
        ("M", "M"),
        ("N", "N"),
        ("O_", "O_"),
        ("P", "P"),
        ("R", "R"),
        ("S", "S"),
        ("S2", "S2"),
        ("T", "T"),
        ("U", "U"),
        ("U_", "U_"),
        ("V", "V"),
        ("Z", "Z"),
        ("Z2", "Z2"),
        ("[PAUSE]", "PAUSE"),
        ("[INHALE]", "INHALE"),
        ("[EXHALE]", "EXHALE"),
        ("[SWALLOW]", "SWALLOW"),
        ("[SMACK]", "SMACK"),
        ("[CHAIR]", "CHAIR"),
        ("[STOMACH]", "STOMACH"),
        ("[PAGE]", "PAGE"),
        ("[DOOR]", "DOOR"),
        ("[EH]", "EH"),
        ("[MIDWORDPAUSE]", "MIDWORDPAUSE"),
        ("[NOISE]", "NOISE"),
    ]
}

#[test]
fn every_catalog_entry_has_its_ordinal() {
    let entries = catalog();
    assert_eq!(entries.len(), 49);
    for (ordinal, (key, symbol)) in entries.iter().enumerate() {
        let p = Phoneme::from_symbol(key, false);
        assert_eq!(p.symbol, *symbol);
        assert_eq!(p.ordinal as usize, ordinal);
        assert!(p.valid);
        assert!(!p.accented);
    }
}

#[test]
fn no_two_catalog_entries_share_an_ordinal_or_a_symbol() {
    let entries = catalog();
    for (i, (a, _)) in entries.iter().enumerate() {
        for (j, (b, _)) in entries.iter().enumerate() {
            let p = Phoneme::from_symbol(a, false);
            let q = Phoneme::from_symbol(b, false);
            assert_eq!(i == j, p.ordinal == q.ordinal);
            assert_eq!(i == j, p.symbol == q.symbol);
        }
    }
}

#[test]
fn separator_has_ordinal_zero_and_no_accent() {
    let p = Phoneme::from_symbol(" ", true);
    assert_eq!(p.symbol, " ");
    assert_eq!(p.ordinal, 0);
    assert!(!p.accented);
    assert!(p.valid);
    let s = Phoneme::separator();
    assert_eq!(s.ordinal, 0);
    assert_eq!(s.symbol, " ");
}

#[test]
fn accent_is_kept_on_other_phonemes() {
    let p = Phoneme::from_symbol("A_", true);
    assert_eq!(p.ordinal, 2);
    assert!(p.accented);
    let q = Phoneme::from_symbol("[NOISE]", true);
    assert_eq!(q.ordinal, 48);
    assert_eq!(q.symbol, "NOISE");
    assert!(q.accented);
}

#[test]
fn unknown_symbol_gives_an_invalid_phoneme() {
    let p = Phoneme::from_symbol("labas", true);
    assert_eq!(p.symbol, "ERR-labas");
    assert_eq!(p.ordinal, -1);
    assert!(p.accented);
    assert!(!p.valid);
    let q = Phoneme::from_symbol("", false);
    assert_eq!(q.symbol, "ERR-");
    assert!(!q.valid);
}

#[test]
fn markers_need_their_brackets_and_their_case() {
    assert!(!Phoneme::from_symbol("PAUSE", false).valid);
    assert!(!Phoneme::from_symbol("[pause]", false).valid);
    assert!(!Phoneme::from_symbol("a", false).valid);
    assert!(!Phoneme::from_symbol("A ", false).valid);
}

#[test]
fn display_forms() {
    assert_eq!(Phoneme::from_symbol(" ", false).to_string(), " ");
    assert_eq!(Phoneme::from_symbol("A", false).to_string(), "[A]");
    assert_eq!(Phoneme::from_symbol("A", true).to_string(), "{A}");
    assert_eq!(Phoneme::from_symbol("[PAUSE]", false).to_string(), "[PAUSE]");
    assert_eq!(Phoneme::from_symbol("x", false).to_string(), "[ERR-x]");
    assert_eq!(Phoneme::from_symbol("x", true).to_string(), "{ERR-x}");
}

#[test]
fn phonemes_are_rendered_one_after_the_other() {
    let phonemes = vec![
        Phoneme::from_symbol("L", false),
        Phoneme::from_symbol("A", true),
        Phoneme::from_symbol(" ", false),
        Phoneme::from_symbol("[EH]", false),
    ];
    assert_eq!(render_phonemes(&phonemes), "[L]{A} [EH]");
    assert_eq!(render_phonemes(&Vec::new()), "");
}

#[test]
fn parsing_gives_the_unaccented_phoneme() {
    let p: Phoneme = "CH".parse().unwrap();
    assert_eq!(p.ordinal, 6);
    assert!(!p.accented);
    let q: Phoneme = "??".parse().unwrap();
    assert!(!q.valid);
}

#[test]
fn a_clone_is_the_same_phoneme() {
    let p = Phoneme::from_symbol("DZ2", true);
    let q = p.clone();
    assert_eq!(q.symbol, "DZ2");
    assert_eq!(q.ordinal, 9);
    assert!(q.accented);
    assert!(q.valid);
}
