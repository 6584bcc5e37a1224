use dict_walker::training_entry::TrainingEntry;
use regex::Regex;

fn reference(raw: &str) -> String {
    let accent = Regex::new(r"(?P<last>[^ ])(?P<accent>_[^ ]+)").unwrap();
    let spaces = Regex::new(r" {2,}").unwrap();
    let t = raw.replace("\u{feff}", "").replace("\u{9a}", "ž").replace("\u{1f}", "");
    let t = t
        .replace("_centrai centrai", "centrai")
        .replace("indais _dais", "indais_dais")
        .replace("_is kvepimas", "_iskvepimas")
        .replace("_puslpais", "_puslapis")
        .replace("_dutys", "_durys")
        .replace("Simono-Petro", "Simono Petro")
        .replace("Achemenidu", "Achemenidų");
    let t = t
        .replace("_pauze", "[PAUSE]")
        .replace("_tyla", "[PAUSE]")
        .replace("_ikvepimas", "[INHALE]")
        .replace("_iskvepimas", "[EXHALE]")
        .replace("_nurijimas", "[SWALLOW]")
        .replace("_cepsejimas", "[SMACK]")
        .replace("_kede", "[CHAIR]")
        .replace("_pilvas", "[STOMACH]")
        .replace("_garsas", "[NOISE]")
        .replace("_puslapis", "[PAGE]")
        .replace("_durys", "[DOOR]")
        .replace("_eh", "[EH]")
        .replace("-", "[MIDWORDPAUSE]");
    let t = accent.replace_all(&t, "$last").replace("_", "");
    String::from(spaces.replace_all(t.replace("\r", " ").replace("\n", " ").replace("\t", " ").trim(), " "))
}

fn transcripts() -> Vec<String> {
    let pieces = [
        "labas", "_pauze", "_tyla", "_ikvepimas", "_iskvepimas", "_is kvepimas", "_nurijimas",
        "_cepsejimas", "_kede", "_pilvas", "_garsas", "_puslapis", "_puslpais", "_durys", "_dutys",
        "_eh", "-", " ", "  ", "\t", "\r\n", "\n", "_", "a_3", "_centrai centrai", "indais _dais",
        "Simono-Petro", "Achemenidu", "Achemen", "idu", "\u{feff}", "\u{9a}", "\u{1f}", "Ž", "ū_1",
        "\u{a0}", "[", "]", "ka_s", "__", "x",
    ];
    let mut all: Vec<String> = pieces.iter().map(|p| String::from(*p)).collect();
    for a in pieces {
        for b in pieces {
            all.push(format!("{}{}", a, b));
        }
    }
    let mut state: u64 = 99;
    for _ in 0..3000 {
        let mut text = String::new();
        state = state.wrapping_mul(6364136223846793005).wrapping_add(1442695040888963407);
        let n = 1 + (state >> 33) % 6;
        for _ in 0..n {
            state = state.wrapping_mul(6364136223846793005).wrapping_add(1442695040888963407);
            text.push_str(pieces[((state >> 33) % pieces.len() as u64) as usize]);
        }
        all.push(text);
    }
    all
}

#[test]
fn markers_are_substituted() {
    assert_eq!(TrainingEntry::normalize("a-b _pauze c"), "a[MIDWORDPAUSE]b [PAUSE] c");
}

#[test]
fn normalizing_agrees_with_the_five_rewrites_written_out() {
    for raw in transcripts() {
        assert_eq!(TrainingEntry::normalize(&raw), reference(&raw), "{:?}", raw);
    }
}

#[test]
fn normalizing_twice_changes_nothing_more() {
    for raw in transcripts() {
        let once = TrainingEntry::normalize(&raw);
        assert_eq!(TrainingEntry::normalize(&once), once, "{:?}", raw);
    }
}

#[test]
fn encoding_errors_are_fixed() {
    assert_eq!(TrainingEntry::fix_encoding_errors(String::from("\u{feff}\u{9a}odis\u{1f}")), "žodis");
    assert_eq!(TrainingEntry::fix_encoding_errors(String::from("žodis")), "žodis");
}

#[test]
fn spelling_errors_are_fixed() {
    assert_eq!(TrainingEntry::fix_spelling_errors(String::from("_centrai centrai")), "centrai");
    assert_eq!(TrainingEntry::fix_spelling_errors(String::from("indais _dais")), "indais_dais");
    assert_eq!(TrainingEntry::fix_spelling_errors(String::from("_is kvepimas")), "_iskvepimas");
    assert_eq!(TrainingEntry::fix_spelling_errors(String::from("_puslpais")), "_puslapis");
    assert_eq!(TrainingEntry::fix_spelling_errors(String::from("_dutys")), "_durys");
    assert_eq!(TrainingEntry::fix_spelling_errors(String::from("Simono-Petro")), "Simono Petro");
    assert_eq!(TrainingEntry::fix_spelling_errors(String::from("Achemenidu")), "Achemenidų");
}

#[test]
fn each_marker_has_its_token() {
    let pairs = [
        ("_pauze", "[PAUSE]"),
        ("_tyla", "[PAUSE]"),
        ("_ikvepimas", "[INHALE]"),
        ("_iskvepimas", "[EXHALE]"),
        ("_nurijimas", "[SWALLOW]"),
        ("_cepsejimas", "[SMACK]"),
        ("_kede", "[CHAIR]"),
        ("_pilvas", "[STOMACH]"),
        ("_garsas", "[NOISE]"),
        ("_puslapis", "[PAGE]"),
        ("_durys", "[DOOR]"),
        ("_eh", "[EH]"),
        ("-", "[MIDWORDPAUSE]"),
    ];
    for (marker, token) in pairs {
        assert_eq!(TrainingEntry::process_markers(String::from(marker)), token);
        assert_eq!(TrainingEntry::normalize(marker), token);
    }
}

#[test]
fn accents_and_underscores_go() {
    assert_eq!(TrainingEntry::process_accents(String::from("ka_3s _yra na_")), "ka yra na");
}

#[test]
fn white_space_becomes_canonical() {
    assert_eq!(TrainingEntry::perform_postprocessing(String::from(" \ta \r\n b   c\n")), "a b c");
    assert_eq!(TrainingEntry::perform_postprocessing(String::from("   ")), "");
    assert_eq!(TrainingEntry::perform_postprocessing(String::from("\u{a0}a\u{a0}\u{a0}b ")), "a\u{a0}\u{a0}b");
}

#[test]
fn a_misspelled_marker_is_corrected_before_it_is_substituted() {
    assert_eq!(TrainingEntry::normalize("_puslpais _dutys _is kvepimas"), "[PAGE] [DOOR] [EXHALE]");
}

#[test]
fn the_rewrites_work_on_what_the_earlier_ones_left() {
    assert_eq!(TrainingEntry::normalize("_pau\u{feff}ze"), "[PAUSE]");
    assert_eq!(TrainingEntry::normalize("Simono-Petro"), "Simono Petro");
    assert_eq!(TrainingEntry::normalize("\u{feff}Labas  rytas_1 \tvisiems\r\n"), "Labas rytas visiems");
    // an accent suffix ends at a space only: a tab behind it goes with it
    assert_eq!(TrainingEntry::normalize("rytas_1\tvisiems"), "rytas");
    assert_eq!(TrainingEntry::normalize(""), "");
}
