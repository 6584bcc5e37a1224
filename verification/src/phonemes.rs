//! The phoneme symbol table: a closed catalog that gives every canonical
//! symbol its ordinal, and the phonemes built from it.

use vstd::prelude::*;
use vstd::string::*;
use crate::text::same_text;
use crate::text::views;

verus! {

/// The number of entries of the catalog.
pub const CATALOG_SIZE: i8 = 49;

/// The ordinal of a phoneme whose symbol the catalog does not hold.
pub const UNKNOWN_ORDINAL: i8 = -1;

/// An atomic unit of pronunciation.
#[derive(Debug)]
pub struct Phoneme {
    /// The canonical name, or `ERR-` followed by the text that was not recognised.
    pub symbol: String,
    /// The position in the catalog; 0 is the word separator, -1 stands for unknown.
    pub ordinal: i8,
    pub accented: bool,
    /// False only for a symbol that the catalog does not hold.
    pub valid: bool,
}

/// What a `Phoneme` is, as a mathematical value.
pub ghost struct PhonemeView {
    pub symbol: Seq<char>,
    pub ordinal: int,
    pub accented: bool,
    pub valid: bool,
}

impl View for Phoneme {
    type V = PhonemeView;

    open spec fn view(&self) -> PhonemeView {
        PhonemeView {
            symbol: self.symbol@,
            ordinal: self.ordinal as int,
            accented: self.accented,
            valid: self.valid,
        }
    }
}

/// The catalog, read from text to ordinal: the position of the entry that
/// `text` names, or -1 if it names none. The separator is written as a single
/// space, a marker with its square brackets.
pub open spec fn catalog_ordinal(text: Seq<char>) -> int {
    if text == " "@ {
        0
    } else if text == "A"@ {
        1
    } else if text == "A_"@ {
        2
    } else if text == "B"@ {
        3
    } else if text == "C"@ {
        4
    } else if text == "C2"@ {
        5
    } else if text == "CH"@ {
        6
    } else if text == "D"@ {
        7
    } else if text == "DZ"@ {
        8
    } else if text == "DZ2"@ {
        9
    } else if text == "E"@ {
        10
    } else if text == "E_"@ {
        11
    } else if text == "E3_"@ {
        12
    } else if text == "F"@ {
        13
    } else if text == "G"@ {
        14
    } else if text == "H"@ {
        15
    } else if text == "I"@ {
        16
    } else if text == "I_"@ {
        17
    } else if text == "IO_"@ {
        18
    } else if text == "IU"@ {
        19
    } else if text == "IU_"@ {
        20
    } else if text == "J."@ {
        21
    } else if text == "K"@ {
        22
    } else if text == "L"@ {
        23
    } else if text == "M"@ {
        24
    } else if text == "N"@ {
        25
    } else if text == "O_"@ {
        26
    } else if text == "P"@ {
        27
    } else if text == "R"@ {
        28
    } else if text == "S"@ {
        29
    } else if text == "S2"@ {
        30
    } else if text == "T"@ {
        31
    } else if text == "U"@ {
        32
    } else if text == "U_"@ {
        33
    } else if text == "V"@ {
        34
    } else if text == "Z"@ {
        35
    } else if text == "Z2"@ {
        36
    } else if text == "[PAUSE]"@ {
        37
    } else if text == "[INHALE]"@ {
        38
    } else if text == "[EXHALE]"@ {
        39
    } else if text == "[SWALLOW]"@ {
        40
    } else if text == "[SMACK]"@ {
        41
    } else if text == "[CHAIR]"@ {
        42
    } else if text == "[STOMACH]"@ {
        43
    } else if text == "[PAGE]"@ {
        44
    } else if text == "[DOOR]"@ {
        45
    } else if text == "[EH]"@ {
        46
    } else if text == "[MIDWORDPAUSE]"@ {
        47
    } else if text == "[NOISE]"@ {
        48
    } else {
        UNKNOWN_ORDINAL as int
    }
}

/// The symbols that the phonemes carry, in ordinal order. A marker's symbol
/// is its name without the brackets.
pub open spec fn catalog_symbols() -> Seq<Seq<char>> {
    seq![
        " "@, "A"@, "A_"@, "B"@, "C"@, "C2"@, "CH"@, "D"@, "DZ"@, "DZ2"@, "E"@, "E_"@, "E3_"@,
        "F"@, "G"@, "H"@, "I"@, "I_"@, "IO_"@, "IU"@, "IU_"@, "J."@, "K"@, "L"@, "M"@, "N"@,
        "O_"@, "P"@, "R"@, "S"@, "S2"@, "T"@, "U"@, "U_"@, "V"@, "Z"@, "Z2"@, "PAUSE"@,
        "INHALE"@, "EXHALE"@, "SWALLOW"@, "SMACK"@, "CHAIR"@, "STOMACH"@, "PAGE"@, "DOOR"@,
        "EH"@, "MIDWORDPAUSE"@, "NOISE"@,
    ]
}

/// The catalog position from which on the entries are markers.
pub const FIRST_MARKER: i8 = 37;

/// The text under which the catalog entry at position `k` is found: its
/// symbol, in square brackets if it is a marker.
pub open spec fn catalog_key(k: int) -> Seq<char> {
    if k < FIRST_MARKER {
        catalog_symbols()[k]
    } else {
        seq!['['] + catalog_symbols()[k] + seq![']']
    }
}

/// The prefix of the symbol of a phoneme that was not recognised.
pub open spec fn unknown_prefix() -> Seq<char> {
    "ERR-"@
}

/// The phoneme that `text` stands for. The separator never carries an accent.
pub open spec fn phoneme_of(text: Seq<char>, accent: bool) -> PhonemeView {
    let k = catalog_ordinal(text);
    if k >= 0 {
        PhonemeView { symbol: catalog_symbols()[k], ordinal: k, accented: accent && k != 0, valid: true }
    } else {
        PhonemeView {
            symbol: unknown_prefix() + text,
            ordinal: UNKNOWN_ORDINAL as int,
            accented: accent,
            valid: false,
        }
    }
}

/// How a phoneme is written out: the separator as itself, an accented phoneme
/// in braces, any other in square brackets.
pub open spec fn display_form(p: PhonemeView) -> Seq<char> {
    if p.ordinal == 0 {
        p.symbol
    } else if p.accented {
        seq!['{'] + p.symbol + seq!['}']
    } else {
        seq!['['] + p.symbol + seq![']']
    }
}

/// The display forms of `phonemes`, one after the other.
pub open spec fn rendering(phonemes: Seq<PhonemeView>) -> Seq<char>
    decreases phonemes.len(),
{
    if phonemes.len() == 0 {
        Seq::empty()
    } else {
        rendering(phonemes.drop_last()) + display_form(phonemes.last())
    }
}

/// Two texts with the same catalog ordinal are the same text: no two valid
/// symbols share an ordinal.
pub proof fn lemma_ordinal_names_one_text(a: Seq<char>, b: Seq<char>)
    requires
        catalog_ordinal(a) >= 0,
        catalog_ordinal(a) == catalog_ordinal(b),
    ensures
        a == b,
{
}

/// Every position of the catalog is taken: the key of entry `k` has the
/// ordinal `k`.
pub proof fn lemma_catalog_round_trip(k: int)
    requires
        0 <= k < CATALOG_SIZE,
    ensures
        catalog_ordinal(catalog_key(k)) == k,
{
    // The length and the first characters tell any two keys apart.
    assert(" "@.len() == 1 && " "@[0] == ' ') by {
        reveal_strlit(" ");
    }
    assert("A"@.len() == 1 && "A"@[0] == 'A') by {
        reveal_strlit("A");
    }
    assert("A_"@.len() == 2 && "A_"@[0] == 'A' && "A_"@[1] == '_') by {
        reveal_strlit("A_");
    }
    assert("B"@.len() == 1 && "B"@[0] == 'B') by {
        reveal_strlit("B");
    }
    assert("C"@.len() == 1 && "C"@[0] == 'C') by {
        reveal_strlit("C");
    }
    assert("C2"@.len() == 2 && "C2"@[0] == 'C' && "C2"@[1] == '2') by {
        reveal_strlit("C2");
    }
    assert("CH"@.len() == 2 && "CH"@[0] == 'C' && "CH"@[1] == 'H') by {
        reveal_strlit("CH");
    }
    assert("D"@.len() == 1 && "D"@[0] == 'D') by {
        reveal_strlit("D");
    }
    assert("DZ"@.len() == 2 && "DZ"@[0] == 'D' && "DZ"@[1] == 'Z') by {
        reveal_strlit("DZ");
    }
    assert("DZ2"@.len() == 3 && "DZ2"@[0] == 'D' && "DZ2"@[1] == 'Z' && "DZ2"@[2] == '2') by {
        reveal_strlit("DZ2");
    }
    assert("E"@.len() == 1 && "E"@[0] == 'E') by {
        reveal_strlit("E");
    }
    assert("E_"@.len() == 2 && "E_"@[0] == 'E' && "E_"@[1] == '_') by {
        reveal_strlit("E_");
    }
    assert("E3_"@.len() == 3 && "E3_"@[0] == 'E' && "E3_"@[1] == '3' && "E3_"@[2] == '_') by {
        reveal_strlit("E3_");
    }
    assert("F"@.len() == 1 && "F"@[0] == 'F') by {
        reveal_strlit("F");
    }
    assert("G"@.len() == 1 && "G"@[0] == 'G') by {
        reveal_strlit("G");
    }
    assert("H"@.len() == 1 && "H"@[0] == 'H') by {
        reveal_strlit("H");
    }
    assert("I"@.len() == 1 && "I"@[0] == 'I') by {
        reveal_strlit("I");
    }
    assert("I_"@.len() == 2 && "I_"@[0] == 'I' && "I_"@[1] == '_') by {
        reveal_strlit("I_");
    }
    assert("IO_"@.len() == 3 && "IO_"@[0] == 'I' && "IO_"@[1] == 'O' && "IO_"@[2] == '_') by {
        reveal_strlit("IO_");
    }
    assert("IU"@.len() == 2 && "IU"@[0] == 'I' && "IU"@[1] == 'U') by {
        reveal_strlit("IU");
    }
    assert("IU_"@.len() == 3 && "IU_"@[0] == 'I' && "IU_"@[1] == 'U' && "IU_"@[2] == '_') by {
        reveal_strlit("IU_");
    }
    assert("J."@.len() == 2 && "J."@[0] == 'J' && "J."@[1] == '.') by {
        reveal_strlit("J.");
    }
    assert("K"@.len() == 1 && "K"@[0] == 'K') by {
        reveal_strlit("K");
    }
    assert("L"@.len() == 1 && "L"@[0] == 'L') by {
        reveal_strlit("L");
    }
    assert("M"@.len() == 1 && "M"@[0] == 'M') by {
        reveal_strlit("M");
    }
    assert("N"@.len() == 1 && "N"@[0] == 'N') by {
        reveal_strlit("N");
    }
    assert("O_"@.len() == 2 && "O_"@[0] == 'O' && "O_"@[1] == '_') by {
        reveal_strlit("O_");
    }
    assert("P"@.len() == 1 && "P"@[0] == 'P') by {
        reveal_strlit("P");
    }
    assert("R"@.len() == 1 && "R"@[0] == 'R') by {
        reveal_strlit("R");
    }
    assert("S"@.len() == 1 && "S"@[0] == 'S') by {
        reveal_strlit("S");
    }
    assert("S2"@.len() == 2 && "S2"@[0] == 'S' && "S2"@[1] == '2') by {
        reveal_strlit("S2");
    }
    assert("T"@.len() == 1 && "T"@[0] == 'T') by {
        reveal_strlit("T");
    }
    assert("U"@.len() == 1 && "U"@[0] == 'U') by {
        reveal_strlit("U");
    }
    assert("U_"@.len() == 2 && "U_"@[0] == 'U' && "U_"@[1] == '_') by {
        reveal_strlit("U_");
    }
    assert("V"@.len() == 1 && "V"@[0] == 'V') by {
        reveal_strlit("V");
    }
    assert("Z"@.len() == 1 && "Z"@[0] == 'Z') by {
        reveal_strlit("Z");
    }
    assert("Z2"@.len() == 2 && "Z2"@[0] == 'Z' && "Z2"@[1] == '2') by {
        reveal_strlit("Z2");
    }
    assert("[PAUSE]"@.len() == 7 && "[PAUSE]"@[0] == '[' && "[PAUSE]"@[1] == 'P' && "[PAUSE]"@[2] == 'A') by {
        reveal_strlit("[PAUSE]");
    }
    assert("[INHALE]"@.len() == 8 && "[INHALE]"@[0] == '[' && "[INHALE]"@[1] == 'I' && "[INHALE]"@[2] == 'N') by {
        reveal_strlit("[INHALE]");
    }
    assert("[EXHALE]"@.len() == 8 && "[EXHALE]"@[0] == '[' && "[EXHALE]"@[1] == 'E' && "[EXHALE]"@[2] == 'X') by {
        reveal_strlit("[EXHALE]");
    }
    assert("[SWALLOW]"@.len() == 9 && "[SWALLOW]"@[0] == '[' && "[SWALLOW]"@[1] == 'S' && "[SWALLOW]"@[2] == 'W') by {
        reveal_strlit("[SWALLOW]");
    }
    assert("[SMACK]"@.len() == 7 && "[SMACK]"@[0] == '[' && "[SMACK]"@[1] == 'S' && "[SMACK]"@[2] == 'M') by {
        reveal_strlit("[SMACK]");
    }
    assert("[CHAIR]"@.len() == 7 && "[CHAIR]"@[0] == '[' && "[CHAIR]"@[1] == 'C' && "[CHAIR]"@[2] == 'H') by {
        reveal_strlit("[CHAIR]");
    }
    assert("[STOMACH]"@.len() == 9 && "[STOMACH]"@[0] == '[' && "[STOMACH]"@[1] == 'S' && "[STOMACH]"@[2] == 'T') by {
        reveal_strlit("[STOMACH]");
    }
    assert("[PAGE]"@.len() == 6 && "[PAGE]"@[0] == '[' && "[PAGE]"@[1] == 'P' && "[PAGE]"@[2] == 'A') by {
        reveal_strlit("[PAGE]");
    }
    assert("[DOOR]"@.len() == 6 && "[DOOR]"@[0] == '[' && "[DOOR]"@[1] == 'D' && "[DOOR]"@[2] == 'O') by {
        reveal_strlit("[DOOR]");
    }
    assert("[EH]"@.len() == 4 && "[EH]"@[0] == '[' && "[EH]"@[1] == 'E' && "[EH]"@[2] == 'H') by {
        reveal_strlit("[EH]");
    }
    assert("[MIDWORDPAUSE]"@.len() == 14 && "[MIDWORDPAUSE]"@[0] == '[' && "[MIDWORDPAUSE]"@[1] == 'M' && "[MIDWORDPAUSE]"@[2] == 'I') by {
        reveal_strlit("[MIDWORDPAUSE]");
    }
    assert("[NOISE]"@.len() == 7 && "[NOISE]"@[0] == '[' && "[NOISE]"@[1] == 'N' && "[NOISE]"@[2] == 'O') by {
        reveal_strlit("[NOISE]");
    }
    // A marker's key is its symbol in brackets.
    assert(seq!['['] + "PAUSE"@ + seq![']'] =~= "[PAUSE]"@) by {
        reveal_strlit("PAUSE");
        reveal_strlit("[PAUSE]");
    }
    assert(seq!['['] + "INHALE"@ + seq![']'] =~= "[INHALE]"@) by {
        reveal_strlit("INHALE");
        reveal_strlit("[INHALE]");
    }
    assert(seq!['['] + "EXHALE"@ + seq![']'] =~= "[EXHALE]"@) by {
        reveal_strlit("EXHALE");
        reveal_strlit("[EXHALE]");
    }
    assert(seq!['['] + "SWALLOW"@ + seq![']'] =~= "[SWALLOW]"@) by {
        reveal_strlit("SWALLOW");
        reveal_strlit("[SWALLOW]");
    }
    assert(seq!['['] + "SMACK"@ + seq![']'] =~= "[SMACK]"@) by {
        reveal_strlit("SMACK");
        reveal_strlit("[SMACK]");
    }
    assert(seq!['['] + "CHAIR"@ + seq![']'] =~= "[CHAIR]"@) by {
        reveal_strlit("CHAIR");
        reveal_strlit("[CHAIR]");
    }
    assert(seq!['['] + "STOMACH"@ + seq![']'] =~= "[STOMACH]"@) by {
        reveal_strlit("STOMACH");
        reveal_strlit("[STOMACH]");
    }
    assert(seq!['['] + "PAGE"@ + seq![']'] =~= "[PAGE]"@) by {
        reveal_strlit("PAGE");
        reveal_strlit("[PAGE]");
    }
    assert(seq!['['] + "DOOR"@ + seq![']'] =~= "[DOOR]"@) by {
        reveal_strlit("DOOR");
        reveal_strlit("[DOOR]");
    }
    assert(seq!['['] + "EH"@ + seq![']'] =~= "[EH]"@) by {
        reveal_strlit("EH");
        reveal_strlit("[EH]");
    }
    assert(seq!['['] + "MIDWORDPAUSE"@ + seq![']'] =~= "[MIDWORDPAUSE]"@) by {
        reveal_strlit("MIDWORDPAUSE");
        reveal_strlit("[MIDWORDPAUSE]");
    }
    assert(seq!['['] + "NOISE"@ + seq![']'] =~= "[NOISE]"@) by {
        reveal_strlit("NOISE");
        reveal_strlit("[NOISE]");
    }
}

/// Looks `text` up in the catalog.
fn ordinal_for(text: &str) -> (k: i8)
    ensures
        k as int == catalog_ordinal(text@),
        UNKNOWN_ORDINAL <= k < CATALOG_SIZE,
{
    if same_text(text, " ") {
        return 0;
    }
    if same_text(text, "A") {
        return 1;
    }
    if same_text(text, "A_") {
        return 2;
    }
    if same_text(text, "B") {
        return 3;
    }
    if same_text(text, "C") {
        return 4;
    }
    if same_text(text, "C2") {
        return 5;
    }
    if same_text(text, "CH") {
        return 6;
    }
    if same_text(text, "D") {
        return 7;
    }
    if same_text(text, "DZ") {
        return 8;
    }
    if same_text(text, "DZ2") {
        return 9;
    }
    if same_text(text, "E") {
        return 10;
    }
    if same_text(text, "E_") {
        return 11;
    }
    if same_text(text, "E3_") {
        return 12;
    }
    if same_text(text, "F") {
        return 13;
    }
    if same_text(text, "G") {
        return 14;
    }
    if same_text(text, "H") {
        return 15;
    }
    if same_text(text, "I") {
        return 16;
    }
    if same_text(text, "I_") {
        return 17;
    }
    if same_text(text, "IO_") {
        return 18;
    }
    if same_text(text, "IU") {
        return 19;
    }
    if same_text(text, "IU_") {
        return 20;
    }
    if same_text(text, "J.") {
        return 21;
    }
    if same_text(text, "K") {
        return 22;
    }
    if same_text(text, "L") {
        return 23;
    }
    if same_text(text, "M") {
        return 24;
    }
    if same_text(text, "N") {
        return 25;
    }
    if same_text(text, "O_") {
        return 26;
    }
    if same_text(text, "P") {
        return 27;
    }
    if same_text(text, "R") {
        return 28;
    }
    if same_text(text, "S") {
        return 29;
    }
    if same_text(text, "S2") {
        return 30;
    }
    if same_text(text, "T") {
        return 31;
    }
    if same_text(text, "U") {
        return 32;
    }
    if same_text(text, "U_") {
        return 33;
    }
    if same_text(text, "V") {
        return 34;
    }
    if same_text(text, "Z") {
        return 35;
    }
    if same_text(text, "Z2") {
        return 36;
    }
    if same_text(text, "[PAUSE]") {
        return 37;
    }
    if same_text(text, "[INHALE]") {
        return 38;
    }
    if same_text(text, "[EXHALE]") {
        return 39;
    }
    if same_text(text, "[SWALLOW]") {
        return 40;
    }
    if same_text(text, "[SMACK]") {
        return 41;
    }
    if same_text(text, "[CHAIR]") {
        return 42;
    }
    if same_text(text, "[STOMACH]") {
        return 43;
    }
    if same_text(text, "[PAGE]") {
        return 44;
    }
    if same_text(text, "[DOOR]") {
        return 45;
    }
    if same_text(text, "[EH]") {
        return 46;
    }
    if same_text(text, "[MIDWORDPAUSE]") {
        return 47;
    }
    if same_text(text, "[NOISE]") {
        return 48;
    }
    UNKNOWN_ORDINAL
}

/// The symbol of the catalog entry at position `k`.
fn symbol_at(k: i8) -> (s: &'static str)
    requires
        0 <= k < CATALOG_SIZE,
    ensures
        s@ == catalog_symbols()[k as int],
{
    match k {
        0 => " ",
        1 => "A",
        2 => "A_",
        3 => "B",
        4 => "C",
        5 => "C2",
        6 => "CH",
        7 => "D",
        8 => "DZ",
        9 => "DZ2",
        10 => "E",
        11 => "E_",
        12 => "E3_",
        13 => "F",
        14 => "G",
        15 => "H",
        16 => "I",
        17 => "I_",
        18 => "IO_",
        19 => "IU",
        20 => "IU_",
        21 => "J.",
        22 => "K",
        23 => "L",
        24 => "M",
        25 => "N",
        26 => "O_",
        27 => "P",
        28 => "R",
        29 => "S",
        30 => "S2",
        31 => "T",
        32 => "U",
        33 => "U_",
        34 => "V",
        35 => "Z",
        36 => "Z2",
        37 => "PAUSE",
        38 => "INHALE",
        39 => "EXHALE",
        40 => "SWALLOW",
        41 => "SMACK",
        42 => "CHAIR",
        43 => "STOMACH",
        44 => "PAGE",
        45 => "DOOR",
        46 => "EH",
        47 => "MIDWORDPAUSE",
        _ => "NOISE",
    }
}

impl Phoneme {
    /// Builds the phoneme that `symbol` names. A symbol that the catalog does
    /// not hold gives an invalid phoneme that keeps the text behind `ERR-`.
    pub fn from_symbol(symbol: &str, accent: bool) -> (p: Phoneme)
        ensures
            p@ == phoneme_of(symbol@, accent),
    {
        let k = ordinal_for(symbol);
        if k >= 0 {
            Phoneme { symbol: symbol_at(k).to_owned(), ordinal: k, accented: accent && k != 0, valid: true }
        } else {
            let mut text = "ERR-".to_owned();
            text.append(symbol);
            Phoneme { symbol: text, ordinal: UNKNOWN_ORDINAL, accented: accent, valid: false }
        }
    }

    /// The word separator, the phoneme of ordinal 0.
    pub fn separator() -> (p: Phoneme)
        ensures
            p@ == phoneme_of(" "@, false),
            p@.ordinal == 0,
    {
        Phoneme::from_symbol(" ", false)
    }

    /// The display form of the phoneme.
    pub fn to_string(&self) -> (s: String)
        ensures
            s@ == display_form(self@),
    {
        if self.ordinal == 0 {
            self.symbol.clone()
        } else if self.accented {
            proof {
                reveal_strlit("{");
                reveal_strlit("}");
            }
            let mut s = "{".to_owned();
            s.append(self.symbol.as_str());
            s.append("}");
            assert(s@ == seq!['{'] + self.symbol@ + seq!['}']);
            s
        } else {
            proof {
                reveal_strlit("[");
                reveal_strlit("]");
            }
            let mut s = "[".to_owned();
            s.append(self.symbol.as_str());
            s.append("]");
            assert(s@ == seq!['['] + self.symbol@ + seq![']']);
            s
        }
    }
}

impl Clone for Phoneme {
    fn clone(&self) -> (p: Phoneme)
        ensures
            p@ == self@,
    {
        Phoneme {
            symbol: self.symbol.clone(),
            ordinal: self.ordinal,
            accented: self.accented,
            valid: self.valid,
        }
    }
}

impl std::str::FromStr for Phoneme {
    type Err = String;

    /// The unaccented phoneme that `s` names; never an error.
    fn from_str(s: &str) -> (r: Result<Phoneme, String>)
        ensures
            r matches Ok(p) && p@ == phoneme_of(s@, false),
    {
        Ok(Phoneme::from_symbol(s, false))
    }
}

/// Writes `phonemes` out, each in its display form.
pub fn render_phonemes(phonemes: &Vec<Phoneme>) -> (s: String)
    ensures
        s@ == rendering(views(phonemes@)),
{
    let mut s = String::new();
    let mut i: usize = 0;
    while i < phonemes.len()
        invariant
            i <= phonemes.len(),
            s@ == rendering(views(phonemes@).take(i as int)),
        decreases phonemes.len() - i,
    {
        let piece = phonemes[i].to_string();
        s.append(piece.as_str());
        proof {
            let all = views(phonemes@);
            assert(all.take(i + 1).drop_last() == all.take(i as int));
            assert(all.take(i + 1).last() == phonemes[i as int]@);
        }
        i += 1;
    }
    assert(views(phonemes@).take(phonemes.len() as int) == views(phonemes@));
    s
}

} // verus!

