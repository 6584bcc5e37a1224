//! The normal form of a transcript: what normalizing leaves behind, and that
//! normalizing a normalized text changes nothing.

use vstd::prelude::*;
use crate::text::collapsed;
use crate::text::occurs_in;
use crate::text::trimmed;
use crate::text::without_accents;
use crate::text_laws::is_single_spaced;
use crate::text_laws::is_trimmed;
use crate::text_laws::lemma_collapsed_brings_no_char;
use crate::text_laws::lemma_collapsed_brings_no_occurrence;
use crate::text_laws::lemma_collapsed_ends;
use crate::text_laws::lemma_collapsed_is_single_spaced;
use crate::text_laws::lemma_collapsed_unchanged;
use crate::text_laws::lemma_foreign_char_bars_occurrence;
use crate::text_laws::lemma_no_accent_follows_after_stripping;
use crate::text_laws::lemma_part_brings_no_char;
use crate::text_laws::lemma_part_brings_no_occurrence;
use crate::text_laws::lemma_removing_underscores_brings_no_occurrence;
use crate::text_laws::lemma_replaced_brings_no_char;
use crate::text_laws::lemma_replaced_brings_no_occurrence;
use crate::text_laws::lemma_replaced_leaves_no_occurrence;
use crate::text_laws::lemma_replaced_removes_char;
use crate::text_laws::lemma_replaced_without_occurrence;
use crate::text_laws::lemma_trimmed;
use crate::text_laws::lemma_trimmed_unchanged;
use crate::text_laws::lemma_without_accents_brings_no_char;
use crate::text_laws::lemma_without_accents_brings_no_occurrence;
use crate::text_laws::lemma_without_accents_unchanged;
use crate::text_laws::underscore;
use crate::training_entry::accents_processed;
use crate::training_entry::encoding_errors_fixed;
use crate::training_entry::encoding_rules;
use crate::training_entry::marker_rules;
use crate::training_entry::markers_processed;
use crate::training_entry::normalized;
use crate::training_entry::postprocessed;
use crate::training_entry::rewritten;
use crate::training_entry::spacing_rules;
use crate::training_entry::spelling_errors_fixed;
use crate::training_entry::spelling_rules;
use crate::training_entry::Rule;

verus! {

/// Whether `c` is one of the remains of a wrong encoding.
pub open spec fn is_remains(c: char) -> bool {
    c == '\u{feff}' || c == '\u{9a}' || c == '\u{1f}'
}

/// Whether `c` is a line end or a tab.
pub open spec fn is_break(c: char) -> bool {
    c == '\r' || c == '\n' || c == '\t'
}

/// Whether `c` is a character that no rewrite brings into a text: a letter
/// of the replacements, a space or a square bracket.
pub open spec fn is_harmless(c: char) -> bool {
    !is_remains(c) && !is_break(c) && c != '_' && c != '-'
}

/// Whether every character of `text` is harmless.
pub open spec fn is_harmless_text(text: Seq<char>) -> bool {
    forall|j: int| 0 <= j < text.len() ==> is_harmless(#[trigger] text[j])
}

/// Whether `text` is a marker token: square brackets around capital letters.
pub open spec fn is_token(text: Seq<char>) -> bool {
    &&& text.len() >= 2
    &&& text[0] == '['
    &&& text.last() == ']'
    &&& forall|j: int|
        0 <= j < text.len() ==> ('A' <= #[trigger] text[j] <= 'Z') || text[j] == '[' || text[j]
            == ']'
}

/// The one misspelling that holds neither an underscore nor a hyphen.
pub open spec fn misspelled_name() -> Seq<char> {
    "Achemenidu"@
}

/// A text is canonical if no rewrite of the normalizer finds anything to
/// do in it: it holds no remains of a wrong encoding, no underscore, no
/// hyphen, no line end, no tab and no known misspelling, it neither starts
/// nor ends with white space, and no space in it follows a space.
pub open spec fn is_canonical(text: Seq<char>) -> bool {
    &&& forall|c: char| !is_harmless(c) ==> !text.contains(c)
    &&& !occurs_in(text, misspelled_name())
    &&& is_trimmed(text)
    &&& is_single_spaced(text)
}

/// A text that holds none of the patterns of the rules is left as it is.
pub proof fn lemma_rewritten_unchanged(text: Seq<char>, rules: Seq<Rule>)
    requires
        forall|i: int| 0 <= i < rules.len() ==> !occurs_in(text, (#[trigger] rules[i]).0),
    ensures
        rewritten(text, rules) == text,
    decreases rules.len(),
{
    if rules.len() > 0 {
        let before = rules.drop_last();
        assert forall|i: int| 0 <= i < before.len() implies !occurs_in(
            text,
            (#[trigger] before[i]).0,
        ) by {
            assert(before[i] == rules[i]);
        }
        lemma_rewritten_unchanged(text, before);
        assert(rules.last() == rules[rules.len() - 1]);
        lemma_replaced_without_occurrence(text, rules.last().0, rules.last().1);
    }
}

/// Rules bring in no character that none of their replacements holds.
pub proof fn lemma_rewritten_brings_no_char(text: Seq<char>, rules: Seq<Rule>, c: char)
    requires
        !text.contains(c),
        forall|i: int| 0 <= i < rules.len() ==> !(#[trigger] rules[i]).1.contains(c),
    ensures
        !rewritten(text, rules).contains(c),
    decreases rules.len(),
{
    if rules.len() > 0 {
        let before = rules.drop_last();
        assert forall|i: int| 0 <= i < before.len() implies !(#[trigger] before[i]).1.contains(
            c,
        ) by {
            assert(before[i] == rules[i]);
        }
        lemma_rewritten_brings_no_char(text, before, c);
        assert(rules.last() == rules[rules.len() - 1]);
        lemma_replaced_brings_no_char(rewritten(text, before), rules.last().0, rules.last().1, c);
    }
}

/// Rules bring in no occurrence of a text `x` that none of their
/// replacements holds, if `x` holds neither the first nor the last
/// character of a replacement.
pub proof fn lemma_rewritten_brings_no_occurrence(text: Seq<char>, rules: Seq<Rule>, x: Seq<char>)
    requires
        x.len() > 0,
        !occurs_in(text, x),
        forall|i: int|
            0 <= i < rules.len() ==> {
                let to = (#[trigger] rules[i]).1;
                to.len() > 0 && !x.contains(to[0]) && !x.contains(to.last()) && !occurs_in(to, x)
            },
    ensures
        !occurs_in(rewritten(text, rules), x),
    decreases rules.len(),
{
    if rules.len() > 0 {
        let before = rules.drop_last();
        assert forall|i: int| 0 <= i < before.len() implies {
            let to = (#[trigger] before[i]).1;
            to.len() > 0 && !x.contains(to[0]) && !x.contains(to.last()) && !occurs_in(to, x)
        } by {
            assert(before[i] == rules[i]);
        }
        lemma_rewritten_brings_no_occurrence(text, before, x);
        assert(rules.last() == rules[rules.len() - 1]);
        lemma_replaced_brings_no_occurrence(
            rewritten(text, before),
            rules.last().0,
            rules.last().1,
            x,
        );
    }
}

/// A rule that replaces a single character removes it for good if neither
/// its replacement nor a later one holds the character.
pub proof fn lemma_rewritten_removes_char(text: Seq<char>, rules: Seq<Rule>, k: int, c: char)
    requires
        0 <= k < rules.len(),
        rules[k].0 == seq![c],
        forall|i: int| k <= i < rules.len() ==> !(#[trigger] rules[i]).1.contains(c),
    ensures
        !rewritten(text, rules).contains(c),
    decreases rules.len(),
{
    let before = rules.drop_last();
    let last = rules.last();
    assert(last == rules[rules.len() - 1]);
    if k == rules.len() - 1 {
        lemma_replaced_removes_char(rewritten(text, before), c, last.1);
    } else {
        assert(before[k] == rules[k]);
        assert forall|i: int| k <= i < before.len() implies !(#[trigger] before[i]).1.contains(
            c,
        ) by {
            assert(before[i] == rules[i]);
        }
        lemma_rewritten_removes_char(text, before, k, c);
        lemma_replaced_brings_no_char(rewritten(text, before), last.0, last.1, c);
    }
}

/// The rules against the remains of a wrong encoding: each replaces one of
/// the three characters, by nothing or by a harmless letter.
pub proof fn lemma_encoding_rules()
    ensures
        encoding_rules().len() == 3,
        encoding_rules()[0].0 == seq!['\u{feff}'],
        encoding_rules()[1].0 == seq!['\u{9a}'],
        encoding_rules()[2].0 == seq!['\u{1f}'],
        forall|i: int| 0 <= i < 3 ==> is_harmless_text((#[trigger] encoding_rules()[i]).1),
{
    reveal_strlit("\u{feff}");
    reveal_strlit("\u{9a}");
    reveal_strlit("\u{1f}");
    reveal_strlit("");
    reveal_strlit("ž");
    assert("\u{feff}"@ =~= seq!['\u{feff}']);
    assert("\u{9a}"@ =~= seq!['\u{9a}']);
    assert("\u{1f}"@ =~= seq!['\u{1f}']);
    assert(is_harmless_text(""@));
    assert(is_harmless_text("ž"@));
}

/// The spelling rules: each pattern but the last holds an underscore or a
/// hyphen, and each replacement is free of the remains of a wrong encoding.
/// The last rule corrects a name by its last letter.
pub proof fn lemma_spelling_rules()
    ensures
        spelling_rules().len() == 7,
        forall|i: int|
            0 <= i < 6 ==> (#[trigger] spelling_rules()[i]).0.contains('_') || spelling_rules()[i].0.contains(
                '-',
            ),
        forall|i: int, j: int|
            0 <= i < 7 && 0 <= j < spelling_rules()[i].1.len() ==> !is_remains(
                #[trigger] spelling_rules()[i].1[j],
            ),
        spelling_rules()[6].0 == misspelled_name(),
        spelling_rules()[6].1 == "Achemenidų"@,
{
    reveal_strlit("_centrai centrai");
    reveal_strlit("indais _dais");
    reveal_strlit("_is kvepimas");
    reveal_strlit("_puslpais");
    reveal_strlit("_dutys");
    reveal_strlit("Simono-Petro");
    reveal_strlit("centrai");
    reveal_strlit("indais_dais");
    reveal_strlit("_iskvepimas");
    reveal_strlit("_puslapis");
    reveal_strlit("_durys");
    reveal_strlit("Simono Petro");
    reveal_strlit("Achemenidų");
    assert("_centrai centrai"@[0] == '_');
    assert("indais _dais"@[7] == '_');
    assert("_is kvepimas"@[0] == '_');
    assert("_puslpais"@[0] == '_');
    assert("_dutys"@[0] == '_');
    assert("Simono-Petro"@[6] == '-');
    assert(forall|j: int| 0 <= j < "centrai"@.len() ==> !is_remains(#[trigger] "centrai"@[j]));
    assert(forall|j: int|
        0 <= j < "indais_dais"@.len() ==> !is_remains(#[trigger] "indais_dais"@[j]));
    assert(forall|j: int|
        0 <= j < "_iskvepimas"@.len() ==> !is_remains(#[trigger] "_iskvepimas"@[j]));
    assert(forall|j: int| 0 <= j < "_puslapis"@.len() ==> !is_remains(#[trigger] "_puslapis"@[j]));
    assert(forall|j: int| 0 <= j < "_durys"@.len() ==> !is_remains(#[trigger] "_durys"@[j]));
    assert(forall|j: int|
        0 <= j < "Simono Petro"@.len() ==> !is_remains(#[trigger] "Simono Petro"@[j]));
    assert(forall|j: int| 0 <= j < "Achemenidų"@.len() ==> !is_remains(#[trigger] "Achemenidų"@[j]));
}

/// The misspelled name and its correction: ten letters each, the same but
/// for the last, with the capital at the start and nowhere else.
pub proof fn lemma_misspelled_name()
    ensures
        misspelled_name().len() == 10,
        "Achemenidų"@.len() == 10,
        misspelled_name()[0] == 'A',
        "Achemenidų"@[0] == 'A',
        misspelled_name()[1] == 'c',
        misspelled_name() != "Achemenidų"@,
        forall|k: int| 1 <= k < 10 ==> #[trigger] misspelled_name()[k] != 'A',
        forall|k: int| 1 <= k < 10 ==> #[trigger] "Achemenidų"@[k] != 'A',
        forall|k: int|
            0 <= k < 10 ==> ('a' <= #[trigger] misspelled_name()[k] <= 'z') || misspelled_name()[k]
                == 'A',
{
    reveal_strlit("Achemenidu");
    reveal_strlit("Achemenidų");
    assert(misspelled_name()[9] != "Achemenidų"@[9]);
}

/// Every marker rule replaces a text that starts with an underscore or a
/// hyphen by a marker token; the last of them replaces the hyphen.
pub proof fn lemma_marker_rules()
    ensures
        marker_rules().len() == 13,
        forall|i: int|
            0 <= i < 13 ==> {
                let rule = #[trigger] marker_rules()[i];
                &&& rule.0.len() > 0
                &&& (rule.0[0] == '_' || rule.0[0] == '-')
                &&& is_token(rule.1)
            },
        marker_rules()[12].0 == seq!['-'],
{
    reveal_strlit("_pauze");
    reveal_strlit("_tyla");
    reveal_strlit("_ikvepimas");
    reveal_strlit("_iskvepimas");
    reveal_strlit("_nurijimas");
    reveal_strlit("_cepsejimas");
    reveal_strlit("_kede");
    reveal_strlit("_pilvas");
    reveal_strlit("_garsas");
    reveal_strlit("_puslapis");
    reveal_strlit("_durys");
    reveal_strlit("_eh");
    reveal_strlit("-");
    reveal_strlit("[PAUSE]");
    reveal_strlit("[INHALE]");
    reveal_strlit("[EXHALE]");
    reveal_strlit("[SWALLOW]");
    reveal_strlit("[SMACK]");
    reveal_strlit("[CHAIR]");
    reveal_strlit("[STOMACH]");
    reveal_strlit("[NOISE]");
    reveal_strlit("[PAGE]");
    reveal_strlit("[DOOR]");
    reveal_strlit("[EH]");
    reveal_strlit("[MIDWORDPAUSE]");
    assert(is_token("[PAUSE]"@));
    assert(is_token("[INHALE]"@));
    assert(is_token("[EXHALE]"@));
    assert(is_token("[SWALLOW]"@));
    assert(is_token("[SMACK]"@));
    assert(is_token("[CHAIR]"@));
    assert(is_token("[STOMACH]"@));
    assert(is_token("[NOISE]"@));
    assert(is_token("[PAGE]"@));
    assert(is_token("[DOOR]"@));
    assert(is_token("[EH]"@));
    assert(is_token("[MIDWORDPAUSE]"@));
    assert("-"@ =~= seq!['-']);
}

/// The spacing rules: each replaces a line end or a tab by a space.
pub proof fn lemma_spacing_rules()
    ensures
        spacing_rules().len() == 3,
        spacing_rules()[0] == (seq!['\r'], seq![' ']),
        spacing_rules()[1] == (seq!['\n'], seq![' ']),
        spacing_rules()[2] == (seq!['\t'], seq![' ']),
{
    reveal_strlit("\r");
    reveal_strlit("\n");
    reveal_strlit("\t");
    reveal_strlit(" ");
    assert("\r"@ =~= seq!['\r']);
    assert("\n"@ =~= seq!['\n']);
    assert("\t"@ =~= seq!['\t']);
    assert(" "@ =~= seq![' ']);
}

/// The pattern and the replacement of the underscore removal.
pub proof fn lemma_underscore_rule()
    ensures
        "_"@ == underscore(),
        ""@ == Seq::<char>::empty(),
{
    reveal_strlit("_");
    reveal_strlit("");
    assert("_"@ =~= underscore());
    assert(""@ =~= Seq::<char>::empty());
}

/// A harmless text holds no character that is not harmless.
pub proof fn lemma_harmless_text_lacks(text: Seq<char>, c: char)
    requires
        is_harmless_text(text),
        !is_harmless(c),
    ensures
        !text.contains(c),
{
}

/// A marker token holds none of the characters that the rewrites remove,
/// and the misspelled name does not occur in it.
pub proof fn lemma_token_is_harmless(token: Seq<char>)
    requires
        is_token(token),
    ensures
        is_harmless_text(token),
        !occurs_in(token, misspelled_name()),
        !misspelled_name().contains(token[0]),
        !misspelled_name().contains(token.last()),
{
    lemma_misspelled_name();
    assert(!token.contains('c'));
    lemma_foreign_char_bars_occurrence(token, misspelled_name(), 1);
}

/// Whether `text` holds none of the remains of a wrong encoding.
pub open spec fn is_free_of_remains(text: Seq<char>) -> bool {
    !text.contains('\u{feff}') && !text.contains('\u{9a}') && !text.contains('\u{1f}')
}

/// The first rewrite leaves none of the remains of a wrong encoding.
pub proof fn lemma_encoding_errors_fixed(text: Seq<char>)
    ensures
        is_free_of_remains(encoding_errors_fixed(text)),
{
    lemma_encoding_rules();
    let rules = encoding_rules();
    assert forall|i: int, c: char| 0 <= i < 3 && is_remains(c) implies !#[trigger] rules[i].1.contains(
        c,
    ) by {
        lemma_harmless_text_lacks(rules[i].1, c);
    }
    lemma_rewritten_removes_char(text, rules, 0, '\u{feff}');
    lemma_rewritten_removes_char(text, rules, 1, '\u{9a}');
    lemma_rewritten_removes_char(text, rules, 2, '\u{1f}');
}

/// The second rewrite brings in none of the remains, and it leaves no
/// occurrence of the misspelled name.
pub proof fn lemma_spelling_errors_fixed(text: Seq<char>)
    requires
        is_free_of_remains(text),
    ensures
        is_free_of_remains(spelling_errors_fixed(text)),
        !occurs_in(spelling_errors_fixed(text), misspelled_name()),
{
    lemma_spelling_rules();
    lemma_misspelled_name();
    let rules = spelling_rules();
    assert forall|i: int, c: char| 0 <= i < 7 && is_remains(c) implies !#[trigger] rules[i].1.contains(
        c,
    ) by {
        if rules[i].1.contains(c) {
            let j = choose|j: int| 0 <= j < rules[i].1.len() && rules[i].1[j] == c;
            assert(!is_remains(spelling_rules()[i].1[j]));
        }
    }
    lemma_rewritten_brings_no_char(text, rules, '\u{feff}');
    lemma_rewritten_brings_no_char(text, rules, '\u{9a}');
    lemma_rewritten_brings_no_char(text, rules, '\u{1f}');
    assert(rules.last() == rules[6]);
    lemma_replaced_leaves_no_occurrence(
        rewritten(text, rules.drop_last()),
        misspelled_name(),
        "Achemenidų"@,
    );
}

/// The third rewrite brings in neither remains nor the misspelled name,
/// and it leaves no hyphen.
pub proof fn lemma_markers_processed(text: Seq<char>)
    requires
        is_free_of_remains(text),
        !occurs_in(text, misspelled_name()),
    ensures
        is_free_of_remains(markers_processed(text)),
        !occurs_in(markers_processed(text), misspelled_name()),
        !markers_processed(text).contains('-'),
{
    lemma_marker_rules();
    lemma_misspelled_name();
    let rules = marker_rules();
    assert forall|i: int| 0 <= i < 13 implies {
        let to = (#[trigger] rules[i]).1;
        &&& is_harmless_text(to)
        &&& to.len() > 0
        &&& !misspelled_name().contains(to[0])
        &&& !misspelled_name().contains(to.last())
        &&& !occurs_in(to, misspelled_name())
    } by {
        lemma_token_is_harmless(rules[i].1);
    }
    assert forall|i: int, c: char| 0 <= i < 13 && !is_harmless(c) implies !#[trigger] rules[i].1.contains(
        c,
    ) by {
        lemma_harmless_text_lacks(rules[i].1, c);
    }
    lemma_rewritten_brings_no_char(text, rules, '\u{feff}');
    lemma_rewritten_brings_no_char(text, rules, '\u{9a}');
    lemma_rewritten_brings_no_char(text, rules, '\u{1f}');
    lemma_rewritten_brings_no_occurrence(text, rules, misspelled_name());
    lemma_rewritten_removes_char(text, rules, 12, '-');
}

/// The fourth rewrite brings in nothing, and it leaves no underscore.
pub proof fn lemma_accents_processed(text: Seq<char>)
    requires
        is_free_of_remains(text),
        !occurs_in(text, misspelled_name()),
        !text.contains('-'),
    ensures
        is_free_of_remains(accents_processed(text)),
        !occurs_in(accents_processed(text), misspelled_name()),
        !accents_processed(text).contains('-'),
        !accents_processed(text).contains('_'),
{
    lemma_underscore_rule();
    lemma_misspelled_name();
    let name = misspelled_name();
    let gone = Seq::<char>::empty();
    let stripped = without_accents(text);
    assert(!name.contains(' ') && !name.contains('_')) by {
        assert forall|k: int| 0 <= k < name.len() implies name[k] != ' ' && name[k] != '_' by {
            assert(('a' <= name[k] <= 'z') || name[k] == 'A');
        }
    }
    lemma_without_accents_brings_no_char(text, 0, false, '\u{feff}');
    lemma_without_accents_brings_no_char(text, 0, false, '\u{9a}');
    lemma_without_accents_brings_no_char(text, 0, false, '\u{1f}');
    lemma_without_accents_brings_no_char(text, 0, false, '-');
    lemma_replaced_brings_no_char(stripped, underscore(), gone, '\u{feff}');
    lemma_replaced_brings_no_char(stripped, underscore(), gone, '\u{9a}');
    lemma_replaced_brings_no_char(stripped, underscore(), gone, '\u{1f}');
    lemma_replaced_brings_no_char(stripped, underscore(), gone, '-');
    lemma_replaced_removes_char(stripped, '_', gone);
    lemma_without_accents_brings_no_occurrence(text, 0, false, name);
    lemma_no_accent_follows_after_stripping(text, 0, false);
    lemma_removing_underscores_brings_no_occurrence(stripped, name);
}

/// The fifth rewrite brings in nothing and leaves a canonical text.
pub proof fn lemma_postprocessed(text: Seq<char>)
    requires
        is_free_of_remains(text),
        !occurs_in(text, misspelled_name()),
        !text.contains('-'),
        !text.contains('_'),
    ensures
        is_canonical(postprocessed(text)),
{
    lemma_spacing_rules();
    lemma_misspelled_name();
    let name = misspelled_name();
    let rules = spacing_rules();
    let spaced = rewritten(text, rules);
    assert(!name.contains(' ')) by {
        assert forall|k: int| 0 <= k < name.len() implies name[k] != ' ' by {
            assert(('a' <= name[k] <= 'z') || name[k] == 'A');
        }
    }
    assert forall|i: int| 0 <= i < 3 implies {
        let to = (#[trigger] rules[i]).1;
        to.len() > 0 && !name.contains(to[0]) && !name.contains(to.last()) && !occurs_in(to, name)
    } by {
        assert(rules[i].1 == seq![' ']);
        assert(!seq![' '].contains('c'));
        lemma_foreign_char_bars_occurrence(rules[i].1, name, 1);
    }
    assert forall|i: int, c: char| 0 <= i < 3 && c != ' ' implies !#[trigger] rules[i].1.contains(
        c,
    ) by {
        assert(rules[i].1 == seq![' ']);
    }
    lemma_rewritten_brings_no_char(text, rules, '\u{feff}');
    lemma_rewritten_brings_no_char(text, rules, '\u{9a}');
    lemma_rewritten_brings_no_char(text, rules, '\u{1f}');
    lemma_rewritten_brings_no_char(text, rules, '-');
    lemma_rewritten_brings_no_char(text, rules, '_');
    lemma_rewritten_removes_char(text, rules, 0, '\r');
    lemma_rewritten_removes_char(text, rules, 1, '\n');
    lemma_rewritten_removes_char(text, rules, 2, '\t');
    lemma_rewritten_brings_no_occurrence(text, rules, name);
    let part = lemma_trimmed(spaced);
    let cut = trimmed(spaced);
    let out = collapsed(cut);
    lemma_part_brings_no_occurrence(spaced, part.0, part.1, name);
    lemma_collapsed_brings_no_occurrence(cut, name);
    lemma_collapsed_is_single_spaced(cut);
    lemma_collapsed_ends(cut);
    assert forall|c: char| !is_harmless(c) implies !out.contains(c) by {
        assert(!spaced.contains(c));
        lemma_part_brings_no_char(spaced, part.0, part.1, c);
        lemma_collapsed_brings_no_char(cut, c);
    }
}

/// What the normalizer leaves is canonical.
pub proof fn lemma_normalized_is_canonical(text: Seq<char>)
    ensures
        is_canonical(normalized(text)),
{
    let first = encoding_errors_fixed(text);
    let second = spelling_errors_fixed(first);
    let third = markers_processed(second);
    let fourth = accents_processed(third);
    lemma_encoding_errors_fixed(text);
    lemma_spelling_errors_fixed(first);
    lemma_markers_processed(second);
    lemma_accents_processed(third);
    lemma_postprocessed(fourth);
}

/// The normalizer leaves a canonical text as it is.
pub proof fn lemma_canonical_is_unchanged(text: Seq<char>)
    requires
        is_canonical(text),
    ensures
        normalized(text) == text,
{
    lemma_encoding_rules();
    lemma_spelling_rules();
    lemma_marker_rules();
    lemma_spacing_rules();
    lemma_underscore_rule();
    assert(!is_harmless('\u{feff}') && !is_harmless('\u{9a}') && !is_harmless('\u{1f}'));
    assert(!is_harmless('\r') && !is_harmless('\n') && !is_harmless('\t'));
    assert(!is_harmless('_') && !is_harmless('-'));
    assert forall|i: int| 0 <= i < 3 implies !occurs_in(text, (#[trigger] encoding_rules()[i]).0) by {
        lemma_foreign_char_bars_occurrence(text, encoding_rules()[i].0, 0);
    }
    lemma_rewritten_unchanged(text, encoding_rules());
    assert forall|i: int| 0 <= i < 7 implies !occurs_in(text, (#[trigger] spelling_rules()[i]).0) by {
        let from = spelling_rules()[i].0;
        if i < 6 {
            if from.contains('_') {
                let k = choose|k: int| 0 <= k < from.len() && from[k] == '_';
                lemma_foreign_char_bars_occurrence(text, from, k);
            } else {
                let k = choose|k: int| 0 <= k < from.len() && from[k] == '-';
                lemma_foreign_char_bars_occurrence(text, from, k);
            }
        }
    }
    lemma_rewritten_unchanged(text, spelling_rules());
    assert forall|i: int| 0 <= i < 13 implies !occurs_in(text, (#[trigger] marker_rules()[i]).0) by {
        lemma_foreign_char_bars_occurrence(text, marker_rules()[i].0, 0);
    }
    lemma_rewritten_unchanged(text, marker_rules());
    lemma_without_accents_unchanged(text, 0);
    assert(text.skip(0) == text);
    lemma_foreign_char_bars_occurrence(text, underscore(), 0);
    lemma_replaced_without_occurrence(text, underscore(), Seq::empty());
    assert(accents_processed(text) == text);
    assert forall|i: int| 0 <= i < 3 implies !occurs_in(text, (#[trigger] spacing_rules()[i]).0) by {
        lemma_foreign_char_bars_occurrence(text, spacing_rules()[i].0, 0);
    }
    lemma_rewritten_unchanged(text, spacing_rules());
    lemma_trimmed_unchanged(text);
    lemma_collapsed_unchanged(text);
}

/// Normalizing is idempotent: a second pass over a normalized text changes
/// nothing.
pub proof fn lemma_normalize_is_idempotent(text: Seq<char>)
    ensures
        normalized(normalized(text)) == normalized(text),
{
    lemma_normalized_is_canonical(text);
    lemma_canonical_is_unchanged(normalized(text));
}

} // verus!
