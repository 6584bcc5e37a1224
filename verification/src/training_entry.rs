//! The transcript normalizer and the training entries it leads to.
//!
//! A raw transcript passes five rewrites in a fixed order; the canonical text
//! that comes out is split into words, and each word is resolved to phonemes.

use vstd::prelude::*;
use vstd::string::StrSliceExecFns;
use crate::dict_entry::DictEntry;
use crate::phoneme_resolvers::answer_view;
use crate::phoneme_resolvers::chain_is_determined;
use crate::phoneme_resolvers::chain_resolution;
use crate::phoneme_resolvers::is_bracketed;
use crate::phoneme_resolvers::lemma_determined_answer;
use crate::phoneme_resolvers::may_answer;
use crate::phoneme_resolvers::resolve_word;
use crate::phoneme_resolvers::Resolver;
use crate::phonemes::phoneme_of;
use crate::phonemes::Phoneme;
use crate::phonemes::PhonemeView;
use crate::text::lemma_views_push;
use crate::text::lowercase;
use crate::text::split_words;
use crate::text::views;
use crate::text::words;
use crate::text::chars_of;
use crate::text::collapse_spaces;
use crate::text::collapsed;
use crate::text::replace_all;
use crate::text::replaced;
use crate::text::string_of;
use crate::text::strip_accents;
use crate::text::trim;
use crate::text::trimmed;
use crate::text::without_accents;

verus! {

/// One rewrite rule: every occurrence of the first text becomes the second.
pub type Rule = (Seq<char>, Seq<char>);

/// `text` after the `rules` were applied one after the other, each to what
/// the rules before it left.
pub open spec fn rewritten(text: Seq<char>, rules: Seq<Rule>) -> Seq<char>
    decreases rules.len(),
{
    if rules.len() == 0 {
        text
    } else {
        replaced(rewritten(text, rules.drop_last()), rules.last().0, rules.last().1)
    }
}

/// What the rules of a table are, as mathematical values.
pub open spec fn rule_views(table: Seq<(&'static str, &'static str)>) -> Seq<Rule> {
    Seq::new(table.len(), |i: int| (table[i].0@, table[i].1@))
}

/// Applies the rules of `table` to `text`, in order.
fn rewrite(text: Vec<char>, table: &Vec<(&'static str, &'static str)>) -> (out: Vec<char>)
    ensures
        out@ == rewritten(text@, rule_views(table@)),
{
    let mut out = text;
    let mut i: usize = 0;
    assert(rule_views(table@).take(0) == Seq::<Rule>::empty());
    while i < table.len()
        invariant
            i <= table.len(),
            out@ == rewritten(text@, rule_views(table@).take(i as int)),
        decreases table.len() - i,
    {
        let from = chars_of(table[i].0);
        let to = chars_of(table[i].1);
        out = replace_all(&out, &from, &to);
        proof {
            let rules = rule_views(table@);
            assert(rules.take(i + 1).drop_last() == rules.take(i as int));
            assert(rules.take(i + 1).last() == (table@[i as int].0@, table@[i as int].1@));
        }
        i += 1;
    }
    assert(rule_views(table@).take(table.len() as int) == rule_views(table@));
    out
}

/// The remains of a wrong encoding: the byte-order mark and the unit
/// separator are dropped, the control character U+009A stands for `ž`.
pub open spec fn encoding_rules() -> Seq<Rule> {
    seq![("\u{feff}"@, ""@), ("\u{9a}"@, "ž"@), ("\u{1f}"@, ""@)]
}

/// The known typing errors of the transcripts, each with its correction.
pub open spec fn spelling_rules() -> Seq<Rule> {
    seq![
        ("_centrai centrai"@, "centrai"@),
        ("indais _dais"@, "indais_dais"@),
        ("_is kvepimas"@, "_iskvepimas"@),
        ("_puslpais"@, "_puslapis"@),
        ("_dutys"@, "_durys"@),
        ("Simono-Petro"@, "Simono Petro"@),
        ("Achemenidu"@, "Achemenidų"@),
    ]
}

/// The marker words of the transcripts, each with the token that stands for
/// it; a hyphen, last, becomes the pause in the middle of a word.
pub open spec fn marker_rules() -> Seq<Rule> {
    seq![
        ("_pauze"@, "[PAUSE]"@),
        ("_tyla"@, "[PAUSE]"@),
        ("_ikvepimas"@, "[INHALE]"@),
        ("_iskvepimas"@, "[EXHALE]"@),
        ("_nurijimas"@, "[SWALLOW]"@),
        ("_cepsejimas"@, "[SMACK]"@),
        ("_kede"@, "[CHAIR]"@),
        ("_pilvas"@, "[STOMACH]"@),
        ("_garsas"@, "[NOISE]"@),
        ("_puslapis"@, "[PAGE]"@),
        ("_durys"@, "[DOOR]"@),
        ("_eh"@, "[EH]"@),
        ("-"@, "[MIDWORDPAUSE]"@),
    ]
}

/// Line ends and tabs become spaces.
pub open spec fn spacing_rules() -> Seq<Rule> {
    seq![("\r"@, " "@), ("\n"@, " "@), ("\t"@, " "@)]
}

/// The first rewrite: the remains of a wrong encoding are removed.
pub open spec fn encoding_errors_fixed(text: Seq<char>) -> Seq<char> {
    rewritten(text, encoding_rules())
}

/// The second rewrite: the known typing errors are corrected.
pub open spec fn spelling_errors_fixed(text: Seq<char>) -> Seq<char> {
    rewritten(text, spelling_rules())
}

/// The third rewrite: marker words and hyphens become tokens.
pub open spec fn markers_processed(text: Seq<char>) -> Seq<char> {
    rewritten(text, marker_rules())
}

/// The fourth rewrite: accent suffixes go, then every underscore that is left.
pub open spec fn accents_processed(text: Seq<char>) -> Seq<char> {
    replaced(without_accents(text), "_"@, ""@)
}

/// The fifth rewrite: line ends and tabs become spaces, the white space at
/// the two ends goes, and runs of spaces shrink to one space.
pub open spec fn postprocessed(text: Seq<char>) -> Seq<char> {
    collapsed(trimmed(rewritten(text, spacing_rules())))
}

/// The canonical text of a raw transcript: the five rewrites, in order.
pub open spec fn normalized(text: Seq<char>) -> Seq<char> {
    postprocessed(
        accents_processed(markers_processed(spelling_errors_fixed(encoding_errors_fixed(text)))),
    )
}

fn encoding_table() -> (table: Vec<(&'static str, &'static str)>)
    ensures
        rule_views(table@) == encoding_rules(),
{
    let table = vec![("\u{feff}", ""), ("\u{9a}", "ž"), ("\u{1f}", "")];
    assert(rule_views(table@) =~= encoding_rules());
    table
}

fn spelling_table() -> (table: Vec<(&'static str, &'static str)>)
    ensures
        rule_views(table@) == spelling_rules(),
{
    let table = vec![
        ("_centrai centrai", "centrai"),
        ("indais _dais", "indais_dais"),
        ("_is kvepimas", "_iskvepimas"),
        ("_puslpais", "_puslapis"),
        ("_dutys", "_durys"),
        ("Simono-Petro", "Simono Petro"),
        ("Achemenidu", "Achemenidų"),
    ];
    assert(rule_views(table@) =~= spelling_rules());
    table
}

fn marker_table() -> (table: Vec<(&'static str, &'static str)>)
    ensures
        rule_views(table@) == marker_rules(),
{
    let table = vec![
        ("_pauze", "[PAUSE]"),
        ("_tyla", "[PAUSE]"),
        ("_ikvepimas", "[INHALE]"),
        ("_iskvepimas", "[EXHALE]"),
        ("_nurijimas", "[SWALLOW]"),
        ("_cepsejimas", "[SMACK]"),
        ("_kede", "[CHAIR]"),
        ("_pilvas", "[STOMACH]"),
        ("_garsas", "[NOISE]"),
        ("_puslapis", "[PAGE]"),
        ("_durys", "[DOOR]"),
        ("_eh", "[EH]"),
        ("-", "[MIDWORDPAUSE]"),
    ];
    assert(rule_views(table@) =~= marker_rules());
    table
}

fn spacing_table() -> (table: Vec<(&'static str, &'static str)>)
    ensures
        rule_views(table@) == spacing_rules(),
{
    let table = vec![("\r", " "), ("\n", " "), ("\t", " ")];
    assert(rule_views(table@) =~= spacing_rules());
    table
}

fn fix_encoding_errors_in(text: Vec<char>) -> (out: Vec<char>)
    ensures
        out@ == encoding_errors_fixed(text@),
{
    rewrite(text, &encoding_table())
}

fn fix_spelling_errors_in(text: Vec<char>) -> (out: Vec<char>)
    ensures
        out@ == spelling_errors_fixed(text@),
{
    rewrite(text, &spelling_table())
}

fn process_markers_in(text: Vec<char>) -> (out: Vec<char>)
    ensures
        out@ == markers_processed(text@),
{
    rewrite(text, &marker_table())
}

fn process_accents_in(text: Vec<char>) -> (out: Vec<char>)
    ensures
        out@ == accents_processed(text@),
{
    let stripped = strip_accents(&text);
    replace_all(&stripped, &chars_of("_"), &chars_of(""))
}

fn perform_postprocessing_in(text: Vec<char>) -> (out: Vec<char>)
    ensures
        out@ == postprocessed(text@),
{
    let spaced = rewrite(text, &spacing_table());
    collapse_spaces(&trim(&spaced))
}

/// The form in which a word is handed to the resolvers: in lower case,
/// unless it opens with a square bracket and so is a marker already.
pub open spec fn spoken_form(word: Seq<char>) -> Seq<char> {
    if is_bracketed(word) {
        word
    } else {
        lowercase(word)
    }
}

/// What the answers to the words of a text are, as mathematical values.
pub open spec fn answer_views(answers: Seq<Option<Vec<Phoneme>>>) -> Seq<Option<Seq<PhonemeView>>> {
    Seq::new(answers.len(), |i: int| answer_view(answers[i]))
}

/// The phonemes that the first `upto` answers add up to. A present answer
/// adds its phonemes and behind them a separator, unless it is the answer to
/// the last word; an absent answer adds nothing.
pub open spec fn joined(answers: Seq<Option<Seq<PhonemeView>>>, upto: int) -> Seq<PhonemeView>
    decreases upto,
{
    if upto <= 0 {
        Seq::empty()
    } else {
        joined(answers, upto - 1) + match answers[upto - 1] {
            None => Seq::empty(),
            Some(phonemes) => if upto == answers.len() {
                phonemes
            } else {
                phonemes.push(phoneme_of(" "@, false))
            },
        }
    }
}

/// What a determined chain answers to each of the words `all`.
pub open spec fn chain_answers(all: Seq<Seq<char>>, chain: Seq<Resolver>) -> Seq<
    Option<Seq<PhonemeView>>,
> {
    Seq::new(all.len(), |i: int| chain_resolution(chain, spoken_form(all[i])))
}

/// Whether `answers` can be what the chain answers to the words `all`, one
/// answer for each word.
pub open spec fn answers_fit(
    answers: Seq<Option<Seq<PhonemeView>>>,
    all: Seq<Seq<char>>,
    chain: Seq<Resolver>,
) -> bool {
    &&& answers.len() == all.len()
    &&& forall|i: int|
        0 <= i < all.len() ==> may_answer(chain, spoken_form(all[i]), #[trigger] answers[i])
}

/// Whether the chain is determined for every word of `text`.
pub open spec fn text_is_determined(text: Seq<char>, chain: Seq<Resolver>) -> bool {
    forall|i: int|
        0 <= i < words(text).len() ==> chain_is_determined(
            chain,
            spoken_form(#[trigger] words(text)[i]),
        )
}

/// The phonemes of the canonical text `text` under a determined chain: those
/// of its words, with a separator between one resolved word and the next.
pub open spec fn phonemes_of_text(text: Seq<char>, chain: Seq<Resolver>) -> Seq<PhonemeView> {
    joined(chain_answers(words(text), chain), words(text).len() as int)
}

/// Whether `phonemes` can be what the chain makes of `text`: the joined
/// answers to its words.
pub open spec fn is_conversion(phonemes: Seq<PhonemeView>, text: Seq<char>, chain: Seq<Resolver>) -> bool {
    exists|answers: Seq<Option<Seq<PhonemeView>>>|
        #[trigger] answers_fit(answers, words(text), chain) && phonemes == joined(
            answers,
            answers.len() as int,
        )
}

/// Under a determined chain a text has one conversion.
pub proof fn lemma_determined_conversion(
    phonemes: Seq<PhonemeView>,
    text: Seq<char>,
    chain: Seq<Resolver>,
)
    requires
        text_is_determined(text, chain),
        is_conversion(phonemes, text, chain),
    ensures
        phonemes == phonemes_of_text(text, chain),
{
    let answers = choose|answers: Seq<Option<Seq<PhonemeView>>>|
        #[trigger] answers_fit(answers, words(text), chain) && phonemes == joined(
            answers,
            answers.len() as int,
        );
    assert forall|i: int| 0 <= i < answers.len() implies answers[i] == chain_answers(
        words(text),
        chain,
    )[i] by {
        lemma_determined_answer(chain, spoken_form(words(text)[i]), answers[i]);
    }
    assert(answers =~= chain_answers(words(text), chain));
}

/// Asks the chain for each of the words `all`, in order.
pub fn resolve_words(all: &Vec<Vec<char>>, resolvers: &Vec<Resolver>) -> (answers: Vec<
    Option<Vec<Phoneme>>,
>)
    ensures
        answers_fit(answer_views(answers@), views(all@), resolvers@),
{
    let mut answers: Vec<Option<Vec<Phoneme>>> = Vec::new();
    let mut i: usize = 0;
    while i < all.len()
        invariant
            i <= all.len(),
            answers.len() == i,
            forall|j: int|
                0 <= j < i ==> may_answer(
                    resolvers@,
                    spoken_form(all[j]@),
                    answer_view(#[trigger] answers[j]),
                ),
        decreases all.len() - i,
    {
        let written = string_of(&all[i]);
        let word = if !written.as_str().is_empty() && written.as_str().get_char(0) == '[' {
            written
        } else {
            written.as_str().to_lowercase()
        };
        assert(word@ == spoken_form(all[i as int]@));
        answers.push(resolve_word(resolvers, word.as_str()));
        i += 1;
    }
    assert(answers_fit(answer_views(answers@), views(all@), resolvers@)) by {
        let given = answer_views(answers@);
        assert forall|j: int| 0 <= j < all.len() implies may_answer(
            resolvers@,
            spoken_form(views(all@)[j]),
            #[trigger] given[j],
        ) by {
            assert(given[j] == answer_view(answers[j]));
        }
    }
    answers
}

/// Joins the answers to the words of a text into its phonemes.
pub fn join_answers(answers: &Vec<Option<Vec<Phoneme>>>) -> (result: Vec<Phoneme>)
    ensures
        views(result@) == joined(answer_views(answers@), answers.len() as int),
{
    let mut result: Vec<Phoneme> = Vec::new();
    let n = answers.len();
    let mut i: usize = 0;
    assert(views(result@) =~= joined(answer_views(answers@), 0));
    while i < n
        invariant
            i <= n,
            n == answers.len(),
            views(result@) == joined(answer_views(answers@), i as int),
        decreases n - i,
    {
        let ghost before = views(result@);
        assert(answer_views(answers@)[i as int] == answer_view(answers[i as int]));
        match &answers[i] {
            Some(phonemes) => {
                let mut k: usize = 0;
                assert(before + views(phonemes@).take(0) == before);
                while k < phonemes.len()
                    invariant
                        k <= phonemes.len(),
                        views(result@) == before + views(phonemes@).take(k as int),
                    decreases phonemes.len() - k,
                {
                    let copy = phonemes[k].clone();
                    proof {
                        lemma_views_push(result@, copy);
                        assert((before + views(phonemes@).take(k as int)).push(copy@) == before
                            + views(phonemes@).take(k + 1));
                    }
                    result.push(copy);
                    k += 1;
                }
                assert(views(phonemes@).take(phonemes.len() as int) == views(phonemes@));
                if i != n - 1 {
                    let separator = Phoneme::separator();
                    proof {
                        lemma_views_push(result@, separator);
                        assert((before + views(phonemes@)).push(separator@) == before + views(
                            phonemes@,
                        ).push(phoneme_of(" "@, false)));
                    }
                    result.push(separator);
                }
            },
            None => {
                assert(before + Seq::<PhonemeView>::empty() == before);
            },
        }
        i += 1;
    }
    result
}

/// The pipeline's output unit: the canonical transcript, its phonemes and the
/// path of the audio file.
#[derive(Debug)]
pub struct TrainingEntry {
    pub transcript: String,
    pub phonemes: Vec<Phoneme>,
    pub audio_path: String,
}

impl TrainingEntry {
    /// Removes the remains of a wrong encoding.
    pub fn fix_encoding_errors(str: String) -> (out: String)
        ensures
            out@ == encoding_errors_fixed(str@),
    {
        string_of(&fix_encoding_errors_in(chars_of(str.as_str())))
    }

    /// Corrects the known typing errors.
    pub fn fix_spelling_errors(str: String) -> (out: String)
        ensures
            out@ == spelling_errors_fixed(str@),
    {
        string_of(&fix_spelling_errors_in(chars_of(str.as_str())))
    }

    /// Replaces marker words and hyphens by their tokens.
    pub fn process_markers(str: String) -> (out: String)
        ensures
            out@ == markers_processed(str@),
    {
        string_of(&process_markers_in(chars_of(str.as_str())))
    }

    /// Removes accent suffixes and the underscores that are left.
    pub fn process_accents(str: String) -> (out: String)
        ensures
            out@ == accents_processed(str@),
    {
        string_of(&process_accents_in(chars_of(str.as_str())))
    }

    /// Brings the white space into its canonical form.
    pub fn perform_postprocessing(str: String) -> (out: String)
        ensures
            out@ == postprocessed(str@),
    {
        string_of(&perform_postprocessing_in(chars_of(str.as_str())))
    }

    /// The canonical text of the raw transcript `raw`.
    pub fn normalize(raw: &str) -> (out: String)
        ensures
            out@ == normalized(raw@),
    {
        let mut text = chars_of(raw);
        text = fix_encoding_errors_in(text);
        text = fix_spelling_errors_in(text);
        text = process_markers_in(text);
        text = process_accents_in(text);
        text = perform_postprocessing_in(text);
        string_of(&text)
    }

    /// Resolves the words of the canonical text `str`, in order, and joins
    /// what the chain answers. Under a determined chain the result is
    /// `phonemes_of_text`.
    pub fn convert_to_phonemes(str: &str, resolvers: &Vec<Resolver>) -> (result: Vec<Phoneme>)
        ensures
            is_conversion(views(result@), str@, resolvers@),
            text_is_determined(str@, resolvers@) ==> views(result@) == phonemes_of_text(
                str@,
                resolvers@,
            ),
    {
        let all = split_words(&chars_of(str));
        let answers = resolve_words(&all, resolvers);
        let result = join_answers(&answers);
        proof {
            assert(answers_fit(answer_views(answers@), words(str@), resolvers@));
            assert(answer_views(answers@).len() == answers.len());
            if text_is_determined(str@, resolvers@) {
                lemma_determined_conversion(views(result@), str@, resolvers@);
            }
        }
        result
    }

    /// Builds the training entry of a collected entry: its transcript in
    /// canonical form, the phonemes of that text, and the path of its audio.
    pub fn construct(de: DictEntry, resolvers: &Vec<Resolver>) -> (entry: TrainingEntry)
        ensures
            entry.transcript@ == normalized(de.transcript@),
            is_conversion(views(entry.phonemes@), normalized(de.transcript@), resolvers@),
            text_is_determined(normalized(de.transcript@), resolvers@) ==> views(entry.phonemes@)
                == phonemes_of_text(normalized(de.transcript@), resolvers@),
            entry.audio_path@ == de.audio_path@,
    {
        let transcript = TrainingEntry::normalize(de.transcript.as_str());
        TrainingEntry {
            phonemes: TrainingEntry::convert_to_phonemes(transcript.as_str(), resolvers),
            audio_path: de.audio_path,
            transcript,
        }
    }
}

} // verus!
