//! The decisions of the sequence-model resolver.
//!
//! The model itself runs outside the library. What is here decides what goes
//! into it and what its outputs mean: how a word is parted and encoded, when
//! the decoding ends, and which phonemes come out.

use vstd::prelude::*;
use crate::io_map::blank_step;
use crate::io_map::encoded;
use crate::io_map::highest;
use crate::io_map::highest_place;
use crate::io_map::last_place;
use crate::io_map::one_hot;
use crate::io_map::one_hot_step;
use crate::io_map::steps;
use crate::io_map::IOMap;
use crate::model_def::ModelDef;
use crate::phoneme_resolvers::answer_view;
use crate::phonemes::phoneme_of;
use crate::phonemes::Phoneme;
use crate::phonemes::PhonemeView;
use crate::text::chars_of;
use crate::text::lemma_views_push;
use crate::text::pieces;
use crate::text::same_text;
use crate::text::split_on;
use crate::text::string_of;
use crate::text::string_of_range;
use crate::text::views;
use crate::training_entry::answer_views;

verus! {

/// The symbol with which every output of the model starts.
pub open spec fn start_symbol() -> Seq<char> {
    "\t"@
}

/// The symbol with which the model ends its output.
pub open spec fn end_symbol() -> Seq<char> {
    "\n"@
}

/// The marker at which a word is parted: the pause in the middle of a word,
/// in the lower case in which words reach the resolvers.
pub open spec fn pause_marker() -> Seq<char> {
    "[midwordpause]"@
}

/// The symbols of a part of a word: its characters, each as a symbol of its
/// own.
pub open spec fn symbols_of(part: Seq<char>) -> Seq<Seq<char>> {
    Seq::new(part.len(), |i: int| seq![part[i]])
}

/// The unaccented phonemes that the symbols name, in order.
pub open spec fn phonemes_of_symbols(symbols: Seq<Seq<char>>) -> Seq<PhonemeView> {
    Seq::new(symbols.len(), |i: int| phoneme_of(symbols[i], false))
}

/// A tensor of `length` steps, each with `width` levels of 0.
pub open spec fn blank_tensor(length: int, width: int) -> Seq<Seq<i32>> {
    Seq::new(length as nat, |s: int| Seq::new(width as nat, |p: int| 0i32))
}

/// How far a decoding has come.
pub struct Decoding {
    symbols: Vec<String>,
    last: usize,
    finished: bool,
}

/// What a `Decoding` is, as a mathematical value.
pub ghost struct DecodingView {
    /// The symbols that the model has written so far, without the start and
    /// the end symbol.
    pub symbols: Seq<Seq<char>>,
    /// Whether the decoding has ended.
    pub finished: bool,
}

impl View for Decoding {
    type V = DecodingView;

    closed spec fn view(&self) -> DecodingView {
        DecodingView { symbols: views(self.symbols@), finished: self.finished }
    }
}

impl Decoding {
    /// The place, in the output vocabulary, of the highest level of the
    /// step that was taken in last; before the first step, the place of the
    /// start symbol.
    pub closed spec fn last_place(&self) -> int {
        self.last as int
    }

    /// Whether the decoding has ended.
    pub fn is_finished(&self) -> (finished: bool)
        ensures
            finished == self@.finished,
    {
        self.finished
    }
}

/// The decoding before the model has written anything. With a limit of 0 it
/// has ended already.
pub open spec fn begun(limit: int) -> DecodingView {
    DecodingView { symbols: Seq::empty(), finished: limit <= 0 }
}

/// The decoding after the model has written `symbol`. The end symbol ends
/// it; any other symbol is kept, and ends it if the limit is reached. A
/// decoding that has ended stays as it is.
pub open spec fn advanced(state: DecodingView, symbol: Seq<char>, limit: int) -> DecodingView {
    if state.finished {
        state
    } else if symbol == end_symbol() {
        DecodingView { symbols: state.symbols, finished: true }
    } else {
        DecodingView {
            symbols: state.symbols.push(symbol),
            finished: state.symbols.len() + 1 >= limit,
        }
    }
}

/// The decoding after the model has written `written`, symbol by symbol.
pub open spec fn run(written: Seq<Seq<char>>, limit: int) -> DecodingView
    decreases written.len(),
{
    if written.len() == 0 {
        begun(limit)
    } else {
        advanced(run(written.drop_last(), limit), written.last(), limit)
    }
}

/// The number of symbols of `written` before the first end symbol.
pub open spec fn length_before_end(written: Seq<Seq<char>>) -> int
    decreases written.len(),
{
    if written.len() == 0 || written[0] == end_symbol() {
        0
    } else {
        1 + length_before_end(written.skip(1))
    }
}

/// The number of symbols that a decoding keeps of `written`: those before
/// the first end symbol, but not more than the limit.
pub open spec fn kept_length(written: Seq<Seq<char>>, limit: int) -> int {
    if limit <= 0 {
        0
    } else if length_before_end(written) < limit {
        length_before_end(written)
    } else {
        limit
    }
}

/// Where the first end symbol stands.
pub proof fn lemma_length_before_end(written: Seq<Seq<char>>)
    ensures
        0 <= length_before_end(written) <= written.len(),
        forall|i: int| 0 <= i < length_before_end(written) ==> #[trigger] written[i] != end_symbol(),
        length_before_end(written) < written.len() ==> written[length_before_end(written)]
            == end_symbol(),
    decreases written.len(),
{
    if written.len() > 0 && written[0] != end_symbol() {
        lemma_length_before_end(written.skip(1));
        assert forall|i: int| 0 <= i < length_before_end(written) implies #[trigger] written[i]
            != end_symbol() by {
            if i > 0 {
                assert(written[i] == written.skip(1)[i - 1]);
            }
        }
    }
}

/// The place `at` is where the first end symbol stands if no symbol before
/// it is the end symbol and the symbol there, if any, is.
pub proof fn lemma_length_before_end_is(written: Seq<Seq<char>>, at: int)
    requires
        0 <= at <= written.len(),
        forall|i: int| 0 <= i < at ==> #[trigger] written[i] != end_symbol(),
        at < written.len() ==> written[at] == end_symbol(),
    ensures
        length_before_end(written) == at,
{
    lemma_length_before_end(written);
}

/// What a decoding has kept after the model wrote `written`: the symbols
/// before the first end symbol, up to the limit. It has ended exactly if an
/// end symbol was written or the limit was reached.
pub proof fn lemma_run(written: Seq<Seq<char>>, limit: int)
    ensures
        run(written, limit).symbols == written.take(kept_length(written, limit)),
        run(written, limit).finished == (limit <= 0 || length_before_end(written) < written.len()
            || written.len() >= limit),
    decreases written.len(),
{
    lemma_length_before_end(written);
    if written.len() == 0 {
        assert(written.take(0) == Seq::<Seq<char>>::empty());
    } else {
        let before = written.drop_last();
        lemma_run(before, limit);
        lemma_length_before_end(before);
        let n = length_before_end(before);
        if n < before.len() {
            assert(before[n] == written[n]);
            assert forall|i: int| 0 <= i < n implies #[trigger] written[i] != end_symbol() by {
                assert(before[i] == written[i]);
            }
            lemma_length_before_end_is(written, n);
        } else {
            assert forall|i: int| 0 <= i < before.len() implies #[trigger] written[i]
                != end_symbol() by {
                assert(before[i] == written[i]);
            }
            if written.last() == end_symbol() {
                lemma_length_before_end_is(written, before.len() as int);
            } else {
                lemma_length_before_end_is(written, written.len() as int);
            }
        }
        let k = kept_length(written, limit);
        let kb = kept_length(before, limit);
        if kb == k {
            assert(written.take(k) == before.take(kb));
        } else {
            assert(k == kb + 1 && kb == before.len());
            assert(before.take(kb) == before);
            assert(written.take(k) == before.push(written.last()));
        }
    }
}

/// A decoding ends: once the model has written as many symbols as the limit
/// allows, or an end symbol, the decoding has ended, whatever the model
/// wrote, and it has kept no more symbols than the limit allows.
pub proof fn lemma_decoding_ends(written: Seq<Seq<char>>, limit: int)
    requires
        limit >= 0,
    ensures
        written.len() >= limit ==> run(written, limit).finished,
        written.contains(end_symbol()) ==> run(written, limit).finished,
        run(written, limit).symbols.len() <= limit,
{
    lemma_run(written, limit);
    lemma_length_before_end(written);
    if written.contains(end_symbol()) {
        let i = choose|i: int| 0 <= i < written.len() && written[i] == end_symbol();
        assert(length_before_end(written) <= i);
    }
}

/// What the library knows of a sequence model: its two vocabularies and its
/// limits.
pub struct SequenceModel {
    input: IOMap,
    output: IOMap,
    max_in_length: usize,
    max_out_length: usize,
}

impl SequenceModel {
    /// The symbols that the model reads.
    pub closed spec fn input_vocabulary(&self) -> Seq<Seq<char>> {
        self.input.vocabulary()
    }

    /// The symbols that the model writes: those of its definition, then the
    /// start symbol and the end symbol.
    pub closed spec fn output_vocabulary(&self) -> Seq<Seq<char>> {
        self.output.vocabulary()
    }

    /// The greatest number of symbols in one input.
    pub closed spec fn input_limit(&self) -> int {
        self.max_in_length as int
    }

    /// The greatest number of symbols that a decoding keeps.
    pub closed spec fn output_limit(&self) -> int {
        self.max_out_length as int
    }

    /// The output vocabulary ends with the start and the end symbol.
    #[verifier::type_invariant]
    spec fn wf(&self) -> bool {
        &&& self.output.vocabulary().len() >= 2
        &&& self.output.vocabulary()[self.output.vocabulary().len() - 2] == start_symbol()
        &&& self.output.vocabulary().last() == end_symbol()
    }

    /// The model that `def` defines. The start and the end symbol are added
    /// to its output vocabulary.
    pub fn new(def: ModelDef) -> (model: SequenceModel)
        ensures
            model.input_vocabulary() == views(def.in_tokens@),
            model.output_vocabulary() == views(def.out_tokens@).push(start_symbol()).push(
                end_symbol(),
            ),
            model.input_limit() == def.max_in_length,
            model.output_limit() == def.max_out_length,
    {
        let mut out_tokens = def.out_tokens;
        let ghost given = out_tokens@;
        let start = "\t".to_owned();
        let end = "\n".to_owned();
        proof {
            lemma_views_push(out_tokens@, start);
            lemma_views_push(out_tokens@.push(start), end);
        }
        out_tokens.push(start);
        out_tokens.push(end);
        SequenceModel {
            input: IOMap::new(def.in_tokens),
            output: IOMap::new(out_tokens),
            max_in_length: def.max_in_length,
            max_out_length: def.max_out_length,
        }
    }

    /// The number of levels in one step of the model's input.
    pub fn input_width(&self) -> (width: usize)
        ensures
            width == self.input_vocabulary().len(),
    {
        self.input.len()
    }

    /// The number of levels in one step of the model's output.
    pub fn output_width(&self) -> (width: usize)
        ensures
            width == self.output_vocabulary().len(),
    {
        self.output.len()
    }

    /// Whether the model can read `part`: the input vocabulary holds each of
    /// its characters, and it is not longer than the input limit.
    pub open spec fn reads(&self, part: Seq<char>) -> bool {
        &&& part.len() <= self.input_limit()
        &&& forall|i: int|
            0 <= i < part.len() ==> last_place(
                self.input_vocabulary(),
                #[trigger] symbols_of(part)[i],
            ) >= 0
    }

    /// The positions of the symbols of `part` in the input vocabulary.
    pub open spec fn input_places(&self, part: Seq<char>) -> Seq<int> {
        Seq::new(
            part.len(),
            |i: int| last_place(self.input_vocabulary(), symbols_of(part)[i]),
        )
    }

    /// The input of the model for `part`: a tensor of as many steps as the
    /// input limit, with the symbols of `part` encoded in its first steps.
    /// `None` if the model cannot read `part`.
    pub fn input_tensor(&self, part: &str) -> (tensor: Option<Vec<Vec<i32>>>)
        ensures
            match tensor {
                Some(tensor) => self.reads(part@) && steps(tensor@) == encoded(
                    blank_tensor(self.input_limit(), self.input_vocabulary().len() as int),
                    self.input_places(part@),
                ),
                None => !self.reads(part@),
            },
    {
        let letters = chars_of(part);
        if letters.len() > self.max_in_length {
            return None;
        }
        let width = self.input.len();
        let mut tensor: Vec<Vec<i32>> = Vec::new();
        let mut s: usize = 0;
        while s < self.max_in_length
            invariant
                s <= self.max_in_length,
                width == self.input_vocabulary().len(),
                letters@ == part@,
                letters.len() <= self.max_in_length,
                tensor.len() == s,
                forall|t: int|
                    0 <= t < s && t < letters.len() ==> last_place(
                        self.input_vocabulary(),
                        #[trigger] symbols_of(part@)[t],
                    ) >= 0,
                forall|t: int|
                    0 <= t < s ==> (#[trigger] tensor[t])@ == encoded(
                        blank_tensor(self.input_limit(), width as int),
                        self.input_places(part@),
                    )[t],
            decreases self.max_in_length - s,
        {
            let ghost blank = blank_tensor(self.input_limit(), width as int);
            if s < letters.len() {
                let symbol = string_of_range(&letters, s, s + 1);
                assert(symbol@ == symbols_of(part@)[s as int]);
                match self.input.position_of(symbol.as_str()) {
                    Some(place) => {
                        let step = one_hot(width, place);
                        assert(step@ =~= blank[s as int].update(place as int, 1i32));
                        tensor.push(step);
                    },
                    None => {
                        return None;
                    },
                }
            } else {
                let step = blank_step(width);
                assert(step@ =~= blank[s as int]);
                tensor.push(step);
            }
            s += 1;
        }
        assert(steps(tensor@) =~= encoded(
            blank_tensor(self.input_limit(), width as int),
            self.input_places(part@),
        ));
        Some(tensor)
    }

    /// Whether the model can read every part of `word`.
    pub open spec fn reads_all_parts(&self, word: Seq<char>) -> bool {
        forall|i: int|
            0 <= i < pieces(word, pause_marker()).len() ==> self.reads(
                #[trigger] pieces(word, pause_marker())[i],
            )
    }

    /// The parts of `word` on which the model is to be run: the word parted
    /// at the pauses in its middle. `None` if the model cannot read one of
    /// the parts; the resolver then declines the word.
    pub fn readable_parts(&self, word: &str) -> (parts: Option<Vec<String>>)
        ensures
            match parts {
                Some(parts) => self.reads_all_parts(word@) && views(parts@) == pieces(
                    word@,
                    pause_marker(),
                ),
                None => !self.reads_all_parts(word@),
            },
    {
        let parts = split_parts(word);
        let mut i: usize = 0;
        while i < parts.len()
            invariant
                i <= parts.len(),
                views(parts@) == pieces(word@, pause_marker()),
                forall|j: int| 0 <= j < i ==> self.reads(#[trigger] pieces(word@, pause_marker())[j]),
            decreases parts.len() - i,
        {
            assert(views(parts@)[i as int] == parts[i as int]@);
            if self.input_tensor(parts[i].as_str()).is_none() {
                return None;
            }
            i += 1;
        }
        Some(parts)
    }

    /// Begins a decoding.
    pub fn begin_decoding(&self) -> (decoding: Decoding)
        ensures
            decoding@ == begun(self.output_limit()),
            decoding.last_place() == self.output_vocabulary().len() - 2,
            self.output_vocabulary()[decoding.last_place()] == start_symbol(),
    {
        proof {
            use_type_invariant(self);
        }
        let decoding = Decoding {
            symbols: Vec::new(),
            last: self.output.len() - 2,
            finished: self.max_out_length == 0,
        };
        assert(decoding@.symbols =~= Seq::<Seq<char>>::empty());
        decoding
    }

    /// The step to feed into the decoder next: the model's last output,
    /// one-hot, or the start symbol before its first output.
    pub fn next_input(&self, decoding: &Decoding) -> (levels: Vec<i32>)
        ensures
            levels@ == one_hot_step(
                self.output_vocabulary().len() as int,
                decoding.last_place(),
            ),
    {
        one_hot(self.output.len(), decoding.last)
    }

    /// Takes one step of the decoder's output into the decoding: the symbol
    /// at the place of its highest level. Returns whether the decoding goes
    /// on.
    pub fn advance(&self, decoding: &mut Decoding, levels: &Vec<i32>) -> (goes_on: bool)
        requires
            0 < levels.len() <= self.output_vocabulary().len(),
        ensures
            final(decoding)@ == advanced(
                old(decoding)@,
                self.output_vocabulary()[highest_place(levels@)],
                self.output_limit(),
            ),
            !old(decoding)@.finished ==> final(decoding).last_place() == highest_place(levels@),
            goes_on == !final(decoding)@.finished,
    {
        if decoding.finished {
            return false;
        }
        let place = highest(levels);
        let symbol = self.output.symbol_at(place);
        decoding.last = place;
        proof {
            reveal_strlit("\n");
        }
        if same_text(symbol.as_str(), "\n") {
            decoding.finished = true;
            return false;
        }
        proof {
            lemma_views_push(decoding.symbols@, symbol);
        }
        decoding.symbols.push(symbol);
        decoding.finished = decoding.symbols.len() >= self.max_out_length;
        !decoding.finished
    }

    /// The phonemes of a decoding: those that its symbols name. A symbol
    /// that the catalog does not hold gives an invalid phoneme.
    pub fn phonemes_of(&self, decoding: &Decoding) -> (phonemes: Vec<Phoneme>)
        ensures
            views(phonemes@) == phonemes_of_symbols(decoding@.symbols),
    {
        phonemes_for_symbols(&decoding.symbols, 0, decoding.symbols.len())
    }
}

/// The phonemes that the symbols from `from` up to `to` name.
fn phonemes_for_symbols(symbols: &Vec<String>, from: usize, to: usize) -> (phonemes: Vec<Phoneme>)
    requires
        from <= to <= symbols.len(),
    ensures
        views(phonemes@) == phonemes_of_symbols(views(symbols@).subrange(from as int, to as int)),
{
    let mut phonemes: Vec<Phoneme> = Vec::new();
    let mut i: usize = from;
    while i < to
        invariant
            from <= i <= to <= symbols.len(),
            phonemes.len() == i - from,
            forall|j: int|
                0 <= j < i - from ==> (#[trigger] phonemes[j])@ == phoneme_of(
                    symbols[from + j]@,
                    false,
                ),
        decreases to - i,
    {
        phonemes.push(Phoneme::from_symbol(symbols[i].as_str(), false));
        i += 1;
    }
    assert(views(phonemes@) =~= phonemes_of_symbols(
        views(symbols@).subrange(from as int, to as int),
    ));
    phonemes
}

/// The symbols between the first and the last of `written`; none if
/// `written` has fewer than two symbols.
pub open spec fn inner_symbols(written: Seq<Seq<char>>) -> Seq<Seq<char>> {
    if written.len() < 2 {
        Seq::empty()
    } else {
        written.subrange(1, written.len() - 1)
    }
}

/// The phonemes of a whole output of the model, which starts with the start
/// symbol and ends with the end symbol: those that the symbols between the
/// two name.
pub fn assemble(written: &Vec<String>) -> (phonemes: Vec<Phoneme>)
    ensures
        views(phonemes@) == phonemes_of_symbols(inner_symbols(views(written@))),
{
    if written.len() < 2 {
        let phonemes: Vec<Phoneme> = Vec::new();
        assert(views(phonemes@) =~= phonemes_of_symbols(inner_symbols(views(written@))));
        phonemes
    } else {
        phonemes_for_symbols(written, 1, written.len() - 1)
    }
}

/// Parts `word` at the pauses in its middle.
pub fn split_parts(word: &str) -> (parts: Vec<String>)
    ensures
        views(parts@) == pieces(word@, pause_marker()),
{
    let split = split_on(&chars_of(word), &chars_of("[midwordpause]"));
    let mut parts: Vec<String> = Vec::new();
    let mut i: usize = 0;
    while i < split.len()
        invariant
            i <= split.len(),
            parts.len() == i,
            forall|j: int| 0 <= j < i ==> (#[trigger] parts[j])@ == split[j]@,
        decreases split.len() - i,
    {
        parts.push(string_of(&split[i]));
        i += 1;
    }
    assert(views(parts@) =~= views(split@));
    parts
}

/// The phonemes of a word from the answers to the first `upto` of its
/// parts: the phonemes of the parts with a pause between one part and the
/// next, or nothing if one of the parts has no answer.
pub open spec fn joined_parts(answers: Seq<Option<Seq<PhonemeView>>>, upto: int) -> Option<
    Seq<PhonemeView>,
>
    decreases upto,
{
    if upto <= 0 {
        Some(Seq::empty())
    } else {
        match (joined_parts(answers, upto - 1), answers[upto - 1]) {
            (Some(before), Some(phonemes)) => if upto == 1 {
                Some(before + phonemes)
            } else {
                Some(before.push(phoneme_of("[MIDWORDPAUSE]"@, false)) + phonemes)
            },
            _ => None,
        }
    }
}

/// Joins the answers to the parts of a word.
pub fn join_parts(answers: &Vec<Option<Vec<Phoneme>>>) -> (answer: Option<Vec<Phoneme>>)
    ensures
        answer_view(answer) == joined_parts(
            answer_views(answers@),
            answers.len() as int,
        ),
{
    let ghost given = answer_views(answers@);
    let mut result: Vec<Phoneme> = Vec::new();
    let mut i: usize = 0;
    assert(views(result@) =~= Seq::<PhonemeView>::empty());
    while i < answers.len()
        invariant
            i <= answers.len(),
            given == answer_views(answers@),
            joined_parts(given, i as int) == Some(views(result@)),
        decreases answers.len() - i,
    {
        assert(given[i as int] == answer_view(answers[i as int]));
        match &answers[i] {
            None => {
                proof {
                    lemma_joined_parts_stay_absent(given, i + 1, answers.len() as int);
                }
                return None;
            },
            Some(phonemes) => {
                if i != 0 {
                    let pause = Phoneme::from_symbol("[MIDWORDPAUSE]", false);
                    proof {
                        lemma_views_push(result@, pause);
                    }
                    result.push(pause);
                }
                let ghost before = views(result@);
                let mut k: usize = 0;
                assert(before + views(phonemes@).take(0) == before);
                while k < phonemes.len()
                    invariant
                        k <= phonemes.len(),
                        views(result@) == before + views(phonemes@).take(k as int),
                    decreases phonemes.len() - k,
                {
                    let copy = phonemes[k].clone();
                    proof {
                        lemma_views_push(result@, copy);
                        assert((before + views(phonemes@).take(k as int)).push(copy@) == before
                            + views(phonemes@).take(k + 1));
                    }
                    result.push(copy);
                    k += 1;
                }
                assert(views(phonemes@).take(phonemes.len() as int) == views(phonemes@));
            },
        }
        i += 1;
    }
    Some(result)
}

/// Once a part has no answer, the word has none.
pub proof fn lemma_joined_parts_stay_absent(
    answers: Seq<Option<Seq<PhonemeView>>>,
    from: int,
    upto: int,
)
    requires
        0 <= from <= upto,
        joined_parts(answers, from) is None,
    ensures
        joined_parts(answers, upto) is None,
    decreases upto - from,
{
    if from < upto {
        lemma_joined_parts_stay_absent(answers, from, upto - 1);
    }
}

} // verus!
