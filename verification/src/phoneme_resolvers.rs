//! The resolvers: strategies that turn a word into phonemes or decline, and
//! the chain that asks them in order.

use vstd::hash_map::StringHashMap;
use vstd::prelude::*;
use vstd::string::StrSliceExecFns;
use crate::phonemes::catalog_ordinal;
use crate::phonemes::phoneme_of;
use crate::phonemes::Phoneme;
use crate::phonemes::PhonemeView;
use crate::text::chars_of;
use crate::text::pieces;
use crate::text::split_on;
use crate::text::split_words;
use crate::text::string_of;
use crate::text::string_of_range;
use crate::text::views;
use crate::text::words;

verus! {

/// What a resolver's answer is, as a mathematical value.
pub open spec fn answer_view(answer: Option<Vec<Phoneme>>) -> Option<Seq<PhonemeView>> {
    match answer {
        Some(phonemes) => Some(views(phonemes@)),
        None => None,
    }
}

/// A strategy that maps a word to its phonemes, or declines.
///
/// The trait is open: a resolver may ask a model outside the library, so the
/// trait itself promises nothing of an answer. The resolvers of this module
/// state theirs in their impls.
pub trait PhonemeResolver {
    /// Resolves `graphemes`, or declines with `None`.
    fn resolve(&self, graphemes: &str) -> (answer: Option<Vec<Phoneme>>);
}

/// The unaccented phonemes that the codes name, in order.
pub open spec fn phonemes_of_codes(codes: Seq<Seq<char>>) -> Seq<PhonemeView> {
    Seq::new(codes.len(), |i: int| phoneme_of(codes[i], false))
}

/// The place of the first space in `line`, or the length of `line` if it
/// holds none.
pub open spec fn first_space(line: Seq<char>) -> int
    decreases line.len(),
{
    if line.len() == 0 || line[0] == ' ' {
        0
    } else {
        1 + first_space(line.skip(1))
    }
}

/// The dictionary entry that `line` holds: the graphemes up to the first
/// space, and the phonemes that the codes behind it name. A line holds an
/// entry if its graphemes are not empty and a space and at least one more
/// character follow them.
pub open spec fn entry_of_line(line: Seq<char>) -> Option<(Seq<char>, Seq<PhonemeView>)> {
    let at = first_space(line);
    if 1 <= at && at + 2 <= line.len() {
        Some((line.take(at), phonemes_of_codes(words(line.skip(at + 1)))))
    } else {
        None
    }
}

/// The dictionary that `lines` spell out. A line without an entry is passed
/// over; of two entries for the same graphemes the later one stays.
pub open spec fn dictionary_of_lines(lines: Seq<Seq<char>>) -> Map<Seq<char>, Seq<PhonemeView>>
    decreases lines.len(),
{
    if lines.len() == 0 {
        Map::empty()
    } else {
        let before = dictionary_of_lines(lines.drop_last());
        match entry_of_line(lines.last()) {
            Some((graphemes, phonemes)) => before.insert(graphemes, phonemes),
            None => before,
        }
    }
}

/// The dictionary that the text of a dictionary file spells out, one entry
/// per line.
pub open spec fn dictionary_of_text(text: Seq<char>) -> Map<Seq<char>, Seq<PhonemeView>> {
    dictionary_of_lines(pieces(text, seq!['\n']))
}

/// What a stored dictionary is, as a mathematical value.
pub open spec fn dictionary_view(stored: Map<Seq<char>, Vec<Phoneme>>) -> Map<
    Seq<char>,
    Seq<PhonemeView>,
> {
    Map::new(|word: Seq<char>| stored.contains_key(word), |word: Seq<char>| views(stored[word]@))
}

fn copy_of(phonemes: &Vec<Phoneme>) -> (copy: Vec<Phoneme>)
    ensures
        views(copy@) == views(phonemes@),
{
    let mut copy: Vec<Phoneme> = Vec::new();
    let mut i: usize = 0;
    while i < phonemes.len()
        invariant
            i <= phonemes.len(),
            copy.len() == i,
            forall|j: int| 0 <= j < i ==> copy[j]@ == phonemes[j]@,
        decreases phonemes.len() - i,
    {
        copy.push(phonemes[i].clone());
        i += 1;
    }
    assert(views(copy@) =~= views(phonemes@));
    copy
}

/// The phonemes that the codes name.
fn phonemes_for(codes: &Vec<Vec<char>>) -> (phonemes: Vec<Phoneme>)
    ensures
        views(phonemes@) == phonemes_of_codes(views(codes@)),
{
    let mut phonemes: Vec<Phoneme> = Vec::new();
    let mut i: usize = 0;
    while i < codes.len()
        invariant
            i <= codes.len(),
            phonemes.len() == i,
            forall|j: int| 0 <= j < i ==> phonemes[j]@ == phoneme_of(codes[j]@, false),
        decreases codes.len() - i,
    {
        let code = string_of(&codes[i]);
        phonemes.push(Phoneme::from_symbol(code.as_str(), false));
        i += 1;
    }
    assert(views(phonemes@) =~= phonemes_of_codes(views(codes@)));
    phonemes
}

/// Reads the dictionary entry of one line.
fn parse_line(line: &Vec<char>) -> (entry: Option<(String, Vec<Phoneme>)>)
    ensures
        match entry {
            Some((graphemes, phonemes)) => entry_of_line(line@) == Some(
                (graphemes@, views(phonemes@)),
            ),
            None => entry_of_line(line@) is None,
        },
{
    let n = line.len();
    let mut at: usize = 0;
    assert(line@.skip(0) == line@);
    while at < n && line[at] != ' '
        invariant
            at <= n,
            n == line.len(),
            first_space(line@) == at + first_space(line@.skip(at as int)),
        decreases n - at,
    {
        assert(line@.skip(at as int).skip(1) == line@.skip(at + 1));
        at += 1;
    }
    if at < 1 || n - at < 2 {
        return None;
    }
    let graphemes = string_of_range(line, 0, at);
    let mut rest: Vec<char> = Vec::new();
    let mut i: usize = at + 1;
    while i < n
        invariant
            at + 1 <= i <= n,
            n == line.len(),
            rest@ == line@.subrange(at + 1, i as int),
        decreases n - i,
    {
        rest.push(line[i]);
        assert(line@.subrange(at + 1, i + 1) == line@.subrange(at + 1, i as int).push(
            line@[i as int],
        ));
        i += 1;
    }
    assert(line@.subrange(at + 1, n as int) == line@.skip(at + 1));
    assert(line@.subrange(0, at as int) == line@.take(at as int));
    let codes = split_words(&rest);
    Some((graphemes, phonemes_for(&codes)))
}

/// Resolves a word by exact lookup in a dictionary that was read from a
/// dictionary file.
pub struct DictionaryPhonemeResolver {
    dict: StringHashMap<Vec<Phoneme>>,
}

impl DictionaryPhonemeResolver {
    /// The dictionary that the resolver holds.
    pub closed spec fn entries(&self) -> Map<Seq<char>, Seq<PhonemeView>> {
        dictionary_view(self.dict@)
    }

    /// Reads a dictionary from the text of a dictionary file: one entry per
    /// line, the graphemes, then spaces, then the phoneme codes with white
    /// space between them. Lines of another shape are passed over.
    pub fn load(dict_str: &str) -> (resolver: DictionaryPhonemeResolver)
        ensures
            resolver.entries() == dictionary_of_text(dict_str@),
    {
        let text = chars_of(dict_str);
        let mut newline: Vec<char> = Vec::new();
        newline.push('\n');
        assert(newline@ == seq!['\n']);
        let lines = split_on(&text, &newline);
        let mut dict: StringHashMap<Vec<Phoneme>> = StringHashMap::new();
        let mut i: usize = 0;
        assert(views(lines@).take(0) == Seq::<Seq<char>>::empty());
        assert(dictionary_view(dict@) =~= Map::<Seq<char>, Seq<PhonemeView>>::empty());
        while i < lines.len()
            invariant
                i <= lines.len(),
                dictionary_view(dict@) == dictionary_of_lines(views(lines@).take(i as int)),
            decreases lines.len() - i,
        {
            proof {
                let all = views(lines@);
                assert(all.take(i + 1).drop_last() == all.take(i as int));
                assert(all.take(i + 1).last() == lines[i as int]@);
            }
            let ghost before = dict@;
            match parse_line(&lines[i]) {
                Some((graphemes, phonemes)) => {
                    let ghost key = graphemes@;
                    let ghost value = views(phonemes@);
                    dict.insert(graphemes, phonemes);
                    assert(dictionary_view(dict@) =~= dictionary_view(before).insert(key, value));
                },
                None => {},
            }
            i += 1;
        }
        assert(views(lines@).take(lines.len() as int) == views(lines@));
        DictionaryPhonemeResolver { dict }
    }

    /// What the resolver answers: the entry of the word, if the dictionary
    /// has one.
    pub open spec fn resolution(&self, graphemes: Seq<char>) -> Option<Seq<PhonemeView>> {
        if self.entries().contains_key(graphemes) {
            Some(self.entries()[graphemes])
        } else {
            None
        }
    }
}

impl PhonemeResolver for DictionaryPhonemeResolver {
    fn resolve(&self, graphemes: &str) -> (answer: Option<Vec<Phoneme>>)
        ensures
            answer_view(answer) == self.resolution(graphemes@),
    {
        match self.dict.get(graphemes) {
            Some(phonemes) => Some(copy_of(phonemes)),
            None => None,
        }
    }
}

/// Resolves a bracketed marker that the catalog holds.
pub struct MarkerPhonemeResolver {}

impl MarkerPhonemeResolver {
    /// The marker resolver; it holds nothing.
    pub fn new() -> MarkerPhonemeResolver {
        MarkerPhonemeResolver {  }
    }

    /// What the resolver answers: the single phoneme of a bracketed word
    /// that the catalog holds.
    pub open spec fn resolution(&self, graphemes: Seq<char>) -> Option<Seq<PhonemeView>> {
        if is_bracketed(graphemes) && catalog_ordinal(graphemes) >= 0 {
            Some(seq![phoneme_of(graphemes, false)])
        } else {
            None
        }
    }
}

/// Whether `graphemes` opens with a square bracket.
pub open spec fn is_bracketed(graphemes: Seq<char>) -> bool {
    graphemes.len() > 0 && graphemes[0] == '['
}

fn opens_with_bracket(graphemes: &str) -> (b: bool)
    ensures
        b == is_bracketed(graphemes@),
{
    !graphemes.is_empty() && graphemes.get_char(0) == '['
}

impl PhonemeResolver for MarkerPhonemeResolver {
    fn resolve(&self, graphemes: &str) -> (answer: Option<Vec<Phoneme>>)
        ensures
            answer_view(answer) == self.resolution(graphemes@),
    {
        if opens_with_bracket(graphemes) {
            let phoneme = Phoneme::from_symbol(graphemes, false);
            if phoneme.valid {
                let mut phonemes: Vec<Phoneme> = Vec::new();
                phonemes.push(phoneme);
                assert(views(phonemes@) =~= seq![phoneme_of(graphemes@, false)]);
                Some(phonemes)
            } else {
                None
            }
        } else {
            None
        }
    }
}

/// Resolves every word: the catch-all at the end of a chain. A word that the
/// catalog does not hold becomes a single invalid phoneme.
pub struct DeadEndPhonemeResolver {}

impl DeadEndPhonemeResolver {
    /// The dead-end resolver; it holds nothing.
    pub fn new() -> DeadEndPhonemeResolver {
        DeadEndPhonemeResolver {  }
    }

    /// What the resolver answers: the single phoneme that the word names,
    /// valid or not.
    pub open spec fn resolution(&self, graphemes: Seq<char>) -> Option<Seq<PhonemeView>> {
        Some(seq![phoneme_of(graphemes, false)])
    }
}

impl PhonemeResolver for DeadEndPhonemeResolver {
    fn resolve(&self, graphemes: &str) -> (answer: Option<Vec<Phoneme>>)
        ensures
            answer_view(answer) == self.resolution(graphemes@),
    {
        let mut phonemes: Vec<Phoneme> = Vec::new();
        phonemes.push(Phoneme::from_symbol(graphemes, false));
        assert(views(phonemes@) =~= seq![phoneme_of(graphemes@, false)]);
        Some(phonemes)
    }
}

/// Declines every word: it stands in a chain where a resolver was not
/// configured.
pub struct DummyPhonemeResolver {}

impl DummyPhonemeResolver {
    /// The dummy resolver; it holds nothing.
    pub fn new() -> DummyPhonemeResolver {
        DummyPhonemeResolver {  }
    }
}

impl PhonemeResolver for DummyPhonemeResolver {
    fn resolve(&self, _graphemes: &str) -> (answer: Option<Vec<Phoneme>>)
        ensures
            answer is None,
    {
        None
    }
}

/// A member of a chain: one of the resolvers of this module, or one from
/// outside the library.
pub enum Resolver {
    Dictionary(DictionaryPhonemeResolver),
    Marker(MarkerPhonemeResolver),
    DeadEnd(DeadEndPhonemeResolver),
    Dummy(DummyPhonemeResolver),
    /// A resolver of which the library knows the `resolve` method only,
    /// such as one that asks a sequence model.
    Other(Box<dyn PhonemeResolver>),
}

impl Resolver {
    /// Whether the resolver's answers depend on the word alone, as
    /// `resolution` states them.
    pub open spec fn is_determined(&self) -> bool {
        !(self is Other)
    }

    /// What a determined resolver answers to `graphemes`.
    pub open spec fn resolution(&self, graphemes: Seq<char>) -> Option<Seq<PhonemeView>> {
        match self {
            Resolver::Dictionary(resolver) => resolver.resolution(graphemes),
            Resolver::Marker(resolver) => resolver.resolution(graphemes),
            Resolver::DeadEnd(resolver) => resolver.resolution(graphemes),
            Resolver::Dummy(_) => None,
            Resolver::Other(_) => None,
        }
    }

    /// Whether the resolver is determined and answers `graphemes`.
    pub open spec fn answers(&self, graphemes: Seq<char>) -> bool {
        self.is_determined() && self.resolution(graphemes) is Some
    }
}

impl PhonemeResolver for Resolver {
    fn resolve(&self, graphemes: &str) -> (answer: Option<Vec<Phoneme>>)
        ensures
            self.is_determined() ==> answer_view(answer) == self.resolution(graphemes@),
    {
        match self {
            Resolver::Dictionary(resolver) => resolver.resolve(graphemes),
            Resolver::Marker(resolver) => resolver.resolve(graphemes),
            Resolver::DeadEnd(resolver) => resolver.resolve(graphemes),
            Resolver::Dummy(resolver) => resolver.resolve(graphemes),
            Resolver::Other(resolver) => resolver.resolve(graphemes),
        }
    }
}

/// Whether the chain's answer to `graphemes` is fixed by the word: every
/// resolver is determined, up to the first that answers.
pub open spec fn chain_is_determined(chain: Seq<Resolver>, graphemes: Seq<char>) -> bool
    decreases chain.len(),
{
    chain.len() == 0 || (chain[0].is_determined() && (chain[0].resolution(graphemes) is Some
        || chain_is_determined(chain.skip(1), graphemes)))
}

/// What a determined chain answers to `graphemes`: the answer of the first
/// resolver that does not decline.
pub open spec fn chain_resolution(chain: Seq<Resolver>, graphemes: Seq<char>) -> Option<
    Seq<PhonemeView>,
>
    decreases chain.len(),
{
    if chain.len() == 0 {
        None
    } else {
        match chain[0].resolution(graphemes) {
            Some(phonemes) => Some(phonemes),
            None => chain_resolution(chain.skip(1), graphemes),
        }
    }
}

/// Whether `answer` can be what the chain answers to `graphemes`, whatever
/// its resolvers from outside the library do. An absent answer means that
/// no determined resolver answers the word. A present answer is that of
/// some resolver before which no determined resolver answers the word; if
/// that resolver is determined, the answer is its resolution.
pub open spec fn may_answer(
    chain: Seq<Resolver>,
    graphemes: Seq<char>,
    answer: Option<Seq<PhonemeView>>,
) -> bool {
    match answer {
        None => forall|j: int| 0 <= j < chain.len() ==> !(#[trigger] chain[j]).answers(graphemes),
        Some(phonemes) => exists|i: int|
            {
                &&& 0 <= i < chain.len()
                &&& forall|j: int| 0 <= j < i ==> !(#[trigger] chain[j]).answers(graphemes)
                &&& (#[trigger] chain[i]).is_determined() ==> chain[i].resolution(graphemes)
                    == Some(phonemes)
            },
    }
}

/// Whether some determined resolver of the chain answers `graphemes`.
pub open spec fn chain_has_answer(chain: Seq<Resolver>, graphemes: Seq<char>) -> bool {
    exists|i: int| 0 <= i < chain.len() && (#[trigger] chain[i]).answers(graphemes)
}

/// Asks the resolvers in order and returns the first answer; the resolvers
/// behind it are not asked. Where the chain is determined the answer is
/// `chain_resolution`.
pub fn resolve_word(resolvers: &Vec<Resolver>, graphemes: &str) -> (answer: Option<Vec<Phoneme>>)
    ensures
        may_answer(resolvers@, graphemes@, answer_view(answer)),
        chain_is_determined(resolvers@, graphemes@) ==> answer_view(answer) == chain_resolution(
            resolvers@,
            graphemes@,
        ),
{
    let mut i: usize = 0;
    while i < resolvers.len()
        invariant
            i <= resolvers.len(),
            forall|j: int| 0 <= j < i ==> !(#[trigger] resolvers@[j]).answers(graphemes@),
        decreases resolvers.len() - i,
    {
        let answer = resolvers[i].resolve(graphemes);
        if answer.is_some() {
            proof {
                assert(resolvers@[i as int].is_determined() ==> resolvers@[i as int].resolution(
                    graphemes@,
                ) == answer_view(answer));
                lemma_determined_answer(resolvers@, graphemes@, answer_view(answer));
            }
            return answer;
        }
        i += 1;
    }
    proof {
        lemma_determined_answer(resolvers@, graphemes@, None);
    }
    None
}

/// Where the chain is determined, what it may answer is its resolution.
pub proof fn lemma_determined_answer(
    chain: Seq<Resolver>,
    graphemes: Seq<char>,
    answer: Option<Seq<PhonemeView>>,
)
    requires
        may_answer(chain, graphemes, answer),
    ensures
        chain_is_determined(chain, graphemes) ==> answer == chain_resolution(chain, graphemes),
    decreases chain.len(),
{
    if chain.len() > 0 && chain_is_determined(chain, graphemes) {
        let rest = chain.skip(1);
        if chain[0].resolution(graphemes) is Some {
            assert(chain[0].answers(graphemes));
            if answer is Some {
                let i = choose|i: int|
                    {
                        &&& 0 <= i < chain.len()
                        &&& forall|j: int| 0 <= j < i ==> !(#[trigger] chain[j]).answers(graphemes)
                        &&& (#[trigger] chain[i]).is_determined() ==> chain[i].resolution(graphemes)
                            == answer
                    };
                assert(i == 0);
            }
        } else {
            match answer {
                None => {
                    assert forall|j: int| 0 <= j < rest.len() implies !(#[trigger] rest[j]).answers(
                        graphemes,
                    ) by {
                        assert(rest[j] == chain[j + 1]);
                    }
                },
                Some(phonemes) => {
                    let i = choose|i: int|
                        {
                            &&& 0 <= i < chain.len()
                            &&& forall|j: int|
                                0 <= j < i ==> !(#[trigger] chain[j]).answers(graphemes)
                            &&& (#[trigger] chain[i]).is_determined() ==> chain[i].resolution(
                                graphemes,
                            ) == Some(phonemes)
                        };
                    assert(i > 0);
                    assert(rest[i - 1] == chain[i]);
                    assert forall|j: int| 0 <= j < i - 1 implies !(#[trigger] rest[j]).answers(
                        graphemes,
                    ) by {
                        assert(rest[j] == chain[j + 1]);
                    }
                },
            }
            lemma_determined_answer(rest, graphemes, answer);
        }
    } else if chain.len() == 0 {
        if answer is Some {
        }
    }
}

/// If a determined resolver of the chain answers a word, the chain does.
pub proof fn lemma_answered_word_has_answer(
    chain: Seq<Resolver>,
    graphemes: Seq<char>,
    answer: Option<Seq<PhonemeView>>,
)
    requires
        may_answer(chain, graphemes, answer),
        chain_has_answer(chain, graphemes),
    ensures
        answer is Some,
{
}

/// A chain of determined resolvers that ends in the dead-end resolver is
/// determined for every word and answers it.
pub proof fn lemma_chain_with_dead_end_is_total(chain: Seq<Resolver>, graphemes: Seq<char>)
    requires
        chain.len() > 0,
        chain.last() is DeadEnd,
        forall|i: int| 0 <= i < chain.len() ==> (#[trigger] chain[i]).is_determined(),
    ensures
        chain_is_determined(chain, graphemes),
        chain_resolution(chain, graphemes) is Some,
        chain_has_answer(chain, graphemes),
    decreases chain.len(),
{
    assert(chain[chain.len() - 1].answers(graphemes));
    if chain.len() > 1 {
        let rest = chain.skip(1);
        assert(rest.last() == chain.last());
        assert forall|i: int| 0 <= i < rest.len() implies (#[trigger] rest[i]).is_determined() by {
            assert(rest[i] == chain[i + 1]);
        }
        lemma_chain_with_dead_end_is_total(rest, graphemes);
    }
}

} // verus!
