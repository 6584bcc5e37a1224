//! The mapping between the symbols of a vocabulary and one-hot vectors.
//!
//! A tensor is a sequence of steps, and each step is a vector with one level
//! for each symbol of the vocabulary. Encoding a symbol raises the level at
//! its position to 1; decoding a step picks the position of the highest level.

use vstd::hash_map::StringHashMap;
use vstd::prelude::*;
use crate::text::views;

verus! {

/// The last place at which `vocabulary` holds `token`, or -1 if it holds it
/// nowhere.
pub open spec fn last_place(vocabulary: Seq<Seq<char>>, token: Seq<char>) -> int
    decreases vocabulary.len(),
{
    if vocabulary.len() == 0 {
        -1
    } else if vocabulary.last() == token {
        vocabulary.len() - 1
    } else {
        last_place(vocabulary.drop_last(), token)
    }
}

/// The place of the highest level in `levels`, the first such place if
/// several levels are the highest; 0 for an empty vector.
pub open spec fn highest_place(levels: Seq<i32>) -> int
    decreases levels.len(),
{
    if levels.len() <= 1 {
        0
    } else {
        let before = highest_place(levels.drop_last());
        if levels.last() > levels[before] {
            levels.len() - 1
        } else {
            before
        }
    }
}

/// `tensor` with the level at the place `places[s]` of step `s` raised to 1,
/// for each of the places.
pub open spec fn encoded(tensor: Seq<Seq<i32>>, places: Seq<int>) -> Seq<Seq<i32>> {
    Seq::new(
        tensor.len(),
        |s: int|
            if s < places.len() {
                tensor[s].update(places[s], 1i32)
            } else {
                tensor[s]
            },
    )
}

/// The symbols that the steps of `tensor` stand for: for each step the
/// symbol at the place of its highest level.
pub open spec fn decoded(tensor: Seq<Seq<i32>>, vocabulary: Seq<Seq<char>>) -> Seq<Seq<char>> {
    Seq::new(tensor.len(), |s: int| vocabulary[highest_place(tensor[s])])
}

/// What a tensor is, as a mathematical value.
pub open spec fn steps(tensor: Seq<Vec<i32>>) -> Seq<Seq<i32>> {
    views(tensor)
}

/// A step in which no level is above 0.
pub open spec fn is_blank(levels: Seq<i32>) -> bool {
    forall|p: int| 0 <= p < levels.len() ==> #[trigger] levels[p] <= 0
}

/// A vocabulary with the position of each of its symbols.
pub struct IOMap {
    map: StringHashMap<usize>,
    keys: Vec<String>,
}

impl IOMap {
    /// The symbols, in the order of their positions.
    pub closed spec fn vocabulary(&self) -> Seq<Seq<char>> {
        views(self.keys@)
    }

    /// The index agrees with the list of symbols: it holds exactly the
    /// symbols of the vocabulary, each with the last place at which it stands.
    #[verifier::type_invariant]
    spec fn wf(&self) -> bool {
        forall|token: Seq<char>|
            {
                &&& self.map@.contains_key(token) == (#[trigger] last_place(
                    self.vocabulary(),
                    token,
                ) >= 0)
                &&& self.map@.contains_key(token) ==> self.map@[token] == last_place(
                    self.vocabulary(),
                    token,
                )
            }
    }

    /// The position of `token`: the last place at which the vocabulary
    /// holds it, or -1.
    pub open spec fn position(&self, token: Seq<char>) -> int {
        last_place(self.vocabulary(), token)
    }

    /// The positions of `tokens`, in order.
    pub open spec fn positions(&self, tokens: Seq<Seq<char>>) -> Seq<int> {
        Seq::new(tokens.len(), |i: int| self.position(tokens[i]))
    }

    /// Whether the vocabulary holds each of `tokens`.
    pub open spec fn holds_all(&self, tokens: Seq<Seq<char>>) -> bool {
        forall|i: int| 0 <= i < tokens.len() ==> self.position(#[trigger] tokens[i]) >= 0
    }

    /// The map of the vocabulary `keys`: each symbol gets the place at which
    /// it stands.
    pub fn new(keys: Vec<String>) -> (iomap: IOMap)
        ensures
            iomap.vocabulary() == views(keys@),
    {
        let mut map: StringHashMap<usize> = StringHashMap::new();
        let mut idx: usize = 0;
        assert(views(keys@).take(0) == Seq::<Seq<char>>::empty());
        while idx < keys.len()
            invariant
                idx <= keys.len(),
                forall|token: Seq<char>|
                    {
                        &&& map@.contains_key(token) == (#[trigger] last_place(
                            views(keys@).take(idx as int),
                            token,
                        ) >= 0)
                        &&& map@.contains_key(token) ==> map@[token] == last_place(
                            views(keys@).take(idx as int),
                            token,
                        )
                    },
            decreases keys.len() - idx,
        {
            let ghost before = map@;
            map.insert(keys[idx].clone(), idx);
            proof {
                let all = views(keys@);
                assert(all.take(idx + 1).drop_last() == all.take(idx as int));
                assert(all.take(idx + 1).last() == keys[idx as int]@);
                assert forall|token: Seq<char>|
                    {
                        &&& map@.contains_key(token) == (#[trigger] last_place(
                            all.take(idx + 1),
                            token,
                        ) >= 0)
                        &&& map@.contains_key(token) ==> map@[token] == last_place(
                            all.take(idx + 1),
                            token,
                        )
                    } by {
                    if token != keys[idx as int]@ {
                        assert(before.contains_key(token) == (last_place(
                            all.take(idx as int),
                            token,
                        ) >= 0));
                    }
                }
            }
            idx += 1;
        }
        assert(views(keys@).take(keys.len() as int) == views(keys@));
        IOMap { map, keys }
    }

    /// The number of symbols.
    pub fn len(&self) -> (n: usize)
        ensures
            n == self.vocabulary().len(),
    {
        self.keys.len()
    }

    /// The position of `token`, if the vocabulary holds it.
    pub fn position_of(&self, token: &str) -> (place: Option<usize>)
        ensures
            match place {
                Some(p) => p == self.position(token@) && p < self.vocabulary().len()
                    && self.vocabulary()[p as int] == token@,
                None => self.position(token@) < 0,
            },
    {
        proof {
            use_type_invariant(self);
            lemma_last_place(self.vocabulary(), token@);
        }
        match self.map.get(token) {
            Some(place) => Some(*place),
            None => None,
        }
    }

    /// Raises in step `s` of `tensor` the level of the symbol `string[s]`
    /// to 1, for each symbol of `string`. The tensor has `length` steps, each
    /// as wide as the vocabulary.
    pub fn encode(&self, string: &Vec<String>, length: usize, tensor: &mut Vec<Vec<i32>>)
        requires
            self.holds_all(views(string@)),
            string.len() <= length,
            old(tensor).len() == length,
            forall|s: int|
                0 <= s < length ==> (#[trigger] old(tensor)[s]).len() == self.vocabulary().len(),
        ensures
            steps(final(tensor)@) == encoded(steps(old(tensor)@), self.positions(views(string@))),
    {
        let ghost given = steps(tensor@);
        let ghost places = self.positions(views(string@));
        let mut idx: usize = 0;
        while idx < string.len()
            invariant
                idx <= string.len() <= length,
                self.holds_all(views(string@)),
                places == self.positions(views(string@)),
                tensor.len() == length,
                given.len() == length,
                forall|s: int| 0 <= s < length ==> (#[trigger] given[s]).len() == self.vocabulary().len(),
                forall|s: int| 0 <= s < idx ==> (#[trigger] tensor[s])@ == given[s].update(places[s], 1i32),
                forall|s: int| idx <= s < length ==> (#[trigger] tensor[s])@ == given[s],
            decreases string.len() - idx,
        {
            assert(self.position(views(string@)[idx as int]) >= 0);
            let place = self.position_of(string[idx].as_str()).unwrap();
            let mut step = tensor[idx].clone();
            step.set(place, 1);
            tensor.set(idx, step);
            idx += 1;
        }
        assert(steps(tensor@) =~= encoded(given, places));
    }

    /// The symbol at the position `place`.
    pub fn symbol_at(&self, place: usize) -> (symbol: String)
        requires
            place < self.vocabulary().len(),
        ensures
            symbol@ == self.vocabulary()[place as int],
    {
        self.keys[place].clone()
    }

    /// The symbols that the steps of `tensor` stand for.
    pub fn decode(&self, tensor: &Vec<Vec<i32>>) -> (result: Vec<String>)
        requires
            forall|s: int|
                0 <= s < tensor.len() ==> 0 < (#[trigger] tensor[s]).len()
                    <= self.vocabulary().len(),
        ensures
            views(result@) == decoded(steps(tensor@), self.vocabulary()),
    {
        let mut result: Vec<String> = Vec::new();
        let mut s: usize = 0;
        while s < tensor.len()
            invariant
                s <= tensor.len(),
                result.len() == s,
                forall|t: int|
                    0 <= t < tensor.len() ==> 0 < (#[trigger] tensor[t]).len()
                        <= self.vocabulary().len(),
                forall|t: int|
                    0 <= t < s ==> (#[trigger] result[t])@ == self.vocabulary()[highest_place(
                        tensor[t]@,
                    )],
            decreases tensor.len() - s,
        {
            result.push(self.symbol_at(highest(&tensor[s])));
            s += 1;
        }
        assert(views(result@) =~= decoded(steps(tensor@), self.vocabulary()));
        result
    }
}

/// The place of the highest level in `levels`.
pub fn highest(levels: &Vec<i32>) -> (place: usize)
    requires
        levels.len() > 0,
    ensures
        place == highest_place(levels@),
        place < levels.len(),
{
    let mut place: usize = 0;
    let mut i: usize = 1;
    assert(levels@.take(1).len() == 1);
    while i < levels.len()
        invariant
            1 <= i <= levels.len(),
            place < i,
            place == highest_place(levels@.take(i as int)),
        decreases levels.len() - i,
    {
        proof {
            assert(levels@.take(i + 1).drop_last() == levels@.take(i as int));
        }
        if levels[i] > levels[place] {
            place = i;
        }
        i += 1;
    }
    assert(levels@.take(levels.len() as int) == levels@);
    place
}

/// Where `last_place` points: at a place that holds the token, behind which
/// no place holds it.
pub proof fn lemma_last_place(vocabulary: Seq<Seq<char>>, token: Seq<char>)
    ensures
        -1 <= last_place(vocabulary, token) < vocabulary.len(),
        last_place(vocabulary, token) >= 0 ==> vocabulary[last_place(vocabulary, token)] == token,
        forall|i: int|
            last_place(vocabulary, token) < i < vocabulary.len() ==> #[trigger] vocabulary[i]
                != token,
    decreases vocabulary.len(),
{
    if vocabulary.len() > 0 && vocabulary.last() != token {
        let rest = vocabulary.drop_last();
        lemma_last_place(rest, token);
        assert forall|i: int|
            last_place(vocabulary, token) < i < vocabulary.len() implies #[trigger] vocabulary[i]
            != token by {
            if i < rest.len() {
                assert(rest[i] == vocabulary[i]);
            }
        }
    }
}

/// Positions follow the order of declaration: in a vocabulary without
/// repetitions every symbol has the place at which it was declared.
pub proof fn lemma_positions_follow_declaration(iomap: IOMap, i: int)
    requires
        0 <= i < iomap.vocabulary().len(),
        forall|j: int, k: int|
            0 <= j < k < iomap.vocabulary().len() ==> iomap.vocabulary()[j] != iomap.vocabulary()[k],
    ensures
        iomap.position(iomap.vocabulary()[i]) == i,
{
    lemma_last_place(iomap.vocabulary(), iomap.vocabulary()[i]);
}

/// The highest level of a vector stands at `highest_place`, and no level
/// before that place is as high.
pub proof fn lemma_highest_place(levels: Seq<i32>)
    requires
        levels.len() > 0,
    ensures
        0 <= highest_place(levels) < levels.len(),
        forall|p: int| 0 <= p < levels.len() ==> #[trigger] levels[p] <= levels[highest_place(levels)],
        forall|p: int| 0 <= p < highest_place(levels) ==> #[trigger] levels[p] < levels[highest_place(levels)],
    decreases levels.len(),
{
    if levels.len() > 1 {
        let rest = levels.drop_last();
        lemma_highest_place(rest);
        let top = highest_place(levels);
        assert forall|p: int| 0 <= p < levels.len() implies #[trigger] levels[p] <= levels[top] by {
            if p < rest.len() {
                assert(rest[p] == levels[p]);
            }
        }
        assert forall|p: int| 0 <= p < top implies #[trigger] levels[p] < levels[top] by {
            if p < rest.len() {
                assert(rest[p] == levels[p]);
            }
        }
    }
}

/// A tensor of blank steps, each as wide as the vocabulary.
pub open spec fn is_blank_tensor(tensor: Seq<Seq<i32>>, width: int) -> bool {
    forall|s: int|
        0 <= s < tensor.len() ==> (#[trigger] tensor[s]).len() == width && is_blank(tensor[s])
}

/// Decoding undoes encoding: a blank tensor with one step for each of the
/// tokens decodes after encoding to the tokens that were encoded, if the
/// vocabulary holds them all.
pub proof fn lemma_decode_recovers_encoded(
    iomap: IOMap,
    tokens: Seq<Seq<char>>,
    tensor: Seq<Seq<i32>>,
)
    requires
        iomap.holds_all(tokens),
        tensor.len() == tokens.len(),
        is_blank_tensor(tensor, iomap.vocabulary().len() as int),
    ensures
        decoded(encoded(tensor, iomap.positions(tokens)), iomap.vocabulary()) == tokens,
{
    let vocabulary = iomap.vocabulary();
    let places = iomap.positions(tokens);
    let out = decoded(encoded(tensor, places), vocabulary);
    assert forall|s: int| 0 <= s < tokens.len() implies out[s] == tokens[s] by {
        lemma_last_place(vocabulary, tokens[s]);
        let place = places[s];
        let step = tensor[s].update(place, 1i32);
        assert(encoded(tensor, places)[s] == step);
        lemma_highest_place(step);
        let top = highest_place(step);
        assert(step[place] == 1);
        if top != place {
            assert(tensor[s][top] <= 0);
            assert(step[top] == tensor[s][top]);
            assert(step[place] <= step[top]);
        }
    }
    assert(out =~= tokens);
}

/// A step with the level 1 at `place` and 0 elsewhere.
pub open spec fn one_hot_step(width: int, place: int) -> Seq<i32> {
    Seq::new(
        width as nat,
        |p: int|
            if p == place {
                1i32
            } else {
                0i32
            },
    )
}

/// A step of `width` levels with the level 1 at `place` and 0 elsewhere.
pub fn one_hot(width: usize, place: usize) -> (levels: Vec<i32>)
    ensures
        levels@ == one_hot_step(width as int, place as int),
{
    let mut levels: Vec<i32> = Vec::new();
    let mut p: usize = 0;
    while p < width
        invariant
            p <= width,
            levels.len() == p,
            forall|q: int| 0 <= q < p ==> levels[q] == one_hot_step(width as int, place as int)[q],
        decreases width - p,
    {
        levels.push(if p == place { 1 } else { 0 });
        p += 1;
    }
    assert(levels@ =~= one_hot_step(width as int, place as int));
    levels
}

/// A step of `width` levels of 0.
pub fn blank_step(width: usize) -> (levels: Vec<i32>)
    ensures
        levels@ == Seq::new(width as nat, |p: int| 0i32),
{
    let mut levels: Vec<i32> = Vec::new();
    let mut p: usize = 0;
    while p < width
        invariant
            p <= width,
            levels.len() == p,
            forall|q: int| 0 <= q < p ==> levels[q] == 0,
        decreases width - p,
    {
        levels.push(0);
        p += 1;
    }
    assert(levels@ =~= Seq::new(width as nat, |p: int| 0i32));
    levels
}

/// A one-hot step decodes to the place of its 1.
pub proof fn lemma_one_hot_decodes(width: int, place: int)
    requires
        0 <= place < width,
    ensures
        highest_place(one_hot_step(width, place)) == place,
{
    let step = one_hot_step(width, place);
    lemma_highest_place(step);
    let top = highest_place(step);
    if top != place {
        assert(step[top] == 0);
        assert(step[place] == 1);
    }
}

} // verus!
