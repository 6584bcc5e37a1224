//! Character-level helpers shared by the rest of the library.
//!
//! Text is modelled as `Seq<char>`, the view of `str` and `String`. The
//! rewrites here work on `Vec<char>`, so that a chain of them converts only
//! at its two ends.

use vstd::prelude::*;
use vstd::utf8::*;

verus! {

/// The views of `items`, in order.
pub open spec fn views<T: View>(items: Seq<T>) -> Seq<T::V> {
    Seq::new(items.len(), |i: int| items[i]@)
}

/// The views of a sequence with one more item are the views with one more
/// view.
pub proof fn lemma_views_push<T: View>(items: Seq<T>, item: T)
    ensures
        views(items.push(item)) == views(items).push(item@),
{
    assert(views(items.push(item)) =~= views(items).push(item@));
}

/// `String::push` appends one character to the end of the string.
pub assume_specification[ String::push ](s: &mut String, ch: char)
    ensures
        final(s)@ == old(s)@.push(ch),
;

/// What `str::to_lowercase` makes of `text`: its lowercase equivalent by the
/// Unicode case mapping.
pub uninterp spec fn lowercase(text: Seq<char>) -> Seq<char>;

/// `str::to_lowercase` returns the lowercase equivalent of the slice. The
/// mapping is Unicode's, fixed by the standard library's tables.
pub assume_specification[ str::to_lowercase ](s: &str) -> (lowered: String)
    ensures
        lowered@ == lowercase(s@),
;

/// The characters of `s`, in order.
pub fn chars_of(s: &str) -> (v: Vec<char>)
    ensures
        v@ == s@,
{
    let mut v: Vec<char> = Vec::new();
    for c in it: s.chars()
        invariant
            it.seq() == s@,
            v@ == it.seq().take(it.index() as int),
    {
        v.push(c);
    }
    assert(v@ == s@);
    v
}

/// The string made of the characters of `v` from `from` up to `to`.
pub fn string_of_range(v: &Vec<char>, from: usize, to: usize) -> (s: String)
    requires
        from <= to <= v.len(),
    ensures
        s@ == v@.subrange(from as int, to as int),
{
    let mut s = String::new();
    let mut i: usize = from;
    while i < to
        invariant
            from <= i <= to <= v.len(),
            s@ == v@.subrange(from as int, i as int),
        decreases to - i,
    {
        s.push(v[i]);
        assert(v@.subrange(from as int, i + 1) == v@.subrange(from as int, i as int).push(v@[i as int]));
        i += 1;
    }
    s
}

/// The string made of the characters of `v`, in order.
pub fn string_of(v: &Vec<char>) -> (s: String)
    ensures
        s@ == v@,
{
    assert(v@.subrange(0, v.len() as int) == v@);
    string_of_range(v, 0, v.len())
}

/// Whether two string slices hold the same characters.
pub fn same_text(a: &str, b: &str) -> (r: bool)
    ensures
        r == (a@ == b@),
{
    let x = a.as_bytes();
    let y = b.as_bytes();
    proof {
        encode_utf8_decode_utf8(a@);
        encode_utf8_decode_utf8(b@);
    }
    if x.len() != y.len() {
        return false;
    }
    let mut i: usize = 0;
    while i < x.len()
        invariant
            i <= x.len(),
            x.len() == y.len(),
            x@ == encode_utf8(a@),
            y@ == encode_utf8(b@),
            forall|j: int| 0 <= j < i ==> x@[j] == y@[j],
        decreases x.len() - i,
    {
        if x[i] != y[i] {
            return false;
        }
        i += 1;
    }
    assert(x@ =~= y@);
    true
}

/// Whether `pattern` stands in `text` at position `at`.
pub open spec fn occurs_at(text: Seq<char>, at: int, pattern: Seq<char>) -> bool {
    0 <= at && at + pattern.len() <= text.len() && text.subrange(at, at + pattern.len()) == pattern
}

/// Whether `pattern` stands somewhere in `text`.
pub open spec fn occurs_in(text: Seq<char>, pattern: Seq<char>) -> bool {
    exists|at: int| occurs_at(text, at, pattern)
}

/// Whether `pattern` stands in `text` at position `at`.
pub fn matches_at(text: &Vec<char>, at: usize, pattern: &Vec<char>) -> (b: bool)
    ensures
        b == occurs_at(text@, at as int, pattern@),
{
    if at > text.len() || pattern.len() > text.len() - at {
        return false;
    }
    let mut k: usize = 0;
    while k < pattern.len()
        invariant
            k <= pattern.len(),
            at + pattern.len() <= text.len(),
            forall|j: int| 0 <= j < k ==> text@[at + j] == pattern@[j],
        decreases pattern.len() - k,
    {
        if text[at + k] != pattern[k] {
            assert(text@.subrange(at as int, at + pattern.len())[k as int] != pattern@[k as int]);
            return false;
        }
        k += 1;
    }
    assert(text@.subrange(at as int, at + pattern.len()) =~= pattern@);
    true
}

/// `text` with every occurrence of `from` replaced by `to`, the occurrences
/// taken from left to right without overlap. An empty `from` changes nothing.
pub open spec fn replaced(text: Seq<char>, from: Seq<char>, to: Seq<char>) -> Seq<char>
    decreases text.len(),
{
    if from.len() == 0 || text.len() < from.len() {
        text
    } else if occurs_at(text, 0, from) {
        to + replaced(text.skip(from.len() as int), from, to)
    } else {
        seq![text[0]] + replaced(text.skip(1), from, to)
    }
}

/// Replaces every occurrence of `from` in `text` by `to`.
pub fn replace_all(text: &Vec<char>, from: &Vec<char>, to: &Vec<char>) -> (out: Vec<char>)
    ensures
        out@ == replaced(text@, from@, to@),
{
    let mut out: Vec<char> = Vec::new();
    if from.len() == 0 {
        out.extend_from_slice(text.as_slice());
        return out;
    }
    let mut i: usize = 0;
    assert(text@.skip(0) == text@);
    assert(out@ + text@ == text@);
    while i < text.len()
        invariant
            i <= text.len(),
            from.len() > 0,
            replaced(text@, from@, to@) == out@ + replaced(text@.skip(i as int), from@, to@),
        decreases text.len() - i,
    {
        let ghost rest = text@.skip(i as int);
        assert(occurs_at(rest, 0, from@) == occurs_at(text@, i as int, from@)) by {
            if i + from.len() <= text.len() {
                assert(rest.subrange(0, from.len() as int) == text@.subrange(
                    i as int,
                    i + from.len(),
                ));
            }
        }
        if matches_at(text, i, from) {
            out.extend_from_slice(to.as_slice());
            assert(rest.skip(from.len() as int) == text@.skip(i + from.len()));
            i += from.len();
        } else {
            out.push(text[i]);
            proof {
                assert(rest.skip(1) == text@.skip(i + 1));
                if rest.len() < from.len() {
                    lemma_replaced_short(rest.skip(1), from@, to@);
                    assert(rest == seq![rest[0]] + rest.skip(1));
                }
            }
            i += 1;
        }
    }
    assert(text@.skip(text.len() as int) == Seq::<char>::empty());
    out
}

/// A text shorter than the pattern holds no occurrence of it.
pub proof fn lemma_replaced_short(text: Seq<char>, from: Seq<char>, to: Seq<char>)
    requires
        text.len() < from.len(),
    ensures
        replaced(text, from, to) == text,
{
}

/// Whether `c` is white space: a character with Unicode's `White_Space`
/// property.
pub open spec fn is_whitespace(c: char) -> bool {
    let u = c as u32;
    ||| 0x09 <= u <= 0x0D
    ||| u == 0x20
    ||| u == 0x85
    ||| u == 0xA0
    ||| u == 0x1680
    ||| 0x2000 <= u <= 0x200A
    ||| u == 0x2028
    ||| u == 0x2029
    ||| u == 0x202F
    ||| u == 0x205F
    ||| u == 0x3000
}

/// Whether `c` is white space.
pub fn is_whitespace_char(c: char) -> (b: bool)
    ensures
        b == is_whitespace(c),
{
    let u = c as u32;
    (0x09 <= u && u <= 0x0D) || u == 0x20 || u == 0x85 || u == 0xA0 || u == 0x1680 || (0x2000 <= u
        && u <= 0x200A) || u == 0x2028 || u == 0x2029 || u == 0x202F || u == 0x205F || u == 0x3000
}

/// `text` without the white space it starts with.
pub open spec fn trimmed_start(text: Seq<char>) -> Seq<char>
    decreases text.len(),
{
    if text.len() > 0 && is_whitespace(text[0]) {
        trimmed_start(text.skip(1))
    } else {
        text
    }
}

/// `text` without the white space it ends with.
pub open spec fn trimmed_end(text: Seq<char>) -> Seq<char>
    decreases text.len(),
{
    if text.len() > 0 && is_whitespace(text.last()) {
        trimmed_end(text.drop_last())
    } else {
        text
    }
}

/// `text` without the white space at its two ends.
pub open spec fn trimmed(text: Seq<char>) -> Seq<char> {
    trimmed_end(trimmed_start(text))
}

/// Removes the white space at the two ends of `text`.
pub fn trim(text: &Vec<char>) -> (out: Vec<char>)
    ensures
        out@ == trimmed(text@),
{
    let mut a: usize = 0;
    assert(text@.skip(0) == text@);
    while a < text.len() && is_whitespace_char(text[a])
        invariant
            a <= text.len(),
            trimmed_start(text@) == trimmed_start(text@.skip(a as int)),
        decreases text.len() - a,
    {
        assert(text@.skip(a as int).skip(1) == text@.skip(a + 1));
        a += 1;
    }
    let mut b: usize = text.len();
    assert(text@.subrange(a as int, b as int) == text@.skip(a as int));
    while b > a && is_whitespace_char(text[b - 1])
        invariant
            a <= b <= text.len(),
            trimmed(text@) == trimmed_end(text@.subrange(a as int, b as int)),
        decreases b,
    {
        assert(text@.subrange(a as int, b as int).drop_last() == text@.subrange(a as int, b - 1));
        b -= 1;
    }
    let mut out: Vec<char> = Vec::new();
    let mut i: usize = a;
    while i < b
        invariant
            a <= i <= b <= text.len(),
            out@ == text@.subrange(a as int, i as int),
        decreases b - i,
    {
        out.push(text[i]);
        assert(text@.subrange(a as int, i + 1) == text@.subrange(a as int, i as int).push(
            text@[i as int],
        ));
        i += 1;
    }
    out
}

/// `text` with every run of two or more spaces made a single space: a space
/// that follows a space is left out.
pub open spec fn collapsed(text: Seq<char>) -> Seq<char>
    decreases text.len(),
{
    if text.len() == 0 {
        text
    } else if text.len() >= 2 && text.last() == ' ' && text[text.len() - 2] == ' ' {
        collapsed(text.drop_last())
    } else {
        collapsed(text.drop_last()).push(text.last())
    }
}

/// Makes every run of two or more spaces in `text` a single space.
pub fn collapse_spaces(text: &Vec<char>) -> (out: Vec<char>)
    ensures
        out@ == collapsed(text@),
{
    let mut out: Vec<char> = Vec::new();
    let mut i: usize = 0;
    assert(text@.take(0) == Seq::<char>::empty());
    while i < text.len()
        invariant
            i <= text.len(),
            out@ == collapsed(text@.take(i as int)),
        decreases text.len() - i,
    {
        let ghost next = text@.take(i + 1);
        assert(next.drop_last() == text@.take(i as int));
        assert(next.last() == text@[i as int]);
        if !(i >= 1 && text[i] == ' ' && text[i - 1] == ' ') {
            out.push(text[i]);
        }
        i += 1;
    }
    assert(text@.take(text.len() as int) == text@);
    out
}

/// Whether an accent suffix starts behind the character at `at`: a character
/// other than a space, then an underscore, then at least one more character
/// other than a space.
pub open spec fn accent_follows(text: Seq<char>, at: int) -> bool {
    &&& 0 <= at
    &&& at + 2 < text.len()
    &&& text[at] != ' '
    &&& text[at + 1] == '_'
    &&& text[at + 2] != ' '
}

/// `text` from `at` on without its accent suffixes. A suffix runs from its
/// underscore to the end of the word, that is up to the next space; while
/// `inside` holds, `at` stands in a suffix.
pub open spec fn without_accents_from(text: Seq<char>, at: int, inside: bool) -> Seq<char>
    decreases text.len() - at,
{
    if at < 0 || at >= text.len() {
        Seq::empty()
    } else if inside && text[at] != ' ' {
        without_accents_from(text, at + 1, true)
    } else {
        seq![text[at]] + without_accents_from(text, at + 1, accent_follows(text, at))
    }
}

/// `text` without its accent suffixes.
pub open spec fn without_accents(text: Seq<char>) -> Seq<char> {
    without_accents_from(text, 0, false)
}

/// Removes the accent suffixes from `text`.
pub fn strip_accents(text: &Vec<char>) -> (out: Vec<char>)
    ensures
        out@ == without_accents(text@),
{
    let mut out: Vec<char> = Vec::new();
    let mut inside = false;
    let mut i: usize = 0;
    let n = text.len();
    while i < n
        invariant
            i <= n,
            n == text.len(),
            without_accents(text@) == out@ + without_accents_from(text@, i as int, inside),
        decreases n - i,
    {
        let c = text[i];
        if inside && c != ' ' {
        } else {
            out.push(c);
            inside = c != ' ' && n - i > 2 && text[i + 1] == '_' && text[i + 2] != ' ';
        }
        i += 1;
    }
    out
}

/// The words of `text` from `at` on, where a word that began at `start` is
/// still open (`start == at` if none is).
pub open spec fn words_from(text: Seq<char>, start: int, at: int) -> Seq<Seq<char>>
    decreases text.len() - at,
{
    let open_word = if start < at {
        seq![text.subrange(start, at)]
    } else {
        Seq::empty()
    };
    if at < 0 || at >= text.len() {
        open_word
    } else if is_whitespace(text[at]) {
        open_word + words_from(text, at + 1, at + 1)
    } else {
        words_from(text, start, at + 1)
    }
}

/// The words of `text`: its maximal runs of characters that are not white
/// space, in order.
pub open spec fn words(text: Seq<char>) -> Seq<Seq<char>> {
    words_from(text, 0, 0)
}

/// Splits `text` into its words.
pub fn split_words(text: &Vec<char>) -> (out: Vec<Vec<char>>)
    ensures
        views(out@) == words(text@),
{
    let mut out: Vec<Vec<char>> = Vec::new();
    let mut word: Vec<char> = Vec::new();
    let mut start: usize = 0;
    let mut at: usize = 0;
    let n = text.len();
    assert(views(out@) + words(text@) == words(text@));
    assert(text@.subrange(0, 0) == Seq::<char>::empty());
    while at < n
        invariant
            start <= at <= n,
            n == text.len(),
            word@ == text@.subrange(start as int, at as int),
            words(text@) == views(out@) + words_from(text@, start as int, at as int),
        decreases n - at,
    {
        if is_whitespace_char(text[at]) {
            let ghost before = views(out@);
            let ghost tail = words_from(text@, at + 1, at + 1);
            if word.len() > 0 {
                out.push(word);
                word = Vec::new();
                assert(views(out@) == before.push(text@.subrange(start as int, at as int)));
                assert(views(out@) + tail == before + (seq![text@.subrange(start as int, at as int)]
                    + tail));
            } else {
                assert(Seq::<Seq<char>>::empty() + tail == tail);
            }
            at += 1;
            start = at;
            assert(text@.subrange(start as int, at as int) == Seq::<char>::empty());
        } else {
            word.push(text[at]);
            assert(text@.subrange(start as int, at + 1) == text@.subrange(
                start as int,
                at as int,
            ).push(text@[at as int]));
            at += 1;
        }
    }
    if word.len() > 0 {
        let ghost before = views(out@);
        out.push(word);
        assert(views(out@) == before.push(text@.subrange(start as int, at as int)));
        assert(before.push(text@.subrange(start as int, at as int)) == before + seq![
            text@.subrange(start as int, at as int),
        ]);
    } else {
        assert(views(out@) + Seq::<Seq<char>>::empty() == views(out@));
    }
    out
}

/// The pieces of `text` from `start` on that `separator` parts, given that no
/// separator starts between `start` and `at`.
pub open spec fn pieces_from(text: Seq<char>, separator: Seq<char>, start: int, at: int) -> Seq<
    Seq<char>,
>
    decreases text.len() - at,
{
    if separator.len() == 0 || at < 0 || at + separator.len() > text.len() {
        seq![text.subrange(start, text.len() as int)]
    } else if occurs_at(text, at, separator) {
        seq![text.subrange(start, at)] + pieces_from(
            text,
            separator,
            at + separator.len(),
            at + separator.len(),
        )
    } else {
        pieces_from(text, separator, start, at + 1)
    }
}

/// The pieces into which the occurrences of `separator` part `text`, the
/// occurrences taken from left to right without overlap. A text without an
/// occurrence is its own single piece.
pub open spec fn pieces(text: Seq<char>, separator: Seq<char>) -> Seq<Seq<char>> {
    pieces_from(text, separator, 0, 0)
}

/// Splits `text` at every occurrence of `separator`.
pub fn split_on(text: &Vec<char>, separator: &Vec<char>) -> (out: Vec<Vec<char>>)
    ensures
        views(out@) == pieces(text@, separator@),
{
    let mut out: Vec<Vec<char>> = Vec::new();
    let mut piece: Vec<char> = Vec::new();
    let n = text.len();
    let m = separator.len();
    let mut start: usize = 0;
    let mut at: usize = 0;
    assert(views(out@) + pieces(text@, separator@) == pieces(text@, separator@));
    while m > 0 && m <= n - at
        invariant
            start <= at <= n,
            n == text.len(),
            m == separator.len(),
            piece@ == text@.subrange(start as int, at as int),
            pieces(text@, separator@) == views(out@) + pieces_from(
                text@,
                separator@,
                start as int,
                at as int,
            ),
        decreases n - at,
    {
        if matches_at(text, at, separator) {
            let ghost before = views(out@);
            let ghost tail = pieces_from(text@, separator@, at + m, at + m);
            out.push(piece);
            piece = Vec::new();
            proof {
                assert(views(out@) == before.push(text@.subrange(start as int, at as int)));
                assert(before.push(text@.subrange(start as int, at as int)) + tail == before + (
                seq![text@.subrange(start as int, at as int)] + tail));
                assert(text@.subrange(at + m, at + m) == Seq::<char>::empty());
            }
            at += m;
            start = at;
        } else {
            piece.push(text[at]);
            assert(text@.subrange(start as int, at + 1) == text@.subrange(
                start as int,
                at as int,
            ).push(text@[at as int]));
            at += 1;
        }
    }
    while at < n
        invariant
            start <= at <= n,
            n == text.len(),
            piece@ == text@.subrange(start as int, at as int),
        decreases n - at,
    {
        piece.push(text[at]);
        assert(text@.subrange(start as int, at + 1) == text@.subrange(start as int, at as int).push(
            text@[at as int],
        ));
        at += 1;
    }
    let ghost before = views(out@);
    out.push(piece);
    assert(views(out@) == before.push(text@.subrange(start as int, n as int)));
    assert(before.push(text@.subrange(start as int, n as int)) == before + seq![
        text@.subrange(start as int, n as int),
    ]);
    out
}

} // verus!
