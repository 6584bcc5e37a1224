//! What the rewrites of the `text` module keep and what they remove: the
//! lemmas from which the normal form of a transcript is proved.

use vstd::prelude::*;
use crate::text::accent_follows;
use crate::text::collapsed;
use crate::text::is_whitespace;
use crate::text::occurs_at;
use crate::text::occurs_in;
use crate::text::replaced;
use crate::text::trimmed;
use crate::text::trimmed_end;
use crate::text::trimmed_start;
use crate::text::without_accents_from;

verus! {

/// An occurrence in the rest of a text is one in the text.
pub proof fn lemma_occurrence_in_rest(text: Seq<char>, n: int, pattern: Seq<char>)
    requires
        0 <= n <= text.len(),
        occurs_in(text.skip(n), pattern),
    ensures
        occurs_in(text, pattern),
{
    let at = choose|at: int| occurs_at(text.skip(n), at, pattern);
    assert(text.skip(n).subrange(at, at + pattern.len()) == text.subrange(
        n + at,
        n + at + pattern.len(),
    ));
    assert(occurs_at(text, n + at, pattern));
}

/// A pattern with a character that the text lacks does not occur in it.
pub proof fn lemma_foreign_char_bars_occurrence(text: Seq<char>, pattern: Seq<char>, k: int)
    requires
        0 <= k < pattern.len(),
        !text.contains(pattern[k]),
    ensures
        !occurs_in(text, pattern),
{
    if occurs_in(text, pattern) {
        let at = choose|at: int| occurs_at(text, at, pattern);
        assert(text.subrange(at, at + pattern.len())[k] == text[at + k]);
        assert(text.contains(text[at + k]));
    }
}

/// Replacing a pattern that does not occur changes nothing.
pub proof fn lemma_replaced_without_occurrence(text: Seq<char>, from: Seq<char>, to: Seq<char>)
    requires
        !occurs_in(text, from),
    ensures
        replaced(text, from, to) == text,
    decreases text.len(),
{
    if from.len() == 0 || text.len() < from.len() {
    } else {
        assert(!occurs_at(text, 0, from));
        if occurs_in(text.skip(1), from) {
            lemma_occurrence_in_rest(text, 1, from);
        }
        lemma_replaced_without_occurrence(text.skip(1), from, to);
        assert(seq![text[0]] + text.skip(1) == text);
    }
}

/// Replacing brings in no character that neither the text nor the
/// replacement holds.
pub proof fn lemma_replaced_brings_no_char(text: Seq<char>, from: Seq<char>, to: Seq<char>, c: char)
    requires
        !text.contains(c),
        !to.contains(c),
    ensures
        !replaced(text, from, to).contains(c),
    decreases text.len(),
{
    if from.len() == 0 || text.len() < from.len() {
    } else {
        let n = if occurs_at(text, 0, from) {
            from.len() as int
        } else {
            1
        };
        let rest = replaced(text.skip(n), from, to);
        assert forall|i: int| 0 <= i < text.skip(n).len() implies text.skip(n)[i] != c by {
            assert(text.contains(text[n + i]));
        }
        lemma_replaced_brings_no_char(text.skip(n), from, to, c);
        let head = if occurs_at(text, 0, from) {
            to
        } else {
            seq![text[0]]
        };
        assert(text.contains(text[0]));
        let out = head + rest;
        assert forall|i: int| 0 <= i < out.len() implies out[i] != c by {
            if i < head.len() {
                assert(head.contains(head[i]));
            } else {
                assert(rest.contains(rest[i - head.len()]));
            }
        }
    }
}

/// Replacing a single character by a text without it leaves none of it.
pub proof fn lemma_replaced_removes_char(text: Seq<char>, c: char, to: Seq<char>)
    requires
        !to.contains(c),
    ensures
        !replaced(text, seq![c], to).contains(c),
    decreases text.len(),
{
    let from = seq![c];
    if text.len() >= 1 {
        lemma_replaced_removes_char(text.skip(1), c, to);
        let rest = replaced(text.skip(1), from, to);
        assert(text.subrange(0, 1) =~= seq![text[0]]);
        let head = if occurs_at(text, 0, from) {
            to
        } else {
            seq![text[0]]
        };
        let out = head + rest;
        assert(out == replaced(text, from, to));
        assert forall|i: int| 0 <= i < out.len() implies out[i] != c by {
            if i < head.len() {
                assert(head.contains(head[i]));
            } else {
                assert(rest.contains(rest[i - head.len()]));
            }
        }
    } else {
        assert(text.len() < from.len());
    }
}

/// What a replaced text starts with, the text started with, as long as the
/// start holds no first character of the replacement.
pub proof fn lemma_replaced_start(text: Seq<char>, from: Seq<char>, to: Seq<char>, start: Seq<char>)
    requires
        from.len() > 0,
        to.len() > 0,
        !start.contains(to[0]),
        start.len() <= replaced(text, from, to).len(),
        replaced(text, from, to).take(start.len() as int) == start,
    ensures
        start.len() <= text.len(),
        text.take(start.len() as int) == start,
    decreases start.len(),
{
    if start.len() == 0 {
        assert(text.take(0) =~= start);
    } else if text.len() < from.len() {
    } else {
        let out = replaced(text, from, to);
        assert(out.take(start.len() as int)[0] == out[0]);
        assert(start.contains(start[0]));
        if occurs_at(text, 0, from) {
            assert(out[0] == to[0]);
        } else {
            let rest = replaced(text.skip(1), from, to);
            assert(out == seq![text[0]] + rest);
            let tail = start.skip(1);
            assert forall|i: int| 0 <= i < tail.len() implies tail[i] != to[0] by {
                assert(start.contains(start[i + 1]));
            }
            assert(rest.take(tail.len() as int) =~= tail) by {
                assert forall|i: int| 0 <= i < tail.len() implies rest.take(tail.len() as int)[i]
                    == tail[i] by {
                    assert(out.take(start.len() as int)[i + 1] == start[i + 1]);
                }
            }
            lemma_replaced_start(text.skip(1), from, to, tail);
            assert(text.take(start.len() as int) =~= start) by {
                assert forall|i: int| 0 <= i < start.len() implies text.take(start.len() as int)[i]
                    == start[i] by {
                    if i > 0 {
                        assert(text.skip(1).take(tail.len() as int)[i - 1] == tail[i - 1]);
                    }
                }
            }
        }
    }
}

/// Replacing brings in no occurrence of a text `x` that neither the text
/// nor the replacement holds, if `x` holds neither the first nor the last
/// character of the replacement.
pub proof fn lemma_replaced_brings_no_occurrence(
    text: Seq<char>,
    from: Seq<char>,
    to: Seq<char>,
    x: Seq<char>,
)
    requires
        to.len() > 0,
        x.len() > 0,
        !x.contains(to[0]),
        !x.contains(to.last()),
        !occurs_in(to, x),
        !occurs_in(text, x),
    ensures
        !occurs_in(replaced(text, from, to), x),
    decreases text.len(),
{
    if from.len() == 0 || text.len() < from.len() {
    } else {
        let out = replaced(text, from, to);
        let n = if occurs_at(text, 0, from) {
            from.len() as int
        } else {
            1
        };
        let head = if occurs_at(text, 0, from) {
            to
        } else {
            seq![text[0]]
        };
        let rest = replaced(text.skip(n), from, to);
        if occurs_in(text.skip(n), x) {
            lemma_occurrence_in_rest(text, n, x);
        }
        lemma_replaced_brings_no_occurrence(text.skip(n), from, to, x);
        assert(out == head + rest);
        if occurs_in(out, x) {
            let p = choose|p: int| occurs_at(out, p, x);
            let found = out.subrange(p, p + x.len());
            if p >= head.len() {
                assert(rest.subrange(p - head.len(), p - head.len() + x.len()) =~= found);
                assert(occurs_at(rest, p - head.len(), x));
            } else if occurs_at(text, 0, from) {
                if p + x.len() <= to.len() {
                    assert(to.subrange(p, p + x.len()) =~= found);
                    assert(occurs_at(to, p, x));
                } else {
                    assert(found[to.len() - 1 - p] == to.last());
                    assert(x.contains(x[to.len() - 1 - p]));
                }
            } else {
                assert(out.take(x.len() as int) =~= found);
                lemma_replaced_start(text, from, to, x);
                assert(text.subrange(0, x.len() as int) =~= text.take(x.len() as int));
                assert(occurs_at(text, 0, x));
            }
        }
    }
}

/// A replacement leaves no occurrence of its pattern if it is as long as
/// the pattern and starts like it, but is another text, and the first
/// character stands nowhere else in the two.
pub proof fn lemma_replaced_leaves_no_occurrence(text: Seq<char>, from: Seq<char>, to: Seq<char>)
    requires
        from.len() > 0,
        to.len() == from.len(),
        to != from,
        to[0] == from[0],
        forall|k: int| 1 <= k < from.len() ==> #[trigger] from[k] != from[0],
        forall|k: int| 1 <= k < to.len() ==> #[trigger] to[k] != from[0],
    ensures
        !occurs_in(replaced(text, from, to), from),
    decreases text.len(),
{
    let out = replaced(text, from, to);
    if text.len() < from.len() {
    } else {
        let n = if occurs_at(text, 0, from) {
            from.len() as int
        } else {
            1
        };
        let head = if occurs_at(text, 0, from) {
            to
        } else {
            seq![text[0]]
        };
        let rest = replaced(text.skip(n), from, to);
        lemma_replaced_leaves_no_occurrence(text.skip(n), from, to);
        assert(out == head + rest);
        if occurs_in(out, from) {
            let p = choose|p: int| occurs_at(out, p, from);
            let found = out.subrange(p, p + from.len());
            if p >= head.len() {
                assert(rest.subrange(p - head.len(), p - head.len() + from.len()) =~= found);
                assert(occurs_at(rest, p - head.len(), from));
            } else if occurs_at(text, 0, from) {
                if p == 0 {
                    assert(found =~= to);
                } else {
                    assert(found[0] == to[p]);
                }
            } else {
                let tail = from.skip(1);
                assert forall|i: int| 0 <= i < tail.len() implies tail[i] != to[0] by {
                    assert(tail[i] == from[i + 1]);
                }
                assert(rest.take(tail.len() as int) =~= tail) by {
                    assert forall|i: int| 0 <= i < tail.len() implies rest.take(tail.len() as int)[i]
                        == tail[i] by {
                        assert(found[i + 1] == from[i + 1]);
                    }
                }
                lemma_replaced_start(text.skip(1), from, to, tail);
                assert(found[0] == from[0]);
                assert(text.subrange(0, from.len() as int) =~= from) by {
                    assert forall|i: int| 0 <= i < from.len() implies text[i] == from[i] by {
                        if i > 0 {
                            assert(text.skip(1).take(tail.len() as int)[i - 1] == tail[i - 1]);
                        }
                    }
                }
            }
        }
    }
}

/// A text without underscores has no accent suffixes to lose.
pub proof fn lemma_without_accents_unchanged(text: Seq<char>, at: int)
    requires
        0 <= at <= text.len(),
        !text.contains('_'),
    ensures
        without_accents_from(text, at, false) == text.skip(at),
    decreases text.len() - at,
{
    if at < text.len() {
        if accent_follows(text, at) {
            assert(text.contains(text[at + 1]));
        }
        lemma_without_accents_unchanged(text, at + 1);
        assert(seq![text[at]] + text.skip(at + 1) == text.skip(at));
    } else {
        assert(text.skip(at) =~= Seq::<char>::empty());
    }
}

/// Removing accent suffixes brings in no character.
pub proof fn lemma_without_accents_brings_no_char(text: Seq<char>, at: int, inside: bool, c: char)
    requires
        0 <= at,
        !text.contains(c),
    ensures
        !without_accents_from(text, at, inside).contains(c),
    decreases text.len() - at,
{
    if at < text.len() {
        if inside && text[at] != ' ' {
            lemma_without_accents_brings_no_char(text, at + 1, true, c);
        } else {
            let rest = without_accents_from(text, at + 1, accent_follows(text, at));
            lemma_without_accents_brings_no_char(text, at + 1, accent_follows(text, at), c);
            assert(text.contains(text[at]));
            let out = seq![text[at]] + rest;
            assert forall|i: int| 0 <= i < out.len() implies out[i] != c by {
                if i > 0 {
                    assert(rest.contains(rest[i - 1]));
                }
            }
        }
    }
}

/// What is left from inside an accent suffix on is empty or starts with
/// the space that ends the suffix.
pub proof fn lemma_suffix_ends_at_space(text: Seq<char>, at: int)
    requires
        0 <= at,
    ensures
        without_accents_from(text, at, true).len() > 0 ==> without_accents_from(text, at, true)[0]
            == ' ',
    decreases text.len() - at,
{
    if at < text.len() && text[at] != ' ' {
        lemma_suffix_ends_at_space(text, at + 1);
    }
}

/// What a text without its accent suffixes starts with, if that holds no
/// space, the text itself started with.
pub proof fn lemma_without_accents_start(text: Seq<char>, at: int, start: Seq<char>)
    requires
        0 <= at <= text.len(),
        !start.contains(' '),
        start.len() <= without_accents_from(text, at, false).len(),
        without_accents_from(text, at, false).take(start.len() as int) == start,
    ensures
        at + start.len() <= text.len(),
        text.subrange(at, at + start.len()) == start,
    decreases start.len(),
{
    if start.len() == 0 {
        assert(text.subrange(at, at) =~= start);
    } else {
        let out = without_accents_from(text, at, false);
        let follows = accent_follows(text, at);
        let rest = without_accents_from(text, at + 1, follows);
        assert(out == seq![text[at]] + rest);
        assert(out.take(start.len() as int)[0] == start[0]);
        let tail = start.skip(1);
        assert forall|i: int| 0 <= i < tail.len() implies tail[i] != ' ' by {
            assert(start.contains(start[i + 1]));
        }
        assert(rest.take(tail.len() as int) =~= tail) by {
            assert forall|i: int| 0 <= i < tail.len() implies rest.take(tail.len() as int)[i]
                == tail[i] by {
                assert(out.take(start.len() as int)[i + 1] == start[i + 1]);
            }
        }
        if tail.len() > 0 {
            if follows {
                lemma_suffix_ends_at_space(text, at + 1);
                assert(rest.take(tail.len() as int)[0] == rest[0]);
                assert(tail[0] == ' ');
            }
            lemma_without_accents_start(text, at + 1, tail);
            assert(text.subrange(at, at + start.len()) =~= start) by {
                assert forall|i: int| 0 <= i < start.len() implies text[at + i] == start[i] by {
                    if i > 0 {
                        assert(text.subrange(at + 1, at + 1 + tail.len())[i - 1] == tail[i - 1]);
                    }
                }
            }
        } else {
            assert(text.subrange(at, at + 1) =~= start);
        }
    }
}

/// Removing accent suffixes brings in no occurrence of a text without
/// spaces.
pub proof fn lemma_without_accents_brings_no_occurrence(
    text: Seq<char>,
    at: int,
    inside: bool,
    x: Seq<char>,
)
    requires
        0 <= at <= text.len(),
        x.len() > 0,
        !x.contains(' '),
        !occurs_in(text, x),
    ensures
        !occurs_in(without_accents_from(text, at, inside), x),
    decreases text.len() - at,
{
    let out = without_accents_from(text, at, inside);
    if at < text.len() {
        if inside && text[at] != ' ' {
            lemma_without_accents_brings_no_occurrence(text, at + 1, true, x);
        } else {
            let follows = accent_follows(text, at);
            let rest = without_accents_from(text, at + 1, follows);
            lemma_without_accents_brings_no_occurrence(text, at + 1, follows, x);
            if occurs_in(out, x) {
                let p = choose|p: int| occurs_at(out, p, x);
                let found = out.subrange(p, p + x.len());
                if p >= 1 {
                    assert(rest.subrange(p - 1, p - 1 + x.len()) =~= found);
                    assert(occurs_at(rest, p - 1, x));
                } else {
                    assert(found[0] == text[at]);
                    assert(x.contains(x[0]));
                    if inside {
                    } else {
                        assert(out.take(x.len() as int) =~= found);
                        lemma_without_accents_start(text, at, x);
                        assert(occurs_at(text, at, x));
                    }
                }
            }
        }
    } else {
        if occurs_in(out, x) {
            let p = choose|p: int| occurs_at(out, p, x);
        }
    }
}

/// In a text without its accent suffixes no accent suffix starts.
pub proof fn lemma_no_accent_follows_after_stripping(text: Seq<char>, at: int, inside: bool)
    requires
        0 <= at,
    ensures
        forall|i: int| !accent_follows(without_accents_from(text, at, inside), i),
    decreases text.len() - at,
{
    let out = without_accents_from(text, at, inside);
    if at < text.len() {
        if inside && text[at] != ' ' {
            lemma_no_accent_follows_after_stripping(text, at + 1, true);
            assert(out == without_accents_from(text, at + 1, true));
        } else {
            let follows = accent_follows(text, at);
            let rest = without_accents_from(text, at + 1, follows);
            lemma_no_accent_follows_after_stripping(text, at + 1, follows);
            assert(out == seq![text[at]] + rest);
            assert forall|i: int| !accent_follows(out, i) by {
                if accent_follows(out, i) {
                    if i >= 1 {
                        assert(accent_follows(rest, i - 1));
                    } else {
                        assert(out[1] == rest[0] && out[2] == rest[1]);
                        if follows {
                            lemma_suffix_ends_at_space(text, at + 1);
                        } else {
                            let after = without_accents_from(
                                text,
                                at + 2,
                                accent_follows(text, at + 1),
                            );
                            assert(rest.len() >= 2);
                            assert(at + 1 < text.len());
                            assert(rest == seq![text[at + 1]] + after);
                            assert(rest[1] == after[0]);
                            assert(at + 2 < text.len());
                            assert(text[at] == out[0]);
                            assert(text[at + 1] == '_');
                            assert(text[at + 2] == ' ');
                            assert(!accent_follows(text, at + 1));
                            assert(after[0] == text[at + 2]);
                        }
                    }
                }
            }
        }
    } else {
        assert(out.len() == 0);
        assert forall|i: int| !accent_follows(out, i) by {}
    }
}

/// The underscore as a pattern.
pub open spec fn underscore() -> Seq<char> {
    seq!['_']
}

/// How the removal of underscores goes on at the start of a text.
pub proof fn lemma_underscore_at_start(text: Seq<char>)
    requires
        text.len() > 0,
    ensures
        occurs_at(text, 0, underscore()) == (text[0] == '_'),
        replaced(text, underscore(), Seq::empty()) == if text[0] == '_' {
            replaced(text.skip(1), underscore(), Seq::empty())
        } else {
            seq![text[0]] + replaced(text.skip(1), underscore(), Seq::empty())
        },
{
    assert(text.subrange(0, 1) =~= seq![text[0]]);
    assert(seq![text[0]][0] == text[0]);
    assert(underscore()[0] == '_');
    let rest = replaced(text.skip(1), underscore(), Seq::empty());
    assert(Seq::<char>::empty() + rest =~= rest);
}

/// What a text without its underscores starts with, the text started with,
/// if no accent suffix starts in the text and the start holds neither space
/// nor underscore.
pub proof fn lemma_underscores_removed_start(text: Seq<char>, start: Seq<char>)
    requires
        forall|i: int| !accent_follows(text, i),
        text.len() > 0,
        text[0] != ' ',
        text[0] != '_',
        !start.contains(' '),
        !start.contains('_'),
        start.len() <= replaced(text, underscore(), Seq::empty()).len(),
        replaced(text, underscore(), Seq::empty()).take(start.len() as int) == start,
    ensures
        start.len() <= text.len(),
        text.take(start.len() as int) == start,
    decreases start.len(),
{
    let gone = Seq::<char>::empty();
    let out = replaced(text, underscore(), gone);
    let rest = replaced(text.skip(1), underscore(), gone);
    lemma_underscore_at_start(text);
    assert(out == seq![text[0]] + rest);
    if start.len() == 0 {
        assert(text.take(0) =~= start);
    } else if start.len() == 1 {
        assert(out.take(1)[0] == start[0]);
        assert(text.take(1) =~= start);
    } else {
        let tail = start.skip(1);
        assert(out.take(start.len() as int)[0] == start[0]);
        assert forall|i: int| 0 <= i < tail.len() implies tail[i] != ' ' && tail[i] != '_' by {
            assert(start.contains(start[i + 1]));
        }
        assert(rest.take(tail.len() as int) =~= tail) by {
            assert forall|i: int| 0 <= i < tail.len() implies rest.take(tail.len() as int)[i]
                == tail[i] by {
                assert(out.take(start.len() as int)[i + 1] == start[i + 1]);
            }
        }
        assert(rest.take(tail.len() as int)[0] == rest[0]);
        let next = text.skip(1);
        assert(next.len() > 0);
        lemma_underscore_at_start(next);
        if next[0] == '_' {
            let after = replaced(next.skip(1), underscore(), gone);
            assert(rest == after);
            assert(!accent_follows(text, 0));
            assert(next.skip(1).len() > 0);
            assert(next.skip(1)[0] == text[2]);
            lemma_underscore_at_start(next.skip(1));
            assert(after[0] == ' ');
            assert(tail[0] == ' ');
        }
        assert(rest[0] == next[0]);
        assert(tail[0] == next[0]);
        assert forall|i: int| !accent_follows(next, i) by {
            if accent_follows(next, i) {
                assert(accent_follows(text, i + 1));
            }
        }
        lemma_underscores_removed_start(next, tail);
        assert(text.take(start.len() as int) =~= start) by {
            assert forall|i: int| 0 <= i < start.len() implies text[i] == start[i] by {
                if i > 0 {
                    assert(next.take(tail.len() as int)[i - 1] == tail[i - 1]);
                }
            }
        }
    }
}

/// Removing the underscores of a text in which no accent suffix starts
/// brings in no occurrence of a text without spaces and underscores.
pub proof fn lemma_removing_underscores_brings_no_occurrence(text: Seq<char>, x: Seq<char>)
    requires
        forall|i: int| !accent_follows(text, i),
        x.len() > 0,
        !x.contains(' '),
        !x.contains('_'),
        !occurs_in(text, x),
    ensures
        !occurs_in(replaced(text, underscore(), Seq::empty()), x),
    decreases text.len(),
{
    let gone = Seq::<char>::empty();
    let out = replaced(text, underscore(), gone);
    if text.len() == 0 {
    } else {
        let next = text.skip(1);
        let rest = replaced(next, underscore(), gone);
        lemma_underscore_at_start(text);
        assert forall|i: int| !accent_follows(next, i) by {
            if accent_follows(next, i) {
                assert(accent_follows(text, i + 1));
            }
        }
        if occurs_in(next, x) {
            lemma_occurrence_in_rest(text, 1, x);
        }
        lemma_removing_underscores_brings_no_occurrence(next, x);
        if text[0] == '_' {
        } else {
            assert(out == seq![text[0]] + rest);
            if occurs_in(out, x) {
                let p = choose|p: int| occurs_at(out, p, x);
                let found = out.subrange(p, p + x.len());
                if p >= 1 {
                    assert(rest.subrange(p - 1, p - 1 + x.len()) =~= found);
                    assert(occurs_at(rest, p - 1, x));
                } else {
                    assert(found[0] == text[0]);
                    assert(x.contains(x[0]));
                    assert(out.take(x.len() as int) =~= found);
                    lemma_underscores_removed_start(text, x);
                    assert(text.subrange(0, x.len() as int) =~= text.take(x.len() as int));
                    assert(occurs_at(text, 0, x));
                }
            }
        }
    }
}

/// A text is trimmed if it neither starts nor ends with white space.
pub open spec fn is_trimmed(text: Seq<char>) -> bool {
    text.len() > 0 ==> !is_whitespace(text[0]) && !is_whitespace(text.last())
}

/// A text is single-spaced if no space in it follows a space.
pub open spec fn is_single_spaced(text: Seq<char>) -> bool {
    forall|i: int| 0 <= i && i + 1 < text.len() ==> !(#[trigger] text[i] == ' ' && text[i + 1] == ' ')
}

/// A part of a text holds no character that the text lacks.
pub proof fn lemma_part_brings_no_char(text: Seq<char>, from: int, to: int, c: char)
    requires
        0 <= from <= to <= text.len(),
        !text.contains(c),
    ensures
        !text.subrange(from, to).contains(c),
{
    let part = text.subrange(from, to);
    assert forall|i: int| 0 <= i < part.len() implies part[i] != c by {
        assert(text.contains(text[from + i]));
    }
}

/// A part of a text holds no occurrence that the text lacks.
pub proof fn lemma_part_brings_no_occurrence(text: Seq<char>, from: int, to: int, x: Seq<char>)
    requires
        0 <= from <= to <= text.len(),
        !occurs_in(text, x),
    ensures
        !occurs_in(text.subrange(from, to), x),
{
    let part = text.subrange(from, to);
    if occurs_in(part, x) {
        let p = choose|p: int| occurs_at(part, p, x);
        assert(text.subrange(from + p, from + p + x.len()) =~= part.subrange(p, p + x.len()));
        assert(occurs_at(text, from + p, x));
    }
}

/// Where the text without its leading white space starts.
pub proof fn lemma_trimmed_start(text: Seq<char>) -> (a: int)
    ensures
        0 <= a <= text.len(),
        trimmed_start(text) == text.skip(a),
        a < text.len() ==> !is_whitespace(text[a]),
    decreases text.len(),
{
    if text.len() > 0 && is_whitespace(text[0]) {
        let a = lemma_trimmed_start(text.skip(1));
        assert(text.skip(1).skip(a) == text.skip(a + 1));
        a + 1
    } else {
        assert(text.skip(0) == text);
        0
    }
}

/// Where the text without its trailing white space ends.
pub proof fn lemma_trimmed_end(text: Seq<char>) -> (b: int)
    ensures
        0 <= b <= text.len(),
        trimmed_end(text) == text.take(b),
        b > 0 ==> !is_whitespace(text[b - 1]),
    decreases text.len(),
{
    if text.len() > 0 && is_whitespace(text.last()) {
        let b = lemma_trimmed_end(text.drop_last());
        assert(text.drop_last().take(b) == text.take(b));
        b
    } else {
        assert(text.take(text.len() as int) == text);
        text.len() as int
    }
}

/// A trimmed text is a part of the text, and it is trimmed.
pub proof fn lemma_trimmed(text: Seq<char>) -> (part: (int, int))
    ensures
        0 <= part.0 <= part.1 <= text.len(),
        trimmed(text) == text.subrange(part.0, part.1),
        is_trimmed(trimmed(text)),
{
    let a = lemma_trimmed_start(text);
    let b = lemma_trimmed_end(text.skip(a));
    assert(text.skip(a).take(b) == text.subrange(a, a + b));
    (a, a + b)
}

/// Trimming a trimmed text changes nothing.
pub proof fn lemma_trimmed_unchanged(text: Seq<char>)
    requires
        is_trimmed(text),
    ensures
        trimmed(text) == text,
{
}

/// Collapsing keeps the first and the last character of a text.
pub proof fn lemma_collapsed_ends(text: Seq<char>)
    ensures
        collapsed(text).len() <= text.len(),
        text.len() > 0 ==> collapsed(text).len() > 0 && collapsed(text)[0] == text[0] && collapsed(
            text,
        ).last() == text.last(),
    decreases text.len(),
{
    if text.len() > 0 {
        lemma_collapsed_ends(text.drop_last());
    }
}

/// A collapsed text is single-spaced.
pub proof fn lemma_collapsed_is_single_spaced(text: Seq<char>)
    ensures
        is_single_spaced(collapsed(text)),
    decreases text.len(),
{
    if text.len() > 0 {
        let before = collapsed(text.drop_last());
        lemma_collapsed_is_single_spaced(text.drop_last());
        lemma_collapsed_ends(text.drop_last());
        let out = collapsed(text);
        assert forall|i: int| 0 <= i && i + 1 < out.len() implies !(#[trigger] out[i] == ' ' && out[i
            + 1] == ' ') by {
            if i + 1 < before.len() {
                assert(out[i] == before[i] && out[i + 1] == before[i + 1]);
            }
        }
    }
}

/// Collapsing a single-spaced text changes nothing.
pub proof fn lemma_collapsed_unchanged(text: Seq<char>)
    requires
        is_single_spaced(text),
    ensures
        collapsed(text) == text,
    decreases text.len(),
{
    if text.len() > 0 {
        let rest = text.drop_last();
        assert forall|i: int| 0 <= i && i + 1 < rest.len() implies !(#[trigger] rest[i] == ' '
            && rest[i + 1] == ' ') by {
            assert(rest[i] == text[i]);
        }
        lemma_collapsed_unchanged(rest);
        if text.len() >= 2 {
            assert(!(text[text.len() - 2] == ' ' && text[text.len() - 2 + 1] == ' '));
        }
        assert(rest.push(text.last()) == text);
    }
}

/// Collapsing brings in no character.
pub proof fn lemma_collapsed_brings_no_char(text: Seq<char>, c: char)
    requires
        !text.contains(c),
    ensures
        !collapsed(text).contains(c),
    decreases text.len(),
{
    if text.len() > 0 {
        let rest = text.drop_last();
        assert forall|i: int| 0 <= i < rest.len() implies rest[i] != c by {
            assert(text.contains(text[i]));
        }
        lemma_collapsed_brings_no_char(rest, c);
        let before = collapsed(rest);
        let out = collapsed(text);
        assert(text.contains(text.last()));
        assert forall|i: int| 0 <= i < out.len() implies out[i] != c by {
            if i < before.len() {
                assert(before.contains(before[i]));
            }
        }
    }
}

/// What a collapsed text ends with, if that holds no space, the text
/// itself ended with.
pub proof fn lemma_collapsed_end(text: Seq<char>, end: Seq<char>)
    requires
        !end.contains(' '),
        end.len() <= collapsed(text).len(),
        collapsed(text).skip(collapsed(text).len() - end.len()) == end,
    ensures
        end.len() <= text.len(),
        text.skip(text.len() - end.len()) == end,
    decreases end.len(),
{
    let out = collapsed(text);
    if end.len() == 0 {
        assert(text.skip(text.len() as int) =~= end);
    } else {
        lemma_collapsed_ends(text);
        let rest = text.drop_last();
        let before = collapsed(rest);
        assert(out.skip(out.len() - end.len()).last() == out.last());
        assert(end.contains(end.last()));
        assert(out == before.push(text.last()));
        let front = end.drop_last();
        assert forall|i: int| 0 <= i < front.len() implies front[i] != ' ' by {
            assert(end.contains(end[i]));
        }
        assert(before.skip(before.len() - front.len()) =~= front) by {
            assert forall|i: int| 0 <= i < front.len() implies before[before.len() - front.len() + i]
                == front[i] by {
                assert(out.skip(out.len() - end.len())[i] == end[i]);
            }
        }
        lemma_collapsed_end(rest, front);
        assert(text.skip(text.len() - end.len()) =~= end) by {
            assert forall|i: int| 0 <= i < end.len() implies text[text.len() - end.len() + i]
                == end[i] by {
                if i < front.len() {
                    assert(rest.skip(rest.len() - front.len())[i] == front[i]);
                }
            }
        }
    }
}

/// Collapsing brings in no occurrence of a text without spaces.
pub proof fn lemma_collapsed_brings_no_occurrence(text: Seq<char>, x: Seq<char>)
    requires
        x.len() > 0,
        !x.contains(' '),
        !occurs_in(text, x),
    ensures
        !occurs_in(collapsed(text), x),
    decreases text.len(),
{
    let out = collapsed(text);
    if text.len() > 0 {
        let rest = text.drop_last();
        let before = collapsed(rest);
        assert(rest == text.subrange(0, text.len() - 1));
        lemma_part_brings_no_occurrence(text, 0, text.len() - 1, x);
        lemma_collapsed_brings_no_occurrence(rest, x);
        if occurs_in(out, x) {
            let p = choose|p: int| occurs_at(out, p, x);
            let found = out.subrange(p, p + x.len());
            if p + x.len() <= before.len() {
                assert(before.subrange(p, p + x.len()) =~= found);
                assert(occurs_at(before, p, x));
            } else {
                assert(out == before.push(text.last()));
                assert(out.skip(out.len() - x.len()) =~= found);
                lemma_collapsed_end(text, x);
                assert(text.subrange(text.len() - x.len(), text.len() as int) =~= text.skip(
                    text.len() - x.len(),
                ));
                assert(occurs_at(text, text.len() - x.len(), x));
            }
        }
    } else {
        if occurs_in(out, x) {
            let p = choose|p: int| occurs_at(out, p, x);
        }
    }
}

} // verus!
