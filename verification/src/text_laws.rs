//! What holds of every text: of its white space, its case, its order, its lines and its numbers.

use vstd::prelude::*;

use crate::lines::{break_is_at, joined, lines};
use crate::text::{decimal, is_space, lowered, text_precedes, trim_end, trim_start, trimmed};

verus! {

/// White space is told character by character.
pub proof fn white_space_is_told(c: char)
    ensures
        is_space(c) <==> {
            ||| c == '\t' || c == '\n' || c == '\u{b}' || c == '\u{c}' || c == '\r' || c == ' '
            ||| c == '\u{85}' || c == '\u{a0}' || c == '\u{1680}'
            ||| c == '\u{2000}' || c == '\u{2001}' || c == '\u{2002}' || c == '\u{2003}'
            ||| c == '\u{2004}' || c == '\u{2005}' || c == '\u{2006}' || c == '\u{2007}'
            ||| c == '\u{2008}' || c == '\u{2009}' || c == '\u{200a}'
            ||| c == '\u{2028}' || c == '\u{2029}' || c == '\u{202f}' || c == '\u{205f}'
            ||| c == '\u{3000}'
        },
{
}

/// What is trimmed off a text at its start.
proof fn trimmed_at_start(s: Seq<char>) -> (from: int)
    ensures
        0 <= from <= s.len(),
        trim_start(s) == s.skip(from),
        forall|i: int| 0 <= i < from ==> is_space(#[trigger] s[i]),
        from < s.len() ==> !is_space(s[from]),
    decreases s.len(),
{
    if s.len() > 0 && is_space(s[0]) {
        let rest = s.skip(1);
        let from = trimmed_at_start(rest);
        assert(rest.skip(from) =~= s.skip(from + 1));
        assert forall|i: int| 0 <= i < from + 1 implies is_space(#[trigger] s[i]) by {
            if i > 0 {
                assert(rest[i - 1] == s[i]);
            }
        }
        from + 1
    } else {
        assert(s.skip(0) =~= s);
        0
    }
}

/// What is trimmed off a text at its end.
proof fn trimmed_at_end(s: Seq<char>) -> (to: int)
    ensures
        0 <= to <= s.len(),
        trim_end(s) == s.take(to),
        forall|i: int| to <= i < s.len() ==> is_space(#[trigger] s[i]),
        to > 0 ==> !is_space(s[to - 1]),
    decreases s.len(),
{
    if s.len() > 0 && is_space(s.last()) {
        let rest = s.drop_last();
        let to = trimmed_at_end(rest);
        assert(rest.take(to) =~= s.take(to));
        assert forall|i: int| to <= i < s.len() implies is_space(#[trigger] s[i]) by {
            if i < s.len() - 1 {
                assert(rest[i] == s[i]);
            }
        }
        to
    } else {
        assert(s.take(s.len() as int) =~= s);
        s.len() as int
    }
}

/// A trimmed text is what stands between the first and the last character that is no white
/// space. Of a text of white space alone nothing is left.
pub proof fn trimming_takes_white_space_off_the_ends(s: Seq<char>) -> (range: (int, int))
    ensures
        0 <= range.0 <= range.1 <= s.len(),
        trimmed(s) == s.subrange(range.0, range.1),
        forall|i: int| 0 <= i < range.0 ==> is_space(#[trigger] s[i]),
        forall|i: int| range.1 <= i < s.len() ==> is_space(#[trigger] s[i]),
        range.0 < range.1 ==> !is_space(s[range.0]) && !is_space(s[range.1 - 1]),
{
    let from = trimmed_at_start(s);
    let rest = s.skip(from);
    let to = trimmed_at_end(rest);
    assert(rest.take(to) =~= s.subrange(from, from + to));
    assert forall|i: int| from + to <= i < s.len() implies is_space(#[trigger] s[i]) by {
        assert(rest[i - from] == s[i]);
    }
    if to > 0 {
        assert(rest[0] == s[from]);
        assert(rest[to - 1] == s[from + to - 1]);
    }
    (from, from + to)
}

/// A text that starts and ends with something else than white space is what is left of it
/// between any white space.
pub proof fn trimming_leaves_the_rest(before: Seq<char>, text: Seq<char>, after: Seq<char>)
    requires
        forall|i: int| 0 <= i < before.len() ==> is_space(#[trigger] before[i]),
        forall|i: int| 0 <= i < after.len() ==> is_space(#[trigger] after[i]),
        text.len() > 0 ==> !is_space(text[0]) && !is_space(text.last()),
    ensures
        trimmed(before + text + after) == text,
{
    let s = before + text + after;
    let (from, to) = trimming_takes_white_space_off_the_ends(s);
    if text.len() == 0 {
        assert forall|i: int| 0 <= i < s.len() implies is_space(#[trigger] s[i]) by {
            if i < before.len() {
                assert(before[i] == s[i]);
            } else {
                assert(after[i - before.len()] == s[i]);
            }
        }
        assert(trimmed(s) =~= text);
    } else {
        let (first, last) = (before.len() as int, before.len() + text.len() - 1);
        assert(s[first] == text[0] && s[last] == text.last());
        assert(from <= first && last < to);
        if from < first {
            assert(s[from] == before[from]);
        }
        if to > last + 1 {
            assert(s[to - 1] == after[to - 1 - last - 1]);
        }
        assert(s.subrange(first, last + 1) =~= text);
    }
}

/// Only the capitals of the Latin alphabet are made small; every other character stays.
pub proof fn only_capitals_are_made_small(s: Seq<char>, i: int)
    requires
        0 <= i < s.len(),
    ensures
        lowered(s).len() == s.len(),
        65 <= s[i] as u32 <= 90 ==> lowered(s)[i] as u32 == s[i] as u32 + 32,
        !(65 <= s[i] as u32 <= 90) ==> lowered(s)[i] == s[i],
{
}

/// Whether one text comes before another: by the first character in which they differ, or as a
/// proper beginning of it.
pub open spec fn reads_before(a: Seq<char>, b: Seq<char>) -> bool {
    exists|at: int|
        0 <= at <= a.len() && at < b.len() && #[trigger] a.take(at) == b.take(at) && (at == a.len()
            || a[at] < b[at])
}

/// A text comes before another where it is a proper beginning of it, or has the smaller
/// character where they first differ.
pub proof fn texts_go_by_their_first_difference(a: Seq<char>, b: Seq<char>)
    ensures
        text_precedes(a, b) <==> reads_before(a, b),
    decreases a.len(),
{
    if text_precedes(a, b) {
        if a.len() == 0 || a[0] != b[0] {
            assert(a.take(0) =~= b.take(0));
        } else {
            let (x, y) = (a.skip(1), b.skip(1));
            texts_go_by_their_first_difference(x, y);
            let at = choose|at: int|
                0 <= at <= x.len() && at < y.len() && #[trigger] x.take(at) == y.take(at) && (at
                    == x.len() || x[at] < y[at]);
            assert(a.take(at + 1) =~= seq![a[0]] + x.take(at));
            assert(b.take(at + 1) =~= seq![b[0]] + y.take(at));
        }
    }
    if reads_before(a, b) {
        let at = choose|at: int|
            0 <= at <= a.len() && at < b.len() && #[trigger] a.take(at) == b.take(at) && (at
                == a.len() || a[at] < b[at]);
        if at > 0 {
            let (x, y) = (a.skip(1), b.skip(1));
            assert(a.take(at)[0] == b.take(at)[0]);
            assert(x.take(at - 1) =~= a.take(at).skip(1));
            assert(y.take(at - 1) =~= b.take(at).skip(1));
            texts_go_by_their_first_difference(x, y);
        }
    }
}

/// A number is written by the digits of its tenth and its last digit.
pub proof fn numbers_are_written_in_tens(n: nat, digit: nat)
    requires
        digit < 10,
    ensures
        decimal(digit) == seq![(48 + digit) as char],
        n > 0 ==> decimal(10 * n + digit) == decimal(n) + decimal(digit),
{
    if n > 0 {
        assert((10 * n + digit) / 10 == n && (10 * n + digit) % 10 == digit);
        assert(decimal(10 * n + digit) =~= decimal(n) + decimal(digit));
    }
}

/// A line feed ends a line, together with a carriage return that stands just ahead of it, and
/// nothing else does: what stands ahead of the first line feed is the first line, and what
/// follows it gives the others. A text without a line feed is one line, an empty one none.
pub proof fn line_feeds_end_lines(line: Seq<char>, rest: Seq<char>)
    requires
        forall|i: int| 0 <= i < line.len() ==> #[trigger] line[i] != '\n',
    ensures
        lines(Seq::empty()) == Seq::<Seq<char>>::empty(),
        line.len() > 0 ==> lines(line) == seq![line],
        lines(line + seq!['\r', '\n'] + rest) == seq![line] + lines(rest),
        !(line.len() > 0 && line.last() == '\r') ==> lines(line + seq!['\n'] + rest) == seq![line]
            + lines(rest),
{
    let n = line.len() as int;
    if n > 0 {
        break_is_at(line, n);
    }
    let plain = line + seq!['\n'] + rest;
    break_is_at(plain, n);
    assert(plain.take(n) =~= line);
    assert(plain.skip(n + 1) =~= rest);
    let with_return = line + seq!['\r', '\n'] + rest;
    break_is_at(with_return, n + 1);
    assert(with_return.take(n + 1) =~= line.push('\r'));
    assert(line.push('\r').drop_last() =~= line);
    assert(with_return.skip(n + 2) =~= rest);
}

/// Rows are written one behind the other, with a line feed between each and the next and none
/// at the end.
pub proof fn line_feeds_stand_between_rows(first: Seq<Seq<char>>, second: Seq<Seq<char>>)
    ensures
        joined(Seq::empty()) == Seq::<char>::empty(),
        forall|row: Seq<char>| #[trigger] joined(seq![row]) == row,
        first.len() > 0 && second.len() > 0 ==> joined(first + second) == joined(first)
            + seq!['\n'] + joined(second),
    decreases first.len(),
{
    if first.len() > 0 && second.len() > 0 {
        let both = first + second;
        if first.len() == 1 {
            assert(both.skip(1) =~= second);
        } else {
            line_feeds_stand_between_rows(first.skip(1), second);
            assert(both.skip(1) =~= first.skip(1) + second);
        }
        assert(joined(both) =~= joined(first) + seq!['\n'] + joined(second));
    }
}

} // verus!
