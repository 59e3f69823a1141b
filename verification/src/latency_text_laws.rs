//! How every latency is read from a text.

use vstd::prelude::*;

use crate::reading_laws::is_blank;
use crate::sketch::{before_dot, latency_of, without_unit};
use crate::text::{is_digit, is_space, number_of, trimmed, unsigned_number};
use crate::text_laws::{trimming_leaves_the_rest, trimming_takes_white_space_off_the_ends};

verus! {

/// A digit behind others counts once, the others ten times what they count by themselves.
pub proof fn digits_count_in_tens(digits: Seq<char>, digit: char)
    ensures
        number_of(Seq::empty()) == 0,
        48 <= digit as u32 <= 57 ==> number_of(digits.push(digit)) == 10 * number_of(digits) + (
        digit as u32 - 48),
{
    assert(digits.push(digit).drop_last() =~= digits);
}

/// Whether a text is a number: digits, with or without a plus sign ahead of them.
pub open spec fn is_number_text(text: Seq<char>, digits: Seq<char>) -> bool {
    &&& digits.len() > 0
    &&& forall|i: int| 0 <= i < digits.len() ==> 48 <= (#[trigger] digits[i]) as u32 <= 57
    &&& text == digits || text == seq!['+'] + digits
}

/// Whether a text is the unit of milliseconds, any number of times.
pub open spec fn is_units(text: Seq<char>) -> bool {
    &&& text.len() % 2 == 0
    &&& forall|i: int|
        0 <= i < text.len() ==> #[trigger] text[i] == if i % 2 == 0 {
            'm'
        } else {
            's'
        }
}

/// What is left of a text without the units behind it.
proof fn units_are_taken_off(text: Seq<char>, units: Seq<char>)
    requires
        is_units(units),
        !(text.len() > 0 && text.last() == 's'),
    ensures
        without_unit(text + units) == text,
    decreases units.len(),
{
    let whole = text + units;
    if units.len() == 0 {
        assert(whole =~= text);
    } else {
        let n = units.len() as int;
        assert(units[n - 2] == 'm' && units[n - 1] == 's');
        assert(whole[whole.len() - 2] == 'm' && whole[whole.len() - 1] == 's');
        let fewer = units.take(n - 2);
        assert(whole.take(whole.len() - 2) =~= text + fewer);
        units_are_taken_off(text, fewer);
    }
}

/// The units that are taken off a text.
proof fn units_taken_off(text: Seq<char>) -> (units: Seq<char>)
    ensures
        is_units(units),
        text == without_unit(text) + units,
    decreases text.len(),
{
    if text.len() >= 2 && text[text.len() - 2] == 'm' && text[text.len() - 1] == 's' {
        let fewer = text.take(text.len() - 2);
        let units = units_taken_off(fewer);
        let more = units + seq!['m', 's'];
        assert(text =~= fewer + seq!['m', 's']);
        assert(text =~= without_unit(text) + more);
        more
    } else {
        assert(text =~= without_unit(text) + Seq::empty());
        Seq::empty()
    }
}

/// A text up to a dot is what stands ahead of it.
proof fn text_before_dot(head: Seq<char>, rest: Seq<char>)
    requires
        forall|i: int| 0 <= i < head.len() ==> #[trigger] head[i] != '.',
        rest.len() > 0 ==> rest[0] == '.',
    ensures
        before_dot(head + rest) == head,
    decreases head.len(),
{
    let whole = head + rest;
    if head.len() == 0 {
        assert(whole =~= rest);
        assert(before_dot(whole) =~= head);
    } else {
        let tail = head.skip(1);
        assert(whole.skip(1) =~= tail + rest);
        text_before_dot(tail, rest);
        assert(seq![head[0]] + tail =~= head);
    }
}

/// What stands ahead of the first dot.
proof fn dot_divides(text: Seq<char>) -> (rest: Seq<char>)
    ensures
        text == before_dot(text) + rest,
        rest.len() > 0 ==> rest[0] == '.',
    decreases text.len(),
{
    if text.len() == 0 || text[0] == '.' {
        assert(text =~= before_dot(text) + text);
        text
    } else {
        let rest = dot_divides(text.skip(1));
        assert(text =~= seq![text[0]] + text.skip(1));
        assert(text =~= before_dot(text) + rest);
        rest
    }
}

/// Digits are told by their codes.
proof fn digits_are_told(c: char)
    ensures
        is_digit(c) <==> 48 <= c as u32 <= 57,
        is_digit(c) ==> !is_space(c) && c != 's' && c != '.' && c != '+',
{
}

/// What a number reads as.
proof fn number_texts_are_read(text: Seq<char>, digits: Seq<char>)
    requires
        is_number_text(text, digits),
    ensures
        text.len() > 0,
        !is_space(text[0]),
        !is_space(text.last()),
        text.last() != 's',
        forall|i: int| 0 <= i < text.len() ==> #[trigger] text[i] != '.',
        unsigned_number(text) == if number_of(digits) <= u64::MAX {
            Some(number_of(digits) as u64)
        } else {
            None
        },
{
    assert(text.last() == digits.last());
    assert forall|i: int| 0 <= i < digits.len() implies is_digit(#[trigger] digits[i]) && digits[i]
        != '.' by {
        digits_are_told(digits[i]);
    }
    digits_are_told(digits[0]);
    digits_are_told(digits[digits.len() - 1]);
    if text != digits {
        assert(text.skip(1) =~= digits);
        assert forall|i: int| 0 <= i < text.len() implies #[trigger] text[i] != '.' by {
            if i > 0 {
                assert(text[i] == digits[i - 1]);
            }
        }
    }
}

/// A latency is a number between white space, with units behind it or without: its value is the
/// number, where a count can hold it.
pub proof fn whole_latencies_are_read(
    before: Seq<char>,
    number: Seq<char>,
    digits: Seq<char>,
    between: Seq<char>,
    units: Seq<char>,
    after: Seq<char>,
)
    requires
        is_blank(before),
        is_number_text(number, digits),
        is_blank(between),
        is_units(units),
        is_blank(after),
    ensures
        latency_of(before + number + between + units + after) == if number_of(digits) <= u64::MAX {
            Some(number_of(digits) as u64)
        } else {
            None
        },
{
    let text = before + number + between + units + after;
    number_texts_are_read(number, digits);
    text_before_dot(number, Seq::empty());
    assert(number + Seq::<char>::empty() =~= number);
    if units.len() == 0 {
        assert(text =~= before + number + (between + after));
        assert forall|i: int| 0 <= i < (between + after).len() implies is_space(
            #[trigger] (between + after)[i],
        ) by {
            if i < between.len() {
                assert((between + after)[i] == between[i]);
            } else {
                assert((between + after)[i] == after[i - between.len()]);
            }
        }
        trimming_leaves_the_rest(before, number, between + after);
        trimming_leaves_the_rest(Seq::empty(), number, Seq::empty());
        assert(Seq::<char>::empty() + number + Seq::<char>::empty() =~= number);
        units_are_taken_off(number, Seq::empty());
    } else {
        let held = number + between + units;
        let left = number + between;
        assert(text =~= before + held + after);
        assert(held[0] == number[0]);
        assert(held.last() == units[units.len() - 1] && units[units.len() - 1] == 's');
        trimming_leaves_the_rest(before, held, after);
        if between.len() > 0 {
            assert(is_space(between[between.len() - 1]));
            assert(left.last() == between[between.len() - 1]);
        } else {
            assert(left =~= number);
        }
        units_are_taken_off(left, units);
        assert(held =~= left + units);
        trimming_leaves_the_rest(Seq::empty(), number, between);
        assert(Seq::<char>::empty() + number + between =~= left);
    }
}

/// A text that is trimmed keeps what stands in it up to a dot, where that starts with something
/// else than white space.
proof fn trimming_keeps_up_to_dot(before: Seq<char>, head: Seq<char>, rest: Seq<char>) -> (left:
    Seq<char>)
    requires
        is_blank(before),
        head.len() > 0,
        !is_space(head[0]),
    ensures
        trimmed(before + head + seq!['.'] + rest) == head + seq!['.'] + left,
{
    let s = before + head + seq!['.'] + rest;
    let (from, to) = trimming_takes_white_space_off_the_ends(s);
    let first = before.len() as int;
    let dot = first + head.len();
    assert(s[first] == head[0] && s[dot] == '.');
    assert(!is_space('.'));
    assert(from <= first && dot < to);
    if from < first {
        assert(s[from] == before[from]);
    }
    let left = s.subrange(dot + 1, to);
    assert(s.subrange(from, to) =~= head + seq!['.'] + left);
    left
}

/// Units are taken off behind a dot.
proof fn units_stop_at_dot(head: Seq<char>, rest: Seq<char>) -> (left: Seq<char>)
    ensures
        without_unit(head + seq!['.'] + rest) == head + seq!['.'] + left,
    decreases rest.len(),
{
    let s = head + seq!['.'] + rest;
    if s.len() >= 2 && s[s.len() - 2] == 'm' && s[s.len() - 1] == 's' {
        assert(rest.len() >= 2) by {
            assert(s[head.len() as int] == '.');
        }
        assert(s.take(s.len() - 2) =~= head + seq!['.'] + rest.take(rest.len() - 2));
        units_stop_at_dot(head, rest.take(rest.len() - 2))
    } else {
        rest
    }
}

/// Whatever follows the dot behind a number, the latency is the number: fractions are dropped.
pub proof fn fractions_of_latencies_are_dropped(
    before: Seq<char>,
    number: Seq<char>,
    digits: Seq<char>,
    rest: Seq<char>,
)
    requires
        is_blank(before),
        is_number_text(number, digits),
    ensures
        latency_of(before + number + seq!['.'] + rest) == if number_of(digits) <= u64::MAX {
            Some(number_of(digits) as u64)
        } else {
            None
        },
{
    number_texts_are_read(number, digits);
    let r1 = trimming_keeps_up_to_dot(before, number, rest);
    let r2 = units_stop_at_dot(number, r1);
    let r3 = trimming_keeps_up_to_dot(Seq::empty(), number, r2);
    assert(Seq::<char>::empty() + number + seq!['.'] + r2 =~= number + seq!['.'] + r2);
    text_before_dot(number, seq!['.'] + r3);
    assert(number + (seq!['.'] + r3) =~= number + seq!['.'] + r3);
}

/// Whether a text is written as a latency: white space, a number, and then a dot and anything,
/// or white space, units and white space.
pub open spec fn is_latency_text(
    text: Seq<char>,
    before: Seq<char>,
    number: Seq<char>,
    digits: Seq<char>,
    tail: Seq<char>,
) -> bool {
    &&& text == before + number + tail
    &&& is_blank(before)
    &&& is_number_text(number, digits)
    &&& tail.len() > 0 && tail[0] == '.' || exists|a: Seq<char>, b: Seq<char>, c: Seq<char>|
        tail == #[trigger] (a + b + c) && is_blank(a) && is_units(b) && is_blank(c)
}

/// Nothing else is read as a latency: where a text gives one, it is written as one, and its
/// number is the value.
pub proof fn only_latencies_are_read(text: Seq<char>) -> (parts: (
    Seq<char>,
    Seq<char>,
    Seq<char>,
    Seq<char>,
))
    requires
        latency_of(text) is Some,
    ensures
        is_latency_text(text, parts.0, parts.1, parts.2, parts.3),
        number_of(parts.2) == latency_of(text)->0,
{
    let (from, to) = trimming_takes_white_space_off_the_ends(text);
    let outer = text.subrange(from, to);
    let units = units_taken_off(outer);
    let held = without_unit(outer);
    let (start, end) = trimming_takes_white_space_off_the_ends(held);
    let inner = held.subrange(start, end);
    let rest = dot_divides(inner);
    let number = before_dot(inner);
    assert(unsigned_number(number) is Some);
    assert(number.len() > 0);
    assert(inner.len() > 0);
    assert(held[0] == outer[0] && outer[0] == text[from]);
    assert(start == 0) by {
        if start > 0 {
            assert(is_space(held[0]));
        }
    }
    let digits = if number[0] == '+' {
        number.skip(1)
    } else {
        number
    };
    assert forall|i: int| 0 <= i < digits.len() implies 48 <= (#[trigger] digits[i]) as u32
        <= 57 by {
        digits_are_told(digits[i]);
    }
    if number[0] == '+' {
        assert(number =~= seq!['+'] + digits);
    }
    assert(is_number_text(number, digits));
    let before = text.take(from);
    let between = held.skip(end);
    let after = text.skip(to);
    let tail = rest + between + units + after;
    assert(text =~= before + outer + after);
    assert(held =~= inner + between);
    assert(text =~= before + number + tail);
    assert forall|i: int| 0 <= i < before.len() implies is_space(#[trigger] before[i]) by {
        assert(before[i] == text[i]);
    }
    assert forall|i: int| 0 <= i < between.len() implies is_space(#[trigger] between[i]) by {
        assert(between[i] == held[end + i]);
    }
    assert forall|i: int| 0 <= i < after.len() implies is_space(#[trigger] after[i]) by {
        assert(after[i] == text[to + i]);
    }
    if rest.len() > 0 {
        assert(tail[0] == rest[0]);
    } else {
        assert(tail =~= between + units + after);
    }
    (before, number, digits, tail)
}

} // verus!
