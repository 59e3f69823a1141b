//! The lines of a text.

use vstd::prelude::*;

use crate::text::{chars_of, text_of};

verus! {

/// The place of the first line feed, or the end of the text.
pub open spec fn break_at(text: Seq<char>) -> nat
    decreases text.len(),
{
    if text.len() == 0 || text[0] == '\n' {
        0
    } else {
        1 + break_at(text.skip(1))
    }
}

/// A line without the carriage return that it ends with, if any.
pub open spec fn without_return(line: Seq<char>) -> Seq<char> {
    if line.len() > 0 && line.last() == '\r' {
        line.drop_last()
    } else {
        line
    }
}

/// The lines of a text. A line ends with a line feed, or a carriage return and a line feed; the
/// last one may go without.
pub open spec fn lines(text: Seq<char>) -> Seq<Seq<char>>
    decreases text.len(),
{
    if text.len() == 0 {
        Seq::empty()
    } else {
        let end = break_at(text) as int;
        if end < text.len() {
            seq![without_return(text.take(end))] + lines(text.skip(end + 1))
        } else {
            seq![text]
        }
    }
}

/// Rows with a line feed between each and the next.
pub open spec fn joined(rows: Seq<Seq<char>>) -> Seq<char>
    decreases rows.len(),
{
    if rows.len() == 0 {
        Seq::empty()
    } else if rows.len() == 1 {
        rows[0]
    } else {
        rows[0] + seq!['\n'] + joined(rows.skip(1))
    }
}

/// Whether a text is a line of its own: it is not empty and no line break ends or divides it.
pub open spec fn is_one_line(row: Seq<char>) -> bool {
    &&& row.len() > 0
    &&& row.last() != '\r'
    &&& forall|i: int| 0 <= i < row.len() ==> #[trigger] row[i] != '\n'
}

/// The models of a list of texts.
pub open spec fn text_views(texts: Seq<String>) -> Seq<Seq<char>> {
    texts.map_values(|t: String| t@)
}

/// The first line feed is where no other stands ahead of it.
pub proof fn break_is_at(text: Seq<char>, end: int)
    requires
        0 <= end <= text.len(),
        forall|i: int| 0 <= i < end ==> #[trigger] text[i] != '\n',
        end < text.len() ==> text[end] == '\n',
    ensures
        break_at(text) == end,
    decreases end,
{
    if end > 0 {
        break_is_at(text.skip(1), end - 1);
    }
}

/// Rows that are lines of their own are the lines of the text that joins them.
pub proof fn joined_rows_are_lines(rows: Seq<Seq<char>>)
    requires
        forall|i: int| 0 <= i < rows.len() ==> is_one_line(#[trigger] rows[i]),
    ensures
        lines(joined(rows)) == rows,
    decreases rows.len(),
{
    if rows.len() > 0 {
        let text = joined(rows);
        let first = rows[0];
        if rows.len() > 1 {
            break_is_at(text, first.len() as int);
            assert(text.take(first.len() as int) =~= first);
            assert(text.skip(first.len() as int + 1) =~= joined(rows.skip(1)));
            joined_rows_are_lines(rows.skip(1));
        } else {
            break_is_at(text, text.len() as int);
        }
    }
}

/// One more row comes behind a line feed.
pub proof fn joined_with_one_more(rows: Seq<Seq<char>>, row: Seq<char>)
    ensures
        joined(rows.push(row)) == if rows.len() == 0 {
            row
        } else {
            joined(rows) + seq!['\n'] + row
        },
    decreases rows.len(),
{
    let more = rows.push(row);
    if rows.len() > 0 {
        assert(more.skip(1) =~= rows.skip(1).push(row));
        joined_with_one_more(rows.skip(1), row);
    }
}

/// The lines of a text.
pub fn lines_of(text: &str) -> (r: Vec<String>)
    ensures
        text_views(r@) == lines(text@),
{
    let chars = chars_of(text);
    let n: usize = chars.len();
    let mut found: Vec<String> = Vec::new();
    let mut from: usize = 0;
    proof {
        assert(chars@.skip(0) =~= chars@);
    }
    while from < n
        invariant
            from <= n == chars@.len(),
            lines(chars@) == text_views(found@) + lines(chars@.skip(from as int)),
        decreases n - from,
    {
        let ghost rest = chars@.skip(from as int);
        let mut end: usize = from;
        while end < n && chars[end] != '\n'
            invariant
                from <= end <= n == chars@.len(),
                forall|i: int| from <= i < end ==> #[trigger] chars@[i] != '\n',
            decreases n - end,
        {
            end += 1;
        }
        proof {
            break_is_at(rest, end - from);
        }
        if end < n {
            let line = if end > from && chars[end - 1] == '\r' {
                text_of(&chars, from, end - 1)
            } else {
                text_of(&chars, from, end)
            };
            assert(line@ =~= without_return(rest.take(end - from)));
            found.push(line);
            proof {
                assert(rest.skip(end - from + 1) =~= chars@.skip(end + 1));
            }
            from = end + 1;
        } else {
            let line = text_of(&chars, from, end);
            found.push(line);
            from = n;
        }
    }
    found
}

} // verus!
