//! Lines of a block, and the header lines among them.

use crate::text::{to_chars, trimmed, trimmed_is_trimmed, trimmed_string};
use vstd::prelude::*;

verus! {

/// The index of the first line feed in `text` at or after `from`, or the
/// length of `text` where there is none.
pub open spec fn next_newline(text: Seq<char>, from: int) -> int
    decreases text.len() - from,
{
    if from >= text.len() {
        text.len() as int
    } else if 0 <= from && text[from] == '\n' {
        from
    } else {
        next_newline(text, from + 1)
    }
}

/// `line` without one carriage return at its end.
pub open spec fn strip_cr(line: Seq<char>) -> Seq<char> {
    if line.len() > 0 && line.last() == '\r' {
        line.drop_last()
    } else {
        line
    }
}

/// The lines of `text` from index `from` on. A line ends at a line feed;
/// the line feed, and one carriage return before it, are not part of the
/// line. What follows the last line feed is a line as it stands, unless it
/// is empty.
pub open spec fn lines_from(text: Seq<char>, from: int) -> Seq<Seq<char>>
    decreases text.len() - from,
{
    if from < 0 || from >= text.len() {
        Seq::empty()
    } else {
        let end = next_newline(text, from);
        if from <= end < text.len() {
            seq![strip_cr(text.subrange(from, end))] + lines_from(text, end + 1)
        } else {
            seq![text.skip(from)]
        }
    }
}

/// The lines of `text`.
pub open spec fn lines_of(text: Seq<char>) -> Seq<Seq<char>> {
    lines_from(text, 0)
}

/// The lines of `lines` before its first empty line.
pub open spec fn until_blank(lines: Seq<Seq<char>>) -> Seq<Seq<char>>
    decreases lines.len(),
{
    if lines.len() == 0 || lines.first().len() == 0 {
        Seq::empty()
    } else {
        seq![lines.first()] + until_blank(lines.drop_first())
    }
}

/// Each line of `lines`, trimmed.
pub open spec fn trim_each(lines: Seq<Seq<char>>) -> Seq<Seq<char>> {
    Seq::new(lines.len(), |i: int| trimmed(lines[i]))
}

/// The header lines of a block: its lines after the first one and before
/// the first empty one, each trimmed.
pub open spec fn header_lines(block: Seq<char>) -> Seq<Seq<char>> {
    let all = lines_of(block);
    if all.len() == 0 {
        Seq::empty()
    } else {
        trim_each(until_blank(all.drop_first()))
    }
}

/// Whether a line feed stands in `text`.
pub open spec fn has_newline(text: Seq<char>) -> bool {
    exists|i: int| 0 <= i < text.len() && text[i] == '\n'
}

/// The line break CR LF.
pub open spec fn line_break() -> Seq<char> {
    seq!['\r', '\n']
}

/// `lines` with CR LF between each two of them.
pub open spec fn join_lines(lines: Seq<Seq<char>>) -> Seq<char>
    decreases lines.len(),
{
    if lines.len() == 0 {
        Seq::empty()
    } else if lines.len() == 1 {
        lines[0]
    } else {
        lines[0] + line_break() + join_lines(lines.drop_first())
    }
}

/// The index of the first line feed in `text` at or after `from`, or the
/// length of `text`.
fn find_newline(text: &[char], from: usize) -> (end: usize)
    requires
        from <= text@.len(),
    ensures
        end == next_newline(text@, from as int),
        from <= end <= text@.len(),
{
    let mut end: usize = from;
    while end < text.len() && text[end] != '\n'
        invariant
            from <= end <= text@.len(),
            forall|i: int| from <= i < end ==> text@[i] != '\n',
        decreases text@.len() - end,
    {
        end += 1;
    }
    proof {
        lemma_next_newline_skips(text@, from as int, end as int);
    }
    end
}

/// The line of `text` that begins at `from`: the index at which it ends,
/// and the index at which the next line begins.
fn line_at(text: &[char], from: usize) -> (bounds: (usize, usize))
    requires
        from < text@.len(),
    ensures
        from <= bounds.0 <= bounds.1 <= text@.len(),
        from < bounds.1,
        lines_from(text@, from as int) == seq![
            text@.subrange(from as int, bounds.0 as int),
        ] + lines_from(text@, bounds.1 as int),
{
    let n: usize = text.len();
    let feed = find_newline(text, from);
    if feed == n {
        (n, n)
    } else if feed > from && text[feed - 1] == '\r' {
        assert(text@.subrange(from as int, feed as int).drop_last() == text@.subrange(
            from as int,
            feed - 1,
        ));
        (feed - 1, feed + 1)
    } else {
        (feed, feed + 1)
    }
}

/// The header lines of `block`.
pub fn headers(block: &str) -> (lines: Vec<String>)
    ensures
        lines.deep_view() == header_lines(block@),
{
    let chars = to_chars(block);
    let text = chars.as_slice();
    let n: usize = text.len();
    let mut found: Vec<String> = Vec::new();
    if n == 0 {
        return found;
    }
    let first = line_at(text, 0);
    let mut from: usize = first.1;
    proof {
        let first_line = seq![text@.subrange(0, first.0 as int)];
        assert((first_line + lines_from(text@, from as int)).drop_first() == lines_from(
            text@,
            from as int,
        ));
    }
    while from < n
        invariant
            n == text@.len(),
            from <= n,
            header_lines(block@) == found.deep_view() + trim_each(
                until_blank(lines_from(text@, from as int)),
            ),
        ensures
            header_lines(block@) == found.deep_view(),
        decreases n - from,
    {
        let line = line_at(text, from);
        assert(lines_from(text@, from as int).drop_first() == lines_from(text@, line.1 as int));
        if line.0 == from {
            // an empty line ends the headers
            break ;
        }
        found.push(trimmed_string(text, from, line.0));
        from = line.1;
    }
    found
}

/// Each header line of a block is trimmed: trimming it again changes
/// nothing.
pub proof fn header_lines_are_trimmed(block: Seq<char>, i: int)
    requires
        0 <= i < header_lines(block).len(),
    ensures
        trimmed(header_lines(block)[i]) == header_lines(block)[i],
{
    let kept = until_blank(lines_of(block).drop_first());
    trimmed_is_trimmed(kept[i]);
}

/// The lines of what was joined are the lines that were joined, where
/// there is at least one, no line feed stands in any, and the last is not
/// empty.
pub proof fn lines_of_joined(lines: Seq<Seq<char>>)
    requires
        lines.len() >= 1,
        forall|i: int| 0 <= i < lines.len() ==> !has_newline(#[trigger] lines[i]),
        lines.last().len() > 0,
    ensures
        lines_of(join_lines(lines)) == lines,
    decreases lines.len(),
{
    let text = join_lines(lines);
    let n = lines[0].len() as int;
    assert forall|i: int| 0 <= i < n implies text[i] != '\n' by {}
    lemma_next_newline_skips(text, 0, n);
    if lines.len() == 1 {
        assert(text.skip(0) == text);
    } else {
        // the first line ends at the line feed of the line break behind it
        let others = lines.drop_first();
        assert(next_newline(text, n + 1) == n + 1);
        assert(strip_cr(text.subrange(0, n + 1)) == lines[0]);
        assert(text.skip(n + 2) == join_lines(others));
        lemma_lines_from_skip(text, n + 2, n + 2);
        assert forall|i: int| 0 <= i < others.len() implies !has_newline(
            #[trigger] others[i],
        ) by {}
        lines_of_joined(others);
    }
}

/// A block that is written as a first line and then one line for each of
/// `fields`, with CR LF between the lines, has these fields as its header
/// lines, each trimmed and in the same order. No line feed may stand in a
/// line, and no field may be empty: an empty line would end the headers.
pub proof fn header_lines_of_fields(first: Seq<char>, fields: Seq<Seq<char>>)
    requires
        !has_newline(first),
        forall|i: int| 0 <= i < fields.len() ==> !has_newline(#[trigger] fields[i]),
        forall|i: int| 0 <= i < fields.len() ==> (#[trigger] fields[i]).len() > 0,
    ensures
        header_lines(join_lines(seq![first] + fields)) == trim_each(fields),
{
    let all = seq![first] + fields;
    assert forall|i: int| 0 <= i < all.len() implies !has_newline(#[trigger] all[i]) by {}
    if fields.len() > 0 {
        lines_of_joined(all);
        assert(all.drop_first() == fields);
        lemma_until_blank_all(fields);
    } else if first.len() > 0 {
        lines_of_joined(all);
    }
}

/// `next_newline` gives an index between `from` and the end at which a
/// line feed stands, unless it gives the end, and no line feed stands
/// before it.
proof fn lemma_next_newline(text: Seq<char>, from: int)
    requires
        0 <= from <= text.len(),
    ensures
        from <= next_newline(text, from) <= text.len(),
        next_newline(text, from) < text.len() ==> text[next_newline(text, from)] == '\n',
        forall|i: int| from <= i < next_newline(text, from) ==> text[i] != '\n',
    decreases text.len() - from,
{
    if from < text.len() && text[from] != '\n' {
        lemma_next_newline(text, from + 1);
    }
}

/// Where no line feed stands in `text[from..to]`, searching from `from` is
/// searching from `to`.
proof fn lemma_next_newline_skips(text: Seq<char>, from: int, to: int)
    requires
        0 <= from <= to <= text.len(),
        forall|i: int| from <= i < to ==> text[i] != '\n',
    ensures
        next_newline(text, from) == next_newline(text, to),
    decreases to - from,
{
    if from < to {
        lemma_next_newline_skips(text, from + 1, to);
    }
}

/// The search for a line feed in what follows `from` finds what the search
/// from `from` finds.
proof fn lemma_next_newline_skip(text: Seq<char>, from: int, at: int)
    requires
        0 <= from <= at <= text.len(),
    ensures
        next_newline(text, at) == from + next_newline(text.skip(from), at - from),
    decreases text.len() - at,
{
    if at < text.len() && text[at] != '\n' {
        lemma_next_newline_skip(text, from, at + 1);
    }
}

/// The lines of a text from `from` on are the lines of what follows
/// `from`.
proof fn lemma_lines_from_skip(text: Seq<char>, from: int, at: int)
    requires
        0 <= from <= at <= text.len(),
    ensures
        lines_from(text, at) == lines_from(text.skip(from), at - from),
    decreases text.len() - at,
{
    let rest = text.skip(from);
    if at < text.len() {
        lemma_next_newline_skip(text, from, at);
        lemma_next_newline(text, at);
        let end = next_newline(text, at);
        if end < text.len() {
            assert(text.subrange(at, end) == rest.subrange(at - from, end - from));
            lemma_lines_from_skip(text, from, end + 1);
        } else {
            assert(text.skip(at) == rest.skip(at - from));
        }
    }
}

/// Among lines of which none is empty, none is left out as coming after an
/// empty one.
proof fn lemma_until_blank_all(lines: Seq<Seq<char>>)
    requires
        forall|i: int| 0 <= i < lines.len() ==> (#[trigger] lines[i]).len() > 0,
    ensures
        until_blank(lines) == lines,
    decreases lines.len(),
{
    if lines.len() > 0 {
        let others = lines.drop_first();
        assert forall|i: int| 0 <= i < others.len() implies (#[trigger] others[i]).len() > 0 by {}
        lemma_until_blank_all(others);
    }
}

} // verus!
