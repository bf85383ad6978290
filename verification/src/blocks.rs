//! Splitting the output of the client into message blocks.
//!
//! The output holds one message per hop, each followed by an empty line,
//! and then the body. The blocks are the pieces between the separators,
//! the four characters CR LF CR LF, found from left to right without
//! overlap.

use crate::text::{occurs_at, occurs_in, to_chars};
use vstd::prelude::*;

verus! {

/// The separator: CR LF CR LF.
pub open spec fn separator() -> Seq<char> {
    seq!['\r', '\n', '\r', '\n']
}

/// Whether the separator stands in `text` at index `i`.
pub open spec fn separator_at(text: Seq<char>, i: int) -> bool {
    &&& 0 <= i
    &&& i + 4 <= text.len()
    &&& text[i] == '\r'
    &&& text[i + 1] == '\n'
    &&& text[i + 2] == '\r'
    &&& text[i + 3] == '\n'
}

/// Whether the separator stands somewhere in `text`.
pub open spec fn has_separator(text: Seq<char>) -> bool {
    exists|i: int| separator_at(text, i)
}

/// The index of the first separator in `text` at or after `from`, or the
/// length of `text` where there is none.
pub open spec fn next_separator(text: Seq<char>, from: int) -> int
    decreases text.len() - from,
{
    if from >= text.len() {
        text.len() as int
    } else if separator_at(text, from) {
        from
    } else {
        next_separator(text, from + 1)
    }
}

/// The blocks of `text` from index `from` on: what stands before the next
/// separator, and then the blocks of what follows that separator.
pub open spec fn blocks_from(text: Seq<char>, from: int) -> Seq<Seq<char>>
    decreases text.len() - from,
{
    let cut = next_separator(text, from);
    if 0 <= from <= cut && cut + 4 <= text.len() {
        seq![text.subrange(from, cut)] + blocks_from(text, cut + 4)
    } else {
        seq![text.skip(from)]
    }
}

/// The blocks of `text`: what lies between its separators. There is always
/// at least one block, and the last one runs to the end of `text`.
pub open spec fn split_blocks(text: Seq<char>) -> Seq<Seq<char>> {
    blocks_from(text, 0)
}

/// Whether `text` ends with CR LF.
pub open spec fn ends_with_line_break(text: Seq<char>) -> bool {
    text.len() >= 2 && text[text.len() - 2] == '\r' && text[text.len() - 1] == '\n'
}

/// Whether `blocks` can be the blocks of a text: there is at least one, no
/// separator stands in any, and none but the last ends with CR LF. (A
/// block that ends so, and the separator behind it, would hold a separator
/// two characters earlier.)
pub open spec fn are_blocks(blocks: Seq<Seq<char>>) -> bool {
    &&& blocks.len() >= 1
    &&& forall|i: int| 0 <= i < blocks.len() ==> !has_separator(#[trigger] blocks[i])
    &&& forall|i: int| 0 <= i < blocks.len() - 1 ==> !ends_with_line_break(#[trigger] blocks[i])
}

/// `blocks` with the separator between each two of them.
pub open spec fn join_blocks(blocks: Seq<Seq<char>>) -> Seq<char>
    decreases blocks.len(),
{
    if blocks.len() == 0 {
        Seq::empty()
    } else if blocks.len() == 1 {
        blocks[0]
    } else {
        blocks[0] + separator() + join_blocks(blocks.drop_first())
    }
}

/// Whether the separator stands in `text` at index `i`.
pub fn is_separator_at(text: &[char], i: usize) -> (b: bool)
    ensures
        b == separator_at(text@, i as int),
{
    let n: usize = text.len();
    n >= 4 && i <= n - 4 && text[i] == '\r' && text[i + 1] == '\n' && text[i + 2] == '\r' && text[i
        + 3] == '\n'
}

/// Splits `text` into its blocks.
pub fn split(text: &str) -> (blocks: Vec<String>)
    ensures
        blocks.deep_view() == split_blocks(text@),
        blocks.len() >= 1,
{
    let chars = to_chars(text);
    let n: usize = chars.len();
    let mut blocks: Vec<String> = Vec::new();
    let mut current = String::new();
    let mut start: usize = 0;
    let mut i: usize = 0;
    while i < n
        invariant
            n == chars@.len(),
            start <= i <= n,
            current@ == chars@.subrange(start as int, i as int),
            forall|k: int| start <= k < i ==> !separator_at(chars@, k),
            split_blocks(chars@) == blocks.deep_view() + blocks_from(chars@, start as int),
        decreases n - i,
    {
        if is_separator_at(chars.as_slice(), i) {
            proof {
                lemma_next_separator_skips(chars@, start as int, i as int);
            }
            blocks.push(current);
            current = String::new();
            i += 4;
            start = i;
        } else {
            current.push(chars[i]);
            i += 1;
        }
    }
    proof {
        lemma_next_separator_skips(chars@, start as int, n as int);
    }
    blocks.push(current);
    blocks
}

/// The blocks of a text can be the blocks of a text.
pub proof fn split_gives_blocks(text: Seq<char>)
    ensures
        are_blocks(split_blocks(text)),
{
    lemma_blocks_from_are_blocks(text, 0);
}

/// Joining the blocks of a text gives the text back.
pub proof fn joined_of_split(text: Seq<char>)
    ensures
        join_blocks(split_blocks(text)) == text,
{
    lemma_joined_of_blocks_from(text, 0);
}

/// Splitting what was joined gives the blocks back: of blocks that can be
/// the blocks of a text, the joined text has exactly these blocks.
pub proof fn split_of_joined(blocks: Seq<Seq<char>>)
    requires
        are_blocks(blocks),
    ensures
        split_blocks(join_blocks(blocks)) == blocks,
    decreases blocks.len(),
{
    let text = join_blocks(blocks);
    let first = blocks[0];
    let n = first.len() as int;
    if blocks.len() == 1 {
        assert forall|i: int| 0 <= i < n implies !separator_at(text, i) by {}
        lemma_next_separator_skips(text, 0, n);
        assert(text.skip(0) == text);
    } else {
        // the first separator of `text` is the one behind the first block:
        // one that begins earlier would stand in that block, or begin at
        // a line break that ends it
        let others = blocks.drop_first();
        assert forall|i: int| 0 <= i < n implies !separator_at(text, i) by {
            if separator_at(text, i) && i + 4 <= n {
                assert(separator_at(first, i));
            }
        }
        assert(separator_at(text, n));
        lemma_next_separator_skips(text, 0, n);
        assert(text.subrange(0, n) == first);
        assert(text.skip(n + 4) == join_blocks(others));
        lemma_blocks_from_skip(text, n + 4, n + 4);
        assert(are_blocks(others)) by {
            assert forall|i: int| 0 <= i < others.len() implies !has_separator(
                #[trigger] others[i],
            ) by {}
            assert forall|i: int| 0 <= i < others.len() - 1 implies !ends_with_line_break(
                #[trigger] others[i],
            ) by {}
        }
        split_of_joined(others);
    }
}

/// `next_separator` gives an index between `from` and the end at which the
/// separator stands, unless it gives the end, and no separator stands
/// before it.
proof fn lemma_next_separator(text: Seq<char>, from: int)
    requires
        0 <= from <= text.len(),
    ensures
        from <= next_separator(text, from) <= text.len(),
        next_separator(text, from) < text.len() ==> separator_at(
            text,
            next_separator(text, from),
        ),
        forall|i: int| from <= i < next_separator(text, from) ==> !separator_at(text, i),
    decreases text.len() - from,
{
    if from < text.len() && !separator_at(text, from) {
        lemma_next_separator(text, from + 1);
    }
}

/// Where no separator stands in `text` at an index from `from` up to `to`,
/// searching from `from` is searching from `to`.
proof fn lemma_next_separator_skips(text: Seq<char>, from: int, to: int)
    requires
        0 <= from <= to <= text.len(),
        forall|i: int| from <= i < to ==> !separator_at(text, i),
    ensures
        next_separator(text, from) == next_separator(text, to),
    decreases to - from,
{
    if from < to {
        lemma_next_separator_skips(text, from + 1, to);
    }
}

/// The search for a separator in what follows `from` finds what the search
/// in the whole text finds.
proof fn lemma_next_separator_skip(text: Seq<char>, from: int, at: int)
    requires
        0 <= from <= at <= text.len(),
    ensures
        next_separator(text, at) == from + next_separator(text.skip(from), at - from),
    decreases text.len() - at,
{
    if at < text.len() {
        assert(separator_at(text, at) == separator_at(text.skip(from), at - from));
        if !separator_at(text, at) {
            lemma_next_separator_skip(text, from, at + 1);
        }
    }
}

/// There is at least one block.
proof fn lemma_blocks_nonempty(text: Seq<char>, from: int)
    requires
        0 <= from <= text.len(),
    ensures
        blocks_from(text, from).len() >= 1,
    decreases text.len() - from,
{
    lemma_next_separator(text, from);
    let cut = next_separator(text, from);
    if cut < text.len() {
        lemma_blocks_nonempty(text, cut + 4);
    }
}

/// Each block of a text stands in the text.
pub(crate) proof fn lemma_block_occurs(text: Seq<char>, from: int, i: int)
    requires
        0 <= from <= text.len(),
        0 <= i < blocks_from(text, from).len(),
    ensures
        occurs_in(blocks_from(text, from)[i], text),
    decreases text.len() - from,
{
    lemma_next_separator(text, from);
    let cut = next_separator(text, from);
    if cut + 4 <= text.len() {
        if i == 0 {
            assert(occurs_at(text.subrange(from, cut), text, from));
        } else {
            lemma_block_occurs(text, cut + 4, i - 1);
        }
    } else {
        assert(occurs_at(text.skip(from), text, from));
    }
}

/// The blocks of a text from `at` on are the blocks of what follows
/// `from`, counted from there.
proof fn lemma_blocks_from_skip(text: Seq<char>, from: int, at: int)
    requires
        0 <= from <= at <= text.len(),
    ensures
        blocks_from(text, at) == blocks_from(text.skip(from), at - from),
    decreases text.len() - at,
{
    let rest = text.skip(from);
    lemma_next_separator_skip(text, from, at);
    lemma_next_separator(text, at);
    let cut = next_separator(text, at);
    if cut + 4 <= text.len() {
        assert(text.subrange(at, cut) == rest.subrange(at - from, cut - from));
        lemma_blocks_from_skip(text, from, cut + 4);
    } else {
        assert(text.skip(at) == rest.skip(at - from));
    }
}

/// A piece of `text` in which the separator stands holds it where it
/// stands in `text`.
proof fn lemma_separator_in_piece(text: Seq<char>, from: int, to: int)
    requires
        0 <= from <= to <= text.len(),
        has_separator(text.subrange(from, to)),
    ensures
        exists|i: int| from <= i && i + 4 <= to && separator_at(text, i),
{
    let i = choose|i: int| separator_at(text.subrange(from, to), i);
    assert(separator_at(text, from + i));
}

/// The blocks of a text from `from` on can be the blocks of a text.
proof fn lemma_blocks_from_are_blocks(text: Seq<char>, from: int)
    requires
        0 <= from <= text.len(),
    ensures
        are_blocks(blocks_from(text, from)),
    decreases text.len() - from,
{
    lemma_next_separator(text, from);
    let cut = next_separator(text, from);
    let blocks = blocks_from(text, from);
    if cut + 4 <= text.len() {
        // no separator stands before `cut`: none in the first block, and
        // none two characters before `cut`, where a line break at the end
        // of the first block would put one
        let first = text.subrange(from, cut);
        lemma_blocks_from_are_blocks(text, cut + 4);
        if has_separator(first) {
            lemma_separator_in_piece(text, from, cut);
        }
        if ends_with_line_break(first) {
            assert(separator_at(text, cut - 2));
        }
        assert forall|i: int| 0 <= i < blocks.len() implies !has_separator(
            #[trigger] blocks[i],
        ) by {}
        assert forall|i: int| 0 <= i < blocks.len() - 1 implies !ends_with_line_break(
            #[trigger] blocks[i],
        ) by {}
    } else if has_separator(text.skip(from)) {
        lemma_separator_in_piece(text, from, text.len() as int);
    }
}

/// Joining the blocks of a text from `from` on gives what follows `from`.
proof fn lemma_joined_of_blocks_from(text: Seq<char>, from: int)
    requires
        0 <= from <= text.len(),
    ensures
        join_blocks(blocks_from(text, from)) == text.skip(from),
    decreases text.len() - from,
{
    lemma_next_separator(text, from);
    let cut = next_separator(text, from);
    if cut + 4 <= text.len() {
        lemma_joined_of_blocks_from(text, cut + 4);
        lemma_blocks_nonempty(text, cut + 4);
        assert(blocks_from(text, from).drop_first() == blocks_from(text, cut + 4));
    }
}

} // verus!
