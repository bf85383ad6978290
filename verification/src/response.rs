//! The response that the output of the client holds.
//!
//! The output is what the client prints for one request when it is told
//! to include the response headers: one message per hop, and the body of
//! the last one. Status and headers are those of the first message that is
//! no redirect, and the body is what follows the last separator.

use crate::blocks::{
    are_blocks, ends_with_line_break, has_separator, join_blocks, lemma_block_occurs, separator,
    separator_at, split, split_blocks, split_of_joined,
};
use crate::decode::{decode_lossy, lossy_text};
use crate::lines::{
    has_newline, header_lines, header_lines_are_trimmed, header_lines_of_fields, headers,
    join_lines, line_break, trim_each,
};
use crate::status::{
    block_status, has_status, has_status_line, lemma_match_status_range, lemma_status_in_part,
    regex_captures, status_of_block, STATUS_PATTERN,
};
use crate::text::{trim, trimmed, trimmed_is_trimmed};
use vstd::prelude::*;
use vstd::utf8::{decode_utf8, valid_utf8};

verus! {

/// A parsed response.
#[derive(Debug, PartialEq, Eq)]
pub struct CurlResponse {
    /// The status code of the response, 0 where none was found.
    pub status_code: u16,
    /// The header lines of the response, in the order of the output.
    pub headers: Vec<String>,
    /// The body of the response.
    pub body: String,
}

/// What a `CurlResponse` holds, as mathematical values.
pub struct ResponseView {
    pub status_code: u16,
    pub headers: Seq<Seq<char>>,
    pub body: Seq<char>,
}

impl View for CurlResponse {
    type V = ResponseView;

    open spec fn view(&self) -> ResponseView {
        ResponseView {
            status_code: self.status_code,
            headers: self.headers.deep_view(),
            body: self.body@,
        }
    }
}

/// The index of the first of `blocks`, at or after `from`, that carries a
/// final status, or the number of blocks where none does.
pub open spec fn status_block_from(blocks: Seq<Seq<char>>, from: int) -> int
    decreases blocks.len() - from,
{
    if from >= blocks.len() {
        blocks.len() as int
    } else if 0 <= from && block_status(blocks[from]) is Some {
        from
    } else {
        status_block_from(blocks, from + 1)
    }
}

/// The response that the blocks of an output hold. Status and headers come
/// from the first block that carries a final status; without such a block
/// the status is 0 and there are no headers. The body is the last block,
/// trimmed, whichever block gave the status.
pub open spec fn response_of_blocks(blocks: Seq<Seq<char>>) -> ResponseView {
    let chosen = status_block_from(blocks, 0);
    if 0 <= chosen < blocks.len() {
        ResponseView {
            status_code: block_status(blocks[chosen])->0,
            headers: header_lines(blocks[chosen]),
            body: trimmed(blocks.last()),
        }
    } else {
        ResponseView { status_code: 0, headers: Seq::empty(), body: trimmed(blocks.last()) }
    }
}

/// The response that the text of an output holds.
pub open spec fn parse_text(text: Seq<char>) -> ResponseView {
    response_of_blocks(split_blocks(text))
}

/// The response that the bytes of an output hold.
pub open spec fn parse(raw: Seq<u8>) -> ResponseView {
    parse_text(lossy_text(raw))
}

/// Whether `block` is the message of a redirect: the status pattern
/// matches in it, and the code of the match begins with `3`.
pub open spec fn is_redirect(block: Seq<char>) -> bool {
    &&& regex_captures(STATUS_PATTERN@, block) matches Some(groups)
    &&& groups.len() >= 2
    &&& groups[1] matches Some(code)
    &&& code.len() >= 1
    &&& code[0] == '3'
}

impl CurlResponse {
    /// Parses the text of an output.
    ///
    /// The status is at most 999 and never one from 300 to 399. A status
    /// other than 0, and any headers, are read off a status line that
    /// stands in `text` with that status as its code: where no status
    /// line stands in `text`, the status is 0 and there are no headers.
    pub fn from_text(text: &str) -> (response: CurlResponse)
        ensures
            response@ == parse_text(text@),
            response.status_code <= 999,
            !(300 <= response.status_code <= 399),
            response.status_code != 0 || response.headers@.len() > 0 ==> has_status(
                text@,
                response.status_code as int,
            ),
            !has_status_line(text@) ==> response.status_code == 0 && response.headers@.len() == 0,
    {
        let blocks = split(text);
        let ghost views = blocks.deep_view();
        let mut status_code: u16 = 0;
        let mut header_list: Vec<String> = Vec::new();
        let mut i: usize = 0;
        while i < blocks.len()
            invariant_except_break
                status_code == 0,
                header_list@.len() == 0,
            invariant
                i <= blocks.len(),
                views == blocks.deep_view(),
                views == split_blocks(text@),
                forall|k: int| 0 <= k < i ==> block_status(#[trigger] views[k]) is None,
            ensures
                i < blocks.len() ==> block_status(views[i as int]) == Some(status_code)
                    && header_list.deep_view() == header_lines(views[i as int]) && has_status(
                    text@,
                    status_code as int,
                ),
                i == blocks.len() ==> status_code == 0 && header_list@.len() == 0,
            decreases blocks.len() - i,
        {
            let block = blocks[i].as_str();
            if let Some(code) = status_of_block(block) {
                status_code = code;
                header_list = headers(block);
                proof {
                    lemma_block_occurs(text@, 0, i as int);
                    lemma_status_in_part(block@, text@, code as int);
                }
                break ;
            }
            i += 1;
        }
        let body = trim(blocks[blocks.len() - 1].as_str());
        proof {
            lemma_status_block_skips(views, 0, i as int);
            if i < blocks.len() {
                lemma_block_status_range(views[i as int]);
            } else {
                assert(header_list.deep_view() == Seq::<Seq<char>>::empty());
            }
        }
        CurlResponse { status_code, headers: header_list, body }
    }

    /// Parses the bytes of an output: what one run of the client wrote
    /// to its standard output, with the response headers included. It
    /// never fails: bytes that are not UTF-8 are replaced, and an output
    /// without a final status line gives status 0 and no headers.
    pub fn new(stdout: Vec<u8>) -> (response: CurlResponse)
        ensures
            response@ == parse(stdout@),
            valid_utf8(stdout@) ==> response@ == parse_text(decode_utf8(stdout@)),
            response.status_code <= 999,
            !(300 <= response.status_code <= 399),
            response.status_code != 0 || response.headers@.len() > 0 ==> has_status(
                lossy_text(stdout@),
                response.status_code as int,
            ),
            !has_status_line(lossy_text(stdout@)) ==> response.status_code == 0
                && response.headers@.len() == 0,
    {
        let text = decode_lossy(stdout.as_slice());
        CurlResponse::from_text(text.as_str())
    }
}

/// Parsing is a function of the bytes: two responses parsed from the same
/// bytes have the same status, the same header lines and the same body.
pub proof fn same_bytes_same_response(raw: Seq<u8>, first: CurlResponse, second: CurlResponse)
    requires
        first@ == parse(raw),
        second@ == parse(raw),
    ensures
        first.status_code == second.status_code,
        first.headers.deep_view() == second.headers.deep_view(),
        first.body@ == second.body@,
{
}

/// The status of a response is at most 999 and never one from 300 to 399:
/// it is 0, or the number of a three-digit code that does not begin with
/// `3`.
pub proof fn status_is_final(text: Seq<char>)
    ensures
        parse_text(text).status_code <= 999,
        !(300 <= parse_text(text).status_code <= 399),
{
    let blocks = split_blocks(text);
    lemma_status_block(blocks, 0);
    let chosen = status_block_from(blocks, 0);
    if chosen < blocks.len() {
        lemma_block_status_range(blocks[chosen]);
    }
}

/// Header lines and body of a response are trimmed: trimming one again
/// changes nothing.
pub proof fn response_is_trimmed(text: Seq<char>)
    ensures
        forall|i: int|
            0 <= i < parse_text(text).headers.len() ==> trimmed(
                #[trigger] parse_text(text).headers[i],
            ) == parse_text(text).headers[i],
        trimmed(parse_text(text).body) == parse_text(text).body,
{
    let blocks = split_blocks(text);
    let chosen = status_block_from(blocks, 0);
    assert forall|i: int| 0 <= i < parse_text(text).headers.len() implies trimmed(
        #[trigger] parse_text(text).headers[i],
    ) == parse_text(text).headers[i] by {
        header_lines_are_trimmed(blocks[chosen], i);
    }
    trimmed_is_trimmed(blocks.last());
}

/// The message of a redirect carries no final status.
pub proof fn redirect_is_not_final(block: Seq<char>)
    requires
        is_redirect(block),
    ensures
        block_status(block) is None,
{
}

/// Status and headers of a response come from the first block with a
/// final status, the body from the last block. Stated of an output that is
/// written as its blocks: where `blocks[at]` has the final status `status`
/// and no block before it has one, the response has that status, the
/// header lines of that block, and the last block, trimmed, as its body.
pub proof fn response_of_final_block(blocks: Seq<Seq<char>>, at: int, status: u16)
    requires
        are_blocks(blocks),
        0 <= at < blocks.len(),
        forall|i: int| 0 <= i < at ==> block_status(#[trigger] blocks[i]) is None,
        block_status(blocks[at]) == Some(status),
    ensures
        parse_text(join_blocks(blocks)) == (ResponseView {
            status_code: status,
            headers: header_lines(blocks[at]),
            body: trimmed(blocks.last()),
        }),
{
    split_of_joined(blocks);
    lemma_status_block_skips(blocks, 0, at);
}

/// Without a block that has a final status, the status of a response is 0
/// and it has no headers; its body is still the last block, trimmed. So it
/// is for an output that holds nothing but redirects.
pub proof fn response_without_final_block(blocks: Seq<Seq<char>>)
    requires
        are_blocks(blocks),
        forall|i: int| 0 <= i < blocks.len() ==> block_status(#[trigger] blocks[i]) is None,
    ensures
        parse_text(join_blocks(blocks)) == (ResponseView {
            status_code: 0,
            headers: Seq::empty(),
            body: trimmed(blocks.last()),
        }),
{
    split_of_joined(blocks);
    lemma_status_block_skips(blocks, 0, blocks.len() as int);
}

/// An output that holds a single message: a first line, one line for each
/// of `fields`, an empty line, and the body `body`. Where the first status
/// line of the message carries the final status `status`, the response has
/// that status, the fields as its headers, trimmed and in their order, and
/// the body, trimmed.
pub proof fn response_of_single_message(
    first: Seq<char>,
    fields: Seq<Seq<char>>,
    body: Seq<char>,
    status: u16,
)
    requires
        !has_newline(first),
        forall|i: int| 0 <= i < fields.len() ==> !has_newline(#[trigger] fields[i]),
        forall|i: int| 0 <= i < fields.len() ==> (#[trigger] fields[i]).len() > 0,
        !has_separator(body),
        block_status(join_lines(seq![first] + fields)) == Some(status),
    ensures
        parse_text(join_lines(seq![first] + fields) + separator() + body) == (ResponseView {
            status_code: status,
            headers: trim_each(fields),
            body: trimmed(body),
        }),
{
    let all = seq![first] + fields;
    let head = join_lines(all);
    assert forall|i: int| 0 <= i < all.len() implies !has_newline(#[trigger] all[i]) by {}
    assert forall|i: int| 1 <= i < all.len() implies (#[trigger] all[i]).len() > 0 by {}
    lemma_joined_lines_make_a_block(all);
    header_lines_of_fields(first, fields);
    let blocks = seq![head, body];
    assert(join_blocks(blocks) == head + separator() + body) by {
        assert(blocks.drop_first() == seq![body]);
        assert(join_blocks(seq![body]) == body);
    }
    response_of_final_block(blocks, 0, status);
}

/// An output that holds the message of a redirect, then the message that
/// was redirected to, then the body. Where the second message carries the
/// final status `status`, the response has that status and the header
/// lines of the second message; its body is what follows the last
/// separator, trimmed.
pub proof fn response_after_redirect(
    hop: Seq<char>,
    head: Seq<char>,
    body: Seq<char>,
    status: u16,
)
    requires
        are_blocks(seq![hop, head, body]),
        is_redirect(hop),
        block_status(head) == Some(status),
    ensures
        parse_text(hop + separator() + head + separator() + body) == (ResponseView {
            status_code: status,
            headers: header_lines(head),
            body: trimmed(body),
        }),
{
    let blocks = seq![hop, head, body];
    assert(join_blocks(blocks) == hop + separator() + head + separator() + body) by {
        assert(blocks.drop_first() == seq![head, body]);
        assert(seq![head, body].drop_first() == seq![body]);
        assert(join_blocks(seq![body]) == body);
        assert(join_blocks(seq![head, body]) == head + separator() + body);
    }
    redirect_is_not_final(hop);
    response_of_final_block(blocks, 1, status);
}

/// `status_block_from` gives an index between `from` and the number of
/// blocks, of a block with a final status unless it is that number, and no
/// block before it has one.
proof fn lemma_status_block(blocks: Seq<Seq<char>>, from: int)
    requires
        0 <= from <= blocks.len(),
    ensures
        from <= status_block_from(blocks, from) <= blocks.len(),
        status_block_from(blocks, from) < blocks.len() ==> block_status(
            blocks[status_block_from(blocks, from)],
        ) is Some,
        forall|i: int|
            from <= i < status_block_from(blocks, from) ==> block_status(
                #[trigger] blocks[i],
            ) is None,
    decreases blocks.len() - from,
{
    if from < blocks.len() && block_status(blocks[from]) is None {
        lemma_status_block(blocks, from + 1);
    }
}

/// Where no block of `blocks[from..to]` has a final status, searching from
/// `from` is searching from `to`.
proof fn lemma_status_block_skips(blocks: Seq<Seq<char>>, from: int, to: int)
    requires
        0 <= from <= to <= blocks.len(),
        forall|i: int| from <= i < to ==> block_status(#[trigger] blocks[i]) is None,
    ensures
        status_block_from(blocks, from) == status_block_from(blocks, to),
    decreases to - from,
{
    if from < to {
        lemma_status_block_skips(blocks, from + 1, to);
    }
}

/// The final status of a block is at most 999 and not one from 300 to 399.
proof fn lemma_block_status_range(block: Seq<char>)
    ensures
        block_status(block) matches Some(status) ==> status <= 999 && !(300 <= status <= 399),
{
    if let Some(groups) = regex_captures(STATUS_PATTERN@, block) {
        lemma_match_status_range(groups);
    }
}

/// Lines without line feeds, of which none but the first is empty, make
/// one block when joined: no separator stands in the text, and it does not
/// end with CR LF.
proof fn lemma_joined_lines_make_a_block(lines: Seq<Seq<char>>)
    requires
        lines.len() >= 1,
        forall|i: int| 0 <= i < lines.len() ==> !has_newline(#[trigger] lines[i]),
        forall|i: int| 1 <= i < lines.len() ==> (#[trigger] lines[i]).len() > 0,
    ensures
        !has_separator(join_lines(lines)),
        !ends_with_line_break(join_lines(lines)),
    decreases lines.len(),
{
    let text = join_lines(lines);
    if lines.len() == 1 {
        assert forall|i: int| !separator_at(text, i) by {}
    } else {
        let others = lines.drop_first();
        let rest = join_lines(others);
        let n = lines[0].len() as int;
        assert forall|i: int| 0 <= i < others.len() implies !has_newline(
            #[trigger] others[i],
        ) by {}
        assert forall|i: int| 1 <= i < others.len() implies (#[trigger] others[i]).len() > 0 by {}
        lemma_joined_lines_make_a_block(others);
        // `text` is the first line, a line break, and `rest`; the line
        // feed of the line break is the first one in `text`, and the next
        // one is not among the first two characters of `rest`
        assert forall|k: int| 0 <= k < rest.len() implies text[n + 2 + k] == rest[k] by {}
        assert forall|i: int| !separator_at(text, i) by {
            if separator_at(text, i) && i >= n + 2 {
                assert(separator_at(rest, i - n - 2));
            }
        }
    }
}

} // verus!
