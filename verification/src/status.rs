//! The status line of a block, and the code it carries.
//!
//! The status line is searched with a regular expression. What the search
//! hands back is then held against the form of a status line, so that a
//! status is only ever read off a status line that stands in the block.

use crate::text::{is_whitespace, lemma_occurs_in_part, occurs_in, to_chars, whitespace};
use regex::Regex;
use vstd::prelude::*;

verus! {

/// The pattern of a status line up to its code: `HTTP/`, a version token
/// of any form that stays on the line, one whitespace character, and three
/// ASCII digits, which are capture group 1.
pub const STATUS_PATTERN: &'static str = "HTTP/.*?\\s([0-9]{3})";

/// What the crate `regex` finds of the regular expression `pattern` in
/// `text`: for the leftmost match, the text of each capture group in
/// order, the whole match being group 0, and `None` for a group that has
/// no part in the match. It is `None` where `pattern` is not an expression
/// that the crate accepts, and where `pattern` matches nowhere in `text`.
pub uninterp spec fn regex_captures(pattern: Seq<char>, text: Seq<char>) -> Option<
    Seq<Option<Seq<char>>>,
>;

/// Compiles `pattern` with `regex::Regex::new` and searches `text` with
/// `Regex::captures`; the groups come from `Captures::iter`, the text of
/// each from `Match::as_str`. The contract names the outcome
/// `regex_captures`, and claims of it only that the text of a group is a
/// piece of `text`: `Match::as_str` cuts it out of the text searched.
#[verifier::external_body]
fn captures(pattern: &str, text: &str) -> (found: Option<Vec<Option<String>>>)
    ensures
        found.deep_view() == regex_captures(pattern@, text@),
        found matches Some(groups) ==> forall|i: int|
            0 <= i < groups@.len() ==> (#[trigger] groups@[i] matches Some(group) ==> occurs_in(
                group@,
                text@,
            )),
{
    match Regex::new(pattern) {
        Ok(re) => re.captures(text).map(
            |caps| caps.iter().map(|group| group.map(|m| m.as_str().to_string())).collect(),
        ),
        Err(_) => None,
    }
}

/// The ASCII digits.
pub open spec fn ascii_digit(c: char) -> bool {
    '0' <= c <= '9'
}

/// Whether `code` is three ASCII digits.
pub open spec fn is_code(code: Seq<char>) -> bool {
    &&& code.len() == 3
    &&& ascii_digit(code[0])
    &&& ascii_digit(code[1])
    &&& ascii_digit(code[2])
}

/// The number that the three digits of `code` write.
pub open spec fn code_number(code: Seq<char>) -> int {
    100 * (code[0] as int - '0' as int) + 10 * (code[1] as int - '0' as int) + (code[2] as int
        - '0' as int)
}

/// The five characters that a status line begins with.
pub open spec fn protocol() -> Seq<char> {
    seq!['H', 'T', 'T', 'P', '/']
}

/// Whether `line` is a status line up to its code, and `code` that code:
/// `line` is `HTTP/`, then a version token without a line feed in it, one
/// whitespace character, and the three ASCII digits of `code`.
pub open spec fn status_line(line: Seq<char>, code: Seq<char>) -> bool {
    &&& is_code(code)
    &&& line.len() >= 9
    &&& line.take(5) == protocol()
    &&& forall|i: int| 5 <= i < line.len() - 4 ==> line[i] != '\n'
    &&& whitespace(line[line.len() - 4])
    &&& line.skip(line.len() - 3) == code
}

/// Whether a status line whose code writes `number` stands somewhere in
/// `text`.
pub open spec fn has_status(text: Seq<char>, number: int) -> bool {
    exists|line: Seq<char>, code: Seq<char>|
        #![trigger status_line(line, code), occurs_in(line, text)]
        status_line(line, code) && code_number(code) == number && occurs_in(line, text)
}

/// Whether a status line stands somewhere in `text`.
pub open spec fn has_status_line(text: Seq<char>) -> bool {
    exists|number: int| has_status(text, number)
}

/// The final status that the groups of a match stand for. Group 0 has to
/// be a status line and group 1 its code. The status is the number of the
/// code, unless the code begins with `3`: that is the code of a redirect,
/// which is never final.
pub open spec fn match_status(groups: Seq<Option<Seq<char>>>) -> Option<u16> {
    if groups.len() < 2 {
        None
    } else {
        match (groups[0], groups[1]) {
            (Some(line), Some(code)) => if status_line(line, code) && code[0] != '3' {
                Some(code_number(code) as u16)
            } else {
                None
            },
            _ => None,
        }
    }
}

/// The final status that `block` carries: that of the leftmost match of
/// the status pattern in it, if there is one.
pub open spec fn block_status(block: Seq<char>) -> Option<u16> {
    match regex_captures(STATUS_PATTERN@, block) {
        Some(groups) => match_status(groups),
        None => None,
    }
}

/// Whether `c` is an ASCII digit.
pub fn is_ascii_digit(c: char) -> (b: bool)
    ensures
        b == ascii_digit(c),
{
    '0' <= c && c <= '9'
}

/// The digit that `c` writes.
fn digit(c: char) -> (d: u16)
    requires
        ascii_digit(c),
    ensures
        d == c as int - '0' as int,
        d <= 9,
{
    (c as u32 - '0' as u32) as u16
}

/// Whether `line` is a status line up to its code, and `code` that code.
pub fn is_status_line(line: &[char], code: &[char]) -> (b: bool)
    ensures
        b == status_line(line@, code@),
{
    if code.len() != 3 || !is_ascii_digit(code[0]) || !is_ascii_digit(code[1]) || !is_ascii_digit(
        code[2],
    ) {
        return false;
    }
    let n: usize = line.len();
    if n < 9 {
        return false;
    }
    if line[0] != 'H' || line[1] != 'T' || line[2] != 'T' || line[3] != 'P' || line[4] != '/' {
        return false;
    }
    assert(line@.take(5) == protocol());
    let mut i: usize = 5;
    while i < n - 4
        invariant
            5 <= i <= n - 4,
            n == line@.len(),
            forall|k: int| 5 <= k < i ==> line@[k] != '\n',
        decreases n - i,
    {
        if line[i] == '\n' {
            return false;
        }
        i += 1;
    }
    if !is_whitespace(line[n - 4]) {
        return false;
    }
    if line[n - 3] != code[0] || line[n - 2] != code[1] || line[n - 1] != code[2] {
        return false;
    }
    assert(line@.skip(n - 3) == code@);
    true
}

/// The final status that the groups of a match stand for.
pub fn status_of_match(groups: &Vec<Option<String>>) -> (status: Option<u16>)
    ensures
        status == match_status(groups.deep_view()),
{
    if groups.len() < 2 {
        return None;
    }
    match (&groups[0], &groups[1]) {
        (Some(line), Some(code)) => {
            let line = to_chars(line.as_str());
            let code = to_chars(code.as_str());
            if is_status_line(line.as_slice(), code.as_slice()) && code[0] != '3' {
                Some(100 * digit(code[0]) + 10 * digit(code[1]) + digit(code[2]))
            } else {
                None
            }
        },
        _ => None,
    }
}

/// The final status that `block` carries. Where there is one, a status
/// line with that code stands in `block`. The pattern is compiled on each
/// call: an output holds few messages, and the search ends at the first
/// that is final.
pub fn status_of_block(block: &str) -> (status: Option<u16>)
    ensures
        status == block_status(block@),
        status matches Some(number) ==> has_status(block@, number as int),
{
    match captures(STATUS_PATTERN, block) {
        Some(groups) => {
            let status = status_of_match(&groups);
            proof {
                if status is Some {
                    // group 0 is a status line, and a piece of `block`
                    let line = groups.deep_view()[0]->0;
                    let code = groups.deep_view()[1]->0;
                    assert(groups@[0] matches Some(group) && group@ == line);
                    assert(status_line(line, code) && occurs_in(line, block@));
                }
            }
            status
        },
        None => None,
    }
}

/// A status line that stands in a part of `text` stands in `text`.
pub(crate) proof fn lemma_status_in_part(part: Seq<char>, text: Seq<char>, number: int)
    requires
        has_status(part, number),
        occurs_in(part, text),
    ensures
        has_status(text, number),
{
    let (line, code) = choose|line: Seq<char>, code: Seq<char>|
        #![trigger status_line(line, code), occurs_in(line, part)]
        status_line(line, code) && code_number(code) == number && occurs_in(line, part);
    lemma_occurs_in_part(line, part, text);
}

/// A final status is the number of three digits, and not one from 300 to
/// 399.
pub(crate) proof fn lemma_match_status_range(groups: Seq<Option<Seq<char>>>)
    ensures
        match_status(groups) matches Some(status) ==> status <= 999 && !(300 <= status <= 399),
{
}

} // verus!
