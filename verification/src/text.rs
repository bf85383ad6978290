//! Text as sequences of characters: conversions between `str`, `String`
//! and characters, whitespace, and trimming.

use vstd::prelude::*;

verus! {

/// `String::push` of std appends the character to the end of the string.
pub assume_specification[ String::push ](s: &mut String, ch: char)
    ensures
        final(s)@ == old(s)@.push(ch),
;

/// The characters that Unicode classes as `White_Space`.
pub open spec fn whitespace(c: char) -> bool {
    ||| '\u{9}' <= c <= '\u{D}'
    ||| c == ' '
    ||| c == '\u{85}'
    ||| c == '\u{A0}'
    ||| c == '\u{1680}'
    ||| '\u{2000}' <= c <= '\u{200A}'
    ||| c == '\u{2028}'
    ||| c == '\u{2029}'
    ||| c == '\u{202F}'
    ||| c == '\u{205F}'
    ||| c == '\u{3000}'
}

/// Whether every character of `text` is whitespace.
pub open spec fn all_whitespace(text: Seq<char>) -> bool {
    forall|i: int| 0 <= i < text.len() ==> whitespace(#[trigger] text[i])
}

/// `text` without its leading whitespace.
pub open spec fn trim_start(text: Seq<char>) -> Seq<char>
    decreases text.len(),
{
    if text.len() > 0 && whitespace(text.first()) {
        trim_start(text.drop_first())
    } else {
        text
    }
}

/// `text` without its trailing whitespace.
pub open spec fn trim_end(text: Seq<char>) -> Seq<char>
    decreases text.len(),
{
    if text.len() > 0 && whitespace(text.last()) {
        trim_end(text.drop_last())
    } else {
        text
    }
}

/// `text` without its leading and trailing whitespace.
pub open spec fn trimmed(text: Seq<char>) -> Seq<char> {
    trim_end(trim_start(text))
}

/// Whether `part` stands in `text` at index `at`.
pub open spec fn occurs_at(part: Seq<char>, text: Seq<char>, at: int) -> bool {
    &&& 0 <= at
    &&& at + part.len() <= text.len()
    &&& text.subrange(at, at + part.len()) == part
}

/// Whether `part` stands somewhere in `text`.
pub open spec fn occurs_in(part: Seq<char>, text: Seq<char>) -> bool {
    exists|at: int| occurs_at(part, text, at)
}

/// Whether `c` is whitespace.
pub fn is_whitespace(c: char) -> (b: bool)
    ensures
        b == whitespace(c),
{
    ('\u{9}' <= c && c <= '\u{D}') || c == ' ' || c == '\u{85}' || c == '\u{A0}' || c
        == '\u{1680}' || ('\u{2000}' <= c && c <= '\u{200A}') || c == '\u{2028}' || c
        == '\u{2029}' || c == '\u{202F}' || c == '\u{205F}' || c == '\u{3000}'
}

/// The characters of `text`, in order.
pub fn to_chars(text: &str) -> (chars: Vec<char>)
    ensures
        chars@ == text@,
{
    let mut chars: Vec<char> = Vec::new();
    for c in it: text.chars()
        invariant
            chars@ == it.seq().take(it.index() as int),
    {
        chars.push(c);
    }
    chars
}

/// The string made of the characters `chars[from..to]`.
fn string_of(chars: &[char], from: usize, to: usize) -> (s: String)
    requires
        from <= to <= chars@.len(),
    ensures
        s@ == chars@.subrange(from as int, to as int),
{
    let mut s = String::new();
    let mut i: usize = from;
    while i < to
        invariant
            from <= i <= to <= chars@.len(),
            s@ == chars@.subrange(from as int, i as int),
        decreases to - i,
    {
        s.push(chars[i]);
        i += 1;
    }
    s
}

/// The string made of `chars[from..to]` without its leading and trailing
/// whitespace.
pub(crate) fn trimmed_string(chars: &[char], from: usize, to: usize) -> (s: String)
    requires
        from <= to <= chars@.len(),
    ensures
        s@ == trimmed(chars@.subrange(from as int, to as int)),
{
    let ghost text = chars@.subrange(from as int, to as int);
    let mut start: usize = from;
    while start < to && is_whitespace(chars[start])
        invariant
            from <= start <= to <= chars@.len(),
            text == chars@.subrange(from as int, to as int),
            all_whitespace(text.take(start - from)),
        decreases to - start,
    {
        start += 1;
        assert forall|i: int| 0 <= i < text.take(start - from).len() implies whitespace(
            #[trigger] text.take(start - from)[i],
        ) by {}
    }
    let ghost rest = text.skip(start - from);
    proof {
        lemma_trim_start_at(text, start - from);
    }
    let mut end: usize = to;
    while end > start && is_whitespace(chars[end - 1])
        invariant
            from <= start <= end <= to <= chars@.len(),
            text == chars@.subrange(from as int, to as int),
            rest == text.skip(start - from),
            all_whitespace(rest.skip(end - start)),
        decreases end - start,
    {
        end -= 1;
        assert forall|i: int| 0 <= i < rest.skip(end - start).len() implies whitespace(
            #[trigger] rest.skip(end - start)[i],
        ) by {
            if i > 0 {
                assert(rest.skip(end - start)[i] == rest.skip(end - start + 1)[i - 1]);
            }
        }
    }
    proof {
        lemma_trim_end_at(rest, end - start);
    }
    string_of(chars, start, end)
}

/// `text` without its leading and trailing whitespace.
pub fn trim(text: &str) -> (s: String)
    ensures
        s@ == trimmed(text@),
{
    let chars = to_chars(text);
    assert(chars@.subrange(0, chars@.len() as int) == chars@);
    trimmed_string(chars.as_slice(), 0, chars.len())
}

/// Trimming takes the whitespace off both ends and nothing else: of a text
/// that neither begins nor ends with whitespace, padded with whitespace on
/// both sides, it gives that text.
pub proof fn trimmed_of_padded(lead: Seq<char>, core: Seq<char>, trail: Seq<char>)
    requires
        all_whitespace(lead),
        all_whitespace(trail),
        core.len() > 0 ==> !whitespace(core.first()) && !whitespace(core.last()),
    ensures
        trimmed(lead + core + trail) == core,
{
    let text = lead + core + trail;
    if core.len() > 0 {
        lemma_trim_start_at(text, lead.len() as int);
        lemma_trim_end_at(text.skip(lead.len() as int), core.len() as int);
    } else {
        assert forall|i: int| 0 <= i < text.len() implies whitespace(#[trigger] text[i]) by {}
        lemma_trim_start_at(text, text.len() as int);
    }
}

/// What trimming gives is a piece of the text that neither begins nor ends
/// with whitespace, and trimming it again changes nothing.
pub proof fn trimmed_is_trimmed(text: Seq<char>)
    ensures
        occurs_in(trimmed(text), text),
        trimmed(text).len() > 0 ==> !whitespace(trimmed(text).first()) && !whitespace(
            trimmed(text).last(),
        ),
        trimmed(trimmed(text)) == trimmed(text),
{
    lemma_trim_start(text);
    let rest = trim_start(text);
    lemma_trim_end(rest);
    let core = trim_end(rest);
    let a = choose|a: int| 0 <= a <= text.len() && rest == text.skip(a);
    let b = choose|b: int| 0 <= b <= rest.len() && core == rest.take(b);
    trimmed_of_padded(Seq::empty(), core, Seq::empty());
    assert(text.subrange(a, a + b) == core);
    assert(occurs_at(core, text, a));
}

/// Dropping `n` whitespace characters from the front of `text`, where the
/// next character is not whitespace, is what `trim_start` does.
proof fn lemma_trim_start_at(text: Seq<char>, n: int)
    requires
        0 <= n <= text.len(),
        all_whitespace(text.take(n)),
        n < text.len() ==> !whitespace(text[n]),
    ensures
        trim_start(text) == text.skip(n),
    decreases n,
{
    if n > 0 {
        assert(text.take(n)[0] == text[0]);
        let rest = text.drop_first();
        assert forall|i: int| 0 <= i < rest.take(n - 1).len() implies whitespace(
            #[trigger] rest.take(n - 1)[i],
        ) by {
            assert(rest.take(n - 1)[i] == text.take(n)[i + 1]);
        }
        lemma_trim_start_at(rest, n - 1);
    }
}

/// Dropping whitespace from the back of `text` down to length `n`, where
/// the character before is not whitespace, is what `trim_end` does.
proof fn lemma_trim_end_at(text: Seq<char>, n: int)
    requires
        0 <= n <= text.len(),
        all_whitespace(text.skip(n)),
        n > 0 ==> !whitespace(text[n - 1]),
    ensures
        trim_end(text) == text.take(n),
    decreases text.len() - n,
{
    if n < text.len() {
        assert(text.skip(n)[text.len() - n - 1] == text.last());
        let rest = text.drop_last();
        assert forall|i: int| 0 <= i < rest.skip(n).len() implies whitespace(
            #[trigger] rest.skip(n)[i],
        ) by {
            assert(rest.skip(n)[i] == text.skip(n)[i]);
        }
        lemma_trim_end_at(rest, n);
    }
}

/// What `trim_start` gives is the end of the text, and does not begin with
/// whitespace.
proof fn lemma_trim_start(text: Seq<char>)
    ensures
        exists|n: int| 0 <= n <= text.len() && trim_start(text) == text.skip(n),
        trim_start(text).len() > 0 ==> !whitespace(trim_start(text).first()),
    decreases text.len(),
{
    if text.len() > 0 && whitespace(text.first()) {
        let rest = text.drop_first();
        lemma_trim_start(rest);
        let n = choose|n: int| 0 <= n <= rest.len() && trim_start(rest) == rest.skip(n);
        assert(rest.skip(n) == text.skip(n + 1));
    } else {
        assert(text.skip(0) == text);
    }
}

/// What `trim_end` gives is the start of the text, and does not end with
/// whitespace.
proof fn lemma_trim_end(text: Seq<char>)
    ensures
        exists|n: int| 0 <= n <= text.len() && trim_end(text) == text.take(n),
        trim_end(text).len() > 0 ==> !whitespace(trim_end(text).last()),
    decreases text.len(),
{
    if text.len() > 0 && whitespace(text.last()) {
        let rest = text.drop_last();
        lemma_trim_end(rest);
        let n = choose|n: int| 0 <= n <= rest.len() && trim_end(rest) == rest.take(n);
        assert(rest.take(n) == text.take(n));
    } else {
        assert(text.take(text.len() as int) == text);
    }
}

/// What stands in a part of `text` stands in `text`.
pub(crate) proof fn lemma_occurs_in_part(inner: Seq<char>, part: Seq<char>, text: Seq<char>)
    requires
        occurs_in(inner, part),
        occurs_in(part, text),
    ensures
        occurs_in(inner, text),
{
    let i = choose|i: int| occurs_at(inner, part, i);
    let j = choose|j: int| occurs_at(part, text, j);
    assert(text.subrange(j + i, j + i + inner.len()) == text.subrange(
        j,
        j + part.len(),
    ).subrange(i, i + inner.len()));
    assert(occurs_at(inner, text, j + i));
}

} // verus!
