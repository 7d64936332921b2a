//! Text: comparison byte by byte, and the white space around an identifier.

use vstd::prelude::*;
use vstd::std_specs::iter::IteratorSpec;
use vstd::string::*;
use vstd::utf8::*;

verus! {

/// `needle` stands in `hay` at offset `at`.
pub open spec fn occurs_at(hay: Seq<u8>, needle: Seq<u8>, at: int) -> bool {
    &&& 0 <= at
    &&& at + needle.len() <= hay.len()
    &&& hay.subrange(at, at + needle.len()) == needle
}

/// `needle` stands somewhere in `hay`.
pub open spec fn occurs(hay: Seq<u8>, needle: Seq<u8>) -> bool {
    exists|at: int| occurs_at(hay, needle, at)
}

/// Tests whether `needle` stands in `hay` at offset `at`.
pub fn stands_at(hay: &[u8], needle: &[u8], at: usize) -> (r: bool)
    ensures
        r == occurs_at(hay@, needle@, at as int),
{
    if needle.len() > hay.len() || at > hay.len() - needle.len() {
        return false;
    }
    let mut i: usize = 0;
    while i < needle.len()
        invariant
            i <= needle.len(),
            at + needle.len() <= hay.len(),
            forall|j: int| 0 <= j < i ==> hay@[at + j] == needle@[j],
        decreases needle.len() - i,
    {
        if hay[at + i] != needle[i] {
            return false;
        }
        i = i + 1;
    }
    assert(hay@.subrange(at as int, at + needle@.len()) =~= needle@);
    true
}

/// Tests whether two strings hold the same text.
pub fn same_text(a: &str, b: &str) -> (r: bool)
    ensures
        r == (a@ == b@),
{
    let x = a.as_bytes();
    let y = b.as_bytes();
    proof {
        encode_utf8_decode_utf8(a@);
        encode_utf8_decode_utf8(b@);
    }
    if x.len() != y.len() {
        return false;
    }
    let r = stands_at(x, y, 0);
    assert(x@.subrange(0, x@.len() as int) =~= x@);
    r
}

/// The character is white space, as Unicode defines it (`White_Space`).
pub uninterp spec fn white_space(c: char) -> bool;

/// `char::is_whitespace` of the standard library. The contract claims that its answer
/// depends on the character alone; which characters are white space is left to it.
pub assume_specification[ char::is_whitespace ](c: char) -> (b: bool)
    ensures
        b == white_space(c),
;

/// The text without the white space it begins with.
pub open spec fn trimmed_start(text: Seq<char>) -> Seq<char>
    decreases text.len(),
{
    if text.len() > 0 && white_space(text.first()) {
        trimmed_start(text.drop_first())
    } else {
        text
    }
}

/// The text without the white space it ends with.
pub open spec fn trimmed_end(text: Seq<char>) -> Seq<char>
    decreases text.len(),
{
    if text.len() > 0 && white_space(text.last()) {
        trimmed_end(text.drop_last())
    } else {
        text
    }
}

/// The text without the white space around it.
pub open spec fn trimmed(text: Seq<char>) -> Seq<char> {
    trimmed_end(trimmed_start(text))
}

/// Where white space fills the first `lead` places of a text and the place after them holds
/// none, the text without leading white space begins there.
pub proof fn lemma_trimmed_start(text: Seq<char>, lead: int)
    requires
        0 <= lead <= text.len(),
        forall|k: int| 0 <= k < lead ==> white_space(#[trigger] text[k]),
        lead < text.len() ==> !white_space(text[lead]),
    ensures
        trimmed_start(text) == text.skip(lead),
    decreases lead,
{
    if lead > 0 {
        let rest = text.drop_first();
        assert forall|k: int| 0 <= k < lead - 1 implies white_space(#[trigger] rest[k]) by {}
        lemma_trimmed_start(rest, lead - 1);
    }
}

/// Where white space fills a text from `end` on and the place before holds none, the text
/// without trailing white space ends there.
pub proof fn lemma_trimmed_end(text: Seq<char>, end: int)
    requires
        0 <= end <= text.len(),
        forall|k: int| end <= k < text.len() ==> white_space(#[trigger] text[k]),
        0 < end ==> !white_space(text[end - 1]),
    ensures
        trimmed_end(text) == text.take(end),
    decreases text.len() - end,
{
    if end < text.len() {
        lemma_trimmed_end(text.drop_last(), end);
    }
}

/// The text without the white space around it: what is left when the white space that it
/// begins with and the white space that it ends with are taken away.
pub fn trim(text: &str) -> (r: String)
    ensures
        r@ == trimmed(text@),
{
    let length = text.unicode_len();
    let mut lead: usize = 0;
    let mut seen: bool = false;
    let mut end: usize = 0;
    let mut i: usize = 0;
    for c in it: text.chars()
        invariant
            length == text@.len(),
            it.seq() == text@,
            i == it.index(),
            i <= length,
            lead <= end <= i,
            forall|k: int| 0 <= k < lead ==> white_space(#[trigger] text@[k]),
            forall|k: int| end <= k < i ==> white_space(#[trigger] text@[k]),
            seen ==> lead < end && !white_space(text@[lead as int]) && !white_space(text@[end - 1]),
            !seen ==> lead == i && end == i,
    {
        if c.is_whitespace() {
            if !seen {
                lead = i + 1;
                end = i + 1;
            }
        } else {
            if !seen {
                seen = true;
                lead = i;
            }
            end = i + 1;
        }
        i = i + 1;
    }
    proof {
        lemma_trimmed_start(text@, lead as int);
        let rest = text@.skip(lead as int);
        assert forall|k: int| end - lead <= k < rest.len() implies white_space(#[trigger] rest[k]) by {}
        lemma_trimmed_end(rest, end - lead);
    }
    text.substring_char(lead, end).to_owned()
}

} // verus!
