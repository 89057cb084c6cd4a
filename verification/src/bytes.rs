//! Text as bytes.
use vstd::prelude::*;

use crate::text;

verus! {

// ---------------------------------------------------------------------------
// Decoding
// ---------------------------------------------------------------------------
/// What [`String::from_utf8_lossy`] makes of `bytes`.
pub uninterp spec fn lossy_text(bytes: Seq<u8>) -> Seq<char>;

/// Calls [`String::from_utf8_lossy`]. Claimed of it: the result depends on the
/// bytes alone, and bytes that are valid UTF-8 are decoded as they are. What
/// stands for invalid bytes is not said.
#[verifier::external_body]
pub(crate) fn decode_lossy(bytes: &Vec<u8>) -> (result: String)
    ensures
        result@ == lossy_text(bytes@),
        vstd::utf8::valid_utf8(bytes@) ==> result@ == vstd::utf8::decode_utf8(bytes@),
{
    String::from_utf8_lossy(bytes).into_owned()
}

/// Calls [`String::from_utf8`]. Claimed of it: it succeeds exactly on valid
/// UTF-8, and then gives the characters that the bytes encode.
#[verifier::external_body]
pub(crate) fn decode(bytes: Vec<u8>) -> (result: Option<String>)
    ensures
        match result {
            Some(s) => vstd::utf8::valid_utf8(bytes@) && s@ == vstd::utf8::decode_utf8(bytes@),
            None => !vstd::utf8::valid_utf8(bytes@),
        },
{
    String::from_utf8(bytes).ok()
}

// ---------------------------------------------------------------------------
// Lengths
// ---------------------------------------------------------------------------
/// The number of bytes of `c` in UTF-8.
pub open spec fn width(c: char) -> nat {
    vstd::utf8::encode_scalar(c as u32).len()
}

/// The number of bytes of `c` in UTF-8.
pub fn char_width(c: char) -> (result: usize)
    ensures
        result == width(c),
        1 <= result <= 4,
{
    let code: u32 = c as u32;
    if code <= 0x7f {
        1
    } else if code <= 0x7ff {
        2
    } else if code <= 0xffff {
        3
    } else {
        4
    }
}

/// A character more makes the bytes more that it takes.
pub proof fn lemma_byte_len_push(s: Seq<char>, c: char)
    ensures
        text::byte_len(s.push(c)) == text::byte_len(s) + width(c),
    decreases s.len(),
{
    let longer = s.push(c);
    if s.len() == 0 {
        assert(longer.drop_first() =~= seq![]);
        assert(vstd::utf8::encode_utf8(seq![]).len() == 0);
    } else {
        assert(longer.drop_first() =~= s.drop_first().push(c));
        lemma_byte_len_push(s.drop_first(), c);
        assert(longer[0] == s[0]);
    }
}

/// Fewer characters take fewer bytes.
pub proof fn lemma_byte_len_take(s: Seq<char>, i: int, j: int)
    requires
        0 <= i <= j <= s.len(),
    ensures
        text::byte_len(s.take(i)) <= text::byte_len(s.take(j)),
    decreases j,
{
    if i < j {
        lemma_byte_len_take(s, i, j - 1);
        assert(s.take(j) =~= s.take(j - 1).push(s[j - 1]));
        lemma_byte_len_push(s.take(j - 1), s[j - 1]);
    }
}

/// The longest beginning of `s` that takes at most `limit` bytes.
pub open spec fn fitting(s: Seq<char>, limit: nat) -> Seq<char>
    decreases s.len(),
{
    if s.len() == 0 || text::byte_len(s) <= limit {
        s
    } else {
        fitting(s.drop_last(), limit)
    }
}

proof fn lemma_fitting(s: Seq<char>, limit: nat, i: int)
    requires
        0 <= i < s.len(),
        text::byte_len(s.take(i)) <= limit < text::byte_len(s.take(i + 1)),
    ensures
        fitting(s, limit) == s.take(i),
    decreases s.len(),
{
    assert(s.take(s.len() as int) =~= s);
    lemma_byte_len_take(s, i + 1, s.len() as int);
    let front = s.drop_last();
    if i == s.len() - 1 {
        assert(front =~= s.take(i));
        assert(fitting(front, limit) == front);
    } else {
        assert(front.take(i) =~= s.take(i));
        assert(front.take(i + 1) =~= s.take(i + 1));
        lemma_fitting(front, limit, i);
    }
}

/// Cuts `value` to its longest beginning that takes at most `maximum_bytes`.
pub fn truncate_utf8(value: &str, maximum_bytes: usize) -> (result: String)
    ensures
        result@ == fitting(value@, maximum_bytes as nat),
{
    let chars: Vec<char> = text::chars_of(value);
    let mut result = String::new();
    let mut taken: usize = 0;
    let mut i: usize = 0;
    assert(value@.take(0) =~= seq![]);
    assert(vstd::utf8::encode_utf8(seq![]).len() == 0);
    while i < chars.len()
        invariant
            i <= chars@.len(),
            chars@ == value@,
            result@ == value@.take(i as int),
            taken == text::byte_len(value@.take(i as int)),
            taken <= maximum_bytes,
        decreases chars@.len() - i,
    {
        let size: usize = char_width(chars[i]);
        proof {
            lemma_byte_len_push(value@.take(i as int), value@[i as int]);
            assert(value@.take(i + 1) =~= value@.take(i as int).push(value@[i as int]));
        }
        if size > maximum_bytes - taken {
            proof {
                lemma_fitting(value@, maximum_bytes as nat, i as int);
            }
            return result;
        }
        taken += size;
        result.push(chars[i]);
        i += 1;
    }
    assert(value@.take(value@.len() as int) =~= value@);
    result
}

/// What is left of a text after cutting fits, and is a beginning of it.
pub proof fn law_cut_text_fits(s: Seq<char>, limit: nat)
    ensures
        text::byte_len(fitting(s, limit)) <= limit,
        fitting(s, limit).len() <= s.len(),
        fitting(s, limit) == s.take(fitting(s, limit).len() as int),
        text::byte_len(s) <= limit ==> fitting(s, limit) == s,
    decreases s.len(),
{
    assert(s.take(s.len() as int) =~= s);
    if s.len() == 0 {
        assert(vstd::utf8::encode_utf8(s).len() == 0);
    } else if text::byte_len(s) > limit {
        law_cut_text_fits(s.drop_last(), limit);
        let n = fitting(s, limit).len() as int;
        assert(s.drop_last().take(n) =~= s.take(n));
    }
}

} // verus!
