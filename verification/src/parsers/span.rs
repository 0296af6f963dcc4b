//! Cutting string slices at byte positions without copying.
//!
//! The parser scans the bytes of a line for ASCII delimiters and cuts the line
//! at the positions it finds. The lemmas here carry what the scan learns about
//! the bytes over to the characters that the grammar speaks of.

use crate::parsers::grammar::{lemma_leading_spaces_unique, trim_start};
use vstd::prelude::*;
use vstd::string::*;
use vstd::utf8::*;

verus! {

/// The byte that encodes a space.
pub(crate) const SPACE: u8 = 0x20;

/// The byte that encodes `:`.
pub(crate) const COLON: u8 = 0x3a;

/// The byte that encodes `@`.
pub(crate) const AT_SIGN: u8 = 0x40;

/// The bytes that a scalar's encoding is made of, in ranges.
proof fn lemma_encoded_byte_ranges(v: u32)
    by (bit_vector)
    ensures
        v <= 0x7f ==> leading_byte_width_1(v) == v,
        leading_byte_width_2(v) >= 0x80,
        leading_byte_width_3(v) >= 0x80,
        leading_byte_width_4(v) >= 0x80,
        last_continuation_byte(v) >= 0x80,
        second_last_continuation_byte(v) >= 0x80,
        third_last_continuation_byte(v) >= 0x80,
{
}

/// Two characters with the same code are the same character.
pub(crate) proof fn lemma_same_code(a: char, b: char)
    requires
        a as u32 == b as u32,
    ensures
        a == b,
{
    char_u32_cast(a, a as u32);
    char_u32_cast(b, b as u32);
}

/// An ASCII scalar is encoded as the one byte of its own value; every byte
/// of any other scalar's encoding is 0x80 or more.
pub(crate) proof fn lemma_encode_scalar(v: u32)
    requires
        is_scalar(v),
    ensures
        encode_scalar(v).len() >= 1,
        v < 0x80 ==> encode_scalar(v) == seq![v as u8],
        v >= 0x80 ==> forall|k: int|
            0 <= k < encode_scalar(v).len() ==> #[trigger] encode_scalar(v)[k] >= 0x80,
{
    lemma_encoded_byte_ranges(v);
    if v < 0x80 {
        assert(encode_scalar(v) =~= seq![v as u8]);
    }
}

/// The first byte of a text's encoding tells whether its first character is
/// a given ASCII character.
pub(crate) proof fn lemma_first_byte(s: Seq<char>)
    requires
        s.len() > 0,
    ensures
        encode_utf8(s).len() > 0,
        (s[0] as u32) < 0x80 ==> encode_utf8(s)[0] == s[0] as u32,
        (s[0] as u32) >= 0x80 ==> encode_utf8(s)[0] >= 0x80,
{
    char_is_scalar(s[0]);
    lemma_encode_scalar(s[0] as u32);
}

/// A text whose encoding holds only space bytes holds only spaces.
pub(crate) proof fn lemma_only_space_bytes(s: Seq<char>)
    requires
        forall|k: int| 0 <= k < encode_utf8(s).len() ==> encode_utf8(s)[k] == SPACE,
    ensures
        forall|k: int| 0 <= k < s.len() ==> s[k] == ' ',
    decreases s.len(),
{
    if s.len() > 0 {
        let head = encode_scalar(s[0] as u32);
        let tail = s.drop_first();
        char_is_scalar(s[0]);
        lemma_encode_scalar(s[0] as u32);
        assert(encode_utf8(s)[0] == head[0]);
        assert(s[0] as u32 == 0x20);
        lemma_same_code(s[0], ' ');
        assert forall|k: int| 0 <= k < encode_utf8(tail).len() implies encode_utf8(tail)[k]
            == SPACE by {
            assert(encode_utf8(tail)[k] == encode_utf8(s)[k + head.len()]);
        }
        lemma_only_space_bytes(tail);
        assert forall|k: int| 0 <= k < s.len() implies s[k] == ' ' by {
            if k > 0 {
                assert(s[k] == tail[k - 1]);
            }
        }
    }
}

/// A text whose encoding holds no space byte holds no space.
pub(crate) proof fn lemma_no_space_bytes(s: Seq<char>)
    requires
        forall|k: int| 0 <= k < encode_utf8(s).len() ==> encode_utf8(s)[k] != SPACE,
    ensures
        forall|k: int| 0 <= k < s.len() ==> s[k] != ' ',
    decreases s.len(),
{
    if s.len() > 0 {
        let head = encode_scalar(s[0] as u32);
        let tail = s.drop_first();
        char_is_scalar(s[0]);
        lemma_encode_scalar(s[0] as u32);
        assert(encode_utf8(s)[0] == head[0]);
        assert(s[0] != ' ');
        assert forall|k: int| 0 <= k < encode_utf8(tail).len() implies encode_utf8(tail)[k]
            != SPACE by {
            assert(encode_utf8(tail)[k] == encode_utf8(s)[k + head.len()]);
        }
        lemma_no_space_bytes(tail);
        assert forall|k: int| 0 <= k < s.len() implies s[k] != ' ' by {
            if k > 0 {
                assert(s[k] == tail[k - 1]);
            }
        }
    }
}

/// An encoding has at least one byte for each character.
pub(crate) proof fn lemma_encoding_len(s: Seq<char>)
    ensures
        encode_utf8(s).len() >= s.len(),
    decreases s.len(),
{
    if s.len() > 0 {
        char_is_scalar(s[0]);
        lemma_encode_scalar(s[0] as u32);
        lemma_encoding_len(s.drop_first());
    }
}

/// After a run of ASCII bytes a new character starts.
pub(crate) proof fn lemma_boundary_after_ascii(bytes: Seq<u8>, end: int)
    requires
        valid_utf8(bytes),
        0 <= end <= bytes.len(),
        forall|k: int| 0 <= k < end ==> bytes[k] < 0x80,
    ensures
        is_char_boundary(bytes, end),
    decreases end,
{
    if end > 0 {
        let tail = pop_first_scalar(bytes);
        assert(bytes[0] < 0x80);
        assert(length_of_first_scalar(bytes) == 1);
        assert forall|k: int| 0 <= k < end - 1 implies tail[k] < 0x80 by {
            assert(tail[k] == bytes[k + 1]);
        }
        lemma_boundary_after_ascii(tail, end - 1);
    }
}

/// An ASCII byte is a character of its own, so a new character starts at it.
pub(crate) proof fn lemma_boundary_at_ascii(bytes: Seq<u8>, at: int)
    requires
        valid_utf8(bytes),
        0 <= at <= bytes.len(),
        at < bytes.len() ==> bytes[at] < 0x80,
    ensures
        is_char_boundary(bytes, at),
{
    if at < bytes.len() {
        is_char_boundary_iff_not_is_continuation_byte(bytes, at);
    } else {
        is_char_boundary_start_end_of_seq(bytes);
    }
}

/// Cuts `s` in two at byte `mid`, which must be the start of a character or
/// the end of `s`. Both parts borrow from `s`.
pub(crate) fn split_str<'a>(s: &'a str, mid: usize) -> (parts: (&'a str, &'a str))
    requires
        is_char_boundary(s.spec_bytes(), mid as int),
    ensures
        parts.0@ + parts.1@ == s@,
        mid <= s.spec_bytes().len(),
        parts.0.spec_bytes() == s.spec_bytes().subrange(0, mid as int),
        parts.1.spec_bytes() == s.spec_bytes().subrange(mid as int, s.spec_bytes().len() as int),
{
    let parts = s.split_at(mid);
    proof {
        let bytes = s.spec_bytes();
        encode_utf8_valid_utf8(s@);
        decode_utf8_split(bytes, mid as int);
        encode_utf8_decode_utf8(s@);
        encode_utf8_decode_utf8(parts.0@);
        encode_utf8_decode_utf8(parts.1@);
    }
    parts
}

/// The position of the first byte that is not a space, or the length of
/// `bytes` when it holds only spaces.
pub(crate) fn skip_spaces(bytes: &[u8]) -> (end: usize)
    ensures
        end <= bytes@.len(),
        forall|k: int| 0 <= k < end ==> bytes@[k] == SPACE,
        end < bytes@.len() ==> bytes@[end as int] != SPACE,
{
    let mut end: usize = 0;
    while end < bytes.len() && bytes[end] == SPACE
        invariant
            end <= bytes@.len(),
            forall|k: int| 0 <= k < end ==> bytes@[k] == SPACE,
        decreases bytes@.len() - end,
    {
        end += 1;
    }
    end
}

/// The position of the first space byte, or the length of `bytes` when it
/// holds no space.
pub(crate) fn find_space(bytes: &[u8]) -> (end: usize)
    ensures
        end <= bytes@.len(),
        forall|k: int| 0 <= k < end ==> bytes@[k] != SPACE,
        end < bytes@.len() ==> bytes@[end as int] == SPACE,
{
    let mut end: usize = 0;
    while end < bytes.len() && bytes[end] != SPACE
        invariant
            end <= bytes@.len(),
            forall|k: int| 0 <= k < end ==> bytes@[k] != SPACE,
        decreases bytes@.len() - end,
    {
        end += 1;
    }
    end
}

/// `s` without the spaces it starts with.
pub(crate) fn trim_spaces<'a>(s: &'a str) -> (text: &'a str)
    ensures
        text@ == trim_start(s@),
{
    let bytes = s.as_bytes();
    let start: usize = skip_spaces(bytes);
    proof {
        encode_utf8_valid_utf8(s@);
        lemma_boundary_after_ascii(bytes@, start as int);
    }
    let (blank, text) = split_str(s, start);
    proof {
        lemma_only_space_bytes(blank@);
        if text@.len() > 0 {
            lemma_first_byte(text@);
            assert(text.spec_bytes()[0] == bytes@[start as int]);
            assert(text@[0] != ' ');
        }
        lemma_leading_spaces_unique(s@, blank@.len());
        assert(s@.skip(blank@.len() as int) =~= text@);
    }
    text
}

/// The first byte of `s`, if it has one. An ASCII byte is the first
/// character of `s` itself.
pub(crate) fn leading_byte(s: &str) -> (first: Option<u8>)
    ensures
        first is None <==> s@.len() == 0,
        first matches Some(byte) ==> byte == s.spec_bytes()[0] && (byte < 0x80 ==> s@[0] as u32
            == byte) && (byte >= 0x80 ==> s@[0] as u32 >= 0x80),
{
    if s.is_empty() {
        None
    } else {
        proof {
            lemma_first_byte(s@);
        }
        Some(s.as_bytes()[0])
    }
}

/// `s` without its first character, which must be an ASCII one.
pub(crate) fn strip_first<'a>(s: &'a str) -> (tail: &'a str)
    requires
        s@.len() > 0,
        (s@[0] as u32) < 0x80,
    ensures
        tail@ == s@.skip(1),
{
    proof {
        encode_utf8_valid_utf8(s@);
        lemma_first_byte(s@);
        lemma_boundary_after_ascii(s.spec_bytes(), 1);
    }
    let (head, tail) = split_str(s, 1);
    proof {
        lemma_encoding_len(head@);
        assert(s@.skip(1) =~= tail@);
    }
    tail
}

} // verus!
