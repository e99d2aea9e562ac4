//! Conversions between ASCII byte sequences and strings.
//!
//! The wire forms this crate produces (JSON payloads, base64url segments,
//! signatures) are all ASCII, so their specifications live on `Seq<u8>` and
//! strings are converted at the boundary.

use vstd::prelude::*;
use vstd::utf8::{is_ascii_chars, is_ascii_chars_nat_bound, char_u32_cast};

verus! {

/// The bytes of an ASCII character sequence, one byte per character.
pub open spec fn ascii_bytes_of(s: Seq<char>) -> Seq<u8> {
    Seq::new(s.len(), |i: int| s[i] as u8)
}

/// True when every byte is ASCII (below 0x80).
pub open spec fn all_ascii(b: Seq<u8>) -> bool {
    forall|i: int| 0 <= i < b.len() ==> b[i] < 0x80
}

/// The characters denoted by a sequence of ASCII bytes.
pub open spec fn chars_of_bytes(b: Seq<u8>) -> Seq<char> {
    Seq::new(b.len(), |i: int| b[i] as char)
}

/// An ASCII byte and the character it denotes stand for the same value.
pub proof fn lemma_ascii_byte_char(b: u8)
    requires
        b < 0x80,
    ensures
        (b as char) as u8 == b,
        ((b as char) as nat) < 128,
        '\0' <= (b as char) <= '\u{7f}',
        (b as char) as u32 == b as u32,
{
}

/// Characters read off ASCII bytes give those bytes back.
pub proof fn lemma_chars_of_bytes_roundtrip(b: Seq<u8>)
    requires
        all_ascii(b),
    ensures
        is_ascii_chars(chars_of_bytes(b)),
        ascii_bytes_of(chars_of_bytes(b)) =~= b,
{
    assert forall|i: int| 0 <= i < b.len() implies '\0' <= #[trigger] chars_of_bytes(b)[i]
        <= '\u{7f}' && ascii_bytes_of(chars_of_bytes(b))[i] == b[i] by {
        assert(b[i] < 0x80);
        lemma_ascii_byte_char(b[i]);
    }
}

/// Two ASCII character sequences with the same bytes are the same sequence.
pub proof fn lemma_ascii_bytes_injective(s1: Seq<char>, s2: Seq<char>)
    requires
        is_ascii_chars(s1),
        is_ascii_chars(s2),
        ascii_bytes_of(s1) =~= ascii_bytes_of(s2),
    ensures
        s1 =~= s2,
{
    broadcast use is_ascii_chars_nat_bound;

    assert(ascii_bytes_of(s1).len() == ascii_bytes_of(s2).len());
    assert(s1.len() == s2.len());
    assert forall|i: int| 0 <= i < s1.len() implies s1[i] == s2[i] by {
        assert(ascii_bytes_of(s1)[i] == ascii_bytes_of(s2)[i]);
        assert((s1[i] as nat) < 128 && (s2[i] as nat) < 128);
        let c1 = s1[i] as u32;
        let c2 = s2[i] as u32;
        assert(c1 == c2) by (bit_vector)
            requires
                c1 < 128,
                c2 < 128,
                c1 as u8 == c2 as u8,
        ;
        char_u32_cast(s1[i], c1);
        char_u32_cast(s2[i], c2);
    }
}

/// The bytes of an ASCII character sequence are all below 0x80.
pub proof fn lemma_ascii_bytes_ascii(s: Seq<char>)
    requires
        is_ascii_chars(s),
    ensures
        all_ascii(ascii_bytes_of(s)),
{
    broadcast use is_ascii_chars_nat_bound;

    assert forall|i: int| 0 <= i < s.len() implies ascii_bytes_of(s)[i] < 0x80 by {
        assert(s[i] as nat <= 0x7f);
    }
}

/// Relies on `String::from_utf8`: ASCII bytes decode to the string whose
/// characters are exactly those bytes.
#[verifier::external_body]
pub fn string_from_ascii(v: Vec<u8>) -> (r: String)
    requires
        all_ascii(v@),
    ensures
        is_ascii_chars(r@),
        ascii_bytes_of(r@) =~= v@,
{
    String::from_utf8(v).unwrap_or_default()
}

} // verus!
