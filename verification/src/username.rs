//! Username validation.
//!
//! A username is 1 to 32 characters drawn from ASCII letters, digits,
//! hyphen and underscore. The same rule guards every path that sets a
//! username: claim construction, profile updates and provider logins.

use vstd::prelude::*;
use vstd::utf8::is_ascii_chars;
use crate::ascii::ascii_bytes_of;

verus! {

/// Maximum length of a username, in characters.
pub const USERNAME_MAX_LEN: usize = 32;

/// ASCII letter, digit, hyphen or underscore.
pub open spec fn is_username_char(c: char) -> bool {
    ||| 0x61 <= (c as u32) <= 0x7a  // 'a'..='z'
    ||| 0x41 <= (c as u32) <= 0x5a  // 'A'..='Z'
    ||| 0x30 <= (c as u32) <= 0x39  // '0'..='9'
    ||| (c as u32) == 0x2d  // '-'
    ||| (c as u32) == 0x5f  // '_'
}

/// The same character class, on the ASCII byte.
pub open spec fn is_username_byte(b: u8) -> bool {
    ||| 0x61 <= b <= 0x7a
    ||| 0x41 <= b <= 0x5a
    ||| 0x30 <= b <= 0x39
    ||| b == 0x2d
    ||| b == 0x5f
}

/// A well-formed username: non-empty, bounded, restricted charset.
pub open spec fn valid_username(s: Seq<char>) -> bool {
    &&& 1 <= s.len() <= USERNAME_MAX_LEN
    &&& forall|i: int| 0 <= i < s.len() ==> is_username_char(#[trigger] s[i])
}

/// A username character is ASCII and its byte sits in the byte class.
pub proof fn lemma_username_char_byte(c: char)
    requires
        is_username_char(c),
    ensures
        '\0' <= c <= '\u{7f}',
        is_username_byte(c as u8),
{
    let u = c as u32;
    assert((c as nat) < 128);
    assert(c as u8 == u as u8);
    assert((0x61 <= (u as u8) <= 0x7a) || (0x41 <= (u as u8) <= 0x5a) || (0x30 <= (u as u8)
        <= 0x39) || (u as u8) == 0x2d || (u as u8) == 0x5f) by (bit_vector)
        requires
            (0x61 <= u <= 0x7a) || (0x41 <= u <= 0x5a) || (0x30 <= u <= 0x39) || u == 0x2d || u
                == 0x5f,
    ;
}

/// A byte in the byte class denotes a character in the character class.
pub proof fn lemma_username_byte_char(b: u8)
    requires
        is_username_byte(b),
    ensures
        is_username_char(b as char),
{
    crate::ascii::lemma_ascii_byte_char(b);
}

/// Valid usernames are ASCII, and their bytes sit in the byte class.
pub proof fn lemma_valid_username_ascii(s: Seq<char>)
    requires
        valid_username(s),
    ensures
        is_ascii_chars(s),
        forall|i: int|
            0 <= i < s.len() ==> is_username_byte(#[trigger] ascii_bytes_of(s)[i]),
{
    assert forall|i: int| 0 <= i < s.len() implies '\0' <= #[trigger] s[i] <= '\u{7f}'
        && is_username_byte(ascii_bytes_of(s)[i]) by {
        assert(is_username_char(s[i]));
        lemma_username_char_byte(s[i]);
    }
}

/// Check a candidate username against the rules.
pub fn validate_username(s: &str) -> (r: bool)
    ensures
        r == valid_username(s@),
{
    let n = s.unicode_len();
    if n < 1 || n > USERNAME_MAX_LEN {
        return false;
    }
    let mut i: usize = 0;
    while i < n
        invariant
            0 <= i <= n,
            n == s@.len(),
            1 <= n <= USERNAME_MAX_LEN,
            forall|j: int| 0 <= j < i ==> is_username_char(#[trigger] s@[j]),
        decreases n - i,
    {
        let c = s.get_char(i);
        let u = c as u32;
        let ok = (0x61 <= u && u <= 0x7a) || (0x41 <= u && u <= 0x5a) || (0x30 <= u && u
            <= 0x39) || u == 0x2d || u == 0x5f;
        if !ok {
            return false;
        }
        i = i + 1;
    }
    true
}

} // verus!
