//! An id-or-slug path segment: a run of digits denotes a numeric id,
//! anything else names a resource by its slug.

use vstd::prelude::*;
use vstd::string::{StrSliceExecFns, StringExecFns};
use crate::routes::dec_str;

verus! {

/// A resource addressed either by numeric id or by slug.
#[derive(Clone, Debug)]
pub enum IdOrSlug {
    Id(i32),
    Slug(String),
}

/// A decimal digit, as a character.
pub open spec fn is_digit_char(c: char) -> bool {
    0x30 <= (c as u32) <= 0x39
}

pub open spec fn all_digit_chars(s: Seq<char>) -> bool {
    forall|i: int| 0 <= i < s.len() ==> is_digit_char(#[trigger] s[i])
}

/// The number a digit-character string denotes.
pub open spec fn digits_val_chars(s: Seq<char>) -> int
    decreases s.len(),
{
    if s.len() == 0 {
        0
    } else {
        digits_val_chars(s.drop_last()) * 10 + ((s.last() as u32) - 0x30)
    }
}

/// Dropping trailing digits can only shrink the denoted number.
proof fn lemma_digits_val_chars_take(s: Seq<char>, k: int)
    requires
        0 <= k <= s.len(),
        all_digit_chars(s),
    ensures
        0 <= digits_val_chars(s.take(k)) <= digits_val_chars(s),
    decreases s.len(),
{
    if s.len() == 0 {
    } else if k == s.len() {
        assert(s.take(k) =~= s);
        assert(all_digit_chars(s.drop_last()));
        lemma_digits_val_chars_take(s.drop_last(), s.len() - 1);
        assert(s.drop_last().take(s.len() - 1) =~= s.drop_last());
    } else {
        assert(all_digit_chars(s.drop_last()));
        lemma_digits_val_chars_take(s.drop_last(), k);
        assert(s.drop_last().take(k) =~= s.take(k));
    }
}

/// Whether a string denotes an id: non-empty, all digits, and within the
/// id range.
pub open spec fn denotes_id(s: Seq<char>) -> bool {
    &&& s.len() >= 1
    &&& all_digit_chars(s)
    &&& digits_val_chars(s) <= i32::MAX
}

impl IdOrSlug {
    /// Read a path segment: a pure digit run within range is an id,
    /// everything else a slug.
    pub fn parse(s: &str) -> (r: IdOrSlug)
        ensures
            match r {
                IdOrSlug::Id(n) => denotes_id(s@) && n as int == digits_val_chars(s@),
                IdOrSlug::Slug(t) => t@ == s@ && !denotes_id(s@),
            },
    {
        let n = s.unicode_len();
        if n == 0 {
            return IdOrSlug::Slug(String::from_str(s));
        }
        let mut i: usize = 0;
        let mut val: u32 = 0;
        while i < n
            invariant
                0 <= i <= n,
                n == s@.len(),
                n >= 1,
                forall|j: int| 0 <= j < i ==> is_digit_char(#[trigger] s@[j]),
                val == digits_val_chars(s@.take(i as int)),
                val <= i32::MAX,
            decreases n - i,
        {
            let c = s.get_char(i);
            let u = c as u32;
            if !(0x30 <= u && u <= 0x39) {
                return IdOrSlug::Slug(String::from_str(s));
            }
            let d = u - 0x30;
            proof {
                assert(s@.take(i + 1).drop_last() =~= s@.take(i as int));
                assert(s@.take(i + 1).last() == s@[i as int]);
            }
            if val > (0x7fff_ffffu32 - d) / 10 {
                proof {
                    assert(digits_val_chars(s@.take(i + 1)) == val * 10 + d);
                    assert(val * 10 + d > i32::MAX) by (nonlinear_arith)
                        requires
                            val > (0x7fff_ffffu32 - d) / 10,
                            0 <= d <= 9,
                    ;
                    if all_digit_chars(s@) {
                        lemma_digits_val_chars_take(s@, i + 1);
                        assert(s@.take(i + 1) =~= s@.take(i + 1));
                        assert(digits_val_chars(s@) >= digits_val_chars(s@.take(i + 1)));
                    }
                }
                return IdOrSlug::Slug(String::from_str(s));
            }
            proof {
                assert(val * 10 + d <= i32::MAX) by (nonlinear_arith)
                    requires
                        val <= (0x7fff_ffffu32 - d) / 10,
                        0 <= d <= 9,
                ;
            }
            val = val * 10 + d;
            i = i + 1;
        }
        proof {
            assert(s@.take(n as int) =~= s@);
        }
        IdOrSlug::Id(val as i32)
    }

    /// The path segment for this reference: the id in decimal, or the
    /// slug as given.
    pub fn segment(&self) -> (r: String)
        requires
            self matches IdOrSlug::Id(n) ==> n >= 0,
        ensures
            r@ == match self {
                IdOrSlug::Id(n) => dec_str(n as nat),
                IdOrSlug::Slug(t) => t@,
            },
    {
        match self {
            IdOrSlug::Id(n) => crate::routes::u32_string(*n as u32),
            IdOrSlug::Slug(t) => t.clone(),
        }
    }
}

} // verus!
