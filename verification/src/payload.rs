//! The JSON claims payload: `{"id":<int>,"username":<"name"|null>,"exp":<int>}`.
//!
//! Both wire forms carry this payload. Valid usernames need no JSON
//! escaping, so the encoding is plain byte concatenation and the decoder is
//! exact: it accepts a byte string if and only if the spec-level parser
//! does, and encodings of well-formed claims always parse back.

use vstd::prelude::*;
use vstd::utf8::is_ascii_chars_encode_utf8;
use vstd::string::StrSliceExecFns;
use crate::ascii::{ascii_bytes_of, all_ascii, lemma_ascii_bytes_injective, string_from_ascii};
use crate::claims::{ClaimsView, UserGuard, claims_wf};
use crate::decnum::{dec_of, dec_int_of, push_dec_i64, parse_i64_at, int_run_end, int_run_val,
    int_digits_start, is_dec_digit, lemma_parse_of_dec_int, lemma_dec_of_digits};
use crate::username::{valid_username, is_username_byte, lemma_valid_username_ascii};

verus! {

/// `{"id":`
pub open spec fn key_id() -> Seq<u8> {
    seq![0x7bu8, 0x22u8, 0x69u8, 0x64u8, 0x22u8, 0x3au8]
}

/// `,"username":`
pub open spec fn key_username() -> Seq<u8> {
    seq![0x2cu8, 0x22u8, 0x75u8, 0x73u8, 0x65u8, 0x72u8, 0x6eu8, 0x61u8, 0x6du8, 0x65u8, 0x22u8, 0x3au8]
}

/// `null`
pub open spec fn lit_null() -> Seq<u8> {
    seq![0x6eu8, 0x75u8, 0x6cu8, 0x6cu8]
}

/// `,"exp":`
pub open spec fn key_exp() -> Seq<u8> {
    seq![0x2cu8, 0x22u8, 0x65u8, 0x78u8, 0x70u8, 0x22u8, 0x3au8]
}

/// The username field's rendering: a quoted name or `null`.
pub open spec fn username_field_bytes(u: Option<Seq<char>>) -> Seq<u8> {
    match u {
        Option::Some(name) => seq![0x22u8] + ascii_bytes_of(name) + seq![0x22u8],
        Option::None => lit_null(),
    }
}

/// The canonical payload bytes of a claims record.
pub open spec fn payload_bytes(c: ClaimsView) -> Seq<u8> {
    key_id() + dec_int_of(c.id) + key_username() + username_field_bytes(c.username) + key_exp()
        + dec_int_of(c.exp) + seq![0x7du8]
}

/// Serialize a claims record to its payload bytes.
#[verifier::rlimit(60)]
pub fn payload_encode(g: &UserGuard) -> (out: Vec<u8>)
    requires
        claims_wf(g@),
    ensures
        out@ =~= payload_bytes(g@),
{
    let mut out: Vec<u8> = Vec::new();
    out.push(0x7b);
    out.push(0x22);
    out.push(0x69);
    out.push(0x64);
    out.push(0x22);
    out.push(0x3a);
    assert(out@ =~= key_id());
    push_dec_i64(&mut out, g.id as i64);
    assert(out@ =~= key_id() + dec_int_of(g@.id));
    let ghost p1 = key_id() + dec_int_of(g@.id);
    out.push(0x2c);
    out.push(0x22);
    out.push(0x75);
    out.push(0x73);
    out.push(0x65);
    out.push(0x72);
    out.push(0x6e);
    out.push(0x61);
    out.push(0x6d);
    out.push(0x65);
    out.push(0x22);
    out.push(0x3a);
    assert(out@ =~= p1 + key_username());
    let ghost p2 = p1 + key_username();
    match &g.username {
        Option::Some(name) => {
            proof {
                lemma_valid_username_ascii(name@);
            }
            out.push(0x22);
            let mut nb = name.as_str().as_bytes_vec();
            proof {
                is_ascii_chars_encode_utf8(name@);
                assert(nb@ =~= ascii_bytes_of(name@));
            }
            out.append(&mut nb);
            out.push(0x22);
            assert(out@ =~= p2 + username_field_bytes(g@.username));
        },
        Option::None => {
            out.push(0x6e);
            out.push(0x75);
            out.push(0x6c);
            out.push(0x6c);
            assert(out@ =~= p2 + username_field_bytes(g@.username));
        },
    }
    let ghost p3 = p2 + username_field_bytes(g@.username);
    out.push(0x2c);
    out.push(0x22);
    out.push(0x65);
    out.push(0x78);
    out.push(0x70);
    out.push(0x22);
    out.push(0x3a);
    assert(out@ =~= p3 + key_exp());
    let ghost p4 = p3 + key_exp();
    push_dec_i64(&mut out, g.exp);
    assert(out@ =~= p4 + dec_int_of(g@.exp));
    out.push(0x7d);
    assert(out@ =~= p4 + dec_int_of(g@.exp) + seq![0x7du8]);
    assert(out@ =~= payload_bytes(g@));
    out
}

/// `lit` occurs in `s` at position `pos`.
pub open spec fn starts_with_at(s: Seq<u8>, pos: int, lit: Seq<u8>) -> bool {
    &&& 0 <= pos
    &&& pos + lit.len() <= s.len()
    &&& forall|i: int| 0 <= i < lit.len() ==> s[pos + i] == lit[i]
}

/// A well-shaped integer literal at `pos`: at least one digit after the
/// optional sign, no leading zero, value within `i64`.
pub open spec fn canonical_int_at(s: Seq<u8>, pos: int) -> bool {
    let ds = int_digits_start(s, pos);
    let end = int_run_end(s, pos);
    &&& ds < end
    &&& (s[ds] != 0x30 || end == ds + 1)
    &&& i64::MIN <= int_run_val(s, pos) <= i64::MAX
}

/// End of the run of username-class bytes that starts at `pos`.
pub open spec fn uname_run_end(s: Seq<u8>, pos: int) -> int
    decreases s.len() - pos,
{
    if pos < 0 || pos >= s.len() || !is_username_byte(s[pos]) {
        pos
    } else {
        uname_run_end(s, pos + 1)
    }
}

/// The trailing `,"exp":<int>}` of a payload, after the username field.
pub open spec fn payload_parse_tail(s: Seq<u8>, pos: int, id: int, uname: Option<Seq<char>>)
    -> Option<ClaimsView> {
    if !starts_with_at(s, pos, key_exp()) {
        Option::None
    } else if !canonical_int_at(s, pos + 7) {
        Option::None
    } else {
        let e = int_run_end(s, pos + 7);
        if e + 1 == s.len() && s[e] == 0x7d {
            Option::Some(ClaimsView { id, username: uname, exp: int_run_val(s, pos + 7) })
        } else {
            Option::None
        }
    }
}

/// What a byte string means as a claims payload, if anything.
pub open spec fn payload_parse(s: Seq<u8>) -> Option<ClaimsView> {
    if !starts_with_at(s, 0, key_id()) {
        Option::None
    } else if !canonical_int_at(s, 6) {
        Option::None
    } else {
        let id = int_run_val(s, 6);
        let p = int_run_end(s, 6);
        if id < i32::MIN || id > i32::MAX {
            Option::None
        } else if !starts_with_at(s, p, key_username()) {
            Option::None
        } else {
            let q = p + 12;
            if starts_with_at(s, q, lit_null()) {
                payload_parse_tail(s, q + 4, id, Option::None)
            } else if q < s.len() && s[q] == 0x22 {
                let ue = uname_run_end(s, q + 1);
                if ue < s.len() && s[ue] == 0x22 && 1 <= ue - (q + 1) <= 32 {
                    payload_parse_tail(
                        s,
                        ue + 1,
                        id,
                        Option::Some(crate::ascii::chars_of_bytes(s.subrange(q + 1, ue))),
                    )
                } else {
                    Option::None
                }
            } else {
                Option::None
            }
        }
    }
}

/// `key_id()` occurs at `pos`.
fn match_key_id(s: &Vec<u8>, pos: usize) -> (r: bool)
    requires
        pos <= s@.len(),
    ensures
        r == starts_with_at(s@, pos as int, key_id()),
{
    if s.len() - pos < 6 {
        return false;
    }
    let r = s[pos] == 0x7b && s[pos + 1] == 0x22 && s[pos + 2] == 0x69 && s[pos + 3] == 0x64
        && s[pos + 4] == 0x22 && s[pos + 5] == 0x3a;
    proof {
        if r {
            assert forall|i: int| 0 <= i < key_id().len() implies s@[pos + i] == key_id()[i] by {
                if i == 0 {
                } else if i == 1 {
                } else if i == 2 {
                } else if i == 3 {
                } else if i == 4 {
                } else {
                    assert(i == 5);
                }
            }
        }
    }
    r
}

/// `key_username()` occurs at `pos`.
fn match_key_username(s: &Vec<u8>, pos: usize) -> (r: bool)
    requires
        pos <= s@.len(),
    ensures
        r == starts_with_at(s@, pos as int, key_username()),
{
    if s.len() - pos < 12 {
        return false;
    }
    let r = s[pos] == 0x2c && s[pos + 1] == 0x22 && s[pos + 2] == 0x75 && s[pos + 3] == 0x73
        && s[pos + 4] == 0x65 && s[pos + 5] == 0x72 && s[pos + 6] == 0x6e && s[pos + 7] == 0x61
        && s[pos + 8] == 0x6d && s[pos + 9] == 0x65 && s[pos + 10] == 0x22 && s[pos + 11]
        == 0x3a;
    proof {
        if r {
            assert forall|i: int| 0 <= i < key_username().len() implies s@[pos + i]
                == key_username()[i] by {
                assert(0 <= i < 12);
            }
        }
    }
    r
}

/// `lit_null()` occurs at `pos`.
fn match_lit_null(s: &Vec<u8>, pos: usize) -> (r: bool)
    requires
        pos <= s@.len(),
    ensures
        r == starts_with_at(s@, pos as int, lit_null()),
{
    if s.len() - pos < 4 {
        return false;
    }
    let r = s[pos] == 0x6e && s[pos + 1] == 0x75 && s[pos + 2] == 0x6c && s[pos + 3] == 0x6c;
    proof {
        if r {
            assert forall|i: int| 0 <= i < lit_null().len() implies s@[pos + i]
                == lit_null()[i] by {
                assert(0 <= i < 4);
            }
        }
    }
    r
}

/// `key_exp()` occurs at `pos`.
fn match_key_exp(s: &Vec<u8>, pos: usize) -> (r: bool)
    requires
        pos <= s@.len(),
    ensures
        r == starts_with_at(s@, pos as int, key_exp()),
{
    if s.len() - pos < 7 {
        return false;
    }
    let r = s[pos] == 0x2c && s[pos + 1] == 0x22 && s[pos + 2] == 0x65 && s[pos + 3] == 0x78
        && s[pos + 4] == 0x70 && s[pos + 5] == 0x22 && s[pos + 6] == 0x3a;
    proof {
        if r {
            assert forall|i: int| 0 <= i < key_exp().len() implies s@[pos + i]
                == key_exp()[i] by {
                assert(0 <= i < 7);
            }
        }
    }
    r
}

/// Executable check of the username byte class.
fn is_uname_byte(b: u8) -> (r: bool)
    ensures
        r == is_username_byte(b),
{
    (0x61 <= b && b <= 0x7a) || (0x41 <= b && b <= 0x5a) || (0x30 <= b && b <= 0x39) || b == 0x2d
        || b == 0x5f
}

/// Check an integer literal parsed at `pos` for a leading zero, given what
/// `parse_i64_at` returned.
fn int_literal_canonical(s: &Vec<u8>, pos: usize, end: usize) -> (r: bool)
    requires
        pos < s@.len(),
        end == int_run_end(s@, pos as int),
        int_digits_start(s@, pos as int) < end,
        end <= s@.len(),
        i64::MIN <= int_run_val(s@, pos as int) <= i64::MAX,
    ensures
        r == canonical_int_at(s@, pos as int),
{
    let ds: usize = if s[pos] == 0x2d {
        pos + 1
    } else {
        pos
    };
    s[ds] != 0x30 || end == ds + 1
}

/// Deserialize a claims payload.
///
/// Accepts exactly the byte strings that the specification parser accepts,
/// and returns the claims they denote.
pub fn payload_decode(s: &Vec<u8>) -> (r: Option<UserGuard>)
    ensures
        match r {
            Option::Some(g) => payload_parse(s@) == Option::Some(g@) && claims_wf(g@),
            Option::None => payload_parse(s@) is None,
        },
{
    let n = s.len();
    proof {
        assert(n == s@.len());
        assert(s@.len() <= usize::MAX);
    }
    if !match_key_id(s, 0) {
        return Option::None;
    }
    let (idval, idend) = match parse_i64_at(s, 6) {
        Option::Some(p) => p,
        Option::None => {
            return Option::None;
        },
    };
    if !int_literal_canonical(s, 6, idend) {
        return Option::None;
    }
    if idval < -2147483648i64 || idval > 2147483647i64 {
        return Option::None;
    }
    let id: i32 = idval as i32;
    if !match_key_username(s, idend) {
        return Option::None;
    }
    proof {
        assert(key_username().len() == 12);
        assert(idend + 12 <= s@.len());
    }
    let q = idend + 12;
    let (username, tail_pos): (Option<String>, usize) = if match_lit_null(s, q) {
        proof {
            assert(lit_null().len() == 4);
            assert(q + 4 <= s@.len());
        }
        (Option::None, q + 4)
    } else {
        if !(q < s.len() && s[q] == 0x22) {
            return Option::None;
        }
        let mut i = q + 1;
        let mut nb: Vec<u8> = Vec::new();
        while i < s.len() && is_uname_byte(s[i])
            invariant
                q + 1 <= i <= s@.len(),
                s@.len() <= usize::MAX,
                forall|j: int| q + 1 <= j < i ==> is_username_byte(#[trigger] s@[j]),
                nb@ =~= s@.subrange(q + 1, i as int),
            decreases s@.len() - i,
        {
            nb.push(s[i]);
            proof {
                assert(nb@ =~= s@.subrange(q + 1, i + 1));
            }
            i = i + 1;
        }
        proof {
            lemma_uname_run_end(s@, q + 1, i as int);
        }
        if !(i < s.len() && s[i] == 0x22) {
            return Option::None;
        }
        let nlen = i - (q + 1);
        if !(1 <= nlen && nlen <= 32) {
            return Option::None;
        }
        proof {
            assert(all_ascii(nb@)) by {
                assert forall|j: int| 0 <= j < nb@.len() implies nb@[j] < 0x80 by {
                    assert(is_username_byte(s@[q + 1 + j]));
                }
            }
        }
        let name = string_from_ascii(nb);
        proof {
            crate::ascii::lemma_chars_of_bytes_roundtrip(s@.subrange(q + 1, i as int));
            lemma_ascii_bytes_injective(
                name@,
                crate::ascii::chars_of_bytes(s@.subrange(q + 1, i as int)),
            );
        }
        (Option::Some(name), i + 1)
    };
    if !match_key_exp(s, tail_pos) {
        return Option::None;
    }
    let (expval, expend) = match parse_i64_at(s, tail_pos + 7) {
        Option::Some(p) => p,
        Option::None => {
            return Option::None;
        },
    };
    if !int_literal_canonical(s, tail_pos + 7, expend) {
        return Option::None;
    }
    if !(expend < n && expend == n - 1 && s[expend] == 0x7d) {
        return Option::None;
    }
    let g = UserGuard::new_unchecked(id, username, expval);
    proof {
        assert(payload_parse(s@) == Option::Some(g@));
        lemma_payload_parse_wf(s@);
    }
    Option::Some(g)
}

/// A parsed payload always carries well-formed claims.
pub proof fn lemma_payload_parse_wf(s: Seq<u8>)
    requires
        payload_parse(s) is Some,
    ensures
        claims_wf(payload_parse(s)->Some_0),
        i32::MIN <= payload_parse(s)->Some_0.id <= i32::MAX,
        i64::MIN <= payload_parse(s)->Some_0.exp <= i64::MAX,
{
    let c = payload_parse(s)->Some_0;
    if c.username is Some {
        let p = int_run_end(s, 6);
        let q = p + 12;
        let ue = uname_run_end(s, q + 1);
        let name = crate::ascii::chars_of_bytes(s.subrange(q + 1, ue));
        lemma_uname_run_end_bounds(s, q + 1);
        assert forall|i: int| 0 <= i < name.len() implies crate::username::is_username_char(
            #[trigger] name[i],
        ) by {
            assert(is_username_byte(s[q + 1 + i]));
            crate::username::lemma_username_byte_char(s.subrange(q + 1, ue)[i]);
        }
        assert(valid_username(name));
    }
}

/// Bounds and membership for a username byte run.
pub proof fn lemma_uname_run_end_bounds(s: Seq<u8>, pos: int)
    requires
        0 <= pos <= s.len(),
    ensures
        pos <= uname_run_end(s, pos) <= s.len(),
        forall|i: int| pos <= i < uname_run_end(s, pos) ==> is_username_byte(#[trigger] s[i]),
        uname_run_end(s, pos) == s.len() || !is_username_byte(s[uname_run_end(s, pos)]),
    decreases s.len() - pos,
{
    if pos < s.len() && is_username_byte(s[pos]) {
        lemma_uname_run_end_bounds(s, pos + 1);
    }
}

/// A username byte run that visibly ends at `q` is what `uname_run_end`
/// computes.
pub proof fn lemma_uname_run_end(s: Seq<u8>, pos: int, q: int)
    requires
        0 <= pos <= q <= s.len(),
        forall|i: int| pos <= i < q ==> is_username_byte(#[trigger] s[i]),
        q == s.len() || !is_username_byte(s[q]),
    ensures
        uname_run_end(s, pos) == q,
    decreases q - pos,
{
    if pos < q {
        lemma_uname_run_end(s, pos + 1, q);
    }
}

/// A positive number's rendering never starts with a zero digit.
proof fn lemma_dec_of_no_leading_zero(n: nat)
    requires
        n >= 1,
    ensures
        dec_of(n)[0] != 0x30,
    decreases n,
{
    if n >= 10 {
        lemma_dec_of_no_leading_zero(n / 10);
    }
}

/// The rendering of an `i64` inside a byte string is a canonical integer
/// literal there, and denotes the number it renders.
proof fn lemma_canonical_of_dec_int(s: Seq<u8>, pos: int, n: int)
    requires
        i64::MIN <= n <= i64::MAX,
        0 <= pos,
        pos + dec_int_of(n).len() <= s.len(),
        s.subrange(pos, pos + dec_int_of(n).len()) =~= dec_int_of(n),
        pos + dec_int_of(n).len() == s.len() || !is_dec_digit(s[pos + dec_int_of(n).len()]),
    ensures
        canonical_int_at(s, pos),
        int_run_end(s, pos) == pos + dec_int_of(n).len(),
        int_run_val(s, pos) == n,
{
    lemma_parse_of_dec_int(s, pos, n);
    let m = if n < 0 { (-n) as nat } else { n as nat };
    lemma_dec_of_digits(m);
    let sub = s.subrange(pos, pos + dec_int_of(n).len());
    let ds = int_digits_start(s, pos);
    if n < 0 {
        assert(dec_int_of(n) =~= seq![0x2du8] + dec_of(m));
        assert(s[pos] == sub[0]);
        assert(sub[0] == 0x2d);
        assert(ds == pos + 1);
    } else {
        assert(dec_int_of(n) =~= dec_of(m));
        assert(s[pos] == sub[0]);
        assert(sub[0] == dec_of(m)[0]);
        assert(is_dec_digit(s[pos]) && s[pos] != 0x2d);
        assert(ds == pos);
    }
    assert forall|i: int| 0 <= i < dec_of(m).len() implies s[ds + i] == dec_of(m)[i] by {
        if n < 0 {
            assert(s[pos + 1 + i] == sub[1 + i]);
            assert(sub[1 + i] == dec_of(m)[i]);
        } else {
            assert(s[pos + i] == sub[i]);
            assert(sub[i] == dec_of(m)[i]);
        }
    }
    if m >= 1 {
        lemma_dec_of_no_leading_zero(m);
        assert(s[ds] == dec_of(m)[0]);
    } else {
        assert(dec_of(0).len() == 1);
    }
}

/// Encodings of well-formed claims parse back to the same claims.
#[verifier::rlimit(90)]
pub proof fn lemma_payload_roundtrip(c: ClaimsView)
    requires
        claims_wf(c),
        i32::MIN <= c.id <= i32::MAX,
        i64::MIN <= c.exp <= i64::MAX,
    ensures
        payload_parse(payload_bytes(c)) == Option::Some(c),
{
    let s = payload_bytes(c);
    let idlen = dec_int_of(c.id).len() as int;
    let ulen = username_field_bytes(c.username).len() as int;
    let explen = dec_int_of(c.exp).len() as int;

    assert(starts_with_at(s, 0, key_id()));
    assert(s.subrange(6, 6 + idlen) =~= dec_int_of(c.id));
    assert(s[6 + idlen] == 0x2c);
    lemma_canonical_of_dec_int(s, 6, c.id);
    let p = 6 + idlen;
    assert(starts_with_at(s, p, key_username()));
    let q = p + 12;
    let tail_pos: int = q + ulen;
    match c.username {
        Option::Some(name) => {
            lemma_valid_username_ascii(name);
            assert(s[q] == 0x22);
            assert(!starts_with_at(s, q, lit_null()));
            let nb = ascii_bytes_of(name);
            assert forall|i: int| q + 1 <= i < q + 1 + nb.len() implies is_username_byte(
                #[trigger] s[i],
            ) by {
                assert(s[i] == nb[i - (q + 1)]);
            }
            assert(s[q + 1 + nb.len()] == 0x22);
            lemma_uname_run_end(s, q + 1, q + 1 + nb.len());
            let ue = q + 1 + nb.len();
            assert(s.subrange(q + 1, ue) =~= nb);
            crate::ascii::lemma_ascii_bytes_ascii(name);
            crate::ascii::lemma_chars_of_bytes_roundtrip(nb);
            lemma_ascii_bytes_injective(crate::ascii::chars_of_bytes(nb), name);
            assert(tail_pos == ue + 1);
        },
        Option::None => {
            assert(starts_with_at(s, q, lit_null()));
            assert(tail_pos == q + 4);
        },
    }
    assert(tail_pos == 6 + idlen + 12 + ulen);
    assert(starts_with_at(s, tail_pos, key_exp()));
    assert(s.subrange(tail_pos + 7, tail_pos + 7 + explen) =~= dec_int_of(c.exp));
    assert(s[tail_pos + 7 + explen] == 0x7d);
    lemma_canonical_of_dec_int(s, tail_pos + 7, c.exp);
    assert(s.len() == tail_pos + 7 + explen + 1);
}

} // verus!
