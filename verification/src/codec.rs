//! The two credential wire forms.
//!
//! A bearer token is `b64(header).b64(payload).sig` with the header pinned
//! to HMAC-SHA-512; a cookie value is `b64(payload).sig`. Both carry the
//! claims payload of [`crate::payload`] and a tag from [`crate::hs512`].
//!
//! Two deliberate choices. The decoders accept only the byte-canonical
//! header and payload this crate itself issues: a token signed with the
//! right key but with reordered fields, extra whitespace or an extra
//! header member is `Malformed`. Since only the key holder issues
//! credentials, nothing valid is lost, and the accepted language has an
//! exact description. And the cookie value is integrity-protected but not
//! encrypted: the claims carry only identity data that the bearer already
//! knows, so the mandatory part of the protection is the tamper check.

use vstd::prelude::*;
use vstd::utf8::is_ascii_chars;
use vstd::string::{StrSliceExecFns, StringSliceAdditionalSpecFns};
use crate::ascii::{ascii_bytes_of, all_ascii, string_from_ascii};
use crate::b64::{b64_enc, b64_dec, b64_encode, b64_decode, is_b64_byte, lemma_b64_enc_alphabet};
use crate::claims::{ClaimsView, UserGuard, claims_wf};
use crate::hs512::{hs512_sig_of, hs512_sign, hs512_verify};
use crate::payload::{payload_bytes, payload_parse, payload_encode, payload_decode};

verus! {

/// Failure of a wire-form decode. The cookie transport reports every
/// failure as `Tamper`; the bearer transport distinguishes a broken shape
/// from a wrong signature.
#[derive(Clone, Copy, Debug, PartialEq, Eq, Structural)]
pub enum CodecError {
    Malformed,
    BadSignature,
    Tamper,
}

/// `{"typ":"JWT","alg":"HS512"}` — the only header this crate issues or
/// accepts.
pub open spec fn jwt_header_bytes() -> Seq<u8> {
    seq![
        0x7bu8, 0x22u8, 0x74u8, 0x79u8, 0x70u8, 0x22u8, 0x3au8, 0x22u8, 0x4au8, 0x57u8, 0x54u8,
        0x22u8, 0x2cu8, 0x22u8, 0x61u8, 0x6cu8, 0x67u8, 0x22u8, 0x3au8, 0x22u8, 0x48u8, 0x53u8,
        0x35u8, 0x31u8, 0x32u8, 0x22u8, 0x7du8,
    ]
}

fn jwt_header_vec() -> (v: Vec<u8>)
    ensures
        v@ =~= jwt_header_bytes(),
{
    let mut v: Vec<u8> = Vec::new();
    v.push(0x7b);
    v.push(0x22);
    v.push(0x74);
    v.push(0x79);
    v.push(0x70);
    v.push(0x22);
    v.push(0x3a);
    v.push(0x22);
    v.push(0x4a);
    v.push(0x57);
    v.push(0x54);
    v.push(0x22);
    v.push(0x2c);
    v.push(0x22);
    v.push(0x61);
    v.push(0x6c);
    v.push(0x67);
    v.push(0x22);
    v.push(0x3a);
    v.push(0x22);
    v.push(0x48);
    v.push(0x53);
    v.push(0x35);
    v.push(0x31);
    v.push(0x32);
    v.push(0x22);
    v.push(0x7d);
    v
}

/// The signed part of a bearer token: `b64(header).b64(payload)`.
pub open spec fn jwt_msg_bytes(c: ClaimsView) -> Seq<u8> {
    b64_enc(jwt_header_bytes()) + seq![0x2eu8] + b64_enc(payload_bytes(c))
}

/// The full bearer token issued for a claims record under a secret.
pub open spec fn bearer_token_bytes(c: ClaimsView, secret: Seq<u8>) -> Seq<u8> {
    jwt_msg_bytes(c) + seq![0x2eu8] + hs512_sig_of(secret, jwt_msg_bytes(c))
}

/// The cookie value issued for a claims record under a secret.
pub open spec fn cookie_value_bytes(c: ClaimsView, secret: Seq<u8>) -> Seq<u8> {
    b64_enc(payload_bytes(c)) + seq![0x2eu8] + hs512_sig_of(secret, b64_enc(payload_bytes(c)))
}

/// ASCII whitespace, as trimmed around a bearer header value.
pub open spec fn is_ws(b: u8) -> bool {
    b == 0x20 || b == 0x09 || b == 0x0a || b == 0x0d
}

/// `Bearer ` — the scheme prefix stripped off a header value.
pub open spec fn bearer_prefix() -> Seq<u8> {
    seq![0x42u8, 0x65u8, 0x61u8, 0x72u8, 0x65u8, 0x72u8, 0x20u8]
}

/// Strip every leading `Bearer ` prefix.
pub open spec fn strip_bearer_prefix(s: Seq<u8>) -> Seq<u8>
    decreases s.len(),
{
    if s.len() >= 7 && s.subrange(0, 7) == bearer_prefix() {
        strip_bearer_prefix(s.skip(7))
    } else {
        s
    }
}

/// Drop leading ASCII whitespace.
pub open spec fn trim_front(s: Seq<u8>) -> Seq<u8>
    decreases s.len(),
{
    if s.len() > 0 && is_ws(s[0]) {
        trim_front(s.skip(1))
    } else {
        s
    }
}

/// Drop trailing ASCII whitespace.
pub open spec fn trim_back(s: Seq<u8>) -> Seq<u8>
    decreases s.len(),
{
    if s.len() > 0 && is_ws(s.last()) {
        trim_back(s.drop_last())
    } else {
        s
    }
}

/// What a bearer header value reduces to before verification. The
/// whitespace stripped is the ASCII set above — enough for an HTTP
/// header value, where no other whitespace can appear.
pub open spec fn strip_token(s: Seq<u8>) -> Seq<u8> {
    trim_back(trim_front(strip_bearer_prefix(s)))
}

/// Reduce a bearer header value to the token proper: strip the scheme
/// prefix, then surrounding whitespace.
fn strip_token_exec(bytes: &Vec<u8>) -> (t: Vec<u8>)
    ensures
        t@ =~= strip_token(bytes@),
{
    let n = bytes.len();
    let mut start: usize = 0;
    proof {
        assert(bytes@.skip(0) =~= bytes@);
    }
    while n - start >= 7 && bytes[start] == 0x42 && bytes[start + 1] == 0x65 && bytes[start + 2]
        == 0x61 && bytes[start + 3] == 0x72 && bytes[start + 4] == 0x65 && bytes[start + 5]
        == 0x72 && bytes[start + 6] == 0x20
        invariant
            start <= n,
            n == bytes@.len(),
            strip_bearer_prefix(bytes@) == strip_bearer_prefix(bytes@.skip(start as int)),
        decreases n - start,
    {
        proof {
            let rest = bytes@.skip(start as int);
            assert(rest.len() >= 7);
            assert(rest.subrange(0, 7) =~= bearer_prefix()) by {
                assert forall|i: int| 0 <= i < 7 implies rest.subrange(0, 7)[i]
                    == bearer_prefix()[i] by {
                    assert(rest[i] == bytes@[start + i]);
                }
            }
            assert(rest.skip(7) =~= bytes@.skip(start + 7));
        }
        start = start + 7;
    }
    proof {
        let rest = bytes@.skip(start as int);
        if rest.len() >= 7 {
            assert(rest.subrange(0, 7) != bearer_prefix()) by {
                if rest.subrange(0, 7) == bearer_prefix() {
                    assert(bytes@[start + 0] == rest.subrange(0, 7)[0]);
                    assert(bytes@[start + 1] == rest.subrange(0, 7)[1]);
                    assert(bytes@[start + 2] == rest.subrange(0, 7)[2]);
                    assert(bytes@[start + 3] == rest.subrange(0, 7)[3]);
                    assert(bytes@[start + 4] == rest.subrange(0, 7)[4]);
                    assert(bytes@[start + 5] == rest.subrange(0, 7)[5]);
                    assert(bytes@[start + 6] == rest.subrange(0, 7)[6]);
                }
            }
        }
        assert(strip_bearer_prefix(bytes@) == bytes@.skip(start as int));
    }
    let ghost stripped = bytes@.skip(start as int);
    while start < n && (bytes[start] == 0x20 || bytes[start] == 0x09 || bytes[start] == 0x0a
        || bytes[start] == 0x0d)
        invariant
            start <= n,
            n == bytes@.len(),
            trim_front(stripped) == trim_front(bytes@.skip(start as int)),
        decreases n - start,
    {
        proof {
            let rest = bytes@.skip(start as int);
            assert(rest[0] == bytes@[start as int]);
            assert(rest.skip(1) =~= bytes@.skip(start + 1));
        }
        start = start + 1;
    }
    proof {
        let rest = bytes@.skip(start as int);
        if rest.len() > 0 {
            assert(rest[0] == bytes@[start as int]);
        }
        assert(trim_front(stripped) == bytes@.skip(start as int));
    }
    let ghost fronted = bytes@.skip(start as int);
    let mut end: usize = n;
    proof {
        assert(bytes@.skip(start as int).take(n - start) =~= fronted);
    }
    while end > start && (bytes[end - 1] == 0x20 || bytes[end - 1] == 0x09 || bytes[end - 1]
        == 0x0a || bytes[end - 1] == 0x0d)
        invariant
            start <= end <= n,
            n == bytes@.len(),
            trim_back(fronted) == trim_back(bytes@.skip(start as int).take(end - start)),
        decreases end,
    {
        proof {
            let cur = bytes@.skip(start as int).take(end - start);
            assert(cur.last() == bytes@[end - 1]);
            assert(cur.drop_last() =~= bytes@.skip(start as int).take(end - 1 - start));
        }
        end = end - 1;
    }
    proof {
        let cur = bytes@.skip(start as int).take(end - start);
        if cur.len() > 0 {
            assert(cur.last() == bytes@[end - 1]);
        }
        assert(trim_back(fronted) == cur);
    }
    let mut t: Vec<u8> = Vec::new();
    let mut i = start;
    while i < end
        invariant
            start <= i <= end <= n,
            n == bytes@.len(),
            t@ =~= bytes@.subrange(start as int, i as int),
        decreases end - i,
    {
        t.push(bytes[i]);
        proof {
            assert(t@ =~= bytes@.subrange(start as int, i + 1));
        }
        i = i + 1;
    }
    proof {
        assert(bytes@.subrange(start as int, end as int) =~= bytes@.skip(start as int).take(
            end - start,
        ));
        assert(t@ =~= strip_token(bytes@));
    }
    t
}

/// End of the dot-free segment that starts at `pos`: the index of the
/// next `.`, or the end of the string.
pub open spec fn seg_end(s: Seq<u8>, pos: int) -> int
    decreases s.len() - pos,
{
    if pos < 0 || pos >= s.len() || s[pos] == 0x2e {
        pos
    } else {
        seg_end(s, pos + 1)
    }
}

pub proof fn lemma_seg_end_bounds(s: Seq<u8>, pos: int)
    requires
        0 <= pos <= s.len(),
    ensures
        pos <= seg_end(s, pos) <= s.len(),
        forall|i: int| pos <= i < seg_end(s, pos) ==> #[trigger] s[i] != 0x2e,
        seg_end(s, pos) == s.len() || s[seg_end(s, pos)] == 0x2e,
    decreases s.len() - pos,
{
    if pos < s.len() && s[pos] != 0x2e {
        lemma_seg_end_bounds(s, pos + 1);
    }
}

/// A dot-free stretch that visibly ends at `q` is what `seg_end` computes.
pub proof fn lemma_seg_end(s: Seq<u8>, pos: int, q: int)
    requires
        0 <= pos <= q <= s.len(),
        forall|i: int| pos <= i < q ==> #[trigger] s[i] != 0x2e,
        q == s.len() || s[q] == 0x2e,
    ensures
        seg_end(s, pos) == q,
    decreases q - pos,
{
    if pos < q {
        lemma_seg_end(s, pos + 1, q);
    }
}

/// A stripped bearer value has the right shape: exactly three dot-free
/// segments, the first being the pinned header.
pub open spec fn bearer_shape_ok(t: Seq<u8>) -> bool {
    let d1 = seg_end(t, 0);
    let d2 = seg_end(t, d1 + 1);
    &&& d1 < t.len()
    &&& d2 < t.len()
    &&& seg_end(t, d2 + 1) == t.len()
    &&& t.subrange(0, d1) == b64_enc(jwt_header_bytes())
}

/// The signed part of a well-shaped bearer value.
pub open spec fn bearer_msg_of(t: Seq<u8>) -> Seq<u8> {
    t.take(seg_end(t, seg_end(t, 0) + 1))
}

/// The signature segment equals the tag of the signed part.
pub open spec fn bearer_sig_ok(t: Seq<u8>, secret: Seq<u8>) -> bool {
    t.subrange(seg_end(t, seg_end(t, 0) + 1) + 1, t.len() as int) == hs512_sig_of(
        secret,
        bearer_msg_of(t),
    )
}

/// The claims carried by a well-shaped bearer value, if its payload
/// segment decodes.
pub open spec fn bearer_payload_of(t: Seq<u8>) -> Option<ClaimsView> {
    let d1 = seg_end(t, 0);
    let d2 = seg_end(t, d1 + 1);
    match b64_dec(t.subrange(d1 + 1, d2)) {
        Option::Some(pb) => payload_parse(pb),
        Option::None => Option::None,
    }
}

/// A cookie value has the right shape: a payload segment, a dot, and a
/// trailing dot-free signature.
pub open spec fn cookie_shape_ok(t: Seq<u8>) -> bool {
    let d1 = seg_end(t, 0);
    &&& d1 < t.len()
    &&& seg_end(t, d1 + 1) == t.len()
}

pub open spec fn cookie_sig_ok(t: Seq<u8>, secret: Seq<u8>) -> bool {
    t.subrange(seg_end(t, 0) + 1, t.len() as int) == hs512_sig_of(secret, t.take(seg_end(t, 0)))
}

pub open spec fn cookie_payload_of(t: Seq<u8>) -> Option<ClaimsView> {
    match b64_dec(t.take(seg_end(t, 0))) {
        Option::Some(pb) => payload_parse(pb),
        Option::None => Option::None,
    }
}

/// Index of the first `.` at or after `pos`, or the length.
fn find_dot(v: &Vec<u8>, pos: usize) -> (d: usize)
    requires
        pos <= v@.len(),
    ensures
        d == seg_end(v@, pos as int),
        pos <= d <= v@.len(),
{
    proof {
        lemma_seg_end_bounds(v@, pos as int);
    }
    let n = v.len();
    let mut i = pos;
    while i < n && v[i] != 0x2e
        invariant
            pos <= i <= n,
            n == v@.len(),
            forall|j: int| pos <= j < i ==> #[trigger] v@[j] != 0x2e,
        decreases n - i,
    {
        i = i + 1;
    }
    proof {
        lemma_seg_end(v@, pos as int, i as int);
    }
    i
}

/// Copy `v[a..b]` out.
fn copy_range(v: &Vec<u8>, a: usize, b: usize) -> (out: Vec<u8>)
    requires
        a <= b <= v@.len(),
    ensures
        out@ =~= v@.subrange(a as int, b as int),
{
    let mut out: Vec<u8> = Vec::new();
    let mut i = a;
    while i < b
        invariant
            a <= i <= b <= v@.len(),
            out@ =~= v@.subrange(a as int, i as int),
        decreases b - i,
    {
        out.push(v[i]);
        proof {
            assert(out@ =~= v@.subrange(a as int, i + 1));
        }
        i = i + 1;
    }
    out
}

/// Verify and decode a bearer header value under the pinned algorithm.
///
/// The value is reduced by [`strip_token`] first; a broken shape or an
/// unknown header yields `Malformed`, a wrong tag `BadSignature`.
pub fn decode_bearer(token: &str, secret: &Vec<u8>) -> (r: Result<UserGuard, CodecError>)
    ensures
        ({
            let t = strip_token(token.spec_bytes());
            match r {
                Result::Ok(g) => {
                    &&& bearer_shape_ok(t)
                    &&& bearer_sig_ok(t, secret@)
                    &&& bearer_payload_of(t) == Option::Some(g@)
                    &&& claims_wf(g@)
                },
                Result::Err(e) => {
                    &&& (e == CodecError::BadSignature <==> bearer_shape_ok(t)
                        && !bearer_sig_ok(t, secret@))
                    &&& (e == CodecError::Malformed <==> !bearer_shape_ok(t) || (bearer_sig_ok(
                        t,
                        secret@,
                    ) && bearer_payload_of(t) is None))
                    &&& e != CodecError::Tamper
                },
            }
        }),
{
    let bytes = token.as_bytes_vec();
    let t = strip_token_exec(&bytes);
    let n = t.len();
    let d1 = find_dot(&t, 0);
    if d1 == n {
        return Result::Err(CodecError::Malformed);
    }
    let d2 = find_dot(&t, d1 + 1);
    if d2 == n {
        return Result::Err(CodecError::Malformed);
    }
    let d3 = find_dot(&t, d2 + 1);
    if d3 != n {
        proof {
            lemma_seg_end_bounds(t@, d2 + 1);
        }
        return Result::Err(CodecError::Malformed);
    }
    let hb = b64_encode(&jwt_header_vec());
    if d1 != hb.len() {
        proof {
            assert(t@.subrange(0, d1 as int).len() != b64_enc(jwt_header_bytes()).len());
        }
        return Result::Err(CodecError::Malformed);
    }
    let mut i: usize = 0;
    while i < d1
        invariant
            0 <= i <= d1 <= t@.len(),
            n == t@.len(),
            t@ =~= strip_token(token.spec_bytes()),
            d1 == seg_end(t@, 0) && d1 < n,
            d2 == seg_end(t@, d1 + 1) && d2 < n,
            seg_end(t@, d2 + 1) == n,
            d1 < d2,
            d1 == hb@.len(),
            hb@ =~= b64_enc(jwt_header_bytes()),
            forall|j: int| 0 <= j < i ==> t@[j] == hb@[j],
        decreases d1 - i,
    {
        if t[i] != hb[i] {
            proof {
                assert(t@.subrange(0, d1 as int)[i as int] != b64_enc(jwt_header_bytes())[
                    i as int
                ]);
            }
            return Result::Err(CodecError::Malformed);
        }
        i = i + 1;
    }
    proof {
        assert(t@.subrange(0, d1 as int) =~= b64_enc(jwt_header_bytes()));
        assert(bearer_shape_ok(t@));
    }
    let msg = copy_range(&t, 0, d2);
    let sig = copy_range(&t, d2 + 1, n);
    proof {
        assert(msg@ =~= t@.take(d2 as int));
    }
    if !hs512_verify(&sig, &msg, secret) {
        return Result::Err(CodecError::BadSignature);
    }
    let pl = copy_range(&t, d1 + 1, d2);
    let pb = match b64_decode(&pl) {
        Option::Some(pb) => pb,
        Option::None => {
            return Result::Err(CodecError::Malformed);
        },
    };
    match payload_decode(&pb) {
        Option::Some(g) => Result::Ok(g),
        Option::None => Result::Err(CodecError::Malformed),
    }
}

/// Verify and decode a cookie value; any failure is `Tamper`.
pub fn decode_cookie(value: &str, secret: &Vec<u8>) -> (r: Result<UserGuard, CodecError>)
    ensures
        ({
            let t = value.spec_bytes();
            match r {
                Result::Ok(g) => {
                    &&& cookie_shape_ok(t)
                    &&& cookie_sig_ok(t, secret@)
                    &&& cookie_payload_of(t) == Option::Some(g@)
                    &&& claims_wf(g@)
                },
                Result::Err(e) => {
                    &&& e == CodecError::Tamper
                    &&& !(cookie_shape_ok(t) && cookie_sig_ok(t, secret@) && cookie_payload_of(t)
                        is Some)
                },
            }
        }),
{
    let t = value.as_bytes_vec();
    let n = t.len();
    let d1 = find_dot(&t, 0);
    if d1 == n {
        return Result::Err(CodecError::Tamper);
    }
    let d2 = find_dot(&t, d1 + 1);
    if d2 != n {
        proof {
            lemma_seg_end_bounds(t@, d1 + 1);
        }
        return Result::Err(CodecError::Tamper);
    }
    let pl = copy_range(&t, 0, d1);
    let sig = copy_range(&t, d1 + 1, n);
    proof {
        assert(pl@ =~= t@.take(d1 as int));
    }
    if !hs512_verify(&sig, &pl, secret) {
        return Result::Err(CodecError::Tamper);
    }
    let pb = match b64_decode(&pl) {
        Option::Some(pb) => pb,
        Option::None => {
            return Result::Err(CodecError::Tamper);
        },
    };
    match payload_decode(&pb) {
        Option::Some(g) => Result::Ok(g),
        Option::None => Result::Err(CodecError::Tamper),
    }
}

/// Produce the bearer token for a claims record: pinned header, payload,
/// HMAC-SHA-512 tag.
pub fn encode_bearer(g: &UserGuard, secret: &Vec<u8>) -> (token: String)
    requires
        claims_wf(g@),
    ensures
        is_ascii_chars(token@),
        ascii_bytes_of(token@) =~= bearer_token_bytes(g@, secret@),
        hs512_sig_of(secret@, jwt_msg_bytes(g@)).len() == 86,
        forall|i: int|
            0 <= i < hs512_sig_of(secret@, jwt_msg_bytes(g@)).len() ==> is_b64_byte(
                #[trigger] hs512_sig_of(secret@, jwt_msg_bytes(g@))[i],
            ),
{
    let hb = b64_encode(&jwt_header_vec());
    let pb = b64_encode(&payload_encode(g));
    let mut msg = hb;
    msg.push(0x2e);
    let mut pb2 = pb;
    msg.append(&mut pb2);
    proof {
        assert(msg@ =~= jwt_msg_bytes(g@));
    }
    let sig = hs512_sign(secret, &msg);
    let mut tok = msg;
    tok.push(0x2e);
    let mut sig2 = sig;
    tok.append(&mut sig2);
    proof {
        assert(tok@ =~= bearer_token_bytes(g@, secret@));
        lemma_b64_enc_alphabet(jwt_header_bytes());
        lemma_b64_enc_alphabet(payload_bytes(g@));
        assert(all_ascii(tok@)) by {
            assert forall|i: int| 0 <= i < tok@.len() implies tok@[i] < 0x80 by {
                let hlen = b64_enc(jwt_header_bytes()).len() as int;
                let plen = b64_enc(payload_bytes(g@)).len() as int;
                if i < hlen {
                    assert(tok@[i] == b64_enc(jwt_header_bytes())[i]);
                    assert(is_b64_byte(tok@[i]));
                } else if i == hlen {
                    assert(tok@[i] == 0x2e);
                } else if i < hlen + 1 + plen {
                    assert(tok@[i] == b64_enc(payload_bytes(g@))[i - hlen - 1]);
                    assert(is_b64_byte(tok@[i]));
                } else if i == hlen + 1 + plen {
                    assert(tok@[i] == 0x2e);
                } else {
                    assert(tok@[i] == hs512_sig_of(secret@, jwt_msg_bytes(g@))[i - (hlen + 1
                        + plen) - 1]);
                    assert(is_b64_byte(tok@[i]));
                }
            }
        }
    }
    let token = string_from_ascii(tok);
    proof {
        crate::ascii::lemma_chars_of_bytes_roundtrip(bearer_token_bytes(g@, secret@));
    }
    token
}

/// Produce the integrity-protected cookie value for a claims record.
pub fn encode_cookie(g: &UserGuard, secret: &Vec<u8>) -> (value: String)
    requires
        claims_wf(g@),
    ensures
        is_ascii_chars(value@),
        ascii_bytes_of(value@) =~= cookie_value_bytes(g@, secret@),
        hs512_sig_of(secret@, b64_enc(payload_bytes(g@))).len() == 86,
        forall|i: int|
            0 <= i < hs512_sig_of(secret@, b64_enc(payload_bytes(g@))).len() ==> is_b64_byte(
                #[trigger] hs512_sig_of(secret@, b64_enc(payload_bytes(g@)))[i],
            ),
{
    let pb = b64_encode(&payload_encode(g));
    let sig = hs512_sign(secret, &pb);
    let mut out = pb;
    out.push(0x2e);
    let mut sig2 = sig;
    out.append(&mut sig2);
    proof {
        assert(out@ =~= cookie_value_bytes(g@, secret@));
        lemma_b64_enc_alphabet(payload_bytes(g@));
        assert(all_ascii(out@)) by {
            assert forall|i: int| 0 <= i < out@.len() implies out@[i] < 0x80 by {
                let plen = b64_enc(payload_bytes(g@)).len() as int;
                if i < plen {
                    assert(out@[i] == b64_enc(payload_bytes(g@))[i]);
                    assert(is_b64_byte(out@[i]));
                } else if i == plen {
                    assert(out@[i] == 0x2e);
                } else {
                    assert(out@[i] == hs512_sig_of(secret@, b64_enc(payload_bytes(g@)))[i - plen
                        - 1]);
                    assert(is_b64_byte(out@[i]));
                }
            }
        }
    }
    let value = string_from_ascii(out);
    proof {
        crate::ascii::lemma_chars_of_bytes_roundtrip(cookie_value_bytes(g@, secret@));
    }
    value
}


/// Structure of `b64(header).b64(payload).sig` for any dot-free `sig`:
/// stripping leaves it alone, its shape is accepted, its signed part and
/// payload are recovered exactly.
#[verifier::rlimit(90)]
proof fn lemma_bearer_structure(c: ClaimsView, sig: Seq<u8>)
    requires
        claims_wf(c),
        i32::MIN <= c.id <= i32::MAX,
        i64::MIN <= c.exp <= i64::MAX,
        forall|i: int| 0 <= i < sig.len() ==> is_b64_byte(#[trigger] sig[i]),
    ensures
        ({
            let t = jwt_msg_bytes(c) + seq![0x2eu8] + sig;
            &&& strip_token(t) == t
            &&& bearer_shape_ok(t)
            &&& bearer_msg_of(t) == jwt_msg_bytes(c)
            &&& t.subrange(seg_end(t, seg_end(t, 0) + 1) + 1, t.len() as int) == sig
            &&& bearer_payload_of(t) == Option::Some(c)
        }),
{
    let hb = b64_enc(jwt_header_bytes());
    let pb = b64_enc(payload_bytes(c));
    let hlen = hb.len() as int;
    let plen = pb.len() as int;
    let msg = jwt_msg_bytes(c);
    let t = msg + seq![0x2eu8] + sig;
    lemma_b64_enc_alphabet(jwt_header_bytes());
    lemma_b64_enc_alphabet(payload_bytes(c));
    crate::b64::lemma_b64_enc_len(jwt_header_bytes());
    crate::b64::lemma_b64_enc_len(payload_bytes(c));
    assert(hlen == 36);
    assert(plen >= 2);
    assert(t.len() == hlen + 1 + plen + 1 + sig.len());

    assert forall|i: int| 0 <= i < hlen implies t[i] == hb[i] && is_b64_byte(#[trigger] t[i]) by {
        assert(t[i] == hb[i]);
    }
    assert(t[hlen] == 0x2e);
    assert forall|i: int| hlen + 1 <= i < hlen + 1 + plen implies is_b64_byte(#[trigger] t[i])
        && t[i] == pb[i - hlen - 1] by {
        assert(t[i] == pb[i - hlen - 1]);
    }
    assert(t[hlen + 1 + plen] == 0x2e);
    assert forall|i: int| hlen + 1 + plen + 1 <= i < t.len() implies is_b64_byte(
        #[trigger] t[i],
    ) && t[i] == sig[i - (hlen + 1 + plen + 1)] by {
        assert(t[i] == sig[i - (hlen + 1 + plen + 1)]);
    }

    // Stripping leaves the token alone.
    assert(t[0] == hb[0]);
    assert(jwt_header_bytes().len() >= 3);
    assert(hb == crate::b64::enc3(
        jwt_header_bytes()[0],
        jwt_header_bytes()[1],
        jwt_header_bytes()[2],
    ) + b64_enc(jwt_header_bytes().skip(3)));
    assert(hb[0] == crate::b64::enc3(
        jwt_header_bytes()[0],
        jwt_header_bytes()[1],
        jwt_header_bytes()[2],
    )[0]);
    assert(jwt_header_bytes()[0] == 0x7b);
    assert(0x7bu8 >> 2 == 30u8) by (bit_vector);
    assert(hb[0] == crate::b64::b64_char(30u8));
    assert(hb[0] == 0x65);
    assert(t.len() >= 7);
    assert(t.subrange(0, 7)[0] == t[0]);
    assert(bearer_prefix()[0] == 0x42);
    assert(t.subrange(0, 7) != bearer_prefix());
    assert(strip_bearer_prefix(t) == t);
    assert(!is_ws(t[0]));
    assert(trim_front(t) == t);
    assert(t.last() != 0x2e ==> is_b64_byte(t.last()));
    assert(!is_ws(t.last()));
    assert(trim_back(t) == t);

    // Dots sit exactly at the segment boundaries.
    assert forall|i: int| 0 <= i < hlen implies #[trigger] t[i] != 0x2e by {
        assert(is_b64_byte(t[i]));
    }
    lemma_seg_end(t, 0, hlen);
    assert forall|i: int| hlen + 1 <= i < hlen + 1 + plen implies #[trigger] t[i] != 0x2e by {
        assert(is_b64_byte(t[i]));
    }
    lemma_seg_end(t, hlen + 1, hlen + 1 + plen);
    assert forall|i: int| hlen + 1 + plen + 1 <= i < t.len() implies #[trigger] t[i]
        != 0x2e by {
        assert(is_b64_byte(t[i]));
    }
    lemma_seg_end(t, hlen + 1 + plen + 1, t.len() as int);
    let d1 = seg_end(t, 0);
    let d2 = seg_end(t, d1 + 1);
    assert(d1 == hlen && d2 == hlen + 1 + plen);
    assert(t.subrange(0, d1) =~= hb);
    assert(bearer_shape_ok(t));
    assert(t.take(d2) =~= msg);
    assert(t.subrange(d2 + 1, t.len() as int) =~= sig);

    // The payload segment decodes back to the claims.
    assert(t.subrange(d1 + 1, d2) =~= pb);
    crate::b64::lemma_b64_roundtrip(payload_bytes(c));
    crate::payload::lemma_payload_roundtrip(c);
}

/// Decoding inverts encoding for the bearer transport: the token issued
/// for a well-formed claims record strips to itself, passes the shape and
/// signature checks, and carries exactly those claims. The hypothesis on
/// the signature restates what the signing primitive guarantees of every
/// tag (see [`crate::hs512::hs512_sign`]): its bytes sit in the base64url
/// alphabet.
pub proof fn lemma_bearer_roundtrip(c: ClaimsView, secret: Seq<u8>)
    requires
        claims_wf(c),
        i32::MIN <= c.id <= i32::MAX,
        i64::MIN <= c.exp <= i64::MAX,
        forall|i: int|
            0 <= i < hs512_sig_of(secret, jwt_msg_bytes(c)).len() ==> is_b64_byte(
                #[trigger] hs512_sig_of(secret, jwt_msg_bytes(c))[i],
            ),
    ensures
        strip_token(bearer_token_bytes(c, secret)) == bearer_token_bytes(c, secret),
        bearer_shape_ok(bearer_token_bytes(c, secret)),
        bearer_sig_ok(bearer_token_bytes(c, secret), secret),
        bearer_payload_of(bearer_token_bytes(c, secret)) == Option::Some(c),
{
    lemma_bearer_structure(c, hs512_sig_of(secret, jwt_msg_bytes(c)));
}

/// Replacing the signature segment of a valid token with anything else
/// still passes the shape check but fails signature verification: the
/// decoder reports `BadSignature`, never success.
pub proof fn lemma_bearer_tampered_sig(c: ClaimsView, secret: Seq<u8>, sig2: Seq<u8>)
    requires
        claims_wf(c),
        i32::MIN <= c.id <= i32::MAX,
        i64::MIN <= c.exp <= i64::MAX,
        sig2 != hs512_sig_of(secret, jwt_msg_bytes(c)),
        forall|i: int| 0 <= i < sig2.len() ==> is_b64_byte(#[trigger] sig2[i]),
    ensures
        ({
            let t = jwt_msg_bytes(c) + seq![0x2eu8] + sig2;
            &&& strip_token(t) == t
            &&& bearer_shape_ok(t)
            &&& !bearer_sig_ok(t, secret)
        }),
{
    lemma_bearer_structure(c, sig2);
}

/// Decoding inverts encoding for the cookie transport, under the same
/// signature hypothesis as the bearer round trip.
#[verifier::rlimit(90)]
pub proof fn lemma_cookie_roundtrip(c: ClaimsView, secret: Seq<u8>)
    requires
        claims_wf(c),
        i32::MIN <= c.id <= i32::MAX,
        i64::MIN <= c.exp <= i64::MAX,
        forall|i: int|
            0 <= i < hs512_sig_of(secret, b64_enc(payload_bytes(c))).len() ==> is_b64_byte(
                #[trigger] hs512_sig_of(secret, b64_enc(payload_bytes(c)))[i],
            ),
    ensures
        cookie_shape_ok(cookie_value_bytes(c, secret)),
        cookie_sig_ok(cookie_value_bytes(c, secret), secret),
        cookie_payload_of(cookie_value_bytes(c, secret)) == Option::Some(c),
{
    let pb = b64_enc(payload_bytes(c));
    let plen = pb.len() as int;
    let sig = hs512_sig_of(secret, pb);
    let t = cookie_value_bytes(c, secret);
    lemma_b64_enc_alphabet(payload_bytes(c));
    crate::b64::lemma_b64_enc_len(payload_bytes(c));
    assert(t.len() == plen + 1 + sig.len());
    assert forall|i: int| 0 <= i < plen implies t[i] == pb[i] && is_b64_byte(
        #[trigger] t[i],
    ) by {
        assert(t[i] == pb[i]);
    }
    assert(t[plen] == 0x2e);
    assert forall|i: int| plen + 1 <= i < t.len() implies is_b64_byte(#[trigger] t[i]) by {
        assert(t[i] == sig[i - plen - 1]);
    }
    assert forall|i: int| 0 <= i < plen implies #[trigger] t[i] != 0x2e by {
        assert(is_b64_byte(t[i]));
    }
    lemma_seg_end(t, 0, plen);
    assert forall|i: int| plen + 1 <= i < t.len() implies #[trigger] t[i] != 0x2e by {
        assert(is_b64_byte(t[i]));
    }
    lemma_seg_end(t, plen + 1, t.len() as int);
    let d1 = seg_end(t, 0);
    assert(d1 == plen);
    assert(t.take(d1) =~= pb);
    assert(t.subrange(d1 + 1, t.len() as int) =~= sig);
    assert(cookie_shape_ok(t));
    assert(cookie_sig_ok(t, secret));
    crate::b64::lemma_b64_roundtrip(payload_bytes(c));
    crate::payload::lemma_payload_roundtrip(c);
}


impl UserGuard {
    /// Issue a bearer token for this record, refreshing its expiry to one
    /// TTL past `now` first.
    pub fn create_jwt(self, secret: &Vec<u8>, now: i64) -> (token: String)
        requires
            claims_wf(self@),
            now + crate::SESSION_TTL_SECONDS <= i64::MAX,
        ensures
            ({
                let c = ClaimsView {
                    id: self@.id,
                    username: self@.username,
                    exp: now + crate::SESSION_TTL_SECONDS,
                };
                &&& is_ascii_chars(token@)
                &&& ascii_bytes_of(token@) =~= bearer_token_bytes(c, secret@)
                &&& forall|i: int|
                    0 <= i < hs512_sig_of(secret@, jwt_msg_bytes(c)).len() ==> is_b64_byte(
                        #[trigger] hs512_sig_of(secret@, jwt_msg_bytes(c))[i],
                    )
            }),
    {
        let mut g = self;
        g.set_expiry(crate::default_expiration(now));
        encode_bearer(&g, secret)
    }

    /// Verify and decode a bearer header value; same contract as
    /// [`decode_bearer`].
    pub fn decode_jwt(token: &str, secret: &Vec<u8>) -> (r: Result<UserGuard, CodecError>)
        ensures
            ({
                let t = strip_token(token.spec_bytes());
                match r {
                    Result::Ok(g) => {
                        &&& bearer_shape_ok(t)
                        &&& bearer_sig_ok(t, secret@)
                        &&& bearer_payload_of(t) == Option::Some(g@)
                        &&& claims_wf(g@)
                    },
                    Result::Err(e) => {
                        &&& (e == CodecError::BadSignature <==> bearer_shape_ok(t)
                            && !bearer_sig_ok(t, secret@))
                        &&& (e == CodecError::Malformed <==> !bearer_shape_ok(t) || (
                        bearer_sig_ok(t, secret@) && bearer_payload_of(t) is None))
                        &&& e != CodecError::Tamper
                    },
                }
            }),
    {
        decode_bearer(token, secret)
    }
}

} // verus!
