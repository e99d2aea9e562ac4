//! Base64url without padding, the segment encoding of both wire forms.
//!
//! Encoding is total; decoding accepts only canonical encodings (correct
//! length remainder, zeroed leftover bits) and inverts encoding exactly.

use vstd::prelude::*;

verus! {

/// The base64url alphabet byte for a sextet value.
pub open spec fn b64_char(v: u8) -> u8 {
    if v < 26 {
        (0x41 + v) as u8
    } else if v < 52 {
        (0x61 + (v - 26)) as u8
    } else if v < 62 {
        (0x30 + (v - 52)) as u8
    } else if v == 62 {
        0x2d
    } else {
        0x5f
    }
}

/// Membership in the base64url alphabet.
pub open spec fn is_b64_byte(c: u8) -> bool {
    ||| 0x41 <= c <= 0x5a
    ||| 0x61 <= c <= 0x7a
    ||| 0x30 <= c <= 0x39
    ||| c == 0x2d
    ||| c == 0x5f
}

/// The sextet value of an alphabet byte; 64 marks a byte outside it.
pub open spec fn sextet_of(c: u8) -> u8 {
    if 0x41 <= c <= 0x5a {
        (c - 0x41) as u8
    } else if 0x61 <= c <= 0x7a {
        ((c - 0x61) + 26) as u8
    } else if 0x30 <= c <= 0x39 {
        ((c - 0x30) + 52) as u8
    } else if c == 0x2d {
        62
    } else if c == 0x5f {
        63
    } else {
        64
    }
}

pub proof fn lemma_b64_char_inverse(v: u8)
    requires
        v < 64,
    ensures
        is_b64_byte(b64_char(v)),
        sextet_of(b64_char(v)) == v,
{
}

/// The four alphabet bytes encoding a three-byte group.
pub open spec fn enc3(b0: u8, b1: u8, b2: u8) -> Seq<u8> {
    seq![
        b64_char(b0 >> 2),
        b64_char((((b0 & 3) << 4) | (b1 >> 4)) as u8),
        b64_char((((b1 & 15) << 2) | (b2 >> 6)) as u8),
        b64_char((b2 & 63) as u8),
    ]
}

/// The base64url encoding of a byte string, front group first.
pub open spec fn b64_enc(s: Seq<u8>) -> Seq<u8>
    decreases s.len(),
{
    if s.len() == 0 {
        Seq::empty()
    } else if s.len() == 1 {
        seq![b64_char(s[0] >> 2), b64_char(((s[0] & 3) << 4) as u8)]
    } else if s.len() == 2 {
        seq![
            b64_char(s[0] >> 2),
            b64_char((((s[0] & 3) << 4) | (s[1] >> 4)) as u8),
            b64_char(((s[1] & 15) << 2) as u8),
        ]
    } else {
        enc3(s[0], s[1], s[2]) + b64_enc(s.skip(3))
    }
}

/// The canonical decoding of a base64url string, when there is one.
pub open spec fn b64_dec(s: Seq<u8>) -> Option<Seq<u8>>
    decreases s.len(),
{
    if s.len() == 0 {
        Option::Some(Seq::empty())
    } else if s.len() == 1 {
        Option::None
    } else if s.len() == 2 {
        let x0 = sextet_of(s[0]);
        let x1 = sextet_of(s[1]);
        if x0 < 64 && x1 < 64 && (x1 & 0x0f) == 0 {
            Option::Some(seq![(((x0 << 2) | (x1 >> 4)) as u8)])
        } else {
            Option::None
        }
    } else if s.len() == 3 {
        let x0 = sextet_of(s[0]);
        let x1 = sextet_of(s[1]);
        let x2 = sextet_of(s[2]);
        if x0 < 64 && x1 < 64 && x2 < 64 && (x2 & 0x03) == 0 {
            Option::Some(
                seq![
                    (((x0 << 2) | (x1 >> 4)) as u8),
                    ((((x1 & 0x0f) << 4) | (x2 >> 2)) as u8),
                ],
            )
        } else {
            Option::None
        }
    } else {
        let x0 = sextet_of(s[0]);
        let x1 = sextet_of(s[1]);
        let x2 = sextet_of(s[2]);
        let x3 = sextet_of(s[3]);
        if x0 < 64 && x1 < 64 && x2 < 64 && x3 < 64 {
            match b64_dec(s.skip(4)) {
                Option::Some(t) => Option::Some(
                    seq![
                        (((x0 << 2) | (x1 >> 4)) as u8),
                        ((((x1 & 0x0f) << 4) | (x2 >> 2)) as u8),
                        ((((x2 & 0x03) << 6) | x3) as u8),
                    ] + t,
                ),
                Option::None => Option::None,
            }
        } else {
            Option::None
        }
    }
}

/// Splitting off a full three-byte group and its recovery.
proof fn lemma_group_bits(b0: u8, b1: u8, b2: u8)
    ensures
        (b0 >> 2) < 64,
        ((((b0 & 3) << 4) | (b1 >> 4)) as u8) < 64,
        ((((b1 & 15) << 2) | (b2 >> 6)) as u8) < 64,
        ((b2 & 63) as u8) < 64,
        ((((b0 >> 2) << 2) | ((((b0 & 3) << 4) | (b1 >> 4)) as u8 >> 4)) as u8) == b0,
        ((((((b0 & 3) << 4) | (b1 >> 4)) as u8 & 0x0f) << 4) | ((((b1 & 15) << 2) | (b2 >> 6))
            as u8 >> 2)) as u8 == b1,
        ((((((b1 & 15) << 2) | (b2 >> 6)) as u8 & 0x03) << 6) | ((b2 & 63) as u8)) as u8 == b2,
{
    assert((b0 >> 2) < 64 && ((((b0 & 3) << 4) | (b1 >> 4)) as u8) < 64 && ((((b1 & 15) << 2) | (
    b2 >> 6)) as u8) < 64 && ((b2 & 63) as u8) < 64 && ((((b0 >> 2) << 2) | ((((b0 & 3) << 4) | (
    b1 >> 4)) as u8 >> 4)) as u8) == b0 && ((((((b0 & 3) << 4) | (b1 >> 4)) as u8 & 0x0f) << 4)
        | ((((b1 & 15) << 2) | (b2 >> 6)) as u8 >> 2)) as u8 == b1 && ((((((b1 & 15) << 2) | (b2
        >> 6)) as u8 & 0x03) << 6) | ((b2 & 63) as u8)) as u8 == b2) by (bit_vector);
}

/// Bit facts for a trailing one-byte group.
proof fn lemma_tail1_bits(b0: u8)
    ensures
        (b0 >> 2) < 64,
        (((b0 & 3) << 4) as u8) < 64,
        ((((b0 & 3) << 4) as u8) & 0x0f) == 0,
        ((((b0 >> 2) << 2) | ((((b0 & 3) << 4) as u8) >> 4)) as u8) == b0,
{
    assert((b0 >> 2) < 64 && (((b0 & 3) << 4) as u8) < 64 && ((((b0 & 3) << 4) as u8) & 0x0f)
        == 0 && ((((b0 >> 2) << 2) | ((((b0 & 3) << 4) as u8) >> 4)) as u8) == b0)
        by (bit_vector);
}

/// Bit facts for a trailing two-byte group.
proof fn lemma_tail2_bits(b0: u8, b1: u8)
    ensures
        (b0 >> 2) < 64,
        ((((b0 & 3) << 4) | (b1 >> 4)) as u8) < 64,
        (((b1 & 15) << 2) as u8) < 64,
        ((((b1 & 15) << 2) as u8) & 0x03) == 0,
        ((((b0 >> 2) << 2) | ((((b0 & 3) << 4) | (b1 >> 4)) as u8 >> 4)) as u8) == b0,
        ((((((b0 & 3) << 4) | (b1 >> 4)) as u8 & 0x0f) << 4) | ((((b1 & 15) << 2) as u8) >> 2))
            as u8 == b1,
{
    assert((b0 >> 2) < 64 && ((((b0 & 3) << 4) | (b1 >> 4)) as u8) < 64 && (((b1 & 15) << 2)
        as u8) < 64 && ((((b1 & 15) << 2) as u8) & 0x03) == 0 && ((((b0 >> 2) << 2) | ((((b0 & 3)
        << 4) | (b1 >> 4)) as u8 >> 4)) as u8) == b0 && ((((((b0 & 3) << 4) | (b1 >> 4)) as u8
        & 0x0f) << 4) | ((((b1 & 15) << 2) as u8) >> 2)) as u8 == b1) by (bit_vector);
}

/// Decoding inverts encoding.
pub proof fn lemma_b64_roundtrip(s: Seq<u8>)
    ensures
        b64_dec(b64_enc(s)) == Option::Some(s),
    decreases s.len(),
{
    let e = b64_enc(s);
    if s.len() == 0 {
        assert(e.len() == 0);
        assert(b64_dec(e) == Option::Some(s)) by {
            assert(s =~= Seq::<u8>::empty());
        }
    } else if s.len() == 1 {
        lemma_tail1_bits(s[0]);
        lemma_b64_char_inverse(s[0] >> 2);
        lemma_b64_char_inverse(((s[0] & 3) << 4) as u8);
        assert(b64_dec(e)->Some_0 =~= s);
    } else if s.len() == 2 {
        lemma_tail2_bits(s[0], s[1]);
        lemma_b64_char_inverse(s[0] >> 2);
        lemma_b64_char_inverse((((s[0] & 3) << 4) | (s[1] >> 4)) as u8);
        lemma_b64_char_inverse(((s[1] & 15) << 2) as u8);
        assert(b64_dec(e)->Some_0 =~= s);
    } else {
        lemma_b64_roundtrip(s.skip(3));
        lemma_group_bits(s[0], s[1], s[2]);
        lemma_b64_char_inverse(s[0] >> 2);
        lemma_b64_char_inverse((((s[0] & 3) << 4) | (s[1] >> 4)) as u8);
        lemma_b64_char_inverse((((s[1] & 15) << 2) | (s[2] >> 6)) as u8);
        lemma_b64_char_inverse((s[2] & 63) as u8);
        assert(e == enc3(s[0], s[1], s[2]) + b64_enc(s.skip(3)));
        assert(e.len() >= 4 + if s.len() == 3 { 0int } else { 2int });
        assert(e.skip(4) =~= b64_enc(s.skip(3)));
        assert(e[0] == enc3(s[0], s[1], s[2])[0]);
        assert(e[1] == enc3(s[0], s[1], s[2])[1]);
        assert(e[2] == enc3(s[0], s[1], s[2])[2]);
        assert(e[3] == enc3(s[0], s[1], s[2])[3]);
        assert(b64_dec(e)->Some_0 =~= s) by {
            assert(b64_dec(e) is Some);
            assert(s =~= seq![s[0], s[1], s[2]] + s.skip(3));
        }
    }
}

/// Every byte of an encoding sits in the alphabet.
pub proof fn lemma_b64_enc_alphabet(s: Seq<u8>)
    ensures
        forall|i: int| 0 <= i < b64_enc(s).len() ==> is_b64_byte(#[trigger] b64_enc(s)[i]),
    decreases s.len(),
{
    if s.len() == 0 {
    } else if s.len() == 1 {
        lemma_tail1_bits(s[0]);
        lemma_b64_char_inverse(s[0] >> 2);
        lemma_b64_char_inverse(((s[0] & 3) << 4) as u8);
    } else if s.len() == 2 {
        lemma_tail2_bits(s[0], s[1]);
        lemma_b64_char_inverse(s[0] >> 2);
        lemma_b64_char_inverse((((s[0] & 3) << 4) | (s[1] >> 4)) as u8);
        lemma_b64_char_inverse(((s[1] & 15) << 2) as u8);
    } else {
        lemma_b64_enc_alphabet(s.skip(3));
        lemma_group_bits(s[0], s[1], s[2]);
        lemma_b64_char_inverse(s[0] >> 2);
        lemma_b64_char_inverse((((s[0] & 3) << 4) | (s[1] >> 4)) as u8);
        lemma_b64_char_inverse((((s[1] & 15) << 2) | (s[2] >> 6)) as u8);
        lemma_b64_char_inverse((s[2] & 63) as u8);
        assert forall|i: int| 0 <= i < b64_enc(s).len() implies is_b64_byte(
            #[trigger] b64_enc(s)[i],
        ) by {
            if i >= 4 {
                assert(b64_enc(s)[i] == b64_enc(s.skip(3))[i - 4]);
            }
        }
    }
}

/// The length of an encoding: four bytes for each full three-byte group,
/// two or three for a remainder.
pub proof fn lemma_b64_enc_len(s: Seq<u8>)
    ensures
        s.len() % 3 == 0 ==> b64_enc(s).len() == s.len() / 3 * 4,
        s.len() % 3 == 1 ==> b64_enc(s).len() == s.len() / 3 * 4 + 2,
        s.len() % 3 == 2 ==> b64_enc(s).len() == s.len() / 3 * 4 + 3,
    decreases s.len(),
{
    if s.len() >= 3 {
        lemma_b64_enc_len(s.skip(3));
    }
}

/// Executable alphabet byte for a sextet.
fn enc_char(v: u8) -> (c: u8)
    requires
        v < 64,
    ensures
        c == b64_char(v),
{
    if v < 26 {
        0x41 + v
    } else if v < 52 {
        0x61 + (v - 26)
    } else if v < 62 {
        0x30 + (v - 52)
    } else if v == 62 {
        0x2d
    } else {
        0x5f
    }
}

/// Executable sextet value of a byte; 64 marks a byte outside the alphabet.
fn dec_sextet(c: u8) -> (v: u8)
    ensures
        v == sextet_of(c),
{
    if 0x41 <= c && c <= 0x5a {
        c - 0x41
    } else if 0x61 <= c && c <= 0x7a {
        (c - 0x61) + 26
    } else if 0x30 <= c && c <= 0x39 {
        (c - 0x30) + 52
    } else if c == 0x2d {
        62
    } else if c == 0x5f {
        63
    } else {
        64
    }
}

/// Encode a byte string as base64url without padding.
pub fn b64_encode(v: &Vec<u8>) -> (out: Vec<u8>)
    ensures
        out@ =~= b64_enc(v@),
{
    let n = v.len();
    let mut out: Vec<u8> = Vec::new();
    let mut i: usize = 0;
    proof {
        assert(v@.skip(0) =~= v@);
    }
    while i < n && n - i >= 3
        invariant
            n == v@.len(),
            i <= n,
            b64_enc(v@) =~= out@ + b64_enc(v@.skip(i as int)),
        decreases n - i,
    {
        let b0 = v[i];
        let b1 = v[i + 1];
        let b2 = v[i + 2];
        proof {
            lemma_group_bits(b0, b1, b2);
            assert(v@.skip(i as int).len() >= 3);
            assert(v@.skip(i as int)[0] == b0);
            assert(v@.skip(i as int)[1] == b1);
            assert(v@.skip(i as int)[2] == b2);
            assert(v@.skip(i as int).skip(3) =~= v@.skip(i + 3));
        }
        out.push(enc_char(b0 >> 2));
        out.push(enc_char(((b0 & 3) << 4) | (b1 >> 4)));
        out.push(enc_char(((b1 & 15) << 2) | (b2 >> 6)));
        out.push(enc_char(b2 & 63));
        i = i + 3;
    }
    if i < n && n - i == 1 {
        let b0 = v[i];
        proof {
            lemma_tail1_bits(b0);
            assert(v@.skip(i as int) =~= seq![b0]);
        }
        out.push(enc_char(b0 >> 2));
        out.push(enc_char((b0 & 3) << 4));
    } else if i < n && n - i == 2 {
        let b0 = v[i];
        let b1 = v[i + 1];
        proof {
            lemma_tail2_bits(b0, b1);
            assert(v@.skip(i as int) =~= seq![b0, b1]);
        }
        out.push(enc_char(b0 >> 2));
        out.push(enc_char(((b0 & 3) << 4) | (b1 >> 4)));
        out.push(enc_char((b1 & 15) << 2));
    } else {
        proof {
            assert(i == n);
            assert(v@.skip(i as int) =~= Seq::<u8>::empty());
        }
    }
    out
}

/// Decode a base64url string; `None` on any non-canonical input.
pub fn b64_decode(v: &Vec<u8>) -> (r: Option<Vec<u8>>)
    ensures
        match r {
            Option::Some(out) => b64_dec(v@) == Option::Some(out@),
            Option::None => b64_dec(v@) is None,
        },
{
    let n = v.len();
    let mut out: Vec<u8> = Vec::new();
    let mut i: usize = 0;
    proof {
        assert(v@.skip(0) =~= v@);
    }
    while i < n && n - i >= 4
        invariant
            n == v@.len(),
            i <= n,
            match b64_dec(v@.skip(i as int)) {
                Option::Some(t) => b64_dec(v@) == Option::Some(out@ + t),
                Option::None => b64_dec(v@) is None,
            },
        decreases n - i,
    {
        let x0 = dec_sextet(v[i]);
        let x1 = dec_sextet(v[i + 1]);
        let x2 = dec_sextet(v[i + 2]);
        let x3 = dec_sextet(v[i + 3]);
        proof {
            assert(v@.skip(i as int).len() >= 4);
            assert(v@.skip(i as int)[0] == v@[i as int]);
            assert(v@.skip(i as int)[1] == v@[i + 1]);
            assert(v@.skip(i as int)[2] == v@[i + 2]);
            assert(v@.skip(i as int)[3] == v@[i + 3]);
            assert(v@.skip(i as int).skip(4) =~= v@.skip(i + 4));
        }
        if !(x0 < 64 && x1 < 64 && x2 < 64 && x3 < 64) {
            proof {
                assert(b64_dec(v@.skip(i as int)) is None);
            }
            return Option::None;
        }
        let ghost old_out = out@;
        out.push((x0 << 2) | (x1 >> 4));
        out.push(((x1 & 0x0f) << 4) | (x2 >> 2));
        out.push(((x2 & 0x03) << 6) | x3);
        proof {
            assert(out@ =~= old_out + seq![
                (((x0 << 2) | (x1 >> 4)) as u8),
                ((((x1 & 0x0f) << 4) | (x2 >> 2)) as u8),
                ((((x2 & 0x03) << 6) | x3) as u8),
            ]);
            let g = seq![
                (((x0 << 2) | (x1 >> 4)) as u8),
                ((((x1 & 0x0f) << 4) | (x2 >> 2)) as u8),
                ((((x2 & 0x03) << 6) | x3) as u8),
            ];
            match b64_dec(v@.skip(i + 4)) {
                Option::Some(t) => {
                    assert(b64_dec(v@.skip(i as int)) == Option::Some(g + t));
                    assert(old_out + (g + t) =~= out@ + t);
                    assert(b64_dec(v@) == Option::Some(out@ + t));
                },
                Option::None => {
                    assert(b64_dec(v@.skip(i as int)) is None);
                },
            }
        }
        i = i + 4;
    }
    if i == n {
        proof {
            assert(v@.skip(i as int) =~= Seq::<u8>::empty());
            assert(b64_dec(v@.skip(i as int)) == Option::Some(Seq::<u8>::empty()));
            assert(out@ + Seq::<u8>::empty() =~= out@);
        }
        return Option::Some(out);
    }
    if i + 1 == n {
        proof {
            assert(v@.skip(i as int).len() == 1);
        }
        return Option::None;
    }
    if i + 2 == n {
        let x0 = dec_sextet(v[i]);
        let x1 = dec_sextet(v[i + 1]);
        proof {
            assert(v@.skip(i as int) =~= seq![v@[i as int], v@[i + 1]]);
        }
        if x0 < 64 && x1 < 64 && (x1 & 0x0f) == 0 {
            let ghost old_out = out@;
            out.push((x0 << 2) | (x1 >> 4));
            proof {
                assert(out@ =~= old_out + seq![(((x0 << 2) | (x1 >> 4)) as u8)]);
                assert(b64_dec(v@.skip(i as int)) == Option::Some(
                    seq![(((x0 << 2) | (x1 >> 4)) as u8)],
                ));
            }
            return Option::Some(out);
        } else {
            return Option::None;
        }
    }
    let x0 = dec_sextet(v[i]);
    let x1 = dec_sextet(v[i + 1]);
    let x2 = dec_sextet(v[i + 2]);
    proof {
        assert(i + 3 == n);
        assert(v@.skip(i as int) =~= seq![v@[i as int], v@[i + 1], v@[i + 2]]);
    }
    if x0 < 64 && x1 < 64 && x2 < 64 && (x2 & 0x03) == 0 {
        let ghost old_out = out@;
        out.push((x0 << 2) | (x1 >> 4));
        out.push(((x1 & 0x0f) << 4) | (x2 >> 2));
        proof {
            assert(out@ =~= old_out + seq![
                (((x0 << 2) | (x1 >> 4)) as u8),
                ((((x1 & 0x0f) << 4) | (x2 >> 2)) as u8),
            ]);
            assert(b64_dec(v@.skip(i as int)) == Option::Some(
                seq![
                    (((x0 << 2) | (x1 >> 4)) as u8),
                    ((((x1 & 0x0f) << 4) | (x2 >> 2)) as u8),
                ],
            ));
        }
        return Option::Some(out);
    }
    Option::None
}

} // verus!
