//! Decimal rendering and parsing of integers, as they appear in the JSON
//! claims payload and in query strings.

use vstd::prelude::*;

verus! {

/// The ASCII byte of a single decimal digit.
pub open spec fn dec_digit(d: nat) -> u8 {
    (0x30 + d % 10) as u8
}

/// The decimal rendering of a natural number, most significant digit first.
pub open spec fn dec_of(n: nat) -> Seq<u8>
    decreases n,
{
    if n < 10 {
        seq![dec_digit(n)]
    } else {
        dec_of(n / 10).push(dec_digit(n % 10))
    }
}

/// The decimal rendering of a signed number: a leading minus for negatives.
pub open spec fn dec_int_of(n: int) -> Seq<u8> {
    if n < 0 {
        seq![0x2du8] + dec_of((-n) as nat)
    } else {
        dec_of(n as nat)
    }
}

pub open spec fn is_dec_digit(b: u8) -> bool {
    0x30 <= b <= 0x39
}

/// The number denoted by a digit string, most significant digit first.
pub open spec fn digits_val(s: Seq<u8>) -> int
    decreases s.len(),
{
    if s.len() == 0 {
        0
    } else {
        digits_val(s.drop_last()) * 10 + (s.last() - 0x30)
    }
}

/// End of the run of decimal digits that starts at `pos`.
pub open spec fn digit_run_end(s: Seq<u8>, pos: int) -> int
    decreases s.len() - pos,
{
    if pos < 0 || pos >= s.len() || !is_dec_digit(s[pos]) {
        pos
    } else {
        digit_run_end(s, pos + 1)
    }
}

pub proof fn lemma_dec_of_digits(n: nat)
    ensures
        dec_of(n).len() >= 1,
        forall|i: int| 0 <= i < dec_of(n).len() ==> is_dec_digit(#[trigger] dec_of(n)[i]),
    decreases n,
{
    if n >= 10 {
        lemma_dec_of_digits(n / 10);
    }
}

pub proof fn lemma_digits_val_dec_of(n: nat)
    ensures
        digits_val(dec_of(n)) == n,
    decreases n,
{
    assert(0x30 + n % 10 < 256);
    assert(dec_digit(n % 10) - 0x30 == n % 10);
    if n < 10 {
        assert(dec_of(n) =~= seq![dec_digit(n)]);
        assert(dec_of(n).drop_last() =~= Seq::<u8>::empty());
        assert(digits_val(Seq::<u8>::empty()) == 0);
        assert(dec_of(n).last() == dec_digit(n));
        assert(digits_val(dec_of(n)) == digits_val(dec_of(n).drop_last()) * 10 + (dec_of(n).last()
            - 0x30));
        assert(n % 10 == n);
    } else {
        lemma_digits_val_dec_of(n / 10);
        assert(dec_of(n).drop_last() =~= dec_of(n / 10));
        assert(dec_of(n).last() == dec_digit(n % 10));
        assert(digits_val(dec_of(n)) == n / 10 * 10 + n % 10);
    }
}

/// Dropping trailing digits can only shrink the denoted number.
pub proof fn lemma_digits_val_take(s: Seq<u8>, k: int)
    requires
        0 <= k <= s.len(),
        forall|i: int| 0 <= i < s.len() ==> is_dec_digit(#[trigger] s[i]),
    ensures
        0 <= digits_val(s.take(k)) <= digits_val(s),
        digits_val(s) >= 0,
    decreases s.len(),
{
    if s.len() == 0 {
    } else if k == s.len() {
        assert(s.take(k) =~= s);
        lemma_digits_val_take(s.drop_last(), s.len() - 1);
        assert(s.drop_last().take(s.len() - 1) =~= s.drop_last());
    } else {
        lemma_digits_val_take(s.drop_last(), k);
        assert(s.drop_last().take(k) =~= s.take(k));
    }
}

/// A digit run that visibly ends at `q` is what `digit_run_end` computes.
pub proof fn lemma_digit_run_end(s: Seq<u8>, pos: int, q: int)
    requires
        0 <= pos <= q <= s.len(),
        forall|i: int| pos <= i < q ==> is_dec_digit(#[trigger] s[i]),
        q == s.len() || !is_dec_digit(s[q]),
    ensures
        digit_run_end(s, pos) == q,
    decreases q - pos,
{
    if pos < q {
        lemma_digit_run_end(s, pos + 1, q);
    }
}

pub proof fn lemma_digit_run_end_bounds(s: Seq<u8>, pos: int)
    requires
        0 <= pos <= s.len(),
    ensures
        pos <= digit_run_end(s, pos) <= s.len(),
        forall|i: int| pos <= i < digit_run_end(s, pos) ==> is_dec_digit(#[trigger] s[i]),
        digit_run_end(s, pos) == s.len() || !is_dec_digit(s[digit_run_end(s, pos)]),
    decreases s.len() - pos,
{
    if pos < s.len() && is_dec_digit(s[pos]) {
        lemma_digit_run_end_bounds(s, pos + 1);
    }
}

/// Append the decimal rendering of `n` to `out`.
pub fn push_dec_u64(out: &mut Vec<u8>, n: u64)
    ensures
        final(out)@ =~= old(out)@ + dec_of(n as nat),
    decreases n,
{
    if n < 10 {
        out.push(0x30 + n as u8);
    } else {
        push_dec_u64(out, n / 10);
        out.push(0x30 + (n % 10) as u8);
    }
}

/// Append the decimal rendering of `n`, with a minus sign when negative.
pub fn push_dec_i64(out: &mut Vec<u8>, n: i64)
    ensures
        final(out)@ =~= old(out)@ + dec_int_of(n as int),
{
    if n >= 0 {
        push_dec_u64(out, n as u64);
    } else {
        out.push(0x2d);
        let mag: u64 = ((-(n + 1)) as u64) + 1;
        assert(mag as nat == (-(n as int)) as nat);
        push_dec_u64(out, mag);
    }
}

/// Parse the digit run that starts at `pos` as a `u64`.
///
/// Returns the value and the position just past the run, or `None` when no
/// digit starts at `pos` or the run's value does not fit in a `u64`.
pub fn parse_u64_at(s: &Vec<u8>, pos: usize) -> (r: Option<(u64, usize)>)
    requires
        pos <= s@.len(),
    ensures
        match r {
            Some(p) => {
                &&& p.1 == digit_run_end(s@, pos as int)
                &&& pos < p.1 <= s@.len()
                &&& p.0 == digits_val(s@.subrange(pos as int, p.1 as int))
            },
            None => pos == digit_run_end(s@, pos as int) || digits_val(
                s@.subrange(pos as int, digit_run_end(s@, pos as int)),
            ) > u64::MAX,
        },
{
    proof {
        lemma_digit_run_end_bounds(s@, pos as int);
    }
    let ghost q = digit_run_end(s@, pos as int);
    if pos == s.len() || !(0x30 <= s[pos] && s[pos] <= 0x39) {
        proof {
            lemma_digit_run_end(s@, pos as int, pos as int);
        }
        return None;
    }
    let mut i: usize = pos;
    let mut val: u64 = 0;
    while i < s.len() && 0x30 <= s[i] && s[i] <= 0x39
        invariant
            pos <= i <= s@.len(),
            i <= q <= s@.len(),
            q == digit_run_end(s@, pos as int),
            forall|j: int| pos <= j < q ==> is_dec_digit(#[trigger] s@[j]),
            q == s@.len() || !is_dec_digit(s@[q]),
            forall|j: int| pos <= j < i ==> is_dec_digit(#[trigger] s@[j]),
            val == digits_val(s@.subrange(pos as int, i as int)),
        decreases s@.len() - i,
    {
        let d: u64 = (s[i] - 0x30) as u64;
        if val > (u64::MAX - d) / 10 {
            // The run's value exceeds u64::MAX: longer runs denote no less.
            proof {
                lemma_digit_run_end_bounds(s@, pos as int);
                let cur = s@.subrange(pos as int, i as int).push(s@[i as int]);
                assert(cur =~= s@.subrange(pos as int, i + 1));
                assert(cur.drop_last() =~= s@.subrange(pos as int, i as int));
                assert(digits_val(cur) == val * 10 + d);
                assert(val * 10 + d > u64::MAX) by (nonlinear_arith)
                    requires
                        val > (u64::MAX - d) / 10,
                        0 <= d <= 9,
                ;
                let run = s@.subrange(pos as int, q);
                lemma_digits_val_take(run, i + 1 - pos);
                assert(run.take(i + 1 - pos) =~= cur);
            }
            return None;
        }
        proof {
            let cur = s@.subrange(pos as int, i as int).push(s@[i as int]);
            assert(cur =~= s@.subrange(pos as int, i + 1));
            assert(cur.drop_last() =~= s@.subrange(pos as int, i as int));
            assert(val * 10 + d <= u64::MAX) by (nonlinear_arith)
                requires
                    val <= (u64::MAX - d) / 10,
                    0 <= d <= 9,
            ;
            assert(i < q);
        }
        val = val * 10 + d;
        i = i + 1;
    }
    proof {
        assert(i == q) by {
            lemma_digit_run_end(s@, pos as int, i as int);
        }
    }
    Some((val, i))
}

/// Where the rendering of `n` sits inside `s` and is followed by a
/// non-digit, the digit run at its start is exactly that rendering.
pub proof fn lemma_parse_of_dec(s: Seq<u8>, pos: int, n: nat)
    requires
        0 <= pos,
        pos + dec_of(n).len() <= s.len(),
        s.subrange(pos, pos + dec_of(n).len()) =~= dec_of(n),
        pos + dec_of(n).len() == s.len() || !is_dec_digit(s[pos + dec_of(n).len()]),
    ensures
        digit_run_end(s, pos) == pos + dec_of(n).len(),
        digits_val(s.subrange(pos, pos + dec_of(n).len())) == n,
{
    lemma_dec_of_digits(n);
    assert forall|i: int| pos <= i < pos + dec_of(n).len() implies is_dec_digit(
        #[trigger] s[i],
    ) by {
        assert(s[i] == dec_of(n)[i - pos]);
    }
    lemma_digit_run_end(s, pos, pos + dec_of(n).len());
    lemma_digits_val_dec_of(n);
}

/// Where the digit run of an optionally `-`-signed number starts.
pub open spec fn int_digits_start(s: Seq<u8>, pos: int) -> int {
    if pos < s.len() && s[pos] == 0x2d {
        pos + 1
    } else {
        pos
    }
}

/// End of an optionally `-`-signed digit run that starts at `pos`.
pub open spec fn int_run_end(s: Seq<u8>, pos: int) -> int {
    digit_run_end(s, int_digits_start(s, pos))
}

/// The number denoted by an optionally `-`-signed digit run at `pos`.
pub open spec fn int_run_val(s: Seq<u8>, pos: int) -> int {
    if int_digits_start(s, pos) == pos {
        digits_val(s.subrange(pos, int_run_end(s, pos)))
    } else {
        -digits_val(s.subrange(pos + 1, int_run_end(s, pos)))
    }
}

/// Parse an optionally `-`-signed digit run at `pos` as an `i64`.
///
/// Returns the value and the position just past the run; `None` when no
/// digit follows the optional sign or the value does not fit in an `i64`.
pub fn parse_i64_at(s: &Vec<u8>, pos: usize) -> (r: Option<(i64, usize)>)
    requires
        pos <= s@.len(),
    ensures
        match r {
            Some(p) => {
                &&& p.1 == int_run_end(s@, pos as int)
                &&& pos < p.1 <= s@.len()
                &&& int_digits_start(s@, pos as int) < p.1
                &&& p.0 as int == int_run_val(s@, pos as int)
            },
            None => int_digits_start(s@, pos as int) == int_run_end(s@, pos as int)
                || int_run_val(s@, pos as int) < i64::MIN || int_run_val(s@, pos as int)
                > i64::MAX,
        },
{
    if pos < s.len() && s[pos] == 0x2d {
        match parse_u64_at(s, pos + 1) {
            Some((mag, end)) => {
                if mag <= 0x7fff_ffff_ffff_ffffu64 {
                    Some((-(mag as i64), end))
                } else if mag == 0x8000_0000_0000_0000u64 {
                    Some((i64::MIN, end))
                } else {
                    None
                }
            },
            None => {
                proof {
                    lemma_digit_run_end_bounds(s@, pos + 1);
                    if digit_run_end(s@, pos + 1) != pos + 1 {
                        lemma_digits_val_take(
                            s@.subrange(pos + 1, digit_run_end(s@, pos + 1)),
                            0,
                        );
                    }
                }
                None
            },
        }
    } else {
        match parse_u64_at(s, pos) {
            Some((mag, end)) => {
                if mag <= 0x7fff_ffff_ffff_ffffu64 {
                    Some((mag as i64, end))
                } else {
                    None
                }
            },
            None => {
                proof {
                    lemma_digit_run_end_bounds(s@, pos as int);
                    if digit_run_end(s@, pos as int) != pos {
                        lemma_digits_val_take(
                            s@.subrange(pos as int, digit_run_end(s@, pos as int)),
                            0,
                        );
                    }
                }
                None
            },
        }
    }
}

/// Where the rendering of `n` sits inside `s` and is followed by a
/// non-digit, the signed run at its start denotes exactly `n`.
pub proof fn lemma_parse_of_dec_int(s: Seq<u8>, pos: int, n: int)
    requires
        0 <= pos,
        pos + dec_int_of(n).len() <= s.len(),
        s.subrange(pos, pos + dec_int_of(n).len()) =~= dec_int_of(n),
        pos + dec_int_of(n).len() == s.len() || !is_dec_digit(s[pos + dec_int_of(n).len()]),
    ensures
        int_run_end(s, pos) == pos + dec_int_of(n).len(),
        int_run_val(s, pos) == n,
{
    if n < 0 {
        let m = (-n) as nat;
        assert(s[pos] == s.subrange(pos, pos + dec_int_of(n).len())[0]);
        assert(dec_int_of(n)[0] == 0x2d);
        assert(s[pos] == 0x2d);
        assert(s.subrange(pos + 1, pos + dec_int_of(n).len()) =~= dec_of(m)) by {
            assert forall|i: int| 0 <= i < dec_of(m).len() implies s.subrange(
                pos + 1,
                pos + dec_int_of(n).len(),
            )[i] == dec_of(m)[i] by {
                assert(s[pos + 1 + i] == dec_int_of(n)[1 + i]);
            }
        }
        lemma_parse_of_dec(s, pos + 1, m);
        assert(int_digits_start(s, pos) == pos + 1);
    } else {
        let m = n as nat;
        lemma_dec_of_digits(m);
        assert(s[pos] == dec_of(m)[0]);
        assert(is_dec_digit(s[pos]));
        assert(s[pos] != 0x2d);
        lemma_parse_of_dec(s, pos, m);
    }
}

} // verus!
