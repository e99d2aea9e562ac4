//! Request parameters and small wire types shared with the command-line
//! client.

use vstd::prelude::*;
use vstd::utf8::is_ascii_chars;
use vstd::string::{StrSliceExecFns, StringExecFns};
use crate::ascii::{ascii_bytes_of, all_ascii, string_from_ascii};
use crate::decnum::{dec_of, push_dec_u64, is_dec_digit, lemma_dec_of_digits};

verus! {

/// Process-wide configuration: consumed, not owned, by the guard
/// subsystem.
#[derive(Clone, Debug)]
pub struct RetronomiconConfig {
    pub base_url: String,
    pub root_team: Vec<String>,
    pub root_team_id: i32,
}

/// The expected response of an endpoint that returns nothing.
#[derive(Clone, Copy, Debug)]
pub struct OkResponse;

/// A bearer authentication token, as returned to the client.
#[derive(Clone, Debug)]
pub struct AuthTokenResponse {
    pub token: String,
}

/// Client-side configuration: an optional bearer token.
#[derive(Clone, Debug)]
pub struct ClientConfig<'a> {
    pub token: Option<&'a str>,
}

/// `page=`
pub open spec fn lit_page() -> Seq<u8> {
    seq![0x70u8, 0x61u8, 0x67u8, 0x65u8, 0x3du8]
}

/// `limit=`
pub open spec fn lit_limit() -> Seq<u8> {
    seq![0x6cu8, 0x69u8, 0x6du8, 0x69u8, 0x74u8, 0x3du8]
}

/// The query string for a page/limit pair.
pub open spec fn paging_query_bytes(page: Option<u32>, limit: Option<u32>) -> Seq<u8> {
    match (page, limit) {
        (Option::None, Option::None) => Seq::empty(),
        (Option::Some(p), Option::None) => lit_page() + dec_of(p as nat),
        (Option::None, Option::Some(l)) => lit_limit() + dec_of(l as nat),
        (Option::Some(p), Option::Some(l)) => lit_page() + dec_of(p as nat) + seq![0x26u8]
            + lit_limit() + dec_of(l as nat),
    }
}

/// Paging of a listing endpoint.
#[derive(Clone, Copy, Debug)]
pub struct PagingParams {
    pub page: Option<u32>,
    pub limit: Option<u32>,
}

/// The decimal rendering of a number is ASCII.
proof fn lemma_dec_of_ascii(n: nat)
    ensures
        forall|i: int| 0 <= i < dec_of(n).len() ==> #[trigger] dec_of(n)[i] < 0x80,
{
    lemma_dec_of_digits(n);
    assert forall|i: int| 0 <= i < dec_of(n).len() implies #[trigger] dec_of(n)[i] < 0x80 by {
        assert(is_dec_digit(dec_of(n)[i]));
    }
}

impl PagingParams {
    /// Render the paging as a query string: `page=<n>`, `limit=<n>`,
    /// both joined by `&`, or nothing.
    pub fn to_query(&self) -> (q: String)
        ensures
            is_ascii_chars(q@),
            ascii_bytes_of(q@) =~= paging_query_bytes(self.page, self.limit),
    {
        let mut out: Vec<u8> = Vec::new();
        match (self.page, self.limit) {
            (Option::None, Option::None) => {},
            (Option::Some(p), Option::None) => {
                out.push(0x70);
                out.push(0x61);
                out.push(0x67);
                out.push(0x65);
                out.push(0x3d);
                assert(out@ =~= lit_page());
                push_dec_u64(&mut out, p as u64);
            },
            (Option::None, Option::Some(l)) => {
                out.push(0x6c);
                out.push(0x69);
                out.push(0x6d);
                out.push(0x69);
                out.push(0x74);
                out.push(0x3d);
                assert(out@ =~= lit_limit());
                push_dec_u64(&mut out, l as u64);
            },
            (Option::Some(p), Option::Some(l)) => {
                out.push(0x70);
                out.push(0x61);
                out.push(0x67);
                out.push(0x65);
                out.push(0x3d);
                assert(out@ =~= lit_page());
                push_dec_u64(&mut out, p as u64);
                let ghost p1 = lit_page() + dec_of(p as nat);
                out.push(0x26);
                out.push(0x6c);
                out.push(0x69);
                out.push(0x6d);
                out.push(0x69);
                out.push(0x74);
                out.push(0x3d);
                assert(out@ =~= p1 + seq![0x26u8] + lit_limit());
                push_dec_u64(&mut out, l as u64);
                assert(out@ =~= p1 + seq![0x26u8] + lit_limit() + dec_of(l as nat));
            },
        }
        proof {
            assert(out@ =~= paging_query_bytes(self.page, self.limit));
            assert(all_ascii(out@)) by {
                match (self.page, self.limit) {
                    (Option::None, Option::None) => {},
                    (Option::Some(p), Option::None) => {
                        lemma_dec_of_ascii(p as nat);
                    },
                    (Option::None, Option::Some(l)) => {
                        lemma_dec_of_ascii(l as nat);
                    },
                    (Option::Some(p), Option::Some(l)) => {
                        lemma_dec_of_ascii(p as nat);
                        lemma_dec_of_ascii(l as nat);
                    },
                }
            }
        }
        string_from_ascii(out)
    }
}

/// Position of the first `=` at or after `pos`, or the length.
pub open spec fn eq_sign_pos(s: Seq<char>, pos: int) -> int
    decreases s.len() - pos,
{
    if pos < 0 || pos >= s.len() || s[pos] == '=' {
        pos
    } else {
        eq_sign_pos(s, pos + 1)
    }
}

/// A `key=value` argument split at its first `=`; an argument without
/// one is all key, with an empty value.
pub open spec fn split_pair(s: Seq<char>) -> (Seq<char>, Seq<char>) {
    let p = eq_sign_pos(s, 0);
    if p == s.len() {
        (s, Seq::empty())
    } else {
        (s.take(p), s.skip(p + 1))
    }
}

proof fn lemma_eq_sign_pos_bounds(s: Seq<char>, pos: int)
    requires
        0 <= pos <= s.len(),
    ensures
        pos <= eq_sign_pos(s, pos) <= s.len(),
        forall|i: int| pos <= i < eq_sign_pos(s, pos) ==> #[trigger] s[i] != '=',
        eq_sign_pos(s, pos) == s.len() || s[eq_sign_pos(s, pos)] == '=',
    decreases s.len() - pos,
{
    if pos < s.len() && s[pos] != '=' {
        lemma_eq_sign_pos_bounds(s, pos + 1);
    }
}

proof fn lemma_eq_sign_pos(s: Seq<char>, pos: int, q: int)
    requires
        0 <= pos <= q <= s.len(),
        forall|i: int| pos <= i < q ==> #[trigger] s[i] != '=',
        q == s.len() || s[q] == '=',
    ensures
        eq_sign_pos(s, pos) == q,
    decreases q - pos,
{
    if pos < q {
        lemma_eq_sign_pos(s, pos + 1, q);
    }
}

/// Split one `key=value` argument.
fn split_link_arg(s: &String) -> (r: (String, String))
    ensures
        r.0@ == split_pair(s@).0,
        r.1@ == split_pair(s@).1,
{
    let st = s.as_str();
    let n = st.unicode_len();
    let mut i: usize = 0;
    while i < n && st.get_char(i) != '='
        invariant
            0 <= i <= n,
            n == st@.len(),
            st@ == s@,
            forall|j: int| 0 <= j < i ==> #[trigger] st@[j] != '=',
        decreases n - i,
    {
        i = i + 1;
    }
    proof {
        lemma_eq_sign_pos(s@, 0, i as int);
    }
    if i == n {
        (s.clone(), String::new())
    } else {
        let key = String::from_str(st.substring_char(0, i));
        let value = String::from_str(st.substring_char(i + 1, n));
        proof {
            assert(key@ =~= s@.take(i as int));
            assert(value@ =~= s@.skip(i + 1));
        }
        (key, value)
    }
}

/// Turn repeated `key=value` arguments into an association list; absent
/// arguments mean "no change requested" rather than an empty list.
pub fn links_dictionary_from_arg(arg: &Vec<String>) -> (r: Option<Vec<(String, String)>>)
    ensures
        match r {
            Option::Some(v) => {
                &&& arg@.len() > 0
                &&& v@.len() == arg@.len()
                &&& forall|i: int|
                    0 <= i < v@.len() ==> (#[trigger] v@[i]).0@ == split_pair(arg@[i]@).0
                        && v@[i].1@ == split_pair(arg@[i]@).1
            },
            Option::None => arg@.len() == 0,
        },
{
    if arg.len() == 0 {
        return Option::None;
    }
    let n = arg.len();
    let mut out: Vec<(String, String)> = Vec::new();
    let mut i: usize = 0;
    while i < n
        invariant
            0 <= i <= n,
            n == arg@.len(),
            out@.len() == i,
            forall|j: int|
                0 <= j < i ==> (#[trigger] out@[j]).0@ == split_pair(arg@[j]@).0 && out@[j].1@
                    == split_pair(arg@[j]@).1,
        decreases n - i,
    {
        let pair = split_link_arg(&arg[i]);
        out.push(pair);
        i = i + 1;
    }
    Option::Some(out)
}

/// The key/value splits of a list of raw `key=value` arguments.
pub open spec fn split_pairs_view(args: Seq<String>) -> Seq<(Seq<char>, Seq<char>)> {
    args.map_values(|s: String| split_pair(s@))
}

/// A profile update request.
#[derive(Clone, Debug)]
pub struct UpdateUser {
    pub user: Option<String>,
    pub username: Option<String>,
    pub description: Option<String>,
    pub add_link: Vec<String>,
    pub remove_link: Vec<String>,
}

} // verus!
