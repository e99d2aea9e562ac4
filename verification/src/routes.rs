//! Paths and query strings of the version-1 API, as the command-line
//! client builds them.

use vstd::prelude::*;
use vstd::string::{StrSliceExecFns, StringExecFns};
use crate::ascii::{all_ascii, chars_of_bytes, lemma_chars_of_bytes_roundtrip,
    lemma_ascii_bytes_injective};
use crate::decnum::dec_of;
use crate::params::{PagingParams, paging_query_bytes};

verus! {

/// The decimal rendering of a number, as characters.
pub open spec fn dec_str(n: nat) -> Seq<char> {
    chars_of_bytes(dec_of(n))
}

/// The paging query string, as characters.
pub open spec fn paging_query_str(p: PagingParams) -> Seq<char> {
    chars_of_bytes(paging_query_bytes(p.page, p.limit))
}

/// Render a `u32` in decimal.
pub fn u32_string(n: u32) -> (r: String)
    ensures
        r@ == dec_str(n as nat),
{
    let mut out: Vec<u8> = Vec::new();
    crate::decnum::push_dec_u64(&mut out, n as u64);
    proof {
        crate::decnum::lemma_dec_of_digits(n as nat);
        assert(all_ascii(out@)) by {
            assert forall|i: int| 0 <= i < out@.len() implies out@[i] < 0x80 by {
                assert(crate::decnum::is_dec_digit(out@[i]));
            }
        }
    }
    let r = crate::ascii::string_from_ascii(out);
    proof {
        lemma_chars_of_bytes_roundtrip(dec_of(n as nat));
        lemma_ascii_bytes_injective(r@, dec_str(n as nat));
    }
    r
}

/// The paging query, as a string.
pub fn paging_query(p: &PagingParams) -> (r: String)
    ensures
        r@ == paging_query_str(*p),
{
    let q = p.to_query();
    proof {
        lemma_chars_of_bytes_roundtrip(paging_query_bytes(p.page, p.limit));
        lemma_ascii_bytes_injective(q@, paging_query_str(*p));
    }
    q
}

/// `/api/v1/me`
pub fn me_path() -> (r: String)
    ensures
        r@ == "/api/v1/me"@,
{
    String::from_str("/api/v1/me")
}

/// `/api/v1/me/update`, or `/api/v1/user/<u>` when another user is named.
pub fn user_update_path(user: &Option<String>) -> (r: String)
    ensures
        r@ == match user {
            Option::Some(u) => "/api/v1/user/"@ + u@,
            Option::None => "/api/v1/me/update"@,
        },
{
    match user {
        Option::Some(u) => String::from_str("/api/v1/user/").concat(u.as_str()),
        Option::None => String::from_str("/api/v1/me/update"),
    }
}

/// `/api/v1/users?<paging>`
pub fn users_list_query(p: &PagingParams) -> (r: String)
    ensures
        r@ == "/api/v1/users?"@ + paging_query_str(*p),
{
    String::from_str("/api/v1/users?").concat(paging_query(p).as_str())
}

/// `/api/v1/users/<id>`
pub fn users_get_path(id: &str) -> (r: String)
    ensures
        r@ == "/api/v1/users/"@ + id@,
{
    String::from_str("/api/v1/users/").concat(id)
}

/// `/api/v1/cores?<paging>`
pub fn cores_list_query(p: &PagingParams) -> (r: String)
    ensures
        r@ == "/api/v1/cores?"@ + paging_query_str(*p),
{
    String::from_str("/api/v1/cores?").concat(paging_query(p).as_str())
}

/// `/api/v1/cores`
pub fn cores_create_path() -> (r: String)
    ensures
        r@ == "/api/v1/cores"@,
{
    String::from_str("/api/v1/cores")
}

/// `/api/v1/cores/<id>`
pub fn cores_get_path(id: &str) -> (r: String)
    ensures
        r@ == "/api/v1/cores/"@ + id@,
{
    String::from_str("/api/v1/cores/").concat(id)
}

/// `/api/v1/cores/<core>/releases?<paging>`
pub fn releases_list_query(core: &str, p: &PagingParams) -> (r: String)
    ensures
        r@ == "/api/v1/cores/"@ + core@ + "/releases?"@ + paging_query_str(*p),
{
    String::from_str("/api/v1/cores/").concat(core).concat("/releases?").concat(
        paging_query(p).as_str(),
    )
}

/// `/api/v1/cores/<core>/releases`
pub fn releases_create_path(core: &str) -> (r: String)
    ensures
        r@ == "/api/v1/cores/"@ + core@ + "/releases"@,
{
    String::from_str("/api/v1/cores/").concat(core).concat("/releases")
}

/// `/api/v1/cores/<core>/releases/<release>/artifacts`
pub fn release_artifacts_path(core: &str, release_id: &str) -> (r: String)
    ensures
        r@ == "/api/v1/cores/"@ + core@ + "/releases/"@ + release_id@ + "/artifacts"@,
{
    String::from_str("/api/v1/cores/").concat(core).concat("/releases/").concat(
        release_id,
    ).concat("/artifacts")
}

/// `/api/v1/cores/<core>/releases/<release>/artifacts/<artifact>/download`
pub fn release_download_path(core: &str, release_id: &str, artifact: u32) -> (r: String)
    ensures
        r@ == "/api/v1/cores/"@ + core@ + "/releases/"@ + release_id@ + "/artifacts/"@ + dec_str(
            artifact as nat,
        ) + "/download"@,
{
    String::from_str("/api/v1/cores/").concat(core).concat("/releases/").concat(
        release_id,
    ).concat("/artifacts/").concat(u32_string(artifact).as_str()).concat("/download")
}

/// `/api/v1/platforms?<paging>`
pub fn platforms_list_query(p: &PagingParams) -> (r: String)
    ensures
        r@ == "/api/v1/platforms?"@ + paging_query_str(*p),
{
    String::from_str("/api/v1/platforms?").concat(paging_query(p).as_str())
}

/// `/api/v1/platforms`
pub fn platforms_create_path() -> (r: String)
    ensures
        r@ == "/api/v1/platforms"@,
{
    String::from_str("/api/v1/platforms")
}

/// `/api/v1/systems?<paging>`
pub fn systems_list_query(p: &PagingParams) -> (r: String)
    ensures
        r@ == "/api/v1/systems?"@ + paging_query_str(*p),
{
    String::from_str("/api/v1/systems?").concat(paging_query(p).as_str())
}

/// `/api/v1/systems`
pub fn systems_create_path() -> (r: String)
    ensures
        r@ == "/api/v1/systems"@,
{
    String::from_str("/api/v1/systems")
}

/// `/api/v1/systems/<id>`
pub fn systems_get_path(id: &str) -> (r: String)
    ensures
        r@ == "/api/v1/systems/"@ + id@,
{
    String::from_str("/api/v1/systems/").concat(id)
}

/// `/api/v1/teams?<paging>`
pub fn teams_list_query(p: &PagingParams) -> (r: String)
    ensures
        r@ == "/api/v1/teams?"@ + paging_query_str(*p),
{
    String::from_str("/api/v1/teams?").concat(paging_query(p).as_str())
}

/// `/api/v1/teams/<id>`
pub fn teams_get_path(id: &str) -> (r: String)
    ensures
        r@ == "/api/v1/teams/"@ + id@,
{
    String::from_str("/api/v1/teams/").concat(id)
}

/// `/api/v1/teams`
pub fn teams_create_path() -> (r: String)
    ensures
        r@ == "/api/v1/teams"@,
{
    String::from_str("/api/v1/teams")
}

} // verus!
