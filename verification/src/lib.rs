//! Identity resolution for the Retronomicon backend.
//!
//! A request carries its credential either as an integrity-protected session
//! cookie or as a bearer token; both transports share one claims record
//! (subject id, optional username, absolute expiry). This crate encodes and
//! decodes those wire forms, enforces expiry, escalates a resolved claims
//! record through the three trust tiers (basic, authenticated, root), and
//! materializes identities at login time.

use vstd::prelude::*;

pub mod ascii;
pub mod decnum;
pub mod username;
pub mod claims;
pub mod b64;
pub mod hs512;
pub mod codec;
pub mod guard;
pub mod repo;
pub mod login;
pub mod params;
pub mod routes;
pub mod types;
pub mod dates;
pub mod mediatype;
pub mod commands;
pub mod payload;

verus! {

/// Number of seconds a freshly issued claims record stays valid.
pub const SESSION_TTL_SECONDS: i64 = 604800;

/// Expiry timestamp for a record issued at `now`: one TTL into the future.
pub fn default_expiration(now: i64) -> (exp: i64)
    requires
        now + SESSION_TTL_SECONDS <= i64::MAX,
    ensures
        exp == now + SESSION_TTL_SECONDS,
{
    now + SESSION_TTL_SECONDS
}

} // verus!
