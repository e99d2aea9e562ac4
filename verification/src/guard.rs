//! Credential resolution, expiry enforcement and tier escalation.
//!
//! A request's credential sources reduce to at most one claims record
//! (cookie over header, no fallback from a bad cookie), the expiry policy
//! strikes expired records, and the three trust tiers escalate from there.

use vstd::prelude::*;
use vstd::string::StringSliceAdditionalSpecFns;
use crate::claims::{ClaimsView, UserGuard, AuthenticatedUserGuard, RootUserGuard, claims_wf};
use crate::params::RetronomiconConfig;
use crate::repo::{IdentityStore, is_team_member};
use crate::codec::{
    cookie_shape_ok, cookie_sig_ok, cookie_payload_of, bearer_shape_ok, bearer_sig_ok,
    bearer_payload_of, strip_token, decode_cookie, decode_bearer,
};

verus! {

/// Failure surfaced by resolution and the login flows.
///
/// `Unauthenticated` deliberately carries no cause: a missing credential,
/// a bad signature, an expired record and a wrong password all look the
/// same to the caller.
#[derive(Clone, Copy, Debug, PartialEq, Eq, Structural)]
pub enum AuthError {
    Unauthenticated,
    Fault,
    Validation,
}

/// Outcome of a tier guard: the granted value, a soft refusal the caller
/// may fall back from, a hard refusal, or an infrastructure fault.
#[derive(Debug)]
pub enum TierOutcome<T> {
    Granted(T),
    NotApplicable,
    Denied,
    Fault,
}

/// The claims record that a pair of credential sources resolves to, if
/// any. A present cookie always takes precedence; a bad cookie does not
/// fall back to the header.
pub open spec fn resolution_of(
    cookie: Option<Seq<u8>>,
    header: Option<Seq<u8>>,
    cookie_secret: Seq<u8>,
    bearer_secret: Seq<u8>,
) -> Option<ClaimsView> {
    match cookie {
        Option::Some(cb) => {
            if cookie_shape_ok(cb) && cookie_sig_ok(cb, cookie_secret) {
                cookie_payload_of(cb)
            } else {
                Option::None
            }
        },
        Option::None => match header {
            Option::Some(hb) => {
                let t = strip_token(hb);
                if bearer_shape_ok(t) && bearer_sig_ok(t, bearer_secret) {
                    bearer_payload_of(t)
                } else {
                    Option::None
                }
            },
            Option::None => Option::None,
        },
    }
}

/// The byte content of an optional credential source.
pub open spec fn source_bytes(s: Option<&str>) -> Option<Seq<u8>> {
    match s {
        Option::Some(v) => Option::Some(v.spec_bytes()),
        Option::None => Option::None,
    }
}

/// Resolve the credential sources to a claims record.
///
/// Returns the record and whether it came from the cookie (the caller
/// refreshes the cookie's transport encoding only in that case). Fails
/// with the one generic error whatever went wrong.
pub fn resolve(
    cookie: Option<&str>,
    header: Option<&str>,
    cookie_secret: &Vec<u8>,
    bearer_secret: &Vec<u8>,
) -> (r: Result<(UserGuard, bool), AuthError>)
    ensures
        ({
            let res = resolution_of(
                source_bytes(cookie),
                source_bytes(header),
                cookie_secret@,
                bearer_secret@,
            );
            match r {
                Result::Ok(p) => {
                    &&& res == Option::Some(p.0@)
                    &&& claims_wf(p.0@)
                    &&& p.1 == (cookie is Some)
                },
                Result::Err(e) => e == AuthError::Unauthenticated && res is None,
            }
        }),
{
    match cookie {
        Option::Some(value) => match decode_cookie(value, cookie_secret) {
            Result::Ok(g) => Result::Ok((g, true)),
            Result::Err(_) => Result::Err(AuthError::Unauthenticated),
        },
        Option::None => match header {
            Option::Some(value) => match decode_bearer(value, bearer_secret) {
                Result::Ok(g) => Result::Ok((g, false)),
                Result::Err(_) => Result::Err(AuthError::Unauthenticated),
            },
            Option::None => Result::Err(AuthError::Unauthenticated),
        },
    }
}

/// Strike an expired record: rejected exactly when `now` is strictly past
/// `exp`; a record expiring this very second still passes.
pub fn check_expiry(g: UserGuard, now: i64) -> (r: Result<UserGuard, AuthError>)
    ensures
        match r {
            Result::Ok(g2) => g2 == g && now <= g@.exp,
            Result::Err(e) => e == AuthError::Unauthenticated && now > g@.exp,
        },
{
    if now > g.exp {
        Result::Err(AuthError::Unauthenticated)
    } else {
        Result::Ok(g)
    }
}

/// The basic tier grants a claims record on these sources at this time.
pub open spec fn basic_grants(
    cookie: Option<Seq<u8>>,
    header: Option<Seq<u8>>,
    cookie_secret: Seq<u8>,
    bearer_secret: Seq<u8>,
    now: int,
) -> Option<ClaimsView> {
    match resolution_of(cookie, header, cookie_secret, bearer_secret) {
        Option::Some(c) => if now <= c.exp {
            Option::Some(c)
        } else {
            Option::None
        },
        Option::None => Option::None,
    }
}

/// The authenticated tier additionally requires a username.
pub open spec fn authenticated_grants(
    cookie: Option<Seq<u8>>,
    header: Option<Seq<u8>>,
    cookie_secret: Seq<u8>,
    bearer_secret: Seq<u8>,
    now: int,
) -> Option<ClaimsView> {
    match basic_grants(cookie, header, cookie_secret, bearer_secret, now) {
        Option::Some(c) => if c.username is Some {
            Option::Some(c)
        } else {
            Option::None
        },
        Option::None => Option::None,
    }
}

/// The root tier additionally requires root-team membership.
pub open spec fn root_grants(
    cookie: Option<Seq<u8>>,
    header: Option<Seq<u8>>,
    cookie_secret: Seq<u8>,
    bearer_secret: Seq<u8>,
    now: int,
    member: bool,
) -> Option<ClaimsView> {
    match authenticated_grants(cookie, header, cookie_secret, bearer_secret, now) {
        Option::Some(c) => if member {
            Option::Some(c)
        } else {
            Option::None
        },
        Option::None => Option::None,
    }
}

/// Tier escalation is monotonic: whenever the root tier grants a record,
/// the authenticated and basic tiers grant the very same record on the
/// same credential, and likewise from authenticated down to basic.
pub proof fn lemma_tier_monotonic(
    cookie: Option<Seq<u8>>,
    header: Option<Seq<u8>>,
    cookie_secret: Seq<u8>,
    bearer_secret: Seq<u8>,
    now: int,
    member: bool,
)
    ensures
        root_grants(cookie, header, cookie_secret, bearer_secret, now, member) is Some
            ==> authenticated_grants(cookie, header, cookie_secret, bearer_secret, now)
            == root_grants(cookie, header, cookie_secret, bearer_secret, now, member),
        authenticated_grants(cookie, header, cookie_secret, bearer_secret, now) is Some
            ==> basic_grants(cookie, header, cookie_secret, bearer_secret, now)
            == authenticated_grants(cookie, header, cookie_secret, bearer_secret, now),
{
}

/// Run the entry transition: resolve, then enforce expiry.
///
/// Any failure — absent credential, bad decode, bad signature, expired
/// record — is the soft `NotApplicable`, so the caller can fall back to
/// anonymous handling. The `bool` asks the caller to re-issue the cookie.
pub fn basic_guard(
    cookie: Option<&str>,
    header: Option<&str>,
    cookie_secret: &Vec<u8>,
    bearer_secret: &Vec<u8>,
    now: i64,
) -> (o: TierOutcome<(UserGuard, bool)>)
    ensures
        ({
            let grant = basic_grants(
                source_bytes(cookie),
                source_bytes(header),
                cookie_secret@,
                bearer_secret@,
                now as int,
            );
            match o {
                TierOutcome::Granted(p) => grant == Option::Some(p.0@) && claims_wf(p.0@) && p.1
                    == (cookie is Some),
                TierOutcome::NotApplicable => grant is None,
                TierOutcome::Denied => false,
                TierOutcome::Fault => false,
            }
        }),
{
    match resolve(cookie, header, cookie_secret, bearer_secret) {
        Result::Ok((g, from_cookie)) => match check_expiry(g, now) {
            Result::Ok(g) => TierOutcome::Granted((g, from_cookie)),
            Result::Err(_) => TierOutcome::NotApplicable,
        },
        Result::Err(_) => TierOutcome::NotApplicable,
    }
}

/// Escalate a basic grant to the authenticated tier: requires a username;
/// its absence is the soft refusal, never the hard one.
pub fn escalate_authenticated(g: UserGuard) -> (o: TierOutcome<AuthenticatedUserGuard>)
    ensures
        match o {
            TierOutcome::Granted(a) => a@ == g@ && g@.username is Some,
            TierOutcome::NotApplicable => g@.username is None,
            TierOutcome::Denied => false,
            TierOutcome::Fault => false,
        },
{
    match AuthenticatedUserGuard::try_new(g) {
        Result::Ok(a) => TierOutcome::Granted(a),
        Result::Err(_) => TierOutcome::NotApplicable,
    }
}

/// Run the authenticated tier end to end.
pub fn authenticated_guard(
    cookie: Option<&str>,
    header: Option<&str>,
    cookie_secret: &Vec<u8>,
    bearer_secret: &Vec<u8>,
    now: i64,
) -> (o: TierOutcome<(AuthenticatedUserGuard, bool)>)
    ensures
        ({
            let grant = authenticated_grants(
                source_bytes(cookie),
                source_bytes(header),
                cookie_secret@,
                bearer_secret@,
                now as int,
            );
            match o {
                TierOutcome::Granted(p) => grant == Option::Some(p.0@) && claims_wf(p.0@) && p.1
                    == (cookie is Some),
                TierOutcome::NotApplicable => grant is None,
                TierOutcome::Denied => false,
                TierOutcome::Fault => false,
            }
        }),
{
    match basic_guard(cookie, header, cookie_secret, bearer_secret, now) {
        TierOutcome::Granted((g, refresh)) => match escalate_authenticated(g) {
            TierOutcome::Granted(a) => TierOutcome::Granted((a, refresh)),
            _ => TierOutcome::NotApplicable,
        },
        _ => TierOutcome::NotApplicable,
    }
}

/// A trust tier. Tiers are strictly ordered: basic below authenticated
/// below root, and a guard for a higher tier proves the lower ones.
#[derive(Clone, Copy, Debug, PartialEq, Eq, Structural)]
pub enum Tier {
    Basic,
    Authenticated,
    Root,
}

/// The rank of a tier in the strict order.
pub open spec fn tier_rank(t: Tier) -> int {
    match t {
        Tier::Basic => 0,
        Tier::Authenticated => 1,
        Tier::Root => 2,
    }
}

/// Whether `a` carries at least the trust of `b`.
pub fn tier_at_least(a: Tier, b: Tier) -> (r: bool)
    ensures
        r == (tier_rank(a) >= tier_rank(b)),
{
    let ra: u8 = match a {
        Tier::Basic => 0,
        Tier::Authenticated => 1,
        Tier::Root => 2,
    };
    let rb: u8 = match b {
        Tier::Basic => 0,
        Tier::Authenticated => 1,
        Tier::Root => 2,
    };
    ra >= rb
}

/// Escalate an authenticated grant to the root tier from the repository's
/// answer about root-team membership: a repository error is a fault, a
/// negative answer the soft refusal.
pub fn escalate_root(user: &AuthenticatedUserGuard, membership: Result<bool, AuthError>) -> (o:
    TierOutcome<RootUserGuard>)
    ensures
        match o {
            TierOutcome::Granted(r) => membership == Result::<bool, AuthError>::Ok(true)
                && r.id as int == user@.id,
            TierOutcome::NotApplicable => membership == Result::<bool, AuthError>::Ok(false),
            TierOutcome::Denied => false,
            TierOutcome::Fault => membership is Err,
        },
{
    match membership {
        Result::Ok(true) => TierOutcome::Granted(RootUserGuard { id: user.id() }),
        Result::Ok(false) => TierOutcome::NotApplicable,
        Result::Err(_) => TierOutcome::Fault,
    }
}


/// Run the root tier end to end against the repository: resolve, enforce
/// expiry, require a username, then require membership of the configured
/// root team. The in-memory repository cannot fail, so no outcome here is
/// a fault; a caller driving a fallible repository composes
/// [`authenticated_guard`] with [`escalate_root`] instead.
pub fn root_guard(
    store: &IdentityStore,
    config: &RetronomiconConfig,
    cookie: Option<&str>,
    header: Option<&str>,
    cookie_secret: &Vec<u8>,
    bearer_secret: &Vec<u8>,
    now: i64,
) -> (o: TierOutcome<RootUserGuard>)
    ensures
        ({
            let grant = authenticated_grants(
                source_bytes(cookie),
                source_bytes(header),
                cookie_secret@,
                bearer_secret@,
                now as int,
            );
            match o {
                TierOutcome::Granted(r) => grant matches Option::Some(c) && c.id == r.id as int
                    && is_team_member(store, r.id, config.root_team_id),
                TierOutcome::NotApplicable => grant is None || (grant matches Option::Some(c)
                    && !exists|i: int|
                        0 <= i < store.teams@.len() && (#[trigger] store.teams@[i]).0 as int
                            == c.id && store.teams@[i].1 == config.root_team_id),
                TierOutcome::Denied => false,
                TierOutcome::Fault => false,
            }
        }),
{
    match authenticated_guard(cookie, header, cookie_secret, bearer_secret, now) {
        TierOutcome::Granted((user, _refresh)) => {
            let id = user.id();
            let member = store.user_is_in_team(id, config.root_team_id);
            match escalate_root(&user, Result::Ok(member)) {
                TierOutcome::Granted(r) => {
                    proof {
                        let i = choose|i: int|
                            0 <= i < store.teams@.len() && #[trigger] store.teams@[i] == (
                                id,
                                config.root_team_id,
                            );
                    }
                    TierOutcome::Granted(r)
                },
                _ => {
                    proof {
                        if exists|i: int|
                            0 <= i < store.teams@.len() && (#[trigger] store.teams@[i]).0 as int
                                == user@.id && store.teams@[i].1 == config.root_team_id {
                            let i = choose|i: int|
                                0 <= i < store.teams@.len() && (
                                #[trigger] store.teams@[i]).0 as int == user@.id
                                    && store.teams@[i].1 == config.root_team_id;
                            assert(store.teams@[i] == (id, config.root_team_id));
                        }
                    }
                    TierOutcome::NotApplicable
                },
            }
        },
        _ => TierOutcome::NotApplicable,
    }
}

} // verus!
