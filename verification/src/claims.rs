//! The claims record and the guard types wrapped around it.
//!
//! A claims record carries a subject id, an optional username and an
//! absolute expiry timestamp. It is the single schema shared by the cookie
//! and the bearer transport.

use vstd::prelude::*;
use crate::username::valid_username;

verus! {

/// Mathematical value of a claims record.
pub ghost struct ClaimsView {
    pub id: int,
    pub username: Option<Seq<char>>,
    pub exp: int,
}

/// A possibly not-fully-signed-up user: any structurally valid claims
/// record resolves to this guard.
#[derive(Clone, Debug)]
pub struct UserGuard {
    pub id: i32,
    pub username: Option<String>,
    pub exp: i64,
}

impl View for UserGuard {
    type V = ClaimsView;

    open spec fn view(&self) -> ClaimsView {
        ClaimsView {
            id: self.id as int,
            username: match self.username {
                Option::Some(u) => Option::Some(u@),
                Option::None => Option::None,
            },
            exp: self.exp as int,
        }
    }
}

/// A claims record is well formed when its username, if present, obeys the
/// username rules. Every path that hands out claims keeps this.
pub open spec fn claims_wf(c: ClaimsView) -> bool {
    match c.username {
        Option::Some(u) => valid_username(u),
        Option::None => true,
    }
}

impl UserGuard {
    /// Build a claims record after checking expiry against `now` and the
    /// username against the username rules, as every issuance path must.
    pub fn new(id: i32, username: Option<String>, exp: i64, now: i64) -> (r: Result<
        Self,
        &'static str,
    >)
        ensures
            match r {
                Result::Ok(g) => {
                    &&& exp >= now
                    &&& g@ == (ClaimsView {
                        id: id as int,
                        username: match username {
                            Option::Some(u) => Option::Some(u@),
                            Option::None => Option::None,
                        },
                        exp: exp as int,
                    })
                    &&& claims_wf(g@)
                },
                Result::Err(_) => exp < now || (username matches Option::Some(u)
                    && !valid_username(u@)),
            },
    {
        if exp < now {
            return Result::Err("Invalid expiry");
        }
        if let Option::Some(ref n) = username {
            if !crate::username::validate_username(n.as_str()) {
                return Result::Err("Invalid username");
            }
        }
        Result::Ok(Self::new_unchecked(id, username, exp))
    }

    /// Build a claims record from parts already known to be valid.
    pub fn new_unchecked(id: i32, username: Option<String>, exp: i64) -> (g: Self)
        ensures
            g.id == id,
            g.username == username,
            g.exp == exp,
    {
        Self { id, username, exp }
    }

    /// Replace the expiry timestamp.
    pub fn set_expiry(&mut self, expiry: i64)
        ensures
            final(self).id == old(self).id,
            final(self).username == old(self).username,
            final(self).exp == expiry,
    {
        self.exp = expiry;
    }
}

/// A user that completed signup: claims with a username present. The
/// type carries that fact as an invariant: every value of it holds a
/// username.
#[derive(Debug)]
pub struct AuthenticatedUserGuard {
    inner: UserGuard,
}

impl View for AuthenticatedUserGuard {
    type V = ClaimsView;

    closed spec fn view(&self) -> ClaimsView {
        self.inner@
    }
}

impl AuthenticatedUserGuard {
    /// The type's invariant: the username is present.
    #[verifier::type_invariant]
    spec fn username_present(self) -> bool {
        self.inner@.username is Some
    }

    /// Escalate a basic guard; fails exactly when no username is set.
    pub fn try_new(user: UserGuard) -> (r: Result<Self, UserGuard>)
        ensures
            match r {
                Result::Ok(a) => a@ == user@ && a@.username is Some,
                Result::Err(u) => u == user && user@.username is None,
            },
    {
        if user.username.is_some() {
            Result::Ok(Self { inner: user })
        } else {
            Result::Err(user)
        }
    }

    /// The underlying claims record, its username still present.
    pub fn into_inner(self) -> (g: UserGuard)
        ensures
            g@ == self@,
            g@.username is Some,
    {
        proof {
            use_type_invariant(&self);
        }
        self.inner
    }

    /// The subject id, without giving the record up.
    pub fn id(&self) -> (id: i32)
        ensures
            id as int == self@.id,
            self@.username is Some,
    {
        proof {
            use_type_invariant(self);
        }
        self.inner.id
    }
}

/// A user that is part of the root team.
#[derive(Clone, Debug)]
pub struct RootUserGuard {
    pub id: i32,
}

} // verus!
