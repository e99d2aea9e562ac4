//! The login flows: deriving claims from identities, password login, and
//! find-or-create provider login.

use vstd::prelude::*;
use vstd::string::StringExecFns;
use crate::claims::{ClaimsView, UserGuard, claims_wf};
use crate::guard::AuthError;
use crate::repo::{
    Identity, IdentityStore, RepoError, rows_of, store_wf, has_auth, has_id, row_matches_auth,
    row_matches_password,
};
use crate::username::validate_username;
use crate::{SESSION_TTL_SECONDS, default_expiration};

verus! {

/// The claims a freshly loaded identity resolves to at time `now`.
pub open spec fn claims_of_identity(u: crate::repo::IdentityView, now: int) -> ClaimsView {
    ClaimsView { id: u.id, username: u.username, exp: now + SESSION_TTL_SECONDS }
}

impl UserGuard {
    /// Derive a claims record from a persisted identity, valid for one
    /// TTL from `now`.
    pub fn from_model(user: &Identity, now: i64) -> (g: UserGuard)
        requires
            now + SESSION_TTL_SECONDS <= i64::MAX,
            match user@.username {
                Option::Some(u) => crate::username::valid_username(u),
                Option::None => true,
            },
        ensures
            g@ == claims_of_identity(user@, now as int),
            claims_wf(g@),
    {
        let username = match &user.username {
            Option::Some(u) => Option::Some(u.clone()),
            Option::None => Option::None,
        };
        UserGuard::new_unchecked(user.id, username, default_expiration(now))
    }

    /// Load the full identity behind this record; a missing row is an
    /// infrastructure fault, not an authentication failure.
    pub fn into_model(self, store: &IdentityStore) -> (r: Result<Identity, AuthError>)
        ensures
            match r {
                Result::Ok(u) => u@.id == self@.id && has_id(store, self@.id) && exists|i: int|
                    0 <= i < rows_of(store).len() && (#[trigger] rows_of(store)[i]).identity
                        == u@,
                Result::Err(e) => e == AuthError::Fault && !has_id(store, self@.id),
            },
    {
        match store.find_by_id(self.id) {
            Option::Some(u) => Result::Ok(u),
            Option::None => Result::Err(AuthError::Fault),
        }
    }

    /// Resolve an id to fresh claims; a missing row reads as an
    /// authentication failure here, as on the request path.
    pub fn from_db(store: &IdentityStore, id: i32, now: i64) -> (r: Result<UserGuard, AuthError>)
        requires
            store_wf(store),
            now + SESSION_TTL_SECONDS <= i64::MAX,
        ensures
            match r {
                Result::Ok(g) => {
                    &&& has_id(store, id as int)
                    &&& exists|i: int|
                        0 <= i < rows_of(store).len() && (#[trigger] rows_of(store)[i]).identity.id
                            == id as int && g@ == claims_of_identity(
                            rows_of(store)[i].identity,
                            now as int,
                        )
                    &&& claims_wf(g@)
                },
                Result::Err(e) => e == AuthError::Unauthenticated && !has_id(store, id as int),
            },
    {
        match store.find_by_id(id) {
            Option::Some(u) => {
                proof {
                    let i = choose|i: int|
                        0 <= i < rows_of(store).len() && (#[trigger] rows_of(store)[i]).identity
                            == u@;
                    assert(rows_of(store)[i].identity == u@);
                }
                Result::Ok(UserGuard::from_model(&u, now))
            },
            Option::None => Result::Err(AuthError::Unauthenticated),
        }
    }
}

impl UserGuard {
    /// Apply a profile update on behalf of this record. A requested
    /// username must obey the rules and not be carried by any other
    /// account; the description is replaced when given; the link list is
    /// rewritten per the added and removed keys. A missing row behind a
    /// live claims record is an infrastructure fault. Nothing in the form
    /// is silently ignored.
    pub fn update(&self, store: &mut IdentityStore, form: &crate::params::UpdateUser) -> (r:
        Result<(), AuthError>)
        requires
            store_wf(old(store)),
        ensures
            store_wf(final(store)),
            final(store).teams == old(store).teams,
            final(store).next_id == old(store).next_id,
            match r {
                Result::Ok(_) => {
                    &&& has_id(old(store), self@.id)
                    &&& match form.username {
                        Option::Some(u) => crate::username::valid_username(u@)
                            && !crate::repo::username_taken_by_other(old(store), u@, self@.id),
                        Option::None => true,
                    }
                    &&& rows_of(final(store)).len() == rows_of(old(store)).len()
                    &&& forall|i: int|
                        0 <= i < rows_of(old(store)).len() ==> if (
                        #[trigger] rows_of(old(store))[i]).identity.id == self@.id {
                            rows_of(final(store))[i] == (crate::repo::RecordView {
                                identity: crate::repo::IdentityView {
                                    username: match form.username {
                                        Option::Some(u) => Option::Some(u@),
                                        Option::None => rows_of(
                                            old(store),
                                        )[i].identity.username,
                                    },
                                    description: match form.description {
                                        Option::Some(d) => Option::Some(d@),
                                        Option::None => rows_of(
                                            old(store),
                                        )[i].identity.description,
                                    },
                                    links: crate::repo::apply_links(
                                        rows_of(old(store))[i].identity.links,
                                        crate::params::split_pairs_view(form.add_link@),
                                        crate::repo::strings_view(form.remove_link@),
                                    ),
                                    ..rows_of(old(store))[i].identity
                                },
                                password: rows_of(old(store))[i].password,
                            })
                        } else {
                            rows_of(final(store))[i] == rows_of(old(store))[i]
                        }
                },
                Result::Err(e) => {
                    &&& *final(store) == *old(store)
                    &&& (e == AuthError::Fault ==> !has_id(old(store), self@.id))
                    &&& (e == AuthError::Validation ==> (form.username matches Option::Some(u)
                        && (!crate::username::valid_username(u@)
                        || crate::repo::username_taken_by_other(old(store), u@, self@.id))))
                    &&& ((form.username matches Option::Some(u)
                        && !crate::username::valid_username(u@)) ==> e == AuthError::Validation)
                    &&& e != AuthError::Unauthenticated
                },
            },
    {
        if let Option::Some(name) = &form.username {
            if !validate_username(name.as_str()) {
                return Result::Err(AuthError::Validation);
            }
        }
        let add_pairs: Vec<(String, String)> = match crate::params::links_dictionary_from_arg(
            &form.add_link,
        ) {
            Option::Some(v) => v,
            Option::None => Vec::new(),
        };
        proof {
            assert(crate::repo::pairs_view(add_pairs@) =~= crate::params::split_pairs_view(
                form.add_link@,
            )) by {
                if form.add_link@.len() > 0 {
                    assert forall|i: int| 0 <= i < add_pairs@.len() implies #[trigger]
                        crate::repo::pairs_view(add_pairs@)[i]
                        == crate::params::split_pairs_view(form.add_link@)[i] by {
                        assert(crate::repo::pairs_view(add_pairs@)[i] == (
                            add_pairs@[i].0@,
                            add_pairs@[i].1@,
                        ));
                        assert(crate::params::split_pairs_view(form.add_link@)[i]
                            == crate::params::split_pair(form.add_link@[i]@));
                    }
                }
            }
        }
        let username_arg = match &form.username {
            Option::Some(n) => Option::Some(n.clone()),
            Option::None => Option::None,
        };
        let description_arg = match &form.description {
            Option::Some(d) => Option::Some(d.clone()),
            Option::None => Option::None,
        };
        let remove_arg = crate::repo::clone_strings(&form.remove_link);
        match store.update_profile(self.id, username_arg, description_arg, add_pairs, remove_arg)
        {
            Result::Ok(_) => Result::Ok(()),
            Result::Err(RepoError::NotFound) => Result::Err(AuthError::Fault),
            Result::Err(RepoError::Conflict) => Result::Err(AuthError::Validation),
        }
    }
}

impl crate::claims::AuthenticatedUserGuard {
    /// Load the full identity behind an authenticated guard.
    pub fn into_model(self, store: &IdentityStore) -> (r: Result<Identity, AuthError>)
        ensures
            match r {
                Result::Ok(u) => u@.id == self@.id && has_id(store, self@.id),
                Result::Err(e) => e == AuthError::Fault && !has_id(store, self@.id),
            },
    {
        self.into_inner().into_model(store)
    }
}

/// Failure of a profile update.
#[derive(Clone, Copy, Debug, PartialEq, Eq, Structural)]
pub enum UpdateError {
    /// The account already carries a username; it cannot be replaced.
    UsernameAlreadySet,
    /// The requested username breaks the username rules.
    InvalidUsername,
}

/// Gate a profile update that may set a username: a username can be set
/// once, and only to a name obeying the rules.
pub fn validate_username_change(current: &Option<String>, requested: &Option<String>) -> (r:
    Result<(), UpdateError>)
    ensures
        match r {
            Result::Ok(_) => match requested {
                Option::Some(u) => current is None && crate::username::valid_username(u@),
                Option::None => true,
            },
            Result::Err(e) => {
                &&& (e == UpdateError::UsernameAlreadySet <==> current is Some && requested
                    is Some)
                &&& (e == UpdateError::InvalidUsername <==> current is None && (
                requested matches Option::Some(u) && !crate::username::valid_username(u@)))
            },
        },
{
    match requested {
        Option::Some(u) => {
            if current.is_some() {
                Result::Err(UpdateError::UsernameAlreadySet)
            } else if !validate_username(u.as_str()) {
                Result::Err(UpdateError::InvalidUsername)
            } else {
                Result::Ok(())
            }
        },
        Option::None => Result::Ok(()),
    }
}

impl UserGuard {
    /// Password login: the repository checks the credential; any miss —
    /// an unknown email just as much as a wrong password — surfaces as
    /// the one generic `Unauthenticated` value, with no distinguishing
    /// signal.
    pub fn login_from_password(
        store: &IdentityStore,
        email: &str,
        password: &str,
        pepper: &[u8],
        now: i64,
    ) -> (r: Result<(Identity, UserGuard), AuthError>)
        requires
            store_wf(store),
            now + SESSION_TTL_SECONDS <= i64::MAX,
        ensures
            match r {
                Result::Ok(p) => {
                    &&& exists|i: int|
                        0 <= i < rows_of(store).len() && row_matches_password(
                            #[trigger] rows_of(store)[i],
                            email@,
                            password@,
                        ) && rows_of(store)[i].identity == p.0@
                    &&& p.1@ == claims_of_identity(p.0@, now as int)
                    &&& claims_wf(p.1@)
                },
                Result::Err(e) => {
                    &&& e == AuthError::Unauthenticated
                    &&& !exists|i: int|
                        0 <= i < rows_of(store).len() && row_matches_password(
                            #[trigger] rows_of(store)[i],
                            email@,
                            password@,
                        )
                },
            },
    {
        match store.find_by_password(email, password, pepper) {
            Option::Some(u) => {
                proof {
                    let i = choose|i: int|
                        0 <= i < rows_of(store).len() && row_matches_password(
                            #[trigger] rows_of(store)[i],
                            email@,
                            password@,
                        ) && rows_of(store)[i].identity == u@;
                    assert(rows_of(store)[i].identity == u@);
                }
                let g = UserGuard::from_model(&u, now);
                Result::Ok((u, g))
            },
            Option::None => Result::Err(AuthError::Unauthenticated),
        }
    }

    /// Provider login: find or create the identity for a third-party-verified
    /// email.
    ///
    /// An unusable username hint — malformed or already taken — is dropped,
    /// never fatal. A repeat login for a known `(email, provider)` pair is a
    /// pure lookup: no field is overwritten, the store comes back unchanged
    /// and `is_new` is false. Only a first login creates a row, exactly one.
    /// A create defeated by a concurrent insert is retried as a lookup once
    /// before surfacing a fault; against this store that arm is proven
    /// unreachable, so the flow always succeeds.
    pub fn login_from_auth(
        store: &mut IdentityStore,
        username: Option<String>,
        email: &str,
        auth_provider: String,
        avatar_url: Option<String>,
        now: i64,
    ) -> (r: Result<(bool, Identity, UserGuard), AuthError>)
        requires
            store_wf(old(store)),
            old(store).next_id < i32::MAX,
            now + SESSION_TTL_SECONDS <= i64::MAX,
        ensures
            store_wf(final(store)),
            match r {
                Result::Ok(p) => {
                    &&& p.0 == !has_auth(old(store), email@, auth_provider@)
                    &&& has_auth(final(store), email@, auth_provider@)
                    &&& p.2@ == claims_of_identity(p.1@, now as int)
                    &&& claims_wf(p.2@)
                    &&& p.1@.email == email@ && p.1@.provider == Option::Some(auth_provider@)
                    &&& (!p.0 ==> *final(store) == *old(store) && exists|i: int|
                        0 <= i < rows_of(old(store)).len() && row_matches_auth(
                            #[trigger] rows_of(old(store))[i],
                            email@,
                            auth_provider@,
                        ) && rows_of(old(store))[i].identity == p.1@)
                    &&& (p.0 ==> {
                        &&& p.1@.id == old(store).next_id as int
                        &&& p.1@.username == match username {
                            Option::Some(u) => if crate::username::valid_username(u@)
                                && !crate::repo::username_taken(old(store), u@) {
                                Option::Some(u@)
                            } else {
                                Option::<Seq<char>>::None
                            },
                            Option::None => Option::<Seq<char>>::None,
                        }
                        &&& p.1@.avatar_url == match avatar_url {
                            Option::Some(a) => Option::Some(a@),
                            Option::None => Option::<Seq<char>>::None,
                        }
                        &&& p.1.links@.len() == 0 && p.1.metadata@.len() == 0
                        &&& rows_of(final(store)) =~= rows_of(old(store)).push(
                            crate::repo::RecordView {
                                identity: p.1@,
                                password: Option::None,
                            },
                        )
                        &&& final(store).next_id == old(store).next_id + 1
                        &&& final(store).teams == old(store).teams
                    })
                },
                // With this store the flow cannot fail: an unusable hint is
                // dropped rather than fatal, and after the missed lookup the
                // create cannot conflict.
                Result::Err(_) => false,
            },
    {
        // An unusable hint is dropped, never fatal.
        let hint: Option<String> = match username {
            Option::Some(u) => {
                if validate_username(u.as_str()) && !store.is_username_taken(u.as_str()) {
                    Option::Some(u)
                } else {
                    Option::None
                }
            },
            Option::None => Option::None,
        };
        if let Option::Some(u) = store.find_by_auth(email, auth_provider.as_str()) {
            proof {
                let i = choose|i: int|
                    0 <= i < rows_of(store).len() && (#[trigger] rows_of(store)[i]).identity == u@;
                assert(rows_of(store)[i].identity == u@);
                let j = choose|j: int|
                    0 <= j < rows_of(store).len() && row_matches_auth(
                        #[trigger] rows_of(store)[j],
                        email@,
                        auth_provider@,
                    );
                assert(row_matches_auth(rows_of(store)[j], email@, auth_provider@));
            }
            let g = UserGuard::from_model(&u, now);
            return Result::Ok((false, u, g));
        }
        let created = store.create(
            hint,
            String::from_str(email),
            Option::Some(auth_provider.clone()),
            avatar_url,
            Option::None,
        );
        match created {
            Result::Ok(u) => {
                proof {
                    assert(rows_of(store)[rows_of(store).len() - 1].identity == u@);
                    assert(row_matches_auth(
                        rows_of(store)[rows_of(store).len() - 1],
                        email@,
                        auth_provider@,
                    ));
                }
                let g = UserGuard::from_model(&u, now);
                Result::Ok((true, u, g))
            },
            Result::Err(_) => {
                // Against a repository shared with concurrent logins this
                // arm is the once-retried recovery from a create defeated
                // by a racing insert. The in-memory store cannot race with
                // itself: the pair was just absent and the hint was
                // checked, so `create` cannot have conflicted.
                proof {
                    assert(false);
                }
                match store.find_by_auth(email, auth_provider.as_str()) {
                    Option::Some(u) => {
                        proof {
                            let i = choose|i: int|
                                0 <= i < rows_of(store).len() && (
                                #[trigger] rows_of(store)[i]).identity == u@;
                            assert(rows_of(store)[i].identity == u@);
                        }
                        let g = UserGuard::from_model(&u, now);
                        Result::Ok((false, u, g))
                    },
                    Option::None => Result::Err(AuthError::Fault),
                }
            },
        }
    }
}

} // verus!
