//! The identity repository, modeled as an in-memory store.
//!
//! The surrounding system keeps identities in a relational database; this
//! crate only relies on the abstract operations below and on the store
//! enforcing uniqueness of ids, usernames and `(email, provider)` pairs.
//! How the persistence layer hashes passwords is its own concern: the
//! model compares the stored credential directly and threads the pepper
//! through untouched.

use vstd::prelude::*;
use vstd::string::StringExecFns;
use crate::username::valid_username;

verus! {

/// Failure of a repository operation.
#[derive(Clone, Copy, Debug, PartialEq, Eq, Structural)]
pub enum RepoError {
    /// A uniqueness constraint (id, username or `(email, provider)`)
    /// would be violated.
    Conflict,
    /// No record with the given id.
    NotFound,
}

/// The content of a list of string pairs.
pub open spec fn pairs_view(v: Seq<(String, String)>) -> Seq<(Seq<char>, Seq<char>)> {
    v.map_values(|p: (String, String)| (p.0@, p.1@))
}

/// The content of a list of strings.
pub open spec fn strings_view(v: Seq<String>) -> Seq<Seq<char>> {
    v.map_values(|s: String| s@)
}

/// Mathematical value of an identity.
pub ghost struct IdentityView {
    pub id: int,
    pub username: Option<Seq<char>>,
    pub email: Seq<char>,
    pub provider: Option<Seq<char>>,
    pub avatar_url: Option<Seq<char>>,
    pub description: Option<Seq<char>>,
    pub links: Seq<(Seq<char>, Seq<char>)>,
    pub metadata: Seq<(Seq<char>, Seq<char>)>,
}

/// A persisted identity.
#[derive(Clone, Debug)]
pub struct Identity {
    pub id: i32,
    pub username: Option<String>,
    pub email: String,
    pub auth_provider: Option<String>,
    pub avatar_url: Option<String>,
    pub description: Option<String>,
    pub links: Vec<(String, String)>,
    pub metadata: Vec<(String, String)>,
}

impl View for Identity {
    type V = IdentityView;

    open spec fn view(&self) -> IdentityView {
        IdentityView {
            id: self.id as int,
            username: match self.username {
                Option::Some(u) => Option::Some(u@),
                Option::None => Option::None,
            },
            email: self.email@,
            provider: match self.auth_provider {
                Option::Some(p) => Option::Some(p@),
                Option::None => Option::None,
            },
            avatar_url: match self.avatar_url {
                Option::Some(a) => Option::Some(a@),
                Option::None => Option::None,
            },
            description: match self.description {
                Option::Some(d) => Option::Some(d@),
                Option::None => Option::None,
            },
            links: pairs_view(self.links@),
            metadata: pairs_view(self.metadata@),
        }
    }
}

/// A stored row: the identity plus its stored credential.
#[derive(Clone, Debug)]
pub struct IdentityRecord {
    pub identity: Identity,
    pub password: Option<String>,
}

/// Mathematical value of a stored row.
pub ghost struct RecordView {
    pub identity: IdentityView,
    pub password: Option<Seq<char>>,
}

impl View for IdentityRecord {
    type V = RecordView;

    open spec fn view(&self) -> RecordView {
        RecordView {
            identity: self.identity@,
            password: match self.password {
                Option::Some(p) => Option::Some(p@),
                Option::None => Option::None,
            },
        }
    }
}

/// The in-memory repository: identities plus team memberships.
#[derive(Debug)]
pub struct IdentityStore {
    pub users: Vec<IdentityRecord>,
    pub teams: Vec<(i32, i32)>,
    pub next_id: i32,
}

/// The rows of a store, as mathematical values.
pub open spec fn rows_of(s: &IdentityStore) -> Seq<RecordView> {
    s.users@.map_values(|r: IdentityRecord| r@)
}

/// A row carries this `(email, provider)` pair.
pub open spec fn row_matches_auth(r: RecordView, email: Seq<char>, provider: Seq<char>) -> bool {
    r.identity.email == email && r.identity.provider == Option::Some(provider)
}

/// A row carries this email and stored credential.
pub open spec fn row_matches_password(r: RecordView, email: Seq<char>, password: Seq<char>)
    -> bool {
    r.identity.email == email && r.password == Option::Some(password)
}

/// Some row carries this `(email, provider)` pair.
pub open spec fn has_auth(s: &IdentityStore, email: Seq<char>, provider: Seq<char>) -> bool {
    exists|i: int|
        0 <= i < rows_of(s).len() && row_matches_auth(#[trigger] rows_of(s)[i], email, provider)
}

/// A row other than the one with this id carries this username.
pub open spec fn username_taken_by_other(s: &IdentityStore, name: Seq<char>, id: int) -> bool {
    exists|i: int|
        0 <= i < rows_of(s).len() && (#[trigger] rows_of(s)[i]).identity.username
            == Option::Some(name) && rows_of(s)[i].identity.id != id
}

/// Some row carries this username.
pub open spec fn username_taken(s: &IdentityStore, name: Seq<char>) -> bool {
    exists|i: int|
        0 <= i < rows_of(s).len() && (#[trigger] rows_of(s)[i]).identity.username
            == Option::Some(name)
}

/// The subject belongs to the team, per the membership table.
pub open spec fn is_team_member(s: &IdentityStore, user_id: i32, team_id: i32) -> bool {
    exists|i: int| 0 <= i < s.teams@.len() && #[trigger] s.teams@[i] == (user_id, team_id)
}

/// Some row carries this id.
pub open spec fn has_id(s: &IdentityStore, id: int) -> bool {
    exists|i: int| 0 <= i < rows_of(s).len() && (#[trigger] rows_of(s)[i]).identity.id == id
}

/// The store's invariants: ids unique and below the allocator, usernames
/// valid and unique, `(email, provider)` pairs unique.
pub open spec fn store_wf(s: &IdentityStore) -> bool {
    let rows = rows_of(s);
    &&& 0 <= s.next_id
    &&& forall|i: int, j: int|
        0 <= i < j < rows.len() ==> (#[trigger] rows[i]).identity.id != (
        #[trigger] rows[j]).identity.id
    &&& forall|i: int|
        0 <= i < rows.len() ==> 0 <= (#[trigger] rows[i]).identity.id < s.next_id
    &&& forall|i: int|
        0 <= i < rows.len() ==> match (#[trigger] rows[i]).identity.username {
            Option::Some(u) => valid_username(u),
            Option::None => true,
        }
    &&& forall|i: int, j: int|
        0 <= i < j < rows.len() ==> ((#[trigger] rows[i]).identity.username is Some ==> (
        #[trigger] rows[j]).identity.username != rows[i].identity.username)
    &&& forall|i: int, j: int|
        0 <= i < j < rows.len() ==> !((#[trigger] rows[i]).identity.email == (
        #[trigger] rows[j]).identity.email && rows[i].identity.provider
            == rows[j].identity.provider && rows[i].identity.provider is Some)
}

/// String equality against a slice.
fn string_eq_str(a: &String, b: &str) -> (r: bool)
    ensures
        r == (a@ == b@),
{
    let bs = String::from_str(b);
    *a == bs
}

/// Equality of two optional strings, by content.
fn opt_string_eq(a: &Option<String>, b: &Option<String>) -> (r: bool)
    ensures
        r == match (a, b) {
            (Option::Some(x), Option::Some(y)) => x@ == y@,
            (Option::None, Option::None) => true,
            _ => false,
        },
{
    match (a, b) {
        (Option::Some(x), Option::Some(y)) => *x == *y,
        (Option::None, Option::None) => true,
        _ => false,
    }
}

impl IdentityStore {
    /// An empty repository.
    pub fn new() -> (s: Self)
        ensures
            store_wf(&s),
            rows_of(&s).len() == 0,
            s.teams@.len() == 0,
    {
        let s = IdentityStore { users: Vec::new(), teams: Vec::new(), next_id: 1 };
        proof {
            assert(rows_of(&s) =~= Seq::<RecordView>::empty());
        }
        s
    }

    /// Look an identity up by id.
    pub fn find_by_id(&self, id: i32) -> (r: Option<Identity>)
        ensures
            match r {
                Option::Some(u) => {
                    &&& has_id(self, id as int)
                    &&& u@.id == id as int
                    &&& exists|i: int|
                        0 <= i < rows_of(self).len() && (#[trigger] rows_of(self)[i]).identity
                            == u@
                },
                Option::None => !has_id(self, id as int),
            },
    {
        let n = self.users.len();
        let mut i: usize = 0;
        while i < n
            invariant
                i <= n,
                n == self.users@.len(),
                forall|j: int| 0 <= j < i ==> (#[trigger] rows_of(self)[j]).identity.id != id,
            decreases n - i,
        {
            if self.users[i].identity.id == id {
                proof {
                    assert(rows_of(self)[i as int] == self.users@[i as int]@);
                }
                return Option::Some(self.users[i].identity.clone_identity());
            }
            proof {
                assert(rows_of(self)[i as int] == self.users@[i as int]@);
            }
            i = i + 1;
        }
        Option::None
    }

    /// Look an identity up by `(email, provider)`.
    pub fn find_by_auth(&self, email: &str, provider: &str) -> (r: Option<Identity>)
        ensures
            match r {
                Option::Some(u) => {
                    &&& has_auth(self, email@, provider@)
                    &&& row_matches_auth(
                        RecordView { identity: u@, password: Option::None },
                        email@,
                        provider@,
                    )
                    &&& exists|i: int|
                        0 <= i < rows_of(self).len() && (#[trigger] rows_of(self)[i]).identity
                            == u@
                },
                Option::None => !has_auth(self, email@, provider@),
            },
    {
        let n = self.users.len();
        let mut i: usize = 0;
        while i < n
            invariant
                i <= n,
                n == self.users@.len(),
                forall|j: int|
                    0 <= j < i ==> !row_matches_auth(#[trigger] rows_of(self)[j], email@,
                    provider@),
            decreases n - i,
        {
            let rec = &self.users[i];
            let prov_matches = match &rec.identity.auth_provider {
                Option::Some(p) => string_eq_str(p, provider),
                Option::None => false,
            };
            proof {
                assert(rows_of(self)[i as int] == self.users@[i as int]@);
            }
            if prov_matches && string_eq_str(&rec.identity.email, email) {
                return Option::Some(rec.identity.clone_identity());
            }
            i = i + 1;
        }
        Option::None
    }

    /// Look an identity up by email and credential. The same `None` comes
    /// back for an unknown email and for a wrong password.
    pub fn find_by_password(&self, email: &str, password: &str, _pepper: &[u8]) -> (r: Option<
        Identity,
    >)
        ensures
            match r {
                Option::Some(u) => {
                    &&& exists|i: int|
                        0 <= i < rows_of(self).len() && row_matches_password(
                            #[trigger] rows_of(self)[i],
                            email@,
                            password@,
                        ) && rows_of(self)[i].identity == u@
                },
                Option::None => !exists|i: int|
                    0 <= i < rows_of(self).len() && row_matches_password(
                        #[trigger] rows_of(self)[i],
                        email@,
                        password@,
                    ),
            },
    {
        let n = self.users.len();
        let mut i: usize = 0;
        while i < n
            invariant
                i <= n,
                n == self.users@.len(),
                forall|j: int|
                    0 <= j < i ==> !row_matches_password(#[trigger] rows_of(self)[j], email@,
                    password@),
            decreases n - i,
        {
            let rec = &self.users[i];
            let pw_matches = match &rec.password {
                Option::Some(p) => string_eq_str(p, password),
                Option::None => false,
            };
            proof {
                assert(rows_of(self)[i as int] == self.users@[i as int]@);
            }
            if pw_matches && string_eq_str(&rec.identity.email, email) {
                return Option::Some(rec.identity.clone_identity());
            }
            i = i + 1;
        }
        Option::None
    }

    /// Whether a username is already carried by some row.
    pub fn is_username_taken(&self, name: &str) -> (r: bool)
        ensures
            r == username_taken(self, name@),
    {
        let n = self.users.len();
        let mut i: usize = 0;
        while i < n
            invariant
                i <= n,
                n == self.users@.len(),
                forall|j: int|
                    0 <= j < i ==> (#[trigger] rows_of(self)[j]).identity.username
                        != Option::Some(name@),
            decreases n - i,
        {
            let taken = match &self.users[i].identity.username {
                Option::Some(u) => string_eq_str(u, name),
                Option::None => false,
            };
            proof {
                assert(rows_of(self)[i as int] == self.users@[i as int]@);
            }
            if taken {
                return true;
            }
            i = i + 1;
        }
        false
    }

    /// Whether the subject belongs to the team.
    pub fn user_is_in_team(&self, user_id: i32, team_id: i32) -> (r: bool)
        ensures
            r == is_team_member(self, user_id, team_id),
    {
        let n = self.teams.len();
        let mut i: usize = 0;
        while i < n
            invariant
                i <= n,
                n == self.teams@.len(),
                forall|j: int| 0 <= j < i ==> #[trigger] self.teams@[j] != (user_id, team_id),
            decreases n - i,
        {
            let (u, t) = self.teams[i];
            if u == user_id && t == team_id {
                return true;
            }
            i = i + 1;
        }
        false
    }

    /// Record a team membership.
    pub fn add_team_member(&mut self, user_id: i32, team_id: i32)
        ensures
            final(self).users == old(self).users,
            final(self).next_id == old(self).next_id,
            final(self).teams@ == old(self).teams@.push((user_id, team_id)),
    {
        self.teams.push((user_id, team_id));
    }

    /// Create an identity, enforcing the uniqueness constraints; empty
    /// link and metadata collections, the id from the store's allocator.
    pub fn create(
        &mut self,
        username: Option<String>,
        email: String,
        provider: Option<String>,
        avatar_url: Option<String>,
        password: Option<String>,
    ) -> (r: Result<Identity, RepoError>)
        requires
            store_wf(old(self)),
            old(self).next_id < i32::MAX,
            match username {
                Option::Some(u) => valid_username(u@),
                Option::None => true,
            },
        ensures
            store_wf(final(self)),
            match r {
                Result::Ok(u) => {
                    &&& match provider {
                        Option::Some(p) => !has_auth(old(self), email@, p@),
                        Option::None => true,
                    }
                    &&& match username {
                        Option::Some(nm) => !username_taken(old(self), nm@),
                        Option::None => true,
                    }
                    &&& u@.id == old(self).next_id as int
                    &&& u@.email == email@
                    &&& u@.username == match username {
                        Option::Some(nm) => Option::Some(nm@),
                        Option::None => Option::<Seq<char>>::None,
                    }
                    &&& u@.provider == match provider {
                        Option::Some(p) => Option::Some(p@),
                        Option::None => Option::<Seq<char>>::None,
                    }
                    &&& u@.avatar_url == match avatar_url {
                        Option::Some(a) => Option::Some(a@),
                        Option::None => Option::<Seq<char>>::None,
                    }
                    &&& u.links@.len() == 0 && u.metadata@.len() == 0
                    &&& rows_of(final(self)) =~= rows_of(old(self)).push(
                        RecordView {
                            identity: u@,
                            password: match password {
                                Option::Some(p) => Option::Some(p@),
                                Option::None => Option::<Seq<char>>::None,
                            },
                        },
                    )
                    &&& final(self).next_id == old(self).next_id + 1
                    &&& final(self).teams == old(self).teams
                },
                Result::Err(e) => {
                    &&& e == RepoError::Conflict
                    &&& *final(self) == *old(self)
                    &&& (match provider {
                        Option::Some(p) => has_auth(old(self), email@, p@),
                        Option::None => false,
                    } || match username {
                        Option::Some(nm) => username_taken(old(self), nm@),
                        Option::None => false,
                    })
                },
            },
    {
        if let Option::Some(p) = &provider {
            if self.find_by_auth(email.as_str(), p.as_str()).is_some() {
                return Result::Err(RepoError::Conflict);
            }
        }
        if let Option::Some(nm) = &username {
            if self.is_username_taken(nm.as_str()) {
                return Result::Err(RepoError::Conflict);
            }
        }
        let identity = Identity {
            id: self.next_id,
            username,
            email,
            auth_provider: provider,
            avatar_url,
            description: Option::None,
            links: Vec::new(),
            metadata: Vec::new(),
        };
        let out = identity.clone_identity();
        let ghost old_rows = rows_of(self);
        let rec = IdentityRecord { identity, password };
        let ghost recv = rec@;
        self.users.push(rec);
        self.next_id = self.next_id + 1;
        proof {
            assert(old_rows =~= rows_of(old(self)));
            assert(rows_of(self) =~= old_rows.push(recv));
            let rows = rows_of(self);
            let m = old_rows.len() as int;
            assert forall|i: int| 0 <= i < m implies rows[i] == old_rows[i] by {}
            assert(rows[m] == recv);
            assert(recv.identity.id == old(self).next_id);
            assert(self.next_id == old(self).next_id + 1);
            assert(store_wf(self)) by {
                assert forall|i: int, j: int| 0 <= i < j < rows.len() implies (
                    #[trigger] rows[i]).identity.id != (#[trigger] rows[j]).identity.id by {
                    assert(rows[i] == rows_of(old(self))[i]);
                    if j < m {
                        assert(rows[j] == rows_of(old(self))[j]);
                    } else {
                        assert(rows[j] == recv);
                        assert(0 <= rows_of(old(self))[i].identity.id < old(self).next_id);
                    }
                }
                assert forall|i: int| 0 <= i < rows.len() implies 0 <= (
                    #[trigger] rows[i]).identity.id < self.next_id by {
                    if i < m {
                        assert(rows[i] == rows_of(old(self))[i]);
                        assert(0 <= rows_of(old(self))[i].identity.id < old(self).next_id);
                    } else {
                        assert(rows[i] == recv);
                    }
                }
                assert forall|i: int| 0 <= i < rows.len() implies match (
                    #[trigger] rows[i]).identity.username {
                    Option::Some(u) => valid_username(u),
                    Option::None => true,
                } by {
                    if i < m {
                        assert(rows[i] == rows_of(old(self))[i]);
                        assert(match rows_of(old(self))[i].identity.username {
                            Option::Some(u) => valid_username(u),
                            Option::None => true,
                        });
                    }
                }
                assert forall|i: int, j: int| 0 <= i < j < rows.len() implies ((
                    #[trigger] rows[i]).identity.username is Some ==> (
                    #[trigger] rows[j]).identity.username != rows[i].identity.username) by {
                    assert(rows[i] == rows_of(old(self))[i]);
                    if j < m {
                        assert(rows[j] == rows_of(old(self))[j]);
                    } else {
                        assert(rows[j] == recv);
                        if rows[i].identity.username is Some && rows[j].identity.username
                            == rows[i].identity.username {
                            assert(rows_of(old(self))[i].identity.username == Option::Some(
                                recv.identity.username->Some_0,
                            ));
                            assert(username_taken(old(self), recv.identity.username->Some_0));
                        }
                    }
                }
                assert forall|i: int, j: int| 0 <= i < j < rows.len() implies !((
                    #[trigger] rows[i]).identity.email == (
                    #[trigger] rows[j]).identity.email && rows[i].identity.provider
                    == rows[j].identity.provider && rows[i].identity.provider is Some) by {
                    assert(rows[i] == rows_of(old(self))[i]);
                    if j < m {
                        assert(rows[j] == rows_of(old(self))[j]);
                    } else {
                        assert(rows[j] == recv);
                        if rows[i].identity.email == recv.identity.email
                            && rows[i].identity.provider == recv.identity.provider
                            && rows[i].identity.provider is Some {
                            assert(row_matches_auth(
                                rows_of(old(self))[i],
                                recv.identity.email,
                                recv.identity.provider->Some_0,
                            ));
                            assert(has_auth(
                                old(self),
                                recv.identity.email,
                                recv.identity.provider->Some_0,
                            ));
                        }
                    }
                }
            }
        }
        Result::Ok(out)
    }
}


/// A key occurs among the pairs to add.
pub open spec fn key_in_adds(add: Seq<(Seq<char>, Seq<char>)>, k: Seq<char>) -> bool {
    exists|i: int| 0 <= i < add.len() && (#[trigger] add[i]).0 == k
}

/// A key occurs among the keys to remove.
pub open spec fn key_in_removes(remove: Seq<Seq<char>>, k: Seq<char>) -> bool {
    exists|i: int| 0 <= i < remove.len() && #[trigger] remove[i] == k
}

/// The links kept by an update: those whose key is neither removed nor
/// re-added.
pub open spec fn kept_links(
    links: Seq<(Seq<char>, Seq<char>)>,
    add: Seq<(Seq<char>, Seq<char>)>,
    remove: Seq<Seq<char>>,
) -> Seq<(Seq<char>, Seq<char>)>
    decreases links.len(),
{
    if links.len() == 0 {
        Seq::empty()
    } else {
        kept_links(links.drop_last(), add, remove) + (if key_in_removes(remove, links.last().0)
            || key_in_adds(add, links.last().0) {
            Seq::empty()
        } else {
            seq![links.last()]
        })
    }
}

/// A link update: drop the removed and re-added keys, then append the
/// added pairs.
pub open spec fn apply_links(
    links: Seq<(Seq<char>, Seq<char>)>,
    add: Seq<(Seq<char>, Seq<char>)>,
    remove: Seq<Seq<char>>,
) -> Seq<(Seq<char>, Seq<char>)> {
    kept_links(links, add, remove) + add
}

/// Whether `k` occurs among these keys.
fn key_in_strings(keys: &Vec<String>, k: &String) -> (r: bool)
    ensures
        r == key_in_removes(strings_view(keys@), k@),
{
    let n = keys.len();
    let mut i: usize = 0;
    while i < n
        invariant
            i <= n,
            n == keys@.len(),
            forall|j: int| 0 <= j < i ==> #[trigger] strings_view(keys@)[j] != k@,
        decreases n - i,
    {
        proof {
            assert(strings_view(keys@)[i as int] == keys@[i as int]@);
        }
        if keys[i] == *k {
            return true;
        }
        i = i + 1;
    }
    false
}

/// Whether `k` occurs among the keys of these pairs.
fn key_in_pair_list(pairs: &Vec<(String, String)>, k: &String) -> (r: bool)
    ensures
        r == key_in_adds(pairs_view(pairs@), k@),
{
    let n = pairs.len();
    let mut i: usize = 0;
    while i < n
        invariant
            i <= n,
            n == pairs@.len(),
            forall|j: int| 0 <= j < i ==> (#[trigger] pairs_view(pairs@)[j]).0 != k@,
        decreases n - i,
    {
        proof {
            assert(pairs_view(pairs@)[i as int] == (pairs@[i as int].0@, pairs@[i as int].1@));
        }
        if pairs[i].0 == *k {
            return true;
        }
        i = i + 1;
    }
    false
}

/// Apply a link update to a link list.
fn links_apply(
    links: &Vec<(String, String)>,
    add: &Vec<(String, String)>,
    remove: &Vec<String>,
) -> (out: Vec<(String, String)>)
    ensures
        pairs_view(out@) =~= apply_links(
            pairs_view(links@),
            pairs_view(add@),
            strings_view(remove@),
        ),
{
    let ghost lv = pairs_view(links@);
    let ghost av = pairs_view(add@);
    let ghost rv = strings_view(remove@);
    let n = links.len();
    let mut out: Vec<(String, String)> = Vec::new();
    let mut i: usize = 0;
    proof {
        assert(lv.take(0) =~= Seq::<(Seq<char>, Seq<char>)>::empty());
    }
    while i < n
        invariant
            i <= n,
            n == links@.len(),
            lv == pairs_view(links@) && av == pairs_view(add@) && rv == strings_view(remove@),
            pairs_view(out@) =~= kept_links(lv.take(i as int), av, rv),
        decreases n - i,
    {
        let (k, v) = &links[i];
        proof {
            assert(lv[i as int] == (links@[i as int].0@, links@[i as int].1@));
            assert(lv.take(i + 1).drop_last() =~= lv.take(i as int));
            assert(lv.take(i + 1).last() == lv[i as int]);
        }
        let ghost before = pairs_view(out@);
        if !key_in_strings(remove, k) && !key_in_pair_list(add, k) {
            out.push((k.clone(), v.clone()));
            proof {
                assert(pairs_view(out@) =~= before + seq![lv[i as int]]);
            }
        }
        i = i + 1;
    }
    proof {
        assert(lv.take(n as int) =~= lv);
    }
    let ghost kept = pairs_view(out@);
    let m = add.len();
    let mut j: usize = 0;
    while j < m
        invariant
            j <= m,
            m == add@.len(),
            av == pairs_view(add@),
            pairs_view(out@) =~= kept + av.take(j as int),
        decreases m - j,
    {
        let (k, v) = &add[j];
        proof {
            assert(av[j as int] == (add@[j as int].0@, add@[j as int].1@));
            assert(av.take(j + 1) =~= av.take(j as int).push(av[j as int]));
        }
        let ghost before = pairs_view(out@);
        out.push((k.clone(), v.clone()));
        proof {
            assert(pairs_view(out@) =~= before + seq![av[j as int]]);
        }
        j = j + 1;
    }
    proof {
        assert(av.take(m as int) =~= av);
    }
    out
}

impl IdentityStore {
    /// Apply a profile update to the identity with this id: set the
    /// username (unique across all other rows) and description when
    /// given, and rewrite the links per the added and removed keys.
    /// Everything else on the row, and every other row, stays as it was.
    pub fn update_profile(
        &mut self,
        id: i32,
        username: Option<String>,
        description: Option<String>,
        add_links: Vec<(String, String)>,
        remove_links: Vec<String>,
    ) -> (r: Result<(), RepoError>)
        requires
            store_wf(old(self)),
            match username {
                Option::Some(u) => valid_username(u@),
                Option::None => true,
            },
        ensures
            store_wf(final(self)),
            final(self).teams == old(self).teams,
            final(self).next_id == old(self).next_id,
            match r {
                Result::Ok(_) => {
                    &&& has_id(old(self), id as int)
                    &&& match username {
                        Option::Some(u) => !username_taken_by_other(old(self), u@, id as int),
                        Option::None => true,
                    }
                    &&& rows_of(final(self)).len() == rows_of(old(self)).len()
                    &&& forall|i: int|
                        0 <= i < rows_of(old(self)).len() ==> if (
                        #[trigger] rows_of(old(self))[i]).identity.id == id as int {
                            rows_of(final(self))[i] == (RecordView {
                                identity: IdentityView {
                                    username: match username {
                                        Option::Some(u) => Option::Some(u@),
                                        Option::None => rows_of(old(self))[i].identity.username,
                                    },
                                    description: match description {
                                        Option::Some(d) => Option::Some(d@),
                                        Option::None => rows_of(
                                            old(self),
                                        )[i].identity.description,
                                    },
                                    links: apply_links(
                                        rows_of(old(self))[i].identity.links,
                                        pairs_view(add_links@),
                                        strings_view(remove_links@),
                                    ),
                                    ..rows_of(old(self))[i].identity
                                },
                                password: rows_of(old(self))[i].password,
                            })
                        } else {
                            rows_of(final(self))[i] == rows_of(old(self))[i]
                        }
                },
                Result::Err(RepoError::NotFound) => !has_id(old(self), id as int) && *final(self)
                    == *old(self),
                Result::Err(RepoError::Conflict) => username matches Option::Some(u)
                    && username_taken_by_other(old(self), u@, id as int) && *final(self) == *old(
                    self,
                ),
            },
    {
        let n = self.users.len();
        let mut idx: usize = 0;
        while idx < n && self.users[idx].identity.id != id
            invariant
                idx <= n,
                n == self.users@.len(),
                forall|j: int| 0 <= j < idx ==> (#[trigger] rows_of(self)[j]).identity.id != id,
            decreases n - idx,
        {
            proof {
                assert(rows_of(self)[idx as int] == self.users@[idx as int]@);
            }
            idx = idx + 1;
        }
        if idx == n {
            return Result::Err(RepoError::NotFound);
        }
        proof {
            assert(rows_of(self)[idx as int] == self.users@[idx as int]@);
            assert(rows_of(self)[idx as int].identity.id == id as int);
        }
        if let Option::Some(name) = &username {
            // Scan for the requested name on any other row.
            let mut j: usize = 0;
            while j < n
                invariant
                    idx < n,
                    j <= n,
                    n == self.users@.len(),
                    *self == *old(self),
                    store_wf(old(self)),
                    username == Option::Some(*name),
                    rows_of(self)[idx as int].identity.id == id as int,
                    forall|k: int|
                        0 <= k < j ==> !((#[trigger] rows_of(self)[k]).identity.username
                            == Option::Some(name@) && rows_of(self)[k].identity.id
                            != id as int),
                decreases n - j,
            {
                let row = &self.users[j];
                let clash = row.identity.id != id && match &row.identity.username {
                    Option::Some(u) => string_eq_str(u, name.as_str()),
                    Option::None => false,
                };
                proof {
                    assert(rows_of(self)[j as int] == self.users@[j as int]@);
                }
                if clash {
                    proof {
                        assert(username_taken_by_other(old(self), name@, id as int));
                    }
                    return Result::Err(RepoError::Conflict);
                }
                j = j + 1;
            }
        }
        let ghost old_rows = rows_of(self);
        let rec = self.users.remove(idx);
        let new_links = links_apply(&rec.identity.links, &add_links, &remove_links);
        let updated = IdentityRecord {
            identity: Identity {
                username: match username {
                    Option::Some(u) => Option::Some(u),
                    Option::None => rec.identity.username,
                },
                description: match description {
                    Option::Some(d) => Option::Some(d),
                    Option::None => rec.identity.description,
                },
                links: new_links,
                ..rec.identity
            },
            password: rec.password,
        };
        let ghost updv = updated@;
        self.users.insert(idx, updated);
        proof {
            assert(old_rows =~= rows_of(old(self)));
            let rows = rows_of(self);
            assert(rows =~= old_rows.update(idx as int, updv));
            assert(updv.identity.id == id as int);
            assert(updv.identity.username == match username {
                Option::Some(u) => Option::Some(u@),
                Option::None => old_rows[idx as int].identity.username,
            });
            assert forall|i: int| 0 <= i < old_rows.len() && i != idx implies rows[i]
                == rows_of(old(self))[i] by {}
            assert(store_wf(self)) by {
                assert forall|i: int, k: int| 0 <= i < k < rows.len() implies (
                    #[trigger] rows[i]).identity.id != (#[trigger] rows[k]).identity.id by {
                    assert(rows[i].identity.id == rows_of(old(self))[i].identity.id);
                    assert(rows[k].identity.id == rows_of(old(self))[k].identity.id);
                }
                assert forall|i: int| 0 <= i < rows.len() implies 0 <= (
                    #[trigger] rows[i]).identity.id < self.next_id by {
                    assert(rows[i].identity.id == rows_of(old(self))[i].identity.id);
                    assert(0 <= rows_of(old(self))[i].identity.id < old(self).next_id);
                }
                assert forall|i: int| 0 <= i < rows.len() implies match (
                    #[trigger] rows[i]).identity.username {
                    Option::Some(u) => valid_username(u),
                    Option::None => true,
                } by {
                    if i != idx {
                        assert(rows[i] == rows_of(old(self))[i]);
                        assert(match rows_of(old(self))[i].identity.username {
                            Option::Some(u) => valid_username(u),
                            Option::None => true,
                        });
                    } else {
                        assert(match rows_of(old(self))[idx as int].identity.username {
                            Option::Some(u) => valid_username(u),
                            Option::None => true,
                        });
                    }
                }
                assert forall|i: int, k: int| 0 <= i < k < rows.len() implies ((
                    #[trigger] rows[i]).identity.username is Some ==> (
                    #[trigger] rows[k]).identity.username != rows[i].identity.username) by {
                    if i != idx && k != idx {
                        assert(rows[i] == rows_of(old(self))[i]);
                        assert(rows[k] == rows_of(old(self))[k]);
                    } else {
                        let o = if i == idx { k } else { i };
                        assert(rows[o] == rows_of(old(self))[o]);
                        assert(rows[o].identity.id != id as int) by {
                            assert(rows_of(old(self))[idx as int].identity.id == id as int);
                        }
                        match username {
                            Option::Some(u) => {
                                if rows[o].identity.username == Option::Some(u@) {
                                    assert(username_taken_by_other(old(self), u@, id as int));
                                }
                            },
                            Option::None => {
                                assert(rows[idx as int].identity.username == rows_of(
                                    old(self),
                                )[idx as int].identity.username);
                            },
                        }
                    }
                }
                assert forall|i: int, k: int| 0 <= i < k < rows.len() implies !((
                    #[trigger] rows[i]).identity.email == (
                    #[trigger] rows[k]).identity.email && rows[i].identity.provider
                    == rows[k].identity.provider && rows[i].identity.provider is Some) by {
                    assert(rows[i].identity.email == rows_of(old(self))[i].identity.email);
                    assert(rows[i].identity.provider == rows_of(old(self))[i].identity.provider);
                    assert(rows[k].identity.email == rows_of(old(self))[k].identity.email);
                    assert(rows[k].identity.provider == rows_of(old(self))[k].identity.provider);
                }
            }
            assert(has_id(old(self), id as int)) by {
                assert(rows_of(old(self))[idx as int].identity.id == id as int);
            }
            assert(updv == (RecordView {
                identity: IdentityView {
                    username: match username {
                        Option::Some(u) => Option::Some(u@),
                        Option::None => rows_of(old(self))[idx as int].identity.username,
                    },
                    description: match description {
                        Option::Some(d) => Option::Some(d@),
                        Option::None => rows_of(old(self))[idx as int].identity.description,
                    },
                    links: apply_links(
                        rows_of(old(self))[idx as int].identity.links,
                        pairs_view(add_links@),
                        strings_view(remove_links@),
                    ),
                    ..rows_of(old(self))[idx as int].identity
                },
                password: rows_of(old(self))[idx as int].password,
            }));
        }
        Result::Ok(())
    }
}

impl Identity {
    /// A field-for-field copy.
    pub fn clone_identity(&self) -> (r: Identity)
        ensures
            r@ == self@,
            r.links@.len() == self.links@.len(),
            r.metadata@.len() == self.metadata@.len(),
    {
        let r = Identity {
            id: self.id,
            username: clone_opt_string(&self.username),
            email: self.email.clone(),
            auth_provider: clone_opt_string(&self.auth_provider),
            avatar_url: clone_opt_string(&self.avatar_url),
            description: clone_opt_string(&self.description),
            links: clone_pairs(&self.links),
            metadata: clone_pairs(&self.metadata),
        };
        proof {
            assert(pairs_view(r.links@) =~= pairs_view(self.links@));
            assert(pairs_view(r.metadata@) =~= pairs_view(self.metadata@));
        }
        r
    }
}

/// Copy an optional string, keeping its content.
fn clone_opt_string(s: &Option<String>) -> (r: Option<String>)
    ensures
        match (s, r) {
            (Option::Some(a), Option::Some(b)) => a@ == b@,
            (Option::None, Option::None) => true,
            _ => false,
        },
{
    match s {
        Option::Some(v) => Option::Some(v.clone()),
        Option::None => Option::None,
    }
}

/// Copy a list of strings, keeping the content of every element.
pub(crate) fn clone_strings(v: &Vec<String>) -> (r: Vec<String>)
    ensures
        strings_view(r@) =~= strings_view(v@),
{
    let n = v.len();
    let mut out: Vec<String> = Vec::new();
    let mut i: usize = 0;
    while i < n
        invariant
            i <= n,
            n == v@.len(),
            out@.len() == i,
            forall|j: int| 0 <= j < i ==> #[trigger] out@[j]@ == v@[j]@,
        decreases n - i,
    {
        out.push(v[i].clone());
        i = i + 1;
    }
    proof {
        assert forall|j: int| 0 <= j < n implies #[trigger] strings_view(out@)[j]
            == strings_view(v@)[j] by {
            assert(strings_view(out@)[j] == out@[j]@);
            assert(strings_view(v@)[j] == v@[j]@);
        }
    }
    out
}

/// Copy a list of string pairs, keeping the content of every pair.
fn clone_pairs(v: &Vec<(String, String)>) -> (r: Vec<(String, String)>)
    ensures
        r@.len() == v@.len(),
        forall|i: int|
            0 <= i < v@.len() ==> (#[trigger] r@[i]).0@ == v@[i].0@ && r@[i].1@ == v@[i].1@,
{
    let n = v.len();
    let mut out: Vec<(String, String)> = Vec::new();
    let mut i: usize = 0;
    while i < n
        invariant
            i <= n,
            n == v@.len(),
            out@.len() == i,
            forall|j: int|
                0 <= j < i ==> (#[trigger] out@[j]).0@ == v@[j].0@ && out@[j].1@ == v@[j].1@,
        decreases n - i,
    {
        let (a, b) = &v[i];
        out.push((a.clone(), b.clone()));
        i = i + 1;
    }
    out
}

} // verus!
