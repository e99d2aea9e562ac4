use retronomicon_auth::claims::UserGuard;
use retronomicon_auth::guard::AuthError;
use retronomicon_auth::login::{validate_username_change, UpdateError};
use retronomicon_auth::params::UpdateUser;
use retronomicon_auth::repo::{IdentityStore, RepoError};
use retronomicon_auth::SESSION_TTL_SECONDS;

const NOW: i64 = 1_700_000_000;

fn store_with_password_account() -> (IdentityStore, i32) {
    let mut store = IdentityStore::new();
    let u = store
        .create(
            Some("nova".to_string()),
            "nova@example.com".to_string(),
            None,
            None,
            Some("hunter2".to_string()),
        )
        .expect("creates");
    (store, u.id)
}

/// A repeat provider login never creates a second identity: the second
/// call is a pure lookup that returns the same subject id.
#[test]
fn provider_login_twice_is_one_identity() {
    let mut store = IdentityStore::new();
    let (new1, u1, g1) = UserGuard::login_from_auth(
        &mut store,
        Some("nova".to_string()),
        "nova@example.com",
        "github".to_string(),
        Some("https://example.com/a.png".to_string()),
        NOW,
    )
    .expect("first login");
    assert!(new1);
    assert_eq!(g1.id, u1.id);
    assert_eq!(store.users.len(), 1);

    let (new2, u2, g2) = UserGuard::login_from_auth(
        &mut store,
        Some("other-hint".to_string()),
        "nova@example.com",
        "github".to_string(),
        None,
        NOW + 5,
    )
    .expect("second login");
    assert!(!new2);
    assert_eq!(u2.id, u1.id);
    assert_eq!(g2.id, u1.id);
    assert_eq!(store.users.len(), 1);
    // the repeat login overwrote nothing
    assert_eq!(u2.username.as_deref(), Some("nova"));
    assert_eq!(u2.avatar_url.as_deref(), Some("https://example.com/a.png"));
}

/// The same email under two different providers is two identities.
#[test]
fn provider_login_distinguishes_providers() {
    let mut store = IdentityStore::new();
    let (new1, u1, _) = UserGuard::login_from_auth(
        &mut store,
        None,
        "nova@example.com",
        "github".to_string(),
        None,
        NOW,
    )
    .expect("github login");
    let (new2, u2, _) = UserGuard::login_from_auth(
        &mut store,
        None,
        "nova@example.com",
        "google".to_string(),
        None,
        NOW,
    )
    .expect("google login");
    assert!(new1 && new2);
    assert_ne!(u1.id, u2.id);
    assert_eq!(store.users.len(), 2);
}

/// An unusable username hint is dropped, never fatal: a malformed hint
/// and a hint that is already taken both leave the new identity nameless.
#[test]
fn provider_login_drops_bad_hints() {
    let mut store = IdentityStore::new();
    let (_, u1, _) = UserGuard::login_from_auth(
        &mut store,
        Some("bad name!".to_string()),
        "a@example.com",
        "github".to_string(),
        None,
        NOW,
    )
    .expect("login");
    assert_eq!(u1.username, None);

    UserGuard::login_from_auth(
        &mut store,
        Some("taken".to_string()),
        "b@example.com",
        "github".to_string(),
        None,
        NOW,
    )
    .expect("login");
    let (_, u3, _) = UserGuard::login_from_auth(
        &mut store,
        Some("taken".to_string()),
        "c@example.com",
        "github".to_string(),
        None,
        NOW,
    )
    .expect("login");
    assert_eq!(u3.username, None);
}

#[test]
fn password_login_succeeds_and_sets_ttl() {
    let (store, id) = store_with_password_account();
    let (u, g) = UserGuard::login_from_password(&store, "nova@example.com", "hunter2", b"pepper", NOW)
        .expect("logs in");
    assert_eq!(u.id, id);
    assert_eq!(g.id, id);
    assert_eq!(g.exp, NOW + SESSION_TTL_SECONDS);
}

/// An unknown email and a wrong password yield the very same error
/// value: no user-enumeration signal.
#[test]
fn password_login_error_is_generic() {
    let (store, _) = store_with_password_account();
    let unknown = UserGuard::login_from_password(&store, "ghost@example.com", "hunter2", b"pepper", NOW)
        .unwrap_err();
    let wrong =
        UserGuard::login_from_password(&store, "nova@example.com", "wrong", b"pepper", NOW).unwrap_err();
    assert_eq!(unknown, wrong);
    assert_eq!(unknown, AuthError::Unauthenticated);
}

#[test]
fn create_rejects_duplicate_pair_and_username() {
    let mut store = IdentityStore::new();
    store
        .create(
            Some("nova".to_string()),
            "nova@example.com".to_string(),
            Some("github".to_string()),
            None,
            None,
        )
        .expect("creates");
    let dup_pair = store.create(
        None,
        "nova@example.com".to_string(),
        Some("github".to_string()),
        None,
        None,
    );
    assert_eq!(dup_pair.unwrap_err(), RepoError::Conflict);
    let dup_name = store.create(
        Some("nova".to_string()),
        "other@example.com".to_string(),
        Some("google".to_string()),
        None,
        None,
    );
    assert_eq!(dup_name.unwrap_err(), RepoError::Conflict);
    assert_eq!(store.users.len(), 1);
}

#[test]
fn from_db_round_trips_an_identity() {
    let (store, id) = store_with_password_account();
    let g = UserGuard::from_db(&store, id, NOW).expect("found");
    assert_eq!(g.id, id);
    assert_eq!(g.username.as_deref(), Some("nova"));
    assert_eq!(g.exp, NOW + SESSION_TTL_SECONDS);
    assert!(matches!(
        UserGuard::from_db(&store, id + 1000, NOW),
        Err(AuthError::Unauthenticated)
    ));
}

#[test]
fn username_change_is_gated() {
    assert!(validate_username_change(&None, &Some("nova".to_string())).is_ok());
    assert!(validate_username_change(&Some("old".to_string()), &None).is_ok());
    assert_eq!(
        validate_username_change(&Some("old".to_string()), &Some("nova".to_string()))
            .unwrap_err(),
        UpdateError::UsernameAlreadySet
    );
    assert_eq!(
        validate_username_change(&None, &Some("bad name!".to_string())).unwrap_err(),
        UpdateError::InvalidUsername
    );
}

#[test]
fn update_profile_enforces_username_uniqueness() {
    let mut store = IdentityStore::new();
    let a = store
        .create(None, "a@example.com".to_string(), Some("github".to_string()), None, None)
        .expect("creates");
    let b = store
        .create(
            Some("taken".to_string()),
            "b@example.com".to_string(),
            Some("github".to_string()),
            None,
            None,
        )
        .expect("creates");
    assert_eq!(
        store.update_profile(a.id, Some("taken".to_string()), None, Vec::new(), Vec::new()),
        Err(RepoError::Conflict)
    );
    assert_eq!(
        store.update_profile(a.id + 100, Some("fresh".to_string()), None, Vec::new(), Vec::new()),
        Err(RepoError::NotFound)
    );
    assert_eq!(
        store.update_profile(a.id, Some("fresh".to_string()), None, Vec::new(), Vec::new()),
        Ok(())
    );
    let loaded = store.find_by_id(a.id).expect("found");
    assert_eq!(loaded.username.as_deref(), Some("fresh"));
    // renaming to one's own current name is not a conflict
    assert_eq!(
        store.update_profile(b.id, Some("taken".to_string()), None, Vec::new(), Vec::new()),
        Ok(())
    );
}

#[test]
fn update_profile_rewrites_links_and_description() {
    let mut store = IdentityStore::new();
    let u = store
        .create(None, "a@example.com".to_string(), Some("github".to_string()), None, None)
        .expect("creates");
    store
        .update_profile(
            u.id,
            None,
            Some("about me".to_string()),
            vec![
                ("homepage".to_string(), "https://a.example".to_string()),
                ("donate".to_string(), "https://d.example".to_string()),
            ],
            Vec::new(),
        )
        .expect("updates");
    let loaded = store.find_by_id(u.id).expect("found");
    assert_eq!(loaded.description.as_deref(), Some("about me"));
    assert_eq!(loaded.links.len(), 2);

    // replace one key, remove the other; description untouched
    store
        .update_profile(
            u.id,
            None,
            None,
            vec![("homepage".to_string(), "https://b.example".to_string())],
            vec!["donate".to_string()],
        )
        .expect("updates");
    let loaded = store.find_by_id(u.id).expect("found");
    assert_eq!(loaded.description.as_deref(), Some("about me"));
    assert_eq!(
        loaded.links,
        vec![("homepage".to_string(), "https://b.example".to_string())]
    );
}

#[test]
fn guard_update_applies_username() {
    let mut store = IdentityStore::new();
    let u = store
        .create(None, "a@example.com".to_string(), Some("github".to_string()), None, None)
        .expect("creates");
    let g = UserGuard::new_unchecked(u.id, None, NOW + 60);
    let form = UpdateUser {
        user: None,
        username: Some("nova".to_string()),
        description: None,
        add_link: Vec::new(),
        remove_link: Vec::new(),
    };
    g.update(&mut store, &form).expect("updates");
    assert_eq!(store.find_by_id(u.id).unwrap().username.as_deref(), Some("nova"));

    let bad = UpdateUser { username: Some("bad name".to_string()), ..form.clone() };
    assert_eq!(g.update(&mut store, &bad), Err(AuthError::Validation));

    // a form with no username still applies its other fields
    let links_only = UpdateUser {
        user: None,
        username: None,
        description: Some("hello".to_string()),
        add_link: vec!["site=https://s.example".to_string()],
        remove_link: Vec::new(),
    };
    g.update(&mut store, &links_only).expect("updates");
    let loaded = store.find_by_id(u.id).expect("found");
    assert_eq!(loaded.description.as_deref(), Some("hello"));
    assert_eq!(
        loaded.links,
        vec![("site".to_string(), "https://s.example".to_string())]
    );

    let ghost_guard = UserGuard::new_unchecked(u.id + 99, None, NOW + 60);
    let fresh = UpdateUser {
        user: None,
        username: Some("fresh".to_string()),
        description: None,
        add_link: Vec::new(),
        remove_link: Vec::new(),
    };
    assert_eq!(ghost_guard.update(&mut store, &fresh), Err(AuthError::Fault));
}

#[test]
fn into_model_faults_on_missing_row() {
    let (store, id) = store_with_password_account();
    let g = UserGuard::new_unchecked(id, None, NOW);
    assert_eq!(g.into_model(&store).expect("found").id, id);
    let stray = UserGuard::new_unchecked(id + 5, None, NOW);
    assert!(matches!(stray.into_model(&store), Err(AuthError::Fault)));
}
