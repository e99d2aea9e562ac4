use retronomicon_auth::claims::{AuthenticatedUserGuard, UserGuard};
use retronomicon_auth::codec::{encode_bearer, encode_cookie};
use retronomicon_auth::guard::{
    basic_guard, check_expiry, escalate_authenticated, escalate_root, resolve, root_guard,
    tier_at_least, AuthError, Tier, TierOutcome,
};
use retronomicon_auth::params::RetronomiconConfig;
use retronomicon_auth::repo::IdentityStore;

fn cookie_secret() -> Vec<u8> {
    b"cookie-secret".to_vec()
}

fn bearer_secret() -> Vec<u8> {
    b"bearer-secret".to_vec()
}

fn claims(id: i32, username: Option<&str>, exp: i64) -> UserGuard {
    UserGuard::new_unchecked(id, username.map(|s| s.to_string()), exp)
}

/// Strictly past the expiry is rejected; the expiry second itself and
/// one second before it still pass.
#[test]
fn expiry_is_strict() {
    let now = 1_000_000;
    assert!(matches!(
        check_expiry(claims(1, None, now - 1), now),
        Err(AuthError::Unauthenticated)
    ));
    assert!(check_expiry(claims(1, None, now), now).is_ok());
    assert!(check_expiry(claims(1, None, now + 1), now).is_ok());
}

#[test]
fn resolver_prefers_cookie_and_reports_refresh() {
    let ck = claims(5, Some("alpha"), 999);
    let bt = claims(6, Some("beta"), 999);
    let cookie = encode_cookie(&ck, &cookie_secret());
    let token = encode_bearer(&bt, &bearer_secret());
    let (g, from_cookie) = resolve(
        Some(&cookie),
        Some(&token),
        &cookie_secret(),
        &bearer_secret(),
    )
    .expect("resolves");
    assert_eq!(g.id, 5);
    assert!(from_cookie);
    let (g2, from_cookie2) =
        resolve(None, Some(&token), &cookie_secret(), &bearer_secret()).expect("resolves");
    assert_eq!(g2.id, 6);
    assert!(!from_cookie2);
}

/// A bad cookie does not fall back to a good bearer header.
#[test]
fn bad_cookie_does_not_fall_back() {
    let bt = claims(6, Some("beta"), 999);
    let token = encode_bearer(&bt, &bearer_secret());
    let r = resolve(
        Some("garbage"),
        Some(&token),
        &cookie_secret(),
        &bearer_secret(),
    );
    assert!(matches!(r, Err(AuthError::Unauthenticated)));
}

#[test]
fn absent_credentials_fail_generically() {
    let r = resolve(None, None, &cookie_secret(), &bearer_secret());
    assert!(matches!(r, Err(AuthError::Unauthenticated)));
}

#[test]
fn basic_guard_treats_expired_as_not_applicable() {
    let now = 2_000_000_000;
    let g = claims(9, None, now - 10);
    let cookie = encode_cookie(&g, &cookie_secret());
    let o = basic_guard(Some(&cookie), None, &cookie_secret(), &bearer_secret(), now);
    assert!(matches!(o, TierOutcome::NotApplicable));
}

/// Claims without a username reach the basic tier but not the
/// authenticated one; with a username set, both succeed.
#[test]
fn tier_scenario_username_gates_authenticated() {
    let now = 1_700_000_000;
    let exp = now + 604_800;
    let g = claims(42, None, exp);
    let cookie = encode_cookie(&g, &cookie_secret());
    match basic_guard(Some(&cookie), None, &cookie_secret(), &bearer_secret(), now) {
        TierOutcome::Granted((user, refresh)) => {
            assert_eq!(user.id, 42);
            assert!(refresh);
            assert!(matches!(
                escalate_authenticated(user),
                TierOutcome::NotApplicable
            ));
        }
        _ => panic!("basic tier should grant"),
    }

    let g2 = claims(42, Some("nova"), exp);
    let cookie2 = encode_cookie(&g2, &cookie_secret());
    match basic_guard(Some(&cookie2), None, &cookie_secret(), &bearer_secret(), now) {
        TierOutcome::Granted((user, _)) => match escalate_authenticated(user) {
            TierOutcome::Granted(a) => assert_eq!(a.id(), 42),
            _ => panic!("authenticated tier should grant"),
        },
        _ => panic!("basic tier should grant"),
    }
}

/// Root needs a positive membership answer; a repository error is a
/// fault, not a denial.
#[test]
fn root_escalation_follows_membership() {
    let a = AuthenticatedUserGuard::try_new(claims(42, Some("nova"), 999)).ok().unwrap();
    assert!(matches!(
        escalate_root(&a, Ok(true)),
        TierOutcome::Granted(r) if r.id == 42
    ));
    assert!(matches!(escalate_root(&a, Ok(false)), TierOutcome::NotApplicable));
    assert!(matches!(
        escalate_root(&a, Err(AuthError::Fault)),
        TierOutcome::Fault
    ));
}

#[test]
fn root_membership_from_store() {
    let mut store = IdentityStore::new();
    store.add_team_member(42, 1);
    assert!(store.user_is_in_team(42, 1));
    assert!(!store.user_is_in_team(42, 2));
    assert!(!store.user_is_in_team(41, 1));
}

#[test]
fn authenticated_guard_end_to_end_over_bearer() {
    let now = 1_700_000_000;
    let g = claims(7, Some("root-user"), now + 60);
    let token = encode_bearer(&g, &bearer_secret());
    let header = format!("Bearer {}", token);
    match retronomicon_auth::guard::authenticated_guard(
        None,
        Some(&header),
        &cookie_secret(),
        &bearer_secret(),
        now,
    ) {
        TierOutcome::Granted((a, refresh)) => {
            assert_eq!(a.id(), 7);
            assert!(!refresh);
        }
        _ => panic!("authenticated tier should grant"),
    }
}

#[test]
fn tier_order_is_strict() {
    assert!(tier_at_least(Tier::Root, Tier::Authenticated));
    assert!(tier_at_least(Tier::Root, Tier::Basic));
    assert!(tier_at_least(Tier::Authenticated, Tier::Basic));
    assert!(tier_at_least(Tier::Basic, Tier::Basic));
    assert!(!tier_at_least(Tier::Basic, Tier::Authenticated));
    assert!(!tier_at_least(Tier::Authenticated, Tier::Root));
}

#[test]
fn root_guard_end_to_end() {
    let now = 1_700_000_000;
    let config = RetronomiconConfig {
        base_url: "https://retronomicon.com".to_string(),
        root_team: vec!["root".to_string()],
        root_team_id: 1,
    };
    let mut store = IdentityStore::new();
    store.add_team_member(42, 1);

    let g = claims(42, Some("nova"), now + 60);
    let cookie = encode_cookie(&g, &cookie_secret());
    let o = root_guard(
        &store,
        &config,
        Some(&cookie),
        None,
        &cookie_secret(),
        &bearer_secret(),
        now,
    );
    assert!(matches!(o, TierOutcome::Granted(r) if r.id == 42));

    // same credential, not a member of the configured team
    let other = RetronomiconConfig { root_team_id: 2, ..config.clone() };
    let o = root_guard(
        &store,
        &other,
        Some(&cookie),
        None,
        &cookie_secret(),
        &bearer_secret(),
        now,
    );
    assert!(matches!(o, TierOutcome::NotApplicable));

    // a member, but no username on the claims
    let bare = claims(42, None, now + 60);
    let cookie2 = encode_cookie(&bare, &cookie_secret());
    let o = root_guard(
        &store,
        &config,
        Some(&cookie2),
        None,
        &cookie_secret(),
        &bearer_secret(),
        now,
    );
    assert!(matches!(o, TierOutcome::NotApplicable));
}
