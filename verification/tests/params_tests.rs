use retronomicon_auth::claims::UserGuard;
use retronomicon_auth::dates::parse_release_date;
use retronomicon_auth::decnum::{parse_i64_at, parse_u64_at, push_dec_i64, push_dec_u64};
use retronomicon_auth::mediatype::{content_disposition, content_type_for_extension};
use retronomicon_auth::params::{links_dictionary_from_arg, PagingParams};
use retronomicon_auth::routes::{
    cores_list_query, release_download_path, releases_list_query, user_update_path,
    users_get_path,
};
use retronomicon_auth::types::IdOrSlug;
use retronomicon_auth::username::validate_username;
use retronomicon_auth::{default_expiration, SESSION_TTL_SECONDS};

#[test]
fn paging_query_covers_all_shapes() {
    let q = |page, limit| PagingParams { page, limit }.to_query();
    assert_eq!(q(None, None), "");
    assert_eq!(q(Some(3), None), "page=3");
    assert_eq!(q(None, Some(20)), "limit=20");
    assert_eq!(q(Some(3), Some(20)), "page=3&limit=20");
}

#[test]
fn route_paths_are_exact() {
    let paging = PagingParams { page: Some(2), limit: None };
    assert_eq!(cores_list_query(&paging), "/api/v1/cores?page=2");
    assert_eq!(
        releases_list_query("mister", &PagingParams { page: None, limit: None }),
        "/api/v1/cores/mister/releases?"
    );
    assert_eq!(
        release_download_path("mister", "12", 3),
        "/api/v1/cores/mister/releases/12/artifacts/3/download"
    );
    assert_eq!(users_get_path("42"), "/api/v1/users/42");
    assert_eq!(user_update_path(&None), "/api/v1/me/update");
    assert_eq!(
        user_update_path(&Some("nova".to_string())),
        "/api/v1/user/nova"
    );
}

#[test]
fn links_arguments_split_at_first_equals() {
    assert_eq!(links_dictionary_from_arg(&Vec::new()), None);
    let v = links_dictionary_from_arg(&vec![
        "homepage=https://example.com?a=b".to_string(),
        "bare".to_string(),
    ])
    .expect("non-empty");
    assert_eq!(v.len(), 2);
    assert_eq!(v[0].0, "homepage");
    assert_eq!(v[0].1, "https://example.com?a=b");
    assert_eq!(v[1].0, "bare");
    assert_eq!(v[1].1, "");
}

#[test]
fn username_rules() {
    assert!(validate_username("nova"));
    assert!(validate_username("A_b-9"));
    assert!(validate_username("x"));
    assert!(!validate_username(""));
    assert!(!validate_username("has space"));
    assert!(!validate_username("exclaim!"));
    assert!(!validate_username("ué"));
    assert!(!validate_username(&"a".repeat(33)));
    assert!(validate_username(&"a".repeat(32)));
}

#[test]
fn claims_constructor_validates() {
    let now = 1_700_000_000;
    assert!(UserGuard::new(1, Some("nova".to_string()), now + 10, now).is_ok());
    assert!(UserGuard::new(1, Some("bad name".to_string()), now + 10, now).is_err());
    assert!(UserGuard::new(1, None, now - 1, now).is_err());
    assert!(UserGuard::new(1, None, now, now).is_ok());
}

#[test]
fn default_expiration_is_one_week_out() {
    assert_eq!(SESSION_TTL_SECONDS, 7 * 24 * 60 * 60);
    assert_eq!(default_expiration(1_700_000_000), 1_700_604_800);
}

#[test]
fn release_dates_parse_both_forms() {
    assert_eq!(parse_release_date("2021-01-02"), Some(1_609_545_600));
    assert_eq!(parse_release_date("2021-01-02T03:04:05Z"), Some(1_609_556_645));
    assert_eq!(parse_release_date("2021-01-02T03:04:05+01:00"), Some(1_609_553_045));
    assert_eq!(parse_release_date("not a date"), None);
}

#[test]
fn media_types_from_extension() {
    assert_eq!(content_type_for_extension("json"), "application/json");
    assert_eq!(content_type_for_extension("zzzzzz"), "application/octet-stream");
    assert_eq!(
        content_disposition("core.zip"),
        "attachment; filename=\"core.zip\""
    );
}

#[test]
fn id_or_slug_reads_digit_runs_as_ids() {
    match IdOrSlug::parse("42") {
        IdOrSlug::Id(n) => assert_eq!(n, 42),
        IdOrSlug::Slug(_) => panic!("42 is an id"),
    }
    match IdOrSlug::parse("007") {
        IdOrSlug::Id(n) => assert_eq!(n, 7),
        IdOrSlug::Slug(_) => panic!("007 is an id"),
    }
    assert!(matches!(IdOrSlug::parse("mister"), IdOrSlug::Slug(s) if s == "mister"));
    assert!(matches!(IdOrSlug::parse(""), IdOrSlug::Slug(s) if s.is_empty()));
    assert!(matches!(IdOrSlug::parse("12b"), IdOrSlug::Slug(s) if s == "12b"));
    // one past i32::MAX falls back to a slug
    assert!(matches!(IdOrSlug::parse("2147483648"), IdOrSlug::Slug(_)));
    assert!(matches!(IdOrSlug::parse("2147483647"), IdOrSlug::Id(2147483647)));
    assert_eq!(IdOrSlug::parse("007").segment(), "7");
    assert_eq!(IdOrSlug::parse("mister").segment(), "mister");
}

#[test]
fn decimal_rendering_and_parsing_edges() {
    let mut v = Vec::new();
    push_dec_u64(&mut v, 0);
    assert_eq!(v, b"0".to_vec());
    let mut v = Vec::new();
    push_dec_u64(&mut v, u64::MAX);
    assert_eq!(v, b"18446744073709551615".to_vec());
    let mut v = Vec::new();
    push_dec_i64(&mut v, i64::MIN);
    assert_eq!(v, b"-9223372036854775808".to_vec());

    let digits = b"18446744073709551615".to_vec();
    assert_eq!(parse_u64_at(&digits, 0), Some((u64::MAX, 20)));
    let too_big = b"18446744073709551616".to_vec();
    assert_eq!(parse_u64_at(&too_big, 0), None);

    let min = b"-9223372036854775808".to_vec();
    assert_eq!(parse_i64_at(&min, 0), Some((i64::MIN, 20)));
    let under = b"-9223372036854775809".to_vec();
    assert_eq!(parse_i64_at(&under, 0), None);
    let max = b"9223372036854775807".to_vec();
    assert_eq!(parse_i64_at(&max, 0), Some((i64::MAX, 19)));
    let over = b"9223372036854775808".to_vec();
    assert_eq!(parse_i64_at(&over, 0), None);
    let minus_zero = b"-0".to_vec();
    assert_eq!(parse_i64_at(&minus_zero, 0), Some((0, 2)));
    let empty_sign = b"-".to_vec();
    assert_eq!(parse_i64_at(&empty_sign, 0), None);
}
