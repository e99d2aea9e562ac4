use retronomicon_auth::b64::{b64_decode, b64_encode};
use retronomicon_auth::claims::UserGuard;
use retronomicon_auth::codec::{
    decode_bearer, decode_cookie, encode_bearer, encode_cookie, CodecError,
};
use retronomicon_auth::payload::{payload_decode, payload_encode};

fn secret() -> Vec<u8> {
    b"a-test-signing-secret".to_vec()
}

fn claims(id: i32, username: Option<&str>, exp: i64) -> UserGuard {
    UserGuard::new_unchecked(id, username.map(|s| s.to_string()), exp)
}

fn assert_same(a: &UserGuard, b: &UserGuard) {
    assert_eq!(a.id, b.id);
    assert_eq!(a.username, b.username);
    assert_eq!(a.exp, b.exp);
}

#[test]
fn bearer_roundtrip_with_username() {
    let g = claims(42, Some("nova"), 4_000_000_000);
    let token = encode_bearer(&g, &secret());
    let back = decode_bearer(&token, &secret()).expect("decodes");
    assert_same(&g, &back);
}

#[test]
fn bearer_roundtrip_without_username() {
    let g = claims(-7, None, 123);
    let token = encode_bearer(&g, &secret());
    let back = decode_bearer(&token, &secret()).expect("decodes");
    assert_same(&g, &back);
}

#[test]
fn cookie_roundtrip() {
    let g = claims(42, Some("nova"), 4_000_000_000);
    let value = encode_cookie(&g, &secret());
    let back = decode_cookie(&value, &secret()).expect("decodes");
    assert_same(&g, &back);
}

#[test]
fn bearer_rejected_under_other_key() {
    let g = claims(1, None, 99);
    let token = encode_bearer(&g, &secret());
    let r = decode_bearer(&token, &b"another-secret".to_vec());
    assert!(matches!(r, Err(CodecError::BadSignature)));
}

#[test]
fn cookie_rejected_under_other_key() {
    let g = claims(1, None, 99);
    let value = encode_cookie(&g, &secret());
    let r = decode_cookie(&value, &b"another-secret".to_vec());
    assert!(matches!(r, Err(CodecError::Tamper)));
}

/// Tampering any single byte of the encoded bearer form never yields a
/// successful decode; a change inside the signed part or the signature,
/// with the shape intact, is always reported as a signature failure.
#[test]
fn bearer_tampering_never_decodes() {
    let g = claims(42, Some("nova"), 4_000_000_000);
    let token = encode_bearer(&g, &secret());
    let bytes = token.as_bytes();
    let header_end = bytes.iter().position(|&b| b == b'.').unwrap();
    for i in 0..bytes.len() {
        let mut t = bytes.to_vec();
        t[i] = if t[i] == b'A' { b'B' } else { b'A' };
        let tampered = String::from_utf8(t).unwrap();
        let r = decode_bearer(&tampered, &secret());
        assert!(r.is_err(), "byte {} tampered but decode succeeded", i);
        if bytes[i] != b'.' && i > header_end {
            assert!(
                matches!(r, Err(CodecError::BadSignature)),
                "byte {} should fail the signature",
                i
            );
        }
    }
}

#[test]
fn cookie_tampering_never_decodes() {
    let g = claims(7, Some("x7"), 1000);
    let value = encode_cookie(&g, &secret());
    let bytes = value.as_bytes();
    for i in 0..bytes.len() {
        let mut t = bytes.to_vec();
        t[i] = if t[i] == b'A' { b'B' } else { b'A' };
        let tampered = String::from_utf8(t).unwrap();
        assert!(decode_cookie(&tampered, &secret()).is_err());
    }
}

/// The bearer header value is stripped of its scheme prefix and
/// surrounding whitespace before verification.
#[test]
fn bearer_prefix_and_whitespace_are_stripped() {
    let g = claims(42, Some("nova"), 4_000_000_000);
    let token = encode_bearer(&g, &secret());
    let wrapped = format!("Bearer   {}  ", token);
    let back = decode_bearer(&wrapped, &secret()).expect("decodes");
    assert_same(&g, &back);
}

#[test]
fn bearer_garbage_trims_like_bare_garbage() {
    let a = decode_bearer("Bearer   abc.def.ghi  ", &secret());
    let b = decode_bearer("abc.def.ghi", &secret());
    assert_eq!(a.unwrap_err(), b.unwrap_err());
}

/// A token asserting any algorithm other than the pinned one is refused,
/// even when its signature would verify under that other algorithm.
#[test]
fn bearer_other_algorithm_is_refused() {
    let g = claims(42, Some("nova"), 4_000_000_000);
    let header = b"{\"typ\":\"JWT\",\"alg\":\"HS256\"}".to_vec();
    let payload = payload_encode(&g);
    let msg = format!(
        "{}.{}",
        String::from_utf8(b64_encode(&header)).unwrap(),
        String::from_utf8(b64_encode(&payload)).unwrap()
    );
    let key = jsonwebtoken::EncodingKey::from_secret(&secret());
    let sig =
        jsonwebtoken::crypto::sign(msg.as_bytes(), &key, jsonwebtoken::Algorithm::HS256).unwrap();
    let token = format!("{}.{}", msg, sig);
    let r = decode_bearer(&token, &secret());
    assert!(matches!(r, Err(CodecError::Malformed)));
}

/// The issued token is exactly what the token library would sign over the
/// same header and payload: same signed part, same signature.
#[test]
fn bearer_token_matches_reference_signer() {
    let g = claims(42, Some("nova"), 4_000_000_000);
    let token = encode_bearer(&g, &secret());
    let (msg, sig) = token.rsplit_once('.').unwrap();
    let key = jsonwebtoken::EncodingKey::from_secret(&secret());
    let expected =
        jsonwebtoken::crypto::sign(msg.as_bytes(), &key, jsonwebtoken::Algorithm::HS512).unwrap();
    assert_eq!(sig, expected);
    let dkey = jsonwebtoken::DecodingKey::from_secret(&secret());
    assert!(jsonwebtoken::crypto::verify(
        sig,
        msg.as_bytes(),
        &dkey,
        jsonwebtoken::Algorithm::HS512
    )
    .unwrap());
    let (h, p) = msg.split_once('.').unwrap();
    assert_eq!(
        h.as_bytes().to_vec(),
        b64_encode(&b"{\"typ\":\"JWT\",\"alg\":\"HS512\"}".to_vec())
    );
    assert_eq!(p.as_bytes().to_vec(), b64_encode(&payload_encode(&g)));
}

#[test]
fn payload_bytes_are_plain_json() {
    let g = claims(42, Some("nova"), 1700000000);
    assert_eq!(
        payload_encode(&g),
        b"{\"id\":42,\"username\":\"nova\",\"exp\":1700000000}".to_vec()
    );
    let n = claims(-3, None, 0);
    assert_eq!(payload_encode(&n), b"{\"id\":-3,\"username\":null,\"exp\":0}".to_vec());
}

#[test]
fn payload_decode_accepts_canonical_and_rejects_slack() {
    let ok = payload_decode(&b"{\"id\":42,\"username\":\"nova\",\"exp\":7}".to_vec())
        .expect("decodes");
    assert_eq!(ok.id, 42);
    assert_eq!(ok.username.as_deref(), Some("nova"));
    assert_eq!(ok.exp, 7);
    // leading zeros, spaces, bad names, trailing bytes: all refused
    assert!(payload_decode(&b"{\"id\":042,\"username\":null,\"exp\":7}".to_vec()).is_none());
    assert!(payload_decode(&b"{\"id\": 42,\"username\":null,\"exp\":7}".to_vec()).is_none());
    assert!(payload_decode(&b"{\"id\":42,\"username\":\"\",\"exp\":7}".to_vec()).is_none());
    assert!(payload_decode(&b"{\"id\":42,\"username\":null,\"exp\":7} ".to_vec()).is_none());
    assert!(payload_decode(&b"{\"id\":42,\"username\":null,\"exp\":9223372036854775808}".to_vec())
        .is_none());
}

#[test]
fn base64url_known_vectors() {
    assert_eq!(b64_encode(&Vec::new()), Vec::<u8>::new());
    assert_eq!(b64_encode(&b"abc".to_vec()), b"YWJj".to_vec());
    assert_eq!(b64_encode(&b"ab".to_vec()), b"YWI".to_vec());
    assert_eq!(b64_encode(&b"a".to_vec()), b"YQ".to_vec());
    assert_eq!(b64_encode(&vec![0xfb, 0xff, 0xfe]), b"-__-".to_vec());
    assert_eq!(b64_decode(&b"YWJj".to_vec()), Some(b"abc".to_vec()));
    assert_eq!(b64_decode(&b"YQ".to_vec()), Some(b"a".to_vec()));
    // padding, stray characters and non-zero leftover bits are refused
    assert_eq!(b64_decode(&b"YQ==".to_vec()), None);
    assert_eq!(b64_decode(&b"Y".to_vec()), None);
    assert_eq!(b64_decode(&b"YR".to_vec()), None);
    assert_eq!(b64_decode(&b"Y.Jj".to_vec()), None);
}
