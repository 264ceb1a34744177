//! End-to-end behaviour of the authorizer over real query strings, with the
//! expected signatures computed independently of the library.

use webapp_auth::{AuthError, Authorizer, AuthorizationLayer, Embedded, External, TelegramUser, User};

/// The embedded strategy's verification key, derived independently.
fn embedded_key(token: &str) -> Vec<u8> {
    let k = ring::hmac::Key::new(ring::hmac::HMAC_SHA256, b"WebAppData");
    ring::hmac::sign(&k, token.as_bytes()).as_ref().to_vec()
}

/// The external strategy's verification key, derived independently.
fn external_key(secret: &str) -> Vec<u8> {
    ring::digest::digest(&ring::digest::SHA256, secret.as_bytes())
        .as_ref()
        .to_vec()
}

/// Lowercase-hex HMAC-SHA256 signature, computed independently.
fn sign_with(key: &[u8], msg: &[u8]) -> String {
    let k = ring::hmac::Key::new(ring::hmac::HMAC_SHA256, key);
    hex::encode(ring::hmac::sign(&k, msg).as_ref())
}

const USER_JSON_ENCODED: &str = "%7B%22id%22%3A1%2C%22first_name%22%3A%22A%22%7D";
const CANONICAL: &str = "auth_date=1\nuser={\"id\":1,\"first_name\":\"A\"}";

#[test]
fn embedded_example_accepts() {
    let sig = sign_with(&embedded_key("T"), CANONICAL.as_bytes());
    let qs = format!("auth_date=1&user={}&hash={}", USER_JSON_ENCODED, sig);
    let user = Embedded::new("T").authorize(Some(&qs)).unwrap();
    assert_eq!(user.id, 1);
    assert_eq!(user.first_name, "A");
    assert!(user.last_name.is_none());
    assert!(user.username.is_none());
}

#[test]
fn embedded_example_truncated_signature_rejected() {
    let sig = sign_with(&embedded_key("T"), CANONICAL.as_bytes());
    let truncated = &sig[..sig.len() - 1];
    let qs = format!("auth_date=1&user={}&hash={}", USER_JSON_ENCODED, truncated);
    let r = Embedded::new("T").authorize(Some(&qs));
    assert!(matches!(r, Err(AuthError::HashDoesntMatch)));
}

#[test]
fn flipping_any_signature_character_rejected() {
    let sig = sign_with(&embedded_key("T"), CANONICAL.as_bytes());
    for i in 0..sig.len() {
        let mut flipped: Vec<u8> = sig.as_bytes().to_vec();
        flipped[i] = if flipped[i] == b'0' { b'1' } else { b'0' };
        let flipped = String::from_utf8(flipped).unwrap();
        let qs = format!("auth_date=1&user={}&hash={}", USER_JSON_ENCODED, flipped);
        let r = Embedded::new("T").authorize(Some(&qs));
        assert!(matches!(r, Err(AuthError::HashDoesntMatch)));
    }
}

#[test]
fn field_order_does_not_matter() {
    let sig = sign_with(&embedded_key("T"), CANONICAL.as_bytes());
    let qs = format!("user={}&hash={}&auth_date=1", USER_JSON_ENCODED, sig);
    let user = Embedded::new("T").authorize(Some(&qs)).unwrap();
    assert_eq!(user.id, 1);
    assert_eq!(user.first_name, "A");
}

#[test]
fn missing_signature_field_is_its_own_failure() {
    let qs = format!("auth_date=1&user={}", USER_JSON_ENCODED);
    let r = Embedded::new("T").authorize(Some(&qs));
    assert!(matches!(r, Err(AuthError::MissingHash)));
    assert!(!matches!(r, Err(AuthError::HashDoesntMatch)));
}

#[test]
fn invalid_user_json_rejected_after_valid_signature() {
    let canonical = "auth_date=1\nuser=nonsense";
    let sig = sign_with(&embedded_key("T"), canonical.as_bytes());
    let qs = format!("auth_date=1&user=nonsense&hash={}", sig);
    let r = Embedded::new("T").authorize(Some(&qs));
    assert!(matches!(r, Err(AuthError::InvalidUserJson)));
}

#[test]
fn missing_query_string_rejected() {
    let r = Embedded::new("T").authorize(None);
    assert!(matches!(r, Err(AuthError::MissingQueryString)));
}

#[test]
fn undecodable_query_string_rejected() {
    // %FF percent-decodes to a byte that is not valid UTF-8.
    let r = Embedded::new("T").authorize(Some("a=%FF&hash=00"));
    assert!(matches!(r, Err(AuthError::InvalidQueryString)));
}

#[test]
fn missing_user_field_rejected_after_valid_signature() {
    let canonical = "auth_date=1";
    let sig = sign_with(&embedded_key("T"), canonical.as_bytes());
    let qs = format!("auth_date=1&hash={}", sig);
    let r = Embedded::new("T").authorize(Some(&qs));
    assert!(matches!(r, Err(AuthError::MissingUser)));
}

#[test]
fn signature_alone_signs_empty_canonical_string() {
    let sig = sign_with(&embedded_key("T"), b"");
    let qs = format!("hash={}", sig);
    // The empty canonical string verifies, and only then is the absent
    // `user` field noticed.
    let r = Embedded::new("T").authorize(Some(&qs));
    assert!(matches!(r, Err(AuthError::MissingUser)));
}

#[test]
fn repeated_key_keeps_last_value() {
    let canonical = format!("a=2\nauth_date=1\nuser={}", "{\"id\":1,\"first_name\":\"A\"}");
    let sig = sign_with(&embedded_key("T"), canonical.as_bytes());
    let qs = format!("a=1&a=2&auth_date=1&user={}&hash={}", USER_JSON_ENCODED, sig);
    let user = Embedded::new("T").authorize(Some(&qs)).unwrap();
    assert_eq!(user.id, 1);
}

#[test]
fn values_are_percent_decoded_before_signing() {
    // The value `a b&c` arrives as `a+b%26c`; the canonical string holds the
    // decoded form.
    let canonical = "auth_date=1\nnote=a b&c\nuser={\"id\":1,\"first_name\":\"A\"}";
    let sig = sign_with(&embedded_key("T"), canonical.as_bytes());
    let qs = format!(
        "auth_date=1&note=a+b%26c&user={}&hash={}",
        USER_JSON_ENCODED, sig
    );
    let user = Embedded::new("T").authorize(Some(&qs)).unwrap();
    assert_eq!(user.id, 1);
}

#[test]
fn embedded_key_derivation_is_deterministic() {
    let sig = sign_with(&embedded_key("T"), CANONICAL.as_bytes());
    let qs = format!("auth_date=1&user={}&hash={}", USER_JSON_ENCODED, sig);
    let first = Embedded::new("T");
    let second = Embedded::new("T");
    let a = first.authorize(Some(&qs)).unwrap();
    let b = second.authorize(Some(&qs)).unwrap();
    assert_eq!(a.id, b.id);
    assert_eq!(a.first_name, b.first_name);
    let bad = format!("auth_date=1&user={}&hash=00", USER_JSON_ENCODED);
    assert!(first.authorize(Some(&bad)).is_err());
    assert!(second.authorize(Some(&bad)).is_err());
}

#[test]
fn external_strategy_uses_hashed_secret() {
    let sig = sign_with(&external_key("shared-secret"), CANONICAL.as_bytes());
    let qs = format!("auth_date=1&user={}&hash={}", USER_JSON_ENCODED, sig);
    let user = External::new("shared-secret").authorize(Some(&qs)).unwrap();
    assert_eq!(user.id, 1);
    assert_eq!(user.first_name, "A");
}

#[test]
fn external_and_embedded_keys_differ() {
    let sig = sign_with(&embedded_key("T"), CANONICAL.as_bytes());
    let qs = format!("auth_date=1&user={}&hash={}", USER_JSON_ENCODED, sig);
    let r = External::new("T").authorize(Some(&qs));
    assert!(matches!(r, Err(AuthError::HashDoesntMatch)));
}

#[test]
fn full_user_record_extracted() {
    let user_json = "{\"id\":42,\"first_name\":\"A\",\"last_name\":\"B\",\"username\":\"ab\"}";
    let encoded = "%7B%22id%22%3A42%2C%22first_name%22%3A%22A%22%2C%22last_name%22%3A%22B%22%2C%22username%22%3A%22ab%22%7D";
    let canonical = format!("auth_date=1\nuser={}", user_json);
    let sig = sign_with(&embedded_key("T"), canonical.as_bytes());
    let qs = format!("auth_date=1&user={}&hash={}", encoded, sig);
    let user = Embedded::new("T").authorize(Some(&qs)).unwrap();
    assert_eq!(user.id, 42);
    assert_eq!(user.first_name, "A");
    assert_eq!(user.last_name.as_deref(), Some("B"));
    assert_eq!(user.username.as_deref(), Some("ab"));
}

#[test]
fn layer_builds_service_that_authorizes() {
    let sig = sign_with(&embedded_key("T"), CANONICAL.as_bytes());
    let qs = format!("auth_date=1&user={}&hash={}", USER_JSON_ENCODED, sig);
    let service = AuthorizationLayer::new_embedded("T").layer(());
    let user = service.authorize(Some(&qs)).unwrap();
    assert_eq!(user.id, 1);
    let service = AuthorizationLayer::new_external("secret").layer(());
    assert!(matches!(
        service.authorize(Some(&qs)),
        Err(AuthError::HashDoesntMatch)
    ));
}

#[test]
fn hex_rendering_matches_reference() {
    let bs = [0u8, 15, 16, 171, 255];
    let rendered = webapp_auth::bytes::hex_encode(&bs);
    assert_eq!(rendered, b"000f10abff".to_vec());
    assert_eq!(rendered, hex::encode(bs).into_bytes());
}

#[test]
fn telegram_user_copies_every_field() {
    let user = User {
        id: 7,
        first_name: "A".to_string(),
        last_name: Some("B".to_string()),
        username: None,
    };
    let t = TelegramUser::from(user);
    assert_eq!(t.id, 7);
    assert_eq!(t.first_name, "A");
    assert_eq!(t.last_name.as_deref(), Some("B"));
    assert!(t.username.is_none());
}
