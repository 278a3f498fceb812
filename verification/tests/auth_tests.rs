use studymood::auth::{
    check_password, get_token, hash_password, signup_response, token_claims, verification_token, verify_jwt,
    HashFailure,
    SignupOutcome,
};

#[test]
fn token_after_bearer() {
    assert_eq!(get_token(Some(b"Bearer abc.def.ghi")), Some("abc.def.ghi".to_string()));
}

#[test]
fn no_header_no_token() {
    assert_eq!(get_token(None), None);
}

#[test]
fn other_schemes_give_no_token() {
    assert_eq!(get_token(Some(b"Basic dXNlcg==")), None);
    assert_eq!(get_token(Some(b"bearer abc")), None);
    assert_eq!(get_token(Some(b"Bearer")), None);
}

#[test]
fn repeated_bearer_prefixes_are_all_removed() {
    assert_eq!(get_token(Some(b"Bearer Bearer tok")), Some("tok".to_string()));
    assert_eq!(get_token(Some(b"Bearer ")), Some(String::new()));
}

#[test]
fn non_text_header_gives_no_token() {
    assert_eq!(get_token(Some(&[66, 101, 97, 114, 101, 114, 32, 0xc3, 0xa9])), None);
}

#[test]
fn password_checks_against_its_hash() {
    let h = hash_password("correct horse").expect("bcrypt hash");
    assert_eq!(h.len(), 60);
    assert_ne!(h, "correct horse");
    assert!(check_password("correct horse", &h));
    assert!(!check_password("wrong horse", &h));
}

#[test]
fn malformed_hash_matches_nothing() {
    assert!(!check_password("secret", "not a bcrypt hash"));
    assert!(!check_password("secret", ""));
}

#[test]
fn claims_expire_a_day_later() {
    let c = token_claims(7, 1_700_000_000).expect("in range");
    assert_eq!(c.sub, 7);
    assert_eq!(c.exp, 1_700_086_400);
}

#[test]
fn claims_out_of_chrono_range() {
    assert!(token_claims(1, i64::MAX).is_none());
}

#[test]
fn hash_has_cost_prefix() {
    let h = hash_password("pw").expect("bcrypt hash");
    assert!(h.starts_with("$2b$12$"));
}

#[test]
fn claims_at_the_ends_of_chrono_range() {
    let last = 8_210_266_876_799i64;
    let first = -8_334_601_228_800i64;
    assert_eq!(token_claims(1, last - 86_400).map(|c| c.exp), Some(last as usize));
    assert!(token_claims(1, last - 86_399).is_none());
    assert!(token_claims(1, first).is_some());
    assert!(token_claims(1, first - 1).is_none());
}

#[test]
fn signup_responses() {
    assert_eq!(signup_response(SignupOutcome::HashFailed), (500, "Failed to hash password".to_string()));
    assert_eq!(signup_response(SignupOutcome::InsertFailed), (409, "User already exists".to_string()));
    assert_eq!(
        signup_response(SignupOutcome::EmailFailed),
        (500, "Could not send verification email.".to_string())
    );
    assert_eq!(
        signup_response(SignupOutcome::Done),
        (201, "Signup successful! Please check your email to verify your account.".to_string())
    );
}

#[test]
fn token_from_random_bytes() {
    // 0 -> 'A', 25 -> 'Z', 26 -> 'a', 52 -> '0', 61 -> '9', 62 -> 'A', 248.. skipped.
    assert_eq!(verification_token(&[0, 25, 26, 52, 61, 62], 6), Some("AZa09A".to_string()));
    assert_eq!(verification_token(&[248, 255, 1, 250, 2], 2), Some("BC".to_string()));
    assert_eq!(verification_token(&[1, 2, 3], 2), Some("BC".to_string()));
    assert_eq!(verification_token(&[1, 249], 2), None);
    assert_eq!(verification_token(&[], 0), Some(String::new()));
}

#[test]
fn hash_failure_kinds_are_distinct() {
    assert_ne!(HashFailure::CostNotAllowed, HashFailure::RandomSource);
}

fn signed_token(claims_json: &str, secret: &[u8]) -> String {
    let header = jsonwebtoken::Header::default();
    let value: serde_json::Value = serde_json::from_str(claims_json).unwrap();
    jsonwebtoken::encode(&header, &value, &jsonwebtoken::EncodingKey::from_secret(secret)).unwrap()
}

#[test]
fn jwt_round_trip() {
    let exp = 4_000_000_000u64;
    let token = signed_token(&format!("{{\"sub\":7,\"exp\":{exp}}}"), b"s3cret");
    let c = verify_jwt(&token, b"s3cret").expect("valid token");
    assert_eq!((c.sub, c.exp), (7, exp as usize));
}

#[test]
fn jwt_wrong_secret_is_refused() {
    let token = signed_token("{\"sub\":7,\"exp\":4000000000}", b"s3cret");
    assert!(verify_jwt(&token, b"other").is_none());
}

#[test]
fn jwt_expired_is_refused() {
    let token = signed_token("{\"sub\":7,\"exp\":1000}", b"s3cret");
    assert!(verify_jwt(&token, b"s3cret").is_none());
}

#[test]
fn jwt_oversized_sub_is_refused() {
    let token = signed_token("{\"sub\":5000000000,\"exp\":4000000000}", b"s3cret");
    assert!(verify_jwt(&token, b"s3cret").is_none());
}

#[test]
fn jwt_extra_claims_are_ignored_and_missing_ones_refused() {
    let token = signed_token("{\"sub\":3,\"exp\":4000000000,\"role\":\"x\"}", b"k");
    assert_eq!(verify_jwt(&token, b"k").map(|c| c.sub), Some(3));
    let no_sub = signed_token("{\"exp\":4000000000}", b"k");
    assert!(verify_jwt(&no_sub, b"k").is_none());
    assert!(verify_jwt("not.a.token", b"k").is_none());
}
