use govuk_notify::auth::{create_jwt, create_jwt_at, secret_key, service_id, NotifyError};

const API_KEY: &str =
    "my_test_key-26785a09-ab16-4eb0-8407-a37497a57506-3d844edf-8d35-48ac-975b-e847b4f122b0";

fn decode_claims(token: &str, secret: &str) -> serde_json::Value {
    let mut validation = jsonwebtoken::Validation::new(jsonwebtoken::Algorithm::HS256);
    validation.required_spec_claims = std::collections::HashSet::new();
    validation.validate_exp = false;
    jsonwebtoken::decode::<serde_json::Value>(
        token,
        &jsonwebtoken::DecodingKey::from_secret(secret.as_bytes()),
        &validation,
    )
    .unwrap()
    .claims
}

#[test]
fn test_service_id() {
    let api_key = String::from(API_KEY);
    assert_eq!(service_id(&api_key), "26785a09-ab16-4eb0-8407-a37497a57506");
}

#[test]
fn test_secret_key() {
    let api_key = String::from(API_KEY);
    assert_eq!(
        secret_key(&api_key).as_bytes(),
        b"3d844edf-8d35-48ac-975b-e847b4f122b0"
    );
}

#[test]
fn token_decodes_to_expected_claims() {
    let api_key = String::from(API_KEY);
    let token = create_jwt(&api_key).unwrap();
    let claims = decode_claims(&token, &secret_key(&api_key));
    assert_eq!(
        claims["iss"],
        serde_json::Value::String("26785a09-ab16-4eb0-8407-a37497a57506".to_string())
    );
    let iat = claims["iat"].as_i64().unwrap();
    let now = chrono::Utc::now().timestamp();
    assert!((now - iat).abs() <= 5);
}

#[test]
fn token_header_declares_hs256() {
    let api_key = String::from(API_KEY);
    let token = create_jwt(&api_key).unwrap();
    let header = jsonwebtoken::decode_header(&token).unwrap();
    assert_eq!(header.alg, jsonwebtoken::Algorithm::HS256);
    assert_eq!(header.typ, Some("JWT".to_string()));
}

#[test]
fn token_signature_is_hmac_of_signing_input() {
    let api_key = String::from(API_KEY);
    let token = create_jwt_at(&api_key, 1234567890).unwrap();
    let parts: Vec<&str> = token.split('.').collect();
    assert_eq!(parts.len(), 3);
    let resigned = jsonwebtoken::crypto::sign(
        format!("{}.{}", parts[0], parts[1]).as_bytes(),
        &jsonwebtoken::EncodingKey::from_secret(secret_key(&api_key).as_bytes()),
        jsonwebtoken::Algorithm::HS256,
    )
    .unwrap();
    assert_eq!(parts[2], resigned);
}

#[test]
fn fixed_iat_token_carries_that_iat() {
    let api_key = String::from(API_KEY);
    let token = create_jwt_at(&api_key, 42).unwrap();
    let claims = decode_claims(&token, &secret_key(&api_key));
    assert_eq!(claims["iat"].as_i64(), Some(42));
}

#[test]
fn fixed_iat_token_matches_expected_serialization() {
    let api_key = String::from(API_KEY);
    let token = create_jwt_at(&api_key, 1234567890).unwrap();
    assert_eq!(
        token,
        "eyJ0eXAiOiJKV1QiLCJhbGciOiJIUzI1NiJ9.\
         eyJpc3MiOiIyNjc4NWEwOS1hYjE2LTRlYjAtODQwNy1hMzc0OTdhNTc1MDYiLCJpYXQiOjEyMzQ1Njc4OTB9.\
         lGXUZSG2sxkttxN9ufg599Ntp6u0N8pXQYzcxmmqn_c"
    );
}

#[test]
fn distinct_iats_give_distinct_tokens() {
    let api_key = String::from(API_KEY);
    let t1 = create_jwt_at(&api_key, 1000).unwrap();
    let t2 = create_jwt_at(&api_key, 1001).unwrap();
    assert_ne!(t1, t2);
}

#[test]
fn consecutive_calls_both_produce_valid_tokens() {
    let api_key = String::from(API_KEY);
    let t1 = create_jwt(&api_key).unwrap();
    let t2 = create_jwt(&api_key).unwrap();
    let c1 = decode_claims(&t1, &secret_key(&api_key));
    let c2 = decode_claims(&t2, &secret_key(&api_key));
    assert_eq!(c1["iss"], c2["iss"]);
}

#[test]
fn short_key_is_rejected() {
    let api_key = String::from("too_short");
    assert_eq!(create_jwt(&api_key), Err(NotifyError::InvalidApiKey));
    assert_eq!(create_jwt_at(&api_key, 7), Err(NotifyError::InvalidApiKey));
}

#[test]
fn wrong_secret_fails_decoding() {
    let api_key = String::from(API_KEY);
    let token = create_jwt(&api_key).unwrap();
    let mut validation = jsonwebtoken::Validation::new(jsonwebtoken::Algorithm::HS256);
    validation.required_spec_claims = std::collections::HashSet::new();
    validation.validate_exp = false;
    let wrong = jsonwebtoken::decode::<serde_json::Value>(
        &token,
        &jsonwebtoken::DecodingKey::from_secret(b"not-the-signing-secret"),
        &validation,
    );
    assert!(wrong.is_err());
}
