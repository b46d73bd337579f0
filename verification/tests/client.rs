use govuk_notify::client::NotifyClient;
use govuk_notify::json::{JsonValue, Member};
use govuk_notify::NotifyError;

const API_KEY: &str =
    "my_test_key-26785a09-ab16-4eb0-8407-a37497a57506-3d844edf-8d35-48ac-975b-e847b4f122b0";

fn client() -> NotifyClient {
    NotifyClient::new(
        String::from(API_KEY),
        Some(String::from("https://notify.example.test")),
    )
}

fn body_json(body: &[u8]) -> serde_json::Map<String, serde_json::Value> {
    let v: serde_json::Value = serde_json::from_slice(body).unwrap();
    v.as_object().unwrap().clone()
}

#[test]
fn email_body_without_personalisation_has_exactly_required_keys() {
    let prepared = client()
        .send_email(
            String::from("john.doe@example.com"),
            String::from("217a419e-6a7d-482a-9596-718b889dffce"),
            None,
            None,
        )
        .unwrap();
    let obj = body_json(&prepared.body);
    assert_eq!(obj.len(), 2);
    assert_eq!(obj["email_address"], "john.doe@example.com");
    assert_eq!(obj["template_id"], "217a419e-6a7d-482a-9596-718b889dffce");
    assert!(!obj.contains_key("personalisation"));
    assert!(!obj.contains_key("reference"));
}

#[test]
fn email_body_keeps_supplied_personalisation_unchanged() {
    let personalisation = vec![Member {
        key: String::from("my_variable"),
        value: JsonValue::Str(String::from("some value")),
    }];
    let prepared = client()
        .send_email(
            String::from("john.doe@example.com"),
            String::from("782fa66b-e092-4806-90d6-16782a791eb0"),
            Some(personalisation),
            None,
        )
        .unwrap();
    let obj = body_json(&prepared.body);
    assert_eq!(obj.len(), 3);
    let mut expected = serde_json::Map::new();
    expected.insert(
        String::from("my_variable"),
        serde_json::Value::String(String::from("some value")),
    );
    assert_eq!(obj["personalisation"], serde_json::Value::Object(expected));
}

#[test]
fn email_body_includes_reference_only_when_supplied() {
    let prepared = client()
        .send_email(
            String::from("john.doe@example.com"),
            String::from("217a419e-6a7d-482a-9596-718b889dffce"),
            None,
            Some(String::from("ref_unique_xyz")),
        )
        .unwrap();
    let obj = body_json(&prepared.body);
    assert_eq!(obj.len(), 3);
    assert_eq!(obj["reference"], "ref_unique_xyz");
}

#[test]
fn sms_body_with_sender_id_includes_the_key() {
    let prepared = client()
        .send_sms(
            String::from("+447900900123"),
            String::from("14306c9d-8cad-4eaf-aaa4-3dae1a1df7e2"),
            None,
            Some(String::from("ref_unique_abc")),
            Some(String::from("b8f5bba5-5528-4bf6-b9a8-911a257f0cd4")),
        )
        .unwrap();
    let obj = body_json(&prepared.body);
    assert_eq!(obj.len(), 4);
    assert_eq!(obj["phone_number"], "+447900900123");
    assert_eq!(obj["template_id"], "14306c9d-8cad-4eaf-aaa4-3dae1a1df7e2");
    assert_eq!(obj["reference"], "ref_unique_abc");
    assert_eq!(obj["sms_sender_id"], "b8f5bba5-5528-4bf6-b9a8-911a257f0cd4");
}

#[test]
fn sms_body_without_sender_id_omits_the_key() {
    let personalisation = vec![Member {
        key: String::from("my_variable"),
        value: JsonValue::Str(String::from("some value")),
    }];
    let prepared = client()
        .send_sms(
            String::from("+447900900123"),
            String::from("a4dcf0f1-2eb4-44e7-a8a1-145801e47afe"),
            Some(personalisation),
            None,
            None,
        )
        .unwrap();
    let obj = body_json(&prepared.body);
    assert_eq!(obj.len(), 3);
    assert!(!obj.contains_key("sms_sender_id"));
    assert!(!obj.contains_key("reference"));
}

#[test]
fn short_key_fails_before_any_request_is_prepared() {
    let bad = NotifyClient::new(
        String::from("short"),
        Some(String::from("https://notify.example.test")),
    );
    let email = bad.send_email(
        String::from("john.doe@example.com"),
        String::from("217a419e-6a7d-482a-9596-718b889dffce"),
        None,
        None,
    );
    assert_eq!(email.err(), Some(NotifyError::InvalidApiKey));
    let sms = bad.send_sms(
        String::from("+447900900123"),
        String::from("a4dcf0f1-2eb4-44e7-a8a1-145801e47afe"),
        None,
        None,
        None,
    );
    assert_eq!(sms.err(), Some(NotifyError::InvalidApiKey));
}

#[test]
fn prepared_request_has_expected_url_and_headers() {
    let prepared = client()
        .send_email(
            String::from("john.doe@example.com"),
            String::from("217a419e-6a7d-482a-9596-718b889dffce"),
            None,
            None,
        )
        .unwrap();
    assert_eq!(
        prepared.url,
        "https://notify.example.test/v2/notifications/email"
    );
    assert!(prepared.authorization.starts_with("Bearer "));
    assert_eq!(prepared.user_agent, "rust-client-pre-alpha");
    assert_eq!(prepared.content_type, "application/json");

    let sms = client()
        .send_sms(
            String::from("+447900900123"),
            String::from("a4dcf0f1-2eb4-44e7-a8a1-145801e47afe"),
            None,
            None,
            None,
        )
        .unwrap();
    assert_eq!(sms.url, "https://notify.example.test/v2/notifications/sms");
}

#[test]
fn default_base_url_is_the_production_endpoint() {
    let c = NotifyClient::new(String::from(API_KEY), None);
    let prepared = c
        .send_email(
            String::from("john.doe@example.com"),
            String::from("217a419e-6a7d-482a-9596-718b889dffce"),
            None,
            None,
        )
        .unwrap();
    assert_eq!(
        prepared.url,
        "https://api.notifications.service.gov.uk/v2/notifications/email"
    );
}

#[test]
fn bearer_token_in_header_is_decodable() {
    let prepared = client()
        .send_email(
            String::from("john.doe@example.com"),
            String::from("217a419e-6a7d-482a-9596-718b889dffce"),
            None,
            None,
        )
        .unwrap();
    let token = prepared.authorization.strip_prefix("Bearer ").unwrap();
    let mut validation = jsonwebtoken::Validation::new(jsonwebtoken::Algorithm::HS256);
    validation.required_spec_claims = std::collections::HashSet::new();
    validation.validate_exp = false;
    let decoded = jsonwebtoken::decode::<serde_json::Value>(
        token,
        &jsonwebtoken::DecodingKey::from_secret(b"3d844edf-8d35-48ac-975b-e847b4f122b0"),
        &validation,
    )
    .unwrap();
    assert_eq!(
        decoded.claims["iss"],
        serde_json::Value::String(String::from("26785a09-ab16-4eb0-8407-a37497a57506"))
    );
}
