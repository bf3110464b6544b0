use base64::engine::general_purpose::URL_SAFE_NO_PAD;
use base64::Engine;
use underclass::json::{Json, Number};
use underclass::jwt::{
    extract_account_id, extract_display_name, extract_email, extract_residency, jwt_payload,
};

fn claims_json(v: &serde_json::Value) -> Json {
    match v {
        serde_json::Value::Null => Json::Null,
        serde_json::Value::Bool(b) => Json::Bool(*b),
        serde_json::Value::Number(n) => Json::Number(if let Some(u) = n.as_u64() {
            Number::PosInt(u)
        } else if let Some(i) = n.as_i64() {
            Number::NegInt(i)
        } else {
            Number::Float(n.as_f64().unwrap_or(0.0).to_bits())
        }),
        serde_json::Value::String(t) => Json::Str(t.clone()),
        serde_json::Value::Array(items) => Json::Array(items.iter().map(claims_json).collect()),
        serde_json::Value::Object(map) => Json::Object(
            map.iter().map(|(k, v)| (k.clone(), claims_json(v))).collect(),
        ),
    }
}

fn parse_jwt_claims(token: &str) -> Option<Json> {
    let bytes = jwt_payload(token)?;
    let value: serde_json::Value = serde_json::from_slice(&bytes).ok()?;
    Some(claims_json(&value))
}

fn encode_token(claims: &str) -> String {
    let value: serde_json::Value = serde_json::from_str(claims).unwrap();
    let header = URL_SAFE_NO_PAD.encode(br#"{"alg":"none"}"#);
    let payload = URL_SAFE_NO_PAD.encode(serde_json::to_vec(&value).unwrap());
    format!("{header}.{payload}.sig")
}

fn claims_of(text: &str) -> Json {
    let value: serde_json::Value = serde_json::from_str(text).unwrap();
    claims_json(&value)
}

#[test]
fn account_id_direct_claim() {
    let t = encode_token(r#"{"chatgpt_account_id": "acc-1"}"#);
    let claims = parse_jwt_claims(&t).unwrap();
    assert_eq!(extract_account_id(&claims).as_deref(), Some("acc-1"));
}

#[test]
fn account_id_namespaced_claim() {
    let t = encode_token(r#"{"https://api.openai.com/auth": {"chatgpt_account_id": "acc-2"}}"#);
    let claims = parse_jwt_claims(&t).unwrap();
    assert_eq!(extract_account_id(&claims).as_deref(), Some("acc-2"));
}

#[test]
fn account_id_falls_back_to_organization() {
    let t = encode_token(r#"{"organizations": [{"id": "org-9"}]}"#);
    let claims = parse_jwt_claims(&t).unwrap();
    assert_eq!(extract_account_id(&claims).as_deref(), Some("org-9"));
}

#[test]
fn residency_skips_no_constraint() {
    let t = encode_token(r#"{"chatgpt_compute_residency": "no_constraint"}"#);
    let claims = parse_jwt_claims(&t).unwrap();
    assert_eq!(extract_residency(&claims), None);
    let t = encode_token(r#"{"https://api.openai.com/auth": {"chatgpt_compute_residency": "eu"}}"#);
    let claims = parse_jwt_claims(&t).unwrap();
    assert_eq!(extract_residency(&claims).as_deref(), Some("eu"));
}

#[test]
fn email_from_top_level_or_namespaced_profile() {
    let t = encode_token(r#"{"email": "a@b.c"}"#);
    let claims = parse_jwt_claims(&t).unwrap();
    assert_eq!(extract_email(&claims).as_deref(), Some("a@b.c"));

    let t = encode_token(r#"{"https://api.openai.com/profile": {"email": "x@y.z", "name": "Geo"}}"#);
    let claims = parse_jwt_claims(&t).unwrap();
    assert_eq!(extract_email(&claims).as_deref(), Some("x@y.z"));
    assert_eq!(extract_display_name(&claims).as_deref(), Some("Geo"));
}

#[test]
fn email_missing_or_empty_returns_none() {
    let t = encode_token(r#"{"https://api.openai.com/profile": {"email": ""}}"#);
    let claims = parse_jwt_claims(&t).unwrap();
    assert_eq!(extract_email(&claims), None);
    let t = encode_token(r#"{"aud": "x"}"#);
    let claims = parse_jwt_claims(&t).unwrap();
    assert_eq!(extract_email(&claims), None);
}

#[test]
fn malformed_tokens_return_none() {
    assert!(parse_jwt_claims("not-a-jwt").is_none());
    assert!(parse_jwt_claims("a.b").is_none());
    assert!(parse_jwt_claims("a.!!!.c").is_none());
}

#[test]
fn payload_is_the_decoded_middle_segment() {
    assert_eq!(jwt_payload("x.aGVsbG8.y"), Some(b"hello".to_vec()));
    assert_eq!(jwt_payload(".."), Some(Vec::new()));
    assert_eq!(jwt_payload("a.b.c.d"), None);
    assert_eq!(jwt_payload("a.aGVsbG8=.c"), None);
}

#[test]
fn claim_precedence_and_empty_values() {
    let claims = claims_of(r#"{
        "chatgpt_account_id": "direct",
        "https://api.openai.com/auth": {"chatgpt_account_id": "nested", "chatgpt_compute_residency": ""},
        "chatgpt_compute_residency": "us",
        "organizations": [{"id": "org"}]
    }"#);
    assert_eq!(extract_account_id(&claims).as_deref(), Some("direct"));
    assert_eq!(extract_residency(&claims), None);
    let claims = claims_of(r#"{"chatgpt_compute_residency": "us", "organizations": []}"#);
    assert_eq!(extract_residency(&claims).as_deref(), Some("us"));
    assert_eq!(extract_account_id(&claims), None);
    let claims = claims_of(r#"{"https://api.openai.com/profile": {"name": ""}}"#);
    assert_eq!(extract_display_name(&claims), None);
    let claims = claims_of(r#"{"email": 5, "https://api.openai.com/profile": {"email": "p@q.r"}}"#);
    assert_eq!(extract_email(&claims).as_deref(), Some("p@q.r"));
}
