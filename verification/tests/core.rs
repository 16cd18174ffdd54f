use logholizon_core::error::{AppError, Failure};
use logholizon_core::json::{Json, JsonNumber};
use logholizon_core::metadata::canonical_field_types;
use logholizon_core::notification::{render, signature, validate_template};
use logholizon_core::report::valid_name;

fn s(x: &str) -> String {
    x.to_string()
}

fn obj(members: Vec<(&str, Json)>) -> Json {
    Json::Object(members.into_iter().map(|(k, v)| (k.to_string(), v)).collect())
}

fn text(x: &str) -> Json {
    Json::String(x.to_string())
}

fn num(n: u64) -> Json {
    Json::Number(JsonNumber::PosInt(n))
}

#[test]
fn canonical_types_cover_phase_two() {
    let types = canonical_field_types();
    assert_eq!(types.len(), 23);
    assert!(types.contains(&"datetime"));
    assert!(types.contains(&"multi_select"));
    assert!(types.contains(&"formula"));
}

#[test]
fn renders_variables() {
    let data = obj(vec![("name", text("Ada")), ("count", num(3))]);
    assert_eq!(render("Hello {{name}} ({{count}})", &data), "Hello Ada (3)");
}

#[test]
fn validates_channels_and_limits() {
    assert!(validate_template("in_app", "", "ok").is_ok());
    assert!(validate_template("sms", "", "ok").is_err());
    assert!(validate_template("email", "", &"x".repeat(1_000_001)).is_err());
}

#[test]
fn signs_payload_with_hmac() {
    let a = signature("secret", "{}");
    let b = signature("secret", "{}");
    assert_eq!(a, b);
    assert_ne!(a, signature("other", "{}"));
}

#[test]
fn report_field_names_are_safe() {
    assert!(valid_name("customer_id"));
    assert!(!valid_name("customer.id"));
    assert!(!valid_name("customer-id"));
}

#[test]
fn signature_is_known_hmac_hex() {
    // RFC 4231 style check: HMAC-SHA256("key", "The quick brown fox jumps over the lazy dog").
    let sig = signature("key", "The quick brown fox jumps over the lazy dog");
    assert_eq!(sig, "sha256=f7bc83f430538424b13298e6aa6fb143ef4d59a14946175997479dbc2d1a3cd8");
}

#[test]
fn template_limits_are_in_bytes() {
    assert!(validate_template("email", &"é".repeat(5_000), "ok").is_ok());
    assert!(validate_template("email", &"é".repeat(5_001), "ok").is_err());
    match validate_template("push", "", "") {
        Err(Failure::Other(_)) => {}
        _ => panic!("expected a plain error"),
    }
}

#[test]
fn renders_non_string_values_as_json() {
    let data = obj(vec![("flag", Json::Bool(true)), ("n", Json::Null), ("list", Json::Array(vec![num(1), text("a")]))]);
    assert_eq!(render("{{flag}}/{{n}}/{{list}}/{{missing}}", &data), "true/null/[1,\"a\"]/{{missing}}");
}

#[test]
fn app_error_messages_and_statuses() {
    let e = AppError::NotFound(s("entity not found: x"));
    assert_eq!(e.message(), "entity not found: x");
    let (status, body) = e.response_parts();
    assert_eq!(status, 404);
    assert_eq!(body.code, "not_found");
}
