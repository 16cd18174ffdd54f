use logholizon_core::auth::{
    check_registration, chrono_like_now_plus_days, civil_from_days, hash_password, new_token,
    role_for_new_user, timestamp, user_id, verify_password,
};
use logholizon_core::dashboard::{can_view, Dashboard};
use logholizon_core::error::{AppError, Failure};
use logholizon_core::json::{Json, JsonNumber};
use logholizon_core::rbac::{check_new_role, check_role_change, role_id, Role};
use logholizon_core::relation::{check_links_allowed, check_self_reference, check_source_field, delete_rules, relation_types, validate_delete, validate_type, Relation};
use logholizon_core::report::{
    check_report_fields, check_report_operations, get_value, CalculatedColumn, ReportAggregate,
    ReportConfig, ReportFilter, ReportSort,
};
use logholizon_core::requests::{authorize, bearer_token, is_public_path};
use logholizon_core::security::{
    client_ip_key, validate_filename, validate_outbound_url, validate_webhook_headers,
    verify_webhook_signature, AuthRateLimiter,
};
use logholizon_core::settings::{database_path, parse_unsigned_text, synchronous_mode, Config};

fn obj(members: Vec<(&str, Json)>) -> Json {
    Json::Object(members.into_iter().map(|(k, v)| (k.to_string(), v)).collect())
}
fn text(x: &str) -> Json {
    Json::String(x.to_string())
}
fn arr(items: Vec<Json>) -> Json {
    Json::Array(items)
}

#[test]
fn nested_relation_values_are_resolved() {
    let row = obj(vec![("_relation", arr(vec![obj(vec![("name", text("A"))]), obj(vec![("name", text("B"))])]))]);
    assert_eq!(get_value(&row, "_relation.name"), arr(vec![text("A"), text("B")]));
}

#[test]
fn row_values_follow_paths() {
    let row = obj(vec![
        ("a.b", text("direct")),
        ("a", obj(vec![("b", text("nested")), ("c", obj(vec![("d", Json::Bool(true))]))])),
        ("list", arr(vec![obj(vec![("x", text("1"))]), text("skip"), obj(vec![("y", text("2"))])])),
    ]);
    assert_eq!(get_value(&row, "a.b"), text("direct"));
    assert_eq!(get_value(&row, "a.c.d"), Json::Bool(true));
    assert_eq!(get_value(&row, "list.x"), text("1"));
    assert_eq!(get_value(&row, "list.z"), Json::Null);
    assert_eq!(get_value(&row, "missing"), Json::Null);
    assert_eq!(get_value(&text("s"), "a"), Json::Null);
}

fn config() -> ReportConfig {
    ReportConfig {
        fields: vec!["title".into(), "customer.name".into()],
        filters: vec![ReportFilter { field: "qty".into(), op: "gte".into(), value: Json::Number(JsonNumber::PosInt(1)) }],
        group_by: vec![],
        sort: vec![ReportSort { field: "title".into(), direction: "DESC".into() }],
        aggregates: vec![
            ReportAggregate { field: "ignored".into(), op: "count".into(), alias: None },
            ReportAggregate { field: "qty".into(), op: "sum".into(), alias: None },
        ],
        calculated: vec![CalculatedColumn { name: "double".into(), expression: "{qty} * 2".into() }],
        date_range: None,
        date_field: Some("created".into()),
        relation_id: None,
    }
}

#[test]
fn reports_refer_to_known_fields() {
    let names = vec!["title".to_string(), "customer".to_string(), "qty".to_string(), "created".to_string()];
    let whole = check_report_fields(&config(), &names).ok().unwrap();
    assert_eq!(whole, vec!["title".to_string(), "title".to_string(), "qty".to_string(), "qty".to_string(), "created".to_string()]);
    let mut c = config();
    c.group_by = vec!["price".into()];
    match check_report_fields(&c, &names) {
        Err(Failure::Other(m)) => assert_eq!(m, "unknown report field: price"),
        _ => panic!("expected a refusal"),
    }
    let mut c = config();
    c.date_field = Some("when".into());
    match check_report_fields(&c, &names) {
        Err(Failure::Other(m)) => assert_eq!(m, "unknown report date field: when"),
        _ => panic!("expected a refusal"),
    }
    assert!(check_report_operations(&config()).is_ok());
    let mut c = config();
    c.aggregates[1].op = "median".into();
    match check_report_operations(&c) {
        Err(Failure::Other(m)) => assert_eq!(m, "unsupported report aggregate: median"),
        _ => panic!("expected a refusal"),
    }
    let mut c = config();
    c.sort[0].direction = "up".into();
    match check_report_operations(&c) {
        Err(Failure::Other(m)) => assert_eq!(m, "unsupported report sort direction"),
        _ => panic!("expected a refusal"),
    }
    let mut c = config();
    c.calculated[0].name = "bad name".into();
    assert!(check_report_operations(&c).is_err());
    let mut c = config();
    c.calculated[0].expression = "(1".into();
    assert!(matches!(check_report_operations(&c), Err(Failure::App(AppError::BadRequest(_)))));
}

#[test]
fn passwords_tokens_and_registration() {
    let h = hash_password("correct horse").ok().unwrap();
    assert!(verify_password("correct horse", &h));
    assert!(!verify_password("wrong horse", &h));
    assert!(!verify_password("correct horse", "not a hash"));
    let t = new_token();
    assert_eq!(t.len(), 64);
    assert!(t.chars().all(|c| c.is_ascii_hexdigit() && !c.is_ascii_uppercase()));
    assert_ne!(t, new_token());
    assert_eq!(check_registration("  ada ", "12345678").ok().unwrap(), "ada");
    match check_registration("ada", "1234567") {
        Err(Failure::Other(m)) => assert_eq!(m, "username is required and password must be at least 8 characters"),
        _ => panic!("expected a refusal"),
    }
    assert!(check_registration("ada", "ééééé").is_ok());
    assert_eq!(role_for_new_user(0), "admin");
    assert_eq!(role_for_new_user(4), "user");
    assert_eq!(user_id("ada"), "user_ada");
}

#[test]
fn dates_and_timestamps() {
    assert_eq!(civil_from_days(0), (1970, 1, 1));
    assert_eq!(civil_from_days(-1), (1969, 12, 31));
    assert_eq!(civil_from_days(19_782), (2024, 2, 29));
    assert_eq!(civil_from_days(11_016), (2000, 2, 29));
    assert_eq!(civil_from_days(-719_468), (0, 3, 1));
    assert_eq!(timestamp(0), "1970-01-01 00:00:00");
    assert_eq!(timestamp(1_709_210_096), "2024-02-29 12:34:56");
    assert_eq!(timestamp(86_399), "1970-01-01 23:59:59");
    let later = chrono_like_now_plus_days(7);
    assert_eq!(later.len(), 19);
}

#[test]
fn settings_and_database_urls() {
    assert_eq!(parse_unsigned_text("8080", 65535), Some(8080));
    assert_eq!(parse_unsigned_text("+7", 65535), Some(7));
    assert_eq!(parse_unsigned_text("65536", 65535), None);
    assert_eq!(parse_unsigned_text("", 65535), None);
    assert_eq!(parse_unsigned_text("+", 65535), None);
    assert_eq!(parse_unsigned_text("-1", 65535), None);
    assert_eq!(parse_unsigned_text("18446744073709551615", u64::MAX), Some(u64::MAX));
    assert_eq!(parse_unsigned_text("18446744073709551616", u64::MAX), None);
    let c = Config::from_values(None, Some("x"), "sqlite://db", Some("0"), None);
    assert_eq!(c.host, "127.0.0.1");
    assert_eq!(c.port, 8787);
    assert_eq!(c.backup_interval_hours, 0);
    assert_eq!(c.backup_keep, 7);
    assert_eq!(database_path("sqlite://data/core.db?mode=rwc").ok().unwrap(), "data/core.db");
    match database_path("postgres://x") {
        Err(Failure::Other(m)) => assert_eq!(m, "database URL must start with sqlite://"),
        _ => panic!("expected a refusal"),
    }
    assert!(database_path("sqlite://:memory:").is_err());
    assert!(database_path("sqlite://?mode=memory").is_err());
    assert_eq!(synchronous_mode(1).ok().unwrap(), "NORMAL");
    match synchronous_mode(-4) {
        Err(Failure::Other(m)) => assert_eq!(m, "unknown synchronous mode: -4"),
        _ => panic!("expected a refusal"),
    }
}

#[test]
fn access_decisions() {
    assert!(is_public_path("/v1/auth/login"));
    assert!(!is_public_path("/v1/documents"));
    assert!(authorize("/v1/meta/entities", "admin").is_ok());
    match authorize("/v1/admin/backups", "user") {
        Err(AppError::Forbidden(m)) => assert_eq!(m, "admin role required"),
        _ => panic!("expected a refusal"),
    }
    assert!(authorize("/v1/documents", "user").is_ok());
    assert_eq!(bearer_token(Some("Bearer  abc ")).ok().unwrap(), "abc");
    assert!(matches!(bearer_token(Some("Basic abc")), Err(AppError::Unauthorized(_))));
    assert!(bearer_token(Some("Bearer   ")).is_err());
    assert!(bearer_token(None).is_err());
}

#[test]
fn roles_relations_and_dashboards() {
    let (n, l) = check_new_role(" field-tech_2 ", " Field Tech ").ok().unwrap();
    assert_eq!(n, "field-tech_2");
    assert_eq!(l, "Field Tech");
    assert!(check_new_role("Field", "x").is_err());
    assert!(check_new_role("", "x").is_err());
    assert_eq!(role_id("auditor"), "role_auditor");
    let r = Role { id: "role_admin".into(), name: "admin".into(), label: "Admin".into(), description: String::new(), system: true, created_at: String::new() };
    match check_role_change(&r, true) {
        Err(Failure::Other(m)) => assert_eq!(m, "system role cannot be deleted"),
        _ => panic!("expected a refusal"),
    }
    assert_eq!(relation_types().len(), 4);
    assert_eq!(delete_rules(), vec!["restrict", "set_null", "cascade"]);
    assert!(validate_type("one_to_many").is_ok());
    assert!(validate_type("tree").is_err());
    assert!(validate_delete("cascade").is_ok());
    assert!(check_self_reference("a", "a", false, "one_to_many").is_err());
    assert!(check_self_reference("a", "a", false, "many_to_many").is_ok());
    assert!(check_source_field(false, "many_to_one").is_err());
    let rel = Relation {
        id: "r".into(), source_entity_id: "a".into(), source_field_id: None, target_entity_id: "b".into(),
        target_field_id: None, name: "n".into(), relation_type: "one_to_one".into(), on_delete: "restrict".into(), created_at: String::new(),
    };
    assert!(check_links_allowed(&rel).is_err());
    let d = Dashboard {
        id: "d".into(), name: "n".into(), description: String::new(), layout: Json::Null, filters: Json::Null,
        roles: vec!["sales".into()], users: vec!["u1".into()], active: true, created_by: None,
        created_at: String::new(), updated_at: String::new(),
    };
    assert!(can_view(&d, None, "sales"));
    assert!(can_view(&d, Some("u1"), "user"));
    assert!(!can_view(&d, Some("u2"), "user"));
    assert!(can_view(&d, None, "admin"));
}

#[test]
fn outbound_urls_headers_and_filenames() {
    assert!(validate_outbound_url("https://hooks.example.com/x").is_ok());
    assert!(validate_outbound_url("http://localhost/x").is_err());
    assert!(validate_outbound_url("http://a.localhost/x").is_err());
    assert!(validate_outbound_url("http://10.0.0.1/x").is_err());
    assert!(validate_outbound_url("http://192.168.1.20:8080/x").is_err());
    assert!(validate_outbound_url("https://8.8.8.8/x").is_ok());
    assert!(validate_outbound_url("ftp://example.com").is_err());
    assert!(validate_outbound_url("https://user:pw@example.com").is_err());
    assert!(validate_outbound_url("not a url").is_err());
    assert!(validate_webhook_headers(&obj(vec![("X-Token", text("abc"))])).is_ok());
    assert!(validate_webhook_headers(&obj(vec![("Host", text("x"))])).is_err());
    assert!(validate_webhook_headers(&obj(vec![("X-Num", Json::Number(JsonNumber::PosInt(1)))])).is_err());
    assert!(validate_webhook_headers(&text("x")).is_err());
    assert!(validate_filename("report.pdf").is_ok());
    assert!(validate_filename("../etc/passwd").is_err());
    assert!(validate_filename("a\u{7}b").is_err());
    assert!(validate_filename("..").is_err());
    assert_eq!(client_ip_key(Some(" 1.2.3.4 , 5.6.7.8"), "9.9.9.9"), "1.2.3.4");
    assert_eq!(client_ip_key(Some("  "), "9.9.9.9"), "9.9.9.9");
    assert_eq!(client_ip_key(None, "9.9.9.9"), "9.9.9.9");
}

#[test]
fn webhook_signatures_verify() {
    let sig = logholizon_core::notification::signature("k", "payload");
    assert!(verify_webhook_signature("k", b"payload", &sig));
    assert!(!verify_webhook_signature("other", b"payload", &sig));
    assert!(!verify_webhook_signature("k", b"payload", "sha256=zz"));
    assert!(!verify_webhook_signature("k", b"payload", "sha256=zzaéa"));
    assert!(!verify_webhook_signature("k", b"payload", "sha256=é0"));
    assert!(!verify_webhook_signature("k", b"payload", "md5=00"));
}

#[test]
fn failed_logins_are_limited() {
    let mut l = AuthRateLimiter::new();
    assert!(!l.is_limited_at("ip", 2, 60, 1_000));
    assert!(!l.record_failure_at("ip", 2, 60, 1_000));
    assert!(!l.record_failure_at("ip", 2, 60, 1_001));
    assert!(l.record_failure_at("ip", 2, 60, 1_002));
    assert!(l.is_limited_at("ip", 2, 60, 1_003));
    assert!(!l.is_limited_at("ip", 2, 60, 1_000 + 61));
    assert!(!l.is_limited_at("other", 2, 60, 1_002));
    l.record_failure_at("ip", 2, 60, 2_000);
    l.record_failure_at("ip", 2, 60, 2_001);
    assert!(l.record_failure_at("ip", 2, 60, 2_001));
    l.clear("ip");
    assert!(!l.is_limited_at("ip", 2, 60, 2_002));
}

#[test]
fn failed_logins_are_limited_within_the_window() {
    let window = std::time::Duration::from_secs(3600);
    let mut l = AuthRateLimiter::new();
    assert!(!l.is_limited("ip", 2, window));
    assert!(!l.record_failure("ip", 2, window));
    assert!(!l.record_failure("ip", 2, window));
    assert!(l.record_failure("ip", 2, window));
    assert!(l.is_limited("ip", 2, window));
    assert!(!l.is_limited("other", 2, window));
    l.clear("ip");
    assert!(!l.is_limited("ip", 2, window));
}
