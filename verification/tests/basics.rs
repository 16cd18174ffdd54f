use logholizon_core::crypto::{hex_to_bytes, to_hex_lower};
use logholizon_core::error::{from_failure, map_db_error, ApiError, AppError, Failure};
use logholizon_core::formula::{dependencies, lex, template_dependencies, validate, validate_syntax, Token};
use logholizon_core::json::{to_text, Json, JsonNumber};
use logholizon_core::metadata::{is_boolean_type, is_numeric_type, is_option_type, is_text_type, validate_field_type};
use logholizon_core::numbers::is_float_literal;
use logholizon_core::repository::{
    apply_computed_fields, check_module_access, compute_field_value, domain_extensions,
    validate_computed_field, validate_field_name, validate_module_name, Field, Module,
};

fn obj(members: Vec<(&str, Json)>) -> Json {
    Json::Object(members.into_iter().map(|(k, v)| (k.to_string(), v)).collect())
}
fn text(x: &str) -> Json {
    Json::String(x.to_string())
}
fn num(n: u64) -> Json {
    Json::Number(JsonNumber::PosInt(n))
}
fn field(name: &str, ty: &str, expr: Option<&str>) -> Field {
    Field {
        id: name.into(),
        name: name.into(),
        field_type: ty.into(),
        required: false,
        is_status: false,
        position: 0,
        ref_entity: None,
        computed_expr: expr.map(str::to_string),
        is_unique: false,
        min_value: None,
        max_value: None,
        pattern: None,
        min_length: None,
        max_length: None,
        default_value: None,
        auto_number_prefix: None,
        auto_number_width: None,
        options: vec![],
    }
}

#[test]
fn formulas_lex_and_validate() {
    let tokens = lex("{a} + 2.5 >= 'x'").ok().unwrap();
    assert_eq!(tokens.len(), 5);
    assert!(matches!(&tokens[0], Token::Ref(n) if n == "a"));
    assert!(matches!(&tokens[2], Token::Num(t) if t == "2.5"));
    assert!(lex("{a} # 1").is_err());
    assert!(lex("{unterminated").is_err());
    assert_eq!(dependencies("{b} + {a} * {b}").ok().unwrap(), vec!["b".to_string(), "a".to_string()]);
    assert!(validate_syntax("upper({name}) == 'X' && ({a} > 1)").is_ok());
    assert!(validate_syntax("(1 + 2").is_err());
    assert!(validate_syntax("1 + 2)").is_err());
    assert!(validate("{a} + {b}", &vec!["a".to_string(), "b".to_string()]).is_ok());
    assert!(validate("{a} + {c}", &vec!["a".to_string()]).is_err());
    assert_eq!(template_dependencies("Hello {name}, {  id } {name}"), vec!["name".to_string(), "id".to_string()]);
}

#[test]
fn json_text_is_compact() {
    let v = obj(vec![
        ("s", text("a\"b\n\u{1}")),
        ("n", Json::Number(JsonNumber::NegInt(-3))),
        ("f", Json::Number(JsonNumber::Float(1.5f64.to_bits(), "1.5".into()))),
        ("l", Json::Array(vec![Json::Null, Json::Bool(true)])),
    ]);
    let t: String = to_text(&v).into_iter().collect();
    assert_eq!(t, "{\"s\":\"a\\\"b\\n\\u0001\",\"n\":-3,\"f\":1.5,\"l\":[null,true]}");
}

#[test]
fn hex_round_trips() {
    let bytes = vec![0u8, 1, 0xab, 0xff];
    let hex: String = to_hex_lower(&bytes).into_iter().collect();
    assert_eq!(hex, "0001abff");
    assert_eq!(hex_to_bytes(&hex).ok().unwrap(), bytes);
    assert_eq!(hex_to_bytes("0001ABFF").ok().unwrap(), bytes);
    assert!(hex_to_bytes("abc").is_err());
    assert!(hex_to_bytes("zz").is_err());
}

#[test]
fn errors_map_to_responses() {
    assert!(matches!(map_db_error(Failure::Other("UNIQUE constraint failed: _doc.id".into())), AppError::Conflict(m) if m == "duplicate key"));
    assert!(matches!(map_db_error(Failure::Other("FOREIGN KEY constraint failed".into())), AppError::BadRequest(m) if m == "unknown entity_id"));
    assert!(matches!(map_db_error(Failure::Other("disk I/O error".into())), AppError::Internal(m) if m == "disk I/O error"));
    assert!(matches!(from_failure(Failure::App(AppError::Internal("secret".into()))), AppError::Internal(m) if m == "internal error"));
    assert!(matches!(from_failure(Failure::App(AppError::NotFound("x".into()))), AppError::NotFound(m) if m == "x"));
    let e = ApiError::new("conflict", "taken");
    assert_eq!(e.code, "conflict");
    assert_eq!(e.message, "taken");
    let (status, body) = AppError::Forbidden("no".into()).response_parts();
    assert_eq!(status, 403);
    assert_eq!(body.code, "forbidden");
}

#[test]
fn field_types_and_names() {
    assert!(validate_field_type("multi_select").is_ok());
    assert!(validate_field_type("textarea").is_ok());
    assert!(matches!(validate_field_type("blob"), Err(AppError::BadRequest(m)) if m == "invalid field type: blob"));
    assert!(is_text_type("long_text") && !is_text_type("number"));
    assert!(is_numeric_type("currency") && !is_numeric_type("text"));
    assert!(is_boolean_type("checkbox"));
    assert!(is_option_type("multi_select"));
    assert!(validate_field_name("work_order2").is_ok());
    assert!(matches!(validate_field_name(""), Err(Failure::Other(_))));
    assert!(matches!(validate_field_name("2nd"), Err(Failure::App(AppError::BadRequest(_)))));
    assert!(validate_module_name("Vehicle").is_err());
    assert!(domain_extensions().is_empty());
    assert!(is_float_literal(&"-1.5e3".chars().collect()));
    assert!(is_float_literal(&"inf".chars().collect()));
    assert!(!is_float_literal(&"1.2.3".chars().collect()));
    assert!(!is_float_literal(&"".chars().collect()));
}

#[test]
fn computed_fields_interpolate_the_payload() {
    assert!(validate_computed_field("computed", Some("{a}")).is_ok());
    assert!(validate_computed_field("computed", Some("  ")).is_err());
    assert!(validate_computed_field("text", Some("{a}")).is_err());
    let payload = obj(vec![("first", text("Ada")), ("n", num(3)), ("flag", Json::Bool(true)), ("none", Json::Null)]);
    assert_eq!(compute_field_value("{first} #{ n } {flag}{none}{missing} {tail", &payload), "Ada #3 true {tail");
    let fields = vec![field("first", "text", None), field("label", "computed", Some("Hi {first}"))];
    let out = apply_computed_fields(&fields, &payload);
    match out {
        Json::Object(e) => {
            let label = e.iter().find(|(k, _)| k == "label").map(|(_, v)| v);
            assert_eq!(label, Some(&text("Hi Ada")));
        }
        _ => panic!("expected an object"),
    }
}

#[test]
fn module_access_follows_owner_and_role() {
    let m = Module {
        id: "ann_sales".into(), name: "sales".into(), label: "Sales".into(), description: String::new(),
        icon: String::new(), color: String::new(), owner: "ann".into(), status: "draft".into(), version: 1,
        definition: Json::Null, created_by: None, created_at: String::new(), updated_at: String::new(),
    };
    assert!(check_module_access(&m, " ann ", "user").is_ok());
    assert!(check_module_access(&m, "bob", "admin").is_ok());
    assert!(matches!(check_module_access(&m, "bob", "user"), Err(AppError::Forbidden(_))));
}
