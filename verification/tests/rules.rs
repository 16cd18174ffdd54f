use logholizon_core::error::{AppError, Failure};
use logholizon_core::field_rules::{field_rules_from_definition, json_as_f64, validate_field_rules, FieldRules};
use logholizon_core::float_bits::{i64_to_f64_bits, is_finite_bits, lt_bits, u64_to_f64_bits};
use logholizon_core::json::{Json, JsonNumber};
use logholizon_core::module_definition::validate_module_definition;
use logholizon_core::pattern::matches_simple_pattern;
use logholizon_core::payload::{
    check_value_rules, merge_editable_payload, redact_payload, rule_error, validate_field_value,
    RuleViolation,
};
use logholizon_core::repository::{Field, FieldOption};

fn obj(members: Vec<(&str, Json)>) -> Json {
    Json::Object(members.into_iter().map(|(k, v)| (k.to_string(), v)).collect())
}
fn text(x: &str) -> Json {
    Json::String(x.to_string())
}
fn num(n: u64) -> Json {
    Json::Number(JsonNumber::PosInt(n))
}
fn float(x: f64) -> Json {
    Json::Number(JsonNumber::Float(x.to_bits(), format!("{x:?}")))
}
fn arr(items: Vec<Json>) -> Json {
    Json::Array(items)
}
fn bad_message(r: Result<(), AppError>) -> String {
    match r {
        Err(AppError::BadRequest(m)) => m,
        other => panic!("expected a bad request, got ok={}", other.is_ok()),
    }
}
fn field(name: &str, ty: &str) -> Field {
    Field {
        id: format!("e_{name}"),
        name: name.to_string(),
        field_type: ty.to_string(),
        required: false,
        is_status: false,
        position: 0,
        ref_entity: None,
        computed_expr: None,
        is_unique: false,
        min_value: None,
        max_value: None,
        pattern: None,
        min_length: None,
        max_length: None,
        default_value: None,
        auto_number_prefix: None,
        auto_number_width: None,
        options: vec![],
    }
}

#[test]
fn integers_convert_to_the_nearest_double() {
    for n in [0u64, 1, 2, 3, 7, 1 << 52, (1 << 53) - 1, 1 << 53, (1 << 53) + 1, (1 << 53) + 3, 123_456_789_012_345_678, u64::MAX, u64::MAX - 1024, 1 << 63] {
        assert_eq!(u64_to_f64_bits(n), (n as f64).to_bits(), "n = {n}");
    }
    for n in [0i64, -1, -2, 5, -9_007_199_254_740_993, i64::MIN, i64::MAX, -123_456_789] {
        assert_eq!(i64_to_f64_bits(n), (n as f64).to_bits(), "n = {n}");
    }
}

#[test]
fn doubles_compare_as_numbers() {
    let b = |x: f64| x.to_bits();
    assert!(lt_bits(b(1.5), b(2.0)));
    assert!(!lt_bits(b(2.0), b(1.5)));
    assert!(lt_bits(b(-3.0), b(-2.0)));
    assert!(lt_bits(b(-1.0), b(0.0)));
    assert!(!lt_bits(b(-0.0), b(0.0)));
    assert!(!lt_bits(b(0.0), b(-0.0)));
    assert!(lt_bits(b(f64::NEG_INFINITY), b(-1e308)));
    assert!(!lt_bits(b(f64::NAN), b(1.0)));
    assert!(!lt_bits(b(1.0), b(f64::NAN)));
    assert!(is_finite_bits(b(1e308)));
    assert!(!is_finite_bits(b(f64::INFINITY)));
    assert!(!is_finite_bits(b(f64::NAN)));
}

#[test]
fn json_numbers_read_as_doubles() {
    assert_eq!(json_as_f64(Some(&num(3))), Some(3.0f64.to_bits()));
    assert_eq!(json_as_f64(Some(&Json::Number(JsonNumber::NegInt(-4)))), Some((-4.0f64).to_bits()));
    assert_eq!(json_as_f64(Some(&float(2.5))), Some(2.5f64.to_bits()));
    assert_eq!(json_as_f64(Some(&text("1"))), None);
    assert_eq!(json_as_f64(None), None);
}

#[test]
fn rules_are_read_from_the_field_then_its_rules() {
    let f = obj(vec![
        ("name", text("amount")),
        ("min_value", num(1)),
        ("rules", obj(vec![("max", float(9.5)), ("unique", Json::Bool(true)), ("default", num(5)), ("pattern", text("^[0-9]+$"))])),
        ("auto_number", obj(vec![("prefix", text("INV-")), ("width", num(4))])),
    ]);
    let r = field_rules_from_definition(&f);
    assert!(r.is_unique);
    assert_eq!(r.min_value, Some(1.0f64.to_bits()));
    assert_eq!(r.max_value, Some(9.5f64.to_bits()));
    assert_eq!(r.default_value.as_deref(), Some("5"));
    assert_eq!(r.pattern.as_deref(), Some("^[0-9]+$"));
    assert_eq!(r.auto_number_prefix.as_deref(), Some("INV-"));
    assert_eq!(r.auto_number_width, Some(4));
    assert_eq!(r.min_length, None);
}

#[test]
fn rules_must_fit_the_field_type() {
    let mut r = FieldRules::default();
    assert!(validate_field_rules("text", &r).is_ok());
    r.min_value = Some(1.0f64.to_bits());
    assert_eq!(bad_message(validate_field_rules("text", &r)), "min_value is only valid for number fields");
    assert!(validate_field_rules("number", &r).is_ok());
    r.max_value = Some(0.5f64.to_bits());
    assert_eq!(bad_message(validate_field_rules("number", &r)), "min_value must be <= max_value");
    r.max_value = Some(f64::INFINITY.to_bits());
    assert_eq!(bad_message(validate_field_rules("currency", &r)), "max_value must be finite");
    let mut r = FieldRules::default();
    r.pattern = Some("x".repeat(501));
    assert_eq!(bad_message(validate_field_rules("text", &r)), "pattern is too long");
    r.pattern = Some("   ".to_string());
    assert!(validate_field_rules("number", &r).is_ok());
    let mut r = FieldRules::default();
    r.min_length = Some(3);
    r.max_length = Some(2);
    assert_eq!(bad_message(validate_field_rules("text", &r)), "min_length must be <= max_length");
    assert_eq!(bad_message(validate_field_rules("date", &r)), "length limits are only valid for text fields");
    let mut r = FieldRules::default();
    r.default_value = Some("abc".to_string());
    assert_eq!(bad_message(validate_field_rules("number", &r)), "default_value must be a number");
    r.default_value = Some(" 1e3 ".to_string());
    assert!(validate_field_rules("number", &r).is_ok());
    r.default_value = Some("TRUE".to_string());
    assert!(validate_field_rules("boolean", &r).is_ok());
    r.default_value = Some("yes".to_string());
    assert_eq!(bad_message(validate_field_rules("checkbox", &r)), "default_value must be true or false");
    let mut r = FieldRules::default();
    r.auto_number_width = Some(11);
    assert_eq!(bad_message(validate_field_rules("text", &r)), "auto_number width must be 1..=10");
    assert_eq!(bad_message(validate_field_rules("number", &r)), "auto_number is only valid for text fields");
}

fn sample_definition() -> Json {
    obj(vec![(
        "entities",
        arr(vec![
            obj(vec![
                ("name", text("customer")),
                ("fields", arr(vec![obj(vec![("name", text("title")), ("type", text("text"))])])),
            ]),
            obj(vec![
                ("name", text("invoice")),
                (
                    "fields",
                    arr(vec![
                        obj(vec![("name", text("customer")), ("type", text("reference")), ("ref_entity", text("customer"))]),
                        obj(vec![("name", text("status")), ("type", text("select")), ("is_status", Json::Bool(true))]),
                        obj(vec![("name", text("label")), ("type", text("computed")), ("computed_expr", text("{customer}"))]),
                    ]),
                ),
                (
                    "workflow",
                    obj(vec![
                        ("states", arr(vec![obj(vec![("name", text("draft"))]), obj(vec![("name", text("sent"))])])),
                        ("transitions", arr(vec![obj(vec![("from_state", text("draft")), ("to_state", text("sent"))])])),
                    ]),
                ),
            ]),
        ]),
    )])
}

#[test]
fn module_definitions_are_checked_in_order() {
    assert!(validate_module_definition(&sample_definition()).is_ok());
    assert_eq!(bad_message(validate_module_definition(&obj(vec![]))), "definition.entities must be an array");
    assert_eq!(bad_message(validate_module_definition(&obj(vec![("entities", arr(vec![]))]))), "definition must declare at least one entity");
    let dup = obj(vec![("entities", arr(vec![obj(vec![("name", text("a")), ("fields", arr(vec![]))]), obj(vec![("name", text(" a ")), ("fields", arr(vec![]))])]))]);
    assert_eq!(bad_message(validate_module_definition(&dup)), "duplicate entity: a");
    let bad_name = obj(vec![("entities", arr(vec![obj(vec![("name", text("Vehicle"))])]))]);
    assert_eq!(bad_message(validate_module_definition(&bad_name)), "module name must be lowercase snake_case (e.g. vehicle)");
    let no_fields = obj(vec![("entities", arr(vec![obj(vec![("name", text("car"))])]))]);
    assert_eq!(bad_message(validate_module_definition(&no_fields)), "entity car requires a fields array");
    let self_ref = obj(vec![("entities", arr(vec![obj(vec![("name", text("car")), ("fields", arr(vec![obj(vec![("name", text("parent")), ("type", text("reference")), ("ref_entity", text("car"))])]))])]))]);
    assert_eq!(bad_message(validate_module_definition(&self_ref)), "reference field cannot point at its own entity: car.parent");
    let unknown_ref = obj(vec![("entities", arr(vec![obj(vec![("name", text("car")), ("fields", arr(vec![obj(vec![("name", text("owner")), ("type", text("reference")), ("ref_entity", text("person"))])]))])]))]);
    assert_eq!(bad_message(validate_module_definition(&unknown_ref)), "unknown ref_entity person in car.owner");
    let bad_type = obj(vec![("entities", arr(vec![obj(vec![("name", text("car")), ("fields", arr(vec![obj(vec![("name", text("x")), ("type", text("blob"))])]))])]))]);
    assert_eq!(bad_message(validate_module_definition(&bad_type)), "invalid field type: blob");
    let two_status = obj(vec![("entities", arr(vec![obj(vec![("name", text("car")), ("fields", arr(vec![
        obj(vec![("name", text("a")), ("type", text("select")), ("is_status", Json::Bool(true))]),
        obj(vec![("name", text("b")), ("type", text("select")), ("is_status", Json::Bool(true))]),
    ]))])]))]);
    assert_eq!(bad_message(validate_module_definition(&two_status)), "entity car must have at most one status field");
    let text_status = obj(vec![("entities", arr(vec![obj(vec![("name", text("car")), ("fields", arr(vec![obj(vec![("name", text("a")), ("is_status", Json::Bool(true))])]))])]))]);
    assert_eq!(bad_message(validate_module_definition(&text_status)), "status field must be of type select: car.a");
    let bad_state = obj(vec![("entities", arr(vec![obj(vec![("name", text("car")), ("fields", arr(vec![])), ("workflow", obj(vec![
        ("states", arr(vec![obj(vec![("name", text("new"))])])),
        ("transitions", arr(vec![obj(vec![("from_state", text("new")), ("to_state", text("gone"))])])),
    ]))])]))]);
    assert_eq!(bad_message(validate_module_definition(&bad_state)), "unknown state gone in car");
    let loop_state = obj(vec![("entities", arr(vec![obj(vec![("name", text("car")), ("fields", arr(vec![])), ("workflow", obj(vec![
        ("transitions", arr(vec![obj(vec![("from_state", text("x")), ("to_state", text("x"))])])),
    ]))])]))]);
    assert_eq!(bad_message(validate_module_definition(&loop_state)), "from_state and to_state must differ in car");
    let bad_computed = obj(vec![("entities", arr(vec![obj(vec![("name", text("car")), ("fields", arr(vec![obj(vec![("name", text("c")), ("type", text("computed"))])]))])]))]);
    assert_eq!(bad_message(validate_module_definition(&bad_computed)), "computed fields require a computed_expr");
    let bad_rule = obj(vec![("entities", arr(vec![obj(vec![("name", text("car")), ("fields", arr(vec![obj(vec![("name", text("c")), ("min_length", num(3)), ("type", text("number"))])]))])]))]);
    assert_eq!(bad_message(validate_module_definition(&bad_rule)), "length limits are only valid for text fields");
}

#[test]
fn simple_patterns() {
    assert!(matches_simple_pattern("", "anything"));
    assert!(matches_simple_pattern(" .* ", ""));
    assert!(!matches_simple_pattern(".+", ""));
    assert!(matches_simple_pattern(".+", "x"));
    assert!(matches_simple_pattern("^[0-9]+$", "2024"));
    assert!(!matches_simple_pattern("^[0-9]+$", "20a4"));
    assert!(!matches_simple_pattern("^[0-9]+$", ""));
    assert!(matches_simple_pattern("^INV-[0-9]+$", "INV-42"));
    assert!(!matches_simple_pattern("^INV-[0-9]+$", "INV-"));
    assert!(matches_simple_pattern("[0-9]*kg", "12kg"));
    assert!(!matches_simple_pattern("[0-9]*kg", "12 lb"));
    assert!(matches_simple_pattern("^ab.*yz$", "abcxyz"));
    assert!(!matches_simple_pattern("^ab.*yz$", "xabyz"));
    assert!(matches_simple_pattern("a.*b.*c", "xxaYYbZZc"));
    assert!(!matches_simple_pattern("a.*b.*c", "cba"));
    assert!(matches_simple_pattern("^hello", "hello world"));
    assert!(matches_simple_pattern("world$", "hello world"));
    assert!(!matches_simple_pattern("^world", "hello world"));
    assert!(matches_simple_pattern("^exact$", "exact"));
    assert!(!matches_simple_pattern("^exact$", "exactly"));
    assert!(matches_simple_pattern("lo wo", "hello world"));
}

#[test]
fn values_fit_their_fields() {
    assert!(validate_field_value(&field("title", "text"), &text("x")).is_ok());
    assert_eq!(bad_message(validate_field_value(&field("qty", "number"), &text("x"))), "invalid value for field qty: expected number");
    assert!(validate_field_value(&field("done", "checkbox"), &Json::Bool(true)).is_ok());
    assert!(validate_field_value(&field("c", "computed"), &text("x")).is_err());
    let mut sel = field("status", "select");
    sel.options = vec![FieldOption { id: "o1".into(), value: "open".into(), label: "Open".into() }];
    assert!(validate_field_value(&sel, &text("open")).is_ok());
    assert_eq!(bad_message(validate_field_value(&sel, &text("closed"))), "invalid value for field status: expected select");
}

#[test]
fn values_are_held_to_bounds_lengths_and_patterns() {
    let mut n = field("qty", "number");
    n.min_value = Some(1.0f64.to_bits());
    n.max_value = Some(10.0f64.to_bits());
    assert!(matches!(check_value_rules(&n, &num(0)), Some(RuleViolation::BelowMinimum)));
    assert!(matches!(check_value_rules(&n, &float(10.5)), Some(RuleViolation::AboveMaximum)));
    assert!(check_value_rules(&n, &num(10)).is_none());
    assert!(check_value_rules(&n, &text("0")).is_none());
    let mut t = field("code", "text");
    t.min_length = Some(2);
    t.max_length = Some(4);
    t.pattern = Some(" ^[0-9]+$ ".into());
    assert!(matches!(check_value_rules(&t, &text("é")), Some(RuleViolation::TooShort(1))));
    assert!(matches!(check_value_rules(&t, &text("12345")), Some(RuleViolation::TooLong(5))));
    assert!(matches!(check_value_rules(&t, &text("12a")), Some(RuleViolation::PatternMismatch)));
    assert!(check_value_rules(&t, &text("123")).is_none());
    assert_eq!(rule_error(&t, &RuleViolation::TooShort(1)).message(), "value too short for field code: 1 < 2");
    assert_eq!(rule_error(&t, &RuleViolation::TooLong(5)).message(), "value too long for field code: 5 > 4");
    assert_eq!(rule_error(&t, &RuleViolation::PatternMismatch).message(), "value does not match pattern for field code");
}

fn member<'a>(v: &'a Json, k: &str) -> Option<&'a Json> {
    match v {
        Json::Object(e) => e.iter().find(|(key, _)| key == k).map(|(_, v)| v),
        _ => None,
    }
}

#[test]
fn payloads_merge_and_redact() {
    let stored = obj(vec![("a", num(1)), ("b", num(2))]);
    let incoming = obj(vec![("b", num(3)), ("c", num(4))]);
    let merged = merge_editable_payload(&stored, &incoming);
    assert_eq!(member(&merged, "a"), Some(&num(1)));
    assert_eq!(member(&merged, "b"), Some(&num(3)));
    assert_eq!(member(&merged, "c"), Some(&num(4)));
    assert_eq!(merge_editable_payload(&num(1), &incoming), incoming);
    let red = redact_payload(&merged, &vec!["a".to_string(), "c".to_string()]);
    assert_eq!(red, obj(vec![("a", num(1)), ("c", num(4))]));
    assert_eq!(redact_payload(&text("x"), &vec![]), text("x"));
    let _ = Failure::Other(String::new());
}

#[test]
fn one_or_more_wildcards() {
    assert!(matches_simple_pattern("^INV-.+", "INV-001"));
    assert!(!matches_simple_pattern("^INV-.+", "INV-"));
    assert!(!matches_simple_pattern("^INV-.+", "XINV-001"));
    assert!(matches_simple_pattern("^INV-.+$", "INV-9"));
    assert!(matches_simple_pattern("^a.+b$", "axb"));
    assert!(!matches_simple_pattern("^a.+b$", "ab"));
    assert!(matches_simple_pattern("^.+@x$", "me@x"));
    assert!(!matches_simple_pattern("^.+@x$", "@x"));
    assert!(matches_simple_pattern("id-.+-end", "the id-7-end here"));
    assert!(!matches_simple_pattern("id-.+-end", "id--end"));
    assert!(matches_simple_pattern("a.*b.+c", "abxc"));
    assert!(!matches_simple_pattern("a.*b.+c", "abc"));
}
