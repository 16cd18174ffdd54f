use logholizon_core::access::{
    check_entity_access, check_entity_permission_rows, check_field_access, check_field_permission_rows,
    check_known_keys, check_payload_field, update_payload,
    field_access_map, hide_fields, lookup_access, restore_readonly_fields, viewable_field_names,
    FieldAccess,
};
use logholizon_core::error::AppError;
use logholizon_core::json::{Json, JsonNumber};
use logholizon_core::repository::Field;

fn field(name: &str, ty: &str) -> Field {
    Field {
        id: format!("e_{name}"),
        name: name.to_string(),
        field_type: ty.to_string(),
        required: false,
        is_status: false,
        position: 0,
        ref_entity: None,
        computed_expr: None,
        is_unique: false,
        min_value: None,
        max_value: None,
        pattern: None,
        min_length: None,
        max_length: None,
        default_value: None,
        auto_number_prefix: None,
        auto_number_width: None,
        options: vec![],
    }
}

fn access(name: &str, can_view: bool, can_edit: bool) -> FieldAccess {
    FieldAccess { name: name.to_string(), can_view, can_edit }
}

fn obj(members: Vec<(&str, Json)>) -> Json {
    Json::Object(members.into_iter().map(|(k, v)| (k.to_string(), v)).collect())
}

fn text(s: &str) -> Json {
    Json::String(s.to_string())
}

fn bad_request(r: Result<(), AppError>) -> String {
    match r {
        Err(AppError::BadRequest(m)) => m,
        other => panic!("expected a bad request, got {other:?}"),
    }
}

fn forbidden(r: Result<(), AppError>) -> String {
    match r {
        Err(AppError::Forbidden(m)) => m,
        other => panic!("expected a refusal, got {other:?}"),
    }
}

#[test]
fn missing_access_rows_default_to_allow() {
    let map = field_access_map(
        &vec!["a".into(), "b".into()],
        &vec![("a".into(), Some(0), None), ("b".into(), None, Some(0))],
        "user",
    );
    assert_eq!(lookup_access(&map, "a"), (false, true));
    assert_eq!(lookup_access(&map, "b"), (true, false));
    assert_eq!(lookup_access(&map, "c"), (true, true));
    let admin = field_access_map(&vec!["a".into()], &vec![("a".into(), Some(0), Some(0))], "admin");
    assert_eq!(lookup_access(&admin, "a"), (true, true));
}

#[test]
fn the_last_row_for_a_field_wins() {
    let map = vec![access("a", true, true), access("a", false, false)];
    assert_eq!(lookup_access(&map, "a"), (false, false));
}

#[test]
fn entity_access_follows_stored_flags() {
    assert!(check_entity_access("crm_lead", None, true).is_ok());
    assert!(check_entity_access("crm_lead", Some((1, 0)), false).is_ok());
    assert_eq!(forbidden(check_entity_access("crm_lead", Some((1, 0)), true)), "no edit access to entity: crm_lead");
    assert_eq!(forbidden(check_entity_access("crm_lead", Some((0, 1)), false)), "no view access to entity: crm_lead");
}

#[test]
fn field_access_follows_the_map_except_for_admin() {
    let map = vec![access("salary", false, false), access("notes", true, false)];
    assert_eq!(forbidden(check_field_access(&map, "salary", "user", false)), "no view access to field: salary");
    assert_eq!(forbidden(check_field_access(&map, "notes", "user", true)), "no edit access to field: notes");
    assert!(check_field_access(&map, "notes", "user", false).is_ok());
    assert!(check_field_access(&map, "salary", "admin", true).is_ok());
    assert!(check_field_access(&map, "other", "user", true).is_ok());
}

#[test]
fn viewable_names_leave_out_hidden_fields() {
    let names: Vec<String> = vec!["salary".into(), "notes".into()];
    let map = vec![access("salary", false, false), access("notes", true, false)];
    assert_eq!(viewable_field_names(&names, &map, "user"), vec!["notes".to_string()]);
    assert_eq!(viewable_field_names(&names, &map, "admin"), names);
}

#[test]
fn hidden_members_are_dropped_from_incoming_payloads() {
    let map = vec![access("salary", false, false)];
    let payload = obj(vec![("name", text("Ada")), ("salary", Json::Number(JsonNumber::PosInt(9)))]);
    assert_eq!(hide_fields(&payload, &map, "user").unwrap(), obj(vec![("name", text("Ada"))]));
    assert_eq!(hide_fields(&payload, &map, "admin").unwrap(), payload);
    match hide_fields(&text("x"), &map, "user") {
        Err(AppError::BadRequest(m)) => assert_eq!(m, "payload must be a JSON object"),
        other => panic!("{other:?}"),
    }
}

#[test]
fn readonly_fields_keep_their_stored_values() {
    let map = vec![access("status", true, false)];
    let stored = obj(vec![("status", text("open")), ("name", text("Ada"))]);
    let merged = obj(vec![("status", text("closed")), ("name", text("Grace"))]);
    assert_eq!(
        restore_readonly_fields(&stored, &merged, &map, "user"),
        obj(vec![("status", text("open")), ("name", text("Grace"))])
    );
    assert_eq!(restore_readonly_fields(&stored, &merged, &map, "admin"), merged);
    assert_eq!(restore_readonly_fields(&Json::Null, &merged, &map, "user"), merged);
    // A read-only member missing from the merged payload comes back.
    let partial = obj(vec![("name", text("Grace"))]);
    assert_eq!(
        restore_readonly_fields(&stored, &partial, &map, "user"),
        obj(vec![("name", text("Grace")), ("status", text("open"))])
    );
}

#[test]
fn payload_fields_are_checked_one_by_one() {
    let mut total = field("total", "computed");
    total.computed_expr = Some("a".into());
    let entries = vec![("total".to_string(), Json::Number(JsonNumber::PosInt(1)))];
    assert_eq!(bad_request(check_payload_field(&total, &entries)), "computed field is read-only: total");
    assert!(check_payload_field(&total, &vec![]).is_ok());
    let mut name = field("name", "text");
    name.required = true;
    assert_eq!(bad_request(check_payload_field(&name, &vec![])), "missing required field: name");
    let wrong = vec![("name".to_string(), Json::Bool(true))];
    assert_eq!(bad_request(check_payload_field(&name, &wrong)), "invalid value for field name: expected text");
    let right = vec![("name".to_string(), text("Ada"))];
    assert!(check_payload_field(&name, &right).is_ok());
}

#[test]
fn unknown_payload_members_are_refused() {
    let visible = vec![field("name", "text"), field("age", "number")];
    let entries = vec![("name".to_string(), text("Ada")), ("secret".to_string(), Json::Null), ("x".to_string(), Json::Null)];
    assert_eq!(bad_request(check_known_keys(&entries, &visible)), "unknown field: secret");
    assert!(check_known_keys(&vec![("name".to_string(), text("Ada"))], &visible).is_ok());
}

#[test]
fn permission_rows_name_known_roles_and_fields_of_the_entity() {
    let rows = vec![("admin".to_string(), true, true), ("user".to_string(), true, false)];
    assert!(check_entity_permission_rows(&rows).is_ok());
    assert!(check_entity_permission_rows(&vec![]).is_ok());
    let rows = vec![("user".to_string(), true, false), ("guest".to_string(), true, true), ("x".to_string(), false, false)];
    assert_eq!(bad_request(check_entity_permission_rows(&rows)), "invalid role: guest");

    let s = |x: &str| x.to_string();
    let rows = vec![(s("f1"), s("user"), true, false), (s("f2"), s("admin"), false, false)];
    let owners = vec![Some(s("e1")), Some(s("e1"))];
    assert!(check_field_permission_rows("e1", &rows, &owners).is_ok());
    let owners = vec![Some(s("e1")), Some(s("e2"))];
    assert_eq!(bad_request(check_field_permission_rows("e1", &rows, &owners)), "field not found in entity: f2");
    let owners = vec![None, Some(s("e1"))];
    assert_eq!(bad_request(check_field_permission_rows("e1", &rows, &owners)), "field not found in entity: f1");
    let rows = vec![(s("f1"), s("root"), true, false), (s("f2"), s("admin"), false, false)];
    assert_eq!(bad_request(check_field_permission_rows("e1", &rows, &vec![None, None])), "invalid role: root");
}

#[test]
fn an_update_keeps_what_the_role_may_not_see_or_edit() {
    let stored = obj(vec![("title", text("A")), ("secret", text("s")), ("locked", text("L"))]);
    let incoming = obj(vec![
        ("title", text("B")),
        ("secret", text("x")),
        ("locked", text("M")),
        ("extra", Json::Number(JsonNumber::PosInt(1))),
    ]);
    let map = vec![access("secret", false, false), access("locked", true, false)];
    let user = update_payload(&stored, &incoming, &map, "user").unwrap();
    assert_eq!(user.get("title"), Some(&text("B")));
    assert_eq!(user.get("secret"), Some(&text("s")));
    assert_eq!(user.get("locked"), Some(&text("L")));
    assert_eq!(user.get("extra"), Some(&Json::Number(JsonNumber::PosInt(1))));
    let admin = update_payload(&stored, &incoming, &map, "admin").unwrap();
    assert_eq!(admin.get("secret"), Some(&text("x")));
    assert_eq!(admin.get("locked"), Some(&text("M")));
    match update_payload(&stored, &Json::Null, &map, "user") {
        Err(AppError::BadRequest(m)) => assert_eq!(m, "payload must be a JSON object"),
        _ => panic!("expected a refusal"),
    }
    let fresh = update_payload(&Json::Null, &incoming, &map, "user").unwrap();
    assert_eq!(fresh.get("secret"), None);
    assert_eq!(fresh.get("locked"), Some(&text("M")));
}
