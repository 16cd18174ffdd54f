use logholizon_core::json::{Json, JsonNumber};
use logholizon_core::report_rows::report_rows;

fn obj(members: Vec<(&str, Json)>) -> Json {
    Json::Object(members.into_iter().map(|(k, v)| (k.to_string(), v)).collect())
}

fn text(s: &str) -> Json {
    Json::String(s.to_string())
}

#[test]
fn report_rows_carry_ids_and_linked_payloads() {
    let docs = vec![
        ("a".to_string(), obj(vec![("title", text("A"))])),
        ("b".to_string(), obj(vec![("_id", text("old"))])),
        ("c".to_string(), Json::Number(JsonNumber::PosInt(7))),
    ];
    let plain = report_rows(&docs, None);
    assert_eq!(plain.len(), 3);
    assert_eq!(plain[0].get("_id"), Some(&text("a")));
    assert_eq!(plain[0].get("title"), Some(&text("A")));
    assert_eq!(plain[0].get("_relation"), None);
    assert_eq!(plain[1].get("_id"), Some(&text("b")));
    assert_eq!(plain[2], Json::Number(JsonNumber::PosInt(7)));

    let links = vec![
        ("a".to_string(), "t1".to_string()),
        ("a".to_string(), "missing".to_string()),
        ("b".to_string(), "t2".to_string()),
        ("a".to_string(), "t2".to_string()),
    ];
    let targets = vec![("t1".to_string(), obj(vec![("n", text("one"))])), ("t2".to_string(), obj(vec![("n", text("two"))]))];
    let rows = report_rows(&docs, Some((&links, &targets)));
    assert_eq!(
        rows[0].get("_relation"),
        Some(&Json::Array(vec![obj(vec![("n", text("one"))]), obj(vec![("n", text("two"))])]))
    );
    assert_eq!(rows[1].get("_relation"), Some(&Json::Array(vec![obj(vec![("n", text("two"))])])));
    assert_eq!(rows[2], Json::Number(JsonNumber::PosInt(7)));
}
