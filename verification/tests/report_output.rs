use logholizon_core::error::Failure;
use logholizon_core::json::Json;
use logholizon_core::report::{
    CalculatedColumn, DateRange, ReportAggregate, ReportConfig, ReportFilter,
};
use logholizon_core::report_output::{
    apply_text_filter, check_filter_operators, group_rows, is_filter_op, report_columns, row_in_date_range,
};

fn config() -> ReportConfig {
    ReportConfig {
        fields: vec![],
        filters: vec![],
        group_by: vec![],
        sort: vec![],
        aggregates: vec![],
        calculated: vec![],
        date_range: None,
        date_field: None,
        relation_id: None,
    }
}

fn row(date: &str) -> Json {
    Json::Object(vec![("day".to_string(), Json::String(date.to_string()))])
}

#[test]
fn every_documented_filter_operator_is_accepted() {
    for op in [
        "eq", "=", "neq", "!=", "contains", "starts_with", "ends_with", "gt", ">", "gte", ">=",
        "lt", "<", "lte", "<=", "in", "is_null", "not_null",
    ] {
        assert!(is_filter_op(op), "{op}");
    }
    assert!(!is_filter_op("like"));
    assert!(!is_filter_op("EQ"));
    assert!(!is_filter_op(""));
}

#[test]
fn unknown_filter_operator_is_refused() {
    let mut c = config();
    c.filters.push(ReportFilter { field: "a".into(), op: "gte".into(), value: Json::Null });
    assert!(check_filter_operators(&c).is_ok());
    c.filters.push(ReportFilter { field: "a".into(), op: "between".into(), value: Json::Null });
    match check_filter_operators(&c) {
        Err(Failure::Other(m)) => assert_eq!(m, "unsupported report filter operator"),
        _ => panic!("expected a refusal"),
    }
}

#[test]
fn date_range_bounds_are_inclusive() {
    let mut c = config();
    c.date_field = Some("day".into());
    c.date_range = Some(DateRange { from: Some("2024-01-01".into()), to: Some("2024-01-31".into()) });
    assert!(row_in_date_range(&row("2024-01-01"), &c));
    assert!(row_in_date_range(&row("2024-01-31"), &c));
    assert!(row_in_date_range(&row("2024-01-15"), &c));
    assert!(!row_in_date_range(&row("2023-12-31"), &c));
    assert!(!row_in_date_range(&row("2024-02-01"), &c));
    // A longer text with the same prefix sorts after the bound.
    assert!(!row_in_date_range(&row("2024-01-31T10:00"), &c));
    // A row without the field holds the empty text, before any lower bound.
    assert!(!row_in_date_range(&Json::Object(vec![]), &c));
}

#[test]
fn date_range_needs_both_range_and_field() {
    let mut c = config();
    c.date_range = Some(DateRange { from: Some("2024".into()), to: None });
    assert!(row_in_date_range(&row("1999"), &c));
    c.date_field = Some("day".into());
    assert!(!row_in_date_range(&row("1999"), &c));
    assert!(row_in_date_range(&row("2025"), &c));
}

#[test]
fn rows_group_by_first_appearance() {
    let keys: Vec<String> = ["b", "a", "b", "c", "a"].iter().map(|s| s.to_string()).collect();
    let (firsts, group_of) = group_rows(&keys);
    assert_eq!(firsts, vec![0, 1, 3]);
    assert_eq!(group_of, vec![0, 1, 0, 2, 1]);
    let (firsts, group_of) = group_rows(&vec![]);
    assert!(firsts.is_empty() && group_of.is_empty());
}

#[test]
fn columns_are_sorted_and_unique() {
    let mut c = config();
    c.fields = vec!["name".into(), "amount".into()];
    c.group_by = vec!["name".into()];
    c.aggregates = vec![
        ReportAggregate { field: "amount".into(), op: "sum".into(), alias: None },
        ReportAggregate { field: "amount".into(), op: "avg".into(), alias: Some("mean".into()) },
    ];
    c.calculated = vec![CalculatedColumn { name: "Total".into(), expression: "amount".into() }];
    assert_eq!(report_columns(&c), vec!["Total", "amount", "mean", "name", "sum_amount"]);
    assert!(report_columns(&config()).is_empty());
}

#[test]
fn text_filters_are_decided_without_numbers() {
    let row = Json::Object(vec![
        ("name".to_string(), Json::String("Widget pro".to_string())),
        ("n".to_string(), Json::Null),
    ]);
    let f = |field: &str, op: &str, v: Json| ReportFilter { field: field.to_string(), op: op.to_string(), value: v };
    let s = |x: &str| Json::String(x.to_string());
    assert_eq!(apply_text_filter(&row, &f("name", "contains", s("get p"))), Some(true));
    assert_eq!(apply_text_filter(&row, &f("name", "contains", s("x"))), Some(false));
    assert_eq!(apply_text_filter(&row, &f("name", "starts_with", s("Wid"))), Some(true));
    assert_eq!(apply_text_filter(&row, &f("name", "ends_with", s("pro"))), Some(true));
    assert_eq!(apply_text_filter(&row, &f("name", "ends_with", Json::Null)), Some(true));
    assert_eq!(apply_text_filter(&row, &f("n", "is_null", Json::Null)), Some(true));
    assert_eq!(apply_text_filter(&row, &f("missing", "is_null", Json::Null)), Some(true));
    assert_eq!(apply_text_filter(&row, &f("name", "not_null", Json::Null)), Some(true));
    assert_eq!(apply_text_filter(&row, &f("name", "eq", s("Widget pro"))), None);
    assert_eq!(apply_text_filter(&row, &f("name", "like", s("W"))), Some(false));
}
