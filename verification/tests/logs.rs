use logholizon_core::observability::{log_query, ObservabilityFilter};

#[test]
fn log_listing_conditions_follow_the_filter() {
    let none = ObservabilityFilter::default();
    let (sql, params, limit, offset) = log_query(&none, 50, 10);
    assert_eq!(sql, "1=1");
    assert!(params.is_empty());
    assert_eq!((limit, offset), (50, 10));

    let filter = ObservabilityFilter {
        category: Some("http".to_string()),
        level: None,
        actor: Some("u1".to_string()),
        request_id: None,
        correlation_id: Some("c9".to_string()),
    };
    let (sql, params, _, _) = log_query(&filter, 1, 0);
    assert_eq!(sql, "1=1 AND category = ? AND actor = ? AND correlation_id = ?");
    assert_eq!(params, vec!["http", "u1", "c9"]);
}

#[test]
fn log_pages_are_clamped() {
    let f = ObservabilityFilter::default();
    assert_eq!((log_query(&f, 0, -5).2, log_query(&f, 0, -5).3), (1, 0));
    assert_eq!(log_query(&f, 1000, 3).2, 200);
    assert_eq!(log_query(&f, 200, 3).2, 200);
    assert_eq!(log_query(&f, -7, 0).2, 1);
}
