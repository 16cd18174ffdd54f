use logholizon_core::error::AppError;
use logholizon_core::json::{Json, JsonNumber};
use logholizon_core::repository::{Field, WorkflowTransition};
use logholizon_core::workflow::plan_transition;
use logholizon_core::actions::business_action_payload;
use logholizon_core::listing::entity_options;
use logholizon_core::summaries::{aggregate_plan, status_count_plan, summary_plan};

fn field(name: &str, ty: &str, is_status: bool) -> Field {
    Field {
        id: format!("e_{name}"),
        name: name.to_string(),
        field_type: ty.to_string(),
        required: false,
        is_status,
        position: 0,
        ref_entity: None,
        computed_expr: None,
        is_unique: false,
        min_value: None,
        max_value: None,
        pattern: None,
        min_length: None,
        max_length: None,
        default_value: None,
        auto_number_prefix: None,
        auto_number_width: None,
        options: vec![],
    }
}

fn transition(action: &str, from: &str, to: &str) -> WorkflowTransition {
    WorkflowTransition {
        id: format!("t_{action}_{from}"),
        action: action.to_string(),
        from_state: from.to_string(),
        to_state: to.to_string(),
    }
}

fn obj(members: Vec<(&str, Json)>) -> Json {
    Json::Object(members.into_iter().map(|(k, v)| (k.to_string(), v)).collect())
}

fn text(s: &str) -> Json {
    Json::String(s.to_string())
}

fn refusal(r: Result<logholizon_core::workflow::TransitionPlan, AppError>) -> String {
    match r {
        Err(AppError::BadRequest(m)) => m,
        Err(other) => panic!("unexpected error {:?}", other),
        Ok(_) => panic!("expected a refusal"),
    }
}

fn fields() -> Vec<Field> {
    vec![field("title", "text", false), field("status", "status", true), field("label", "computed", false)]
}

fn transitions() -> Vec<WorkflowTransition> {
    vec![
        transition("start", "todo", "doing"),
        transition("finish", "doing", "done"),
        transition("start", "todo", "elsewhere"),
    ]
}

#[test]
fn a_transition_sets_the_target_status_and_drops_computed_members() {
    let payload = obj(vec![
        ("title", text("Fix")),
        ("status", text("todo")),
        ("label", text("Fix (todo)")),
        ("points", Json::Number(JsonNumber::PosInt(3))),
    ]);
    let plan = plan_transition(&fields(), &payload, &transitions(), "start").unwrap();
    assert_eq!(plan.status_field, "status");
    assert_eq!(plan.current, "todo");
    assert_eq!(plan.target, "doing");
    assert_eq!(plan.payload.get("status"), Some(&text("doing")));
    assert_eq!(plan.payload.get("title"), Some(&text("Fix")));
    assert_eq!(plan.payload.get("points"), Some(&Json::Number(JsonNumber::PosInt(3))));
    assert_eq!(plan.payload.get("label"), None);
}

#[test]
fn transitions_are_refused_with_the_reason() {
    let no_status = vec![field("title", "text", false)];
    let payload = obj(vec![("status", text("todo"))]);
    assert_eq!(refusal(plan_transition(&no_status, &payload, &transitions(), "start")), "entity has no status field");
    let unset = obj(vec![("title", text("x"))]);
    assert_eq!(refusal(plan_transition(&fields(), &unset, &transitions(), "start")), "document has no status");
    let numeric = obj(vec![("status", Json::Number(JsonNumber::PosInt(1)))]);
    assert_eq!(refusal(plan_transition(&fields(), &numeric, &transitions(), "start")), "document has no status");
    assert_eq!(refusal(plan_transition(&fields(), &Json::Null, &transitions(), "start")), "document has no status");
    assert_eq!(
        refusal(plan_transition(&fields(), &payload, &transitions(), "finish")),
        "invalid transition: todo cannot finish"
    );
}

#[test]
fn picker_options_are_labelled_searched_and_limited() {
    let fields = vec![field("n", "number", false), field("title", "text", false)];
    let docs = vec![
        ("d1".to_string(), Some(obj(vec![("title", text("Alpha"))]))),
        ("d2".to_string(), Some(obj(vec![("title", text("  "))]))),
        ("d3".to_string(), None),
        ("D4".to_string(), Some(obj(vec![("title", text("BETA"))]))),
    ];
    let pairs = |v: Vec<logholizon_core::repository::EntityOption>| -> Vec<(String, String)> {
        v.into_iter().map(|o| (o.id, o.label)).collect()
    };
    let p = |a: &str, b: &str| (a.to_string(), b.to_string());
    assert_eq!(pairs(entity_options(&docs, &fields, Some(" a "), 20)), vec![p("d1", "Alpha"), p("D4", "BETA")]);
    assert_eq!(pairs(entity_options(&docs, &fields, Some("A"), 1)), vec![p("d1", "Alpha")]);
    assert_eq!(pairs(entity_options(&docs, &fields, Some("d"), 0)), vec![p("d1", "Alpha")]);
    assert_eq!(
        pairs(entity_options(&docs, &fields, Some("   "), 500)),
        vec![p("d1", "Alpha"), p("d2", "d2"), p("d3", "d3"), p("D4", "BETA")]
    );
    assert_eq!(pairs(entity_options(&docs, &fields, None, 2)), vec![p("d1", "Alpha"), p("d2", "d2")]);
    let no_text = vec![field("n", "number", false)];
    assert_eq!(pairs(entity_options(&docs, &no_text, Some("d4"), 5)), vec![p("D4", "D4")]);
}

#[test]
fn counting_queries_follow_the_entity_fields() {
    let (name, sql) = status_count_plan(&fields()).unwrap();
    assert_eq!(name, "status");
    assert_eq!(
        sql,
        "SELECT json_extract(payload, '$.status'), COUNT(*) FROM _doc WHERE entity_id = ? GROUP BY json_extract(payload, '$.status') ORDER BY 1"
    );
    assert!(status_count_plan(&vec![field("title", "text", false)]).is_none());

    let mut fs = fields();
    fs.push(field("kind", "select", false));
    let (name, sql) = aggregate_plan(&fs, "kind").unwrap();
    assert_eq!(name, "kind");
    assert!(sql.starts_with("SELECT json_extract(payload, '$.kind'), COUNT(*)"));
    match aggregate_plan(&fs, "title") {
        Err(AppError::BadRequest(m)) => assert_eq!(m, "group-by field must be a select field: title"),
        _ => panic!("expected a refusal"),
    }
    match aggregate_plan(&fs, "nope") {
        Err(AppError::BadRequest(m)) => assert_eq!(m, "unknown field: nope"),
        _ => panic!("expected a refusal"),
    }

    let q = summary_plan(&fs).unwrap();
    assert_eq!(q.status_field, "status");
    assert_eq!(q.open_sql, "SELECT COUNT(*) FROM _doc WHERE entity_id = ? AND json_extract(payload, '$.status') != 'done'");
    assert!(q.overdue_sql.is_none());
    assert_eq!(
        q.done_sql,
        "SELECT COUNT(*) FROM _doc WHERE entity_id = ? AND json_extract(payload, '$.status') = 'done' AND updated_at >= datetime('now', '-6 days', 'start of day')"
    );
    fs.push(field("due_date", "date", false));
    let q = summary_plan(&fs).unwrap();
    assert_eq!(
        q.overdue_sql.unwrap(),
        "SELECT COUNT(*) FROM _doc WHERE entity_id = ? AND json_extract(payload, '$.status') != 'done' AND json_extract(payload, '$.due_date') IS NOT NULL AND json_extract(payload, '$.due_date') < date('now')"
    );
    assert!(summary_plan(&vec![field("due_date", "date", false)]).is_none());
}

#[test]
fn business_actions_stay_within_their_entity() {
    let stored = obj(vec![("title", text("A")), ("label", text("x"))]);
    let extra = obj(vec![("title", text("B"))]);
    match business_action_payload("e2", "e1", &stored, Some(&extra), &vec!["label".to_string()]) {
        Err(AppError::BadRequest(m)) => assert_eq!(m, "document belongs to another entity"),
        _ => panic!("expected a refusal"),
    }
    let next = business_action_payload("e1", "e1", &stored, Some(&extra), &vec!["label".to_string()]).unwrap();
    assert_eq!(next.get("title"), Some(&text("B")));
    assert_eq!(next.get("label"), None);
}
