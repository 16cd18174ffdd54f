use logholizon_core::delivery::{automation_plan, event_trigger, AutomationPlan};
use logholizon_core::csv::{export_csv, parse_csv};
use logholizon_core::error::{AppError, Failure};
use logholizon_core::field_checks::{check_field_definition, check_reference_field, check_status_field, reference_target};
use logholizon_core::field_rules::FieldRules;
use logholizon_core::json::Json;
use logholizon_core::auth::{chrono_date_from_unix_days, excel_day_to_date};
use logholizon_core::import::{check_import_header, check_import_rows, check_sheet_header, check_sheet_rows};
use logholizon_core::lifecycle::{check_deletable, check_removed_fields, edit_draft, lifecycle_step, publish_targets, LifecycleStep};
use logholizon_core::repository::Module;
use logholizon_core::listing::{audit_query, list_query};
use logholizon_core::repository::GlobalAuditFilter;
use logholizon_core::repository::ListDocumentsFilter;
use logholizon_core::notification::validate_notification_rule;
use logholizon_core::payload::{apply_field_defaults, auto_number_text, field_default_payload, fields_to_number, FieldDefault};
use logholizon_core::settings::{normalize_url, pool_size, vacuum_into_sql};
use logholizon_core::workbook::{sheet_plan, xlsx_sheet_name, CellValue};
use logholizon_core::repository::Field;
use logholizon_core::module_package::{ModulePackageModule, PackageAction, PackageAutomation, PackageDashboard, PackageRelation};
use logholizon_core::sections::plan_sections;
use logholizon_core::relation::{referenced_id, referring_ids, related_lookup, with_id, Relation, RelatedLookup};

fn field(name: &str, ty: &str) -> Field {
    Field {
        id: format!("e_{name}"),
        name: name.to_string(),
        field_type: ty.to_string(),
        required: false,
        is_status: false,
        position: 0,
        ref_entity: None,
        computed_expr: None,
        is_unique: false,
        min_value: None,
        max_value: None,
        pattern: None,
        min_length: None,
        max_length: None,
        default_value: None,
        auto_number_prefix: None,
        auto_number_width: None,
        options: vec![],
    }
}

fn obj(members: Vec<(&str, Json)>) -> Json {
    Json::Object(members.into_iter().map(|(k, v)| (k.to_string(), v)).collect())
}

fn text(s: &str) -> Json {
    Json::String(s.to_string())
}

#[test]
fn notification_rules_need_a_transition_trigger_and_a_web_url() {
    assert!(validate_notification_rule("transition", " https://hooks.example.com/x ").is_ok());
    assert!(validate_notification_rule("transition", "http://localhost/x").is_ok());
    match validate_notification_rule("create", "https://x") {
        Err(AppError::BadRequest(m)) => assert_eq!(m, "unknown trigger: create"),
        other => panic!("{other:?}"),
    }
    match validate_notification_rule("transition", "ftp://x") {
        Err(AppError::BadRequest(m)) => assert_eq!(m, "target_url must start with http:// or https://"),
        other => panic!("{other:?}"),
    }
}

#[test]
fn auto_numbers_use_prefix_and_width() {
    assert_eq!(auto_number_text(Some("INV-"), 7, Some(4)), "INV-0007");
    assert_eq!(auto_number_text(Some("INV-"), 12345, Some(4)), "INV-12345");
    assert_eq!(auto_number_text(None, 42, None), "42");
    assert_eq!(auto_number_text(Some("A"), 3, Some(0)), "A3");
    assert_eq!(auto_number_text(None, -5, Some(4)), format!("{:0>4}", -5));
}

#[test]
fn only_missing_numbered_text_fields_take_numbers() {
    let mut a = field("code", "text");
    a.auto_number_prefix = Some("C-".into());
    let mut b = field("ref", "text");
    b.auto_number_width = Some(3);
    let mut c = field("amount", "number");
    c.auto_number_width = Some(3);
    let d = field("name", "text");
    let fields = vec![a, b, c, d];
    let entries = vec![("ref".to_string(), text("R-1"))];
    assert_eq!(fields_to_number(&fields, &entries), vec![0]);
    assert_eq!(fields_to_number(&fields, &vec![]), vec![0, 1]);
}

#[test]
fn publish_targets_follow_named_entities() {
    let def = obj(vec![(
        "entities",
        Json::Array(vec![
            obj(vec![
                ("name", text(" lead ")),
                ("fields", Json::Array(vec![obj(vec![("name", text("email"))]), obj(vec![("label", text("x"))])])),
            ]),
            obj(vec![("name", text("  "))]),
            obj(vec![("name", text("deal"))]),
        ]),
    )]);
    let t = publish_targets("crm", &def);
    assert_eq!(t.len(), 2);
    assert_eq!(t[0].entity_id, "crm_lead");
    assert_eq!(t[0].declared, vec!["email".to_string()]);
    assert_eq!(t[1].entity_id, "crm_deal");
    assert!(t[1].declared.is_empty());
    assert!(publish_targets("crm", &Json::Null).is_empty());
}

#[test]
fn dropping_a_field_of_an_entity_with_records_is_blocked() {
    let declared = vec!["email".to_string()];
    let stored = vec!["email".to_string(), "phone".to_string(), "fax".to_string()];
    match check_removed_fields("crm_lead", &declared, &stored, true) {
        Err(AppError::Conflict(m)) => assert_eq!(m, "entity crm_lead has records; removing field phone is blocked"),
        other => panic!("{other:?}"),
    }
    assert!(check_removed_fields("crm_lead", &declared, &stored, false).is_ok());
    assert!(check_removed_fields("crm_lead", &stored, &declared, true).is_ok());
}

fn records(rows: &[&[&str]]) -> Vec<Vec<String>> {
    rows.iter().map(|r| r.iter().map(|s| s.to_string()).collect()).collect()
}

#[test]
fn import_header_must_name_the_editable_fields() {
    let names = vec!["name".to_string(), "amount".to_string()];
    let msg = |r: Result<(), AppError>| match r {
        Err(AppError::BadRequest(m)) => m,
        other => panic!("{other:?}"),
    };
    assert_eq!(msg(check_import_header(&vec![], &names)), "CSV is empty");
    assert_eq!(msg(check_import_header(&records(&[&["id", "amount", "name"]]), &names)), "CSV header does not match entity fields");
    assert_eq!(msg(check_import_header(&records(&[&["id", "name"]]), &names)), "CSV header does not match entity fields");
    assert!(check_import_header(&records(&[&["id", "name", "amount"]]), &names).is_ok());
    let mut big = records(&[&["id", "name", "amount"]]);
    for i in 0..1001 {
        big.push(vec![i.to_string(), "x".into(), "1".into()]);
    }
    assert_eq!(msg(check_import_header(&big, &names)), "import exceeds 1000 rows");
    big.pop();
    assert!(check_import_header(&big, &names).is_ok());
}

#[test]
fn import_rows_are_checked_in_file_order() {
    let types = vec!["text".to_string(), "number".to_string()];
    let file = records(&[
        &["id", "name", "amount"],
        &["1", "Ada", "5"],
        &["1", "Bob", "-3"],
        &[" ", "x", "1"],
        &["=cmd", "x", "1"],
        &["2", "=SUM(A1)", "-x"],
        &["3", "x"],
    ]);
    let checks = check_import_rows(&file, &types);
    let got: Vec<(Vec<String>, bool)> = checks.into_iter().map(|c| (c.errors, c.kept)).collect();
    let want: Vec<(Vec<String>, bool)> = vec![
        (vec![], true),
        (vec!["row 3: duplicate id".into()], true),
        (vec!["row 4: id is required".into()], false),
        (vec!["row 5: formula values are not allowed".into()], false),
        (vec!["row 6: formula values are not allowed".into(), "row 6: formula values are not allowed".into()], true),
        (vec!["row 7: wrong column count".into()], false),
    ];
    assert_eq!(got, want);
    assert!(check_import_rows(&vec![], &types).is_empty());
}

#[test]
fn listing_filters_only_on_viewable_fields() {
    let mut status = field("stage", "select");
    status.is_status = true;
    let fields = vec![field("title", "text"), status, field("secret", "text"), field("amount", "number")];
    let viewable: Vec<String> = vec!["title".into(), "stage".into(), "amount".into()];
    let filter = ListDocumentsFilter {
        search: Some("  acme ".into()),
        status: Some("open".into()),
        sort_by: Some("amount".into()),
        sort_dir: Some("Asc".into()),
        view_id: None,
    };
    let q = list_query("crm_lead", &filter, &fields, &viewable);
    assert_eq!(
        q.where_sql,
        "entity_id = ? AND json_extract(payload, '$.stage') = ? AND (id LIKE ? OR json_extract(payload, '$.title') LIKE ?)"
    );
    assert_eq!(q.params, vec!["crm_lead", "open", "%acme%", "%acme%"]);
    assert_eq!(q.sort_col, "json_extract(payload, '$.amount')");
    assert_eq!(q.sort_dir, "ASC");

    let hidden = vec!["title".to_string()];
    let plain = ListDocumentsFilter {
        search: Some(" ".into()),
        status: Some("open".into()),
        sort_by: Some("secret".into()),
        sort_dir: None,
        view_id: None,
    };
    let q = list_query("crm_lead", &plain, &fields, &hidden);
    assert_eq!(q.where_sql, "entity_id = ?");
    assert_eq!(q.params, vec!["crm_lead"]);
    assert_eq!(q.sort_col, "created_at");
    assert_eq!(q.sort_dir, "DESC");
}

#[test]
fn automation_plans_follow_the_action_kind() {
    let chain = vec![
        obj(vec![("action_id", text("approve")), ("payload", obj(vec![("x", Json::Bool(true))]))]),
        text("close"),
        Json::Null,
        text("never"),
    ];
    match automation_plan("actions", "", &chain) {
        Ok(AutomationPlan::Chain { steps, broken }) => {
            assert!(broken);
            assert_eq!(steps.len(), 2);
            assert_eq!(steps[0].0, "approve");
            assert_eq!(steps[0].1, obj(vec![("x", Json::Bool(true))]));
            assert_eq!(steps[1].0, "close");
            assert_eq!(steps[1].1, Json::Object(vec![]));
        }
        _ => panic!("expected a chain"),
    }
    match automation_plan("actions", "", &chain[..2].iter().map(|_| text("a")).collect()) {
        Ok(AutomationPlan::Chain { steps, broken }) => assert!(!broken && steps.len() == 2),
        _ => panic!("expected a chain"),
    }
    assert_eq!(automation_plan("actions", "", &vec![]).err().unwrap(), "automation action chain is empty");
    match automation_plan("webhook", "https://x", &vec![]) {
        Ok(AutomationPlan::Send { action, target_url }) => assert_eq!((action.as_str(), target_url.as_str()), ("webhook", "https://x")),
        _ => panic!("expected a send"),
    }
    assert_eq!(automation_plan("email", "", &vec![]).err().unwrap(), "unsupported automation action: email");
}

#[test]
fn record_events_map_to_triggers() {
    assert_eq!(event_trigger("record.created"), Some("create"));
    assert_eq!(event_trigger("record.updated"), Some("update"));
    assert_eq!(event_trigger("record.deleted"), Some("delete"));
    assert_eq!(event_trigger("record.viewed"), None);
}

fn relation(kind: &str, field: Option<&str>) -> Relation {
    Relation {
        id: "r1".into(),
        source_entity_id: "crm_deal".into(),
        source_field_id: field.map(|f| f.to_string()),
        target_entity_id: "crm_account".into(),
        target_field_id: None,
        name: "account".into(),
        relation_type: kind.into(),
        on_delete: "restrict".into(),
        created_at: "2024-01-01".into(),
    }
}

#[test]
fn related_documents_are_found_by_relation_kind() {
    let many = relation("many_to_many", None);
    assert!(matches!(related_lookup(&many, "d1", true, false), Ok(RelatedLookup::LinksFrom)));
    assert!(matches!(related_lookup(&many, "d1", false, true), Ok(RelatedLookup::LinksTo)));
    let held = relation("many_to_one", Some("f_account"));
    assert!(matches!(related_lookup(&held, "d1", true, true), Ok(RelatedLookup::Referenced)));
    assert!(matches!(related_lookup(&held, "a1", false, true), Ok(RelatedLookup::Referrers)));
    assert!(matches!(related_lookup(&relation("one_to_one", None), "a1", false, true), Ok(RelatedLookup::Nothing)));
    match related_lookup(&held, "zz", false, false) {
        Err(AppError::NotFound(m)) => assert_eq!(m, "document not found for relation: zz"),
        _ => panic!("expected not found"),
    }
}

#[test]
fn referrers_and_references_follow_the_field() {
    let rows = vec![
        ("d1".to_string(), obj(vec![("account", text("a1"))])),
        ("d2".to_string(), obj(vec![("account", text("a2"))])),
        ("d3".to_string(), obj(vec![("account", text("a1"))])),
        ("d4".to_string(), Json::Null),
    ];
    assert_eq!(referring_ids(&rows, "account", "a1"), vec!["d1", "d3"]);
    assert_eq!(referenced_id(&rows[1].1, "account"), Some("a2".to_string()));
    assert_eq!(referenced_id(&rows[3].1, "account"), None);
    assert_eq!(
        with_id(obj(vec![("name", text("A"))]), "a1".into()),
        obj(vec![("name", text("A")), ("id", text("a1"))])
    );
    assert_eq!(with_id(Json::Null, "a1".into()), Json::Null);
}

fn package_relation(name: &str, kind: &str, source_field: Option<&str>) -> PackageRelation {
    PackageRelation {
        source: " deal ".into(),
        target: "account".into(),
        source_field: source_field.map(|s| s.to_string()),
        target_field: Some("  ".into()),
        name: name.into(),
        relation_type: kind.into(),
        on_delete: " cascade ".into(),
    }
}

fn sections_module(relations: Vec<PackageRelation>) -> ModulePackageModule {
    ModulePackageModule {
        name: "sales".into(),
        label: "Sales".into(),
        description: String::new(),
        icon: String::new(),
        color: String::new(),
        definition: Json::Null,
        relations,
        actions: vec![PackageAction {
            entity: "deal".into(),
            name: " approve ".into(),
            label: " Approve ".into(),
            kind: " transition ".into(),
            config: obj(vec![("to", text("won"))]),
        }],
        automations: vec![PackageAutomation {
            entity: "deal".into(),
            trigger: " create ".into(),
            action: "webhook".into(),
            target_url: " https://x ".into(),
            active: true,
            condition: " amount > 1 ".into(),
            schedule: String::new(),
            max_attempts: 3,
        }],
        dashboards: vec![PackageDashboard {
            name: " Pipeline ".into(),
            description: "d".into(),
            layout: Json::Array(vec![
                obj(vec![("type", text("count")), ("entity_id", text(" deal "))]),
                obj(vec![("type", text("note"))]),
            ]),
            filters: Json::Null,
            roles: vec!["sales".into()],
            users: vec![],
        }],
    }
}

#[test]
fn package_sections_are_scoped_to_the_module() {
    let m = sections_module(vec![
        package_relation(" deal_account ", "many_to_one", Some(" account ")),
        package_relation("tags", "many_to_many", None),
    ]);
    let plan = plan_sections("m1", &m);
    assert!(plan.problem.is_none());
    assert_eq!(plan.relations.len(), 2);
    let r = &plan.relations[0];
    assert_eq!((r.source_entity_id.as_str(), r.target_entity_id.as_str()), ("m1_deal", "m1_account"));
    assert_eq!(r.source_field.as_deref(), Some("account"));
    assert_eq!(r.target_field, None);
    assert_eq!((r.name.as_str(), r.relation_type.as_str(), r.on_delete.as_str()), ("deal_account", "many_to_one", "cascade"));
    assert_eq!(plan.relations[1].source_field, None);
    let a = &plan.actions[0];
    assert_eq!((a.entity_id.as_str(), a.name.as_str(), a.label.as_str(), a.kind.as_str()), ("m1_deal", "approve", "Approve", "transition"));
    assert_eq!(a.config, obj(vec![("to", text("won"))]));
    let au = &plan.automations[0];
    assert_eq!((au.entity_id.as_str(), au.trigger.as_str(), au.target_url.as_str(), au.condition.as_str()), ("m1_deal", "create", "https://x", " amount > 1 "));
    let d = &plan.dashboards[0];
    assert_eq!(d.name, "Pipeline");
    assert_eq!(
        d.layout,
        Json::Array(vec![
            obj(vec![("type", text("count")), ("entity_id", text("m1_deal"))]),
            obj(vec![("type", text("note"))]),
        ])
    );
    assert_eq!(d.roles, vec!["sales".to_string()]);
}

#[test]
fn a_relation_without_its_source_field_stops_the_install() {
    let m = sections_module(vec![
        package_relation("first", "many_to_many", None),
        package_relation("second", "one_to_many", Some("  ")),
        package_relation("third", "many_to_many", None),
    ]);
    let plan = plan_sections("m1", &m);
    assert_eq!(plan.relations.len(), 1);
    assert_eq!(plan.problem.as_deref(), Some("package relation second requires source_field for one_to_many"));
}

#[test]
fn export_writes_a_header_and_one_line_per_document() {
    let names = vec!["name".to_string(), "note".to_string(), "n".to_string()];
    let rows = vec![
        ("d1".to_string(), obj(vec![("name", text("Ada")), ("note", text("a,b \"q\"")), ("n", Json::Number(logholizon_core::json::JsonNumber::PosInt(3)))])),
        ("d2".to_string(), obj(vec![("name", Json::Null)])),
    ];
    let csv = export_csv(&names, &rows).unwrap();
    assert_eq!(csv, "id,name,note,n\nd1,Ada,\"a,b \"\"q\"\"\",3\nd2,,,\n");
    let back = parse_csv(&csv).unwrap();
    assert_eq!(back[1], vec!["d1", "Ada", "a,b \"q\"", "3"]);
    match export_csv(&vec![], &rows) {
        Err(AppError::BadRequest(m)) => assert_eq!(m, "entity has no fields"),
        other => panic!("{other:?}"),
    }
    let many: Vec<(String, Json)> = (0..1001).map(|i| (i.to_string(), Json::Null)).collect();
    match export_csv(&names, &many) {
        Err(AppError::BadRequest(m)) => assert_eq!(m, "export exceeds 1000 rows"),
        other => panic!("{other:?}"),
    }
}

fn app_message(r: Result<(), AppError>) -> String {
    match r {
        Err(e) => e.message(),
        Ok(()) => panic!("expected an error"),
    }
}

#[test]
fn an_entity_keeps_one_select_status_field() {
    assert!(check_status_field("crm_lead", "text", false, true).is_ok());
    assert!(matches!(check_status_field("crm_lead", "text", true, false), Err(AppError::BadRequest(_))));
    assert_eq!(app_message(check_status_field("crm_lead", "text", true, false)), "status field must be of type select");
    assert!(matches!(check_status_field("crm_lead", "select", true, true), Err(AppError::Conflict(_))));
    assert_eq!(app_message(check_status_field("crm_lead", "select", true, true)), "entity already has a status field: crm_lead");
    assert!(check_status_field("crm_lead", "select", true, false).is_ok());
}

#[test]
fn reference_fields_point_at_another_existing_entity() {
    assert_eq!(reference_target(Some("  crm_account ")), Some("crm_account".to_string()));
    assert_eq!(reference_target(Some("  ")), None);
    assert_eq!(app_message(check_reference_field("crm_lead", "text", Some("x"), true)), "ref_entity is only valid for reference fields");
    assert!(check_reference_field("crm_lead", "text", Some(" "), false).is_ok());
    assert_eq!(app_message(check_reference_field("crm_lead", "reference", None, true)), "reference fields require a ref_entity");
    assert_eq!(app_message(check_reference_field("crm_lead", "reference", Some(" crm_lead "), true)), "reference field cannot point at its own entity");
    let missing = check_reference_field("crm_lead", "reference", Some("crm_x"), false);
    assert!(matches!(missing, Err(AppError::NotFound(ref m)) if m == "entity not found: crm_x"));
    assert!(check_reference_field("crm_lead", "reference", Some("crm_account"), true).is_ok());
}

#[test]
fn field_definitions_are_checked_in_order() {
    let rules = FieldRules::default();
    let check = |name: &str, ty: &str, status: bool, expr: Option<&str>| {
        check_field_definition("crm_lead", name, ty, status, true, None, true, expr, &rules)
    };
    assert!(matches!(check("", "text", false, None), Err(Failure::Other(m)) if m == "field name is required"));
    assert!(matches!(check("Bad", "nope", false, None), Err(Failure::App(AppError::BadRequest(m))) if m == "field name must be lowercase snake_case (e.g. work_order)"));
    assert!(matches!(check("ok", "nope", false, None), Err(Failure::App(AppError::BadRequest(m))) if m == "invalid field type: nope"));
    assert!(matches!(check("ok", "select", true, None), Err(Failure::App(AppError::Conflict(_)))));
    assert!(matches!(check("ok", "computed", false, None), Err(Failure::App(AppError::BadRequest(m))) if m == "computed fields require a computed_expr"));
    assert!(check("ok", "computed", false, Some("{a} {b}")).is_ok());
    assert!(check("ok", "text", false, None).is_ok());
}

fn draft_module(status: &str) -> Module {
    Module {
        id: "me_sales".into(),
        name: "sales".into(),
        label: "Sales".into(),
        description: "old".into(),
        icon: "i".into(),
        color: "c".into(),
        owner: "me".into(),
        status: status.into(),
        version: 1,
        definition: obj(vec![("entities", Json::Array(vec![]))]),
        created_by: None,
        created_at: String::new(),
        updated_at: String::new(),
    }
}

#[test]
fn modules_move_through_their_lifecycle() {
    let steps = [
        (LifecycleStep::Submit, "draft", "review", "module must be draft: m"),
        (LifecycleStep::Publish, "review", "published", "module must be in review before publishing: m"),
        (LifecycleStep::Enable, "published", "enabled", "module must be published: m"),
        (LifecycleStep::Disable, "enabled", "disabled", "module must be enabled: m"),
        (LifecycleStep::Archive, "disabled", "archived", "module must be published or disabled before archive: m"),
        (LifecycleStep::Restore, "archived", "draft", "only archived modules restore: m"),
    ];
    for (step, from, to, refusal) in steps {
        let step_again = match step {
            LifecycleStep::Submit => LifecycleStep::Submit,
            LifecycleStep::Publish => LifecycleStep::Publish,
            LifecycleStep::Enable => LifecycleStep::Enable,
            LifecycleStep::Disable => LifecycleStep::Disable,
            LifecycleStep::Archive => LifecycleStep::Archive,
            LifecycleStep::Restore => LifecycleStep::Restore,
        };
        assert_eq!(lifecycle_step("m", from, step).unwrap(), to);
        match lifecycle_step("m", "nowhere", step_again) {
            Err(AppError::Conflict(m)) => assert_eq!(m, refusal),
            other => panic!("{other:?}"),
        }
    }
    assert_eq!(lifecycle_step("m", "published", LifecycleStep::Archive).unwrap(), "archived");
    // A draft cannot be published without review.
    assert!(lifecycle_step("m", "draft", LifecycleStep::Publish).is_err());
}

#[test]
fn only_drafts_are_edited() {
    let mut m = draft_module("draft");
    edit_draft(&mut m, Some("  New  "), Some("   "), None, Some("red"), None).unwrap();
    assert_eq!((m.label.as_str(), m.description.as_str(), m.icon.as_str(), m.color.as_str()), ("New", "old", "i", "red"));
    let mut p = draft_module("published");
    match edit_draft(&mut p, Some("x"), None, None, None, None) {
        Err(AppError::Conflict(msg)) => assert_eq!(msg, "module is published: me_sales"),
        other => panic!("{other:?}"),
    }
    assert_eq!(p.label, "Sales");
    let bad = Json::Null;
    let mut d = draft_module("draft");
    assert!(matches!(edit_draft(&mut d, Some("x"), None, None, None, Some(&bad)), Err(AppError::BadRequest(_))));
    assert_eq!(d.label, "Sales");
    assert!(check_deletable(&draft_module("draft")).is_ok());
    match check_deletable(&draft_module("published")) {
        Err(AppError::Conflict(msg)) => assert_eq!(msg, "archive a published module first: me_sales"),
        other => panic!("{other:?}"),
    }
}

#[test]
fn audit_listing_filters_by_entity_action_and_document() {
    let f = GlobalAuditFilter { entity_id: Some("crm_lead".into()), action: Some(" ".into()), search: Some(" d1 ".into()) };
    let (sql, params) = audit_query(&f);
    assert_eq!(sql, "1 = 1 AND a.entity_id = ? AND a.doc_id LIKE ?");
    assert_eq!(params, vec!["crm_lead", "%d1%"]);
    let (sql, params) = audit_query(&GlobalAuditFilter { entity_id: None, action: Some("delete".into()), search: None });
    assert_eq!(sql, "1 = 1 AND a.action = ?");
    assert_eq!(params, vec!["delete"]);
}

#[test]
fn field_defaults_follow_the_field_type() {
    let mut n = field("amount", "currency");
    n.default_value = Some(" 12.5 ".into());
    assert!(matches!(field_default_payload(&n), FieldDefault::Number(t) if t == "12.5"));
    let mut b = field("done", "checkbox");
    b.default_value = Some(" TRUE ".into());
    assert!(matches!(field_default_payload(&b), FieldDefault::Flag(true)));
    b.default_value = Some("False".into());
    assert!(matches!(field_default_payload(&b), FieldDefault::Flag(false)));
    b.default_value = Some("yes".into());
    assert!(matches!(field_default_payload(&b), FieldDefault::Nothing));
    let mut t = field("stage", "select");
    t.default_value = Some(" open ".into());
    assert!(matches!(field_default_payload(&t), FieldDefault::Text(s) if s == "open"));
    t.auto_number_width = Some(3);
    assert!(matches!(field_default_payload(&t), FieldDefault::Nothing));
    let blank = field("x", "text");
    assert!(matches!(field_default_payload(&blank), FieldDefault::Nothing));
}

#[test]
fn defaults_fill_only_missing_members() {
    let payload = obj(vec![("stage", text("won"))]);
    let defaults = vec![("stage".to_string(), text("open")), ("done".to_string(), Json::Bool(false))];
    assert_eq!(
        apply_field_defaults(&payload, &defaults),
        obj(vec![("stage", text("won")), ("done", Json::Bool(false))])
    );
    assert_eq!(apply_field_defaults(&Json::Null, &defaults), Json::Null);
}

#[test]
fn backups_quote_their_path() {
    assert_eq!(vacuum_into_sql("/data/it's.db"), "VACUUM INTO '/data/it''s.db'");
    assert_eq!(vacuum_into_sql("plain.db"), "VACUUM INTO 'plain.db'");
}

#[test]
fn dates_of_unix_seconds_and_excel_days() {
    assert_eq!(chrono_date_from_unix_days(0), "1970-01-01");
    assert_eq!(chrono_date_from_unix_days(86_399), "1970-01-01");
    assert_eq!(chrono_date_from_unix_days(-1), "1969-12-31");
    assert_eq!(chrono_date_from_unix_days(951_782_400), "2000-02-29");
    assert_eq!(excel_day_to_date(45292), "2024-01-01");
    assert_eq!(excel_day_to_date(25569), "1970-01-01");
    assert_eq!(excel_day_to_date(1), "1899-12-31");
}

#[test]
fn workbook_sheets_are_checked_like_csv_files() {
    let names = vec!["name".to_string()];
    let msg = |r: Result<(), AppError>| match r {
        Err(AppError::BadRequest(m)) => m,
        other => panic!("{other:?}"),
    };
    assert_eq!(msg(check_sheet_header("crm_lead", &vec![], &names)), "sheet crm_lead is empty");
    assert_eq!(msg(check_sheet_header("crm_lead", &records(&[&["id", "other"]]), &names)), "sheet crm_lead header does not match entity fields");
    let rows = records(&[&["id", "name"], &["1", "=x"], &["1", "b"], &["", "c"], &["2"]]);
    assert!(check_sheet_header("crm_lead", &rows, &names).is_ok());
    let got: Vec<(Vec<String>, bool)> = check_sheet_rows("crm_lead", &rows, 2).into_iter().map(|c| (c.errors, c.kept)).collect();
    assert_eq!(got, vec![
        (vec![], true),
        (vec!["crm_lead row 3: duplicate id".to_string()], true),
        (vec!["crm_lead row 4: id is required".to_string()], false),
        (vec!["crm_lead row 5: wrong column count".to_string()], false),
    ]);
}

#[test]
fn sheet_names_are_short_and_unique() {
    let mut used: Vec<String> = Vec::new();
    assert_eq!(xlsx_sheet_name("crm_lead", &mut used), "crm_lead");
    assert_eq!(xlsx_sheet_name("crm_lead", &mut used), "crm_lead_2");
    used.push("crm_lead_3".into());
    assert_eq!(xlsx_sheet_name("crm_lead", &mut used), "crm_lead_4");
    let long = "a".repeat(40);
    assert_eq!(xlsx_sheet_name(&long, &mut used), "a".repeat(31));
    assert_eq!(xlsx_sheet_name(&long, &mut used), format!("{}_2", "a".repeat(29)));
    assert_eq!(used.len(), 6);
}

#[test]
fn sheets_hold_a_header_and_the_present_values() {
    let names = vec!["name".to_string(), "n".to_string(), "ok".to_string()];
    let docs = vec![
        ("d1".to_string(), obj(vec![("name", text("Ada")), ("n", Json::Number(logholizon_core::json::JsonNumber::PosInt(3))), ("ok", Json::Bool(true))])),
        ("d2".to_string(), obj(vec![("name", Json::Null), ("n", Json::Number(logholizon_core::json::JsonNumber::NegInt(-2)))])),
    ];
    let plan = sheet_plan("crm_lead", "crm_lead".into(), &names, &docs).unwrap();
    assert_eq!(plan.name, "crm_lead");
    let cells: Vec<(u32, u16, String)> = plan
        .cells
        .iter()
        .map(|c| {
            let v = match &c.value {
                CellValue::Text(t) => format!("t:{t}"),
                CellValue::Number(b) => format!("n:{}", f64::from_bits(*b)),
                CellValue::Flag(f) => format!("b:{f}"),
            };
            (c.row, c.col, v)
        })
        .collect();
    let want: Vec<(u32, u16, String)> = vec![
        (0, 0, "t:id".into()), (0, 1, "t:name".into()), (0, 2, "t:n".into()), (0, 3, "t:ok".into()),
        (1, 0, "t:d1".into()), (1, 1, "t:Ada".into()), (1, 2, "n:3".into()), (1, 3, "b:true".into()),
        (2, 0, "t:d2".into()), (2, 2, "n:-2".into()),
    ];
    assert_eq!(cells, want);
    let many: Vec<(String, Json)> = (0..1001).map(|i| (i.to_string(), Json::Null)).collect();
    match sheet_plan("crm_lead", "x".into(), &names, &many) {
        Err(AppError::BadRequest(m)) => assert_eq!(m, "export exceeds 1000 rows: crm_lead"),
        _ => panic!("expected a refusal"),
    }
}

#[test]
fn rows_and_ids_as_stored() {
    let rule = logholizon_core::repository::notification_rule_row("r".into(), "e".into(), "transition".into(), "https://x".into(), 0, "t".into());
    assert!(!rule.active);
    let rule = logholizon_core::repository::notification_rule_row("r".into(), "e".into(), "transition".into(), "https://x".into(), 5, "t".into());
    assert!(rule.active && rule.target_url == "https://x");
    let a = logholizon_core::repository::attachment_row("a".into(), "e".into(), "d".into(), "f.pdf".into(), "application/pdf".into(), 12, None, "t".into());
    assert_eq!((a.filename.as_str(), a.size), ("f.pdf", 12));
    let id = logholizon_core::repository::audit_id("d1", "update");
    assert!(id.starts_with("d1-update-"));
    assert!(id["d1-update-".len()..].chars().all(|c| c.is_ascii_digit()));
    let mut clock = logholizon_core::repository::NanoClock::new();
    let first = clock.chrono_nanos();
    let second = clock.chrono_nanos();
    assert_eq!(clock.counter, 2);
    assert_eq!(first % 1_000_000, 0);
    assert_eq!(second % 1_000_000, 1);
    assert_ne!(first, second);
    assert_eq!(logholizon_core::requests::default_relation_delete(), "restrict");
    assert!(logholizon_core::requests::default_rule_active());
}

#[test]
fn database_urls_are_normalized_before_connecting() {
    assert_eq!(normalize_url("sqlite://:memory:"), ("sqlite::memory:".to_string(), None));
    assert_eq!(normalize_url("sqlite::memory:"), ("sqlite::memory:".to_string(), None));
    assert_eq!(normalize_url("sqlite://.data/core.db"), ("sqlite://.data/core.db?mode=rwc".to_string(), Some(".data/core.db".to_string())));
    assert_eq!(normalize_url("sqlite:///tmp/x.db?mode=ro"), ("sqlite:///tmp/x.db?mode=ro".to_string(), Some("/tmp/x.db".to_string())));
    assert_eq!(normalize_url("postgres://x"), ("postgres://x".to_string(), None));
    assert_eq!(pool_size("sqlite::memory:"), 1);
    assert_eq!(pool_size("sqlite://a.db?mode=rwc"), 5);
}

#[test]
fn written_records_read_back() {
    use_round_trip(vec![
        vec!["id", "note"],
        vec!["1", "plain"],
        vec!["2", "with, comma"],
        vec!["3", "say \"hi\"\r\nthen go"],
        vec![""],
        vec!["", "x", ""],
    ]);
    assert!(parse_csv("a,\"b").is_err());
}

fn use_round_trip(rows: Vec<Vec<&str>>) {
    let mut text = String::new();
    for r in &rows {
        let cells: Vec<String> = r.iter().map(|c| logholizon_core::csv::csv_cell(c)).collect();
        text.push_str(&cells.join(","));
        text.push('\n');
    }
    let back = parse_csv(&text).ok().unwrap();
    let expected: Vec<Vec<String>> = rows.iter().map(|r| r.iter().map(|c| c.to_string()).collect()).collect();
    assert_eq!(back, expected);
}
