use logholizon_core::actions::{apply_action_payload, plan_module_action, ActionStep};
use logholizon_core::csv::{csv_cell, csv_value, parse_csv};
use logholizon_core::delivery::{after_failure, automation_settings, chain_item, first_chars, DeliveryStatus};
use logholizon_core::error::{AppError, Failure};
use logholizon_core::json::{Json, JsonNumber};
use logholizon_core::materialize::plan_module_materialization;
use logholizon_core::module_package::{
    build_preview, check_package, validate_package_sections, ModulePackage, ModulePackageDependency,
    ModulePackageManifest, ModulePackageModule, PackageAction, PackageAutomation, PackageDashboard,
    PackageRelation,
};
use logholizon_core::records::{
    apply_view_config, module_action_definition, slugify_view_name, valid_activity_date,
    validate_attachment, validate_form_layout_config, validate_report_config,
};
use logholizon_core::repository::{ListDocumentsFilter, Module};

fn obj(members: Vec<(&str, Json)>) -> Json {
    Json::Object(members.into_iter().map(|(k, v)| (k.to_string(), v)).collect())
}
fn text(x: &str) -> Json {
    Json::String(x.to_string())
}
fn num(n: u64) -> Json {
    Json::Number(JsonNumber::PosInt(n))
}
fn arr(items: Vec<Json>) -> Json {
    Json::Array(items)
}
fn other_message(r: Result<(), Failure>) -> String {
    match r {
        Err(Failure::Other(m)) => m,
        Err(Failure::App(e)) => panic!("expected a plain error, got {:?}", e),
        Ok(()) => panic!("expected an error"),
    }
}
fn bad(r: Result<(), AppError>) -> String {
    match r {
        Err(AppError::BadRequest(m)) => m,
        _ => panic!("expected a bad request"),
    }
}

fn definition() -> Json {
    obj(vec![(
        "entities",
        arr(vec![
            obj(vec![("name", text("customer")), ("fields", arr(vec![obj(vec![("name", text("title"))])]))]),
            obj(vec![("name", text("order")), ("fields", arr(vec![]))]),
        ]),
    )])
}

fn package() -> ModulePackage {
    ModulePackage {
        schema_version: 2,
        kind: "logholizon.module".into(),
        manifest: ModulePackageManifest {
            name: "sales".into(),
            version: "1.0.0".into(),
            dependencies: vec![ModulePackageDependency { name: "base".into(), version: "1".into() }],
        },
        module: ModulePackageModule {
            name: "sales".into(),
            label: "Sales".into(),
            description: String::new(),
            icon: String::new(),
            color: String::new(),
            definition: definition(),
            relations: vec![],
            actions: vec![],
            automations: vec![],
            dashboards: vec![],
        },
    }
}

#[test]
fn packages_are_checked() {
    let p = package();
    assert!(check_package(&p).is_ok());
    let mut q = package();
    q.schema_version = 3;
    assert_eq!(other_message(check_package(&q)), "unsupported module package schema version: 3");
    let mut q = package();
    q.kind = "x".into();
    assert_eq!(other_message(check_package(&q)), "unsupported module package kind: x");
    let mut q = package();
    q.module.name = "other".into();
    assert_eq!(other_message(check_package(&q)), "package manifest/module name mismatch");
    let mut q = package();
    q.manifest.version = " ".into();
    assert_eq!(other_message(check_package(&q)), "package version is required");
    let mut q = package();
    q.manifest.dependencies[0].version = String::new();
    assert_eq!(other_message(check_package(&q)), "package dependency name and version are required");
    let mut q = package();
    q.module.definition = obj(vec![]);
    match check_package(&q) {
        Err(Failure::App(AppError::BadRequest(m))) => assert_eq!(m, "definition.entities must be an array"),
        _ => panic!("expected the definition error"),
    }
}

#[test]
fn package_sections_refer_to_declared_entities() {
    let mut p = package();
    p.module.relations = vec![PackageRelation {
        source: "order".into(),
        target: "client".into(),
        source_field: None,
        target_field: None,
        name: "order_client".into(),
        relation_type: "many_to_one".into(),
        on_delete: "restrict".into(),
    }];
    assert_eq!(other_message(validate_package_sections(&p)), "package relation references unknown entity: client");
    p.module.relations[0].target = "customer".into();
    assert!(validate_package_sections(&p).is_ok());
    p.module.relations[0].on_delete = "drop".into();
    assert_eq!(other_message(validate_package_sections(&p)), "invalid package relation on_delete: drop");
    let mut p = package();
    p.module.actions = vec![PackageAction { entity: "order".into(), name: "ship".into(), label: "Ship".into(), kind: "teleport".into(), config: Json::Null }];
    assert_eq!(other_message(validate_package_sections(&p)), "invalid package action kind: teleport");
    let mut p = package();
    p.module.automations = vec![PackageAutomation {
        entity: "order".into(),
        trigger: "create".into(),
        action: "webhook".into(),
        target_url: "http://127.0.0.1/hook".into(),
        active: true,
        condition: String::new(),
        schedule: String::new(),
        max_attempts: 3,
    }];
    match validate_package_sections(&p) {
        Err(Failure::App(AppError::BadRequest(_))) => {}
        _ => panic!("a private target must be refused"),
    }
    p.module.automations[0].target_url = "https://hooks.example.com/x".into();
    assert!(validate_package_sections(&p).is_ok());
    let mut p = package();
    p.module.dashboards = vec![PackageDashboard {
        name: "main".into(),
        description: String::new(),
        layout: arr(vec![obj(vec![("kind", text("pie")), ("entity_id", text("order"))]), obj(vec![("kind", text("gauge")), ("entity_id", text("order"))])]),
        filters: Json::Null,
        roles: vec![],
        users: vec![],
    }];
    assert_eq!(other_message(validate_package_sections(&p)), "invalid package dashboard widget kind: gauge");
}

#[test]
fn previews_say_what_installing_does() {
    let p = package();
    let v = build_preview(&p, &None, &vec![Some("1.2".to_string())], &vec![true, false]);
    assert!(v.valid);
    assert_eq!(v.action, "install");
    assert_eq!(v.migration.updates, vec!["customer".to_string()]);
    assert_eq!(v.migration.creates, vec!["order".to_string()]);
    assert!(v.dependencies[0].satisfied);
    let v = build_preview(&p, &None, &vec![None], &vec![false, false]);
    assert!(!v.valid);
    assert_eq!(v.conflict.as_deref(), Some("missing dependency: base"));
    let v = build_preview(&p, &Some(("me_sales".to_string(), "0.9".to_string())), &vec![None], &vec![false, false]);
    assert_eq!(v.action, "conflict");
    assert_eq!(v.conflict.as_deref(), Some("module already exists: me_sales (0.9)"));
}

fn module(definition: Json) -> Module {
    Module {
        id: "me_sales".into(),
        name: "sales".into(),
        label: "Sales".into(),
        description: String::new(),
        icon: String::new(),
        color: String::new(),
        owner: "me".into(),
        status: "draft".into(),
        version: 1,
        definition,
        created_by: None,
        created_at: String::new(),
        updated_at: String::new(),
    }
}

#[test]
fn publishing_plans_the_rows_of_each_entity() {
    let def = obj(vec![(
        "entities",
        arr(vec![
            obj(vec![("name", text(" ")), ("fields", arr(vec![]))]),
            obj(vec![
                ("name", text("order")),
                ("label", text("Orders")),
                (
                    "fields",
                    arr(vec![
                        obj(vec![("type", text("text"))]),
                        obj(vec![
                            ("name", text("state")),
                            ("type", text("select")),
                            ("is_status", Json::Bool(true)),
                            ("options", arr(vec![obj(vec![("value", text(" open "))]), obj(vec![("value", text(""))])])),
                            ("pattern", text("  ")),
                        ]),
                        obj(vec![("name", text("buyer")), ("type", text("reference")), ("ref_entity", text("customer"))]),
                    ]),
                ),
                ("workflow", obj(vec![
                    ("states", arr(vec![obj(vec![("name", text("open")), ("label", text("Open"))])])),
                    ("transitions", arr(vec![obj(vec![("from_state", text("open")), ("to_state", text("done")), ("action", text("finish"))]), obj(vec![("from_state", text("open"))])])),
                ])),
                ("views", arr(vec![obj(vec![("name", text("My Open Orders!"))])])),
                ("notifications", arr(vec![obj(vec![("target_url", text(" https://x.example/h "))])])),
            ]),
        ]),
    )]);
    let plans = plan_module_materialization(&module(def));
    assert_eq!(plans.len(), 1);
    let p = &plans[0];
    assert_eq!(p.entity.id, "me_sales_order");
    assert_eq!(p.entity.label, "Orders");
    assert_eq!(p.fields.len(), 2);
    assert_eq!(p.fields[0].id, "me_sales_order_state");
    assert_eq!(p.fields[0].position, 1);
    assert!(p.fields[0].is_status);
    assert_eq!(p.fields[0].rules.pattern, None);
    assert_eq!(p.fields[0].options.len(), 1);
    assert_eq!(p.fields[0].options[0].id, "me_sales_order_state_open");
    assert_eq!(p.fields[0].options[0].label, "open");
    assert_eq!(p.fields[1].ref_entity.as_deref(), Some("me_sales_customer"));
    assert_eq!(p.states.len(), 1);
    assert_eq!(p.transitions.len(), 1);
    assert_eq!(p.transitions[0].id, "me_sales_order_open_finish");
    assert_eq!(p.views[0].id, "me_sales_order_view_my_open_orders");
    assert_eq!(p.views[0].config, obj(vec![]));
    assert_eq!(p.rules[0].target_url, "https://x.example/h");
    assert_eq!(p.rules[0].trigger, "transition");
    assert!(p.rules[0].active);
    assert!(p.form_layout.is_none());
}

#[test]
fn actions_are_planned() {
    match plan_module_action("e", "transition", Some("d1"), Some(&obj(vec![("action", text("approve"))]))) {
        Ok(ActionStep::Transition(d, t)) => {
            assert_eq!(d, "d1");
            assert_eq!(t, "approve");
        }
        _ => panic!("expected a transition"),
    }
    match plan_module_action("e", "create", Some("  "), None) {
        Ok(ActionStep::Create(None, body)) => assert_eq!(body, obj(vec![])),
        _ => panic!("expected a create with a fresh id"),
    }
    match plan_module_action("e", "post", None, None) {
        Err(AppError::BadRequest(m)) => assert_eq!(m, "post requires a document id"),
        _ => panic!("expected a refusal"),
    }
    match plan_module_action("e", "fly", Some("d"), None) {
        Err(AppError::BadRequest(m)) => assert_eq!(m, "unknown action: fly"),
        _ => panic!("expected a refusal"),
    }
    let a = module_action_definition("e", "close").ok().unwrap();
    assert_eq!(a.label, "Close");
    let stored = obj(vec![("a", num(1)), ("total", num(9))]);
    let next = apply_action_payload(&stored, Some(&obj(vec![("b", num(2))])), &vec!["total".to_string()]);
    assert_eq!(next, obj(vec![("a", num(1)), ("b", num(2))]));
}

#[test]
fn records_rules() {
    assert!(validate_attachment("a.pdf", " Application/PDF ", 10).is_ok());
    assert!(validate_attachment("a.png", "image/png", 5 * 1024 * 1024).is_ok());
    assert_eq!(bad(validate_attachment("a.png", "image/png", 5 * 1024 * 1024 + 1)), "file must be at most 5MB");
    assert_eq!(bad(validate_attachment("  ", "image/png", 1)), "filename is required");
    assert_eq!(bad(validate_attachment("a", "image/png", 0)), "file is empty");
    assert_eq!(bad(validate_attachment("a.exe", "application/x-msdownload", 1)), "unsupported file type");
    assert_eq!(bad(validate_attachment(&"n".repeat(256), "text/plain", 1)), "filename must be at most 255 characters");
    assert!(valid_activity_date("2024-02-30"));
    assert!(!valid_activity_date("2024-13-01"));
    assert!(!valid_activity_date("24-01-01"));
    assert!(!valid_activity_date("2024-1-01"));
    assert!(!valid_activity_date("0000-01-01"));
    assert!(!valid_activity_date("2024-01-01-01"));
    assert_eq!(slugify_view_name("  My Open Orders! "), "my_open_orders");
    assert_eq!(slugify_view_name("__x__"), "x");
    let mut f = ListDocumentsFilter { search: None, status: Some("mine".into()), sort_by: None, sort_dir: None, view_id: None };
    apply_view_config(&mut f, &obj(vec![("status", text("open")), ("search", text(" pump ")), ("sort_by", text("  "))]));
    assert_eq!(f.status.as_deref(), Some("mine"));
    assert_eq!(f.search.as_deref(), Some("pump"));
    assert_eq!(f.sort_by, None);
    assert!(validate_report_config(&obj(vec![("group_by", text("status")), ("chart_type", text("pie"))])).is_ok());
    assert_eq!(bad(validate_report_config(&obj(vec![("group_by", text("status")), ("chart_type", text("line"))]))), "unknown chart_type: line");
    assert_eq!(bad(validate_report_config(&obj(vec![("chart_type", text("pie"))]))), "report config requires a group_by field");
    let ids = vec!["title".to_string(), "qty".to_string()];
    let layout = obj(vec![("sections", arr(vec![obj(vec![("id", text("main")), ("fields", arr(vec![text("title")]))])]))]);
    assert!(validate_form_layout_config(&layout, &ids).is_ok());
    let dup = obj(vec![("sections", arr(vec![
        obj(vec![("id", text("main")), ("fields", arr(vec![text("title")]))]),
        obj(vec![("id", text("more")), ("fields", arr(vec![text("title")]))]),
    ]))]);
    assert_eq!(bad(validate_form_layout_config(&dup, &ids)), "duplicate field: title");
    let unknown = obj(vec![("sections", arr(vec![obj(vec![("id", text("main")), ("fields", arr(vec![text("price")]))])]))]);
    assert_eq!(bad(validate_form_layout_config(&unknown, &ids)), "unknown field: price");
    assert_eq!(bad(validate_form_layout_config(&obj(vec![]), &ids)), "form layout config requires a sections array");
}

#[test]
fn csv_cells_read_back() {
    for v in ["plain", "a,b", "say \"hi\"", "two\nlines", "cr\r", "\"", ",", "é,\"x\"\r\n"] {
        let cell = csv_cell(v);
        let records = parse_csv(&cell).ok().unwrap();
        assert_eq!(records, vec![vec![v.to_string()]], "cell {cell:?}");
    }
    assert_eq!(csv_cell("a\"b"), "\"a\"\"b\"");
    assert_eq!(parse_csv("a,b\r\nc,\"d,e\"\n").ok().unwrap(), vec![vec!["a".to_string(), "b".to_string()], vec!["c".to_string(), "d,e".to_string()]]);
    assert!(parse_csv("\"open").is_err());
    assert_eq!(parse_csv("").ok().unwrap(), Vec::<Vec<String>>::new());
    assert_eq!(csv_value(None), "");
    assert_eq!(csv_value(Some(&Json::Null)), "");
    assert_eq!(csv_value(Some(&num(7))), "7");
    assert_eq!(csv_value(Some(&Json::Bool(false))), "false");
    assert_eq!(csv_value(Some(&arr(vec![text("a")]))), "[\"a\"]");
}

#[test]
fn deliveries_retry_up_to_their_attempts() {
    assert!(matches!(after_failure(0, 3), (1, DeliveryStatus::Pending)));
    assert!(matches!(after_failure(2, 3), (3, DeliveryStatus::Failed)));
    assert!(matches!(after_failure(0, 0), (1, DeliveryStatus::Failed)));
    assert_eq!(first_chars("héllo", 2), "hé");
    assert_eq!(first_chars("hi", 5), "hi");
    let s = automation_settings(Some(" {a} > 1 "), None, None, Some(99), None, true).ok().unwrap();
    assert_eq!(s.condition, "{a} > 1");
    assert_eq!(s.max_attempts, 20);
    assert!(s.active);
    assert_eq!(s.actions, arr(vec![]));
    assert!(automation_settings(Some("((("), None, None, None, None, true).is_err());
    match automation_settings(Some(&"x".repeat(2049)), None, None, None, None, true) {
        Err(Failure::Other(m)) => assert_eq!(m, "automation condition is too long"),
        _ => panic!("expected a refusal"),
    }
    assert_eq!(automation_settings(None, None, None, Some(0), Some(false), true).ok().unwrap().max_attempts, 1);
    let (id, payload) = chain_item(&obj(vec![("action_id", text("post")), ("payload", obj(vec![("x", num(1))]))])).unwrap();
    assert_eq!(id, "post");
    assert_eq!(payload, obj(vec![("x", num(1))]));
    assert_eq!(chain_item(&text("close")).unwrap().0, "close");
    assert!(chain_item(&num(1)).is_none());
}
