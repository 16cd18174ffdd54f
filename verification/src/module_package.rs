//! Portable module packages: their manifest, the self-contained sections
//! (relations, actions, automations, dashboards), the checks a package must
//! pass before it is installed, and the preview of an installation.
use vstd::prelude::*;
use crate::error::{message_of, Failure};
use crate::json::{get_spec, Json};
use crate::module_definition::{definition_error, member_names, str_or, validate_module_definition};
use crate::security::{outbound_error, outbound_ok, validate_outbound_url};
use crate::text::{
    chars_of, decimal, push_all, push_str, seq_eq, str_eq, string_from, string_of, string_views,
    trim, trim_str, u64_decimal, vec_views,
};

verus! {

broadcast use vstd::string::group_string_axioms;

/// Current package schema; schema 1 (a module definition alone) is still
/// accepted.
pub const PACKAGE_SCHEMA_VERSION: u32 = 2;

pub struct ModulePackage {
    pub schema_version: u32,
    pub kind: String,
    pub manifest: ModulePackageManifest,
    pub module: ModulePackageModule,
}

pub struct ModulePackageManifest {
    pub name: String,
    pub version: String,
    pub dependencies: Vec<ModulePackageDependency>,
}

pub struct ModulePackageDependency {
    pub name: String,
    pub version: String,
}

pub struct ModulePackageModule {
    pub name: String,
    pub label: String,
    pub description: String,
    pub icon: String,
    pub color: String,
    pub definition: Json,
    pub relations: Vec<PackageRelation>,
    pub actions: Vec<PackageAction>,
    pub automations: Vec<PackageAutomation>,
    pub dashboards: Vec<PackageDashboard>,
}

/// A relation between entities, named as in the definition.
pub struct PackageRelation {
    pub source: String,
    pub target: String,
    pub source_field: Option<String>,
    pub target_field: Option<String>,
    pub name: String,
    pub relation_type: String,
    pub on_delete: String,
}

pub struct PackageAction {
    pub entity: String,
    pub name: String,
    pub label: String,
    pub kind: String,
    pub config: Json,
}

pub struct PackageAutomation {
    pub entity: String,
    pub trigger: String,
    pub action: String,
    pub target_url: String,
    pub active: bool,
    pub condition: String,
    pub schedule: String,
    pub max_attempts: i64,
}

pub struct PackageDashboard {
    pub name: String,
    pub description: String,
    pub layout: Json,
    pub filters: Json,
    pub roles: Vec<String>,
    pub users: Vec<String>,
}

pub struct PackagePreview {
    pub valid: bool,
    pub action: String,
    pub name: String,
    pub version: String,
    pub dependencies: Vec<DependencyCheck>,
    pub conflict: Option<String>,
    pub migration: MigrationPlan,
}

pub struct DependencyCheck {
    pub name: String,
    pub required_version: String,
    pub installed_version: Option<String>,
    pub satisfied: bool,
}

pub struct MigrationPlan {
    pub creates: Vec<String>,
    pub updates: Vec<String>,
    pub warnings: Vec<String>,
}

/// `on_delete` of a relation that does not name one.
pub fn default_relation_on_delete() -> (r: String)
    ensures
        r@ == "restrict"@,
{
    string_from("restrict")
}

/// `action` of an automation that does not name one.
pub fn default_automation_action() -> (r: String)
    ensures
        r@ == "webhook"@,
{
    string_from("webhook")
}

/// Delivery attempts of an automation that does not say.
pub fn default_max_attempts() -> (r: i64)
    ensures
        r == 3,
{
    3
}

// ---------------------------------------------------------------------------
// What the sections must satisfy
// ---------------------------------------------------------------------------

/// What is wrong with a package: a plain message, or a webhook target (the
/// URL given) that is not an acceptable outbound URL.
pub enum PackageProblem {
    Message(Seq<char>),
    Url(Seq<char>),
    /// The module definition is invalid; the bad request says why.
    Definition(Seq<char>),
}

/// The entity names a definition declares (untrimmed).
pub open spec fn definition_entities(d: Json) -> Seq<Seq<char>> {
    match get_spec(d, "entities"@) {
        Some(Json::Array(es)) => member_names(es@),
        _ => Seq::empty(),
    }
}

pub open spec fn blank(s: Seq<char>) -> bool {
    trim(s).len() == 0
}

pub open spec fn relation_type_ok(t: Seq<char>) -> bool {
    t == "one_to_one"@ || t == "one_to_many"@ || t == "many_to_one"@ || t == "many_to_many"@
}

pub open spec fn on_delete_ok(t: Seq<char>) -> bool {
    t == "restrict"@ || t == "cascade"@ || t == "set_null"@
}

pub open spec fn action_kind_ok(t: Seq<char>) -> bool {
    t == "create"@ || t == "update"@ || t == "delete"@ || t == "change_status"@ || t == "notify"@
        || t == "webhook"@ || t == "formula"@ || t == "generate"@
}

pub open spec fn trigger_ok(t: Seq<char>) -> bool {
    t == "create"@ || t == "update"@ || t == "delete"@ || t == "transition"@
}

pub open spec fn automation_action_ok(t: Seq<char>) -> bool {
    t == "webhook"@ || t == "notify"@
}

pub open spec fn widget_kind_ok(t: Seq<char>) -> bool {
    t == "kpi"@ || t == "table"@ || t == "list"@ || t == "bar"@ || t == "line"@ || t == "pie"@
        || t == "area"@
}

pub open spec fn relation_problem(r: PackageRelation, names: Seq<Seq<char>>) -> Option<Seq<char>> {
    if blank(r.source@) || blank(r.target@) || blank(r.name@) {
        Some("package relation requires source, target, and name"@)
    } else if !names.contains(r.source@) {
        Some("package relation references unknown entity: "@ + r.source@)
    } else if !names.contains(r.target@) {
        Some("package relation references unknown entity: "@ + r.target@)
    } else if !relation_type_ok(r.relation_type@) {
        Some("invalid package relation type: "@ + r.relation_type@)
    } else if !on_delete_ok(r.on_delete@) {
        Some("invalid package relation on_delete: "@ + r.on_delete@)
    } else {
        None
    }
}

pub open spec fn action_problem(a: PackageAction, names: Seq<Seq<char>>) -> Option<Seq<char>> {
    if !names.contains(a.entity@) {
        Some("package action references unknown entity: "@ + a.entity@)
    } else if blank(a.name@) || blank(a.label@) {
        Some("package action requires name and label"@)
    } else if !action_kind_ok(a.kind@) {
        Some("invalid package action kind: "@ + a.kind@)
    } else {
        None
    }
}

pub open spec fn automation_problem(a: PackageAutomation, names: Seq<Seq<char>>) -> Option<PackageProblem> {
    if !names.contains(a.entity@) {
        Some(PackageProblem::Message("package automation references unknown entity: "@ + a.entity@))
    } else if !trigger_ok(a.trigger@) {
        Some(PackageProblem::Message("invalid package automation trigger: "@ + a.trigger@))
    } else if !automation_action_ok(a.action@) {
        Some(PackageProblem::Message("invalid package automation action: "@ + a.action@))
    } else if blank(a.target_url@) {
        Some(PackageProblem::Message("package automation target_url is required"@))
    } else if !outbound_ok(a.target_url@) {
        Some(PackageProblem::Url(a.target_url@))
    } else {
        None
    }
}

pub open spec fn widget_problem(w: Json, names: Seq<Seq<char>>) -> Option<Seq<char>> {
    let kind = str_or(get_spec(w, "kind"@), Seq::empty());
    let entity = str_or(get_spec(w, "entity_id"@), Seq::empty());
    if !widget_kind_ok(kind) {
        Some("invalid package dashboard widget kind: "@ + kind)
    } else if !names.contains(entity) {
        Some("package dashboard widget references unknown entity: "@ + entity)
    } else {
        None
    }
}

pub open spec fn widgets_problem_upto(ws: Seq<Json>, names: Seq<Seq<char>>, n: int) -> Option<Seq<char>>
    decreases n,
{
    if n <= 0 {
        None
    } else if widgets_problem_upto(ws, names, n - 1) is Some {
        widgets_problem_upto(ws, names, n - 1)
    } else {
        widget_problem(ws[n - 1], names)
    }
}

/// The widgets of a dashboard layout: its items when it is an array.
pub open spec fn layout_widgets(layout: Json) -> Seq<Json> {
    match layout {
        Json::Array(ws) => ws@,
        _ => Seq::empty(),
    }
}

pub open spec fn dashboard_problem(d: PackageDashboard, names: Seq<Seq<char>>) -> Option<Seq<char>> {
    if blank(d.name@) {
        Some("package dashboard requires a name"@)
    } else {
        widgets_problem_upto(layout_widgets(d.layout), names, layout_widgets(d.layout).len() as int)
    }
}

pub open spec fn relations_problem_upto(rs: Seq<PackageRelation>, names: Seq<Seq<char>>, n: int) -> Option<Seq<char>>
    decreases n,
{
    if n <= 0 {
        None
    } else if relations_problem_upto(rs, names, n - 1) is Some {
        relations_problem_upto(rs, names, n - 1)
    } else {
        relation_problem(rs[n - 1], names)
    }
}

pub open spec fn actions_problem_upto(xs: Seq<PackageAction>, names: Seq<Seq<char>>, n: int) -> Option<Seq<char>>
    decreases n,
{
    if n <= 0 {
        None
    } else if actions_problem_upto(xs, names, n - 1) is Some {
        actions_problem_upto(xs, names, n - 1)
    } else {
        action_problem(xs[n - 1], names)
    }
}

pub open spec fn automations_problem_upto(xs: Seq<PackageAutomation>, names: Seq<Seq<char>>, n: int) -> Option<PackageProblem>
    decreases n,
{
    if n <= 0 {
        None
    } else if automations_problem_upto(xs, names, n - 1) is Some {
        automations_problem_upto(xs, names, n - 1)
    } else {
        automation_problem(xs[n - 1], names)
    }
}

pub open spec fn dashboards_problem_upto(xs: Seq<PackageDashboard>, names: Seq<Seq<char>>, n: int) -> Option<Seq<char>>
    decreases n,
{
    if n <= 0 {
        None
    } else if dashboards_problem_upto(xs, names, n - 1) is Some {
        dashboards_problem_upto(xs, names, n - 1)
    } else {
        dashboard_problem(xs[n - 1], names)
    }
}

pub open spec fn message(m: Option<Seq<char>>) -> Option<PackageProblem> {
    match m {
        Some(s) => Some(PackageProblem::Message(s)),
        None => None,
    }
}

/// The first problem with the self-contained sections of a package, checked
/// against the entities its definition declares: relations, then actions,
/// automations and dashboards, each in order.
pub open spec fn sections_problem(m: ModulePackageModule) -> Option<PackageProblem> {
    let names = definition_entities(m.definition);
    let r = relations_problem_upto(m.relations@, names, m.relations@.len() as int);
    let a = actions_problem_upto(m.actions@, names, m.actions@.len() as int);
    let u = automations_problem_upto(m.automations@, names, m.automations@.len() as int);
    let d = dashboards_problem_upto(m.dashboards@, names, m.dashboards@.len() as int);
    if r is Some {
        message(r)
    } else if a is Some {
        message(a)
    } else if u is Some {
        u
    } else {
        message(d)
    }
}

/// How a problem is reported: a plain error for a message, a bad request
/// saying why for a rejected URL (`outbound_error`).
pub open spec fn reported(p: Option<PackageProblem>, r: Result<(), Failure>) -> bool {
    match p {
        None => r is Ok,
        Some(PackageProblem::Message(m)) => r matches Err(Failure::Other(s)) && s@ == m,
        Some(PackageProblem::Url(u)) => r matches Err(Failure::App(e)) && e is BadRequest && Some(
            message_of(e),
        ) == outbound_error(u),
        Some(PackageProblem::Definition(m)) => r matches Err(Failure::App(e)) && e is BadRequest
            && message_of(e) == m,
    }
}

// ---------------------------------------------------------------------------
// Once a problem is found, later items do not change which one is reported
// ---------------------------------------------------------------------------

proof fn lemma_widgets_stable(ws: Seq<Json>, names: Seq<Seq<char>>, i: int, n: int)
    requires
        0 <= i <= n,
        widgets_problem_upto(ws, names, i) is Some,
    ensures
        widgets_problem_upto(ws, names, n) == widgets_problem_upto(ws, names, i),
    decreases n - i,
{
    if n > i {
        lemma_widgets_stable(ws, names, i, n - 1);
    }
}

proof fn lemma_relations_stable(xs: Seq<PackageRelation>, names: Seq<Seq<char>>, i: int, n: int)
    requires
        0 <= i <= n,
        relations_problem_upto(xs, names, i) is Some,
    ensures
        relations_problem_upto(xs, names, n) == relations_problem_upto(xs, names, i),
    decreases n - i,
{
    if n > i {
        lemma_relations_stable(xs, names, i, n - 1);
    }
}

proof fn lemma_actions_stable(xs: Seq<PackageAction>, names: Seq<Seq<char>>, i: int, n: int)
    requires
        0 <= i <= n,
        actions_problem_upto(xs, names, i) is Some,
    ensures
        actions_problem_upto(xs, names, n) == actions_problem_upto(xs, names, i),
    decreases n - i,
{
    if n > i {
        lemma_actions_stable(xs, names, i, n - 1);
    }
}

proof fn lemma_automations_stable(xs: Seq<PackageAutomation>, names: Seq<Seq<char>>, i: int, n: int)
    requires
        0 <= i <= n,
        automations_problem_upto(xs, names, i) is Some,
    ensures
        automations_problem_upto(xs, names, n) == automations_problem_upto(xs, names, i),
    decreases n - i,
{
    if n > i {
        lemma_automations_stable(xs, names, i, n - 1);
    }
}

proof fn lemma_dashboards_stable(xs: Seq<PackageDashboard>, names: Seq<Seq<char>>, i: int, n: int)
    requires
        0 <= i <= n,
        dashboards_problem_upto(xs, names, i) is Some,
    ensures
        dashboards_problem_upto(xs, names, n) == dashboards_problem_upto(xs, names, i),
    decreases n - i,
{
    if n > i {
        lemma_dashboards_stable(xs, names, i, n - 1);
    }
}

// ---------------------------------------------------------------------------
// The checks
// ---------------------------------------------------------------------------

fn fail(m: Vec<char>) -> (r: Result<(), Failure>)
    ensures
        r matches Err(Failure::Other(s)) && s@ == m@,
{
    Err(Failure::Other(string_of(m.as_slice())))
}

fn fail_with(prefix: &str, detail: &str) -> (r: Result<(), Failure>)
    ensures
        r matches Err(Failure::Other(s)) && s@ == prefix@ + detail@,
{
    let mut m = chars_of(prefix);
    push_str(&mut m, detail);
    fail(m)
}

fn is_blank(s: &str) -> (r: bool)
    ensures
        r == blank(s@),
{
    trim_str(s).len() == 0
}

fn has_name(names: &Vec<Vec<char>>, s: &str) -> (r: bool)
    ensures
        r == vec_views(names@).contains(s@),
{
    let n = chars_of(s);
    let mut j: usize = 0;
    while j < names.len()
        invariant
            j <= names.len(),
            n@ == s@,
            forall|k: int| 0 <= k < j ==> names@[k]@ != s@,
        decreases names.len() - j,
    {
        if seq_eq(&names[j], &n) {
            assert(vec_views(names@)[j as int] == s@);
            return true;
        }
        j += 1;
    }
    assert forall|k: int| 0 <= k < vec_views(names@).len() implies vec_views(names@)[k] != s@ by {
        assert(vec_views(names@)[k] == names@[k]@);
    }
    false
}

fn entity_names(d: &Json) -> (r: Vec<Vec<char>>)
    ensures
        vec_views(r@) == definition_entities(*d),
{
    let mut out: Vec<Vec<char>> = Vec::new();
    match d.get_array("entities") {
        Some(es) => {
            let mut i: usize = 0;
            while i < es.len()
                invariant
                    i <= es.len(),
                    vec_views(out@) == member_names(es@.take(i as int)),
                decreases es.len() - i,
            {
                assert(es@.take(i + 1).drop_last() =~= es@.take(i as int));
                match es[i].get_str("name") {
                    Some(n) => {
                        let ghost before = out@;
                        out.push(chars_of(n.as_str()));
                        assert(vec_views(out@) =~= vec_views(before).push(n@));
                    },
                    None => {},
                }
                i += 1;
            }
            assert(es@.take(es.len() as int) =~= es@);
            out
        },
        None => out,
    }
}

fn check_relation(r: &PackageRelation, names: &Vec<Vec<char>>) -> (res: Result<(), Failure>)
    ensures
        reported(message(relation_problem(*r, vec_views(names@))), res),
{
    if is_blank(r.source.as_str()) || is_blank(r.target.as_str()) || is_blank(r.name.as_str()) {
        return fail(chars_of("package relation requires source, target, and name"));
    }
    if !has_name(names, r.source.as_str()) {
        return fail_with("package relation references unknown entity: ", r.source.as_str());
    }
    if !has_name(names, r.target.as_str()) {
        return fail_with("package relation references unknown entity: ", r.target.as_str());
    }
    let t = r.relation_type.as_str();
    if !(str_eq(t, "one_to_one") || str_eq(t, "one_to_many") || str_eq(t, "many_to_one") || str_eq(
        t,
        "many_to_many",
    )) {
        return fail_with("invalid package relation type: ", t);
    }
    let od = r.on_delete.as_str();
    if !(str_eq(od, "restrict") || str_eq(od, "cascade") || str_eq(od, "set_null")) {
        return fail_with("invalid package relation on_delete: ", od);
    }
    Ok(())
}

fn check_action(a: &PackageAction, names: &Vec<Vec<char>>) -> (res: Result<(), Failure>)
    ensures
        reported(message(action_problem(*a, vec_views(names@))), res),
{
    if !has_name(names, a.entity.as_str()) {
        return fail_with("package action references unknown entity: ", a.entity.as_str());
    }
    if is_blank(a.name.as_str()) || is_blank(a.label.as_str()) {
        return fail(chars_of("package action requires name and label"));
    }
    let k = a.kind.as_str();
    if !(str_eq(k, "create") || str_eq(k, "update") || str_eq(k, "delete") || str_eq(
        k,
        "change_status",
    ) || str_eq(k, "notify") || str_eq(k, "webhook") || str_eq(k, "formula") || str_eq(
        k,
        "generate",
    )) {
        return fail_with("invalid package action kind: ", k);
    }
    Ok(())
}

fn check_automation(a: &PackageAutomation, names: &Vec<Vec<char>>) -> (res: Result<(), Failure>)
    ensures
        reported(automation_problem(*a, vec_views(names@)), res),
{
    if !has_name(names, a.entity.as_str()) {
        return fail_with("package automation references unknown entity: ", a.entity.as_str());
    }
    let t = a.trigger.as_str();
    if !(str_eq(t, "create") || str_eq(t, "update") || str_eq(t, "delete") || str_eq(
        t,
        "transition",
    )) {
        return fail_with("invalid package automation trigger: ", t);
    }
    let act = a.action.as_str();
    if !(str_eq(act, "webhook") || str_eq(act, "notify")) {
        return fail_with("invalid package automation action: ", act);
    }
    if is_blank(a.target_url.as_str()) {
        return fail(chars_of("package automation target_url is required"));
    }
    match validate_outbound_url(a.target_url.as_str()) {
        Ok(()) => Ok(()),
        Err(e) => Err(Failure::App(e)),
    }
}

fn member_text(v: &Json, k: &str) -> (r: String)
    ensures
        r@ == str_or(get_spec(*v, k@), Seq::empty()),
{
    match v.get(k) {
        Some(Json::String(s)) => s.clone(),
        _ => {
            let r = String::new();
            r
        },
    }
}

fn check_dashboard(d: &PackageDashboard, names: &Vec<Vec<char>>) -> (res: Result<(), Failure>)
    ensures
        reported(message(dashboard_problem(*d, vec_views(names@))), res),
{
    if is_blank(d.name.as_str()) {
        return fail(chars_of("package dashboard requires a name"));
    }
    let empty: Vec<Json> = Vec::new();
    let ws = match &d.layout {
        Json::Array(ws) => ws,
        _ => &empty,
    };
    assert(ws@ == layout_widgets(d.layout));
    let mut i: usize = 0;
    while i < ws.len()
        invariant
            i <= ws.len(),
            ws@ == layout_widgets(d.layout),
            !blank(d.name@),
            widgets_problem_upto(ws@, vec_views(names@), i as int) is None,
        decreases ws.len() - i,
    {
        let kind = member_text(&ws[i], "kind");
        let entity = member_text(&ws[i], "entity_id");
        let k = kind.as_str();
        proof {
            if widget_problem(ws@[i as int], vec_views(names@)) is Some {
                lemma_widgets_stable(ws@, vec_views(names@), i + 1, ws@.len() as int);
            }
        }
        if !(str_eq(k, "kpi") || str_eq(k, "table") || str_eq(k, "list") || str_eq(k, "bar")
            || str_eq(k, "line") || str_eq(k, "pie") || str_eq(k, "area")) {
            return fail_with("invalid package dashboard widget kind: ", k);
        }
        if !has_name(names, entity.as_str()) {
            return fail_with("package dashboard widget references unknown entity: ", entity.as_str());
        }
        i += 1;
    }
    Ok(())
}

/// Checks the self-contained sections of a package against the entities its
/// definition declares (names as in the definition, not materialized ids).
pub fn validate_package_sections(package: &ModulePackage) -> (r: Result<(), Failure>)
    ensures
        reported(sections_problem(package.module), r),
{
    let m = &package.module;
    let names = entity_names(&m.definition);
    let ghost ns = vec_views(names@);
    assert(ns == definition_entities(m.definition));
    let mut i: usize = 0;
    while i < m.relations.len()
        invariant
            i <= m.relations.len(),
            relations_problem_upto(m.relations@, ns, i as int) is None,
            ns == vec_views(names@),
            ns == definition_entities(m.definition),
            *m == package.module,
        decreases m.relations.len() - i,
    {
        let res = check_relation(&m.relations[i], &names);
        if res.is_err() {
            proof {
                lemma_relations_stable(m.relations@, ns, i + 1, m.relations@.len() as int);
            }
            return res;
        }
        i += 1;
    }
    let mut i: usize = 0;
    while i < m.actions.len()
        invariant
            i <= m.actions.len(),
            actions_problem_upto(m.actions@, ns, i as int) is None,
            relations_problem_upto(m.relations@, ns, m.relations@.len() as int) is None,
            ns == vec_views(names@),
            ns == definition_entities(m.definition),
            *m == package.module,
        decreases m.actions.len() - i,
    {
        let res = check_action(&m.actions[i], &names);
        if res.is_err() {
            proof {
                lemma_actions_stable(m.actions@, ns, i + 1, m.actions@.len() as int);
            }
            return res;
        }
        i += 1;
    }
    let mut i: usize = 0;
    while i < m.automations.len()
        invariant
            i <= m.automations.len(),
            automations_problem_upto(m.automations@, ns, i as int) is None,
            relations_problem_upto(m.relations@, ns, m.relations@.len() as int) is None,
            actions_problem_upto(m.actions@, ns, m.actions@.len() as int) is None,
            ns == vec_views(names@),
            ns == definition_entities(m.definition),
            *m == package.module,
        decreases m.automations.len() - i,
    {
        let res = check_automation(&m.automations[i], &names);
        if res.is_err() {
            proof {
                lemma_automations_stable(m.automations@, ns, i + 1, m.automations@.len() as int);
            }
            return res;
        }
        i += 1;
    }
    let mut i: usize = 0;
    while i < m.dashboards.len()
        invariant
            i <= m.dashboards.len(),
            dashboards_problem_upto(m.dashboards@, ns, i as int) is None,
            relations_problem_upto(m.relations@, ns, m.relations@.len() as int) is None,
            actions_problem_upto(m.actions@, ns, m.actions@.len() as int) is None,
            automations_problem_upto(m.automations@, ns, m.automations@.len() as int) is None,
            ns == vec_views(names@),
            ns == definition_entities(m.definition),
            *m == package.module,
        decreases m.dashboards.len() - i,
    {
        let res = check_dashboard(&m.dashboards[i], &names);
        if res.is_err() {
            proof {
                lemma_dashboards_stable(m.dashboards@, ns, i + 1, m.dashboards@.len() as int);
            }
            return res;
        }
        i += 1;
    }
    Ok(())
}

// ---------------------------------------------------------------------------
// The whole package
// ---------------------------------------------------------------------------

pub open spec fn deps_ok(ds: Seq<ModulePackageDependency>) -> bool {
    forall|i: int| 0 <= i < ds.len() ==> !blank((#[trigger] ds[i]).name@) && !blank(ds[i].version@)
}

/// The first problem with a parsed package: its schema version and kind,
/// the manifest naming the module, the module definition, the version and
/// dependencies of the manifest, then the self-contained sections.
pub open spec fn package_problem(p: ModulePackage) -> Option<PackageProblem> {
    if p.schema_version != 1 && p.schema_version != PACKAGE_SCHEMA_VERSION {
        Some(
            PackageProblem::Message(
                "unsupported module package schema version: "@ + decimal(p.schema_version as nat),
            ),
        )
    } else if p.kind@ != "logholizon.module"@ {
        Some(PackageProblem::Message("unsupported module package kind: "@ + p.kind@))
    } else if p.manifest.name@ != p.module.name@ {
        Some(PackageProblem::Message("package manifest/module name mismatch"@))
    } else if definition_error(p.module.definition) is Some {
        Some(PackageProblem::Definition(definition_error(p.module.definition)->0))
    } else if blank(p.manifest.version@) {
        Some(PackageProblem::Message("package version is required"@))
    } else if !deps_ok(p.manifest.dependencies@) {
        Some(PackageProblem::Message("package dependency name and version are required"@))
    } else {
        sections_problem(p.module)
    }
}

/// The checks a package passes once it is read: the schema version and
/// kind, the manifest against the module, the module definition, the
/// manifest's version and dependencies, and the self-contained sections.
#[verifier::loop_isolation(false)]
pub fn check_package(package: &ModulePackage) -> (r: Result<(), Failure>)
    ensures
        reported(package_problem(*package), r),
{
    if package.schema_version != 1 && package.schema_version != PACKAGE_SCHEMA_VERSION {
        let mut m = chars_of("unsupported module package schema version: ");
        push_all(&mut m, &u64_decimal(package.schema_version as u64));
        return fail(m);
    }
    if !str_eq(package.kind.as_str(), "logholizon.module") {
        return fail_with("unsupported module package kind: ", package.kind.as_str());
    }
    if !str_eq(package.manifest.name.as_str(), package.module.name.as_str()) {
        return fail(chars_of("package manifest/module name mismatch"));
    }
    match validate_module_definition(&package.module.definition) {
        Ok(()) => {},
        Err(e) => {
            return Err(Failure::App(e));
        },
    }
    if is_blank(package.manifest.version.as_str()) {
        return fail(chars_of("package version is required"));
    }
    let deps = &package.manifest.dependencies;
    let mut i: usize = 0;
    while i < deps.len()
        invariant
            i <= deps.len(),
            forall|j: int| 0 <= j < i ==> !blank((#[trigger] deps@[j]).name@) && !blank(
                deps@[j].version@,
            ),
        decreases deps.len() - i,
    {
        if is_blank(deps[i].name.as_str()) || is_blank(deps[i].version.as_str()) {
            return fail(chars_of("package dependency name and version are required"));
        }
        i += 1;
    }
    validate_package_sections(package)
}

/// The names whose flag is set, or unset, in order.
pub open spec fn flagged(names: Seq<Seq<char>>, flags: Seq<bool>, want: bool) -> Seq<Seq<char>>
    decreases names.len(),
{
    if names.len() == 0 || flags.len() < names.len() {
        Seq::empty()
    } else if flags[names.len() - 1] == want {
        flagged(names.drop_last(), flags.subrange(0, names.len() - 1), want).push(names.last())
    } else {
        flagged(names.drop_last(), flags.subrange(0, names.len() - 1), want)
    }
}

/// The first dependency that is not installed.
pub open spec fn first_missing(installed: Seq<Option<String>>, n: int) -> Option<int>
    decreases n,
{
    if n <= 0 {
        None
    } else if first_missing(installed, n - 1) is Some {
        first_missing(installed, n - 1)
    } else if installed[n - 1] is None {
        Some(n - 1)
    } else {
        None
    }
}

pub open spec fn opt_views(o: Option<String>) -> Option<Seq<char>> {
    match o {
        Some(s) => Some(s@),
        None => None,
    }
}

/// What installing a package would do, from what the store holds: the
/// module if it already exists (its id and version), the installed version
/// of each dependency, and whether each declared entity exists.
pub open spec fn preview_ok(
    package: ModulePackage,
    existing: Option<(String, String)>,
    installed: Seq<Option<String>>,
    entity_exists: Seq<bool>,
    r: PackagePreview,
) -> bool {
    let deps = package.manifest.dependencies@;
    let names = definition_entities(package.module.definition);
    let missing = first_missing(installed, installed.len() as int);
    let conflict = match existing {
        Some((id, version)) => Some("module already exists: "@ + id@ + " ("@ + version@ + ")"@),
        None => None,
    };
    let failure = match missing {
        Some(i) => Some("missing dependency: "@ + deps[i].name@),
        None => None,
    };
    &&& r.valid == (conflict is None && failure is None)
    &&& r.action@ == if existing is Some {
        "conflict"@
    } else {
        "install"@
    }
    &&& r.name@ == package.module.name@
    &&& r.version@ == package.manifest.version@
    &&& r.dependencies@.len() == deps.len()
    &&& forall|i: int|
        0 <= i < deps.len() ==> {
            let c = #[trigger] r.dependencies@[i];
            &&& c.name@ == deps[i].name@
            &&& c.required_version@ == deps[i].version@
            &&& opt_views(c.installed_version) == opt_views(installed[i])
            &&& c.satisfied == installed[i] is Some
        }
    &&& opt_views(r.conflict) == if conflict is Some {
        conflict
    } else {
        failure
    }
    &&& string_views(r.migration.creates@) == flagged(names, entity_exists, false)
    &&& string_views(r.migration.updates@) == flagged(names, entity_exists, true)
    &&& r.migration.warnings@.len() == 0
}

fn clone_opt(o: &Option<String>) -> (r: Option<String>)
    ensures
        opt_views(r) == opt_views(*o),
{
    match o {
        Some(s) => Some(s.clone()),
        None => None,
    }
}

/// Builds the preview of installing `package` from what the store holds.
pub fn build_preview(
    package: &ModulePackage,
    existing: &Option<(String, String)>,
    installed: &Vec<Option<String>>,
    entity_exists: &Vec<bool>,
) -> (r: PackagePreview)
    requires
        installed@.len() == package.manifest.dependencies@.len(),
        entity_exists@.len() == definition_entities(package.module.definition).len(),
    ensures
        preview_ok(*package, *existing, installed@, entity_exists@, r),
{
    let deps = &package.manifest.dependencies;
    let mut checks: Vec<DependencyCheck> = Vec::new();
    let mut missing: Option<usize> = None;
    let mut i: usize = 0;
    while i < deps.len()
        invariant
            i <= deps.len(),
            installed@.len() == deps@.len(),
            checks@.len() == i,
            forall|k: int|
                0 <= k < i ==> {
                    let c = #[trigger] checks@[k];
                    &&& c.name@ == deps@[k].name@
                    &&& c.required_version@ == deps@[k].version@
                    &&& opt_views(c.installed_version) == opt_views(installed@[k])
                    &&& c.satisfied == installed@[k] is Some
                },
            missing matches Some(m) ==> m < i,
            match missing {
                Some(m) => first_missing(installed@, i as int) == Some(m as int),
                None => first_missing(installed@, i as int) is None,
            },
        decreases deps.len() - i,
    {
        let satisfied = installed[i].is_some();
        if !satisfied && missing.is_none() {
            missing = Some(i);
        }
        checks.push(
            DependencyCheck {
                name: deps[i].name.clone(),
                required_version: deps[i].version.clone(),
                installed_version: clone_opt(&installed[i]),
                satisfied,
            },
        );
        i += 1;
    }
    let names = entity_names(&package.module.definition);
    let mut creates: Vec<String> = Vec::new();
    let mut updates: Vec<String> = Vec::new();
    let mut j: usize = 0;
    while j < names.len()
        invariant
            j <= names.len(),
            entity_exists@.len() == names@.len(),
            string_views(creates@) == flagged(vec_views(names@).take(j as int), entity_exists@.take(j as int), false),
            string_views(updates@) == flagged(vec_views(names@).take(j as int), entity_exists@.take(j as int), true),
        decreases names.len() - j,
    {
        let ghost nt = vec_views(names@).take(j + 1);
        let ghost ft = entity_exists@.take(j + 1);
        assert(nt.drop_last() =~= vec_views(names@).take(j as int));
        assert(ft.subrange(0, j as int) =~= entity_exists@.take(j as int));
        assert(nt.last() == names@[j as int]@);
        let n = string_of(names[j].as_slice());
        if entity_exists[j] {
            let ghost before = updates@;
            updates.push(n);
            assert(string_views(updates@) =~= string_views(before).push(names@[j as int]@));
        } else {
            let ghost before = creates@;
            creates.push(n);
            assert(string_views(creates@) =~= string_views(before).push(names@[j as int]@));
        }
        j += 1;
    }
    assert(vec_views(names@).take(names.len() as int) =~= vec_views(names@));
    assert(entity_exists@.take(names.len() as int) =~= entity_exists@);
    let conflict = match existing {
        Some((id, version)) => {
            let mut m = chars_of("module already exists: ");
            push_str(&mut m, id.as_str());
            push_str(&mut m, " (");
            push_str(&mut m, version.as_str());
            push_str(&mut m, ")");
            Some(string_of(m.as_slice()))
        },
        None => None,
    };
    let failure = match missing {
        Some(k) => {
            let mut m = chars_of("missing dependency: ");
            push_str(&mut m, deps[k].name.as_str());
            Some(string_of(m.as_slice()))
        },
        None => None,
    };
    let valid = conflict.is_none() && failure.is_none();
    let action = if existing.is_some() {
        string_from("conflict")
    } else {
        string_from("install")
    };
    let conflict = match conflict {
        Some(c) => Some(c),
        None => failure,
    };
    PackagePreview {
        valid,
        action,
        name: package.module.name.clone(),
        version: package.manifest.version.clone(),
        dependencies: checks,
        conflict,
        migration: MigrationPlan { creates, updates, warnings: Vec::new() },
    }
}

} // verus!
