//! What installing a package writes besides its entities: its relations,
//! record actions, automations and dashboards, each scoped to the module's
//! entities. The store writes the plan; deciding it is here.
use vstd::prelude::*;
use crate::json::{clone_json, get_spec, jv, member, members_v, opt_jv, str_of, Json, JsonV};
use crate::module_package::{ModulePackageModule, PackageAction, PackageAutomation, PackageDashboard, PackageRelation};
use crate::repository::{insert_member, lemma_member_members_v};
use crate::text::{
    chars_of, push_all, push_str, string_from, string_of, string_views, trim, trim_str,
};

verus! {

broadcast use vstd::string::group_string_axioms;

/// The id a definition's entity is stored under in a module.
pub open spec fn scoped(module_id: Seq<char>, name: Seq<char>) -> Seq<char> {
    module_id + "_"@ + trim(name)
}

/// A field named by a package section: the trimmed text, unless blank.
pub open spec fn chosen(o: Option<String>) -> Option<Seq<char>> {
    match o {
        Some(f) => if trim(f@).len() > 0 {
            Some(trim(f@))
        } else {
            None
        },
        None => None,
    }
}

pub open spec fn opt_view(o: Option<String>) -> Option<Seq<char>> {
    match o {
        Some(s) => Some(s@),
        None => None,
    }
}

pub struct RelationRow {
    pub source_entity_id: String,
    pub target_entity_id: String,
    /// The name of the source field holding the reference, if any.
    pub source_field: Option<String>,
    pub target_field: Option<String>,
    pub name: String,
    pub relation_type: String,
    pub on_delete: String,
}

/// A package relation needs a source field unless it is many-to-many.
pub open spec fn relation_ok(r: PackageRelation) -> bool {
    chosen(r.source_field) is Some || r.relation_type@ == "many_to_many"@
}

pub open spec fn relation_row(module_id: Seq<char>, r: PackageRelation, row: RelationRow) -> bool {
    &&& row.source_entity_id@ == scoped(module_id, r.source@)
    &&& row.target_entity_id@ == scoped(module_id, r.target@)
    &&& opt_view(row.source_field) == chosen(r.source_field)
    &&& opt_view(row.target_field) == chosen(r.target_field)
    &&& row.name@ == trim(r.name@)
    &&& row.relation_type@ == trim(r.relation_type@)
    &&& row.on_delete@ == trim(r.on_delete@)
}

pub struct ActionRow {
    pub entity_id: String,
    pub name: String,
    pub label: String,
    pub kind: String,
    pub config: Json,
}

pub open spec fn action_row(module_id: Seq<char>, a: PackageAction, row: ActionRow) -> bool {
    &&& row.entity_id@ == scoped(module_id, a.entity@)
    &&& row.name@ == trim(a.name@)
    &&& row.label@ == trim(a.label@)
    &&& row.kind@ == trim(a.kind@)
    &&& jv(row.config) == jv(a.config)
}

pub struct AutomationRow {
    pub entity_id: String,
    pub trigger: String,
    pub action: String,
    pub target_url: String,
    pub active: bool,
    pub condition: String,
    pub schedule: String,
    pub max_attempts: i64,
}

pub open spec fn automation_row(module_id: Seq<char>, a: PackageAutomation, row: AutomationRow) -> bool {
    &&& row.entity_id@ == scoped(module_id, a.entity@)
    &&& row.trigger@ == trim(a.trigger@)
    &&& row.action@ == trim(a.action@)
    &&& row.target_url@ == trim(a.target_url@)
    &&& row.active == a.active
    &&& row.condition@ == a.condition@
    &&& row.schedule@ == a.schedule@
    &&& row.max_attempts == a.max_attempts
}

pub struct DashboardRow {
    pub name: String,
    pub description: String,
    pub layout: Json,
    pub filters: Json,
    pub roles: Vec<String>,
    pub users: Vec<String>,
}

/// A widget as installed: its `entity_id` names the module's entity.
pub open spec fn widget_scoped(module_id: Seq<char>, w: Json, out: Json) -> bool {
    match (w, str_of(get_spec(w, "entity_id"@))) {
        (Json::Object(e), Some(s)) => out matches Json::Object(x) && opt_jv(member(x@, "entity_id"@)) == Some(
            JsonV::String(scoped(module_id, s)),
        ) && forall|k: Seq<char>|
            k != "entity_id"@ ==> #[trigger] opt_jv(member(x@, k)) == opt_jv(member(e@, k)),
        _ => jv(out) == jv(w),
    }
}

/// A layout as installed: each widget of a list scoped, anything else kept.
pub open spec fn layout_scoped(module_id: Seq<char>, layout: Json, out: Json) -> bool {
    match layout {
        Json::Array(ws) => out matches Json::Array(os) && os@.len() == ws@.len() && forall|i: int|
            0 <= i < ws@.len() ==> widget_scoped(module_id, #[trigger] ws@[i], os@[i]),
        _ => jv(out) == jv(layout),
    }
}

pub open spec fn dashboard_row(module_id: Seq<char>, d: PackageDashboard, row: DashboardRow) -> bool {
    &&& row.name@ == trim(d.name@)
    &&& row.description@ == d.description@
    &&& layout_scoped(module_id, d.layout, row.layout)
    &&& jv(row.filters) == jv(d.filters)
    &&& string_views(row.roles@) == string_views(d.roles@)
    &&& string_views(row.users@) == string_views(d.users@)
}

/// The index of the first relation without the source field it needs.
pub open spec fn first_bad_relation(rs: Seq<PackageRelation>, i: int) -> int
    decreases rs.len() - i,
{
    if i < 0 || i >= rs.len() {
        rs.len() as int
    } else if !relation_ok(rs[i]) {
        i
    } else {
        first_bad_relation(rs, i + 1)
    }
}

/// What installing the sections of a package writes. `relations` stops at
/// the first relation that lacks a needed source field, and `problem` then
/// says why the install fails after writing the relations before it.
pub struct SectionPlan {
    pub relations: Vec<RelationRow>,
    pub problem: Option<String>,
    pub actions: Vec<ActionRow>,
    pub automations: Vec<AutomationRow>,
    pub dashboards: Vec<DashboardRow>,
}

fn scoped_id(module_id: &str, name: &str) -> (r: String)
    ensures
        r@ == scoped(module_id@, name@),
{
    let mut v = chars_of(module_id);
    push_str(&mut v, "_");
    push_all(&mut v, &trim_str(name));
    string_of(v.as_slice())
}

fn trimmed(s: &str) -> (r: String)
    ensures
        r@ == trim(s@),
{
    string_of(trim_str(s).as_slice())
}

fn chosen_exec(o: &Option<String>) -> (r: Option<String>)
    ensures
        opt_view(r) == chosen(*o),
{
    match o {
        Some(f) => {
            let t = trim_str(f.as_str());
            if t.len() > 0 {
                Some(string_of(t.as_slice()))
            } else {
                None
            }
        },
        None => None,
    }
}

fn copy_strings(v: &Vec<String>) -> (r: Vec<String>)
    ensures
        string_views(r@) == string_views(v@),
{
    let mut out: Vec<String> = Vec::new();
    let mut i: usize = 0;
    while i < v.len()
        invariant
            i <= v.len(),
            out@.len() == i,
            forall|j: int| 0 <= j < i ==> (#[trigger] out@[j])@ == v@[j]@,
        decreases v.len() - i,
    {
        out.push(string_from(v[i].as_str()));
        i += 1;
    }
    assert(string_views(out@) =~= string_views(v@));
    out
}

fn scope_widget(module_id: &str, w: &Json) -> (r: Json)
    ensures
        widget_scoped(module_id@, *w, r),
{
    match w {
        Json::Object(e) => match w.get_str("entity_id") {
            Some(s) => {
                let copy = clone_json(w);
                let mut x: Vec<(String, Json)> = match copy {
                    Json::Object(x) => {
                        assert(members_v(x@) == members_v(e@));
                        x
                    },
                    _ => {
                        assert(false);
                        Vec::new()
                    },
                };
                proof {
                    assert forall|k: Seq<char>| #[trigger] opt_jv(member(x@, k)) == opt_jv(member(e@, k)) by {
                        lemma_member_members_v(x@, e@, k);
                    }
                }
                let id = scoped_id(module_id, s.as_str());
                insert_member(&mut x, string_from("entity_id"), Json::String(id));
                Json::Object(x)
            },
            None => clone_json(w),
        },
        _ => clone_json(w),
    }
}

fn scope_layout(module_id: &str, layout: &Json) -> (r: Json)
    ensures
        layout_scoped(module_id@, *layout, r),
{
    match layout {
        Json::Array(ws) => {
            let mut out: Vec<Json> = Vec::new();
            let mut i: usize = 0;
            while i < ws.len()
                invariant
                    i <= ws.len(),
                    out@.len() == i,
                    forall|j: int| 0 <= j < i ==> widget_scoped(module_id@, #[trigger] ws@[j], out@[j]),
                decreases ws.len() - i,
            {
                out.push(scope_widget(module_id, &ws[i]));
                i += 1;
            }
            Json::Array(out)
        },
        _ => clone_json(layout),
    }
}

/// The rows installing a package's sections writes for module `module_id`.
pub fn plan_sections(module_id: &str, m: &ModulePackageModule) -> (r: SectionPlan)
    ensures
        r.relations@.len() == first_bad_relation(m.relations@, 0),
        forall|i: int|
            0 <= i < r.relations@.len() ==> relation_row(module_id@, m.relations@[i], #[trigger] r.relations@[i]),
        match r.problem {
            Some(p) => first_bad_relation(m.relations@, 0) < m.relations@.len() && {
                let bad = m.relations@[first_bad_relation(m.relations@, 0)];
                p@ == "package relation "@ + bad.name@ + " requires source_field for "@ + bad.relation_type@
            },
            None => first_bad_relation(m.relations@, 0) == m.relations@.len(),
        },
        r.actions@.len() == m.actions@.len(),
        forall|i: int| 0 <= i < r.actions@.len() ==> action_row(module_id@, m.actions@[i], #[trigger] r.actions@[i]),
        r.automations@.len() == m.automations@.len(),
        forall|i: int|
            0 <= i < r.automations@.len() ==> automation_row(module_id@, m.automations@[i], #[trigger] r.automations@[i]),
        r.dashboards@.len() == m.dashboards@.len(),
        forall|i: int|
            0 <= i < r.dashboards@.len() ==> dashboard_row(module_id@, m.dashboards@[i], #[trigger] r.dashboards@[i]),
{
    let mut relations: Vec<RelationRow> = Vec::new();
    let mut problem: Option<String> = None;
    let mut i: usize = 0;
    while i < m.relations.len() && problem.is_none()
        invariant
            i <= m.relations.len(),
            problem is None ==> relations@.len() == i && first_bad_relation(m.relations@, 0)
                == first_bad_relation(m.relations@, i as int),
            problem is None ==> forall|j: int| 0 <= j < i ==> relation_ok(#[trigger] m.relations@[j]),
            forall|j: int|
                0 <= j < relations@.len() ==> relation_row(module_id@, m.relations@[j], #[trigger] relations@[j]),
            match problem {
                Some(p) => first_bad_relation(m.relations@, 0) < m.relations@.len() && relations@.len()
                    == first_bad_relation(m.relations@, 0) && {
                    let bad = m.relations@[first_bad_relation(m.relations@, 0)];
                    p@ == "package relation "@ + bad.name@ + " requires source_field for "@ + bad.relation_type@
                },
                None => true,
            },
        decreases m.relations.len() - i + if problem is None { 1int } else { 0int },
    {
        let rel = &m.relations[i];
        let source_field = chosen_exec(&rel.source_field);
        if source_field.is_none() && !crate::text::str_eq(rel.relation_type.as_str(), "many_to_many") {
            let mut msg = chars_of("package relation ");
            push_str(&mut msg, rel.name.as_str());
            push_str(&mut msg, " requires source_field for ");
            push_str(&mut msg, rel.relation_type.as_str());
            problem = Some(string_of(msg.as_slice()));
        } else {
            relations.push(RelationRow {
                source_entity_id: scoped_id(module_id, rel.source.as_str()),
                target_entity_id: scoped_id(module_id, rel.target.as_str()),
                source_field,
                target_field: chosen_exec(&rel.target_field),
                name: trimmed(rel.name.as_str()),
                relation_type: trimmed(rel.relation_type.as_str()),
                on_delete: trimmed(rel.on_delete.as_str()),
            });
            i += 1;
        }
    }
    let mut actions: Vec<ActionRow> = Vec::new();
    let mut k: usize = 0;
    while k < m.actions.len()
        invariant
            k <= m.actions.len(),
            actions@.len() == k,
            forall|j: int| 0 <= j < k ==> action_row(module_id@, m.actions@[j], #[trigger] actions@[j]),
        decreases m.actions.len() - k,
    {
        let a = &m.actions[k];
        actions.push(ActionRow {
            entity_id: scoped_id(module_id, a.entity.as_str()),
            name: trimmed(a.name.as_str()),
            label: trimmed(a.label.as_str()),
            kind: trimmed(a.kind.as_str()),
            config: clone_json(&a.config),
        });
        k += 1;
    }
    let mut automations: Vec<AutomationRow> = Vec::new();
    let mut k: usize = 0;
    while k < m.automations.len()
        invariant
            k <= m.automations.len(),
            automations@.len() == k,
            forall|j: int| 0 <= j < k ==> automation_row(module_id@, m.automations@[j], #[trigger] automations@[j]),
        decreases m.automations.len() - k,
    {
        let a = &m.automations[k];
        automations.push(AutomationRow {
            entity_id: scoped_id(module_id, a.entity.as_str()),
            trigger: trimmed(a.trigger.as_str()),
            action: trimmed(a.action.as_str()),
            target_url: trimmed(a.target_url.as_str()),
            active: a.active,
            condition: string_from(a.condition.as_str()),
            schedule: string_from(a.schedule.as_str()),
            max_attempts: a.max_attempts,
        });
        k += 1;
    }
    let mut dashboards: Vec<DashboardRow> = Vec::new();
    let mut k: usize = 0;
    while k < m.dashboards.len()
        invariant
            k <= m.dashboards.len(),
            dashboards@.len() == k,
            forall|j: int| 0 <= j < k ==> dashboard_row(module_id@, m.dashboards@[j], #[trigger] dashboards@[j]),
        decreases m.dashboards.len() - k,
    {
        let d = &m.dashboards[k];
        dashboards.push(DashboardRow {
            name: trimmed(d.name.as_str()),
            description: string_from(d.description.as_str()),
            layout: scope_layout(module_id, &d.layout),
            filters: clone_json(&d.filters),
            roles: copy_strings(&d.roles),
            users: copy_strings(&d.users),
        });
        k += 1;
    }
    SectionPlan { relations, problem, actions, automations, dashboards }
}

} // verus!
