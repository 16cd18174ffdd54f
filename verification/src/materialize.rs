//! The rows that publishing a module writes: for every named entity of its
//! definition, the entity, its fields with their rules and options, its
//! workflow states and transitions, saved views, form layout, reports and
//! notification rules. The store writes the plan; deciding it is here.
use vstd::prelude::*;
use crate::field_rules::{declared_rules, field_rules_from_definition, nonblank, FieldRules, FieldRulesV};
use crate::json::{bool_of, clone_json, get_spec, jv, str_of, Json, JsonV};
use crate::module_definition::str_or;
use crate::records::{slug, slugify_view_name};
use crate::repository::Module;
use crate::text::{chars_of, push_all, push_str, string_from, string_of, trim_str};

verus! {

broadcast use vstd::string::group_string_axioms;

pub struct EntityRow {
    pub id: String,
    pub name: String,
    pub label: String,
    pub module_label: String,
    pub module_id: String,
}

pub struct OptionRow {
    pub id: String,
    pub value: String,
    pub label: String,
}

pub struct FieldRow {
    pub id: String,
    pub name: String,
    pub field_type: String,
    pub required: bool,
    pub is_status: bool,
    pub position: usize,
    pub ref_entity: Option<String>,
    pub computed_expr: Option<String>,
    pub rules: FieldRules,
    pub options: Vec<OptionRow>,
}

pub struct StateRow {
    pub id: String,
    pub name: String,
    pub label: String,
    pub position: usize,
}

pub struct TransitionRow {
    pub id: String,
    pub from_state: String,
    pub to_state: String,
    pub action: String,
}

/// A saved view or a report: its id, name and configuration.
pub struct ConfigRow {
    pub id: String,
    pub name: String,
    pub config: Json,
}

pub struct RuleRow {
    pub trigger: String,
    pub target_url: String,
    pub active: bool,
}

pub struct EntityPlan {
    pub entity: EntityRow,
    pub fields: Vec<FieldRow>,
    pub states: Vec<StateRow>,
    pub transitions: Vec<TransitionRow>,
    pub views: Vec<ConfigRow>,
    pub form_layout: Option<Json>,
    pub reports: Vec<ConfigRow>,
    pub rules: Vec<RuleRow>,
}

// ---------------------------------------------------------------------------
// What the plan holds
// ---------------------------------------------------------------------------

/// The trimmed, non-empty text of member `k`.
pub open spec fn text_of(v: Json, k: Seq<char>) -> Option<Seq<char>> {
    nonblank(str_of(get_spec(v, k)))
}

/// The items of an optional array.
pub open spec fn items_of(v: Option<Json>) -> Seq<Json> {
    match v {
        Some(Json::Array(a)) => a@,
        _ => Seq::empty(),
    }
}

/// Indices of the items whose member `k` is non-blank text.
pub open spec fn named_indices(items: Seq<Json>, k: Seq<char>) -> Seq<int>
    decreases items.len(),
{
    if items.len() == 0 {
        Seq::empty()
    } else if text_of(items.last(), k) is Some {
        named_indices(items.drop_last(), k).push(items.len() - 1)
    } else {
        named_indices(items.drop_last(), k)
    }
}

/// Indices of the transitions that name a source, a target and an action.
pub open spec fn transition_indices(items: Seq<Json>) -> Seq<int>
    decreases items.len(),
{
    if items.len() == 0 {
        Seq::empty()
    } else if transition_complete(items.last()) {
        transition_indices(items.drop_last()).push(items.len() - 1)
    } else {
        transition_indices(items.drop_last())
    }
}

pub open spec fn transition_complete(t: Json) -> bool {
    text_of(t, "from_state"@) is Some && text_of(t, "to_state"@) is Some && text_of(t, "action"@)
        is Some
}

/// Text or, when blank or absent, a fallback.
pub open spec fn or_text(o: Option<Seq<char>>, d: Seq<char>) -> Seq<char> {
    match o {
        Some(s) => s,
        None => d,
    }
}

pub open spec fn sv(o: Option<String>) -> Option<Seq<char>> {
    match o {
        Some(s) => Some(s@),
        None => None,
    }
}

/// The rules a field row stores: as declared, texts trimmed and blank ones
/// left out.
pub open spec fn stored_rules(d: FieldRulesV) -> FieldRulesV {
    FieldRulesV {
        is_unique: d.is_unique,
        min_value: d.min_value,
        max_value: d.max_value,
        pattern: nonblank(d.pattern),
        min_length: d.min_length,
        max_length: d.max_length,
        default_value: nonblank(d.default_value),
        auto_number_prefix: nonblank(d.auto_number_prefix),
        auto_number_width: d.auto_number_width,
    }
}

pub open spec fn option_ok(o: OptionRow, item: Json, field_id: Seq<char>) -> bool {
    let value = text_of(item, "value"@)->0;
    &&& o.value@ == value
    &&& o.label@ == or_text(text_of(item, "label"@), value)
    &&& o.id@ == field_id + "_"@ + value
}

pub open spec fn options_ok(rows: Seq<OptionRow>, items: Seq<Json>, field_id: Seq<char>) -> bool {
    let idx = named_indices(items, "value"@);
    rows.len() == idx.len() && forall|k: int|
        0 <= k < rows.len() ==> option_ok(#[trigger] rows[k], items[idx[k]], field_id)
}

pub open spec fn field_ok(r: FieldRow, f: Json, position: int, entity_id: Seq<char>, module_id: Seq<char>) -> bool {
    let name = text_of(f, "name"@)->0;
    &&& r.name@ == name
    &&& r.id@ == entity_id + "_"@ + name
    &&& r.field_type@ == str_or(get_spec(f, "type"@), "text"@)
    &&& r.required == (bool_of(get_spec(f, "required"@)) == Some(true))
    &&& r.is_status == (bool_of(get_spec(f, "is_status"@)) == Some(true))
    &&& r.position == position
    &&& sv(r.ref_entity) == match text_of(f, "ref_entity"@) {
        Some(t) => Some(module_id + "_"@ + t),
        None => None,
    }
    &&& sv(r.computed_expr) == text_of(f, "computed_expr"@)
    &&& r.rules@ == stored_rules(declared_rules(f))
    &&& options_ok(r.options@, items_of(get_spec(f, "options"@)), r.id@)
}

pub open spec fn state_ok(r: StateRow, s: Json, position: int, entity_id: Seq<char>) -> bool {
    let name = text_of(s, "name"@)->0;
    &&& r.name@ == name
    &&& r.label@ == or_text(text_of(s, "label"@), name)
    &&& r.id@ == entity_id + "_"@ + name
    &&& r.position == position
}

pub open spec fn transition_ok(r: TransitionRow, t: Json, entity_id: Seq<char>) -> bool {
    let from = text_of(t, "from_state"@)->0;
    let action = text_of(t, "action"@)->0;
    &&& r.from_state@ == from
    &&& r.to_state@ == text_of(t, "to_state"@)->0
    &&& r.action@ == action
    &&& r.id@ == entity_id + "_"@ + from + "_"@ + action
}

/// A saved view or report: named by its trimmed name, id from the name's
/// slug, configuration as given or an empty object.
pub open spec fn config_row_ok(r: ConfigRow, v: Json, prefix: Seq<char>) -> bool {
    let name = text_of(v, "name"@)->0;
    &&& r.name@ == name
    &&& r.id@ == prefix + slug(name)
    &&& jv(r.config) == match get_spec(v, "config"@) {
        Some(c) => jv(c),
        None => JsonV::Object(Seq::empty()),
    }
}

pub open spec fn rule_ok(r: RuleRow, n: Json) -> bool {
    &&& r.target_url@ == text_of(n, "target_url"@)->0
    &&& r.trigger@ == str_or(get_spec(n, "trigger"@), "transition"@)
    &&& r.active == match bool_of(get_spec(n, "active"@)) {
        Some(b) => b,
        None => true,
    }
}

/// What publishing writes for one named entity of a module.
pub open spec fn entity_plan_ok(p: EntityPlan, e: Json, module_id: Seq<char>, module_label: Seq<char>) -> bool {
    let name = text_of(e, "name"@)->0;
    let entity_id = module_id + "_"@ + name;
    let fields = items_of(get_spec(e, "fields"@));
    let fidx = named_indices(fields, "name"@);
    let workflow = get_spec(e, "workflow"@);
    let states = match workflow {
        Some(w) => items_of(get_spec(w, "states"@)),
        None => Seq::empty(),
    };
    let sidx = named_indices(states, "name"@);
    let transitions = match workflow {
        Some(w) => items_of(get_spec(w, "transitions"@)),
        None => Seq::empty(),
    };
    let tidx = transition_indices(transitions);
    let views = items_of(get_spec(e, "views"@));
    let vidx = named_indices(views, "name"@);
    let reports = items_of(get_spec(e, "reports"@));
    let ridx = named_indices(reports, "name"@);
    let rules = items_of(get_spec(e, "notifications"@));
    let nidx = named_indices(rules, "target_url"@);
    &&& p.entity.id@ == entity_id
    &&& p.entity.name@ == name
    &&& p.entity.label@ == or_text(text_of(e, "label"@), name)
    &&& p.entity.module_label@ == module_label
    &&& p.entity.module_id@ == module_id
    &&& p.fields@.len() == fidx.len()
    &&& (forall|k: int|
        0 <= k < fidx.len() ==> field_ok(#[trigger] p.fields@[k], fields[fidx[k]], fidx[k], entity_id, module_id))
    &&& p.states@.len() == sidx.len()
    &&& (forall|k: int|
        0 <= k < sidx.len() ==> state_ok(#[trigger] p.states@[k], states[sidx[k]], sidx[k], entity_id))
    &&& p.transitions@.len() == tidx.len()
    &&& (forall|k: int|
        0 <= k < tidx.len() ==> transition_ok(#[trigger] p.transitions@[k], transitions[tidx[k]], entity_id))
    &&& p.views@.len() == vidx.len()
    &&& (forall|k: int|
        0 <= k < vidx.len() ==> config_row_ok(#[trigger] p.views@[k], views[vidx[k]], entity_id + "_view_"@))
    &&& match get_spec(e, "form_layout"@) {
        Some(l) => p.form_layout matches Some(c) && jv(c) == match get_spec(l, "config"@) {
            Some(x) => jv(x),
            None => jv(l),
        },
        None => p.form_layout is None,
    }
    &&& p.reports@.len() == ridx.len()
    &&& (forall|k: int|
        0 <= k < ridx.len() ==> config_row_ok(#[trigger] p.reports@[k], reports[ridx[k]], entity_id + "_report_"@))
    &&& p.rules@.len() == nidx.len()
    &&& (forall|k: int| 0 <= k < nidx.len() ==> rule_ok(#[trigger] p.rules@[k], rules[nidx[k]]))
}

/// What publishing a module writes: one plan per entity of its definition
/// that has a name, in order.
pub open spec fn module_plan_ok(plans: Seq<EntityPlan>, m: Module) -> bool {
    let es = items_of(get_spec(m.definition, "entities"@));
    let idx = named_indices(es, "name"@);
    plans.len() == idx.len() && forall|k: int|
        0 <= k < idx.len() ==> entity_plan_ok(#[trigger] plans[k], es[idx[k]], m.id@, m.label@)
}

// ---------------------------------------------------------------------------
// Building the plan
// ---------------------------------------------------------------------------

proof fn lemma_named_step(items: Seq<Json>, k: Seq<char>, i: int)
    requires
        0 <= i < items.len(),
    ensures
        named_indices(items.take(i + 1), k) == if text_of(items[i], k) is Some {
            named_indices(items.take(i), k).push(i)
        } else {
            named_indices(items.take(i), k)
        },
{
    assert(items.take(i + 1).drop_last() =~= items.take(i));
    assert(items.take(i + 1).last() == items[i]);
}

proof fn lemma_transition_step(items: Seq<Json>, i: int)
    requires
        0 <= i < items.len(),
    ensures
        transition_indices(items.take(i + 1)) == if transition_complete(items[i]) {
            transition_indices(items.take(i)).push(i)
        } else {
            transition_indices(items.take(i))
        },
{
    assert(items.take(i + 1).drop_last() =~= items.take(i));
    assert(items.take(i + 1).last() == items[i]);
}

fn text_exec(v: &Json, k: &str) -> (r: Option<Vec<char>>)
    ensures
        match r {
            Some(t) => text_of(*v, k@) == Some(t@),
            None => text_of(*v, k@) is None,
        },
{
    match v.get(k) {
        Some(Json::String(s)) => {
            let t = trim_str(s.as_str());
            if t.len() > 0 {
                Some(t)
            } else {
                None
            }
        },
        _ => None,
    }
}

fn items_exec<'a>(v: Option<&'a Json>) -> (r: &'a [Json])
    ensures
        r@ == items_of(
            match v {
                Some(x) => Some(*x),
                None => None,
            },
        ),
{
    match v {
        Some(Json::Array(a)) => a.as_slice(),
        _ => &[],
    }
}

fn joined(a: &Vec<char>, sep: &str, b: &Vec<char>) -> (r: String)
    ensures
        r@ == a@ + sep@ + b@,
{
    let mut m = a.clone();
    push_str(&mut m, sep);
    push_all(&mut m, b);
    string_of(m.as_slice())
}

fn empty_object() -> (r: Json)
    ensures
        jv(r) == JsonV::Object(Seq::empty()),
{
    let r = Json::Object(Vec::new());
    assert(crate::json::members_v(Seq::<(String, Json)>::empty()) =~= Seq::empty());
    r
}

fn option_rows(items: &[Json], field_id: &Vec<char>) -> (r: Vec<OptionRow>)
    ensures
        options_ok(r@, items@, field_id@),
{
    let mut rows: Vec<OptionRow> = Vec::new();
    let mut i: usize = 0;
    while i < items.len()
        invariant
            i <= items.len(),
            rows@.len() == named_indices(items@.take(i as int), "value"@).len(),
            forall|k: int|
                0 <= k < rows@.len() ==> option_ok(
                    #[trigger] rows@[k],
                    items@[named_indices(items@.take(i as int), "value"@)[k]],
                    field_id@,
                ),
        decreases items.len() - i,
    {
        proof {
            lemma_named_step(items@, "value"@, i as int);
        }
        if let Some(value) = text_exec(&items[i], "value") {
            let label = match text_exec(&items[i], "label") {
                Some(l) => l,
                None => value.clone(),
            };
            rows.push(
                OptionRow {
                    id: joined(field_id, "_", &value),
                    value: string_of(value.as_slice()),
                    label: string_of(label.as_slice()),
                },
            );
        }
        i += 1;
    }
    assert(items@.take(items.len() as int) =~= items@);
    rows
}

fn field_row(f: &Json, name: Vec<char>, position: usize, entity_id: &Vec<char>, module_id: &Vec<char>) -> (r: FieldRow)
    requires
        text_of(*f, "name"@) == Some(name@),
    ensures
        field_ok(r, *f, position as int, entity_id@, module_id@),
{
    let id_chars = chars_of(joined(entity_id, "_", &name).as_str());
    let field_type = match f.get("type") {
        Some(Json::String(t)) => t.clone(),
        _ => string_from("text"),
    };
    let required = f.get_bool("required") == Some(true);
    let is_status = f.get_bool("is_status") == Some(true);
    let ref_entity = match text_exec(f, "ref_entity") {
        Some(t) => Some(joined(module_id, "_", &t)),
        None => None,
    };
    let computed_expr = match text_exec(f, "computed_expr") {
        Some(t) => Some(string_of(t.as_slice())),
        None => None,
    };
    let declared = field_rules_from_definition(f);
    let rules = FieldRules {
        is_unique: declared.is_unique,
        min_value: declared.min_value,
        max_value: declared.max_value,
        pattern: trimmed_nonblank(&declared.pattern),
        min_length: declared.min_length,
        max_length: declared.max_length,
        default_value: trimmed_nonblank(&declared.default_value),
        auto_number_prefix: trimmed_nonblank(&declared.auto_number_prefix),
        auto_number_width: declared.auto_number_width,
    };
    let options = option_rows(items_exec(f.get("options")), &id_chars);
    FieldRow {
        id: string_of(id_chars.as_slice()),
        name: string_of(name.as_slice()),
        field_type,
        required,
        is_status,
        position,
        ref_entity,
        computed_expr,
        rules,
        options,
    }
}

fn trimmed_nonblank(o: &Option<String>) -> (r: Option<String>)
    ensures
        sv(r) == nonblank(sv(*o)),
{
    match o {
        Some(s) => {
            let t = trim_str(s.as_str());
            if t.len() > 0 {
                Some(string_of(t.as_slice()))
            } else {
                None
            }
        },
        None => None,
    }
}

fn field_rows(items: &[Json], entity_id: &Vec<char>, module_id: &Vec<char>) -> (r: Vec<FieldRow>)
    ensures
        r@.len() == named_indices(items@, "name"@).len(),
        forall|k: int|
            0 <= k < r@.len() ==> field_ok(
                #[trigger] r@[k],
                items@[named_indices(items@, "name"@)[k]],
                named_indices(items@, "name"@)[k],
                entity_id@,
                module_id@,
            ),
{
    let mut rows: Vec<FieldRow> = Vec::new();
    let mut i: usize = 0;
    while i < items.len()
        invariant
            i <= items.len(),
            rows@.len() == named_indices(items@.take(i as int), "name"@).len(),
            forall|k: int|
                0 <= k < rows@.len() ==> field_ok(
                    #[trigger] rows@[k],
                    items@[named_indices(items@.take(i as int), "name"@)[k]],
                    named_indices(items@.take(i as int), "name"@)[k],
                    entity_id@,
                    module_id@,
                ),
        decreases items.len() - i,
    {
        proof {
            lemma_named_step(items@, "name"@, i as int);
        }
        if let Some(name) = text_exec(&items[i], "name") {
            rows.push(field_row(&items[i], name, i, entity_id, module_id));
        }
        i += 1;
    }
    assert(items@.take(items.len() as int) =~= items@);
    rows
}

fn state_rows(items: &[Json], entity_id: &Vec<char>) -> (r: Vec<StateRow>)
    ensures
        r@.len() == named_indices(items@, "name"@).len(),
        forall|k: int|
            0 <= k < r@.len() ==> state_ok(
                #[trigger] r@[k],
                items@[named_indices(items@, "name"@)[k]],
                named_indices(items@, "name"@)[k],
                entity_id@,
            ),
{
    let mut rows: Vec<StateRow> = Vec::new();
    let mut i: usize = 0;
    while i < items.len()
        invariant
            i <= items.len(),
            rows@.len() == named_indices(items@.take(i as int), "name"@).len(),
            forall|k: int|
                0 <= k < rows@.len() ==> state_ok(
                    #[trigger] rows@[k],
                    items@[named_indices(items@.take(i as int), "name"@)[k]],
                    named_indices(items@.take(i as int), "name"@)[k],
                    entity_id@,
                ),
        decreases items.len() - i,
    {
        proof {
            lemma_named_step(items@, "name"@, i as int);
        }
        if let Some(name) = text_exec(&items[i], "name") {
            let label = match text_exec(&items[i], "label") {
                Some(l) => l,
                None => name.clone(),
            };
            rows.push(
                StateRow {
                    id: joined(entity_id, "_", &name),
                    name: string_of(name.as_slice()),
                    label: string_of(label.as_slice()),
                    position: i,
                },
            );
        }
        i += 1;
    }
    assert(items@.take(items.len() as int) =~= items@);
    rows
}

fn transition_rows(items: &[Json], entity_id: &Vec<char>) -> (r: Vec<TransitionRow>)
    ensures
        r@.len() == transition_indices(items@).len(),
        forall|k: int|
            0 <= k < r@.len() ==> transition_ok(
                #[trigger] r@[k],
                items@[transition_indices(items@)[k]],
                entity_id@,
            ),
{
    let mut rows: Vec<TransitionRow> = Vec::new();
    let mut i: usize = 0;
    while i < items.len()
        invariant
            i <= items.len(),
            rows@.len() == transition_indices(items@.take(i as int)).len(),
            forall|k: int|
                0 <= k < rows@.len() ==> transition_ok(
                    #[trigger] rows@[k],
                    items@[transition_indices(items@.take(i as int))[k]],
                    entity_id@,
                ),
        decreases items.len() - i,
    {
        proof {
            lemma_transition_step(items@, i as int);
        }
        match (
            text_exec(&items[i], "from_state"),
            text_exec(&items[i], "to_state"),
            text_exec(&items[i], "action"),
        ) {
            (Some(from), Some(to), Some(action)) => {
                let mut id = chars_of(joined(entity_id, "_", &from).as_str());
                push_str(&mut id, "_");
                push_all(&mut id, &action);
                rows.push(
                    TransitionRow {
                        id: string_of(id.as_slice()),
                        from_state: string_of(from.as_slice()),
                        to_state: string_of(to.as_slice()),
                        action: string_of(action.as_slice()),
                    },
                );
            },
            _ => {},
        }
        i += 1;
    }
    assert(items@.take(items.len() as int) =~= items@);
    rows
}

fn config_rows(items: &[Json], prefix: &Vec<char>) -> (r: Vec<ConfigRow>)
    ensures
        r@.len() == named_indices(items@, "name"@).len(),
        forall|k: int|
            0 <= k < r@.len() ==> config_row_ok(
                #[trigger] r@[k],
                items@[named_indices(items@, "name"@)[k]],
                prefix@,
            ),
{
    let mut rows: Vec<ConfigRow> = Vec::new();
    let mut i: usize = 0;
    while i < items.len()
        invariant
            i <= items.len(),
            rows@.len() == named_indices(items@.take(i as int), "name"@).len(),
            forall|k: int|
                0 <= k < rows@.len() ==> config_row_ok(
                    #[trigger] rows@[k],
                    items@[named_indices(items@.take(i as int), "name"@)[k]],
                    prefix@,
                ),
        decreases items.len() - i,
    {
        proof {
            lemma_named_step(items@, "name"@, i as int);
        }
        if let Some(name) = text_exec(&items[i], "name") {
            let name_s = string_of(name.as_slice());
            let slug_s = slugify_view_name(name_s.as_str());
            let config = match items[i].get("config") {
                Some(c) => clone_json(c),
                None => empty_object(),
            };
            let mut id = prefix.clone();
            push_str(&mut id, slug_s.as_str());
            rows.push(ConfigRow { id: string_of(id.as_slice()), name: name_s, config });
        }
        i += 1;
    }
    assert(items@.take(items.len() as int) =~= items@);
    rows
}

fn rule_rows(items: &[Json]) -> (r: Vec<RuleRow>)
    ensures
        r@.len() == named_indices(items@, "target_url"@).len(),
        forall|k: int|
            0 <= k < r@.len() ==> rule_ok(#[trigger] r@[k], items@[named_indices(items@, "target_url"@)[k]]),
{
    let mut rows: Vec<RuleRow> = Vec::new();
    let mut i: usize = 0;
    while i < items.len()
        invariant
            i <= items.len(),
            rows@.len() == named_indices(items@.take(i as int), "target_url"@).len(),
            forall|k: int|
                0 <= k < rows@.len() ==> rule_ok(
                    #[trigger] rows@[k],
                    items@[named_indices(items@.take(i as int), "target_url"@)[k]],
                ),
        decreases items.len() - i,
    {
        proof {
            lemma_named_step(items@, "target_url"@, i as int);
        }
        if let Some(url) = text_exec(&items[i], "target_url") {
            let trigger = match items[i].get("trigger") {
                Some(Json::String(t)) => t.clone(),
                _ => string_from("transition"),
            };
            let active = match items[i].get_bool("active") {
                Some(b) => b,
                None => true,
            };
            rows.push(RuleRow { trigger, target_url: string_of(url.as_slice()), active });
        }
        i += 1;
    }
    assert(items@.take(items.len() as int) =~= items@);
    rows
}

fn entity_plan(e: &Json, name: Vec<char>, module: &Module) -> (r: EntityPlan)
    requires
        text_of(*e, "name"@) == Some(name@),
    ensures
        entity_plan_ok(r, *e, module.id@, module.label@),
{
    let module_id = chars_of(module.id.as_str());
    let entity_id = chars_of(joined(&module_id, "_", &name).as_str());
    let label = match text_exec(e, "label") {
        Some(l) => l,
        None => name.clone(),
    };
    let entity = EntityRow {
        id: string_of(entity_id.as_slice()),
        name: string_of(name.as_slice()),
        label: string_of(label.as_slice()),
        module_label: module.label.clone(),
        module_id: module.id.clone(),
    };
    let fields = field_rows(items_exec(e.get("fields")), &entity_id, &module_id);
    let workflow = e.get("workflow");
    let (states, transitions) = match workflow {
        Some(w) => (
            state_rows(items_exec(w.get("states")), &entity_id),
            transition_rows(items_exec(w.get("transitions")), &entity_id),
        ),
        None => {
            let s: Vec<StateRow> = Vec::new();
            let t: Vec<TransitionRow> = Vec::new();
            proof {
                assert(named_indices(Seq::<Json>::empty(), "name"@) =~= Seq::<int>::empty());
                assert(transition_indices(Seq::<Json>::empty()) =~= Seq::<int>::empty());
            }
            (s, t)
        },
    };
    let mut view_prefix = entity_id.clone();
    push_str(&mut view_prefix, "_view_");
    let views = config_rows(items_exec(e.get("views")), &view_prefix);
    let form_layout = match e.get("form_layout") {
        Some(l) => match l.get("config") {
            Some(c) => Some(clone_json(c)),
            None => Some(clone_json(l)),
        },
        None => None,
    };
    let mut report_prefix = entity_id.clone();
    push_str(&mut report_prefix, "_report_");
    let reports = config_rows(items_exec(e.get("reports")), &report_prefix);
    let rules = rule_rows(items_exec(e.get("notifications")));
    EntityPlan { entity, fields, states, transitions, views, form_layout, reports, rules }
}

/// The rows that publishing `module` writes (notification rules get their
/// ids from the store).
pub fn plan_module_materialization(module: &Module) -> (r: Vec<EntityPlan>)
    ensures
        module_plan_ok(r@, *module),
{
    let es = items_exec(module.definition.get("entities"));
    let mut plans: Vec<EntityPlan> = Vec::new();
    let mut i: usize = 0;
    while i < es.len()
        invariant
            i <= es.len(),
            es@ == items_of(get_spec(module.definition, "entities"@)),
            plans@.len() == named_indices(es@.take(i as int), "name"@).len(),
            forall|k: int|
                0 <= k < plans@.len() ==> entity_plan_ok(
                    #[trigger] plans@[k],
                    es@[named_indices(es@.take(i as int), "name"@)[k]],
                    module.id@,
                    module.label@,
                ),
        decreases es.len() - i,
    {
        proof {
            lemma_named_step(es@, "name"@, i as int);
        }
        if let Some(name) = text_exec(&es[i], "name") {
            plans.push(entity_plan(&es[i], name, module));
        }
        i += 1;
    }
    assert(es@.take(es.len() as int) =~= es@);
    plans
}

} // verus!
