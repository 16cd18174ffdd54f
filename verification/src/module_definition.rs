//! Validation of a module definition: its entities, their fields and their
//! workflows, checked in order, the first problem reported.
use vstd::prelude::*;
use crate::error::{bad_request, message_of, AppError};
use crate::field_rules::{
    declared_rules, field_rules_from_definition, nonblank, rules_error, validate_field_rules,
};
use crate::json::{bool_of, get_spec, str_of, Json};
use crate::metadata::is_valid_field_type;
use crate::repository::{
    computed_field_error, snake_case, validate_computed_field, validate_field_name,
    validate_module_name,
};
use crate::text::{chars_of, push_all, push_str, seq_eq, seq_is, string_of, trim_str, vec_views};

verus! {

broadcast use vstd::string::group_string_axioms;

// ---------------------------------------------------------------------------
// What a definition must satisfy
// ---------------------------------------------------------------------------

/// The text of an optional member, or `d` when it is not a string.
pub open spec fn str_or(v: Option<Json>, d: Seq<char>) -> Seq<char> {
    match str_of(v) {
        Some(s) => s,
        None => d,
    }
}

/// The trimmed, non-empty name of an entity.
pub open spec fn entity_name(e: Json) -> Option<Seq<char>> {
    nonblank(str_of(get_spec(e, "name"@)))
}

/// The problem with the name of entity `i`, given the entities before it.
pub open spec fn name_error(es: Seq<Json>, i: int) -> Option<Seq<char>> {
    match entity_name(es[i]) {
        None => Some("each entity requires a name"@),
        Some(n) => if !snake_case(n) {
            Some("module name must be lowercase snake_case (e.g. vehicle)"@)
        } else if exists|j: int| 0 <= j < i && entity_name(#[trigger] es[j]) == Some(n) {
            Some("duplicate entity: "@ + n)
        } else {
            None
        },
    }
}

/// The first problem among the names of the first `n` entities.
pub open spec fn names_error_upto(es: Seq<Json>, n: int) -> Option<Seq<char>>
    decreases n,
{
    if n <= 0 {
        None
    } else if names_error_upto(es, n - 1) is Some {
        names_error_upto(es, n - 1)
    } else {
        name_error(es, n - 1)
    }
}

/// The entity names that a definition declares, in order.
pub open spec fn declared_names(es: Seq<Json>) -> Seq<Seq<char>> {
    es.map_values(|e: Json| entity_name(e)->0)
}

pub open spec fn is_status(f: Json) -> bool {
    bool_of(get_spec(f, "is_status"@)) == Some(true)
}

/// The problem with a field of entity `name`, if any.
pub open spec fn field_error(f: Json, name: Seq<char>, names: Seq<Seq<char>>) -> Option<Seq<char>> {
    let t = str_or(get_spec(f, "type"@), "text"@);
    let target = nonblank(str_of(get_spec(f, "ref_entity"@)));
    match nonblank(str_of(get_spec(f, "name"@))) {
        None => Some("entity "@ + name + " has a field without a name"@),
        Some(fname) => if !snake_case(fname) {
            Some("field name must be lowercase snake_case (e.g. work_order)"@)
        } else if !is_valid_field_type(t) {
            Some("invalid field type: "@ + t)
        } else if is_status(f) && t != "select"@ {
            Some("status field must be of type select: "@ + name + "."@ + fname)
        } else if t == "reference"@ && target is None {
            Some("reference field requires ref_entity: "@ + name + "."@ + fname)
        } else if t == "reference"@ && target->0 == name {
            Some("reference field cannot point at its own entity: "@ + name + "."@ + fname)
        } else if t == "reference"@ && !names.contains(target->0) {
            Some("unknown ref_entity "@ + target->0 + " in "@ + name + "."@ + fname)
        } else if t == "computed"@ && computed_field_error(
            "computed"@,
            Some(str_or(get_spec(f, "computed_expr"@), Seq::empty())),
        ) is Some {
            computed_field_error("computed"@, Some(str_or(get_spec(f, "computed_expr"@), Seq::empty())))
        } else {
            rules_error(t, declared_rules(f))
        },
    }
}

pub open spec fn fields_error_upto(fs: Seq<Json>, name: Seq<char>, names: Seq<Seq<char>>, n: int) -> Option<Seq<char>>
    decreases n,
{
    if n <= 0 {
        None
    } else if fields_error_upto(fs, name, names, n - 1) is Some {
        fields_error_upto(fs, name, names, n - 1)
    } else {
        field_error(fs[n - 1], name, names)
    }
}

pub open spec fn status_count(fs: Seq<Json>) -> nat
    decreases fs.len(),
{
    if fs.len() == 0 {
        0
    } else {
        status_count(fs.drop_last()) + if is_status(fs.last()) {
            1nat
        } else {
            0nat
        }
    }
}

/// The `name` members of the items that have a string one, in order.
pub open spec fn member_names(ss: Seq<Json>) -> Seq<Seq<char>>
    decreases ss.len(),
{
    if ss.len() == 0 {
        Seq::empty()
    } else {
        match str_of(get_spec(ss.last(), "name"@)) {
            Some(n) => member_names(ss.drop_last()).push(n),
            None => member_names(ss.drop_last()),
        }
    }
}

pub open spec fn workflow_states(w: Json) -> Seq<Seq<char>> {
    match get_spec(w, "states"@) {
        Some(Json::Array(ss)) => member_names(ss@),
        _ => Seq::empty(),
    }
}

pub open spec fn transition_error(t: Json, states: Seq<Seq<char>>, name: Seq<char>) -> Option<Seq<char>> {
    let from = str_or(get_spec(t, "from_state"@), Seq::empty());
    let to = str_or(get_spec(t, "to_state"@), Seq::empty());
    if from == to {
        Some("from_state and to_state must differ in "@ + name)
    } else if !states.contains(from) {
        Some("unknown state "@ + from + " in "@ + name)
    } else if !states.contains(to) {
        Some("unknown state "@ + to + " in "@ + name)
    } else {
        None
    }
}

pub open spec fn transitions_error_upto(ts: Seq<Json>, states: Seq<Seq<char>>, name: Seq<char>, n: int) -> Option<Seq<char>>
    decreases n,
{
    if n <= 0 {
        None
    } else if transitions_error_upto(ts, states, name, n - 1) is Some {
        transitions_error_upto(ts, states, name, n - 1)
    } else {
        transition_error(ts[n - 1], states, name)
    }
}

pub open spec fn workflow_error(e: Json, name: Seq<char>) -> Option<Seq<char>> {
    match get_spec(e, "workflow"@) {
        Some(w) => match get_spec(w, "transitions"@) {
            Some(Json::Array(ts)) => transitions_error_upto(
                ts@,
                workflow_states(w),
                name,
                ts@.len() as int,
            ),
            _ => None,
        },
        None => None,
    }
}

/// The first problem with an entity, given the names of all entities.
pub open spec fn entity_error(e: Json, names: Seq<Seq<char>>) -> Option<Seq<char>> {
    let name = str_or(get_spec(e, "name"@), Seq::empty());
    match get_spec(e, "fields"@) {
        Some(Json::Array(fs)) => {
            let fe = fields_error_upto(fs@, name, names, fs@.len() as int);
            if fe is Some {
                fe
            } else if status_count(fs@) > 1 {
                Some("entity "@ + name + " must have at most one status field"@)
            } else {
                workflow_error(e, name)
            }
        },
        _ => Some("entity "@ + name + " requires a fields array"@),
    }
}

pub open spec fn entities_error_upto(es: Seq<Json>, names: Seq<Seq<char>>, n: int) -> Option<Seq<char>>
    decreases n,
{
    if n <= 0 {
        None
    } else if entities_error_upto(es, names, n - 1) is Some {
        entities_error_upto(es, names, n - 1)
    } else {
        entity_error(es[n - 1], names)
    }
}

/// The first problem with a module definition, as the message of the bad
/// request that reports it; `None` for a valid definition.
pub open spec fn definition_error(d: Json) -> Option<Seq<char>> {
    match get_spec(d, "entities"@) {
        Some(Json::Array(es)) => if es@.len() == 0 {
            Some("definition must declare at least one entity"@)
        } else if names_error_upto(es@, es@.len() as int) is Some {
            names_error_upto(es@, es@.len() as int)
        } else {
            entities_error_upto(es@, declared_names(es@), es@.len() as int)
        },
        _ => Some("definition.entities must be an array"@),
    }
}

// ---------------------------------------------------------------------------
// Once a problem is found, later items do not change which one is reported
// ---------------------------------------------------------------------------

proof fn lemma_names_stable(es: Seq<Json>, i: int, n: int)
    requires
        0 <= i <= n,
        names_error_upto(es, i) is Some,
    ensures
        names_error_upto(es, n) == names_error_upto(es, i),
    decreases n - i,
{
    if n > i {
        lemma_names_stable(es, i, n - 1);
    }
}

proof fn lemma_fields_stable(fs: Seq<Json>, name: Seq<char>, names: Seq<Seq<char>>, i: int, n: int)
    requires
        0 <= i <= n,
        fields_error_upto(fs, name, names, i) is Some,
    ensures
        fields_error_upto(fs, name, names, n) == fields_error_upto(fs, name, names, i),
    decreases n - i,
{
    if n > i {
        lemma_fields_stable(fs, name, names, i, n - 1);
    }
}

proof fn lemma_transitions_stable(ts: Seq<Json>, states: Seq<Seq<char>>, name: Seq<char>, i: int, n: int)
    requires
        0 <= i <= n,
        transitions_error_upto(ts, states, name, i) is Some,
    ensures
        transitions_error_upto(ts, states, name, n) == transitions_error_upto(ts, states, name, i),
    decreases n - i,
{
    if n > i {
        lemma_transitions_stable(ts, states, name, i, n - 1);
    }
}

proof fn lemma_entities_stable(es: Seq<Json>, names: Seq<Seq<char>>, i: int, n: int)
    requires
        0 <= i <= n,
        entities_error_upto(es, names, i) is Some,
    ensures
        entities_error_upto(es, names, n) == entities_error_upto(es, names, i),
    decreases n - i,
{
    if n > i {
        lemma_entities_stable(es, names, i, n - 1);
    }
}

// ---------------------------------------------------------------------------
// The checks
// ---------------------------------------------------------------------------

fn bad(m: Vec<char>) -> (e: AppError)
    ensures
        e is BadRequest,
        message_of(e) == m@,
{
    AppError::BadRequest(string_of(m.as_slice()))
}

fn cat(a: Vec<char>, b: &Vec<char>) -> (r: Vec<char>)
    ensures
        r@ == a@ + b@,
{
    let mut a = a;
    push_all(&mut a, b);
    a
}

fn cat_str(a: Vec<char>, b: &str) -> (r: Vec<char>)
    ensures
        r@ == a@ + b@,
{
    let mut a = a;
    push_str(&mut a, b);
    a
}

fn nonblank_of(v: Option<&String>) -> (r: Option<Vec<char>>)
    ensures
        match r {
            Some(t) => nonblank(str_of(match v {
                Some(s) => Some(Json::String(*s)),
                None => None,
            })) == Some(t@),
            None => nonblank(str_of(match v {
                Some(s) => Some(Json::String(*s)),
                None => None,
            })) is None,
        },
{
    match v {
        Some(s) => {
            let t = trim_str(s.as_str());
            if t.len() > 0 {
                Some(t)
            } else {
                None
            }
        },
        None => None,
    }
}

/// The trimmed non-empty text of member `k`, if it is a string.
fn member_nonblank(v: &Json, k: &str) -> (r: Option<Vec<char>>)
    ensures
        match r {
            Some(t) => nonblank(str_of(get_spec(*v, k@))) == Some(t@),
            None => nonblank(str_of(get_spec(*v, k@))) is None,
        },
{
    match v.get(k) {
        Some(Json::String(s)) => nonblank_of(Some(s)),
        _ => None,
    }
}

/// The text of member `k`, or `d`.
fn member_or(v: &Json, k: &str, d: &str) -> (r: Vec<char>)
    ensures
        r@ == str_or(get_spec(*v, k@), d@),
{
    match v.get(k) {
        Some(Json::String(s)) => chars_of(s.as_str()),
        _ => chars_of(d),
    }
}

fn contains_text(names: &Vec<Vec<char>>, n: &Vec<char>) -> (r: bool)
    ensures
        r == vec_views(names@).contains(n@),
{
    let mut j: usize = 0;
    while j < names.len()
        invariant
            j <= names.len(),
            forall|k: int| 0 <= k < j ==> names@[k]@ != n@,
        decreases names.len() - j,
    {
        if seq_eq(&names[j], n) {
            assert(vec_views(names@)[j as int] == n@);
            return true;
        }
        j += 1;
    }
    assert forall|k: int| 0 <= k < vec_views(names@).len() implies vec_views(names@)[k] != n@ by {
        assert(vec_views(names@)[k] == names@[k]@);
    }
    false
}

/// Checks the entity names in order; returns them, trimmed.
fn check_entity_names(es: &Vec<Json>) -> (r: Result<Vec<Vec<char>>, AppError>)
    ensures
        match names_error_upto(es@, es@.len() as int) {
            None => r matches Ok(names) && vec_views(names@) == declared_names(es@),
            Some(m) => r matches Err(e) && e is BadRequest && message_of(e) == m,
        },
{
    let mut names: Vec<Vec<char>> = Vec::new();
    let mut i: usize = 0;
    while i < es.len()
        invariant
            i <= es.len(),
            names_error_upto(es@, i as int) is None,
            names@.len() == i,
            forall|k: int| 0 <= k < i ==> entity_name(es@[k]) == Some(#[trigger] names@[k]@),
        decreases es.len() - i,
    {
        let n = match member_nonblank(&es[i], "name") {
            Some(n) => n,
            None => {
                proof {
                    lemma_names_stable(es@, i + 1, es@.len() as int);
                }
                return Err(bad_request("each entity requires a name"));
            },
        };
        let s = string_of(n.as_slice());
        if validate_module_name(s.as_str()).is_err() {
            proof {
                lemma_names_stable(es@, i + 1, es@.len() as int);
            }
            return Err(bad_request("module name must be lowercase snake_case (e.g. vehicle)"));
        }
        if contains_text(&names, &n) {
            let ghost j = choose|j: int| 0 <= j < vec_views(names@).len() && vec_views(names@)[j] == n@;
            assert(entity_name(es@[j]) == Some(n@));
            let m = cat(chars_of("duplicate entity: "), &n);
            proof {
                lemma_names_stable(es@, i + 1, es@.len() as int);
            }
            return Err(bad(m));
        }
        assert forall|j: int| 0 <= j < i implies entity_name(#[trigger] es@[j]) != Some(n@) by {
            assert(vec_views(names@)[j] == names@[j]@);
        }
        names.push(n);
        i += 1;
    }
    assert(vec_views(names@) =~= declared_names(es@)) by {
        assert forall|k: int| 0 <= k < es@.len() implies vec_views(names@)[k] == declared_names(es@)[k] by {
            assert(entity_name(es@[k]) == Some(names@[k]@));
        }
    }
    Ok(names)
}

fn check_field(f: &Json, name: &Vec<char>, names: &Vec<Vec<char>>) -> (r: Result<(), AppError>)
    ensures
        match field_error(*f, name@, vec_views(names@)) {
            None => r is Ok,
            Some(m) => r matches Err(e) && e is BadRequest && message_of(e) == m,
        },
{
    proof {
        reveal_strlit("");
        assert(""@ =~= Seq::<char>::empty());
        reveal_strlit("computed");
        reveal_strlit("reference");
        reveal_strlit("select");
    }
    let fname = match member_nonblank(f, "name") {
        Some(n) => n,
        None => {
            let m = cat_str(cat(chars_of("entity "), name), " has a field without a name");
            return Err(bad(m));
        },
    };
    let fname_s = string_of(fname.as_slice());
    match validate_field_name(fname_s.as_str()) {
        Ok(()) => {},
        Err(_) => {
            return Err(bad_request("field name must be lowercase snake_case (e.g. work_order)"));
        },
    }
    let t = member_or(f, "type", "text");
    let t_s = string_of(t.as_slice());
    match crate::metadata::validate_field_type(t_s.as_str()) {
        Ok(()) => {},
        Err(e) => {
            return Err(e);
        },
    }
    let qualified = cat(cat_str(name.clone(), "."), &fname);
    assert(qualified@ == name@ + "."@ + fname@);
    if f.get_bool("is_status") == Some(true) && !seq_is(&t, "select") {
        return Err(bad(cat(chars_of("status field must be of type select: "), &qualified)));
    }
    if seq_is(&t, "reference") {
        let target = match member_nonblank(f, "ref_entity") {
            Some(x) => x,
            None => {
                return Err(bad(cat(chars_of("reference field requires ref_entity: "), &qualified)));
            },
        };
        if seq_eq(&target, name) {
            return Err(
                bad(cat(chars_of("reference field cannot point at its own entity: "), &qualified)),
            );
        }
        if !contains_text(names, &target) {
            let m = cat(cat_str(cat(chars_of("unknown ref_entity "), &target), " in "), &qualified);
            assert(m@ == "unknown ref_entity "@ + target@ + " in "@ + name@ + "."@ + fname@);
            return Err(bad(m));
        }
    }
    if seq_is(&t, "computed") {
        let expr = member_or(f, "computed_expr", "");
        let expr_s = string_of(expr.as_slice());
        let expr_str = expr_s.as_str();
        assert(expr_str@ == expr@);
        match validate_computed_field("computed", Some(expr_str)) {
            Ok(()) => {},
            Err(e) => {
                return Err(e);
            },
        }
    }
    let rules = field_rules_from_definition(f);
    validate_field_rules(t_s.as_str(), &rules)
}

fn count_status(fs: &Vec<Json>) -> (c: usize)
    ensures
        c == status_count(fs@),
{
    let mut c: usize = 0;
    let mut i: usize = 0;
    while i < fs.len()
        invariant
            i <= fs.len(),
            c == status_count(fs@.take(i as int)),
            c <= i,
        decreases fs.len() - i,
    {
        assert(fs@.take(i + 1).drop_last() =~= fs@.take(i as int));
        if fs[i].get_bool("is_status") == Some(true) {
            c += 1;
        }
        i += 1;
    }
    assert(fs@.take(fs.len() as int) =~= fs@);
    c
}

fn collect_states(w: &Json) -> (r: Vec<Vec<char>>)
    ensures
        vec_views(r@) == workflow_states(*w),
{
    let mut out: Vec<Vec<char>> = Vec::new();
    match w.get_array("states") {
        Some(ss) => {
            let mut i: usize = 0;
            while i < ss.len()
                invariant
                    i <= ss.len(),
                    vec_views(out@) == member_names(ss@.take(i as int)),
                decreases ss.len() - i,
            {
                assert(ss@.take(i + 1).drop_last() =~= ss@.take(i as int));
                match ss[i].get_str("name") {
                    Some(n) => {
                        let ghost before = out@;
                        out.push(chars_of(n.as_str()));
                        assert(vec_views(out@) =~= vec_views(before).push(n@));
                    },
                    None => {},
                }
                i += 1;
            }
            assert(ss@.take(ss.len() as int) =~= ss@);
            out
        },
        None => out,
    }
}

fn check_workflow(e: &Json, name: &Vec<char>) -> (r: Result<(), AppError>)
    ensures
        match workflow_error(*e, name@) {
            None => r is Ok,
            Some(m) => r matches Err(x) && x is BadRequest && message_of(x) == m,
        },
{
    proof {
        reveal_strlit("");
        assert(""@ =~= Seq::<char>::empty());
    }
    let w = match e.get("workflow") {
        Some(w) => w,
        None => {
            return Ok(());
        },
    };
    let states = collect_states(w);
    let ts = match w.get_array("transitions") {
        Some(ts) => ts,
        None => {
            return Ok(());
        },
    };
    let mut i: usize = 0;
    while i < ts.len()
        invariant
            i <= ts.len(),
            transitions_error_upto(ts@, vec_views(states@), name@, i as int) is None,
            get_spec(*e, "workflow"@) == Some(*w),
            get_spec(*w, "transitions"@) == Some(Json::Array(*ts)),
            vec_views(states@) == workflow_states(*w),
        decreases ts.len() - i,
    {
        let from = member_or(&ts[i], "from_state", "");
        let to = member_or(&ts[i], "to_state", "");
        proof {
            reveal_strlit("");
            assert(""@ =~= Seq::<char>::empty());
            if transition_error(ts@[i as int], vec_views(states@), name@) is Some {
                lemma_transitions_stable(ts@, vec_views(states@), name@, i + 1, ts@.len() as int);
            }
        }
        if seq_eq(&from, &to) {
            return Err(bad(cat(chars_of("from_state and to_state must differ in "), name)));
        }
        if !contains_text(&states, &from) {
            return Err(bad(cat(cat_str(cat(chars_of("unknown state "), &from), " in "), name)));
        }
        if !contains_text(&states, &to) {
            return Err(bad(cat(cat_str(cat(chars_of("unknown state "), &to), " in "), name)));
        }
        i += 1;
    }
    Ok(())
}

fn check_entity(e: &Json, names: &Vec<Vec<char>>) -> (r: Result<(), AppError>)
    ensures
        match entity_error(*e, vec_views(names@)) {
            None => r is Ok,
            Some(m) => r matches Err(x) && x is BadRequest && message_of(x) == m,
        },
{
    proof {
        reveal_strlit("");
        assert(""@ =~= Seq::<char>::empty());
    }
    let name = member_or(e, "name", "");
    let fs = match e.get_array("fields") {
        Some(fs) => fs,
        None => {
            return Err(bad(cat_str(cat(chars_of("entity "), &name), " requires a fields array")));
        },
    };
    let mut j: usize = 0;
    while j < fs.len()
        invariant
            j <= fs.len(),
            fields_error_upto(fs@, name@, vec_views(names@), j as int) is None,
            get_spec(*e, "fields"@) == Some(Json::Array(*fs)),
            name@ == str_or(get_spec(*e, "name"@), Seq::empty()),
        decreases fs.len() - j,
    {
        match check_field(&fs[j], &name, names) {
            Ok(()) => {},
            Err(x) => {
                proof {
                    lemma_fields_stable(fs@, name@, vec_views(names@), j + 1, fs@.len() as int);
                }
                return Err(x);
            },
        }
        j += 1;
    }
    if count_status(fs) > 1 {
        return Err(
            bad(cat_str(cat(chars_of("entity "), &name), " must have at most one status field")),
        );
    }
    check_workflow(e, &name)
}

/// Validates a module definition: entities with snake_case names, known
/// field types, reference targets among the definition's own entities and
/// never the entity itself, at most one status field per entity, coherent
/// field rules, and transitions between declared workflow states.
pub fn validate_module_definition(definition: &Json) -> (r: Result<(), AppError>)
    ensures
        match definition_error(*definition) {
            None => r is Ok,
            Some(m) => r matches Err(e) && e is BadRequest && message_of(e) == m,
        },
{
    let es = match definition.get_array("entities") {
        Some(es) => es,
        None => {
            return Err(bad_request("definition.entities must be an array"));
        },
    };
    if es.len() == 0 {
        return Err(bad_request("definition must declare at least one entity"));
    }
    let names = match check_entity_names(es) {
        Ok(names) => names,
        Err(e) => {
            return Err(e);
        },
    };
    let mut i: usize = 0;
    while i < es.len()
        invariant
            i <= es.len(),
            vec_views(names@) == declared_names(es@),
            entities_error_upto(es@, declared_names(es@), i as int) is None,
            get_spec(*definition, "entities"@) == Some(Json::Array(*es)),
            es@.len() > 0,
            names_error_upto(es@, es@.len() as int) is None,
        decreases es.len() - i,
    {
        match check_entity(&es[i], &names) {
            Ok(()) => {},
            Err(e) => {
                proof {
                    lemma_entities_stable(es@, declared_names(es@), i + 1, es@.len() as int);
                }
                return Err(e);
            },
        }
        i += 1;
    }
    Ok(())
}

/// The items of an array member of a JSON value; none when the member is
/// missing or not an array.
pub open spec fn array_items(v: Json, k: Seq<char>) -> Seq<Json> {
    match get_spec(v, k) {
        Some(Json::Array(xs)) => xs@,
        _ => Seq::empty(),
    }
}

proof fn lemma_entities_each(es: Seq<Json>, names: Seq<Seq<char>>, n: int, k: int)
    requires
        0 <= k < n <= es.len(),
        entities_error_upto(es, names, n) is None,
    ensures
        entity_error(es[k], names) is None,
    decreases n,
{
    if k < n - 1 {
        lemma_entities_each(es, names, n - 1, k);
    }
}

proof fn lemma_transitions_each(ts: Seq<Json>, states: Seq<Seq<char>>, name: Seq<char>, n: int, k: int)
    requires
        0 <= k < n <= ts.len(),
        transitions_error_upto(ts, states, name, n) is None,
    ensures
        transition_error(ts[k], states, name) is None,
    decreases n,
{
    if k < n - 1 {
        lemma_transitions_each(ts, states, name, n - 1, k);
    }
}

/// In an accepted definition, every transition of an entity's workflow goes
/// between two different states that the workflow declares by name.
pub proof fn lemma_transitions_use_declared_states(d: Json, i: int, e: Json, w: Json, j: int, t: Json)
    requires
        definition_error(d) is None,
        0 <= i < array_items(d, "entities"@).len(),
        e == array_items(d, "entities"@)[i],
        get_spec(e, "workflow"@) == Some(w),
        0 <= j < array_items(w, "transitions"@).len(),
        t == array_items(w, "transitions"@)[j],
    ensures
        workflow_states(w).contains(str_or(get_spec(t, "from_state"@), Seq::empty())),
        workflow_states(w).contains(str_or(get_spec(t, "to_state"@), Seq::empty())),
        str_or(get_spec(t, "from_state"@), Seq::empty()) != str_or(get_spec(t, "to_state"@), Seq::empty()),
{
    let es = array_items(d, "entities"@);
    lemma_entities_each(es, declared_names(es), es.len() as int, i);
    let name = str_or(get_spec(e, "name"@), Seq::empty());
    assert(workflow_error(e, name) is None);
    let ts = array_items(w, "transitions"@);
    lemma_transitions_each(ts, workflow_states(w), name, ts.len() as int, j);
}

} // verus!
