//! Moving a document along its workflow: the status field, the transition
//! an action takes from the current status, and the payload the document is
//! stored with afterwards.
use vstd::prelude::*;
use crate::actions::{applied_member, apply_action_payload};
use crate::error::{bad_request, message_of, AppError};
use crate::json::{get_spec, member, opt_jv, str_of, Json, JsonV};
use crate::repository::{Field, WorkflowTransition};
use crate::text::{chars_of, push_all, push_str, str_eq, string_of, string_views};

verus! {

broadcast use vstd::string::group_string_axioms;

/// Index of the first status field.
pub open spec fn status_field_index(fields: Seq<Field>, from: int) -> Option<int>
    decreases fields.len() - from,
{
    if from < 0 || from >= fields.len() {
        None
    } else if fields[from].is_status {
        Some(from)
    } else {
        status_field_index(fields, from + 1)
    }
}

/// Index of the first transition out of `state` under `action`.
pub open spec fn transition_index(ts: Seq<WorkflowTransition>, state: Seq<char>, action: Seq<char>, from: int) -> Option<
    int,
>
    decreases ts.len() - from,
{
    if from < 0 || from >= ts.len() {
        None
    } else if ts[from].from_state@ == state && ts[from].action@ == action {
        Some(from)
    } else {
        transition_index(ts, state, action, from + 1)
    }
}

/// Names of the computed fields, in order.
pub open spec fn computed_names(fields: Seq<Field>) -> Seq<Seq<char>>
    decreases fields.len(),
{
    if fields.len() == 0 {
        Seq::empty()
    } else if fields.last().field_type@ == "computed"@ {
        computed_names(fields.drop_last()).push(fields.last().name@)
    } else {
        computed_names(fields.drop_last())
    }
}

/// Member `k` of the payload after a transition to `target`: none for a
/// computed field, the target for the status field, else the stored member.
pub open spec fn transitioned_member(
    stored: Seq<(String, Json)>,
    fields: Seq<Field>,
    status: Seq<char>,
    target: Seq<char>,
    k: Seq<char>,
) -> Option<JsonV> {
    if computed_names(fields).contains(k) {
        None
    } else if k == status {
        Some(JsonV::String(target))
    } else {
        opt_jv(member(stored, k))
    }
}

/// What a transition does to a document.
pub struct TransitionPlan {
    pub status_field: String,
    pub current: String,
    pub target: String,
    pub payload: Json,
}

/// The text of the refusal when no transition leaves `current` under
/// `action`.
pub open spec fn invalid_transition_message(current: Seq<char>, action: Seq<char>) -> Seq<char> {
    "invalid transition: "@ + current + " cannot "@ + action
}

fn find_status_field(fields: &Vec<Field>) -> (r: Option<usize>)
    ensures
        match r {
            Some(i) => status_field_index(fields@, 0) == Some(i as int) && i < fields@.len(),
            None => status_field_index(fields@, 0) is None,
        },
{
    let mut i: usize = 0;
    while i < fields.len()
        invariant
            i <= fields.len(),
            status_field_index(fields@, 0) == status_field_index(fields@, i as int),
        decreases fields.len() - i,
    {
        if fields[i].is_status {
            return Some(i);
        }
        i += 1;
    }
    None
}

fn find_transition(ts: &Vec<WorkflowTransition>, state: &str, action: &str) -> (r: Option<usize>)
    ensures
        match r {
            Some(i) => transition_index(ts@, state@, action@, 0) == Some(i as int) && i < ts@.len(),
            None => transition_index(ts@, state@, action@, 0) is None,
        },
{
    let mut i: usize = 0;
    while i < ts.len()
        invariant
            i <= ts.len(),
            transition_index(ts@, state@, action@, 0) == transition_index(ts@, state@, action@, i as int),
        decreases ts.len() - i,
    {
        if str_eq(ts[i].from_state.as_str(), state) && str_eq(ts[i].action.as_str(), action) {
            return Some(i);
        }
        i += 1;
    }
    None
}

fn computed_field_names(fields: &Vec<Field>) -> (r: Vec<String>)
    ensures
        string_views(r@) == computed_names(fields@),
{
    let mut out: Vec<String> = Vec::new();
    let mut i: usize = 0;
    while i < fields.len()
        invariant
            i <= fields.len(),
            string_views(out@) == computed_names(fields@.take(i as int)),
        decreases fields.len() - i,
    {
        assert(fields@.take(i + 1).drop_last() =~= fields@.take(i as int));
        if str_eq(fields[i].field_type.as_str(), "computed") {
            let ghost before = out@;
            out.push(fields[i].name.clone());
            assert(string_views(out@) =~= string_views(before).push(fields@[i as int].name@));
        }
        i += 1;
    }
    assert(fields@.take(fields.len() as int) =~= fields@);
    out
}

/// Decides the transition of a document under `action`: the first status
/// field names the status, the payload's string under it is the current
/// state, and the first transition out of that state under the action
/// gives the target. The payload then takes the target as its status and
/// loses its computed members (they are derived again when read).
pub fn plan_transition(fields: &Vec<Field>, payload: &Json, transitions: &Vec<WorkflowTransition>, action: &str) -> (r:
    Result<TransitionPlan, AppError>)
    ensures
        match status_field_index(fields@, 0) {
            None => r matches Err(e) && e is BadRequest && message_of(e) == "entity has no status field"@,
            Some(si) => match str_of(get_spec(*payload, fields@[si].name@)) {
                None => r matches Err(e) && e is BadRequest && message_of(e) == "document has no status"@,
                Some(cur) => match transition_index(transitions@, cur, action@, 0) {
                    None => r matches Err(e) && e is BadRequest && message_of(e)
                        == invalid_transition_message(cur, action@),
                    Some(ti) => r matches Ok(p) && p.status_field@ == fields@[si].name@ && p.current@ == cur
                        && p.target@ == transitions@[ti].to_state@ && p.payload is Object && (forall|k: Seq<char>|
                        opt_jv(#[trigger] member(p.payload->Object_0@, k)) == transitioned_member(
                            payload->Object_0@,
                            fields@,
                            fields@[si].name@,
                            transitions@[ti].to_state@,
                            k,
                        )),
                },
            },
        },
{
    let si = match find_status_field(fields) {
        Some(i) => i,
        None => {
            return Err(bad_request("entity has no status field"));
        },
    };
    let name = &fields[si].name;
    let current = match payload.get_str(name.as_str()) {
        Some(s) => s.clone(),
        _ => {
            return Err(bad_request("document has no status"));
        },
    };
    let ti = match find_transition(transitions, current.as_str(), action) {
        Some(i) => i,
        None => {
            let mut m = chars_of("invalid transition: ");
            push_all(&mut m, &chars_of(current.as_str()));
            push_str(&mut m, " cannot ");
            push_str(&mut m, action);
            return Err(AppError::BadRequest(string_of(m.as_slice())));
        },
    };
    let target = transitions[ti].to_state.clone();
    let status = Json::Object(vec![(name.clone(), Json::String(target.clone()))]);
    let computed = computed_field_names(fields);
    let next = apply_action_payload(payload, Some(&status), &computed);
    proof {
        let s = payload->Object_0@;
        let one = status->Object_0@;
        assert(one.len() == 1 && one[0].0@ == name@);
        assert forall|k: Seq<char>| opt_jv(#[trigger] member(next->Object_0@, k)) == transitioned_member(
            s,
            fields@,
            name@,
            target@,
            k,
        ) by {
            assert(one.drop_first() =~= Seq::<(String, Json)>::empty());
            assert(member(one.drop_first(), k) is None);
            if k == name@ {
                assert(member(one, k) == Some(Json::String(target)));
            } else {
                assert(member(one, k) is None);
            }
            assert(applied_member(s, Some(status), string_views(computed@), k) == transitioned_member(
                s,
                fields@,
                name@,
                target@,
                k,
            ));
        }
    }
    Ok(TransitionPlan { status_field: name.clone(), current, target, payload: next })
}

} // verus!
