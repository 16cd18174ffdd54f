//! The built-in record actions: what each asks of the store, decided from
//! the request, and the payload an action leaves on a document.
use vstd::prelude::*;
use crate::error::{bad_request, message_of, AppError};
use crate::field_rules::nonblank;
use crate::json::{clone_json, get_spec, jv, member, opt_jv, str_of, Json, JsonV};
use crate::payload::{merge_editable_payload, merged_member};
use crate::records::{action_label, module_action_definition};
use crate::text::{chars_of, push_str, str_eq, string_from, string_of, string_views, trim_str};

verus! {

broadcast use vstd::string::group_string_axioms;

/// What an action asks of the store.
pub enum ActionStep {
    /// Run the workflow transition (second) on the document (first).
    Transition(String, String),
    /// Create a document with this body, under the given id or, when none
    /// is given, a fresh one.
    Create(Option<String>, Json),
    /// Update the document with this partial body.
    Update(String, Json),
    /// Apply a business action (`post`, `allocate`, ...) to the document.
    Apply(String),
}

pub open spec fn opt_view(o: Option<&str>) -> Option<Seq<char>> {
    match o {
        Some(s) => Some(s@),
        None => None,
    }
}

pub open spec fn opt_json(o: Option<&Json>) -> Option<Json> {
    match o {
        Some(j) => Some(*j),
        None => None,
    }
}

/// The body an action sends: the payload given, or an empty object.
pub open spec fn body_of(payload: Option<Json>) -> JsonV {
    match payload {
        Some(p) => jv(p),
        None => JsonV::Object(Seq::empty()),
    }
}

/// The step of a built-in action, or the message of the bad request that
/// refuses it (an unknown action, or a missing document id).
pub open spec fn action_step_ok(
    action_id: Seq<char>,
    document_id: Option<Seq<char>>,
    payload: Option<Json>,
    r: Result<ActionStep, AppError>,
) -> bool {
    let doc = nonblank(document_id);
    if action_label(action_id) is None {
        r matches Err(e) && e is BadRequest && message_of(e) == "unknown action: "@ + action_id
    } else if action_id == "transition"@ {
        match document_id {
            Some(d) => r matches Ok(ActionStep::Transition(id, t)) && id@ == d && t@ == (match payload {
                Some(p) => match str_of(get_spec(p, "action"@)) {
                    Some(a) => a,
                    None => action_id,
                },
                None => action_id,
            }),
            None => r matches Err(e) && e is BadRequest && message_of(e)
                == "transition requires a document id"@,
        }
    } else if action_id == "create"@ {
        r matches Ok(ActionStep::Create(id, body)) && (match id {
            Some(i) => doc == Some(i@),
            None => doc is None,
        }) && jv(body) == body_of(payload)
    } else if action_id == "update"@ {
        match doc {
            Some(d) => r matches Ok(ActionStep::Update(id, body)) && id@ == d && jv(body) == body_of(
                payload,
            ),
            None => r matches Err(e) && e is BadRequest && message_of(e)
                == "update requires a document id"@,
        }
    } else {
        match doc {
            Some(d) => r matches Ok(ActionStep::Apply(id)) && id@ == d,
            None => r matches Err(e) && e is BadRequest && message_of(e) == action_id
                + " requires a document id"@,
        }
    }
}

fn nonblank_id(document_id: Option<&str>) -> (r: Option<String>)
    ensures
        match r {
            Some(s) => nonblank(opt_view(document_id)) == Some(s@),
            None => nonblank(opt_view(document_id)) is None,
        },
{
    match document_id {
        Some(d) => {
            let t = trim_str(d);
            if t.len() > 0 {
                Some(string_of(t.as_slice()))
            } else {
                None
            }
        },
        None => None,
    }
}

fn body_exec(payload: Option<&Json>) -> (r: Json)
    ensures
        jv(r) == body_of(opt_json(payload)),
{
    match payload {
        Some(p) => clone_json(p),
        None => {
            let r = Json::Object(Vec::new());
            assert(jv(r) == JsonV::Object(Seq::empty())) by {
                assert(crate::json::members_v(Seq::<(String, Json)>::empty()) =~= Seq::empty());
            }
            r
        },
    }
}

/// Decides what a built-in action asks of the store.
pub fn plan_module_action(
    entity_id: &str,
    action_id: &str,
    document_id: Option<&str>,
    payload: Option<&Json>,
) -> (r: Result<ActionStep, AppError>)
    ensures
        action_step_ok(action_id@, opt_view(document_id), opt_json(payload), r),
{
    let action = match module_action_definition(entity_id, action_id) {
        Ok(a) => a,
        Err(e) => {
            return Err(e);
        },
    };
    if str_eq(action_id, "transition") {
        match document_id {
            Some(d) => {
                let t = match payload {
                    Some(p) => match p.get("action") {
                        Some(Json::String(a)) => a.clone(),
                        _ => string_from(action_id),
                    },
                    None => string_from(action_id),
                };
                return Ok(ActionStep::Transition(string_from(d), t));
            },
            None => {
                return Err(bad_request("transition requires a document id"));
            },
        }
    }
    if str_eq(action_id, "create") {
        return Ok(ActionStep::Create(nonblank_id(document_id), body_exec(payload)));
    }
    let doc = nonblank_id(document_id);
    if str_eq(action_id, "update") {
        match doc {
            Some(d) => {
                return Ok(ActionStep::Update(d, body_exec(payload)));
            },
            None => {
                return Err(bad_request("update requires a document id"));
            },
        }
    }
    match doc {
        Some(d) => Ok(ActionStep::Apply(d)),
        None => {
            let mut m = chars_of(action_id);
            push_str(&mut m, " requires a document id");
            Err(AppError::BadRequest(string_of(m.as_slice())))
        },
    }
}

/// The member `k` of the payload a business action leaves: none for a
/// computed field, else the request's member if it has one, else the
/// stored one.
pub open spec fn applied_member(
    stored: Seq<(String, Json)>,
    extra: Option<Json>,
    computed: Seq<Seq<char>>,
    k: Seq<char>,
) -> Option<JsonV> {
    if computed.contains(k) {
        None
    } else {
        match extra {
            Some(Json::Object(e)) => merged_member(stored, e@, k),
            _ => opt_jv(member(stored, k)),
        }
    }
}

/// Removes every member with key `k`.
fn remove_members(entries: &mut Vec<(String, Json)>, k: &String)
    ensures
        member(final(entries)@, k@) is None,
        forall|x: Seq<char>| x != k@ ==> opt_jv(#[trigger] member(final(entries)@, x)) == opt_jv(
            member(old(entries)@, x),
        ),
{
    let mut out: Vec<(String, Json)> = Vec::new();
    let mut i: usize = 0;
    while i < entries.len()
        invariant
            i <= entries.len(),
            entries@ == old(entries)@,
            member(out@, k@) is None,
            forall|x: Seq<char>|
                x != k@ ==> opt_jv(#[trigger] member(out@, x)) == opt_jv(
                    member(entries@.take(i as int), x),
                ),
        decreases entries.len() - i,
    {
        let ghost prefix = entries@.take(i as int);
        proof {
            lemma_member_append(prefix, entries@[i as int], k@);
            assert(entries@.take(i + 1) =~= prefix.push(entries@[i as int]));
        }
        if !str_eq(entries[i].0.as_str(), k.as_str()) {
            let ghost before = out@;
            out.push((entries[i].0.clone(), clone_json(&entries[i].1)));
            proof {
                lemma_member_append(before, out@[before.len() as int], k@);
                assert(out@ =~= before.push(out@[before.len() as int]));
                assert forall|x: Seq<char>| x != k@ implies opt_jv(#[trigger] member(out@, x)) == opt_jv(
                    member(entries@.take(i + 1), x),
                ) by {
                    lemma_member_append(before, out@[before.len() as int], x);
                    lemma_member_append(prefix, entries@[i as int], x);
                }
            }
        } else {
            proof {
                assert forall|x: Seq<char>| x != k@ implies opt_jv(#[trigger] member(out@, x)) == opt_jv(
                    member(entries@.take(i + 1), x),
                ) by {
                    lemma_member_append(prefix, entries@[i as int], x);
                }
            }
        }
        i += 1;
    }
    assert(entries@.take(entries.len() as int) =~= entries@);
    *entries = out;
}

/// `member` of a sequence with one more member at the end.
proof fn lemma_member_append(e: Seq<(String, Json)>, p: (String, Json), k: Seq<char>)
    ensures
        member(e.push(p), k) == if member(e, k) is Some {
            member(e, k)
        } else if p.0@ == k {
            Some(p.1)
        } else {
            None
        },
    decreases e.len(),
{
    if e.len() > 0 {
        assert(e.push(p).drop_first() =~= e.drop_first().push(p));
        assert(e.push(p)[0] == e[0]);
        lemma_member_append(e.drop_first(), p, k);
    } else {
        assert(e.push(p)[0] == p);
        assert(e.push(p).drop_first() =~= Seq::<(String, Json)>::empty());
        assert(member(e.push(p).drop_first(), k) is None);
        assert(member(e, k) is None);
    }
}

/// The payload a business action leaves on a document: the stored payload
/// with the request's members merged over it, and computed fields removed
/// (they are derived again when read). A stored payload that is not an
/// object is left as it is.
pub fn apply_action_payload(stored: &Json, extra: Option<&Json>, computed: &Vec<String>) -> (r: Json)
    ensures
        match *stored {
            Json::Object(s) => r is Object && forall|k: Seq<char>|
                opt_jv(#[trigger] member(r->Object_0@, k)) == applied_member(
                    s@,
                    opt_json(extra),
                    string_views(computed@),
                    k,
                ),
            _ => jv(r) == jv(*stored),
        },
{
    let s = match stored {
        Json::Object(s) => s,
        _ => {
            return clone_json(stored);
        },
    };
    let merged = match extra {
        Some(Json::Object(_)) => merge_editable_payload(stored, extra.unwrap()),
        _ => clone_json(stored),
    };
    let mut entries = match merged {
        Json::Object(e) => e,
        _ => Vec::new(),
    };
    proof {
        assert forall|k: Seq<char>| opt_jv(#[trigger] member(entries@, k)) == applied_member(
            s@,
            opt_json(extra),
            Seq::empty(),
            k,
        ) by {
            match extra {
                Some(Json::Object(_)) => {},
                _ => {
                    crate::repository::lemma_member_members_v(entries@, s@, k);
                },
            }
        }
    }
    let mut i: usize = 0;
    while i < computed.len()
        invariant
            i <= computed.len(),
            forall|k: Seq<char>|
                opt_jv(#[trigger] member(entries@, k)) == applied_member(
                    s@,
                    opt_json(extra),
                    string_views(computed@.take(i as int)),
                    k,
                ),
        decreases computed.len() - i,
    {
        let ghost before = entries@;
        remove_members(&mut entries, &computed[i]);
        proof {
            let prev = string_views(computed@.take(i as int));
            let c = computed@[i as int]@;
            assert(string_views(computed@.take(i + 1)) =~= prev.push(c));
            assert forall|k: Seq<char>|
                opt_jv(#[trigger] member(entries@, k)) == applied_member(
                    s@,
                    opt_json(extra),
                    string_views(computed@.take(i + 1)),
                    k,
                ) by {
                assert(prev.push(c).contains(k) == (prev.contains(k) || c == k)) by {
                    if c == k {
                        assert(prev.push(c)[prev.len() as int] == c);
                    }
                    if prev.contains(k) {
                        let j = choose|j: int| 0 <= j < prev.len() && prev[j] == k;
                        assert(prev.push(c)[j] == k);
                    }
                    if prev.push(c).contains(k) {
                        let j = choose|j: int| 0 <= j < prev.push(c).len() && prev.push(c)[j] == k;
                        if j < prev.len() {
                            assert(prev[j] == k);
                        }
                    }
                }
                if k != c {
                    assert(opt_jv(member(entries@, k)) == opt_jv(member(before, k)));
                }
            }
        }
        i += 1;
    }
    assert(computed@.take(computed.len() as int) =~= computed@);
    Json::Object(entries)
}

/// A business action (`post`, `allocate`, ...) on a stored document: the
/// document must belong to the entity the action is run for (`doc_entity`
/// is the entity the store holds it under); then the action's payload is
/// what `apply_action_payload` leaves.
pub fn business_action_payload(
    doc_entity: &str,
    entity_id: &str,
    stored: &Json,
    extra: Option<&Json>,
    computed: &Vec<String>,
) -> (r: Result<Json, AppError>)
    ensures
        doc_entity@ != entity_id@ ==> (r matches Err(e) && e is BadRequest && message_of(e)
            == "document belongs to another entity"@),
        doc_entity@ == entity_id@ ==> (r matches Ok(x) && match *stored {
            Json::Object(s) => x is Object && forall|k: Seq<char>|
                opt_jv(#[trigger] member(x->Object_0@, k)) == applied_member(
                    s@,
                    opt_json(extra),
                    string_views(computed@),
                    k,
                ),
            _ => jv(x) == jv(*stored),
        }),
{
    if !str_eq(doc_entity, entity_id) {
        return Err(bad_request("document belongs to another entity"));
    }
    Ok(apply_action_payload(stored, extra, computed))
}

} // verus!
