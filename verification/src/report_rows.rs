//! The rows a report runs over: each document's payload with its id under
//! `_id` and, for a report through a relation, the payloads of the linked
//! documents under `_relation`.
use vstd::prelude::*;
use crate::json::{clone_json, items_v, jv, member, opt_jv, Json, JsonV};
use crate::repository::insert_member;
use crate::text::{str_eq, string_from};

verus! {

broadcast use vstd::string::group_string_axioms;

/// The payload of the last target document with id `t`.
pub open spec fn target_payload(targets: Seq<(String, Json)>, t: Seq<char>) -> Option<Json>
    decreases targets.len(),
{
    if targets.len() == 0 {
        None
    } else if targets.last().0@ == t {
        Some(targets.last().1)
    } else {
        target_payload(targets.drop_last(), t)
    }
}

/// The payloads linked from document `id`, in the order of the links; a
/// link to a document that is not among the targets is skipped.
pub open spec fn linked_payloads(links: Seq<(String, String)>, targets: Seq<(String, Json)>, id: Seq<char>) -> Seq<
    JsonV,
>
    decreases links.len(),
{
    if links.len() == 0 {
        Seq::empty()
    } else {
        let rest = linked_payloads(links.drop_last(), targets, id);
        let l = links.last();
        if l.0@ == id && target_payload(targets, l.1@) is Some {
            rest.push(jv(target_payload(targets, l.1@)->Some_0))
        } else {
            rest
        }
    }
}

/// An earlier row with an object payload has the same id: it took the
/// linked payloads already.
pub open spec fn claimed_before(docs: Seq<(String, Json)>, i: int) -> bool {
    exists|j: int| 0 <= j < i && (#[trigger] docs[j]).1 is Object && docs[j].0@ == docs[i].0@
}

/// A member of report row `i`.
pub open spec fn row_member(
    docs: Seq<(String, Json)>,
    relation: Option<(Seq<(String, String)>, Seq<(String, Json)>)>,
    i: int,
    k: Seq<char>,
) -> Option<JsonV> {
    if relation is Some && k == "_relation"@ {
        Some(
            JsonV::Array(
                if claimed_before(docs, i) {
                    Seq::empty()
                } else {
                    linked_payloads(relation->Some_0.0, relation->Some_0.1, docs[i].0@)
                },
            ),
        )
    } else if k == "_id"@ {
        Some(JsonV::String(docs[i].0@))
    } else {
        opt_jv(member(docs[i].1->Object_0@, k))
    }
}

fn find_target(targets: &Vec<(String, Json)>, t: &str) -> (r: Option<usize>)
    ensures
        match r {
            Some(j) => j < targets@.len() && target_payload(targets@, t@) == Some(targets@[j as int].1),
            None => target_payload(targets@, t@) is None,
        },
{
    let mut j: usize = targets.len();
    assert(targets@.take(j as int) =~= targets@);
    while j > 0
        invariant
            j <= targets.len(),
            target_payload(targets@, t@) == target_payload(targets@.take(j as int), t@),
        decreases j,
    {
        assert(targets@.take(j as int).drop_last() =~= targets@.take(j - 1));
        if str_eq(targets[j - 1].0.as_str(), t) {
            return Some(j - 1);
        }
        j -= 1;
    }
    None
}

fn linked(links: &Vec<(String, String)>, targets: &Vec<(String, Json)>, id: &str) -> (r: Vec<Json>)
    ensures
        items_v(r@) == linked_payloads(links@, targets@, id@),
{
    let mut out: Vec<Json> = Vec::new();
    let mut i: usize = 0;
    proof {
        assert(targets@.take(targets@.len() as int) =~= targets@);
    }
    while i < links.len()
        invariant
            i <= links.len(),
            items_v(out@) == linked_payloads(links@.take(i as int), targets@, id@),
        decreases links.len() - i,
    {
        assert(links@.take(i + 1).drop_last() =~= links@.take(i as int));
        if str_eq(links[i].0.as_str(), id) {
            match find_target(targets, links[i].1.as_str()) {
                Some(j) => {
                    let ghost before = out@;
                    out.push(clone_json(&targets[j].1));
                    assert(out@.drop_last() =~= before);
                },
                None => {},
            }
        }
        i += 1;
    }
    assert(links@.take(links.len() as int) =~= links@);
    out
}

fn claimed(docs: &Vec<(String, Json)>, i: usize) -> (r: bool)
    requires
        i < docs.len(),
    ensures
        r == claimed_before(docs@, i as int),
{
    let mut j: usize = 0;
    while j < i
        invariant
            i < docs.len(),
            j <= i,
            forall|x: int| 0 <= x < j ==> !((#[trigger] docs@[x]).1 is Object && docs@[x].0@ == docs@[i as int].0@),
        decreases i - j,
    {
        let is_object = match &docs[j].1 {
            Json::Object(_) => true,
            _ => false,
        };
        if is_object && str_eq(docs[j].0.as_str(), docs[i].0.as_str()) {
            return true;
        }
        j += 1;
    }
    false
}

/// The rows of a report: each document (id and payload, in the order the
/// store gives them) with its id set under `_id`, and under `_relation` the
/// payloads it links to when the report goes through a relation (`links`
/// from source to target id, and the target documents). A payload that is
/// not an object is left as it is.
pub fn report_rows(
    docs: &Vec<(String, Json)>,
    relation: Option<(&Vec<(String, String)>, &Vec<(String, Json)>)>,
) -> (r: Vec<Json>)
    ensures
        r@.len() == docs@.len(),
        forall|i: int|
            0 <= i < docs@.len() ==> match (#[trigger] docs@[i]).1 {
                Json::Object(_) => r@[i] is Object && forall|k: Seq<char>|
                    opt_jv(#[trigger] member(r@[i]->Object_0@, k)) == row_member(
                        docs@,
                        match relation {
                            Some((l, t)) => Some((l@, t@)),
                            None => None,
                        },
                        i,
                        k,
                    ),
                _ => jv(r@[i]) == jv(docs@[i].1),
            },
{
    let ghost rel = match relation {
        Some((l, t)) => Some((l@, t@)),
        None => None::<(Seq<(String, String)>, Seq<(String, Json)>)>,
    };
    let mut out: Vec<Json> = Vec::new();
    let mut i: usize = 0;
    while i < docs.len()
        invariant
            i <= docs.len(),
            out@.len() == i,
            rel == match relation {
                Some((l, t)) => Some((l@, t@)),
                None => None::<(Seq<(String, String)>, Seq<(String, Json)>)>,
            },
            forall|x: int|
                0 <= x < i ==> match (#[trigger] docs@[x]).1 {
                    Json::Object(_) => out@[x] is Object && forall|k: Seq<char>|
                        opt_jv(#[trigger] member(out@[x]->Object_0@, k)) == row_member(docs@, rel, x, k),
                    _ => jv(out@[x]) == jv(docs@[x].1),
                },
        decreases docs.len() - i,
    {
        let row = match &docs[i].1 {
            Json::Object(e) => {
                let mut entries: Vec<(String, Json)> = match clone_json(&docs[i].1) {
                    Json::Object(c) => c,
                    _ => Vec::new(),
                };
                proof {
                    assert forall|k: Seq<char>| opt_jv(#[trigger] member(entries@, k)) == opt_jv(member(e@, k)) by {
                        crate::repository::lemma_member_members_v(entries@, e@, k);
                    }
                }
                insert_member(&mut entries, string_from("_id"), Json::String(docs[i].0.clone()));
                match relation {
                    Some((links, targets)) => {
                        let items = if claimed(docs, i) {
                            Vec::new()
                        } else {
                            linked(links, targets, docs[i].0.as_str())
                        };
                        let ghost iv = items_v(items@);
                        insert_member(&mut entries, string_from("_relation"), Json::Array(items));
                        proof {
                            reveal_strlit("_id");
                            reveal_strlit("_relation");
                            assert("_id"@.len() != "_relation"@.len());
                            if claimed_before(docs@, i as int) {
                                assert(iv =~= Seq::<JsonV>::empty());
                            }
                        }
                    },
                    None => {},
                }
                Json::Object(entries)
            },
            _ => clone_json(&docs[i].1),
        };
        out.push(row);
        i += 1;
    }
    out
}

} // verus!
