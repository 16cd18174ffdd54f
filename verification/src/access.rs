//! Access decisions over the permission rows a store returns: whether a
//! role may view or edit an entity or a field, which fields it sees, and
//! how a payload is cut to what a role may send and keep.
use vstd::prelude::*;
use crate::error::{message_of, AppError};
use crate::json::{clone_json, jv, member, members_v, opt_jv, Json, JsonV};
use crate::payload::{merge_editable_payload, merged_member, validate_field_value, value_fits};
use crate::report::{lemma_member_v, member_v};
use crate::repository::{insert_member, lemma_member_members_v, Field};
use crate::text::{chars_of, push_str, str_eq, string_from, string_of};

verus! {

broadcast use vstd::string::group_string_axioms;

/// What a role may do with one field of an entity.
pub struct FieldAccess {
    pub name: String,
    pub can_view: bool,
    pub can_edit: bool,
}

/// The access a role has to a field by name: the last entry for the name
/// (as when the rows are collected into a map), else full access.
pub open spec fn access_of(map: Seq<FieldAccess>, name: Seq<char>) -> (bool, bool)
    decreases map.len(),
{
    if map.len() == 0 {
        (true, true)
    } else if map.last().name@ == name {
        (map.last().can_view, map.last().can_edit)
    } else {
        access_of(map.drop_last(), name)
    }
}

pub fn lookup_access(map: &Vec<FieldAccess>, name: &str) -> (r: (bool, bool))
    ensures
        r == access_of(map@, name@),
{
    let mut i: usize = map.len();
    assert(map@.take(i as int) =~= map@);
    while i > 0
        invariant
            i <= map.len(),
            access_of(map@, name@) == access_of(map@.take(i as int), name@),
        decreases i,
    {
        assert(map@.take(i as int).drop_last() =~= map@.take(i - 1));
        if str_eq(map[i - 1].name.as_str(), name) {
            return (map[i - 1].can_view, map[i - 1].can_edit);
        }
        i -= 1;
    }
    (true, true)
}

/// A stored flag: missing counts as allowed, zero as refused.
pub open spec fn allowed(flag: Option<i64>) -> bool {
    match flag {
        Some(v) => v != 0,
        None => true,
    }
}

/// The field access map of a role: every field in full for `admin`, else
/// one entry per row of (field name, view flag, edit flag).
pub fn field_access_map(
    field_names: &Vec<String>,
    rows: &Vec<(String, Option<i64>, Option<i64>)>,
    role: &str,
) -> (r: Vec<FieldAccess>)
    ensures
        role@ == "admin"@ ==> r@.len() == field_names@.len() && forall|i: int|
            0 <= i < r@.len() ==> (#[trigger] r@[i]).name@ == field_names@[i]@ && r@[i].can_view
                && r@[i].can_edit,
        role@ != "admin"@ ==> r@.len() == rows@.len() && forall|i: int|
            0 <= i < r@.len() ==> (#[trigger] r@[i]).name@ == rows@[i].0@ && r@[i].can_view
                == allowed(rows@[i].1) && r@[i].can_edit == allowed(rows@[i].2),
{
    let mut out: Vec<FieldAccess> = Vec::new();
    if str_eq(role, "admin") {
        let mut i: usize = 0;
        while i < field_names.len()
            invariant
                i <= field_names.len(),
                out@.len() == i,
                forall|j: int|
                    0 <= j < i ==> (#[trigger] out@[j]).name@ == field_names@[j]@ && out@[j].can_view
                        && out@[j].can_edit,
            decreases field_names.len() - i,
        {
            out.push(FieldAccess { name: string_from(field_names[i].as_str()), can_view: true, can_edit: true });
            i += 1;
        }
    } else {
        let mut i: usize = 0;
        while i < rows.len()
            invariant
                i <= rows.len(),
                out@.len() == i,
                forall|j: int|
                    0 <= j < i ==> (#[trigger] out@[j]).name@ == rows@[j].0@ && out@[j].can_view
                        == allowed(rows@[j].1) && out@[j].can_edit == allowed(rows@[j].2),
            decreases rows.len() - i,
        {
            let can_view = match rows[i].1 {
                Some(v) => v != 0,
                None => true,
            };
            let can_edit = match rows[i].2 {
                Some(v) => v != 0,
                None => true,
            };
            out.push(FieldAccess { name: string_from(rows[i].0.as_str()), can_view, can_edit });
            i += 1;
        }
    }
    out
}

fn forbidden(prefix: &str, detail: &str) -> (e: AppError)
    ensures
        e is Forbidden,
        message_of(e) == prefix@ + detail@,
{
    let mut m = chars_of(prefix);
    push_str(&mut m, detail);
    AppError::Forbidden(string_of(m.as_slice()))
}

/// Whether a role may use an entity, from its stored (view, edit) flags;
/// an entity without a row is open to all.
pub fn check_entity_access(entity_id: &str, flags: Option<(i64, i64)>, need_edit: bool) -> (r: Result<
    (),
    AppError,
>)
    ensures
        ({
            let (v, e) = match flags {
                Some(p) => p,
                None => (1i64, 1i64),
            };
            &&& v == 0 ==> (r matches Err(x) && x is Forbidden && message_of(x)
                == "no view access to entity: "@ + entity_id@)
            &&& v != 0 && need_edit && e == 0 ==> (r matches Err(x) && x is Forbidden
                && message_of(x) == "no edit access to entity: "@ + entity_id@)
            &&& r is Ok <==> (v != 0 && !(need_edit && e == 0))
        }),
{
    let (v, e) = match flags {
        Some(p) => p,
        None => (1i64, 1i64),
    };
    if v == 0 {
        return Err(forbidden("no view access to entity: ", entity_id));
    }
    if need_edit && e == 0 {
        return Err(forbidden("no edit access to entity: ", entity_id));
    }
    Ok(())
}

/// Whether a role may view (and, when asked, edit) a field; `admin` may
/// always.
pub fn check_field_access(map: &Vec<FieldAccess>, field_name: &str, role: &str, need_edit: bool) -> (r:
    Result<(), AppError>)
    ensures
        role@ == "admin"@ ==> r is Ok,
        role@ != "admin"@ ==> ({
            let (v, e) = access_of(map@, field_name@);
            &&& !v ==> (r matches Err(x) && x is Forbidden && message_of(x)
                == "no view access to field: "@ + field_name@)
            &&& v && need_edit && !e ==> (r matches Err(x) && x is Forbidden && message_of(x)
                == "no edit access to field: "@ + field_name@)
            &&& r is Ok <==> (v && !(need_edit && !e))
        }),
{
    if str_eq(role, "admin") {
        return Ok(());
    }
    let (v, e) = lookup_access(map, field_name);
    if !v {
        return Err(forbidden("no view access to field: ", field_name));
    }
    if need_edit && !e {
        return Err(forbidden("no edit access to field: ", field_name));
    }
    Ok(())
}

/// Some string of `v` spells `s`.
pub open spec fn has_name(v: Seq<String>, s: Seq<char>) -> bool {
    exists|i: int| 0 <= i < v.len() && (#[trigger] v[i])@ == s
}

/// Some entry of the map is for the field `s`.
pub open spec fn in_map(map: Seq<FieldAccess>, s: Seq<char>) -> bool {
    exists|i: int| 0 <= i < map.len() && (#[trigger] map[i]).name@ == s
}

/// The names of the fields a role sees: every field for `admin`, else each
/// name in the map whose access allows viewing.
pub fn viewable_field_names(field_names: &Vec<String>, map: &Vec<FieldAccess>, role: &str) -> (r: Vec<
    String,
>)
    ensures
        role@ == "admin"@ ==> forall|s: Seq<char>| #[trigger] has_name(r@, s) <==> has_name(field_names@, s),
        role@ != "admin"@ ==> forall|s: Seq<char>|
            #[trigger] has_name(r@, s) <==> in_map(map@, s) && access_of(map@, s).0,
{
    let mut out: Vec<String> = Vec::new();
    if str_eq(role, "admin") {
        let mut i: usize = 0;
        while i < field_names.len()
            invariant
                i <= field_names.len(),
                out@.len() == i,
                forall|j: int| 0 <= j < i ==> (#[trigger] out@[j])@ == field_names@[j]@,
            decreases field_names.len() - i,
        {
            out.push(string_from(field_names[i].as_str()));
            i += 1;
        }
        assert forall|s: Seq<char>| #[trigger] has_name(out@, s) <==> has_name(field_names@, s) by {
            if has_name(field_names@, s) {
                let i = choose|i: int| 0 <= i < field_names@.len() && (#[trigger] field_names@[i])@ == s;
                assert(out@[i]@ == s);
            }
        }
    } else {
        let mut i: usize = 0;
        while i < map.len()
            invariant
                i <= map.len(),
                forall|s: Seq<char>|
                    #[trigger] has_name(out@, s) <==> in_map(map@.take(i as int), s) && access_of(map@, s).0,
            decreases map.len() - i,
        {
            let (v, _) = lookup_access(map, map[i].name.as_str());
            let ghost before = out@;
            if v {
                out.push(string_from(map[i].name.as_str()));
            }
            proof {
                let t0 = map@.take(i as int);
                let t1 = map@.take(i + 1);
                assert forall|s: Seq<char>|
                    #[trigger] has_name(out@, s) <==> in_map(t1, s) && access_of(map@, s).0 by {
                    if has_name(out@, s) {
                        let j = choose|j: int| 0 <= j < out@.len() && (#[trigger] out@[j])@ == s;
                        if j < before.len() {
                            assert(before[j]@ == s);
                            assert(has_name(before, s));
                            let w = choose|w: int| 0 <= w < t0.len() && (#[trigger] t0[w]).name@ == s;
                            assert(t1[w] == t0[w]);
                        } else {
                            assert(t1[i as int].name@ == s);
                        }
                    }
                    if in_map(t1, s) && access_of(map@, s).0 {
                        let j = choose|j: int| 0 <= j < t1.len() && (#[trigger] t1[j]).name@ == s;
                        if j < i {
                            assert(t0[j] == t1[j]);
                            assert(in_map(t0, s));
                            assert(has_name(before, s));
                            let w = choose|w: int| 0 <= w < before.len() && (#[trigger] before[w])@ == s;
                            assert(out@[w] == before[w]);
                        } else {
                            assert(out@[before.len() as int]@ == s);
                        }
                    }
                }
            }
            i += 1;
        }
        assert(map@.take(map.len() as int) =~= map@);
    }
    out
}

// ---------------------------------------------------------------------------
// Payloads
// ---------------------------------------------------------------------------

/// The members of `entries` whose field the role may view, in order.
pub open spec fn visible_members(entries: Seq<(String, Json)>, map: Seq<FieldAccess>) -> Seq<(Seq<char>, JsonV)>
    decreases entries.len(),
{
    if entries.len() == 0 {
        Seq::empty()
    } else if access_of(map, entries.last().0@).0 {
        visible_members(entries.drop_last(), map).push((entries.last().0@, jv(entries.last().1)))
    } else {
        visible_members(entries.drop_last(), map)
    }
}

/// Hidden fields are dropped and only they: every member kept has a field
/// the role may view, and every member with such a field is kept.
pub proof fn lemma_hidden_fields_dropped(entries: Seq<(String, Json)>, map: Seq<FieldAccess>)
    ensures
        forall|i: int|
            0 <= i < visible_members(entries, map).len() ==> access_of(
                map,
                (#[trigger] visible_members(entries, map)[i]).0,
            ).0,
        forall|j: int|
            0 <= j < entries.len() && access_of(map, (#[trigger] entries[j]).0@).0 ==> visible_members(
                entries,
                map,
            ).contains((entries[j].0@, jv(entries[j].1))),
    decreases entries.len(),
{
    if entries.len() > 0 {
        let prev = entries.drop_last();
        lemma_hidden_fields_dropped(prev, map);
        let k = visible_members(entries, map);
        let kp = visible_members(prev, map);
        assert forall|j: int|
            0 <= j < entries.len() && access_of(map, (#[trigger] entries[j]).0@).0 implies k.contains(
            (entries[j].0@, jv(entries[j].1)),
        ) by {
            if j < entries.len() - 1 {
                assert(prev[j] == entries[j]);
                let w = choose|w: int| 0 <= w < kp.len() && kp[w] == (prev[j].0@, jv(prev[j].1));
                if access_of(map, entries.last().0@).0 {
                    assert(k[w] == kp[w]);
                }
            } else {
                assert(k[k.len() - 1] == (entries[j].0@, jv(entries[j].1)));
            }
        }
        assert forall|i: int| 0 <= i < k.len() implies access_of(map, (#[trigger] k[i]).0).0 by {
            if i < kp.len() {
                assert(k[i] == kp[i]);
            }
        }
    }
}

/// Drops the members a role may not view from an incoming payload; `admin`
/// payloads pass unchanged, and a payload that is not an object is refused.
pub fn hide_fields(payload: &Json, map: &Vec<FieldAccess>, role: &str) -> (r: Result<Json, AppError>)
    ensures
        role@ == "admin"@ ==> (r matches Ok(x) && jv(x) == jv(*payload)),
        role@ != "admin"@ ==> match *payload {
            Json::Object(e) => r matches Ok(Json::Object(x)) && members_v(x@) == visible_members(e@, map@),
            _ => r matches Err(x) && x is BadRequest && message_of(x) == "payload must be a JSON object"@,
        },
{
    if str_eq(role, "admin") {
        return Ok(clone_json(payload));
    }
    let entries = match payload {
        Json::Object(e) => e,
        _ => {
            return Err(AppError::BadRequest(string_from("payload must be a JSON object")));
        },
    };
    let mut out: Vec<(String, Json)> = Vec::new();
    let mut i: usize = 0;
    while i < entries.len()
        invariant
            i <= entries.len(),
            members_v(out@) == visible_members(entries@.take(i as int), map@),
        decreases entries.len() - i,
    {
        assert(entries@.take(i + 1).drop_last() =~= entries@.take(i as int));
        let (v, _) = lookup_access(map, entries[i].0.as_str());
        if v {
            let ghost before = out@;
            out.push((string_from(entries[i].0.as_str()), clone_json(&entries[i].1)));
            assert(out@.drop_last() =~= before);
        }
        i += 1;
    }
    assert(entries@.take(entries.len() as int) =~= entries@);
    Ok(Json::Object(out))
}

/// The last member of `entries` with key `k`.
pub open spec fn last_member(entries: Seq<(String, Json)>, k: Seq<char>) -> Option<Json>
    decreases entries.len(),
{
    if entries.len() == 0 {
        None
    } else if entries.last().0@ == k {
        Some(entries.last().1)
    } else {
        last_member(entries.drop_last(), k)
    }
}

/// What a member of a restored payload holds: the stored value of a field
/// the role may not edit, else the merged one.
pub open spec fn restored_member(
    stored: Seq<(String, Json)>,
    merged: Seq<(String, Json)>,
    map: Seq<FieldAccess>,
    k: Seq<char>,
) -> Option<JsonV> {
    if !access_of(map, k).1 && last_member(stored, k) is Some {
        opt_jv(last_member(stored, k))
    } else {
        opt_jv(member(merged, k))
    }
}

/// An update never changes a field the role may not edit: when the stored
/// payload holds such a field, the restored payload holds its stored value,
/// whatever the merged payload says.
pub proof fn lemma_readonly_fields_kept(
    stored: Seq<(String, Json)>,
    merged: Seq<(String, Json)>,
    map: Seq<FieldAccess>,
    k: Seq<char>,
)
    requires
        !access_of(map, k).1,
        last_member(stored, k) is Some,
    ensures
        restored_member(stored, merged, map, k) == opt_jv(last_member(stored, k)),
{
}

/// Puts back the stored values of the fields a role may not edit into a
/// merged payload; for `admin`, or when either payload is not an object,
/// the merged payload is returned as it is.
pub fn restore_readonly_fields(stored: &Json, merged: &Json, map: &Vec<FieldAccess>, role: &str) -> (r:
    Json)
    ensures
        (role@ == "admin"@ || !(stored is Object) || !(merged is Object)) ==> jv(r) == jv(*merged),
        role@ != "admin"@ ==> match (*stored, *merged) {
            (Json::Object(s), Json::Object(m)) => r matches Json::Object(x) && forall|k: Seq<char>|
                #[trigger] opt_jv(member(x@, k)) == restored_member(s@, m@, map@, k),
            _ => true,
        },
{
    if str_eq(role, "admin") {
        return clone_json(merged);
    }
    let (s, m) = match (stored, merged) {
        (Json::Object(s), Json::Object(m)) => (s, m),
        _ => {
            return clone_json(merged);
        },
    };
    let copy = clone_json(merged);
    let mut out: Vec<(String, Json)> = match copy {
        Json::Object(x) => {
            assert(members_v(x@) == members_v(m@));
            x
        },
        _ => {
            assert(false);
            Vec::new()
        },
    };
    proof {
        assert forall|k: Seq<char>| #[trigger] opt_jv(member(out@, k)) == opt_jv(member(m@, k)) by {
            lemma_member_members_v(out@, m@, k);
        }
        assert(s@.take(0) =~= Seq::<(String, Json)>::empty());
    }
    let mut i: usize = 0;
    while i < s.len()
        invariant
            i <= s.len(),
            forall|k: Seq<char>|
                #[trigger] opt_jv(member(out@, k)) == (if !access_of(map@, k).1 && last_member(
                    s@.take(i as int),
                    k,
                ) is Some {
                    opt_jv(last_member(s@.take(i as int), k))
                } else {
                    opt_jv(member(m@, k))
                }),
        decreases s.len() - i,
    {
        assert(s@.take(i + 1).drop_last() =~= s@.take(i as int));
        let (_, e) = lookup_access(map, s[i].0.as_str());
        if !e {
            let key = string_from(s[i].0.as_str());
            let value = clone_json(&s[i].1);
            insert_member(&mut out, key, value);
        }
        i += 1;
    }
    assert(s@.take(s.len() as int) =~= s@);
    Json::Object(out)
}

/// A member of a document after an update by a role: the stored value of a
/// field the role may not edit; else the request's value of a field the
/// role may view; else the stored one.
pub open spec fn updated_member(
    stored: Seq<(String, Json)>,
    incoming: Seq<(String, Json)>,
    map: Seq<FieldAccess>,
    k: Seq<char>,
) -> Option<JsonV> {
    if !access_of(map, k).1 && last_member(stored, k) is Some {
        opt_jv(last_member(stored, k))
    } else if access_of(map, k).0 && member(incoming, k) is Some {
        opt_jv(member(incoming, k))
    } else {
        opt_jv(member(stored, k))
    }
}

proof fn lemma_member_v_push(s: Seq<(Seq<char>, JsonV)>, p: (Seq<char>, JsonV), k: Seq<char>)
    ensures
        member_v(s.push(p), k) == if member_v(s, k) is Some {
            member_v(s, k)
        } else if p.0 == k {
            Some(p.1)
        } else {
            None
        },
    decreases s.len(),
{
    if s.len() > 0 {
        assert(s.push(p).drop_first() =~= s.drop_first().push(p));
        assert(s.push(p)[0] == s[0]);
        lemma_member_v_push(s.drop_first(), p, k);
    } else {
        assert(s.push(p)[0] == p);
        assert(s.push(p).drop_first() =~= Seq::<(Seq<char>, JsonV)>::empty());
        assert(member_v(s.push(p).drop_first(), k) is None);
    }
}

/// Looking a key up among the members a role sees finds the member when
/// the role may view it, and nothing otherwise.
proof fn lemma_visible_member(e: Seq<(String, Json)>, map: Seq<FieldAccess>, k: Seq<char>)
    ensures
        member_v(visible_members(e, map), k) == if access_of(map, k).0 {
            member_v(members_v(e), k)
        } else {
            None
        },
    decreases e.len(),
{
    if e.len() > 0 {
        let last = e.last();
        lemma_visible_member(e.drop_last(), map, k);
        lemma_member_v_push(members_v(e.drop_last()), (last.0@, jv(last.1)), k);
        if access_of(map, last.0@).0 {
            lemma_member_v_push(visible_members(e.drop_last(), map), (last.0@, jv(last.1)), k);
        }
    }
}

/// The payload an update leaves: the request cut to the fields the role
/// may view, merged over the stored payload, with the stored values of the
/// fields it may not edit put back. An administrator's request is merged
/// as it is. A request that is not an object is refused for other roles.
pub fn update_payload(stored: &Json, incoming: &Json, map: &Vec<FieldAccess>, role: &str) -> (r: Result<
    Json,
    AppError,
>)
    ensures
        role@ == "admin"@ ==> (r matches Ok(x) && match (*stored, *incoming) {
            (Json::Object(s), Json::Object(i)) => x is Object && forall|k: Seq<char>|
                opt_jv(#[trigger] member(x->Object_0@, k)) == merged_member(s@, i@, k),
            _ => jv(x) == jv(*incoming),
        }),
        role@ != "admin"@ ==> match *incoming {
            Json::Object(i) => r matches Ok(x) && match *stored {
                Json::Object(s) => x is Object && forall|k: Seq<char>|
                    opt_jv(#[trigger] member(x->Object_0@, k)) == updated_member(s@, i@, map@, k),
                _ => jv(x) == JsonV::Object(visible_members(i@, map@)),
            },
            _ => r matches Err(e) && e is BadRequest && message_of(e) == "payload must be a JSON object"@,
        },
{
    let visible = match hide_fields(incoming, map, role) {
        Ok(v) => v,
        Err(e) => {
            return Err(e);
        },
    };
    let merged = merge_editable_payload(stored, &visible);
    let out = restore_readonly_fields(stored, &merged, map, role);
    proof {
        if *stored is Object && *incoming is Object {
            let s = stored->Object_0;
            let i = incoming->Object_0;
            let v = visible->Object_0@;
            let m = merged->Object_0@;
            if role@ == "admin"@ {
                assert(members_v(v) == members_v(i@));
                assert(members_v(out->Object_0@) == members_v(m));
                assert forall|k: Seq<char>| opt_jv(#[trigger] member(out->Object_0@, k)) == merged_member(
                    s@,
                    i@,
                    k,
                ) by {
                    lemma_member_members_v(out->Object_0@, m, k);
                    lemma_member_members_v(v, i@, k);
                }
            } else {
                assert forall|k: Seq<char>| opt_jv(#[trigger] member(out->Object_0@, k)) == updated_member(
                    s@,
                    i@,
                    map@,
                    k,
                ) by {
                    lemma_member_v(v, k);
                    lemma_member_v(i@, k);
                    lemma_visible_member(i@, map@, k);
                    assert(opt_jv(member(m, k)) == merged_member(s@, v, k));
                }
            }
        }
    }
    Ok(out)
}

/// An update never writes a field the role may not view from the request:
/// the member keeps a value of the stored payload (or stays absent).
pub proof fn lemma_hidden_fields_not_written(
    stored: Seq<(String, Json)>,
    incoming: Seq<(String, Json)>,
    map: Seq<FieldAccess>,
    k: Seq<char>,
)
    requires
        !access_of(map, k).0,
    ensures
        updated_member(stored, incoming, map, k) == opt_jv(last_member(stored, k)) || updated_member(
            stored,
            incoming,
            map,
            k,
        ) == opt_jv(member(stored, k)),
{
}

/// An update never changes a field the role may not edit once the stored
/// payload holds it, whatever the request sends.
pub proof fn lemma_update_keeps_readonly_fields(
    stored: Seq<(String, Json)>,
    incoming: Seq<(String, Json)>,
    map: Seq<FieldAccess>,
    k: Seq<char>,
)
    requires
        !access_of(map, k).1,
        last_member(stored, k) is Some,
    ensures
        updated_member(stored, incoming, map, k) == opt_jv(last_member(stored, k)),
{
}

/// The checks of one visible field against an incoming payload that need
/// nothing but the field: a computed field must be absent, a required one
/// present, and a present value must fit the field.
pub fn check_payload_field(field: &Field, entries: &Vec<(String, Json)>) -> (r: Result<(), AppError>)
    ensures
        field.field_type@ == "computed"@ ==> match member(entries@, field.name@) {
            Some(_) => r matches Err(x) && x is BadRequest && message_of(x)
                == "computed field is read-only: "@ + field.name@,
            None => r is Ok,
        },
        field.field_type@ != "computed"@ ==> match member(entries@, field.name@) {
            None => if field.required {
                r matches Err(x) && x is BadRequest && message_of(x) == "missing required field: "@
                    + field.name@
            } else {
                r is Ok
            },
            Some(v) => (r is Ok <==> value_fits(field.field_type@, field.options@, v)) && (r matches Err(
                x,
            ) ==> x is BadRequest && message_of(x) == "invalid value for field "@ + field.name@
                + ": expected "@ + field.field_type@),
        },
{
    let value = find_member(entries, field.name.as_str());
    if str_eq(field.field_type.as_str(), "computed") {
        if value.is_some() {
            let mut m = chars_of("computed field is read-only: ");
            push_str(&mut m, field.name.as_str());
            return Err(AppError::BadRequest(string_of(m.as_slice())));
        }
        return Ok(());
    }
    match value {
        None => {
            if field.required {
                let mut m = chars_of("missing required field: ");
                push_str(&mut m, field.name.as_str());
                return Err(AppError::BadRequest(string_of(m.as_slice())));
            }
            Ok(())
        },
        Some(v) => validate_field_value(field, v),
    }
}

pub(crate) fn find_member<'a>(entries: &'a Vec<(String, Json)>, k: &str) -> (r: Option<&'a Json>)
    ensures
        match member(entries@, k@) {
            Some(v) => r matches Some(x) && *x == v,
            None => r is None,
        },
{
    let mut i: usize = 0;
    assert(entries@.skip(0) =~= entries@);
    while i < entries.len()
        invariant
            i <= entries.len(),
            member(entries@, k@) == member(entries@.skip(i as int), k@),
        decreases entries.len() - i,
    {
        assert(entries@.skip(i as int).drop_first() =~= entries@.skip(i + 1));
        if str_eq(entries[i].0.as_str(), k) {
            return Some(&entries[i].1);
        }
        i += 1;
    }
    None
}

/// The first member of a payload whose key names none of the visible
/// fields.
pub open spec fn first_unknown(entries: Seq<(String, Json)>, names: Seq<Seq<char>>) -> Option<Seq<char>>
    decreases entries.len(),
{
    if entries.len() == 0 {
        None
    } else if !names.contains(entries[0].0@) {
        Some(entries[0].0@)
    } else {
        first_unknown(entries.drop_first(), names)
    }
}

pub open spec fn field_names(fields: Seq<Field>) -> Seq<Seq<char>> {
    fields.map_values(|f: Field| f.name@)
}

/// Refuses a payload with a member that names no visible field.
pub fn check_known_keys(entries: &Vec<(String, Json)>, visible: &Vec<Field>) -> (r: Result<(), AppError>)
    ensures
        match first_unknown(entries@, field_names(visible@)) {
            Some(k) => r matches Err(x) && x is BadRequest && message_of(x) == "unknown field: "@ + k,
            None => r is Ok,
        },
{
    let ghost names = field_names(visible@);
    let mut i: usize = 0;
    assert(entries@.skip(0) =~= entries@);
    while i < entries.len()
        invariant
            i <= entries.len(),
            names == field_names(visible@),
            first_unknown(entries@, names) == first_unknown(entries@.skip(i as int), names),
        decreases entries.len() - i,
    {
        assert(entries@.skip(i as int).drop_first() =~= entries@.skip(i + 1));
        let mut j: usize = 0;
        let mut known = false;
        while j < visible.len()
            invariant
                j <= visible.len(),
                i < entries.len(),
                names == field_names(visible@),
                known == exists|w: int| 0 <= w < j && (#[trigger] visible@[w]).name@ == entries@[i as int].0@,
            decreases visible.len() - j,
        {
            if str_eq(visible[j].name.as_str(), entries[i].0.as_str()) {
                known = true;
            }
            j += 1;
        }
        proof {
            if known {
                let w = choose|w: int| 0 <= w < visible.len() && (#[trigger] visible@[w]).name@ == entries@[i as int].0@;
                assert(names[w] == entries@[i as int].0@);
            } else {
                assert forall|w: int| 0 <= w < names.len() implies names[w] != entries@[i as int].0@ by {
                    assert(names[w] == visible@[w].name@);
                }
            }
        }
        if !known {
            let mut m = chars_of("unknown field: ");
            push_str(&mut m, entries[i].0.as_str());
            return Err(AppError::BadRequest(string_of(m.as_slice())));
        }
        i += 1;
    }
    Ok(())
}

/// A role that permission rows may name.
pub open spec fn permission_role(r: Seq<char>) -> bool {
    r == "admin"@ || r == "user"@
}

/// Index of the first entity permission row with a role that is neither
/// `admin` nor `user`.
pub open spec fn first_bad_role(rows: Seq<(String, bool, bool)>, from: int) -> Option<int>
    decreases rows.len() - from,
{
    if from < 0 || from >= rows.len() {
        None
    } else if !permission_role(rows[from].0@) {
        Some(from)
    } else {
        first_bad_role(rows, from + 1)
    }
}

/// Checks the roles of entity permission rows before they are stored.
pub fn check_entity_permission_rows(rows: &Vec<(String, bool, bool)>) -> (r: Result<(), AppError>)
    ensures
        match first_bad_role(rows@, 0) {
            None => r is Ok,
            Some(i) => r matches Err(e) && e is BadRequest && message_of(e) == "invalid role: "@ + rows@[i].0@,
        },
{
    let mut i: usize = 0;
    while i < rows.len()
        invariant
            i <= rows.len(),
            first_bad_role(rows@, 0) == first_bad_role(rows@, i as int),
        decreases rows.len() - i,
    {
        let role = rows[i].0.as_str();
        if !(str_eq(role, "admin") || str_eq(role, "user")) {
            let mut m = chars_of("invalid role: ");
            push_str(&mut m, role);
            return Err(AppError::BadRequest(string_of(m.as_slice())));
        }
        i += 1;
    }
    Ok(())
}

/// The refusal a field permission row meets, if any: a role other than
/// `admin` or `user`, or a field that the store does not place in the
/// entity (`owner` is the entity the store holds the field under).
pub open spec fn field_row_error(
    row: (String, String, bool, bool),
    owner: Option<String>,
    entity_id: Seq<char>,
) -> Option<Seq<char>> {
    if !permission_role(row.1@) {
        Some("invalid role: "@ + row.1@)
    } else if !(owner matches Some(o) && o@ == entity_id) {
        Some("field not found in entity: "@ + row.0@)
    } else {
        None
    }
}

/// Index of the first field permission row that is refused.
pub open spec fn first_bad_field_row(
    rows: Seq<(String, String, bool, bool)>,
    owners: Seq<Option<String>>,
    entity_id: Seq<char>,
    from: int,
) -> Option<int>
    decreases rows.len() - from,
{
    if from < 0 || from >= rows.len() {
        None
    } else if field_row_error(rows[from], owners[from], entity_id) is Some {
        Some(from)
    } else {
        first_bad_field_row(rows, owners, entity_id, from + 1)
    }
}

/// Checks field permission rows before they are stored, in order: each
/// row's role, then that its field belongs to the entity. `owners[i]` is
/// the entity the store holds the field of row `i` under.
pub fn check_field_permission_rows(
    entity_id: &str,
    rows: &Vec<(String, String, bool, bool)>,
    owners: &Vec<Option<String>>,
) -> (r: Result<(), AppError>)
    requires
        owners.len() == rows.len(),
    ensures
        match first_bad_field_row(rows@, owners@, entity_id@, 0) {
            None => r is Ok,
            Some(i) => r matches Err(e) && e is BadRequest && field_row_error(rows@[i], owners@[i], entity_id@)
                == Some(message_of(e)),
        },
{
    let mut i: usize = 0;
    while i < rows.len()
        invariant
            i <= rows.len(),
            owners.len() == rows.len(),
            first_bad_field_row(rows@, owners@, entity_id@, 0) == first_bad_field_row(
                rows@,
                owners@,
                entity_id@,
                i as int,
            ),
        decreases rows.len() - i,
    {
        let role = rows[i].1.as_str();
        if !(str_eq(role, "admin") || str_eq(role, "user")) {
            let mut m = chars_of("invalid role: ");
            push_str(&mut m, role);
            return Err(AppError::BadRequest(string_of(m.as_slice())));
        }
        let owned = match &owners[i] {
            Some(o) => str_eq(o.as_str(), entity_id),
            None => false,
        };
        if !owned {
            let mut m = chars_of("field not found in entity: ");
            push_str(&mut m, rows[i].0.as_str());
            return Err(AppError::BadRequest(string_of(m.as_slice())));
        }
        i += 1;
    }
    Ok(())
}

} // verus!
