//! The query behind a document listing: which conditions a filter adds for
//! a role, with their parameters, and how the rows are ordered. Only fields
//! the role may view are filtered, searched or sorted on.
use vstd::prelude::*;
use crate::text::string_views;
use crate::json::{get_spec, str_of, Json};
use crate::repository::{EntityOption, Field, GlobalAuditFilter, ListDocumentsFilter};
use crate::text::{
    chars_of, contains, contains_seq, eq_ignore_case, lowercase, push_all, push_str, seq_eq_ignore_case,
    str_eq, string_from, string_of, to_lowercase, trim, trim_str,
};

verus! {

broadcast use vstd::string::group_string_axioms;

/// The SQL conditions, parameters and ordering of a listing.
pub struct ListQuery {
    pub where_sql: String,
    pub params: Vec<String>,
    pub sort_col: String,
    pub sort_dir: String,
}

/// The first status field of an entity.
pub open spec fn first_status(fields: Seq<Field>) -> Option<Field>
    decreases fields.len(),
{
    if fields.len() == 0 {
        None
    } else if fields[0].is_status {
        Some(fields[0])
    } else {
        first_status(fields.drop_first())
    }
}

/// The text of an optional member once trimmed, when that is not empty.
pub open spec fn given(o: Option<String>) -> bool {
    o matches Some(s) && trim(s@).len() > 0
}

pub open spec fn json_member(name: Seq<char>) -> Seq<char> {
    "json_extract(payload, '$."@ + name + "')"@
}

/// The status condition: on the entity's status field, when the filter has
/// a status and the role may view that field.
pub open spec fn status_filter(f: ListDocumentsFilter, fields: Seq<Field>, viewable: Seq<Seq<char>>) -> Option<(Seq<char>, Seq<char>)> {
    if given(f.status) {
        match first_status(fields) {
            Some(sf) => if viewable.contains(sf.name@) {
                Some((" AND "@ + json_member(sf.name@) + " = ?"@, f.status->Some_0@))
            } else {
                None
            },
            None => None,
        }
    } else {
        None
    }
}

/// The viewable text fields, searched by a listing, in order.
pub open spec fn searched(fields: Seq<Field>, viewable: Seq<Seq<char>>) -> Seq<Seq<char>>
    decreases fields.len(),
{
    if fields.len() == 0 {
        Seq::empty()
    } else {
        let prev = searched(fields.drop_last(), viewable);
        let f = fields.last();
        if f.field_type@ == "text"@ && viewable.contains(f.name@) {
            prev.push(f.name@)
        } else {
            prev
        }
    }
}

/// ` OR <member> LIKE ?` for each name.
pub open spec fn or_likes(names: Seq<Seq<char>>) -> Seq<char>
    decreases names.len(),
{
    if names.len() == 0 {
        Seq::empty()
    } else {
        or_likes(names.drop_last()) + " OR "@ + json_member(names.last()) + " LIKE ?"@
    }
}

/// The search pattern of a filter: its trimmed text between `%`.
pub open spec fn like_of(f: ListDocumentsFilter) -> Seq<char> {
    "%"@ + trim(f.search->Some_0@) + "%"@
}

pub open spec fn where_spec(entity_id: Seq<char>, f: ListDocumentsFilter, fields: Seq<Field>, viewable: Seq<Seq<char>>) -> Seq<char> {
    "entity_id = ?"@ + match status_filter(f, fields, viewable) {
        Some((c, _)) => c,
        None => Seq::empty(),
    } + if given(f.search) {
        " AND (id LIKE ?"@ + or_likes(searched(fields, viewable)) + ")"@
    } else {
        Seq::empty()
    }
}

pub open spec fn params_spec(entity_id: Seq<char>, f: ListDocumentsFilter, fields: Seq<Field>, viewable: Seq<Seq<char>>) -> Seq<Seq<char>> {
    seq![entity_id] + match status_filter(f, fields, viewable) {
        Some((_, p)) => seq![p],
        None => Seq::empty(),
    } + if given(f.search) {
        Seq::new((searched(fields, viewable).len() + 1) as nat, |i: int| like_of(f))
    } else {
        Seq::empty()
    }
}

pub open spec fn has_field(fields: Seq<Field>, name: Seq<char>) -> bool {
    exists|i: int| 0 <= i < fields.len() && (#[trigger] fields[i]).name@ == name
}

/// The column a listing sorts on: a viewable field of the entity, else the
/// creation time.
pub open spec fn sort_col_spec(f: ListDocumentsFilter, fields: Seq<Field>, viewable: Seq<Seq<char>>) -> Seq<char> {
    match f.sort_by {
        Some(n) => if has_field(fields, n@) && viewable.contains(n@) {
            json_member(n@)
        } else {
            "created_at"@
        },
        None => "created_at"@,
    }
}

/// Ascending only when asked for (in any letter case), else descending.
pub open spec fn sort_dir_spec(f: ListDocumentsFilter) -> Seq<char> {
    match f.sort_dir {
        Some(d) => if eq_ignore_case(d@, "asc"@) {
            "ASC"@
        } else {
            "DESC"@
        },
        None => "DESC"@,
    }
}

fn given_exec(o: &Option<String>) -> (r: bool)
    ensures
        r == given(*o),
{
    match o {
        Some(s) => trim_str(s.as_str()).len() > 0,
        None => false,
    }
}

fn contains_name(v: &Vec<String>, s: &str) -> (r: bool)
    ensures
        r == string_views(v@).contains(s@),
{
    let mut i: usize = 0;
    while i < v.len()
        invariant
            i <= v.len(),
            forall|j: int| 0 <= j < i ==> v@[j]@ != s@,
        decreases v.len() - i,
    {
        if str_eq(v[i].as_str(), s) {
            assert(string_views(v@)[i as int] == s@);
            return true;
        }
        i += 1;
    }
    assert forall|j: int| 0 <= j < string_views(v@).len() implies string_views(v@)[j] != s@ by {
        assert(string_views(v@)[j] == v@[j]@);
    }
    false
}

fn find_status(fields: &Vec<Field>) -> (r: Option<usize>)
    ensures
        match first_status(fields@) {
            Some(f) => r matches Some(i) && i < fields@.len() && fields@[i as int] == f,
            None => r is None,
        },
{
    let mut i: usize = 0;
    assert(fields@.skip(0) =~= fields@);
    while i < fields.len()
        invariant
            i <= fields.len(),
            first_status(fields@) == first_status(fields@.skip(i as int)),
        decreases fields.len() - i,
    {
        assert(fields@.skip(i as int).drop_first() =~= fields@.skip(i + 1));
        if fields[i].is_status {
            return Some(i);
        }
        i += 1;
    }
    None
}

pub(crate) fn push_member(out: &mut Vec<char>, name: &str)
    ensures
        final(out)@ == old(out)@ + json_member(name@),
{
    push_str(out, "json_extract(payload, '$.");
    push_str(out, name);
    push_str(out, "')");
}

/// The conditions, parameters and ordering of a listing of `entity_id`
/// (see `where_spec`, `params_spec`, `sort_col_spec`, `sort_dir_spec`);
/// `viewable` holds the fields the role may view.
pub fn list_query(entity_id: &str, filter: &ListDocumentsFilter, fields: &Vec<Field>, viewable: &Vec<String>) -> (r: ListQuery)
    ensures
        r.where_sql@ == where_spec(entity_id@, *filter, fields@, string_views(viewable@)),
        string_views(r.params@) == params_spec(entity_id@, *filter, fields@, string_views(viewable@)),
        r.sort_col@ == sort_col_spec(*filter, fields@, string_views(viewable@)),
        r.sort_dir@ == sort_dir_spec(*filter),
{
    let ghost vv = string_views(viewable@);
    let mut sql = chars_of("entity_id = ?");
    let mut params: Vec<String> = Vec::new();
    params.push(string_from(entity_id));
    let ghost sql0 = sql@;
    let ghost p0 = string_views(params@);
    assert(p0 =~= seq![entity_id@]);
    if given_exec(&filter.status) {
        if let Some(i) = find_status(fields) {
            let name = fields[i].name.as_str();
            if contains_name(viewable, name) {
                push_str(&mut sql, " AND ");
                push_member(&mut sql, name);
                push_str(&mut sql, " = ?");
                let status = filter.status.as_ref().unwrap();
                params.push(string_from(status.as_str()));
            }
        }
    }
    let ghost sql1 = sql@;
    let ghost p1 = string_views(params@);
    assert(sql1 == sql0 + match status_filter(*filter, fields@, vv) {
        Some((c, _)) => c,
        None => Seq::empty(),
    });
    assert(p1 =~= p0 + match status_filter(*filter, fields@, vv) {
        Some((_, p)) => seq![p],
        None => Seq::empty(),
    });
    if given_exec(&filter.search) {
        let search = filter.search.as_ref().unwrap();
        let mut like = chars_of("%");
        push_all(&mut like, &trim_str(search.as_str()));
        push_str(&mut like, "%");
        assert(like@ == like_of(*filter));
        push_str(&mut sql, " AND (id LIKE ?");
        params.push(string_of(like.as_slice()));
        let ghost sql2 = sql@;
        proof {
            assert(fields@.take(0) =~= Seq::<Field>::empty());
            assert(string_views(params@) =~= p1 + Seq::new(1nat, |k: int| like_of(*filter)));
        }
        let mut i: usize = 0;
        while i < fields.len()
            invariant
                i <= fields.len(),
                vv == string_views(viewable@),
                like@ == like_of(*filter),
                sql@ == sql2 + or_likes(searched(fields@.take(i as int), vv)),
                string_views(params@) == p1 + Seq::new(
                    (searched(fields@.take(i as int), vv).len() + 1) as nat,
                    |k: int| like_of(*filter),
                ),
            decreases fields.len() - i,
        {
            assert(fields@.take(i + 1).drop_last() =~= fields@.take(i as int));
            assert(fields@.take(i + 1).last() == fields@[i as int]);
            let ghost s0 = searched(fields@.take(i as int), vv);
            let f = &fields[i];
            if str_eq(f.field_type.as_str(), "text") && contains_name(viewable, f.name.as_str()) {
                let ghost before = string_views(params@);
                push_str(&mut sql, " OR ");
                push_member(&mut sql, f.name.as_str());
                push_str(&mut sql, " LIKE ?");
                params.push(string_of(like.as_slice()));
                proof {
                    let s1 = searched(fields@.take(i + 1), vv);
                    assert(s1 == s0.push(f.name@));
                    assert(s1.drop_last() =~= s0);
                    assert(or_likes(s1) == or_likes(s0) + " OR "@ + json_member(f.name@) + " LIKE ?"@);
                    assert(sql@ =~= sql2 + or_likes(s1));
                    assert(string_views(params@) =~= before.push(like@));
                    assert(string_views(params@) =~= p1 + Seq::new((s1.len() + 1) as nat, |k: int| like_of(*filter)));
                }
            } else {
                assert(searched(fields@.take(i + 1), vv) == s0);
            }
            i += 1;
        }
        assert(fields@.take(fields.len() as int) =~= fields@);
        push_str(&mut sql, ")");
    } else {
        assert(string_views(params@) =~= p1 + Seq::<Seq<char>>::empty());
    }
    let sort_col = match &filter.sort_by {
        Some(n) => {
            let mut known = false;
            let mut i: usize = 0;
            while i < fields.len()
                invariant
                    i <= fields.len(),
                    known == exists|j: int| 0 <= j < i && (#[trigger] fields@[j]).name@ == n@,
                decreases fields.len() - i,
            {
                if str_eq(fields[i].name.as_str(), n.as_str()) {
                    known = true;
                }
                i += 1;
            }
            if known && contains_name(viewable, n.as_str()) {
                let mut c: Vec<char> = Vec::new();
                push_member(&mut c, n.as_str());
                string_of(c.as_slice())
            } else {
                string_from("created_at")
            }
        },
        None => string_from("created_at"),
    };
    let sort_dir = match &filter.sort_dir {
        Some(d) => if seq_eq_ignore_case(&chars_of(d.as_str()), &chars_of("asc")) {
            string_from("ASC")
        } else {
            string_from("DESC")
        },
        None => string_from("DESC"),
    };
    ListQuery { where_sql: string_of(sql.as_slice()), params, sort_col, sort_dir }
}

/// The conditions and parameters of a listing of the audit log.
pub open spec fn audit_where(f: GlobalAuditFilter) -> Seq<char> {
    "1 = 1"@ + (if given(f.entity_id) {
        " AND a.entity_id = ?"@
    } else {
        Seq::empty()
    }) + (if given(f.action) {
        " AND a.action = ?"@
    } else {
        Seq::empty()
    }) + if given(f.search) {
        " AND a.doc_id LIKE ?"@
    } else {
        Seq::empty()
    }
}

pub open spec fn audit_params(f: GlobalAuditFilter) -> Seq<Seq<char>> {
    (if given(f.entity_id) {
        seq![f.entity_id->Some_0@]
    } else {
        Seq::empty()
    }) + (if given(f.action) {
        seq![f.action->Some_0@]
    } else {
        Seq::empty()
    }) + if given(f.search) {
        seq!["%"@ + trim(f.search->Some_0@) + "%"@]
    } else {
        Seq::empty()
    }
}

/// The conditions of an audit log listing: by entity, by action, and by a
/// document id containing the trimmed search text.
pub fn audit_query(filter: &GlobalAuditFilter) -> (r: (String, Vec<String>))
    ensures
        r.0@ == audit_where(*filter),
        string_views(r.1@) == audit_params(*filter),
{
    let mut sql = chars_of("1 = 1");
    let mut params: Vec<String> = Vec::new();
    if given_exec(&filter.entity_id) {
        push_str(&mut sql, " AND a.entity_id = ?");
        params.push(string_from(filter.entity_id.as_ref().unwrap().as_str()));
    }
    if given_exec(&filter.action) {
        push_str(&mut sql, " AND a.action = ?");
        params.push(string_from(filter.action.as_ref().unwrap().as_str()));
    }
    if given_exec(&filter.search) {
        push_str(&mut sql, " AND a.doc_id LIKE ?");
        let mut like = chars_of("%");
        push_all(&mut like, &trim_str(filter.search.as_ref().unwrap().as_str()));
        push_str(&mut like, "%");
        params.push(string_of(like.as_slice()));
    }
    assert(sql@ =~= audit_where(*filter));
    assert(string_views(params@) =~= audit_params(*filter));
    (string_of(sql.as_slice()), params)
}

/// Name of the first text field: the label of a document in pickers.
pub open spec fn label_field(fields: Seq<Field>, from: int) -> Option<Seq<char>>
    decreases fields.len() - from,
{
    if from < 0 || from >= fields.len() {
        None
    } else if fields[from].field_type@ == "text"@ {
        Some(fields[from].name@)
    } else {
        label_field(fields, from + 1)
    }
}

/// The label of a document: its text under the label field when that text
/// is not blank, else its id. An unreadable payload is `None`.
pub open spec fn option_label(id: Seq<char>, payload: Option<Json>, label: Option<Seq<char>>) -> Seq<char> {
    match (label, payload) {
        (Some(n), Some(p)) => match str_of(get_spec(p, n)) {
            Some(t) => if trim(t).len() > 0 {
                t
            } else {
                id
            },
            None => id,
        },
        _ => id,
    }
}

/// Whether an option answers a search: any option when the search is blank,
/// else one whose id or label holds the trimmed search, all lowercased.
pub open spec fn option_matches(id: Seq<char>, label: Seq<char>, search: Option<Seq<char>>) -> bool {
    match search {
        Some(q) => trim(q).len() == 0 || contains(lowercase(id), lowercase(trim(q))) || contains(
            lowercase(label),
            lowercase(trim(q)),
        ),
        None => true,
    }
}

/// The options among documents, in their order, as (id, label).
pub open spec fn matching_options(
    docs: Seq<(String, Option<Json>)>,
    label: Option<Seq<char>>,
    search: Option<Seq<char>>,
) -> Seq<(Seq<char>, Seq<char>)>
    decreases docs.len(),
{
    if docs.len() == 0 {
        Seq::empty()
    } else {
        let d = docs.last();
        let rest = matching_options(docs.drop_last(), label, search);
        let l = option_label(d.0@, d.1, label);
        if option_matches(d.0@, l, search) {
            rest.push((d.0@, l))
        } else {
            rest
        }
    }
}

/// The number of options a picker lists: between 1 and 100.
pub open spec fn option_limit(limit: i64) -> int {
    if limit < 1 {
        1
    } else if limit > 100 {
        100
    } else {
        limit as int
    }
}

pub open spec fn opt_str_view(s: Option<&str>) -> Option<Seq<char>> {
    match s {
        Some(x) => Some(x@),
        None => None,
    }
}

fn find_label_field(fields: &Vec<Field>) -> (r: Option<String>)
    ensures
        match r {
            Some(n) => label_field(fields@, 0) == Some(n@),
            None => label_field(fields@, 0) is None,
        },
{
    let mut i: usize = 0;
    while i < fields.len()
        invariant
            i <= fields.len(),
            label_field(fields@, 0) == label_field(fields@, i as int),
        decreases fields.len() - i,
    {
        if str_eq(fields[i].field_type.as_str(), "text") {
            return Some(fields[i].name.clone());
        }
        i += 1;
    }
    None
}

fn label_of(id: &String, payload: &Option<Json>, label: &Option<String>) -> (r: String)
    ensures
        r@ == option_label(
            id@,
            *payload,
            match *label {
                Some(n) => Some(n@),
                None => None,
            },
        ),
{
    match (label, payload) {
        (Some(n), Some(p)) => match p.get_str(n.as_str()) {
            Some(t) => if trim_str(t.as_str()).len() > 0 {
                t.clone()
            } else {
                id.clone()
            },
            None => id.clone(),
        },
        _ => id.clone(),
    }
}

/// The options of a picker over an entity's documents (given newest first,
/// with their payload, `None` where it could not be read): each labelled by
/// its first text field, kept when it answers the search, at most the
/// clamped limit of them.
pub fn entity_options(
    docs: &Vec<(String, Option<Json>)>,
    fields: &Vec<Field>,
    search: Option<&str>,
    limit: i64,
) -> (r: Vec<EntityOption>)
    ensures
        ({
            let all = matching_options(docs@, label_field(fields@, 0), opt_str_view(search));
            r@.len() == if all.len() < option_limit(limit) {
                all.len() as int
            } else {
                option_limit(limit)
            } && forall|i: int| 0 <= i < r@.len() ==> (#[trigger] r@[i]).id@ == all[i].0 && r@[i].label@ == all[i].1
        }),
{
    let label = find_label_field(fields);
    let ghost lv = label_field(fields@, 0);
    let ghost sv = opt_str_view(search);
    let max: usize = if limit < 1 {
        1
    } else if limit > 100 {
        100
    } else {
        limit as usize
    };
    let query: Option<String> = match search {
        Some(q) => {
            let t = trim_str(q);
            if t.len() > 0 {
                Some(to_lowercase(string_of(t.as_slice()).as_str()))
            } else {
                None
            }
        },
        None => None,
    };
    let mut out: Vec<EntityOption> = Vec::new();
    let mut i: usize = 0;
    while i < docs.len() && out.len() < max
        invariant
            i <= docs.len(),
            max as int == option_limit(limit),
            out@.len() <= max,
            lv == label_field(fields@, 0),
            lv == match label {
                Some(n) => Some(n@),
                None => None::<Seq<char>>,
            },
            match sv {
                Some(q) => if trim(q).len() > 0 {
                    query matches Some(x) && x@ == lowercase(trim(q))
                } else {
                    query is None
                },
                None => query is None,
            },
            ({
                let m = matching_options(docs@.take(i as int), lv, sv);
                out@.len() == m.len() && forall|j: int|
                    0 <= j < out@.len() ==> (#[trigger] out@[j]).id@ == m[j].0 && out@[j].label@ == m[j].1
            }),
        decreases docs.len() - i,
    {
        assert(docs@.take(i + 1).drop_last() =~= docs@.take(i as int));
        let id = &docs[i].0;
        let l = label_of(id, &docs[i].1, &label);
        let keep = match &query {
            Some(q) => {
                let qv = chars_of(q.as_str());
                contains_seq(&chars_of(to_lowercase(id.as_str()).as_str()), &qv) || contains_seq(
                    &chars_of(to_lowercase(l.as_str()).as_str()),
                    &qv,
                )
            },
            None => true,
        };
        assert(keep == option_matches(docs@[i as int].0@, l@, sv));
        if keep {
            out.push(EntityOption { id: id.clone(), label: l });
        }
        i += 1;
    }
    proof {
        let all = matching_options(docs@, lv, sv);
        let m = matching_options(docs@.take(i as int), lv, sv);
        if i < docs.len() {
            lemma_options_prefix(docs@, lv, sv, i as int);
        } else {
            assert(docs@.take(i as int) =~= docs@);
        }
        assert(m.len() <= all.len() && forall|j: int| 0 <= j < m.len() ==> m[j] == all[j]);
    }
    out
}

/// The options of a prefix of the documents begin those of all of them.
proof fn lemma_options_prefix(
    docs: Seq<(String, Option<Json>)>,
    label: Option<Seq<char>>,
    search: Option<Seq<char>>,
    n: int,
)
    requires
        0 <= n <= docs.len(),
    ensures
        ({
            let m = matching_options(docs.take(n), label, search);
            let all = matching_options(docs, label, search);
            m.len() <= all.len() && forall|j: int| 0 <= j < m.len() ==> m[j] == all[j]
        }),
    decreases docs.len() - n,
{
    if n < docs.len() {
        lemma_options_prefix(docs, label, search, n + 1);
        assert(docs.take(n + 1).drop_last() =~= docs.take(n));
    } else {
        assert(docs.take(n) =~= docs);
    }
}

} // verus!
