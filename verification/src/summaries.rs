//! The counting queries behind dashboards and summaries: which field they
//! group or test, and the SQL each runs over an entity's documents.
use vstd::prelude::*;
use crate::error::{message_of, AppError};
use crate::listing::{json_member, push_member};
use crate::repository::Field;
use crate::text::{chars_of, push_str, str_eq, string_of};
use crate::workflow::status_field_index;

verus! {

broadcast use vstd::string::group_string_axioms;

/// Counts of an entity's documents by the value of one member, in the
/// value's order.
pub open spec fn group_count_sql(name: Seq<char>) -> Seq<char> {
    "SELECT "@ + json_member(name) + ", COUNT(*) FROM _doc WHERE entity_id = ? GROUP BY "@ + json_member(name)
        + " ORDER BY 1"@
}

fn group_count_query(name: &str) -> (r: String)
    ensures
        r@ == group_count_sql(name@),
{
    let mut q = chars_of("SELECT ");
    push_member(&mut q, name);
    push_str(&mut q, ", COUNT(*) FROM _doc WHERE entity_id = ? GROUP BY ");
    push_member(&mut q, name);
    push_str(&mut q, " ORDER BY 1");
    string_of(q.as_slice())
}

fn find_status_name(fields: &Vec<Field>) -> (r: Option<String>)
    ensures
        match status_field_index(fields@, 0) {
            Some(i) => r matches Some(n) && n@ == fields@[i].name@,
            None => r is None,
        },
{
    let mut i: usize = 0;
    while i < fields.len()
        invariant
            i <= fields.len(),
            status_field_index(fields@, 0) == status_field_index(fields@, i as int),
        decreases fields.len() - i,
    {
        if fields[i].is_status {
            return Some(fields[i].name.clone());
        }
        i += 1;
    }
    None
}

/// The count of documents by status: the status field (the first one) and
/// the query, or `None` when the entity has no status field (no counts).
pub fn status_count_plan(fields: &Vec<Field>) -> (r: Option<(String, String)>)
    ensures
        match status_field_index(fields@, 0) {
            Some(i) => r matches Some(p) && p.0@ == fields@[i].name@ && p.1@ == group_count_sql(fields@[i].name@),
            None => r is None,
        },
{
    match find_status_name(fields) {
        Some(n) => {
            let q = group_count_query(n.as_str());
            Some((n, q))
        },
        None => None,
    }
}

/// Index of the first field named `name`.
pub open spec fn field_named(fields: Seq<Field>, name: Seq<char>, from: int) -> Option<int>
    decreases fields.len() - from,
{
    if from < 0 || from >= fields.len() {
        None
    } else if fields[from].name@ == name {
        Some(from)
    } else {
        field_named(fields, name, from + 1)
    }
}

fn find_field_named(fields: &Vec<Field>, name: &str) -> (r: Option<usize>)
    ensures
        match r {
            Some(i) => field_named(fields@, name@, 0) == Some(i as int) && i < fields@.len() && fields@[i as int].name@
                == name@,
            None => field_named(fields@, name@, 0) is None,
        },
{
    let mut i: usize = 0;
    while i < fields.len()
        invariant
            i <= fields.len(),
            field_named(fields@, name@, 0) == field_named(fields@, name@, i as int),
        decreases fields.len() - i,
    {
        if str_eq(fields[i].name.as_str(), name) {
            return Some(i);
        }
        i += 1;
    }
    None
}

/// The count of documents grouped by a field: only a `select` field may
/// group, so that there are few groups. Gives the field's name and the
/// query.
pub fn aggregate_plan(fields: &Vec<Field>, group_by: &str) -> (r: Result<(String, String), AppError>)
    ensures
        match field_named(fields@, group_by@, 0) {
            None => r matches Err(e) && e is BadRequest && message_of(e) == "unknown field: "@ + group_by@,
            Some(i) => if fields@[i].field_type@ != "select"@ {
                r matches Err(e) && e is BadRequest && message_of(e) == "group-by field must be a select field: "@
                    + group_by@
            } else {
                r matches Ok(p) && p.0@ == group_by@ && p.1@ == group_count_sql(group_by@)
            },
        },
{
    let i = match find_field_named(fields, group_by) {
        Some(i) => i,
        None => {
            let mut m = chars_of("unknown field: ");
            push_str(&mut m, group_by);
            return Err(AppError::BadRequest(string_of(m.as_slice())));
        },
    };
    if !str_eq(fields[i].field_type.as_str(), "select") {
        let mut m = chars_of("group-by field must be a select field: ");
        push_str(&mut m, group_by);
        return Err(AppError::BadRequest(string_of(m.as_slice())));
    }
    let name = fields[i].name.clone();
    let q = group_count_query(name.as_str());
    Ok((name, q))
}

/// The queries of a project summary over an entity's documents: the open
/// ones (status not `done`), the overdue ones (open with a past `due_date`,
/// only when the entity has a `due_date` field) and those done this week.
pub struct SummaryQueries {
    pub status_field: String,
    pub open_sql: String,
    pub overdue_sql: Option<String>,
    pub done_sql: String,
}

pub open spec fn open_sql(status: Seq<char>) -> Seq<char> {
    "SELECT COUNT(*) FROM _doc WHERE entity_id = ? AND "@ + json_member(status) + " != 'done'"@
}

pub open spec fn overdue_sql(status: Seq<char>) -> Seq<char> {
    "SELECT COUNT(*) FROM _doc WHERE entity_id = ? AND "@ + json_member(status) + " != 'done' AND "@
        + json_member("due_date"@) + " IS NOT NULL AND "@ + json_member("due_date"@) + " < date('now')"@
}

pub open spec fn done_sql(status: Seq<char>) -> Seq<char> {
    "SELECT COUNT(*) FROM _doc WHERE entity_id = ? AND "@ + json_member(status)
        + " = 'done' AND updated_at >= datetime('now', '-6 days', 'start of day')"@
}

/// The summary's queries, or `None` when the entity has no status field
/// (then every count is zero).
pub fn summary_plan(fields: &Vec<Field>) -> (r: Option<SummaryQueries>)
    ensures
        match status_field_index(fields@, 0) {
            None => r is None,
            Some(i) => r matches Some(q) && q.status_field@ == fields@[i].name@ && q.open_sql@ == open_sql(
                fields@[i].name@,
            ) && q.done_sql@ == done_sql(fields@[i].name@) && (match field_named(fields@, "due_date"@, 0) {
                Some(_) => q.overdue_sql matches Some(o) && o@ == overdue_sql(fields@[i].name@),
                None => q.overdue_sql is None,
            }),
        },
{
    let status = match find_status_name(fields) {
        Some(n) => n,
        None => {
            return None;
        },
    };
    let mut open = chars_of("SELECT COUNT(*) FROM _doc WHERE entity_id = ? AND ");
    push_member(&mut open, status.as_str());
    push_str(&mut open, " != 'done'");
    let overdue = match find_field_named(fields, "due_date") {
        Some(_) => {
            let mut o = chars_of("SELECT COUNT(*) FROM _doc WHERE entity_id = ? AND ");
            push_member(&mut o, status.as_str());
            push_str(&mut o, " != 'done' AND ");
            push_member(&mut o, "due_date");
            push_str(&mut o, " IS NOT NULL AND ");
            push_member(&mut o, "due_date");
            push_str(&mut o, " < date('now')");
            Some(string_of(o.as_slice()))
        },
        None => None,
    };
    let mut done = chars_of("SELECT COUNT(*) FROM _doc WHERE entity_id = ? AND ");
    push_member(&mut done, status.as_str());
    push_str(&mut done, " = 'done' AND updated_at >= datetime('now', '-6 days', 'start of day')");
    Some(SummaryQueries {
        status_field: status,
        open_sql: string_of(open.as_slice()),
        overdue_sql: overdue,
        done_sql: string_of(done.as_slice()),
    })
}

} // verus!
