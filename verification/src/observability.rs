//! Operational log records and the filters for reading them.
use vstd::prelude::*;
use crate::json::Json;
use crate::text::{chars_of, push_str, string_of, string_views};

verus! {

pub struct ObservabilityLog {
    pub id: String,
    pub occurred_at: String,
    pub level: String,
    pub category: String,
    pub action: String,
    pub actor: Option<String>,
    pub request_id: Option<String>,
    pub correlation_id: Option<String>,
    pub target_type: Option<String>,
    pub target_id: Option<String>,
    pub status_code: Option<i64>,
    pub duration_ms: Option<i64>,
    pub message: String,
    pub metadata: Json,
}

pub struct ObservabilityFilter {
    pub category: Option<String>,
    pub level: Option<String>,
    pub actor: Option<String>,
    pub request_id: Option<String>,
    pub correlation_id: Option<String>,
}

impl Default for ObservabilityFilter {
    fn default() -> (r: ObservabilityFilter)
        ensures
            r.category is None && r.level is None && r.actor is None && r.request_id is None
                && r.correlation_id is None,
    {
        ObservabilityFilter {
            category: None,
            level: None,
            actor: None,
            request_id: None,
            correlation_id: None,
        }
    }
}

/// A condition `col = ?` when the filter gives a value for it.
pub open spec fn cond(v: Option<String>, col: Seq<char>) -> Seq<char> {
    if v is Some {
        " AND "@ + col + " = ?"@
    } else {
        Seq::empty()
    }
}

pub open spec fn param(v: Option<String>) -> Seq<Seq<char>> {
    match v {
        Some(x) => seq![x@],
        None => Seq::empty(),
    }
}

/// The conditions of a log listing, joined by `AND`.
pub open spec fn log_where(f: ObservabilityFilter) -> Seq<char> {
    "1=1"@ + cond(f.category, "category"@) + cond(f.level, "level"@) + cond(f.actor, "actor"@) + cond(
        f.request_id,
        "request_id"@,
    ) + cond(f.correlation_id, "correlation_id"@)
}

/// The values bound to the conditions, in their order.
pub open spec fn log_params(f: ObservabilityFilter) -> Seq<Seq<char>> {
    param(f.category) + param(f.level) + param(f.actor) + param(f.request_id) + param(f.correlation_id)
}

/// The page of a log listing: between 1 and 200 records, from a
/// non-negative offset.
pub open spec fn log_page(limit: i64, offset: i64) -> (i64, i64) {
    (if limit < 1 {
        1
    } else if limit > 200 {
        200
    } else {
        limit
    }, if offset < 0 {
        0
    } else {
        offset
    })
}

fn add_condition(sql: &mut Vec<char>, params: &mut Vec<String>, v: &Option<String>, col: &str)
    ensures
        final(sql)@ == old(sql)@ + cond(*v, col@),
        string_views(final(params)@) == string_views(old(params)@) + param(*v),
{
    let ghost before = params@;
    if let Some(x) = v {
        push_str(sql, " AND ");
        push_str(sql, col);
        push_str(sql, " = ?");
        params.push(x.clone());
        assert(string_views(params@) =~= string_views(before) + param(*v));
    } else {
        assert(sql@ =~= old(sql)@ + cond(*v, col@));
        assert(string_views(params@) =~= string_views(before) + param(*v));
    }
}

/// The conditions, bound values and page of a listing of the operational
/// log: one equality per filter member given.
pub fn log_query(filter: &ObservabilityFilter, limit: i64, offset: i64) -> (r: (String, Vec<String>, i64, i64))
    ensures
        r.0@ == log_where(*filter),
        string_views(r.1@) == log_params(*filter),
        (r.2, r.3) == log_page(limit, offset),
{
    let mut sql = chars_of("1=1");
    let mut params: Vec<String> = Vec::new();
    add_condition(&mut sql, &mut params, &filter.category, "category");
    add_condition(&mut sql, &mut params, &filter.level, "level");
    add_condition(&mut sql, &mut params, &filter.actor, "actor");
    add_condition(&mut sql, &mut params, &filter.request_id, "request_id");
    add_condition(&mut sql, &mut params, &filter.correlation_id, "correlation_id");
    assert(sql@ =~= log_where(*filter));
    assert(string_views(params@) =~= log_params(*filter));
    let l = if limit < 1 {
        1
    } else if limit > 200 {
        200
    } else {
        limit
    };
    let o = if offset < 0 {
        0
    } else {
        offset
    };
    (string_of(sql.as_slice()), params, l, o)
}

} // verus!
