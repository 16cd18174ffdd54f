//! Report definitions: columns, filters, grouping, sorting, aggregates and
//! calculated columns over the documents of an entity, and the checks a
//! definition passes before it runs.
use vstd::prelude::*;
use crate::error::Failure;
use crate::formula::validate_syntax;
use crate::json::{clone_json, items_v, jv, member, members_v, opt_jv, Json, JsonV};
use crate::pattern::{split_all, split_text};
use crate::repository::{lemma_members_v_first, lemma_members_v_len};
use crate::text::{
    chars_of, eq_ignore_case, find_char, find_char_from, has_char, is_alnum, is_alnum_char,
    push_str, seq_eq_ignore_case, slice_chars, str_eq, string_from, string_of, string_views,
    vec_views,
};

verus! {

broadcast use vstd::string::group_string_axioms;

pub struct ReportConfig {
    pub fields: Vec<String>,
    pub filters: Vec<ReportFilter>,
    pub group_by: Vec<String>,
    pub sort: Vec<ReportSort>,
    pub aggregates: Vec<ReportAggregate>,
    pub calculated: Vec<CalculatedColumn>,
    pub date_range: Option<DateRange>,
    pub date_field: Option<String>,
    pub relation_id: Option<String>,
}

pub struct ReportFilter {
    pub field: String,
    pub op: String,
    pub value: Json,
}

pub struct ReportSort {
    pub field: String,
    pub direction: String,
}

pub struct ReportAggregate {
    pub field: String,
    pub op: String,
    pub alias: Option<String>,
}

pub struct CalculatedColumn {
    pub name: String,
    pub expression: String,
}

pub struct DateRange {
    pub from: Option<String>,
    pub to: Option<String>,
}

pub struct ReportResult {
    pub columns: Vec<String>,
    pub rows: Vec<Json>,
    pub total: usize,
}

/// A report name: ASCII letters, digits and `_`, at least one.
pub open spec fn report_name(s: Seq<char>) -> bool {
    s.len() > 0 && forall|i: int| 0 <= i < s.len() ==> is_alnum(#[trigger] s[i]) || s[i] == '_'
}

pub fn valid_name(s: &str) -> (r: bool)
    ensures
        r == report_name(s@),
{
    let v = chars_of(s);
    if v.len() == 0 {
        return false;
    }
    let mut i: usize = 0;
    while i < v.len()
        invariant
            i <= v.len(),
            v@ == s@,
            forall|k: int| 0 <= k < i ==> is_alnum(#[trigger] v@[k]) || v@[k] == '_',
        decreases v.len() - i,
    {
        if !(is_alnum_char(v[i]) || v[i] == '_') {
            return false;
        }
        i += 1;
    }
    true
}

/// The part of a field reference before its first `.`.
pub open spec fn base_name(s: Seq<char>) -> Seq<char> {
    s.take(find_char_from(s, 0, '.'))
}

/// The fields of the aggregates other than `count`, in order.
pub open spec fn counted_fields(a: Seq<ReportAggregate>) -> Seq<Seq<char>>
    decreases a.len(),
{
    if a.len() == 0 {
        Seq::empty()
    } else if a.last().op@ != "count"@ {
        counted_fields(a.drop_last()).push(a.last().field@)
    } else {
        counted_fields(a.drop_last())
    }
}

/// The field names a report refers to, in the order they are checked: its
/// columns, grouping, sort keys, filters, then the fields of aggregates
/// other than `count`.
pub open spec fn referenced_names(c: ReportConfig) -> Seq<Seq<char>> {
    string_views(c.fields@) + string_views(c.group_by@) + c.sort@.map_values(
        |x: ReportSort| x.field@,
    ) + c.filters@.map_values(|x: ReportFilter| x.field@) + counted_fields(c.aggregates@)
}

/// A reference names a field of the entity (its part before any `.`).
pub open spec fn known_reference(n: Seq<char>, names: Seq<Seq<char>>) -> bool {
    report_name(base_name(n)) && names.contains(base_name(n))
}

/// Index of the first reference among the first `k` that is not known.
pub open spec fn first_unknown(refs: Seq<Seq<char>>, names: Seq<Seq<char>>, k: int) -> Option<int>
    decreases k,
{
    if k <= 0 {
        None
    } else if first_unknown(refs, names, k - 1) is Some {
        first_unknown(refs, names, k - 1)
    } else if !known_reference(refs[k - 1], names) {
        Some(k - 1)
    } else {
        None
    }
}

/// The references without a `.`, in order.
pub open spec fn plain_references(refs: Seq<Seq<char>>) -> Seq<Seq<char>>
    decreases refs.len(),
{
    if refs.len() == 0 {
        Seq::empty()
    } else if !has_char(refs.last(), '.') {
        plain_references(refs.drop_last()).push(refs.last())
    } else {
        plain_references(refs.drop_last())
    }
}

proof fn lemma_first_unknown_stable(refs: Seq<Seq<char>>, names: Seq<Seq<char>>, i: int, n: int)
    requires
        0 <= i <= n,
        first_unknown(refs, names, i) is Some,
    ensures
        first_unknown(refs, names, n) == first_unknown(refs, names, i),
    decreases n - i,
{
    if n > i {
        lemma_first_unknown_stable(refs, names, i, n - 1);
    }
}

proof fn lemma_first_unknown_bound(refs: Seq<Seq<char>>, names: Seq<Seq<char>>, n: int)
    ensures
        first_unknown(refs, names, n) matches Some(i) ==> 0 <= i < n,
    decreases n,
{
    if n > 0 {
        lemma_first_unknown_bound(refs, names, n - 1);
    }
}

fn contains_name(names: &Vec<String>, n: &Vec<char>) -> (r: bool)
    ensures
        r == string_views(names@).contains(n@),
{
    let mut i: usize = 0;
    while i < names.len()
        invariant
            i <= names.len(),
            forall|k: int| 0 <= k < i ==> names@[k]@ != n@,
        decreases names.len() - i,
    {
        if crate::text::seq_eq(&chars_of(names[i].as_str()), n) {
            assert(string_views(names@)[i as int] == n@);
            return true;
        }
        i += 1;
    }
    assert forall|k: int| 0 <= k < string_views(names@).len() implies string_views(names@)[k] != n@ by {
        assert(string_views(names@)[k] == names@[k]@);
    }
    false
}

fn push_views(out: &mut Vec<Vec<char>>, v: &Vec<String>)
    ensures
        vec_views(final(out)@) == vec_views(old(out)@) + string_views(v@),
{
    let mut i: usize = 0;
    while i < v.len()
        invariant
            i <= v.len(),
            vec_views(out@) == vec_views(old(out)@) + string_views(v@.take(i as int)),
        decreases v.len() - i,
    {
        let ghost before = out@;
        out.push(chars_of(v[i].as_str()));
        assert(vec_views(out@) =~= vec_views(before).push(v@[i as int]@));
        assert(string_views(v@.take(i + 1)) =~= string_views(v@.take(i as int)).push(v@[i as int]@));
        i += 1;
    }
    assert(v@.take(v.len() as int) =~= v@);
}

fn collect_references(c: &ReportConfig) -> (r: Vec<Vec<char>>)
    ensures
        vec_views(r@) == referenced_names(*c),
{
    let mut out: Vec<Vec<char>> = Vec::new();
    push_views(&mut out, &c.fields);
    push_views(&mut out, &c.group_by);
    let ghost base = vec_views(out@);
    let mut i: usize = 0;
    while i < c.sort.len()
        invariant
            i <= c.sort.len(),
            vec_views(out@) == base + c.sort@.take(i as int).map_values(|x: ReportSort| x.field@),
        decreases c.sort.len() - i,
    {
        let ghost before = out@;
        out.push(chars_of(c.sort[i].field.as_str()));
        assert(vec_views(out@) =~= vec_views(before).push(c.sort@[i as int].field@));
        assert(c.sort@.take(i + 1).map_values(|x: ReportSort| x.field@) =~= c.sort@.take(
            i as int,
        ).map_values(|x: ReportSort| x.field@).push(c.sort@[i as int].field@));
        i += 1;
    }
    assert(c.sort@.take(c.sort.len() as int) =~= c.sort@);
    let ghost base = vec_views(out@);
    let mut i: usize = 0;
    while i < c.filters.len()
        invariant
            i <= c.filters.len(),
            vec_views(out@) == base + c.filters@.take(i as int).map_values(|x: ReportFilter| x.field@),
        decreases c.filters.len() - i,
    {
        let ghost before = out@;
        out.push(chars_of(c.filters[i].field.as_str()));
        assert(vec_views(out@) =~= vec_views(before).push(c.filters@[i as int].field@));
        assert(c.filters@.take(i + 1).map_values(|x: ReportFilter| x.field@) =~= c.filters@.take(
            i as int,
        ).map_values(|x: ReportFilter| x.field@).push(c.filters@[i as int].field@));
        i += 1;
    }
    assert(c.filters@.take(c.filters.len() as int) =~= c.filters@);
    let ghost base = vec_views(out@);
    let mut i: usize = 0;
    while i < c.aggregates.len()
        invariant
            i <= c.aggregates.len(),
            vec_views(out@) == base + counted_fields(c.aggregates@.take(i as int)),
        decreases c.aggregates.len() - i,
    {
        assert(c.aggregates@.take(i + 1).drop_last() =~= c.aggregates@.take(i as int));
        if !str_eq(c.aggregates[i].op.as_str(), "count") {
            let ghost before = out@;
            out.push(chars_of(c.aggregates[i].field.as_str()));
            assert(vec_views(out@) =~= vec_views(before).push(c.aggregates@[i as int].field@));
        }
        i += 1;
    }
    assert(c.aggregates@.take(c.aggregates.len() as int) =~= c.aggregates@);
    assert(vec_views(out@) =~= referenced_names(*c));
    out
}

/// The first problem with the field references of a report, given the
/// names of the entity's fields: a reference to an unknown field (by its
/// part before any `.`), then an unknown date field.
pub open spec fn reference_error(c: ReportConfig, names: Seq<Seq<char>>) -> Option<Seq<char>> {
    let refs = referenced_names(c);
    match first_unknown(refs, names, refs.len() as int) {
        Some(i) => Some("unknown report field: "@ + refs[i]),
        None => match c.date_field {
            Some(d) => if !(report_name(d@) && names.contains(d@)) {
                Some("unknown report date field: "@ + d@)
            } else {
                None
            },
            None => None,
        },
    }
}

/// The fields a report reads whole: its references without a `.`, then its
/// date field.
pub open spec fn whole_fields(c: ReportConfig) -> Seq<Seq<char>> {
    plain_references(referenced_names(c)) + match c.date_field {
        Some(d) => seq![d@],
        None => Seq::empty(),
    }
}

/// Checks that a report refers to fields of its entity (`names`); returns
/// the fields it reads whole, whose read permission the caller checks.
pub fn check_report_fields(config: &ReportConfig, names: &Vec<String>) -> (r: Result<
    Vec<String>,
    Failure,
>)
    ensures
        match reference_error(*config, string_views(names@)) {
            Some(m) => r matches Err(Failure::Other(s)) && s@ == m,
            None => r matches Ok(v) && string_views(v@) == whole_fields(*config),
        },
{
    let refs = collect_references(config);
    let ghost ns = string_views(names@);
    let mut whole: Vec<String> = Vec::new();
    let mut i: usize = 0;
    while i < refs.len()
        invariant
            i <= refs.len(),
            vec_views(refs@) == referenced_names(*config),
            ns == string_views(names@),
            first_unknown(vec_views(refs@), ns, i as int) is None,
            string_views(whole@) == plain_references(vec_views(refs@).take(i as int)),
        decreases refs.len() - i,
    {
        let n = &refs[i];
        let dot = find_char(n, 0, '.');
        let base = slice_chars(n, 0, dot);
        assert(base@ == base_name(vec_views(refs@)[i as int]));
        let base_s = string_of(base.as_slice());
        assert(vec_views(refs@).take(i + 1).drop_last() =~= vec_views(refs@).take(i as int));
        if !valid_name(base_s.as_str()) || !contains_name(names, &base) {
            proof {
                lemma_first_unknown_stable(vec_views(refs@), ns, i + 1, refs@.len() as int);
            }
            let mut m = chars_of("unknown report field: ");
            crate::text::push_all(&mut m, n);
            return Err(Failure::Other(string_of(m.as_slice())));
        }
        if dot == n.len() {
            let ghost before = whole@;
            whole.push(base_s);
            assert(base@ =~= n@);
            assert(!has_char(n@, '.'));
            assert(string_views(whole@) =~= string_views(before).push(n@));
        } else {
            assert(has_char(n@, '.'));
        }
        i += 1;
    }
    assert(vec_views(refs@).take(refs.len() as int) =~= vec_views(refs@));
    if let Some(d) = &config.date_field {
        if !valid_name(d.as_str()) || !contains_name(names, &chars_of(d.as_str())) {
            let mut m = chars_of("unknown report date field: ");
            push_str(&mut m, d.as_str());
            return Err(Failure::Other(string_of(m.as_slice())));
        }
        let ghost before = whole@;
        whole.push(d.clone());
        assert(string_views(whole@) =~= string_views(before).push(d@));
    } else {
        assert(string_views(whole@) =~= string_views(whole@) + Seq::<Seq<char>>::empty());
    }
    Ok(whole)
}

pub open spec fn aggregate_op_ok(op: Seq<char>) -> bool {
    op == "count"@ || op == "sum"@ || op == "avg"@ || op == "min"@ || op == "max"@
}

pub open spec fn direction_ok(d: Seq<char>) -> bool {
    d.len() == 0 || eq_ignore_case(d, "asc"@) || eq_ignore_case(d, "desc"@)
}

/// Index of the first aggregate with an unsupported operation.
pub open spec fn first_bad_aggregate(a: Seq<ReportAggregate>, k: int) -> Option<int>
    decreases k,
{
    if k <= 0 {
        None
    } else if first_bad_aggregate(a, k - 1) is Some {
        first_bad_aggregate(a, k - 1)
    } else if !aggregate_op_ok(a[k - 1].op@) {
        Some(k - 1)
    } else {
        None
    }
}

/// The first problem with the operations of a report: an unsupported
/// aggregate, then an unsupported sort direction, then a calculated column
/// with an invalid name or formula.
pub open spec fn operations_ok_upto_calc(c: ReportConfig) -> bool {
    first_bad_aggregate(c.aggregates@, c.aggregates@.len() as int) is None && forall|i: int|
        0 <= i < c.sort@.len() ==> direction_ok((#[trigger] c.sort@[i]).direction@)
}

proof fn lemma_bad_aggregate_stable(a: Seq<ReportAggregate>, i: int, n: int)
    requires
        0 <= i <= n,
        first_bad_aggregate(a, i) is Some,
    ensures
        first_bad_aggregate(a, n) == first_bad_aggregate(a, i),
    decreases n - i,
{
    if n > i {
        lemma_bad_aggregate_stable(a, i, n - 1);
    }
}

/// Checks the aggregate operations, the sort directions and the calculated
/// columns of a report.
pub fn check_report_operations(config: &ReportConfig) -> (r: Result<(), Failure>)
    ensures
        first_bad_aggregate(config.aggregates@, config.aggregates@.len() as int) matches Some(i)
            ==> (r matches Err(Failure::Other(s)) && s@ == "unsupported report aggregate: "@
            + config.aggregates@[i].op@),
        first_bad_aggregate(config.aggregates@, config.aggregates@.len() as int) is None && !(
        forall|i: int|
            0 <= i < config.sort@.len() ==> direction_ok((#[trigger] config.sort@[i]).direction@))
            ==> (r matches Err(Failure::Other(s)) && s@ == "unsupported report sort direction"@),
        r is Ok ==> operations_ok_upto_calc(*config) && forall|i: int|
            0 <= i < config.calculated@.len() ==> report_name(
                (#[trigger] config.calculated@[i]).name@,
            ) && crate::formula::syntax_valid(config.calculated@[i].expression@),
        operations_ok_upto_calc(*config) && (forall|i: int|
            0 <= i < config.calculated@.len() ==> report_name(
                (#[trigger] config.calculated@[i]).name@,
            ) && crate::formula::syntax_valid(config.calculated@[i].expression@)) ==> r is Ok,
{
    let a = &config.aggregates;
    let mut i: usize = 0;
    while i < a.len()
        invariant
            i <= a.len(),
            first_bad_aggregate(a@, i as int) is None,
            *a == config.aggregates,
        decreases a.len() - i,
    {
        let op = a[i].op.as_str();
        if !(str_eq(op, "count") || str_eq(op, "sum") || str_eq(op, "avg") || str_eq(op, "min")
            || str_eq(op, "max")) {
            proof {
                lemma_bad_aggregate_stable(a@, i + 1, a@.len() as int);
            }
            let mut m = chars_of("unsupported report aggregate: ");
            push_str(&mut m, op);
            return Err(Failure::Other(string_of(m.as_slice())));
        }
        i += 1;
    }
    let mut i: usize = 0;
    while i < config.sort.len()
        invariant
            i <= config.sort.len(),
            first_bad_aggregate(a@, a@.len() as int) is None,
            *a == config.aggregates,
            forall|k: int| 0 <= k < i ==> direction_ok((#[trigger] config.sort@[k]).direction@),
        decreases config.sort.len() - i,
    {
        let d = chars_of(config.sort[i].direction.as_str());
        if !(d.len() == 0 || seq_eq_ignore_case(&d, &chars_of("asc")) || seq_eq_ignore_case(
            &d,
            &chars_of("desc"),
        )) {
            return Err(Failure::Other(string_from("unsupported report sort direction")));
        }
        i += 1;
    }
    let mut i: usize = 0;
    while i < config.calculated.len()
        invariant
            i <= config.calculated.len(),
            operations_ok_upto_calc(*config),
            forall|k: int|
                0 <= k < i ==> report_name((#[trigger] config.calculated@[k]).name@)
                    && crate::formula::syntax_valid(config.calculated@[k].expression@),
        decreases config.calculated.len() - i,
    {
        if !valid_name(config.calculated[i].name.as_str()) {
            return Err(Failure::Other(string_from("invalid calculated column name")));
        }
        match validate_syntax(config.calculated[i].expression.as_str()) {
            Ok(()) => {},
            Err(e) => {
                return Err(Failure::App(e));
            },
        }
        i += 1;
    }
    Ok(())
}

// ---------------------------------------------------------------------------
// Values of a row
// ---------------------------------------------------------------------------

/// First member with key `k` of an object's members.
pub open spec fn member_v(es: Seq<(Seq<char>, JsonV)>, k: Seq<char>) -> Option<JsonV>
    decreases es.len(),
{
    if es.len() == 0 {
        None
    } else if es[0].0 == k {
        Some(es[0].1)
    } else {
        member_v(es.drop_first(), k)
    }
}

/// The member `k` of an object, as a sequence of at most one value.
pub open spec fn found_in(v: JsonV, k: Seq<char>) -> Seq<JsonV> {
    match v {
        JsonV::Object(es) => match member_v(es, k) {
            Some(x) => seq![x],
            None => Seq::empty(),
        },
        _ => Seq::empty(),
    }
}

/// The members `k` of the objects among `items`, in order.
pub open spec fn items_found(items: Seq<JsonV>, k: Seq<char>) -> Seq<JsonV>
    decreases items.len(),
{
    if items.len() == 0 {
        Seq::empty()
    } else {
        items_found(items.drop_last(), k) + found_in(items.last(), k)
    }
}

/// One step down a path: the member `k` of each object, and of each object
/// inside each array, in order.
pub open spec fn step_values(vals: Seq<JsonV>, k: Seq<char>) -> Seq<JsonV>
    decreases vals.len(),
{
    if vals.len() == 0 {
        Seq::empty()
    } else {
        step_values(vals.drop_last(), k) + match vals.last() {
            JsonV::Array(items) => items_found(items, k),
            other => found_in(other, k),
        }
    }
}

/// Following `keys` from `vals`; nothing once a step finds nothing.
pub open spec fn walk(vals: Seq<JsonV>, keys: Seq<Seq<char>>) -> Seq<JsonV>
    decreases keys.len(),
{
    if keys.len() == 0 {
        vals
    } else if step_values(vals, keys[0]).len() == 0 {
        Seq::empty()
    } else {
        walk(step_values(vals, keys[0]), keys.drop_first())
    }
}

/// The value of a field of a report row: the member named by the whole
/// field if there is one; else the values reached by following its
/// `.`-separated parts (through arrays of objects too): null when none,
/// the value when one, an array of them when several.
pub open spec fn value_at(row: JsonV, field: Seq<char>) -> JsonV {
    let direct = match row {
        JsonV::Object(es) => member_v(es, field),
        _ => None,
    };
    if direct is Some {
        direct->0
    } else {
        let c = walk(seq![row], split_all(field, "."@));
        if c.len() == 0 {
            JsonV::Null
        } else if c.len() == 1 {
            c[0]
        } else {
            JsonV::Array(c)
        }
    }
}

pub proof fn lemma_member_v(e: Seq<(String, Json)>, k: Seq<char>)
    ensures
        opt_jv(member(e, k)) == member_v(members_v(e), k),
    decreases e.len(),
{
    lemma_members_v_len(e);
    if e.len() > 0 {
        lemma_members_v_first(e);
        assert(members_v(e).drop_first() =~= members_v(e.drop_first()));
        lemma_member_v(e.drop_first(), k);
    }
}

proof fn lemma_items_v_push(s: Seq<Json>, x: Json)
    ensures
        items_v(s.push(x)) == items_v(s).push(jv(x)),
{
    assert(s.push(x).drop_last() =~= s);
}

fn found_exec(v: &Json, k: &str, out: &mut Vec<Json>)
    ensures
        items_v(final(out)@) == items_v(old(out)@) + found_in(jv(*v), k@),
{
    match v {
        Json::Object(e) => {
            proof {
                lemma_member_v(e@, k@);
            }
            match v.get(k) {
                Some(x) => {
                    let c = clone_json(x);
                    let ghost before = out@;
                    out.push(c);
                    proof {
                        lemma_items_v_push(before, c);
                    }
                    assert(items_v(out@) =~= items_v(before) + seq![jv(*x)]);
                },
                None => {
                    assert(items_v(out@) =~= items_v(out@) + Seq::<JsonV>::empty());
                },
            }
        },
        _ => {
            assert(items_v(out@) =~= items_v(out@) + Seq::<JsonV>::empty());
        },
    }
}

proof fn lemma_items_v_take(s: Seq<Json>, i: int)
    requires
        0 <= i < s.len(),
    ensures
        items_v(s.take(i + 1)) == items_v(s.take(i)).push(jv(s[i])),
{
    assert(s.take(i + 1).drop_last() =~= s.take(i));
}

proof fn lemma_items_v_len(s: Seq<Json>)
    ensures
        items_v(s).len() == s.len(),
    decreases s.len(),
{
    if s.len() > 0 {
        lemma_items_v_len(s.drop_last());
    }
}

proof fn lemma_items_v_index(s: Seq<Json>, i: int)
    requires
        0 <= i < s.len(),
    ensures
        items_v(s)[i] == jv(s[i]),
    decreases s.len(),
{
    lemma_items_v_len(s.drop_last());
    if i < s.len() - 1 {
        lemma_items_v_index(s.drop_last(), i);
    }
}

fn step_exec(current: &Vec<Json>, k: &str) -> (r: Vec<Json>)
    ensures
        items_v(r@) == step_values(items_v(current@), k@),
{
    let mut next: Vec<Json> = Vec::new();
    let mut i: usize = 0;
    assert(items_v(next@) =~= Seq::<JsonV>::empty());
    while i < current.len()
        invariant
            i <= current.len(),
            items_v(next@) == step_values(items_v(current@.take(i as int)), k@),
        decreases current.len() - i,
    {
        proof {
            lemma_items_v_take(current@, i as int);
            assert(items_v(current@.take(i + 1)).drop_last() =~= items_v(current@.take(i as int)));
        }
        match &current[i] {
            Json::Array(items) => {
                let ghost start = items_v(next@);
                let mut j: usize = 0;
                assert(start + items_found(items_v(items@.take(0)), k@) =~= start) by {
                    assert(items@.take(0) =~= Seq::<Json>::empty());
                }
                while j < items.len()
                    invariant
                        j <= items.len(),
                        items_v(next@) == start + items_found(items_v(items@.take(j as int)), k@),
                    decreases items.len() - j,
                {
                    proof {
                        lemma_items_v_take(items@, j as int);
                        assert(items_v(items@.take(j + 1)).drop_last() =~= items_v(items@.take(j as int)));
                    }
                    found_exec(&items[j], k, &mut next);
                    proof {
                        assert(items_v(next@) =~= start + items_found(items_v(items@.take(j + 1)), k@));
                    }
                    j += 1;
                }
                assert(items@.take(items.len() as int) =~= items@);
            },
            other => {
                found_exec(other, k, &mut next);
            },
        }
        i += 1;
    }
    assert(current@.take(current.len() as int) =~= current@);
    next
}

/// The value of a field of a report row (see `value_at`).
pub fn get_value(row: &Json, field: &str) -> (r: Json)
    ensures
        jv(r) == value_at(jv(*row), field@),
{
    if let Json::Object(e) = row {
        proof {
            lemma_member_v(e@, field@);
        }
        if let Some(v) = row.get(field) {
            return clone_json(v);
        }
    }
    proof {
        reveal_strlit(".");
    }
    let keys = split_text(&chars_of(field), &chars_of("."));
    let mut current: Vec<Json> = Vec::new();
    current.push(clone_json(row));
    assert(items_v(current@) =~= seq![jv(*row)]) by {
        lemma_items_v_push(Seq::<Json>::empty(), current@[0]);
    }
    let mut i: usize = 0;
    assert(vec_views(keys@).skip(0) =~= vec_views(keys@));
    while i < keys.len()
        invariant
            i <= keys.len(),
            vec_views(keys@) == split_all(field@, "."@),
            walk(seq![jv(*row)], vec_views(keys@)) == walk(items_v(current@), vec_views(keys@).skip(i as int)),
            items_v(current@).len() > 0,
            (match jv(*row) {
                JsonV::Object(es) => member_v(es, field@),
                _ => None,
            }) is None,
        decreases keys.len() - i,
    {
        let ks = string_of(keys[i].as_slice());
        assert(vec_views(keys@).skip(i as int)[0] == keys@[i as int]@);
        assert(vec_views(keys@).skip(i as int).drop_first() =~= vec_views(keys@).skip(i + 1));
        let next = step_exec(&current, ks.as_str());
        proof {
            lemma_items_v_len(next@);
        }
        if next.len() == 0 {
            return Json::Null;
        }
        current = next;
        i += 1;
    }
    assert(vec_views(keys@).skip(keys.len() as int) =~= Seq::<Seq<char>>::empty());
    proof {
        lemma_items_v_len(current@);
    }
    if current.len() == 1 {
        proof {
            lemma_items_v_index(current@, 0);
        }
        let mut c = current;
        return c.pop().unwrap();
    }
    Json::Array(current)
}

} // verus!
