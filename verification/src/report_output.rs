//! What a report hands back besides its computed values: which filter
//! operators it runs, which rows its date range keeps, how rows fall into
//! groups, and the sorted, duplicate-free list of its columns.
use vstd::prelude::*;
use crate::error::Failure;
use crate::json::{jv, Json, JsonV};
use crate::report::{get_value, value_at, DateRange, ReportAggregate, ReportConfig, ReportFilter};
use crate::text::{
    chars_of, contains, contains_seq, occurs_at, ends_with, ends_with_seq, starts_with, starts_with_seq,
    lemma_lex_irreflexive, lemma_lex_total, lemma_lex_transitive, lex_less, lex_lt,
    push_str, seq_eq, str_eq, string_from, string_of, string_views, vec_views,
};

verus! {

broadcast use vstd::string::group_string_axioms;

// ---------------------------------------------------------------------------
// Filter operators
// ---------------------------------------------------------------------------

/// The comparison operators a report filter may use.
pub open spec fn filter_op_ok(op: Seq<char>) -> bool {
    ||| op == "eq"@
    ||| op == "="@
    ||| op == "neq"@
    ||| op == "!="@
    ||| op == "contains"@
    ||| op == "starts_with"@
    ||| op == "ends_with"@
    ||| op == "gt"@
    ||| op == ">"@
    ||| op == "gte"@
    ||| op == ">="@
    ||| op == "lt"@
    ||| op == "<"@
    ||| op == "lte"@
    ||| op == "<="@
    ||| op == "in"@
    ||| op == "is_null"@
    ||| op == "not_null"@
}

pub fn is_filter_op(op: &str) -> (r: bool)
    ensures
        r == filter_op_ok(op@),
{
    str_eq(op, "eq") || str_eq(op, "=") || str_eq(op, "neq") || str_eq(op, "!=")
        || str_eq(op, "contains") || str_eq(op, "starts_with") || str_eq(op, "ends_with")
        || str_eq(op, "gt") || str_eq(op, ">") || str_eq(op, "gte") || str_eq(op, ">=")
        || str_eq(op, "lt") || str_eq(op, "<") || str_eq(op, "lte") || str_eq(op, "<=")
        || str_eq(op, "in") || str_eq(op, "is_null") || str_eq(op, "not_null")
}

/// Refuses a report whose filters use an operator outside `filter_op_ok`.
pub fn check_filter_operators(config: &ReportConfig) -> (r: Result<(), Failure>)
    ensures
        r is Ok <==> forall|i: int|
            0 <= i < config.filters@.len() ==> filter_op_ok(
                (#[trigger] config.filters@[i]).op@,
            ),
        r matches Err(e) ==> (e matches Failure::Other(m) && m@
            == "unsupported report filter operator"@),
{
    let mut i: usize = 0;
    while i < config.filters.len()
        invariant
            i <= config.filters.len(),
            forall|j: int| 0 <= j < i ==> filter_op_ok((#[trigger] config.filters@[j]).op@),
        decreases config.filters.len() - i,
    {
        if !is_filter_op(config.filters[i].op.as_str()) {
            return Err(Failure::Other(string_from("unsupported report filter operator")));
        }
        i += 1;
    }
    Ok(())
}

/// The text of a value for the text operators: a string's text, and the
/// empty text for anything else.
pub open spec fn text_of(v: JsonV) -> Seq<char> {
    match v {
        JsonV::String(s) => s,
        _ => Seq::empty(),
    }
}

/// The operators that compare values as numbers or by equality of JSON
/// values, left to the caller.
pub open spec fn value_op(op: Seq<char>) -> bool {
    ||| op == "eq"@
    ||| op == "="@
    ||| op == "neq"@
    ||| op == "!="@
    ||| op == "gt"@
    ||| op == ">"@
    ||| op == "gte"@
    ||| op == ">="@
    ||| op == "lt"@
    ||| op == "<"@
    ||| op == "lte"@
    ||| op == "<="@
    ||| op == "in"@
}

/// Whether a row passes a filter that needs no numbers: the text operators
/// on the texts of the row's value and the filter's value, the null tests,
/// and `false` for an unknown operator; `None` for the operators of
/// `value_op`.
pub open spec fn text_filter(row: JsonV, f: ReportFilter) -> Option<bool> {
    let a = value_at(row, f.field@);
    let b = jv(f.value);
    let op = f.op@;
    if op == "contains"@ {
        Some(contains(text_of(a), text_of(b)))
    } else if op == "starts_with"@ {
        Some(starts_with(text_of(a), text_of(b)))
    } else if op == "ends_with"@ {
        Some(ends_with(text_of(a), text_of(b)))
    } else if op == "is_null"@ {
        Some(a == JsonV::Null)
    } else if op == "not_null"@ {
        Some(a != JsonV::Null)
    } else if value_op(op) {
        None
    } else {
        Some(false)
    }
}

/// What the text operators answer on a string value `a` of the row and a
/// string `b` in the filter: `starts_with` whether `b` begins `a`,
/// `ends_with` whether it ends `a`, and `contains` whether it occurs in `a`
/// anywhere.
pub proof fn lemma_text_operators(row: JsonV, f: ReportFilter, a: Seq<char>, b: Seq<char>)
    requires
        value_at(row, f.field@) == JsonV::String(a),
        jv(f.value) == JsonV::String(b),
    ensures
        f.op@ == "starts_with"@ ==> text_filter(row, f) == Some(
            b.len() <= a.len() && a.subrange(0, b.len() as int) == b,
        ),
        f.op@ == "ends_with"@ ==> text_filter(row, f) == Some(
            b.len() <= a.len() && a.subrange(a.len() - b.len(), a.len() as int) == b,
        ),
        f.op@ == "contains"@ ==> text_filter(row, f) == Some(
            exists|i: int| 0 <= i && i + b.len() <= a.len() && #[trigger] a.subrange(i, i + b.len()) == b,
        ),
{
    let op = f.op@;
    reveal_strlit("contains");
    reveal_strlit("starts_with");
    reveal_strlit("ends_with");
    reveal_strlit("is_null");
    reveal_strlit("not_null");
    if op == "contains"@ {
        assert(op.len() == 8 && op[0] == 'c' && op[1] == 'o');
        let found = exists|i: int| 0 <= i && i + b.len() <= a.len() && #[trigger] a.subrange(i, i + b.len()) == b;
        assert(contains(a, b) == found) by {
            if contains(a, b) {
                let i = choose|i: int| occurs_at(a, b, i);
                assert(a.subrange(i, i + b.len()) == b);
            }
            if found {
                let i = choose|i: int| 0 <= i && i + b.len() <= a.len() && #[trigger] a.subrange(i, i + b.len()) == b;
                assert(occurs_at(a, b, i));
            }
        }
    }
    if op == "starts_with"@ {
        assert(op.len() == 11 && op[0] == 's' && op[1] == 't');
    }
    if op == "ends_with"@ {
        assert(op.len() == 9 && op[0] == 'e' && op[1] == 'n');
    }
    if op == "is_null"@ {
        assert(op.len() == 7 && op[0] == 'i' && op[1] == 's');
    }
    if op == "not_null"@ {
        assert(op.len() == 8 && op[0] == 'n' && op[1] == 'o');
    }
}

/// The null tests answer whether the row's value is null, whatever the
/// filter's value.
pub proof fn lemma_null_operators(row: JsonV, f: ReportFilter)
    ensures
        f.op@ == "is_null"@ ==> text_filter(row, f) == Some(value_at(row, f.field@) == JsonV::Null),
        f.op@ == "not_null"@ ==> text_filter(row, f) == Some(value_at(row, f.field@) != JsonV::Null),
{
    let op = f.op@;
    reveal_strlit("contains");
    reveal_strlit("starts_with");
    reveal_strlit("ends_with");
    reveal_strlit("is_null");
    reveal_strlit("not_null");
    if op == "contains"@ {
        assert(op.len() == 8 && op[0] == 'c' && op[1] == 'o');
    }
    if op == "starts_with"@ {
        assert(op.len() == 11 && op[0] == 's' && op[1] == 't');
    }
    if op == "ends_with"@ {
        assert(op.len() == 9 && op[0] == 'e' && op[1] == 'n');
    }
    if op == "is_null"@ {
        assert(op.len() == 7 && op[0] == 'i' && op[1] == 's');
    }
    if op == "not_null"@ {
        assert(op.len() == 8 && op[0] == 'n' && op[1] == 'o');
    }
}

fn text_of_exec(v: &Json) -> (r: Vec<char>)
    ensures
        r@ == text_of(jv(*v)),
{
    match v {
        Json::String(s) => chars_of(s.as_str()),
        _ => Vec::new(),
    }
}

/// Decides a report filter that needs no numbers (see `text_filter`).
pub fn apply_text_filter(row: &Json, f: &ReportFilter) -> (r: Option<bool>)
    ensures
        r == text_filter(jv(*row), *f),
{
    let a = get_value(row, f.field.as_str());
    let op = f.op.as_str();
    if str_eq(op, "contains") {
        Some(contains_seq(&text_of_exec(&a), &text_of_exec(&f.value)))
    } else if str_eq(op, "starts_with") {
        Some(starts_with_seq(&text_of_exec(&a), &text_of_exec(&f.value)))
    } else if str_eq(op, "ends_with") {
        Some(ends_with_seq(&text_of_exec(&a), &text_of_exec(&f.value)))
    } else if str_eq(op, "is_null") || str_eq(op, "not_null") {
        let null = match a {
            Json::Null => true,
            _ => false,
        };
        Some(if str_eq(op, "is_null") { null } else { !null })
    } else if str_eq(op, "eq") || str_eq(op, "=") || str_eq(op, "neq") || str_eq(op, "!=") || str_eq(op, "gt")
        || str_eq(op, ">") || str_eq(op, "gte") || str_eq(op, ">=") || str_eq(op, "lt") || str_eq(op, "<")
        || str_eq(op, "lte") || str_eq(op, "<=") || str_eq(op, "in")
    {
        None
    } else {
        Some(false)
    }
}

// ---------------------------------------------------------------------------
// Date range
// ---------------------------------------------------------------------------

/// The text a row holds in its date field, or nothing when that is not a
/// string.
pub open spec fn date_text(row: JsonV, field: Seq<char>) -> Seq<char> {
    match value_at(row, field) {
        JsonV::String(s) => s,
        _ => Seq::empty(),
    }
}

/// A text lies in a range when it sorts neither before `from` nor after `to`.
pub open spec fn in_range(x: Seq<char>, range: DateRange) -> bool {
    &&& (range.from matches Some(f) ==> !lex_lt(x, f@))
    &&& (range.to matches Some(t) ==> !lex_lt(t@, x))
}

/// Whether a report keeps a row for its date range: always when it has no
/// range or no date field.
pub open spec fn date_kept(row: JsonV, config: ReportConfig) -> bool {
    match (config.date_range, config.date_field) {
        (Some(range), Some(field)) => in_range(date_text(row, field@), range),
        _ => true,
    }
}

pub fn row_in_date_range(row: &Json, config: &ReportConfig) -> (r: bool)
    ensures
        r == date_kept(jv(*row), *config),
{
    match (&config.date_range, &config.date_field) {
        (Some(range), Some(field)) => {
            let value = get_value(row, field.as_str());
            let x: Vec<char> = match &value {
                Json::String(s) => chars_of(s.as_str()),
                _ => Vec::new(),
            };
            assert(x@ == date_text(jv(*row), field@));
            let after_from = match &range.from {
                Some(f) => !lex_less(&x, &chars_of(f.as_str())),
                None => true,
            };
            let before_to = match &range.to {
                Some(t) => !lex_less(&chars_of(t.as_str()), &x),
                None => true,
            };
            after_from && before_to
        },
        _ => true,
    }
}

// ---------------------------------------------------------------------------
// Groups
// ---------------------------------------------------------------------------

/// Rows grouped by key: `firsts` holds the first row of each group, in the
/// order the groups first appear, and `group_of` the group of each row.
pub open spec fn grouping(keys: Seq<Seq<char>>, firsts: Seq<usize>, group_of: Seq<usize>) -> bool {
    &&& group_of.len() == keys.len()
    &&& forall|g: int| 0 <= g < firsts.len() ==> (#[trigger] firsts[g]) < keys.len()
        && group_of[firsts[g] as int] == g
    &&& forall|g: int, h: int| 0 <= g < h < firsts.len() ==> #[trigger] firsts[g] < #[trigger] firsts[h]
    &&& forall|g: int, h: int|
        0 <= g < firsts.len() && 0 <= h < firsts.len() && g != h ==> keys[#[trigger] firsts[g] as int]
            != keys[#[trigger] firsts[h] as int]
    &&& forall|i: int|
        0 <= i < keys.len() ==> (#[trigger] group_of[i]) < firsts.len() && firsts[group_of[i] as int]
            <= i && keys[i] == keys[firsts[group_of[i] as int] as int]
}

/// Groups rows by their keys, in the order the keys first appear.
pub fn group_rows(keys: &Vec<String>) -> (r: (Vec<usize>, Vec<usize>))
    ensures
        grouping(string_views(keys@), r.0@, r.1@),
{
    let ghost ks = string_views(keys@);
    let mut firsts: Vec<usize> = Vec::new();
    let mut group_of: Vec<usize> = Vec::new();
    let mut i: usize = 0;
    while i < keys.len()
        invariant
            i <= keys.len(),
            ks == string_views(keys@),
            group_of.len() == i,
            firsts.len() <= i,
            forall|g: int| 0 <= g < firsts.len() ==> (#[trigger] firsts@[g]) < i
                && group_of@[firsts@[g] as int] == g,
            forall|g: int, h: int| 0 <= g < h < firsts.len() ==> #[trigger] firsts@[g] < #[trigger] firsts@[h],
            forall|g: int, h: int|
                0 <= g < firsts.len() && 0 <= h < firsts.len() && g != h ==> ks[#[trigger] firsts@[g] as int]
                    != ks[#[trigger] firsts@[h] as int],
            forall|j: int|
                0 <= j < i ==> (#[trigger] group_of@[j]) < firsts.len() && firsts@[group_of@[j] as int]
                    <= j && ks[j] == ks[firsts@[group_of@[j] as int] as int],
        decreases keys.len() - i,
    {
        let mut g: usize = 0;
        while g < firsts.len() && !str_eq(keys[firsts[g]].as_str(), keys[i].as_str())
            invariant
                g <= firsts.len(),
                i < keys.len(),
                ks == string_views(keys@),
                forall|h: int| 0 <= h < firsts.len() ==> (#[trigger] firsts@[h]) < i,
                forall|h: int| 0 <= h < g ==> ks[#[trigger] firsts@[h] as int] != ks[i as int],
            decreases firsts.len() - g,
        {
            g += 1;
        }
        if g == firsts.len() {
            firsts.push(i);
        }
        group_of.push(g);
        i += 1;
    }
    (firsts, group_of)
}

// ---------------------------------------------------------------------------
// Columns
// ---------------------------------------------------------------------------

/// The column an aggregate fills: its alias, else `op_field`.
pub open spec fn aggregate_name(a: ReportAggregate) -> Seq<char> {
    match a.alias {
        Some(s) => s@,
        None => a.op@ + "_"@ + a.field@,
    }
}

/// Every column name a report produces, in definition order, repeats kept.
pub open spec fn column_names(c: ReportConfig) -> Seq<Seq<char>> {
    string_views(c.fields@) + string_views(c.group_by@) + c.aggregates@.map_values(
        |a: ReportAggregate| aggregate_name(a),
    ) + c.calculated@.map_values(|x: crate::report::CalculatedColumn| x.name@)
}

/// Each name sorts before every later one.
pub open spec fn strictly_sorted(s: Seq<Seq<char>>) -> bool {
    forall|i: int, j: int| 0 <= i < j < s.len() ==> lex_lt(#[trigger] s[i], #[trigger] s[j])
}

/// Adds `x` to a sorted list of names unless it is there already.
fn insert_sorted(names: &mut Vec<Vec<char>>, x: Vec<char>)
    requires
        strictly_sorted(vec_views(old(names)@)),
    ensures
        strictly_sorted(vec_views(final(names)@)),
        forall|s: Seq<char>|
            vec_views(final(names)@).contains(s) <==> (vec_views(old(names)@).contains(s) || s
                == x@),
{
    let ghost before = vec_views(names@);
    let mut p: usize = 0;
    while p < names.len() && lex_less(&names[p], &x)
        invariant
            p <= names.len(),
            before == vec_views(names@),
            strictly_sorted(before),
            forall|j: int| 0 <= j < p ==> lex_lt(#[trigger] before[j], x@),
        decreases names.len() - p,
    {
        p += 1;
    }
    if p < names.len() {
        let same = seq_eq(&names[p], &x);
        if same {
            assert(before[p as int] == x@);
            return;
        }
        proof {
            lemma_lex_total(before[p as int], x@, 0);
        }
    }
    let ghost xv = x@;
    names.insert(p, x);
    proof {
        let after = vec_views(names@);
        assert(after =~= before.insert(p as int, xv));
        assert forall|i: int, j: int| 0 <= i < j < after.len() implies lex_lt(
            #[trigger] after[i],
            #[trigger] after[j],
        ) by {
            if j < p {
                assert(lex_lt(before[i], before[j]));
            } else if j == p {
            } else if i == p {
                assert(lex_lt(xv, before[p as int]));
                if j - 1 > p {
                    assert(lex_lt(before[p as int], before[j - 1]));
                    lemma_lex_transitive(xv, before[p as int], before[j - 1], 0);
                }
            } else if i < p {
                assert(lex_lt(before[i], before[j - 1]));
            } else {
                assert(lex_lt(before[i - 1], before[j - 1]));
            }
        }
        assert forall|s: Seq<char>| after.contains(s) <==> (before.contains(s) || s == xv) by {
            if after.contains(s) {
                let k = choose|k: int| 0 <= k < after.len() && after[k] == s;
                if k < p {
                    assert(before[k] == s);
                } else if k > p {
                    assert(before[k - 1] == s);
                }
            }
            if before.contains(s) {
                let k = choose|k: int| 0 <= k < before.len() && before[k] == s;
                if k < p {
                    assert(after[k] == s);
                } else {
                    assert(after[k + 1] == s);
                }
            }
            if s == xv {
                assert(after[p as int] == s);
            }
        }
    }
}

fn aggregate_column(a: &ReportAggregate) -> (r: Vec<char>)
    ensures
        r@ == aggregate_name(*a),
{
    match &a.alias {
        Some(s) => chars_of(s.as_str()),
        None => {
            let mut v = chars_of(a.op.as_str());
            push_str(&mut v, "_");
            push_str(&mut v, a.field.as_str());
            v
        },
    }
}

/// Adds each name of `src`, in order, to the sorted list.
fn insert_all(names: &mut Vec<Vec<char>>, src: &Vec<String>, Ghost(seen): Ghost<Seq<Seq<char>>>)
    requires
        strictly_sorted(vec_views(old(names)@)),
        forall|s: Seq<char>| vec_views(old(names)@).contains(s) <==> seen.contains(s),
    ensures
        strictly_sorted(vec_views(final(names)@)),
        forall|s: Seq<char>|
            vec_views(final(names)@).contains(s) <==> (seen + string_views(src@)).contains(s),
{
    let mut i: usize = 0;
    while i < src.len()
        invariant
            i <= src.len(),
            strictly_sorted(vec_views(names@)),
            forall|s: Seq<char>|
                vec_views(names@).contains(s) <==> (seen + string_views(src@).take(i as int)).contains(s),
        decreases src.len() - i,
    {
        let ghost prev = seen + string_views(src@).take(i as int);
        let ghost next = seen + string_views(src@).take(i + 1);
        insert_sorted(names, chars_of(src[i].as_str()));
        proof {
            assert(next =~= prev.push(src@[i as int]@));
            assert forall|s: Seq<char>| next.contains(s) <==> (prev.contains(s) || s == src@[i as int]@) by {
                if next.contains(s) {
                    let k = choose|k: int| 0 <= k < next.len() && next[k] == s;
                    if k < prev.len() {
                        assert(prev[k] == s);
                    }
                }
                if prev.contains(s) {
                    let k = choose|k: int| 0 <= k < prev.len() && prev[k] == s;
                    assert(next[k] == s);
                }
                if s == src@[i as int]@ {
                    assert(next[prev.len() as int] == s);
                }
            }
        }
        i += 1;
    }
    assert(string_views(src@).take(src.len() as int) =~= string_views(src@));
}

/// The columns of a report: every name of `column_names`, once each, sorted.
pub fn report_columns(config: &ReportConfig) -> (r: Vec<String>)
    ensures
        strictly_sorted(string_views(r@)),
        forall|i: int, j: int| 0 <= i < j < r@.len() ==> (#[trigger] r@[i])@ != (#[trigger] r@[j])@,
        forall|s: Seq<char>| string_views(r@).contains(s) <==> column_names(*config).contains(s),
{
    let mut names: Vec<Vec<char>> = Vec::new();
    assert(vec_views(names@) =~= Seq::<Seq<char>>::empty());
    insert_all(&mut names, &config.fields, Ghost(Seq::empty()));
    let ghost s1 = Seq::<Seq<char>>::empty() + string_views(config.fields@);
    insert_all(&mut names, &config.group_by, Ghost(s1));
    let ghost s2 = s1 + string_views(config.group_by@);
    let mut extra: Vec<String> = Vec::new();
    let ghost na = config.aggregates@.len();
    let mut i: usize = 0;
    while i < config.aggregates.len()
        invariant
            i <= config.aggregates.len(),
            na == config.aggregates@.len(),
            extra@.len() == i,
            forall|k: int| 0 <= k < i ==> (#[trigger] extra@[k])@ == aggregate_name(config.aggregates@[k]),
        decreases config.aggregates.len() - i,
    {
        let name = aggregate_column(&config.aggregates[i]);
        extra.push(string_of(name.as_slice()));
        i += 1;
    }
    let mut j: usize = 0;
    while j < config.calculated.len()
        invariant
            j <= config.calculated.len(),
            na == config.aggregates@.len(),
            extra@.len() == na + j,
            forall|k: int| 0 <= k < na ==> (#[trigger] extra@[k])@ == aggregate_name(config.aggregates@[k]),
            forall|k: int| na <= k < na + j ==> (#[trigger] extra@[k])@ == config.calculated@[k - na].name@,
        decreases config.calculated.len() - j,
    {
        let name = string_from(config.calculated[j].name.as_str());
        extra.push(name);
        j += 1;
    }
    assert(string_views(extra@) =~= config.aggregates@.map_values(|a: ReportAggregate| aggregate_name(a))
        + config.calculated@.map_values(|x: crate::report::CalculatedColumn| x.name@));
    insert_all(&mut names, &extra, Ghost(s2));
    assert(s2 + string_views(extra@) =~= column_names(*config));
    let mut out: Vec<String> = Vec::new();
    let mut k: usize = 0;
    while k < names.len()
        invariant
            k <= names.len(),
            out@.len() == k,
            forall|m: int| 0 <= m < k ==> (#[trigger] out@[m])@ == names@[m]@,
        decreases names.len() - k,
    {
        out.push(string_of(names[k].as_slice()));
        k += 1;
    }
    assert(string_views(out@) =~= vec_views(names@));
    proof {
        assert forall|i: int, j: int| 0 <= i < j < out@.len() implies (#[trigger] out@[i])@
            != (#[trigger] out@[j])@ by {
            assert(lex_lt(string_views(out@)[i], string_views(out@)[j]));
            lemma_lex_irreflexive(out@[i]@, 0);
        }
    }
    out
}

} // verus!
