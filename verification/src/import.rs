//! Checks of a CSV import before any document is written: the header must
//! name the editable fields, the file must stay within its row limit, and
//! each data row is checked for its column count, its id, and values that a
//! spreadsheet would run as formulas.
use vstd::prelude::*;
use crate::error::{message_of, AppError};
use crate::text::string_views;
use crate::numbers::{float_literal, is_float_literal};
use crate::text::{chars_of, decimal, push_all, push_str, str_eq, string_from, string_of, trim, trim_str, u64_decimal};

verus! {

broadcast use vstd::string::group_string_axioms;

/// The most data rows one import takes.
pub const IMPORT_MAX_ROWS: usize = 1000;

pub open spec fn record_views(v: Seq<Vec<String>>) -> Seq<Seq<Seq<char>>> {
    v.map_values(|r: Vec<String>| string_views(r@))
}

/// The header an import must have: `id`, then the editable field names.
pub open spec fn expected_header(names: Seq<Seq<char>>) -> Seq<Seq<char>> {
    seq!["id"@] + names
}

/// Whether a header row is `id` followed by the given names.
fn header_matches(header: &Vec<String>, names: &Vec<String>) -> (r: bool)
    ensures
        r == (string_views(header@) == expected_header(string_views(names@))),
{
    let ghost want = expected_header(string_views(names@));
    let mut same = header.len() >= 1 && header.len() - 1 == names.len();
    if same {
        same = str_eq(header[0].as_str(), "id");
        let mut k: usize = 0;
        while k < names.len()
            invariant
                k <= names.len(),
                header@.len() == names@.len() + 1,
                want == expected_header(string_views(names@)),
                same == (header@[0]@ == "id"@ && forall|j: int| 0 <= j < k ==> header@[j + 1]@ == names@[j]@),
            decreases names.len() - k,
        {
            if !str_eq(header[k + 1].as_str(), names[k].as_str()) {
                same = false;
            }
            k += 1;
        }
        proof {
            if same {
                assert(string_views(header@) =~= want);
            } else if header@[0]@ != "id"@ {
                assert(string_views(header@)[0] != want[0]);
            } else {
                let j = choose|j: int| 0 <= j < names.len() && header@[j + 1]@ != names@[j]@;
                assert(string_views(header@)[j + 1] != want[j + 1]);
            }
        }
    } else {
        assert(string_views(header@).len() != want.len());
    }
    same
}

/// Checks the header and the size of an import (`names`: the fields the
/// role may edit, in order).
pub fn check_import_header(records: &Vec<Vec<String>>, names: &Vec<String>) -> (r: Result<(), AppError>)
    ensures
        records@.len() == 0 ==> (r matches Err(e) && e is BadRequest && message_of(e) == "CSV is empty"@),
        records@.len() > 0 && string_views(records@[0]@) != expected_header(string_views(names@)) ==> (
        r matches Err(e) && e is BadRequest && message_of(e) == "CSV header does not match entity fields"@),
        records@.len() > 0 && string_views(records@[0]@) == expected_header(string_views(names@))
            && records@.len() > IMPORT_MAX_ROWS + 1 ==> (r matches Err(e) && e is BadRequest
            && message_of(e) == "import exceeds 1000 rows"@),
        r is Ok <==> records@.len() > 0 && string_views(records@[0]@) == expected_header(
            string_views(names@),
        ) && records@.len() <= IMPORT_MAX_ROWS + 1,
{
    if records.len() == 0 {
        return Err(AppError::BadRequest(string_from("CSV is empty")));
    }
    let same = header_matches(&records[0], names);
    if !same {
        return Err(AppError::BadRequest(string_from("CSV header does not match entity fields")));
    }
    if records.len() > IMPORT_MAX_ROWS + 1 {
        return Err(AppError::BadRequest(string_from("import exceeds 1000 rows")));
    }
    Ok(())
}

/// A value a spreadsheet would run as a formula starts with one of these.
pub open spec fn formula_lead(s: Seq<char>) -> bool {
    s.len() > 0 && (s[0] == '=' || s[0] == '+' || s[0] == '-' || s[0] == '@')
}

/// A formula value for a field of type `t`; a number field takes signed
/// numbers as they are.
pub open spec fn formula_value(t: Seq<char>, v: Seq<char>) -> bool {
    if t == "number"@ {
        !float_literal(v) && formula_lead(v)
    } else {
        formula_lead(v)
    }
}

pub open spec fn row_label(n: nat) -> Seq<char> {
    "row "@ + decimal(n) + ": "@
}

/// One problem per value among the first `k` that would run as a formula.
pub open spec fn value_problems(n: nat, types: Seq<Seq<char>>, values: Seq<Seq<char>>, k: int) -> Seq<Seq<char>>
    decreases k,
{
    if k <= 0 {
        Seq::empty()
    } else if formula_value(types[k - 1], values[k - 1]) {
        value_problems(n, types, values, k - 1).push(row_label(n) + "formula values are not allowed"@)
    } else {
        value_problems(n, types, values, k - 1)
    }
}

/// The checks of data row number `n` given the ids seen before it: its
/// problems in order, whether it goes on to become a payload, and the ids
/// seen after it.
pub open spec fn row_check(n: nat, rec: Seq<Seq<char>>, types: Seq<Seq<char>>, seen: Seq<Seq<char>>) -> (
    Seq<Seq<char>>,
    bool,
    Seq<Seq<char>>,
) {
    if rec.len() == 0 || rec.len() - 1 != types.len() {
        (seq![row_label(n) + "wrong column count"@], false, seen)
    } else if trim(rec[0]).len() == 0 {
        (seq![row_label(n) + "id is required"@], false, seen)
    } else {
        let dup = seen.contains(rec[0]);
        let after = if dup {
            seen
        } else {
            seen.push(rec[0])
        };
        let first: Seq<Seq<char>> = if dup {
            seq![row_label(n) + "duplicate id"@]
        } else {
            Seq::empty()
        };
        if formula_lead(rec[0]) {
            (first.push(row_label(n) + "formula values are not allowed"@), false, after)
        } else {
            (first + value_problems(n, types, rec.drop_first(), types.len() as int), true, after)
        }
    }
}

/// The checks of the first `k` data rows, numbered from 2 as in the file.
pub open spec fn rows_check(rows: Seq<Seq<Seq<char>>>, types: Seq<Seq<char>>, k: int) -> (
    Seq<(Seq<Seq<char>>, bool)>,
    Seq<Seq<char>>,
)
    decreases k,
{
    if k <= 0 {
        (Seq::empty(), Seq::empty())
    } else {
        let (prev, seen) = rows_check(rows, types, k - 1);
        let (e, kept, after) = row_check((k + 1) as nat, rows[k - 1], types, seen);
        (prev.push((e, kept)), after)
    }
}

/// What the checks of one data row decided.
pub struct RowCheck {
    pub errors: Vec<String>,
    pub kept: bool,
}

pub open spec fn check_views(v: Seq<RowCheck>) -> Seq<(Seq<Seq<char>>, bool)> {
    v.map_values(|c: RowCheck| (string_views(c.errors@), c.kept))
}

fn labelled(label: &Vec<char>, text: &str) -> (r: String)
    ensures
        r@ == label@ + text@,
{
    let mut m = label.clone();
    push_str(&mut m, text);
    string_of(m.as_slice())
}

fn is_formula_lead(v: &Vec<char>) -> (r: bool)
    ensures
        r == formula_lead(v@),
{
    v.len() > 0 && (v[0] == '=' || v[0] == '+' || v[0] == '-' || v[0] == '@')
}

fn contains_string(v: &Vec<String>, s: &String) -> (r: bool)
    ensures
        r == string_views(v@).contains(s@),
{
    let mut i: usize = 0;
    while i < v.len()
        invariant
            i <= v.len(),
            forall|j: int| 0 <= j < i ==> v@[j]@ != s@,
        decreases v.len() - i,
    {
        if str_eq(v[i].as_str(), s.as_str()) {
            assert(string_views(v@)[i as int] == s@);
            return true;
        }
        i += 1;
    }
    assert forall|j: int| 0 <= j < string_views(v@).len() implies string_views(v@)[j] != s@ by {
        assert(string_views(v@)[j] == v@[j]@);
    }
    false
}

fn check_row(n: u64, rec: &Vec<String>, types: &Vec<String>, seen: &mut Vec<String>) -> (r: RowCheck)
    ensures
        ({
            let (e, kept, after) = row_check(n as nat, string_views(rec@), string_views(types@), string_views(old(seen)@));
            &&& string_views(r.errors@) == e
            &&& r.kept == kept
            &&& string_views(final(seen)@) == after
        }),
{
    let mut label = chars_of("row ");
    push_all(&mut label, &u64_decimal(n));
    push_str(&mut label, ": ");
    let ghost lab = row_label(n as nat);
    assert(label@ == lab);
    let ghost rv = string_views(rec@);
    let ghost tv = string_views(types@);
    let mut errors: Vec<String> = Vec::new();
    if rec.len() == 0 || rec.len() - 1 != types.len() {
        errors.push(labelled(&label, "wrong column count"));
        assert(string_views(errors@) =~= seq![lab + "wrong column count"@]);
        return RowCheck { errors, kept: false };
    }
    let id = &rec[0];
    assert(rv[0] == id@);
    if trim_str(id.as_str()).len() == 0 {
        errors.push(labelled(&label, "id is required"));
        assert(string_views(errors@) =~= seq![lab + "id is required"@]);
        return RowCheck { errors, kept: false };
    }
    let dup = contains_string(seen, id);
    if dup {
        errors.push(labelled(&label, "duplicate id"));
    } else {
        let ghost before = seen@;
        seen.push(string_from(id.as_str()));
        assert(string_views(seen@) =~= string_views(before).push(id@));
    }
    let ghost first = string_views(errors@);
    assert(first =~= (if dup {
        seq![lab + "duplicate id"@]
    } else {
        Seq::<Seq<char>>::empty()
    }));
    if is_formula_lead(&chars_of(id.as_str())) {
        errors.push(labelled(&label, "formula values are not allowed"));
        assert(string_views(errors@) =~= first.push(lab + "formula values are not allowed"@));
        return RowCheck { errors, kept: false };
    }
    let ghost values = rv.drop_first();
    let mut k: usize = 0;
    while k < types.len()
        invariant
            k <= types.len(),
            rec@.len() == types@.len() + 1,
            rv == string_views(rec@),
            tv == string_views(types@),
            values == rv.drop_first(),
            label@ == lab,
            lab == row_label(n as nat),
            string_views(errors@) == first + value_problems(n as nat, tv, values, k as int),
        decreases types.len() - k,
    {
        let v = chars_of(rec[k + 1].as_str());
        assert(values[k as int] == v@);
        assert(tv[k as int] == types@[k as int]@);
        let formula = if str_eq(types[k].as_str(), "number") {
            !is_float_literal(&v) && is_formula_lead(&v)
        } else {
            is_formula_lead(&v)
        };
        if formula {
            let ghost before = errors@;
            errors.push(labelled(&label, "formula values are not allowed"));
            assert(string_views(errors@) =~= string_views(before).push(lab + "formula values are not allowed"@));
        }
        k += 1;
    }
    RowCheck { errors, kept: true }
}

/// Checks every data row of an import (the records after the header).
pub fn check_import_rows(records: &Vec<Vec<String>>, types: &Vec<String>) -> (r: Vec<RowCheck>)
    ensures
        records@.len() == 0 ==> r@.len() == 0,
        records@.len() > 0 ==> check_views(r@) == rows_check(
            record_views(records@).drop_first(),
            string_views(types@),
            records@.len() - 1,
        ).0,
{
    let mut out: Vec<RowCheck> = Vec::new();
    if records.len() == 0 {
        return out;
    }
    let ghost rows = record_views(records@).drop_first();
    let ghost tv = string_views(types@);
    let mut seen: Vec<String> = Vec::new();
    let mut i: usize = 1;
    while i < records.len()
        invariant
            1 <= i <= records.len(),
            rows == record_views(records@).drop_first(),
            tv == string_views(types@),
            check_views(out@) == rows_check(rows, tv, i - 1).0,
            string_views(seen@) == rows_check(rows, tv, i - 1).1,
        decreases records.len() - i,
    {
        assert(rows[i - 1] == string_views(records@[i as int]@));
        let ghost before = out@;
        let c = check_row((i + 1) as u64, &records[i], types, &mut seen);
        out.push(c);
        assert(check_views(out@) =~= check_views(before).push((string_views(c.errors@), c.kept)));
        i += 1;
    }
    out
}

// ---------------------------------------------------------------------------
// Workbook sheets
// ---------------------------------------------------------------------------

pub open spec fn sheet_message(sheet: Seq<char>, text: Seq<char>) -> Seq<char> {
    "sheet "@ + sheet + text
}

fn sheet_error(sheet: &str, text: &str) -> (e: AppError)
    ensures
        e is BadRequest,
        message_of(e) == sheet_message(sheet@, text@),
{
    let mut m = chars_of("sheet ");
    push_str(&mut m, sheet);
    push_str(&mut m, text);
    AppError::BadRequest(string_of(m.as_slice()))
}

/// Checks the header and the size of one sheet of a workbook import, as
/// `check_import_header` does for a CSV file.
pub fn check_sheet_header(sheet: &str, records: &Vec<Vec<String>>, names: &Vec<String>) -> (r: Result<(), AppError>)
    ensures
        records@.len() == 0 ==> (r matches Err(e) && e is BadRequest && message_of(e) == sheet_message(sheet@, " is empty"@)),
        records@.len() > 0 && string_views(records@[0]@) != expected_header(string_views(names@)) ==> (
        r matches Err(e) && e is BadRequest && message_of(e) == sheet_message(
            sheet@,
            " header does not match entity fields"@,
        )),
        records@.len() > 0 && string_views(records@[0]@) == expected_header(string_views(names@))
            && records@.len() > IMPORT_MAX_ROWS + 1 ==> (r matches Err(e) && e is BadRequest
            && message_of(e) == sheet_message(sheet@, " exceeds 1000 rows"@)),
        r is Ok <==> records@.len() > 0 && string_views(records@[0]@) == expected_header(
            string_views(names@),
        ) && records@.len() <= IMPORT_MAX_ROWS + 1,
{
    if records.len() == 0 {
        return Err(sheet_error(sheet, " is empty"));
    }
    if !header_matches(&records[0], names) {
        return Err(sheet_error(sheet, " header does not match entity fields"));
    }
    if records.len() > IMPORT_MAX_ROWS + 1 {
        return Err(sheet_error(sheet, " exceeds 1000 rows"));
    }
    Ok(())
}

pub open spec fn sheet_row_label(sheet: Seq<char>, n: nat) -> Seq<char> {
    sheet + " row "@ + decimal(n) + ": "@
}

/// The checks of data row `n` of a sheet with `width` columns, given the
/// ids seen before it: its problems, whether it goes on to become a
/// payload, and the ids seen after it.
pub open spec fn sheet_row_check(sheet: Seq<char>, n: nat, rec: Seq<Seq<char>>, width: int, seen: Seq<Seq<char>>) -> (
    Seq<Seq<char>>,
    bool,
    Seq<Seq<char>>,
) {
    if rec.len() != width {
        (seq![sheet_row_label(sheet, n) + "wrong column count"@], false, seen)
    } else if trim(rec[0]).len() == 0 {
        (seq![sheet_row_label(sheet, n) + "id is required"@], false, seen)
    } else if seen.contains(rec[0]) {
        (seq![sheet_row_label(sheet, n) + "duplicate id"@], true, seen)
    } else {
        (Seq::empty(), true, seen.push(rec[0]))
    }
}

pub open spec fn sheet_rows_check(sheet: Seq<char>, rows: Seq<Seq<Seq<char>>>, width: int, k: int) -> (
    Seq<(Seq<Seq<char>>, bool)>,
    Seq<Seq<char>>,
)
    decreases k,
{
    if k <= 0 {
        (Seq::empty(), Seq::empty())
    } else {
        let (prev, seen) = sheet_rows_check(sheet, rows, width, k - 1);
        let (e, kept, after) = sheet_row_check(sheet, (k + 1) as nat, rows[k - 1], width, seen);
        (prev.push((e, kept)), after)
    }
}

/// Checks every data row of a sheet (the records after its header), whose
/// rows have `width` columns, the `id` column first.
pub fn check_sheet_rows(sheet: &str, records: &Vec<Vec<String>>, width: usize) -> (r: Vec<RowCheck>)
    requires
        width >= 1,
    ensures
        records@.len() == 0 ==> r@.len() == 0,
        records@.len() > 0 ==> check_views(r@) == sheet_rows_check(
            sheet@,
            record_views(records@).drop_first(),
            width as int,
            records@.len() - 1,
        ).0,
{
    let mut out: Vec<RowCheck> = Vec::new();
    if records.len() == 0 {
        return out;
    }
    let ghost rows = record_views(records@).drop_first();
    let mut seen: Vec<String> = Vec::new();
    let mut i: usize = 1;
    while i < records.len()
        invariant
            1 <= i <= records.len(),
            width >= 1,
            rows == record_views(records@).drop_first(),
            check_views(out@) == sheet_rows_check(sheet@, rows, width as int, i - 1).0,
            string_views(seen@) == sheet_rows_check(sheet@, rows, width as int, i - 1).1,
        decreases records.len() - i,
    {
        let rec = &records[i];
        let ghost rv = string_views(rec@);
        assert(rows[i - 1] == rv);
        let mut label = chars_of(sheet);
        push_str(&mut label, " row ");
        push_all(&mut label, &u64_decimal((i + 1) as u64));
        push_str(&mut label, ": ");
        let ghost lab = sheet_row_label(sheet@, (i + 1) as nat);
        assert(label@ == lab);
        let mut errors: Vec<String> = Vec::new();
        let kept: bool;
        if rec.len() != width {
            errors.push(labelled(&label, "wrong column count"));
            kept = false;
        } else if trim_str(rec[0].as_str()).len() == 0 {
            assert(rv[0] == rec@[0]@);
            errors.push(labelled(&label, "id is required"));
            kept = false;
        } else {
            assert(rv[0] == rec@[0]@);
            if contains_string(&seen, &rec[0]) {
                errors.push(labelled(&label, "duplicate id"));
            } else {
                let ghost before = seen@;
                seen.push(string_from(rec[0].as_str()));
                assert(string_views(seen@) =~= string_views(before).push(rec@[0]@));
            }
            kept = true;
        }
        let ghost before_out = out@;
        let c = RowCheck { errors, kept };
        assert(string_views(c.errors@) == sheet_row_check(sheet@, (i + 1) as nat, rv, width as int,
            sheet_rows_check(sheet@, rows, width as int, i - 1).1).0);
        out.push(c);
        assert(check_views(out@) =~= check_views(before_out).push((string_views(out@[before_out.len() as int].errors@), out@[before_out.len() as int].kept)));
        i += 1;
    }
    out
}

} // verus!
