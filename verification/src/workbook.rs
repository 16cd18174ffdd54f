//! Workbooks of several entities: the name each entity's sheet takes, kept
//! within Excel's 31 characters and unique in the workbook.
use vstd::prelude::*;
use crate::csv::EXPORT_MAX_ROWS;
use crate::error::{message_of, AppError};
use crate::float_bits::{i64_to_f64_bits, int_to_f64, nat_to_f64, u64_to_f64_bits};
use crate::json::{get_spec, json_text, to_text, Json, JsonNumber};
use crate::text::{
    chars_of, decimal, digit_char, is_digit, push_all, push_str, seq_eq, string_from, string_of,
    string_views, u64_decimal,
};

verus! {

broadcast use vstd::string::group_string_axioms;

/// The longest sheet name Excel takes.
pub const SHEET_NAME_MAX: usize = 31;

/// The first `m` characters of `s` (all of them when it is shorter).
pub open spec fn first_chars(s: Seq<char>, m: int) -> Seq<char> {
    if m <= 0 {
        Seq::empty()
    } else if m >= s.len() {
        s
    } else {
        s.take(m)
    }
}

/// The `k`-th candidate name for a sheet whose plain name is taken: the
/// plain name shortened so that `_k` fits after it within 31 characters.
pub open spec fn suffixed(base: Seq<char>, k: nat) -> Seq<char> {
    let tail = "_"@ + decimal(k);
    first_chars(base, SHEET_NAME_MAX - tail.len()) + tail
}

/// The value of a run of decimal digits.
pub open spec fn digits_value(s: Seq<char>) -> int
    decreases s.len(),
{
    if s.len() == 0 {
        0
    } else {
        digits_value(s.drop_last()) * 10 + ((s.last() as u32) as int - 48)
    }
}

proof fn lemma_decimal_digits(n: nat)
    ensures
        forall|i: int| 0 <= i < decimal(n).len() ==> is_digit(#[trigger] decimal(n)[i]),
        digits_value(decimal(n)) == n,
        decimal(n).len() > 0,
    decreases n,
{
    if n < 10 {
        assert(decimal(n) == seq![digit_char(n)]);
        assert(decimal(n).drop_last() =~= Seq::<char>::empty());
        assert((digit_char(n) as u32) as int == n + 48);
        assert(decimal(n).last() == digit_char(n));
        assert(digits_value(decimal(n)) == digits_value(decimal(n).drop_last()) * 10 + ((decimal(n).last() as u32) as int - 48));
    } else {
        lemma_decimal_digits(n / 10);
        let d = decimal(n);
        assert(d == decimal(n / 10).push(digit_char(n % 10)));
        assert(d.drop_last() =~= decimal(n / 10));
        assert((digit_char(n % 10) as u32) as int == n % 10 + 48);
        assert(d.last() == digit_char(n % 10));
        assert(digits_value(d) == digits_value(d.drop_last()) * 10 + ((d.last() as u32) as int - 48));
        assert(digits_value(d) == (n / 10) * 10 + n % 10);
    }
}

/// Two names `h + "_" + d` whose digit runs `d` differ are different.
proof fn lemma_suffix_distinct(h1: Seq<char>, d1: Seq<char>, h2: Seq<char>, d2: Seq<char>)
    requires
        forall|i: int| 0 <= i < d1.len() ==> is_digit(#[trigger] d1[i]),
        forall|i: int| 0 <= i < d2.len() ==> is_digit(#[trigger] d2[i]),
        h1 + "_"@ + d1 == h2 + "_"@ + d2,
    ensures
        d1 == d2,
{
    reveal_strlit("_");
    let c = h1 + "_"@ + d1;
    let l = c.len();
    if d1.len() < d2.len() {
        let p = l - 1 - d1.len();
        assert(c[p] == '_');
        assert((h2 + "_"@ + d2)[p] == d2[p - (h2.len() + 1)]);
        assert(is_digit(d2[p - (h2.len() + 1)]));
    } else if d2.len() < d1.len() {
        let p = l - 1 - d2.len();
        assert((h2 + "_"@ + d2)[p] == '_');
        assert(c[p] == d1[p - (h1.len() + 1)]);
        assert(is_digit(d1[p - (h1.len() + 1)]));
    } else {
        assert forall|i: int| 0 <= i < d1.len() implies d1[i] == d2[i] by {
            assert(c[h1.len() + 1 + i] == d1[i]);
            assert((h2 + "_"@ + d2)[h2.len() + 1 + i] == d2[i]);
        }
        assert(d1 =~= d2);
    }
}

proof fn lemma_suffixed_injective(base: Seq<char>, j: nat, k: nat)
    requires
        suffixed(base, j) == suffixed(base, k),
    ensures
        j == k,
{
    lemma_decimal_digits(j);
    lemma_decimal_digits(k);
    let tj = "_"@ + decimal(j);
    let tk = "_"@ + decimal(k);
    assert(suffixed(base, j) == first_chars(base, SHEET_NAME_MAX - tj.len()) + "_"@ + decimal(j));
    assert(suffixed(base, k) == first_chars(base, SHEET_NAME_MAX - tk.len()) + "_"@ + decimal(k));
    lemma_suffix_distinct(
        first_chars(base, SHEET_NAME_MAX - tj.len()),
        decimal(j),
        first_chars(base, SHEET_NAME_MAX - tk.len()),
        decimal(k),
    );
}

/// Among the candidates `_2` to `_(n+2)`, one is not among `n` used names.
proof fn lemma_free_candidate(base: Seq<char>, used: Seq<Seq<char>>)
    ensures
        exists|j: nat| 2 <= j <= used.len() + 2 && !used.contains(#[trigger] suffixed(base, j)),
{
    if forall|j: nat| 2 <= j <= used.len() + 2 ==> used.contains(#[trigger] suffixed(base, j)) {
        lemma_all_taken(base, used);
    }
}

proof fn lemma_all_taken(base: Seq<char>, used: Seq<Seq<char>>)
    requires
        forall|j: nat| 2 <= j <= used.len() + 2 ==> used.contains(#[trigger] suffixed(base, j)),
    ensures
        used.len() + 1 <= used.len(),
{
    let n = used.len();
    let cands = Seq::new((n + 1) as nat, |i: int| suffixed(base, (i + 2) as nat));
    assert(cands.no_duplicates()) by {
        assert forall|a: int, b: int| 0 <= a < cands.len() && 0 <= b < cands.len() && a != b implies cands[a]
            != cands[b] by {
            if cands[a] == cands[b] {
                lemma_suffixed_injective(base, (a + 2) as nat, (b + 2) as nat);
            }
        }
    }
    cands.unique_seq_to_set();
    assert(cands.to_set().subset_of(used.to_set())) by {
        assert forall|x: Seq<char>| cands.to_set().contains(x) implies used.to_set().contains(x) by {
            let i = choose|i: int| 0 <= i < cands.len() && cands[i] == x;
            assert(used.contains(suffixed(base, (i + 2) as nat)));
        }
    }
    used.lemma_cardinality_of_set();
    vstd::set_lib::lemma_len_subset(cands.to_set(), used.to_set());
}

/// The sheet name an entity takes given the names already in use: its id
/// cut to 31 characters, or when that is taken the first free candidate
/// `suffixed(base, k)`, `k` counting from 2.
pub open spec fn sheet_name_ok(id: Seq<char>, used: Seq<Seq<char>>, r: Seq<char>) -> bool {
    let base = first_chars(id, SHEET_NAME_MAX as int);
    if !used.contains(base) {
        r == base
    } else {
        exists|k: nat|
            2 <= k && r == #[trigger] suffixed(base, k) && !used.contains(r) && forall|j: nat|
                2 <= j < k ==> used.contains(#[trigger] suffixed(base, j))
    }
}

fn contains_name(used: &Vec<String>, v: &Vec<char>) -> (r: bool)
    ensures
        r == string_views(used@).contains(v@),
{
    let mut i: usize = 0;
    while i < used.len()
        invariant
            i <= used.len(),
            forall|j: int| 0 <= j < i ==> used@[j]@ != v@,
        decreases used.len() - i,
    {
        if seq_eq(&chars_of(used[i].as_str()), v) {
            assert(string_views(used@)[i as int] == v@);
            return true;
        }
        i += 1;
    }
    assert forall|j: int| 0 <= j < string_views(used@).len() implies string_views(used@)[j] != v@ by {
        assert(string_views(used@)[j] == used@[j]@);
    }
    false
}

fn first_chars_exec(v: &Vec<char>, m: usize) -> (r: Vec<char>)
    ensures
        r@ == first_chars(v@, m as int),
{
    let mut out: Vec<char> = Vec::new();
    let mut i: usize = 0;
    while i < m && i < v.len()
        invariant
            i <= v.len(),
            i <= m,
            out@ == v@.take(i as int),
        decreases v.len() - i,
    {
        out.push(v[i]);
        assert(out@ =~= v@.take(i + 1));
        i += 1;
    }
    if m >= v.len() {
        assert(out@ =~= v@);
    }
    out
}

/// Names the sheet of entity `entity_id` (see `sheet_name_ok`) and records
/// the name as used.
pub fn xlsx_sheet_name(entity_id: &str, used: &mut Vec<String>) -> (r: String)
    requires
        old(used)@.len() < i32::MAX - 2,
    ensures
        sheet_name_ok(entity_id@, string_views(old(used)@), r@),
        !string_views(old(used)@).contains(r@),
        string_views(final(used)@) == string_views(old(used)@).push(r@),
        r@.len() <= SHEET_NAME_MAX,
{
    let ghost u0 = string_views(used@);
    let id = chars_of(entity_id);
    let base = first_chars_exec(&id, SHEET_NAME_MAX);
    if !contains_name(used, &base) {
        let name = string_of(base.as_slice());
        used.push(string_of(base.as_slice()));
        assert(string_views(used@) =~= u0.push(name@));
        return name;
    }
    let n = used.len();
    let mut k: u64 = 2;
    loop
        invariant
            2 <= k <= n as u64 + 3,
            n == used.len(),
            n < i32::MAX - 2,
            u0 == string_views(used@),
            u0 == string_views(old(used)@),
            base@ == first_chars(entity_id@, SHEET_NAME_MAX as int),
            u0.contains(base@),
            forall|j: nat| 2 <= j < k ==> u0.contains(#[trigger] suffixed(base@, j)),
        decreases n as u64 + 3 - k,
    {
        if k > n as u64 + 2 {
            proof {
                lemma_free_candidate(base@, u0);
            }
            return string_of(base.as_slice());
        }
        let digits = u64_decimal(k);
        proof {
            lemma_decimal_digits(k as nat);
            assert(digits@.len() <= 20) by {
                lemma_decimal_len(k as nat);
            }
        }
        let mut tail: Vec<char> = Vec::new();
        tail.push('_');
        push_all(&mut tail, &digits);
        proof {
            reveal_strlit("_");
        }
        assert(tail@ =~= "_"@ + decimal(k as nat));
        let mut candidate = first_chars_exec(&base, SHEET_NAME_MAX - tail.len());
        push_all(&mut candidate, &tail);
        assert(candidate@ == suffixed(base@, k as nat));
        if !contains_name(used, &candidate) {
            let name = string_of(candidate.as_slice());
            assert(!u0.contains(name@));
            assert(name@ == suffixed(base@, k as nat));
            assert(2 <= k as nat && name@ == suffixed(base@, k as nat) && !u0.contains(name@) && forall|j: nat|
                2 <= j < k as nat ==> u0.contains(#[trigger] suffixed(base@, j)));
            assert(sheet_name_ok(entity_id@, u0, name@));
            used.push(string_of(candidate.as_slice()));
            assert(string_views(used@) =~= u0.push(name@));
            return name;
        }
        k += 1;
    }
}

/// A number below 10^20 has at most 20 digits.
proof fn lemma_decimal_len(n: nat)
    requires
        n <= u64::MAX,
    ensures
        decimal(n).len() <= 20,
{
    reveal_with_fuel(pow10, 21);
    assert(pow10(20) == 100000000000000000000nat);
    lemma_decimal_len_bound(n, 20);
}

proof fn lemma_decimal_len_bound(n: nat, d: nat)
    requires
        n < pow10(d),
        d >= 1,
    ensures
        decimal(n).len() <= d,
    decreases d,
{
    if n >= 10 {
        assert(n / 10 < pow10((d - 1) as nat)) by {
            assert(pow10(d) == 10 * pow10((d - 1) as nat));
        }
        if d >= 2 {
            lemma_decimal_len_bound(n / 10, (d - 1) as nat);
        } else {
            assert(pow10(1) == 10 * pow10(0));
        }
    }
}

pub open spec fn pow10(d: nat) -> nat
    decreases d,
{
    if d == 0 {
        1
    } else {
        10 * pow10((d - 1) as nat)
    }
}

// ---------------------------------------------------------------------------
// The cells of an exported sheet
// ---------------------------------------------------------------------------

/// A cell as written: a text, a number (the bits of its double), a flag.
pub enum CellValue {
    Text(String),
    Number(u64),
    Flag(bool),
}

pub struct SheetCell {
    pub row: u32,
    pub col: u16,
    pub value: CellValue,
}

/// The cells of one sheet of a workbook export, row by row.
pub struct SheetPlan {
    pub name: String,
    pub cells: Vec<SheetCell>,
}

pub enum CellV {
    Text(Seq<char>),
    Number(u64),
    Flag(bool),
}

pub open spec fn cell_v(c: SheetCell) -> (int, int, CellV) {
    (
        c.row as int,
        c.col as int,
        match c.value {
            CellValue::Text(t) => CellV::Text(t@),
            CellValue::Number(b) => CellV::Number(b),
            CellValue::Flag(f) => CellV::Flag(f),
        },
    )
}

pub open spec fn cells_v(v: Seq<SheetCell>) -> Seq<(int, int, CellV)> {
    v.map_values(|c: SheetCell| cell_v(c))
}

/// The double a JSON number is written as, by its bits.
pub open spec fn number_bits(n: JsonNumber) -> u64 {
    match n {
        JsonNumber::PosInt(u) => nat_to_f64(u as nat) as u64,
        JsonNumber::NegInt(i) => int_to_f64(i as int) as u64,
        JsonNumber::Float(b, _) => b,
    }
}

/// What a document's value is written as: nothing for a missing value or
/// null, a number, a flag, a text, or the JSON text of anything else.
pub open spec fn value_cell(v: Option<Json>) -> Option<CellV> {
    match v {
        None => None,
        Some(Json::Null) => None,
        Some(Json::Number(n)) => Some(CellV::Number(number_bits(n))),
        Some(Json::Bool(b)) => Some(CellV::Flag(b)),
        Some(Json::String(s)) => Some(CellV::Text(s@)),
        Some(x) => Some(CellV::Text(json_text(x))),
    }
}

pub open spec fn at(row: int, col: int, v: Option<CellV>) -> Seq<(int, int, CellV)> {
    match v {
        Some(c) => seq![(row, col, c)],
        None => Seq::empty(),
    }
}

/// The header row: `id`, then the field names.
pub open spec fn header_row(names: Seq<Seq<char>>, k: int) -> Seq<(int, int, CellV)>
    decreases k,
{
    if k <= 0 {
        seq![(0int, 0int, CellV::Text("id"@))]
    } else {
        header_row(names, k - 1).push((0int, k, CellV::Text(names[k - 1])))
    }
}

/// The cells of document row `row`: its id, then each present value.
pub open spec fn doc_row(row: int, doc: (String, Json), names: Seq<Seq<char>>, k: int) -> Seq<(int, int, CellV)>
    decreases k,
{
    if k <= 0 {
        seq![(row, 0int, CellV::Text(doc.0@))]
    } else {
        doc_row(row, doc, names, k - 1) + at(row, k, value_cell(get_spec(doc.1, names[k - 1])))
    }
}

pub open spec fn doc_rows(docs: Seq<(String, Json)>, names: Seq<Seq<char>>, k: int) -> Seq<(int, int, CellV)>
    decreases k,
{
    if k <= 0 {
        Seq::empty()
    } else {
        doc_rows(docs, names, k - 1) + doc_row(k, docs[k - 1], names, names.len() as int)
    }
}

fn text_cell(row: u32, col: u16, s: &str) -> (c: SheetCell)
    ensures
        cell_v(c) == (row as int, col as int, CellV::Text(s@)),
{
    SheetCell { row, col, value: CellValue::Text(string_from(s)) }
}

fn value_cell_exec(row: u32, col: u16, v: Option<&Json>) -> (r: Option<SheetCell>)
    ensures
        match value_cell(
            match v {
                Some(x) => Some(*x),
                None => None,
            },
        ) {
            Some(c) => r matches Some(x) && cell_v(x) == (row as int, col as int, c),
            None => r is None,
        },
{
    match v {
        None => None,
        Some(Json::Null) => None,
        Some(Json::Number(JsonNumber::PosInt(u))) => Some(SheetCell { row, col, value: CellValue::Number(u64_to_f64_bits(*u)) }),
        Some(Json::Number(JsonNumber::NegInt(i))) => Some(SheetCell { row, col, value: CellValue::Number(i64_to_f64_bits(*i)) }),
        Some(Json::Number(JsonNumber::Float(b, _))) => Some(SheetCell { row, col, value: CellValue::Number(*b) }),
        Some(Json::Bool(b)) => Some(SheetCell { row, col, value: CellValue::Flag(*b) }),
        Some(Json::String(t)) => Some(SheetCell { row, col, value: CellValue::Text(string_from(t.as_str())) }),
        Some(x) => Some(SheetCell { row, col, value: CellValue::Text(string_of(to_text(x).as_slice())) }),
    }
}

/// The sheet of one entity: named `name`, a header of `id` and the field
/// names, then one row per document; refused beyond the row limit.
pub fn sheet_plan(entity_id: &str, name: String, names: &Vec<String>, docs: &Vec<(String, Json)>) -> (r: Result<SheetPlan, AppError>)
    requires
        names@.len() < 0xFFFF,
    ensures
        docs@.len() > EXPORT_MAX_ROWS ==> (r matches Err(e) && e is BadRequest && message_of(e)
            == "export exceeds 1000 rows: "@ + entity_id@),
        docs@.len() <= EXPORT_MAX_ROWS ==> (r matches Ok(p) && p.name@ == name@ && cells_v(p.cells@)
            == header_row(string_views(names@), names@.len() as int) + doc_rows(
            docs@,
            string_views(names@),
            docs@.len() as int,
        )),
{
    if docs.len() > EXPORT_MAX_ROWS {
        let mut m = chars_of("export exceeds 1000 rows: ");
        push_str(&mut m, entity_id);
        return Err(AppError::BadRequest(string_of(m.as_slice())));
    }
    let ghost nv = string_views(names@);
    let mut cells: Vec<SheetCell> = Vec::new();
    cells.push(text_cell(0, 0, "id"));
    assert(cells_v(cells@) =~= header_row(nv, 0));
    let mut k: usize = 0;
    while k < names.len()
        invariant
            k <= names.len(),
            names@.len() < 0xFFFF,
            nv == string_views(names@),
            cells_v(cells@) == header_row(nv, k as int),
        decreases names.len() - k,
    {
        let ghost before = cells@;
        cells.push(text_cell(0, (k + 1) as u16, names[k].as_str()));
        assert(cells_v(cells@) =~= cells_v(before).push((0int, k + 1, CellV::Text(nv[k as int]))));
        k += 1;
    }
    let ghost head = cells_v(cells@);
    let mut d: usize = 0;
    assert(head + doc_rows(docs@, nv, 0) =~= head);
    while d < docs.len()
        invariant
            d <= docs.len(),
            docs.len() <= EXPORT_MAX_ROWS,
            names@.len() < 0xFFFF,
            nv == string_views(names@),
            cells_v(cells@) == head + doc_rows(docs@, nv, d as int),
        decreases docs.len() - d,
    {
        let row = (d + 1) as u32;
        let ghost start = cells_v(cells@);
        cells.push(text_cell(row, 0, docs[d].0.as_str()));
        assert(cells_v(cells@) =~= start + doc_row(row as int, docs@[d as int], nv, 0));
        let mut c: usize = 0;
        while c < names.len()
            invariant
                c <= names.len(),
                d < docs.len(),
                row == d + 1,
                names@.len() < 0xFFFF,
                nv == string_views(names@),
                cells_v(cells@) == start + doc_row(row as int, docs@[d as int], nv, c as int),
            decreases names.len() - c,
        {
            let ghost before = cells_v(cells@);
            match value_cell_exec(row, (c + 1) as u16, docs[d].1.get(names[c].as_str())) {
                Some(cell) => {
                    cells.push(cell);
                },
                None => {},
            }
            assert(cells_v(cells@) =~= before + at(row as int, c + 1, value_cell(get_spec(docs@[d as int].1, nv[c as int]))));
            c += 1;
        }
        assert(cells_v(cells@) =~= start + doc_row(row as int, docs@[d as int], nv, nv.len() as int));
        assert(head + doc_rows(docs@, nv, d + 1) =~= head + doc_rows(docs@, nv, d as int) + doc_row(row as int, docs@[d as int], nv, nv.len() as int));
        d += 1;
    }
    Ok(SheetPlan { name, cells })
}

} // verus!
