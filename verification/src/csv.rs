//! CSV as documents are exported and imported: the text of a value, the
//! quoting of a cell, and the reading of records.
use vstd::prelude::*;
use crate::error::{bad_request, message_of, AppError};
use crate::json::{get_spec, json_text, to_text, Json};
use crate::text::{
    chars_of, contains_char, has_char, push_all, push_str, replace_all, replace_seq, string_of,
    string_views,
};

verus! {

broadcast use vstd::string::group_string_axioms;

/// The text a value is exported as: nothing for a missing value or null,
/// a string as itself, anything else as its JSON text.
pub open spec fn csv_text(v: Option<Json>) -> Seq<char> {
    match v {
        None => Seq::empty(),
        Some(Json::Null) => Seq::empty(),
        Some(Json::String(s)) => s@,
        Some(x) => json_text(x),
    }
}

pub fn csv_value(value: Option<&Json>) -> (r: String)
    ensures
        r@ == csv_text(
            match value {
                Some(x) => Some(*x),
                None => None,
            },
        ),
{
    match value {
        None => String::new(),
        Some(Json::Null) => String::new(),
        Some(Json::String(text)) => text.clone(),
        Some(other) => string_of(to_text(other).as_slice()),
    }
}

/// A cell needs quoting when it holds a comma, a quote or a line break.
pub open spec fn needs_quotes(v: Seq<char>) -> bool {
    has_char(v, ',') || has_char(v, '"') || has_char(v, '\n') || has_char(v, '\r')
}

/// A cell as written: quoted, with its quotes doubled, when it needs it.
pub open spec fn cell_text(v: Seq<char>) -> Seq<char> {
    if needs_quotes(v) {
        seq!['"'] + replace_all(v, seq!['"'], seq!['"', '"']) + seq!['"']
    } else {
        v
    }
}

pub fn csv_cell(value: &str) -> (r: String)
    ensures
        r@ == cell_text(value@),
{
    let v = chars_of(value);
    if contains_char(&v, ',') || contains_char(&v, '"') || contains_char(&v, '\n') || contains_char(
        &v,
        '\r',
    ) {
        let mut out: Vec<char> = Vec::new();
        out.push('"');
        let q = vec!['"'];
        let qq = vec!['"', '"'];
        let body = replace_seq(&v, &q, &qq);
        assert(q@ =~= seq!['"'] && qq@ =~= seq!['"', '"']);
        push_all(&mut out, &body);
        out.push('"');
        assert(out@ =~= seq!['"'] + body@ + seq!['"']);
        string_of(out.as_slice())
    } else {
        string_of(v.as_slice())
    }
}

// ---------------------------------------------------------------------------
// Reading
// ---------------------------------------------------------------------------

/// Where a reader stands: the records read, the cells of the current
/// record, the current cell, and whether it is inside quotes.
pub struct CsvState {
    pub records: Seq<Seq<Seq<char>>>,
    pub record: Seq<Seq<char>>,
    pub cell: Seq<char>,
    pub quoted: bool,
}

pub open spec fn csv_start() -> CsvState {
    CsvState { records: Seq::empty(), record: Seq::empty(), cell: Seq::empty(), quoted: false }
}

pub open spec fn end_record(st: CsvState) -> CsvState {
    CsvState {
        records: st.records.push(st.record.push(st.cell)),
        record: Seq::empty(),
        cell: Seq::empty(),
        quoted: st.quoted,
    }
}

pub open spec fn with_cell(st: CsvState, cell: Seq<char>) -> CsvState {
    CsvState { records: st.records, record: st.record, cell, quoted: st.quoted }
}

/// One step of reading at `i`: a doubled quote inside quotes is a quote; a
/// quote opens or closes quotes; outside quotes a comma ends the cell and a
/// line break (`\n`, `\r`, or `\r\n` as one) ends the record; anything else
/// joins the cell. Returns the new state and where reading goes on.
pub open spec fn csv_step(st: CsvState, s: Seq<char>, i: int) -> (CsvState, int) {
    let ch = s[i];
    let next_is_quote = i + 1 < s.len() && s[i + 1] == '"';
    let next_is_newline = i + 1 < s.len() && s[i + 1] == '\n';
    if ch == '"' && st.quoted && next_is_quote {
        (with_cell(st, st.cell.push('"')), i + 2)
    } else if ch == '"' {
        (CsvState { records: st.records, record: st.record, cell: st.cell, quoted: !st.quoted }, i + 1)
    } else if ch == ',' && !st.quoted {
        (CsvState { records: st.records, record: st.record.push(st.cell), cell: Seq::empty(), quoted: st.quoted }, i + 1)
    } else if ch == '\n' && !st.quoted {
        (end_record(st), i + 1)
    } else if ch == '\r' && !st.quoted {
        if next_is_newline {
            (st, i + 1)
        } else {
            (end_record(st), i + 1)
        }
    } else {
        (with_cell(st, st.cell.push(ch)), i + 1)
    }
}

/// The state after reading `s` from `i` on.
pub open spec fn csv_run(s: Seq<char>, i: int, st: CsvState) -> CsvState
    decreases s.len() - i,
{
    if i >= s.len() || i < 0 {
        st
    } else {
        let (next, j) = csv_step(st, s, i);
        if j <= i {
            next
        } else {
            csv_run(s, j, next)
        }
    }
}

/// The records of a CSV text, or `None` when a quote is left open; a last
/// record without a line break counts when it has any content.
pub open spec fn csv_records(s: Seq<char>) -> Option<Seq<Seq<Seq<char>>>> {
    let st = csv_run(s, 0, csv_start());
    if st.quoted {
        None
    } else if st.cell.len() > 0 || st.record.len() > 0 {
        Some(st.records.push(st.record.push(st.cell)))
    } else {
        Some(st.records)
    }
}

pub open spec fn record_views(r: Seq<String>) -> Seq<Seq<char>> {
    r.map_values(|c: String| c@)
}

pub open spec fn records_views(rs: Seq<Vec<String>>) -> Seq<Seq<Seq<char>>> {
    rs.map_values(|r: Vec<String>| record_views(r@))
}

fn finish_record(records: &mut Vec<Vec<String>>, record: &mut Vec<String>, cell: &mut Vec<char>)
    ensures
        records_views(final(records)@) == records_views(old(records)@).push(
            record_views(old(record)@).push(old(cell)@),
        ),
        final(record)@.len() == 0,
        final(cell)@.len() == 0,
{
    let c = string_of(cell.as_slice());
    let ghost r0 = record@;
    record.push(c);
    assert(record_views(record@) =~= record_views(r0).push(old(cell)@));
    let mut done: Vec<String> = Vec::new();
    std::mem::swap(&mut done, record);
    let ghost rs0 = records@;
    records.push(done);
    assert(records_views(records@) =~= records_views(rs0).push(record_views(done@)));
    *cell = Vec::new();
}

/// Reads the records of a CSV text; a quote left open is a bad request.
pub fn parse_csv(input: &str) -> (r: Result<Vec<Vec<String>>, AppError>)
    ensures
        match csv_records(input@) {
            Some(rs) => r matches Ok(v) && records_views(v@) == rs,
            None => r matches Err(e) && e is BadRequest && message_of(e) == "malformed CSV quote"@,
        },
{
    let s = chars_of(input);
    let mut records: Vec<Vec<String>> = Vec::new();
    let mut record: Vec<String> = Vec::new();
    let mut cell: Vec<char> = Vec::new();
    let mut quoted = false;
    let mut i: usize = 0;
    assert(records_views(records@) =~= Seq::<Seq<Seq<char>>>::empty());
    assert(record_views(record@) =~= Seq::<Seq<char>>::empty());
    assert(cell@ =~= Seq::<char>::empty());
    while i < s.len()
        invariant
            i <= s.len(),
            s@ == input@,
            csv_run(s@, 0, csv_start()) == csv_run(
                s@,
                i as int,
                CsvState {
                    records: records_views(records@),
                    record: record_views(record@),
                    cell: cell@,
                    quoted,
                },
            ),
        decreases s.len() - i,
    {
        let ghost st = CsvState {
            records: records_views(records@),
            record: record_views(record@),
            cell: cell@,
            quoted,
        };
        let ghost (next, j) = csv_step(st, s@, i as int);
        let ch = s[i];
        if ch == '"' && quoted && i + 1 < s.len() && s[i + 1] == '"' {
            cell.push('"');
            i = i + 2;
        } else if ch == '"' {
            quoted = !quoted;
            i = i + 1;
        } else if ch == ',' && !quoted {
            let c = string_of(cell.as_slice());
            let ghost r0 = record@;
            record.push(c);
            assert(record_views(record@) =~= record_views(r0).push(st.cell));
            cell = Vec::new();
            assert(cell@ =~= Seq::<char>::empty());
            i = i + 1;
        } else if ch == '\n' && !quoted {
            finish_record(&mut records, &mut record, &mut cell);
            assert(record_views(record@) =~= Seq::<Seq<char>>::empty());
            assert(cell@ =~= Seq::<char>::empty());
            i = i + 1;
        } else if ch == '\r' && !quoted {
            if !(i + 1 < s.len() && s[i + 1] == '\n') {
                finish_record(&mut records, &mut record, &mut cell);
                assert(record_views(record@) =~= Seq::<Seq<char>>::empty());
                assert(cell@ =~= Seq::<char>::empty());
            }
            i = i + 1;
        } else {
            cell.push(ch);
            i = i + 1;
        }
        assert(next == CsvState {
            records: records_views(records@),
            record: record_views(record@),
            cell: cell@,
            quoted,
        });
        assert(j == i);
    }
    if quoted {
        return Err(bad_request("malformed CSV quote"));
    }
    if cell.len() > 0 || record.len() > 0 {
        finish_record(&mut records, &mut record, &mut cell);
    }
    Ok(records)
}

// ---------------------------------------------------------------------------
// Written cells read back
// ---------------------------------------------------------------------------

pub open spec fn escaped(w: Seq<char>) -> Seq<char> {
    replace_all(w, seq!['"'], seq!['"', '"'])
}

proof fn lemma_plain_run(s: Seq<char>, i: int, st: CsvState)
    requires
        0 <= i <= s.len(),
        !st.quoted,
        forall|k: int|
            i <= k < s.len() ==> #[trigger] s[k] != ',' && s[k] != '"' && s[k] != '\n' && s[k]
                != '\r',
    ensures
        csv_run(s, i, st) == with_cell(st, st.cell + s.skip(i)),
    decreases s.len() - i,
{
    if i >= s.len() {
        assert(st.cell + s.skip(i) =~= st.cell);
    } else {
        let next = with_cell(st, st.cell.push(s[i]));
        assert(csv_step(st, s, i) == (next, i + 1));
        lemma_plain_run(s, i + 1, next);
        assert(next.cell + s.skip(i + 1) =~= st.cell + s.skip(i));
    }
}

proof fn lemma_quoted_run(w: Seq<char>, s: Seq<char>, i: int, st: CsvState)
    requires
        0 <= i,
        st.quoted,
        i + escaped(w).len() <= s.len(),
        s.subrange(i, i + escaped(w).len()) == escaped(w),
    ensures
        csv_run(s, i, st) == csv_run(s, i + escaped(w).len(), with_cell(st, st.cell + w)),
    decreases w.len(),
{
    let p = seq!['"'];
    let r = seq!['"', '"'];
    if w.len() == 0 {
        assert(escaped(w) == w);
        assert(st.cell + w =~= st.cell);
        assert(with_cell(st, st.cell + w) == st);
    } else if w.subrange(0, 1) == p {
        assert(escaped(w) == r + escaped(w.skip(1)));
        assert(s[i] == escaped(w)[0]);
        assert(s[i + 1] == escaped(w)[1]);
        let next = with_cell(st, st.cell.push('"'));
        assert(csv_step(st, s, i) == (next, i + 2));
        let big = s.subrange(i, i + escaped(w).len());
        assert(big.subrange(2, big.len() as int) =~= escaped(w.skip(1)));
        assert(s.subrange(i + 2, i + 2 + escaped(w.skip(1)).len()) =~= big.subrange(2, big.len() as int));
        lemma_quoted_run(w.skip(1), s, i + 2, next);
        assert(w.subrange(0, 1)[0] == w[0]);
        assert(w[0] == '"');
        assert(next.cell + w.skip(1) =~= st.cell + w);
    } else {
        assert(escaped(w) == seq![w[0]] + escaped(w.drop_first()));
        assert(s[i] == escaped(w)[0]);
        assert(w[0] != '"') by {
            if w[0] == '"' {
                assert(w.subrange(0, 1) =~= p);
            }
        }
        let next = with_cell(st, st.cell.push(w[0]));
        assert(csv_step(st, s, i) == (next, i + 1));
        let big = s.subrange(i, i + escaped(w).len());
        assert(big.subrange(1, big.len() as int) =~= escaped(w.drop_first()));
        assert(s.subrange(i + 1, i + 1 + escaped(w.drop_first()).len()) =~= big.subrange(1, big.len() as int));
        lemma_quoted_run(w.drop_first(), s, i + 1, next);
        assert(next.cell + w.drop_first() =~= st.cell + w);
    }
}

/// A non-empty value written as a cell reads back as one record holding
/// that one value.
pub proof fn lemma_cell_round_trip(v: Seq<char>)
    requires
        v.len() > 0,
    ensures
        csv_records(cell_text(v)) == Some(seq![seq![v]]),
{
    let s = cell_text(v);
    if needs_quotes(v) {
        let body = escaped(v);
        assert(s == seq!['"'] + body + seq!['"']);
        let st0 = csv_start();
        let st1 = CsvState { records: st0.records, record: st0.record, cell: st0.cell, quoted: true };
        assert(s[0] == '"');
        assert(csv_step(st0, s, 0) == (st1, 1int));
        assert(s.subrange(1, 1 + body.len() as int) =~= body);
        lemma_quoted_run(v, s, 1, st1);
        let st2 = with_cell(st1, st1.cell + v);
        let last = s.len() - 1;
        assert(last == 1 + body.len());
        assert(s[last] == '"');
        let st3 = CsvState { records: st2.records, record: st2.record, cell: st2.cell, quoted: false };
        assert(csv_step(st2, s, last) == (st3, last + 1));
        assert(csv_run(s, last + 1, st3) == st3);
        assert(csv_run(s, last, st2) == st3);
        assert(csv_run(s, 0, st0) == csv_run(s, 1, st1));
        assert(csv_run(s, 0, st0) == st3);
        assert(st3.cell =~= v);
        assert(st3.records =~= Seq::<Seq<Seq<char>>>::empty());
        assert(st3.record =~= Seq::<Seq<char>>::empty());
        assert(st3.record.push(st3.cell) =~= seq![v]);
        assert(st3.records.push(st3.record.push(st3.cell)) =~= seq![seq![v]]);
    } else {
        assert(s == v);
        assert forall|k: int| 0 <= k < s.len() implies #[trigger] s[k] != ',' && s[k] != '"'
            && s[k] != '\n' && s[k] != '\r' by {
            if s[k] == ',' {
                assert(has_char(v, ','));
            }
            if s[k] == '"' {
                assert(has_char(v, '"'));
            }
            if s[k] == '\n' {
                assert(has_char(v, '\n'));
            }
            if s[k] == '\r' {
                assert(has_char(v, '\r'));
            }
        }
        lemma_plain_run(s, 0, csv_start());
        let st = csv_run(s, 0, csv_start());
        assert(s.skip(0) =~= s);
        assert(st.cell =~= v);
        assert(st.records.push(st.record.push(st.cell)) =~= seq![seq![v]]);
    }
}

/// Cells written one after the other, separated by commas.
pub open spec fn cells_text(r: Seq<Seq<char>>) -> Seq<char>
    decreases r.len(),
{
    if r.len() == 0 {
        Seq::empty()
    } else if r.len() == 1 {
        cell_text(r[0])
    } else {
        cells_text(r.drop_last()) + seq![','] + cell_text(r.last())
    }
}

/// Records written as lines: their cells, then a line break.
pub open spec fn csv_document(rows: Seq<Seq<Seq<char>>>) -> Seq<char>
    decreases rows.len(),
{
    if rows.len() == 0 {
        Seq::empty()
    } else {
        csv_document(rows.drop_last()) + cells_text(rows.last()) + seq!['\n']
    }
}

proof fn lemma_sub_split(s: Seq<char>, i: int, a: Seq<char>, b: Seq<char>)
    requires
        0 <= i,
        i + a.len() + b.len() <= s.len(),
        s.subrange(i, i + a.len() + b.len()) == a + b,
    ensures
        s.subrange(i, i + a.len()) == a,
        s.subrange(i + a.len(), i + a.len() + b.len()) == b,
{
    let ab = s.subrange(i, i + a.len() + b.len());
    assert(s.subrange(i, i + a.len()) =~= ab.subrange(0, a.len() as int));
    assert(ab.subrange(0, a.len() as int) =~= a);
    assert(s.subrange(i + a.len(), i + a.len() + b.len()) =~= ab.subrange(a.len() as int, ab.len() as int));
    assert(ab.subrange(a.len() as int, ab.len() as int) =~= b);
}

proof fn lemma_plain_segment(s: Seq<char>, i: int, j: int, st: CsvState)
    requires
        0 <= i <= j <= s.len(),
        !st.quoted,
        forall|k: int|
            i <= k < j ==> #[trigger] s[k] != ',' && s[k] != '"' && s[k] != '\n' && s[k] != '\r',
    ensures
        csv_run(s, i, st) == csv_run(s, j, with_cell(st, st.cell + s.subrange(i, j))),
    decreases j - i,
{
    if i == j {
        assert(st.cell + s.subrange(i, j) =~= st.cell);
        assert(with_cell(st, st.cell + s.subrange(i, j)) == st);
    } else {
        let next = with_cell(st, st.cell.push(s[i]));
        assert(csv_step(st, s, i) == (next, i + 1));
        lemma_plain_segment(s, i + 1, j, next);
        assert(next.cell + s.subrange(i + 1, j) =~= st.cell + s.subrange(i, j));
    }
}

/// A cell written at `i`, followed by a comma or a line break, reads back
/// as its value joined to the current cell.
proof fn lemma_cell_run(v: Seq<char>, s: Seq<char>, i: int, st: CsvState)
    requires
        !st.quoted,
        0 <= i,
        i + cell_text(v).len() < s.len(),
        s.subrange(i, i + cell_text(v).len()) == cell_text(v),
        s[i + cell_text(v).len()] == ',' || s[i + cell_text(v).len()] == '\n',
    ensures
        csv_run(s, i, st) == csv_run(s, i + cell_text(v).len(), with_cell(st, st.cell + v)),
{
    let ct = cell_text(v);
    let e = i + ct.len();
    if needs_quotes(v) {
        let body = escaped(v);
        assert(ct == seq!['"'] + body + seq!['"']);
        assert(s[i] == ct[0]);
        let st1 = CsvState { records: st.records, record: st.record, cell: st.cell, quoted: true };
        assert(csv_step(st, s, i) == (st1, i + 1));
        assert(s.subrange(i + 1, i + 1 + body.len()) =~= ct.subrange(1, 1 + body.len() as int));
        assert(ct.subrange(1, 1 + body.len() as int) =~= body);
        lemma_quoted_run(v, s, i + 1, st1);
        let st2 = with_cell(st1, st1.cell + v);
        let last = i + 1 + body.len();
        assert(last == e - 1);
        assert(s[last] == ct[ct.len() - 1]);
        let st3 = CsvState { records: st2.records, record: st2.record, cell: st2.cell, quoted: false };
        assert(csv_step(st2, s, last) == (st3, last + 1));
        assert(st3 == with_cell(st, st.cell + v));
    } else {
        assert(ct == v);
        assert forall|k: int| i <= k < e implies #[trigger] s[k] != ',' && s[k] != '"' && s[k] != '\n'
            && s[k] != '\r' by {
            assert(s[k] == s.subrange(i, e)[k - i]);
            assert(v[k - i] == s[k]);
            if s[k] == ',' {
                assert(has_char(v, ','));
            }
            if s[k] == '"' {
                assert(has_char(v, '"'));
            }
            if s[k] == '\n' {
                assert(has_char(v, '\n'));
            }
            if s[k] == '\r' {
                assert(has_char(v, '\r'));
            }
        }
        lemma_plain_segment(s, i, e, st);
        assert(s.subrange(i, e) == v);
    }
}

/// The cells of a record written at `i`, followed by a comma or a line
/// break, read back as the record's cells but the last, which is left as
/// the current cell.
proof fn lemma_cells_run(r: Seq<Seq<char>>, s: Seq<char>, i: int, st: CsvState)
    requires
        r.len() >= 1,
        !st.quoted,
        st.cell.len() == 0,
        0 <= i,
        i + cells_text(r).len() < s.len(),
        s.subrange(i, i + cells_text(r).len()) == cells_text(r),
        s[i + cells_text(r).len()] == ',' || s[i + cells_text(r).len()] == '\n',
    ensures
        csv_run(s, i, st) == csv_run(
            s,
            i + cells_text(r).len(),
            CsvState { records: st.records, record: st.record + r.drop_last(), cell: r.last(), quoted: false },
        ),
    decreases r.len(),
{
    if r.len() == 1 {
        lemma_cell_run(r[0], s, i, st);
        assert(st.cell + r[0] =~= r[0]);
        assert(st.record + r.drop_last() =~= st.record);
    } else {
        let front = r.drop_last();
        let a = cells_text(front);
        let b = seq![','] + cell_text(r.last());
        assert(cells_text(r) =~= a + b);
        lemma_sub_split(s, i, a, b);
        let j = i + a.len();
        assert(s[j] == b[0]);
        lemma_cells_run(front, s, i, st);
        let mid = CsvState { records: st.records, record: st.record + front.drop_last(), cell: front.last(), quoted: false };
        let after = CsvState { records: st.records, record: mid.record.push(mid.cell), cell: Seq::empty(), quoted: false };
        assert(csv_step(mid, s, j) == (after, j + 1));
        let c = cell_text(r.last());
        assert(s.subrange(j + 1, j + 1 + c.len()) =~= b.subrange(1, b.len() as int));
        assert(b.subrange(1, b.len() as int) =~= c);
        lemma_cell_run(r.last(), s, j + 1, after);
        assert(after.cell + r.last() =~= r.last());
        assert(mid.record.push(mid.cell) =~= st.record + r.drop_last()) by {
            assert(front.drop_last().push(front.last()) =~= front);
        }
        assert(j + 1 + c.len() == i + cells_text(r).len());
    }
}

/// Written records, read from the start, give the records back.
proof fn lemma_document_run(rows: Seq<Seq<Seq<char>>>, s: Seq<char>)
    requires
        forall|k: int| 0 <= k < rows.len() ==> (#[trigger] rows[k]).len() >= 1,
        csv_document(rows).len() <= s.len(),
        s.subrange(0, csv_document(rows).len() as int) == csv_document(rows),
    ensures
        csv_run(s, 0, csv_start()) == csv_run(
            s,
            csv_document(rows).len() as int,
            CsvState { records: rows, record: Seq::empty(), cell: Seq::empty(), quoted: false },
        ),
    decreases rows.len(),
{
    if rows.len() == 0 {
        assert(rows =~= Seq::<Seq<Seq<char>>>::empty());
        assert(csv_start() == CsvState { records: rows, record: Seq::empty(), cell: Seq::empty(), quoted: false });
    } else {
        let front = rows.drop_last();
        let r = rows.last();
        let a = csv_document(front);
        let b = cells_text(r) + seq!['\n'];
        assert(csv_document(rows) =~= a + b);
        lemma_sub_split(s, 0, a, b);
        assert(s.subrange(0, a.len() as int) == a);
        lemma_document_run(front, s);
        let i = a.len() as int;
        let st = CsvState { records: front, record: Seq::empty(), cell: Seq::empty(), quoted: false };
        lemma_sub_split(s, i, cells_text(r), seq!['\n']);
        assert(s[i + cells_text(r).len()] == '\n') by {
            assert(s.subrange(i + cells_text(r).len(), i + cells_text(r).len() + 1)[0] == '\n');
        }
        assert(rows[rows.len() - 1].len() >= 1);
        lemma_cells_run(r, s, i, st);
        let j = i + cells_text(r).len();
        let mid = CsvState { records: front, record: Seq::empty() + r.drop_last(), cell: r.last(), quoted: false };
        assert(csv_step(mid, s, j) == (end_record(mid), j + 1));
        assert(end_record(mid).records =~= rows) by {
            assert((Seq::<Seq<char>>::empty() + r.drop_last()).push(r.last()) =~= r);
            assert(front.push(r) =~= rows);
        }
        assert(end_record(mid) == CsvState { records: rows, record: Seq::empty(), cell: Seq::empty(), quoted: false });
    }
}

/// Records of at least one cell each, written as CSV (cells quoted where
/// needed, joined by commas, each record ending in a line break), read back
/// as the same records.
pub proof fn lemma_csv_round_trip(rows: Seq<Seq<Seq<char>>>)
    requires
        forall|k: int| 0 <= k < rows.len() ==> (#[trigger] rows[k]).len() >= 1,
    ensures
        csv_records(csv_document(rows)) == Some(rows),
{
    let s = csv_document(rows);
    assert(s.subrange(0, s.len() as int) =~= s);
    lemma_document_run(rows, s);
}

// ---------------------------------------------------------------------------
// Writing
// ---------------------------------------------------------------------------

/// The most documents one export holds.
pub const EXPORT_MAX_ROWS: usize = 1000;

/// `,<cell>` for each field name.
pub open spec fn header_cells(names: Seq<Seq<char>>) -> Seq<char>
    decreases names.len(),
{
    if names.len() == 0 {
        Seq::empty()
    } else {
        header_cells(names.drop_last()) + seq![','] + cell_text(names.last())
    }
}

/// `,<cell>` for the value of each field in a payload.
pub open spec fn value_cells(payload: Json, names: Seq<Seq<char>>) -> Seq<char>
    decreases names.len(),
{
    if names.len() == 0 {
        Seq::empty()
    } else {
        value_cells(payload, names.drop_last()) + seq![','] + cell_text(
            csv_text(get_spec(payload, names.last())),
        )
    }
}

/// One line per `(id, payload)` document.
pub open spec fn rows_text(rows: Seq<(String, Json)>, names: Seq<Seq<char>>) -> Seq<char>
    decreases rows.len(),
{
    if rows.len() == 0 {
        Seq::empty()
    } else {
        rows_text(rows.drop_last(), names) + cell_text(rows.last().0@) + value_cells(rows.last().1, names)
            + seq!['\n']
    }
}

/// An export: the `id` column and one column per field, then the documents.
pub open spec fn export_text(names: Seq<Seq<char>>, rows: Seq<(String, Json)>) -> Seq<char> {
    "id"@ + header_cells(names) + seq!['\n'] + rows_text(rows, names)
}

/// Writes documents as CSV under the given field columns; refused without
/// columns or beyond the row limit.
pub fn export_csv(names: &Vec<String>, rows: &Vec<(String, Json)>) -> (r: Result<String, AppError>)
    ensures
        names@.len() == 0 ==> (r matches Err(e) && e is BadRequest && message_of(e) == "entity has no fields"@),
        names@.len() > 0 && rows@.len() > EXPORT_MAX_ROWS ==> (r matches Err(e) && e is BadRequest
            && message_of(e) == "export exceeds 1000 rows"@),
        names@.len() > 0 && rows@.len() <= EXPORT_MAX_ROWS ==> (r matches Ok(t) && t@ == export_text(
            string_views(names@),
            rows@,
        )),
{
    if names.len() == 0 {
        return Err(bad_request("entity has no fields"));
    }
    if rows.len() > EXPORT_MAX_ROWS {
        return Err(bad_request("export exceeds 1000 rows"));
    }
    let ghost nv = string_views(names@);
    let mut out = chars_of("id");
    let ghost start = out@;
    let mut i: usize = 0;
    while i < names.len()
        invariant
            i <= names.len(),
            nv == string_views(names@),
            out@ == start + header_cells(nv.take(i as int)),
        decreases names.len() - i,
    {
        assert(nv.take(i + 1).drop_last() =~= nv.take(i as int));
        assert(nv.take(i + 1).last() == names@[i as int]@);
        out.push(',');
        let c = csv_cell(names[i].as_str());
        push_str(&mut out, c.as_str());
        i += 1;
    }
    assert(nv.take(names.len() as int) =~= nv);
    out.push('\n');
    let ghost head = out@;
    let mut j: usize = 0;
    while j < rows.len()
        invariant
            j <= rows.len(),
            nv == string_views(names@),
            out@ == head + rows_text(rows@.take(j as int), nv),
        decreases rows.len() - j,
    {
        assert(rows@.take(j + 1).drop_last() =~= rows@.take(j as int));
        assert(rows@.take(j + 1).last() == rows@[j as int]);
        let c = csv_cell(rows[j].0.as_str());
        push_str(&mut out, c.as_str());
        let ghost cells_start = out@;
        let mut k: usize = 0;
        while k < names.len()
            invariant
                k <= names.len(),
                j < rows.len(),
                nv == string_views(names@),
                out@ == cells_start + value_cells(rows@[j as int].1, nv.take(k as int)),
            decreases names.len() - k,
        {
            assert(nv.take(k + 1).drop_last() =~= nv.take(k as int));
            assert(nv.take(k + 1).last() == names@[k as int]@);
            out.push(',');
            let v = csv_value(rows[j].1.get(names[k].as_str()));
            let c = csv_cell(v.as_str());
            push_str(&mut out, c.as_str());
            k += 1;
        }
        assert(nv.take(names.len() as int) =~= nv);
        out.push('\n');
        assert(out@ =~= head + rows_text(rows@.take(j + 1), nv));
        j += 1;
    }
    assert(rows@.take(rows.len() as int) =~= rows@);
    Ok(string_of(out.as_slice()))
}

} // verus!
