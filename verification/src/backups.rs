//! The backups directory as the admin sees it: which files are backups,
//! the name a new backup takes, and the listing, newest name first.
use vstd::prelude::*;
use crate::error::{bad_request, message_of, AppError};
use crate::text::{
    chars_of, contains_char, decimal, ends_with, ends_with_seq, has_char, lemma_lex_total, lex_less,
    lex_lt, push_all, push_str, seq_is, string_from, string_of, u64_decimal,
};

verus! {

broadcast use vstd::string::group_string_axioms;

pub struct BackupFile {
    pub name: String,
    pub size: u64,
    pub modified: i64,
}

/// The index of the last `.` in `s` before index `i`, or -1.
pub open spec fn last_dot(s: Seq<char>, i: int) -> int
    decreases i,
{
    if i <= 0 {
        -1
    } else if s[i - 1] == '.' {
        i - 1
    } else {
        last_dot(s, i - 1)
    }
}

/// A backup is a file whose extension (the text after its last `.`, when
/// that dot does not open the name) is `db`.
pub open spec fn is_backup_name(s: Seq<char>) -> bool {
    let p = last_dot(s, s.len() as int);
    p > 0 && s.skip(p + 1) == "db"@
}

pub fn is_backup_file(name: &str) -> (r: bool)
    ensures
        r == is_backup_name(name@),
{
    let v = chars_of(name);
    let mut i: usize = v.len();
    while i > 0 && v[i - 1] != '.'
        invariant
            i <= v.len(),
            last_dot(v@, v@.len() as int) == last_dot(v@, i as int),
        decreases i,
    {
        i -= 1;
    }
    if i <= 1 {
        return false;
    }
    let mut ext: Vec<char> = Vec::new();
    let mut k: usize = i;
    while k < v.len()
        invariant
            i <= k <= v.len(),
            ext@ == v@.subrange(i as int, k as int),
        decreases v.len() - k,
    {
        ext.push(v[k]);
        assert(ext@ =~= v@.subrange(i as int, k + 1));
        k += 1;
    }
    assert(v@.skip(i as int) =~= ext@);
    seq_is(&ext, "db")
}

/// The name of a backup taken at `secs` seconds since 1970.
pub fn backup_file_name(secs: u64) -> (r: String)
    ensures
        r@ == "core-"@ + decimal(secs as nat) + ".db"@,
{
    let mut m = chars_of("core-");
    push_all(&mut m, &u64_decimal(secs));
    push_str(&mut m, ".db");
    string_of(m.as_slice())
}

/// A name that a download may ask for: no `/`, `\\`, `.` or `:` in it, and
/// ending in `.db`.
pub open spec fn download_name_ok(s: Seq<char>) -> bool {
    !has_char(s, '/') && !has_char(s, '\\') && !has_char(s, '.') && !has_char(s, ':')
        && ends_with(s, ".db"@)
}

/// Checks the name of a backup asked for by download.
pub fn check_backup_name(name: &str) -> (r: Result<(), AppError>)
    ensures
        r is Ok <==> download_name_ok(name@),
        r matches Err(e) ==> e is BadRequest && message_of(e) == "invalid backup name"@,
{
    let v = chars_of(name);
    if contains_char(&v, '/') || contains_char(&v, '\\') || contains_char(&v, '.')
        || contains_char(&v, ':') || !ends_with_seq(&v, &chars_of(".db"))
    {
        return Err(bad_request("invalid backup name"));
    }
    Ok(())
}

/// A name that ends in `.db` holds a `.`, so no name passes the download
/// check.
pub proof fn lemma_no_download_name_passes(s: Seq<char>)
    ensures
        !download_name_ok(s),
{
    if ends_with(s, ".db"@) {
        reveal_strlit(".db");
        let k = s.len() - 3;
        assert(s.subrange(k, k + 3)[0] == '.');
        assert(s[k] == '.');
    }
}

/// The backups among directory entries, in order.
pub open spec fn backups_of(s: Seq<BackupFile>) -> Seq<BackupFile>
    decreases s.len(),
{
    if s.len() == 0 {
        Seq::empty()
    } else if is_backup_name(s.last().name@) {
        backups_of(s.drop_last()).push(s.last())
    } else {
        backups_of(s.drop_last())
    }
}

/// Each name sorts no earlier than the next.
pub open spec fn newest_first(s: Seq<BackupFile>) -> bool {
    forall|i: int, j: int| 0 <= i < j < s.len() ==> !lex_lt((#[trigger] s[i]).name@, (#[trigger] s[j]).name@)
}

/// A directory entry by its values.
pub open spec fn file_v(f: BackupFile) -> (Seq<char>, u64, i64) {
    (f.name@, f.size, f.modified)
}

pub open spec fn files_v(s: Seq<BackupFile>) -> Seq<(Seq<char>, u64, i64)> {
    s.map_values(|f: BackupFile| file_v(f))
}

/// Puts `item` into `out` before the first entry whose name sorts before
/// its own, so that the names stay from the last to the first.
fn insert_by_name(out: &mut Vec<BackupFile>, item: BackupFile)
    requires
        newest_first(old(out)@),
    ensures
        newest_first(final(out)@),
        files_v(final(out)@).to_multiset() == files_v(old(out)@).to_multiset().insert(file_v(item)),
{
    let key = chars_of(item.name.as_str());
    let mut p: usize = 0;
    while p < out.len() && !lex_less(&chars_of(out[p].name.as_str()), &key)
        invariant
            p <= out.len(),
            key@ == item.name@,
            forall|j: int| 0 <= j < p ==> !lex_lt((#[trigger] out@[j]).name@, item.name@),
        decreases out.len() - p,
    {
        p += 1;
    }
    let ghost before = out@;
    let ghost x = item.name@;
    let ghost iv = file_v(item);
    assert(p == before.len() || lex_lt(before[p as int].name@, x));
    out.insert(p, item);
    proof {
        assert(files_v(out@) =~= files_v(before).insert(p as int, iv));
        vstd::seq_lib::to_multiset_insert(files_v(before), p as int, iv);
        assert forall|a: int, b: int| 0 <= a < b < out@.len() implies !lex_lt(
            (#[trigger] out@[a]).name@,
            (#[trigger] out@[b]).name@,
        ) by {
            if b < p {
                assert(out@[a] == before[a] && out@[b] == before[b]);
            } else if b == p {
                assert(out@[a] == before[a]);
            } else if a == p {
                assert(out@[b] == before[b - 1]);
                if b - 1 > p {
                    assert(!lex_lt(before[p as int].name@, before[b - 1].name@));
                    lemma_not_before_then_before(before[b - 1].name@, before[p as int].name@, x);
                    lemma_lex_asymmetric(before[b - 1].name@, x);
                } else {
                    lemma_lex_asymmetric(before[p as int].name@, x);
                }
            } else if a < p {
                assert(out@[a] == before[a] && out@[b] == before[b - 1]);
            } else {
                assert(out@[a] == before[a - 1] && out@[b] == before[b - 1]);
            }
        }
    }
}

/// The backups among directory entries, by name from the last to the first
/// (the names hold the time they were taken).
pub fn list_backups(entries: &Vec<BackupFile>) -> (r: Vec<BackupFile>)
    ensures
        files_v(r@).to_multiset() == files_v(backups_of(entries@)).to_multiset(),
        newest_first(r@),
{
    let ghost all = entries@;
    let mut out: Vec<BackupFile> = Vec::new();
    let mut i: usize = 0;
    proof {
        assert(all.take(0) =~= Seq::<BackupFile>::empty());
        assert(files_v(out@) =~= Seq::<(Seq<char>, u64, i64)>::empty());
        assert(files_v(backups_of(all.take(0))) =~= Seq::<(Seq<char>, u64, i64)>::empty());
    }
    while i < entries.len()
        invariant
            i <= entries.len(),
            all == entries@,
            files_v(out@).to_multiset() == files_v(backups_of(all.take(i as int))).to_multiset(),
            newest_first(out@),
        decreases entries.len() - i,
    {
        let e = &entries[i];
        proof {
            assert(all.take(i + 1).drop_last() =~= all.take(i as int));
            assert(all.take(i + 1).last() == all[i as int]);
        }
        if is_backup_file(e.name.as_str()) {
            let item = BackupFile { name: string_from(e.name.as_str()), size: e.size, modified: e.modified };
            assert(file_v(item) == file_v(all[i as int]));
            let ghost iv = file_v(item);
            let ghost prev = files_v(backups_of(all.take(i as int)));
            insert_by_name(&mut out, item);
            proof {
                assert(files_v(backups_of(all.take(i + 1))) =~= prev.push(iv));
                vstd::seq_lib::to_multiset_build(prev, iv);
            }
        } else {
            assert(backups_of(all.take(i + 1)) == backups_of(all.take(i as int)));
        }
        i += 1;
    }
    proof {
        assert(all.take(entries.len() as int) =~= all);
    }
    out
}

/// Of two names, at most one sorts before the other.
proof fn lemma_lex_asymmetric(a: Seq<char>, b: Seq<char>)
    requires
        lex_lt(a, b),
    ensures
        !lex_lt(b, a),
{
    if lex_lt(b, a) {
        crate::text::lemma_lex_transitive(a, b, a, 0);
        crate::text::lemma_lex_irreflexive(a, 0);
    }
}

/// When `b` does not sort before `a` and `b` sorts before `c`, then `a`
/// sorts before `c`.
proof fn lemma_not_before_then_before(a: Seq<char>, b: Seq<char>, c: Seq<char>)
    requires
        !lex_lt(b, a),
        lex_lt(b, c),
    ensures
        lex_lt(a, c),
{
    if a == b {
    } else {
        lemma_lex_total(a, b, 0);
        crate::text::lemma_lex_transitive(a, b, c, 0);
    }
}

} // verus!
