//! Runtime settings (listen address, database, backups), the database URL
//! rules, and the reading of SQLite pragmas.
use vstd::prelude::*;
use crate::error::Failure;
use crate::numbers::all_digits;
use crate::text::{chars_of, is_digit, is_digit_char, find_char, push_all, push_str, str_eq, replace_all, replace_seq, slice_chars, starts_with, starts_with_seq, string_from, string_of, find_char_from, seq_is};

verus! {

broadcast use vstd::string::group_string_axioms;

pub struct Config {
    pub host: String,
    pub port: u16,
    pub database_url: String,
    pub backup_interval_hours: u64,
    pub backup_keep: usize,
}

/// The value of a run of decimal digits.
pub open spec fn digits_value(s: Seq<char>) -> nat
    decreases s.len(),
{
    if s.len() == 0 {
        0
    } else {
        digits_value(s.drop_last()) * 10 + (s.last() as nat - '0' as nat) as nat
    }
}

/// The text after an optional leading `+`.
pub open spec fn unsigned_digits(s: Seq<char>) -> Seq<char> {
    if s.len() > 0 && s[0] == '+' {
        s.drop_first()
    } else {
        s
    }
}

/// What `str::parse` gives for an unsigned integer type with maximum `max`:
/// an optional `+`, then one or more digits, whose value is at most `max`.
pub open spec fn parse_unsigned(s: Seq<char>, max: nat) -> Option<nat> {
    let d = unsigned_digits(s);
    if d.len() > 0 && all_digits(d) && digits_value(d) <= max {
        Some(digits_value(d))
    } else {
        None
    }
}

proof fn lemma_digits_value_grows(s: Seq<char>, i: int)
    requires
        0 <= i <= s.len(),
        forall|k: int| 0 <= k < s.len() ==> is_digit(#[trigger] s[k]),
    ensures
        digits_value(s.take(i)) <= digits_value(s),
    decreases s.len() - i,
{
    if i < s.len() {
        lemma_digits_value_grows(s, i + 1);
        assert(s.take(i + 1).drop_last() =~= s.take(i));
    } else {
        assert(s.take(i) =~= s);
    }
}

/// `str::parse` into an unsigned integer no larger than `max`.
pub fn parse_unsigned_text(s: &str, max: u64) -> (r: Option<u64>)
    ensures
        match parse_unsigned(s@, max as nat) {
            Some(v) => r == Some(v as u64),
            None => r is None,
        },
{
    let v = chars_of(s);
    let start: usize = if v.len() > 0 && v[0] == '+' {
        1
    } else {
        0
    };
    let ghost d = if v@.len() > 0 && v@[0] == '+' {
        v@.drop_first()
    } else {
        v@
    };
    assert(d =~= v@.skip(start as int));
    if start >= v.len() {
        return None;
    }
    let mut value: u64 = 0;
    let mut i: usize = start;
    while i < v.len()
        invariant
            start <= i <= v.len(),
            v@ == s@,
            start == 1 <==> (s@.len() > 0 && s@[0] == '+'),
            start <= 1,
            d == v@.skip(start as int),
            d == unsigned_digits(s@),
            value == digits_value(v@.subrange(start as int, i as int)),
            value <= max,
            forall|k: int| start <= k < i ==> is_digit(#[trigger] v@[k]),
        decreases v.len() - i,
    {
        assert(v@.subrange(start as int, i + 1).drop_last() =~= v@.subrange(start as int, i as int));
        if !is_digit_char(v[i]) {
            assert(d[i - start] == v@[i as int]);
            assert(!is_digit(d[i - start]));
            assert(!all_digits(d));
            assert(parse_unsigned(s@, max as nat) is None);
            return None;
        }
        let digit = (v[i] as u32 - '0' as u32) as u64;
        if digit > max || value > (max - digit) / 10 {
            proof {
                assert(v@.subrange(start as int, i + 1) =~= d.take(i + 1 - start));
                assert(digits_value(d.take(i + 1 - start)) == value * 10 + digit);
                assert(value * 10 + digit > max);
                if all_digits(d) {
                    lemma_digits_value_grows(d, i + 1 - start);
                    assert(digits_value(d) > max);
                }
                assert(parse_unsigned(s@, max as nat) is None);
            }
            return None;
        }
        value = value * 10 + digit;
        i += 1;
    }
    assert(v@.subrange(start as int, v.len() as int) =~= d);
    Some(value)
}

/// Settings from the values a deployment gives (each absent or as text):
/// the host defaults to `127.0.0.1`, the port to 8787, backups to every 24
/// hours keeping 7; a number that does not parse takes the default.
pub open spec fn settings_ok(
    host: Option<Seq<char>>,
    port: Option<Seq<char>>,
    database_url: Seq<char>,
    interval: Option<Seq<char>>,
    keep: Option<Seq<char>>,
    c: Config,
) -> bool {
    &&& c.host@ == match host {
        Some(h) => h,
        None => "127.0.0.1"@,
    }
    &&& c.port as nat == match port {
        Some(p) => match parse_unsigned(p, 65535) {
            Some(v) => v,
            None => 8787,
        },
        None => 8787,
    }
    &&& c.database_url@ == database_url
    &&& c.backup_interval_hours as nat == match interval {
        Some(p) => match parse_unsigned(p, u64::MAX as nat) {
            Some(v) => v,
            None => 24,
        },
        None => 24,
    }
    &&& c.backup_keep as nat == match keep {
        Some(p) => match parse_unsigned(p, usize::MAX as nat) {
            Some(v) => v,
            None => 7,
        },
        None => 7,
    }
}

pub open spec fn opt_view(o: Option<&str>) -> Option<Seq<char>> {
    match o {
        Some(s) => Some(s@),
        None => None,
    }
}

impl Config {
    /// Settings from the deployment's values (see `settings_ok`).
    pub fn from_values(
        host: Option<&str>,
        port: Option<&str>,
        database_url: &str,
        backup_interval_hours: Option<&str>,
        backup_keep: Option<&str>,
    ) -> (c: Config)
        ensures
            settings_ok(
                opt_view(host),
                opt_view(port),
                database_url@,
                opt_view(backup_interval_hours),
                opt_view(backup_keep),
                c,
            ),
    {
        let host = match host {
            Some(h) => string_from(h),
            None => string_from("127.0.0.1"),
        };
        let port: u16 = match port {
            Some(p) => match parse_unsigned_text(p, 65535) {
                Some(v) => v as u16,
                None => 8787,
            },
            None => 8787,
        };
        let backup_interval_hours: u64 = match backup_interval_hours {
            Some(p) => match parse_unsigned_text(p, u64::MAX) {
                Some(v) => v,
                None => 24,
            },
            None => 24,
        };
        let backup_keep: usize = match backup_keep {
            Some(p) => match parse_unsigned_text(p, usize::MAX as u64) {
                Some(v) => v as usize,
                None => 7,
            },
            None => 7,
        };
        Config { host, port, database_url: string_from(database_url), backup_interval_hours, backup_keep }
    }
}

/// The SQLite file of a `sqlite://` URL: the text after the scheme, up to
/// any `?`.
pub open spec fn url_path(url: Seq<char>) -> Seq<char> {
    let rest = url.skip(9);
    rest.take(find_char_from(rest, 0, '?'))
}

/// The file a database URL points at: refused when the URL is not a
/// `sqlite://` URL, or names no file or the in-memory database.
pub fn database_path(url: &str) -> (r: Result<String, Failure>)
    ensures
        !starts_with(url@, "sqlite://"@) ==> (r matches Err(Failure::Other(m)) && m@
            == "database URL must start with sqlite://"@),
        starts_with(url@, "sqlite://"@) && (url_path(url@).len() == 0 || url_path(url@)
            == ":memory:"@) ==> (r matches Err(Failure::Other(m)) && m@
            == "restore requires a file-backed SQLite database"@),
        starts_with(url@, "sqlite://"@) && !(url_path(url@).len() == 0 || url_path(url@)
            == ":memory:"@) ==> (r matches Ok(p) && p@ == url_path(url@)),
{
    proof {
        reveal_strlit("sqlite://");
    }
    let v = chars_of(url);
    if !starts_with_seq(&v, &chars_of("sqlite://")) {
        return Err(Failure::Other(string_from("database URL must start with sqlite://")));
    }
    let rest = slice_chars(&v, 9, v.len());
    let q = find_char(&rest, 0, '?');
    let path = slice_chars(&rest, 0, q);
    assert(path@ == url_path(url@));
    if path.len() == 0 || seq_is(&path, ":memory:") {
        return Err(Failure::Other(string_from("restore requires a file-backed SQLite database")));
    }
    Ok(string_of(path.as_slice()))
}

pub struct PragmaSnapshot {
    pub journal_mode: String,
    pub busy_timeout_ms: i64,
    pub synchronous: String,
    pub foreign_keys: bool,
    pub open_connections: usize,
}

/// The name of a `PRAGMA synchronous` code.
pub fn synchronous_mode(code: i64) -> (r: Result<String, Failure>)
    ensures
        code == 0 ==> (r matches Ok(s) && s@ == "OFF"@),
        code == 1 ==> (r matches Ok(s) && s@ == "NORMAL"@),
        code == 2 ==> (r matches Ok(s) && s@ == "FULL"@),
        code == 3 ==> (r matches Ok(s) && s@ == "EXTRA"@),
        !(0 <= code <= 3) ==> (r matches Err(Failure::Other(m)) && m@ == "unknown synchronous mode: "@
            + crate::text::signed_decimal(code as int)),
{
    if code == 0 {
        Ok(string_from("OFF"))
    } else if code == 1 {
        Ok(string_from("NORMAL"))
    } else if code == 2 {
        Ok(string_from("FULL"))
    } else if code == 3 {
        Ok(string_from("EXTRA"))
    } else {
        let mut m = chars_of("unknown synchronous mode: ");
        crate::text::push_all(&mut m, &crate::text::i64_decimal(code));
        Err(Failure::Other(string_of(m.as_slice())))
    }
}

/// The statement that writes a copy of the database to `path`: the path
/// inside single quotes, each quote in it doubled.
pub open spec fn vacuum_into(path: Seq<char>) -> Seq<char> {
    "VACUUM INTO '"@ + replace_all(path, seq!['\''], seq!['\'', '\'']) + "'"@
}

pub fn vacuum_into_sql(path: &str) -> (r: String)
    ensures
        r@ == vacuum_into(path@),
{
    let q = vec!['\''];
    let qq = vec!['\'', '\''];
    assert(q@ =~= seq!['\''] && qq@ =~= seq!['\'', '\'']);
    let mut out = chars_of("VACUUM INTO '");
    push_all(&mut out, &replace_seq(&chars_of(path), &q, &qq));
    push_str(&mut out, "'");
    string_of(out.as_slice())
}

// ---------------------------------------------------------------------------
// Connecting
// ---------------------------------------------------------------------------

/// Connections the pool opens to a database file.
pub const MAX_CONNECTIONS_FILE: usize = 5;
/// Connections to an in-memory database: one, as each connection would
/// otherwise see a database of its own.
pub const MAX_CONNECTIONS_MEMORY: usize = 1;
/// How long a writer waits for the lock, in milliseconds.
pub const BUSY_TIMEOUT_MS: i64 = 5000;

/// The URL a pool connects with: the in-memory forms as `sqlite::memory:`;
/// a `sqlite://` URL with its query kept, or `?mode=rwc` (create the file)
/// when it has none; anything else as it is.
pub open spec fn normalized_url(url: Seq<char>) -> Seq<char> {
    if url == "sqlite::memory:"@ || url == "sqlite://:memory:"@ {
        "sqlite::memory:"@
    } else if starts_with(url, "sqlite://"@) {
        let rest = url.skip(9);
        let q = find_char_from(rest, 0, '?');
        if q < rest.len() {
            "sqlite://"@ + rest
        } else {
            "sqlite://"@ + rest + "?mode=rwc"@
        }
    } else {
        url
    }
}

/// The file path of a `sqlite://` URL other than the in-memory forms: the
/// text up to any `?`, whose directory the store creates before connecting.
pub open spec fn url_file(url: Seq<char>) -> Option<Seq<char>> {
    if url == "sqlite::memory:"@ || url == "sqlite://:memory:"@ {
        None
    } else if starts_with(url, "sqlite://"@) {
        Some(url_path(url))
    } else {
        None
    }
}

pub fn normalize_url(url: &str) -> (r: (String, Option<String>))
    ensures
        r.0@ == normalized_url(url@),
        match url_file(url@) {
            Some(p) => r.1 matches Some(x) && x@ == p,
            None => r.1 is None,
        },
{
    proof {
        reveal_strlit("sqlite://");
    }
    if str_eq(url, "sqlite::memory:") || str_eq(url, "sqlite://:memory:") {
        return (string_from("sqlite::memory:"), None);
    }
    let v = chars_of(url);
    if !starts_with_seq(&v, &chars_of("sqlite://")) {
        return (string_from(url), None);
    }
    let rest = slice_chars(&v, 9, v.len());
    assert(rest@ == url@.skip(9));
    let q = find_char(&rest, 0, '?');
    let path = slice_chars(&rest, 0, q);
    let mut out = chars_of("sqlite://");
    push_all(&mut out, &rest);
    if q >= rest.len() {
        push_str(&mut out, "?mode=rwc");
    }
    (string_of(out.as_slice()), Some(string_of(path.as_slice())))
}

/// The size of the pool for a normalized URL.
pub fn pool_size(normalized: &str) -> (r: usize)
    ensures
        r == if normalized@ == "sqlite::memory:"@ {
            MAX_CONNECTIONS_MEMORY
        } else {
            MAX_CONNECTIONS_FILE
        },
{
    if str_eq(normalized, "sqlite::memory:") {
        MAX_CONNECTIONS_MEMORY
    } else {
        MAX_CONNECTIONS_FILE
    }
}

} // verus!
