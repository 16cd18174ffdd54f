//! Users, sessions and passwords: Argon2 password hashes, random session
//! tokens, the rules of registration, and session expiry timestamps.
use vstd::prelude::*;
use vstd::string::StringSliceAdditionalSpecFns;
use crate::crypto::{argon2_hash, argon2_verify, hex_lower, password_matches, random_bytes_32, to_hex_lower};
use crate::error::Failure;
use crate::text::{
    utf8_len, utf8_len_exceeds, chars_of, push_all, push_str, string_from, string_of, trim, trim_str, u64_zero_padded, zero_padded,
};

verus! {

broadcast use vstd::string::group_string_axioms;

pub struct User {
    pub id: String,
    pub username: String,
    pub role: String,
}

pub struct Session {
    pub token: String,
    pub user: User,
}

/// Hashes a password with Argon2 and a fresh random salt. A hash returned
/// verifies the password.
pub fn hash_password(password: &str) -> (r: Result<String, Failure>)
    ensures
        r matches Ok(h) ==> password_matches(password.spec_bytes(), h@),
        r matches Err(f) ==> f is Other,
{
    match argon2_hash(password.as_bytes()) {
        Ok(h) => Ok(h),
        Err(e) => {
            let mut m = chars_of("password hashing failed: ");
            push_str(&mut m, e.as_str());
            Err(Failure::Other(string_of(m.as_slice())))
        },
    }
}

/// Whether `hash` is an Argon2 hash of `password`; false when it does not
/// parse.
pub fn verify_password(password: &str, hash: &str) -> (r: bool)
    ensures
        r == password_matches(password.spec_bytes(), hash@),
{
    argon2_verify(password.as_bytes(), hash)
}

/// A session token: 32 random bytes in lowercase hex.
pub fn new_token() -> (r: String)
    ensures
        exists|b: Seq<u8>| b.len() == 32 && r@ == hex_lower(b),
{
    let bytes = random_bytes_32();
    let hex = to_hex_lower(bytes.as_slice());
    string_of(hex.as_slice())
}

/// The sign-in name of a registration, trimmed, when it is acceptable: a
/// non-empty name and a password of at least 8 bytes.
pub fn check_registration(username: &str, password: &str) -> (r: Result<String, Failure>)
    ensures
        (trim(username@).len() > 0 && utf8_len(password@) >= 8) ==> (r matches Ok(u)
            && u@ == trim(username@)),
        !(trim(username@).len() > 0 && utf8_len(password@) >= 8) ==> (r matches Err(
            Failure::Other(m),
        ) && m@ == "username is required and password must be at least 8 characters"@),
{
    let name = trim_str(username);
    if name.len() == 0 || !utf8_len_exceeds(&chars_of(password), 7) {
        return Err(
            Failure::Other(
                string_from("username is required and password must be at least 8 characters"),
            ),
        );
    }
    Ok(string_of(name.as_slice()))
}

/// The first user to register administers the runtime; later ones are
/// plain users.
pub fn role_for_new_user(existing_users: i64) -> (r: &'static str)
    ensures
        r@ == if existing_users == 0 {
            "admin"@
        } else {
            "user"@
        },
{
    if existing_users == 0 {
        "admin"
    } else {
        "user"
    }
}

/// The id of a user: `user_` and the name.
pub fn user_id(username: &str) -> (r: String)
    ensures
        r@ == "user_"@ + username@,
{
    let mut m = chars_of("user_");
    push_str(&mut m, username);
    string_of(m.as_slice())
}

// ---------------------------------------------------------------------------
// Dates
// ---------------------------------------------------------------------------

/// The proleptic Gregorian date `days` days after 1970-01-01, as
/// (year, month, day), by Howard Hinnant's civil-from-days formulas (the
/// divisions are floor divisions).
pub open spec fn civil(days: int) -> (int, int, int) {
    let z = days + 719468;
    let era = z / 146097;
    let doe = z - era * 146097;
    let yoe = (doe - doe / 1460 + doe / 36524 - doe / 146096) / 365;
    let y = yoe + era * 400;
    let doy = doe - (365 * yoe + yoe / 4 - yoe / 100);
    let mp = (5 * doy + 2) / 153;
    let d = doy - (153 * mp + 2) / 5 + 1;
    let m = if mp < 10 {
        mp + 3
    } else {
        mp - 9
    };
    (
        if m <= 2 {
            y + 1
        } else {
            y
        },
        m,
        d,
    )
}

/// The date `days` days after 1970-01-01.
#[verifier::rlimit(40)]
pub fn civil_from_days(days: i64) -> (r: (i64, i64, i64))
    requires
        -1_000_000_000_000_000 <= days <= 1_000_000_000_000_000,
    ensures
        (r.0 as int, r.1 as int, r.2 as int) == civil(days as int),
        1 <= r.1 <= 12,
        1 <= r.2 <= 31,
{
    let z: i64 = days + 719_468;
    let era: i64 = if z >= 0 {
        z / 146_097
    } else {
        -((-z + 146_096) / 146_097)
    };
    assert(era == z as int / 146097);
    let doe: i64 = z - era * 146_097;
    assert(0 <= doe < 146097);
    let yoe: i64 = (doe - doe / 1460 + doe / 36_524 - doe / 146_096) / 365;
    assert(0 <= yoe <= 399);
    let y: i64 = yoe + era * 400;
    let doy: i64 = doe - (365 * yoe + yoe / 4 - yoe / 100);
    assert(0 <= doy <= 365);
    let mp: i64 = (5 * doy + 2) / 153;
    let d: i64 = doy - (153 * mp + 2) / 5 + 1;
    let m: i64 = if mp < 10 {
        mp + 3
    } else {
        mp - 9
    };
    (if m <= 2 {
        y + 1
    } else {
        y
    }, m, d)
}

/// Seconds since 1970-01-01 00:00:00 UTC, as `SystemTime::now` reads the
/// clock (0 for a clock set before then).
#[verifier::external_body]
fn unix_seconds() -> (r: u64) {
    std::time::SystemTime::now().duration_since(std::time::UNIX_EPOCH).unwrap_or_default().as_secs()
}

/// Division truncated toward zero, as `/` on integers (for `b > 0`).
pub open spec fn tdiv(a: int, b: int) -> int {
    if a >= 0 {
        a / b
    } else {
        -((-a) / b)
    }
}

/// The remainder of `tdiv`, as `%` on integers: it takes the sign of `a`.
pub open spec fn trem(a: int, b: int) -> int {
    a - tdiv(a, b) * b
}

/// `{:0w}` of an integer: at least `w` characters, the sign first, then
/// zeros.
pub open spec fn padded(n: int, w: nat) -> Seq<char> {
    if n < 0 {
        "-"@ + zero_padded((-n) as nat, (w - 1) as nat)
    } else {
        zero_padded(n as nat, w)
    }
}

/// `YYYY-MM-DD HH:MM:SS` (SQLite's format) of a moment given in seconds
/// since 1970-01-01 00:00:00 UTC.
pub open spec fn timestamp_text(secs: int) -> Seq<char> {
    let days = tdiv(secs, 86400);
    let rem = trem(secs, 86400);
    let date = civil(days);
    padded(date.0, 4) + "-"@ + padded(date.1, 2) + "-"@ + padded(date.2, 2) + " "@ + padded(
        tdiv(rem, 3600),
        2,
    ) + ":"@ + padded(tdiv(trem(rem, 3600), 60), 2) + ":"@ + padded(trem(rem, 60), 2)
}

fn tdiv_exec(a: i128, b: i128) -> (r: i128)
    requires
        b > 0,
        -0x1000_0000_0000_0000_0000 <= a <= 0x1000_0000_0000_0000_0000,
    ensures
        r == tdiv(a as int, b as int),
        -0x1000_0000_0000_0000_0000 <= r <= 0x1000_0000_0000_0000_0000,
{
    if a >= 0 {
        a / b
    } else {
        -((-a) / b)
    }
}

fn push_padded(out: &mut Vec<char>, n: i64, w: usize)
    requires
        1 <= w <= 4,
        n > i64::MIN,
    ensures
        final(out)@ == old(out)@ + padded(n as int, w as nat),
{
    if n < 0 {
        out.push('-');
        let digits = u64_zero_padded((-n) as u64, w - 1);
        push_all(out, &digits);
        proof {
            reveal_strlit("-");
        }
        assert(final(out)@ =~= old(out)@ + ("-"@ + digits@)) by {
            reveal_strlit("-");
        }
    } else {
        let digits = u64_zero_padded(n as u64, w);
        push_all(out, &digits);
    }
}

/// The text of a moment given in seconds since the epoch.
pub fn timestamp(secs: i128) -> (r: String)
    requires
        -0x1_0000_0000_0000_0000 <= secs <= 0x1_0000_0000_0000_0000,
    ensures
        r@ == timestamp_text(secs as int),
{
    let days = tdiv_exec(secs, 86400);
    let rem = secs - days * 86400;
    assert(-86400 < rem < 86400);
    let date = civil_from_days(days as i64);
    let hour = tdiv_exec(rem, 3600);
    let rem_h = rem - hour * 3600;
    let minute = tdiv_exec(rem_h, 60);
    let second = rem - tdiv_exec(rem, 60) * 60;
    let mut out: Vec<char> = Vec::new();
    proof {
        reveal_strlit("-");
        reveal_strlit(" ");
        reveal_strlit(":");
    }
    assert(date.0 > i64::MIN) by {
        assert(date.0 == civil(days as int).0);
    }
    push_padded(&mut out, date.0, 4);
    out.push('-');
    push_padded(&mut out, date.1, 2);
    out.push('-');
    push_padded(&mut out, date.2, 2);
    out.push(' ');
    push_padded(&mut out, hour as i64, 2);
    out.push(':');
    push_padded(&mut out, minute as i64, 2);
    out.push(':');
    push_padded(&mut out, second as i64, 2);
    assert(out@ =~= timestamp_text(secs as int));
    string_of(out.as_slice())
}

/// The timestamp `days` days after the moment `now`.
pub open spec fn after_days(now: i64, days: i64) -> Seq<char> {
    timestamp_text(now + days * 86400)
}

/// The timestamp `days` days from now. The shift in seconds must fit an
/// `i64`.
pub fn chrono_like_now_plus_days(days: i64) -> (r: String)
    requires
        i64::MIN <= days * 86400 <= i64::MAX,
    ensures
        exists|now: i64| r@ == #[trigger] after_days(now, days),
{
    let now = unix_seconds() as i64;
    let target: i128 = now as i128 + days as i128 * 86400;
    let r = timestamp(target);
    assert(r@ == after_days(now, days));
    r
}

/// `YYYY-MM-DD` of the day that holds a moment given in seconds since
/// 1970-01-01 00:00:00 UTC (days counted by floor division).
pub open spec fn date_text(secs: int) -> Seq<char> {
    let date = civil(secs / 86400);
    padded(date.0, 4) + "-"@ + padded(date.1, 2) + "-"@ + padded(date.2, 2)
}

pub fn chrono_date_from_unix_days(seconds: i64) -> (r: String)
    ensures
        r@ == date_text(seconds as int),
{
    let s = seconds as i128;
    let days: i128 = if s >= 0 {
        s / 86400
    } else {
        -((-s + 86399) / 86400)
    };
    assert(days == seconds as int / 86400);
    let date = civil_from_days(days as i64);
    assert(date.0 > i64::MIN) by {
        assert(date.0 == civil(days as int).0);
    }
    let mut out: Vec<char> = Vec::new();
    proof {
        reveal_strlit("-");
    }
    push_padded(&mut out, date.0, 4);
    out.push('-');
    push_padded(&mut out, date.1, 2);
    out.push('-');
    push_padded(&mut out, date.2, 2);
    assert(out@ =~= date_text(seconds as int));
    string_of(out.as_slice())
}

/// Days between Excel's day zero (1899-12-30) and 1970-01-01.
pub const EXCEL_TO_UNIX_DAYS: i64 = 25569;

/// `n` held to the range of `i64`.
pub open spec fn clamp_i64(n: int) -> int {
    if n > i64::MAX {
        i64::MAX as int
    } else if n < i64::MIN {
        i64::MIN as int
    } else {
        n
    }
}

/// The date of an Excel day number (days since 1899-12-30), the seconds
/// since 1970 held to the range of `i64` as a saturating product does.
pub open spec fn excel_date(days: int) -> Seq<char> {
    date_text(clamp_i64((days - EXCEL_TO_UNIX_DAYS) * 86400))
}

pub fn excel_day_to_date(days: i64) -> (r: String)
    requires
        days >= i64::MIN + EXCEL_TO_UNIX_DAYS,
    ensures
        r@ == excel_date(days as int),
{
    let unix_days = days - EXCEL_TO_UNIX_DAYS;
    let product = unix_days as i128 * 86400;
    let seconds: i64 = if product > i64::MAX as i128 {
        i64::MAX
    } else if product < i64::MIN as i128 {
        i64::MIN
    } else {
        product as i64
    };
    chrono_date_from_unix_days(seconds)
}

} // verus!
