//! Input hardening: outbound webhook targets, webhook headers, attachment
//! file names, inbound webhook signatures, and the brute-force limiter of
//! the authentication endpoints.
use vstd::prelude::*;
use vstd::string::StringSliceAdditionalSpecFns;
use crate::crypto::{constant_time_eq, hex_decode, hex_sliceable, hex_to_bytes, hmac_sha256, hmac_sha256_tag};
use crate::error::{bad_request, bad_request_with, message_of, AppError};
use crate::json::Json;
use crate::text::{
    chars_of, contains_char, ends_with, ends_with_seq, eq_ignore_case, has_char, is_control,
    is_control_char, lower_ascii_seq, lower_ascii_vec, seq_eq, seq_eq_ignore_case, seq_is,
    slice_chars, starts_with, string_of, trim, trim_vec, utf8_len, utf8_len_exceeds, find_char,
    find_char_from,
};

verus! {

broadcast use vstd::string::group_string_axioms;

pub const MAX_WEBHOOK_BODY_BYTES: usize = 1000000;
pub const MAX_HEADER_COUNT: usize = 32;
pub const MAX_HEADER_VALUE_BYTES: usize = 4096;

// ---------------------------------------------------------------------------
// Outbound URLs
// ---------------------------------------------------------------------------

/// The parts of a URL that the outbound check reads.
pub struct UrlParts {
    pub scheme: String,
    pub username: String,
    pub has_password: bool,
    pub has_fragment: bool,
    pub host: Option<String>,
}

/// What `reqwest::Url::parse` gives for a text: scheme, user name, whether a
/// password and a fragment are present, and the host text.
pub uninterp spec fn parsed_url(raw: Seq<char>) -> Option<
    (Seq<char>, Seq<char>, bool, bool, Option<Seq<char>>),
>;

pub open spec fn opt_view(o: Option<String>) -> Option<Seq<char>> {
    match o {
        Some(s) => Some(s@),
        None => None,
    }
}

/// Wraps `reqwest::Url::parse` and the accessors `scheme`, `username`,
/// `password`, `fragment` and `host_str`. URL parsing (WHATWG) is named, not
/// restated.
#[verifier::external_body]
pub(crate) fn parse_url(raw: &str) -> (r: Option<UrlParts>)
    ensures
        match r {
            Some(p) => parsed_url(raw@) == Some(
                (p.scheme@, p.username@, p.has_password, p.has_fragment, opt_view(p.host)),
            ),
            None => parsed_url(raw@) is None,
        },
{
    match reqwest::Url::parse(raw) {
        Ok(url) => Some(UrlParts {
            scheme: url.scheme().to_string(),
            username: url.username().to_string(),
            has_password: url.password().is_some(),
            has_fragment: url.fragment().is_some(),
            host: match url.host_str() {
                Some(h) => Some(h.to_string()),
                None => None,
            },
        }),
        Err(_) => None,
    }
}

/// An IP address: four octets or eight 16-bit segments.
pub enum IpAddress {
    V4(u8, u8, u8, u8),
    V6([u16; 8]),
}

/// What `str::parse::<IpAddr>` gives for a text: the four octets of an
/// IPv4 address or the eight segments of an IPv6 address.
pub uninterp spec fn parsed_ip(host: Seq<char>) -> Option<Seq<u16>>;

pub open spec fn ip_seq(ip: IpAddress) -> Seq<u16> {
    match ip {
        IpAddress::V4(a, b, c, d) => seq![a as u16, b as u16, c as u16, d as u16],
        IpAddress::V6(s) => s@,
    }
}

/// Wraps `str::parse::<core::net::IpAddr>` with `octets`/`segments`.
#[verifier::external_body]
pub(crate) fn parse_ip(host: &str) -> (r: Option<IpAddress>)
    ensures
        match r {
            Some(ip) => parsed_ip(host@) == Some(ip_seq(ip)),
            None => parsed_ip(host@) is None,
        },
{
    match host.parse::<core::net::IpAddr>() {
        Ok(core::net::IpAddr::V4(v4)) => {
            let o = v4.octets();
            Some(IpAddress::V4(o[0], o[1], o[2], o[3]))
        },
        Ok(core::net::IpAddr::V6(v6)) => Some(IpAddress::V6(v6.segments())),
        Err(_) => None,
    }
}

/// Private (10/8, 172.16/12, 192.168/16), loopback (127/8), link-local
/// (169.254/16), broadcast, unspecified, `0/8` or multicast (224/4) IPv4.
pub open spec fn v4_private_or_local(a: u16, b: u16, c: u16, d: u16) -> bool {
    ||| a == 10
    ||| (a == 172 && 16 <= b <= 31)
    ||| (a == 192 && b == 168)
    ||| a == 127
    ||| (a == 169 && b == 254)
    ||| (a == 255 && b == 255 && c == 255 && d == 255)
    ||| a == 0
    ||| 224 <= a <= 239
}

/// Loopback (`::1`), unspecified (`::`), multicast (`ff00::/8`), unique
/// local (`fc00::/7`) or link-local (`fe80::/10`) IPv6.
pub open spec fn v6_private_or_local(s: Seq<u16>) -> bool {
    let zero_prefix = s[0] == 0 && s[1] == 0 && s[2] == 0 && s[3] == 0 && s[4] == 0 && s[5] == 0
        && s[6] == 0;
    ||| (zero_prefix && s[7] == 1)
    ||| (zero_prefix && s[7] == 0)
    ||| (s[0] & 0xff00u16) == 0xff00u16
    ||| (s[0] & 0xfe00u16) == 0xfc00u16
    ||| (s[0] & 0xffc0u16) == 0xfe80u16
}

pub open spec fn private_or_local(ip: Seq<u16>) -> bool {
    if ip.len() == 4 {
        v4_private_or_local(ip[0], ip[1], ip[2], ip[3])
    } else {
        ip.len() == 8 && v6_private_or_local(ip)
    }
}

/// Whether an address is private, loopback, link-local or otherwise local.
pub fn is_private_or_local(ip: &IpAddress) -> (r: bool)
    ensures
        r == private_or_local(ip_seq(*ip)),
{
    match ip {
        IpAddress::V4(a, b, c, d) => {
            let (a, b, c, d) = (*a as u16, *b as u16, *c as u16, *d as u16);
            a == 10 || (a == 172 && 16 <= b && b <= 31) || (a == 192 && b == 168) || a == 127 || (a
                == 169 && b == 254) || (a == 255 && b == 255 && c == 255 && d == 255) || a == 0 || (
            224 <= a && a <= 239)
        },
        IpAddress::V6(s) => {
            let zero_prefix = s[0] == 0 && s[1] == 0 && s[2] == 0 && s[3] == 0 && s[4] == 0 && s[5]
                == 0 && s[6] == 0;
            (zero_prefix && s[7] == 1) || (zero_prefix && s[7] == 0) || (s[0] & 0xff00u16)
                == 0xff00u16 || (s[0] & 0xfe00u16) == 0xfc00u16 || (s[0] & 0xffc0u16) == 0xfe80u16
        },
    }
}

/// A URL that webhooks may be sent to: http(s), no credentials or fragment,
/// a host that is not `localhost` (or below it) and not a private or local
/// IP address.
pub open spec fn outbound_ok(raw: Seq<char>) -> bool {
    match parsed_url(trim(raw)) {
        None => false,
        Some((scheme, user, has_password, has_fragment, host)) => {
            &&& (scheme == "http"@ || scheme == "https"@)
            &&& user.len() == 0
            &&& !has_password
            &&& !has_fragment
            &&& host is Some
            &&& !eq_ignore_case(host->Some_0, "localhost"@)
            &&& !ends_with(host->Some_0, ".localhost"@)
            &&& !(parsed_ip(host->Some_0) matches Some(ip) && private_or_local(ip))
        },
    }
}

/// Why a webhook target URL is refused: the first of its checks that fails.
pub open spec fn outbound_error(raw: Seq<char>) -> Option<Seq<char>> {
    match parsed_url(trim(raw)) {
        None => Some("invalid outbound URL"@),
        Some((scheme, user, has_password, has_fragment, host)) => if !(scheme == "http"@ || scheme
            == "https"@) {
            Some("outbound URL must use http or https"@)
        } else if user.len() != 0 || has_password || has_fragment {
            Some("outbound URL contains forbidden components"@)
        } else if host is None {
            Some("outbound URL requires a host"@)
        } else if eq_ignore_case(host->Some_0, "localhost"@) || ends_with(host->Some_0, ".localhost"@) {
            Some("outbound URL targets localhost"@)
        } else if (parsed_ip(host->Some_0) matches Some(ip) && private_or_local(ip)) {
            Some("outbound URL targets a private or local address"@)
        } else {
            None
        },
    }
}

/// Accepts a webhook target URL (`outbound_ok`); anything else is a bad
/// request saying which check failed (`outbound_error`).
pub fn validate_outbound_url(raw: &str) -> (r: Result<(), AppError>)
    ensures
        r is Ok <==> outbound_ok(raw@),
        match outbound_error(raw@) {
            None => r is Ok,
            Some(m) => r matches Err(e) && e is BadRequest && message_of(e) == m,
        },
{
    let value = trim_vec(&chars_of(raw));
    let text = string_of(value.as_slice());
    let url = match parse_url(text.as_str()) {
        Some(u) => u,
        None => {
            return Err(bad_request("invalid outbound URL"));
        },
    };
    let scheme = chars_of(url.scheme.as_str());
    if !(seq_is(&scheme, "http") || seq_is(&scheme, "https")) {
        return Err(bad_request("outbound URL must use http or https"));
    }
    if url.username.as_str().unicode_len() != 0 || url.has_password || url.has_fragment {
        return Err(bad_request("outbound URL contains forbidden components"));
    }
    let host = match &url.host {
        Some(h) => h,
        None => {
            return Err(bad_request("outbound URL requires a host"));
        },
    };
    let h = chars_of(host.as_str());
    let localhost = chars_of("localhost");
    let dot_localhost = chars_of(".localhost");
    if seq_eq_ignore_case(&h, &localhost) || ends_with_seq(&h, &dot_localhost) {
        return Err(bad_request("outbound URL targets localhost"));
    }
    match parse_ip(host.as_str()) {
        Some(ip) => {
            if is_private_or_local(&ip) {
                return Err(bad_request("outbound URL targets a private or local address"));
            }
        },
        None => {},
    }
    Ok(())
}

// ---------------------------------------------------------------------------
// Webhook headers
// ---------------------------------------------------------------------------

pub open spec fn forbidden_header(name: Seq<char>) -> bool {
    let lower = lower_ascii_seq(name);
    lower == "host"@ || lower == "content-length"@ || lower == "transfer-encoding"@
}

pub open spec fn header_ok(name: Seq<char>, value: Json) -> bool {
    !forbidden_header(name) && match value {
        Json::String(s) => utf8_len(s@) <= MAX_HEADER_VALUE_BYTES,
        _ => false,
    }
}

/// Custom webhook headers: an object of at most `MAX_HEADER_COUNT` members,
/// none of them `host`, `content-length` or `transfer-encoding` (any case),
/// each a string of at most `MAX_HEADER_VALUE_BYTES` bytes.
pub open spec fn headers_ok(headers: Json) -> bool {
    match headers {
        Json::Object(entries) => entries@.len() <= MAX_HEADER_COUNT && forall|i: int|
            0 <= i < entries@.len() ==> header_ok(entries@[i].0@, #[trigger] entries@[i].1),
        _ => false,
    }
}

/// The first header from index `i` on that is refused, and why.
pub open spec fn header_entries_error(e: Seq<(String, Json)>, i: int) -> Option<Seq<char>>
    decreases e.len() - i,
{
    if i < 0 || i >= e.len() {
        None
    } else if forbidden_header(e[i].0@) {
        Some("forbidden webhook header: "@ + e[i].0@)
    } else if !header_ok(e[i].0@, e[i].1) {
        Some("invalid webhook header: "@ + e[i].0@)
    } else {
        header_entries_error(e, i + 1)
    }
}

/// Why custom webhook headers are refused.
pub open spec fn headers_error(headers: Json) -> Option<Seq<char>> {
    match headers {
        Json::Object(entries) => if entries@.len() > MAX_HEADER_COUNT {
            Some("too many webhook headers"@)
        } else {
            header_entries_error(entries@, 0)
        },
        _ => Some("webhook headers must be an object"@),
    }
}

pub fn validate_webhook_headers(headers: &Json) -> (r: Result<(), AppError>)
    ensures
        r is Ok <==> headers_ok(*headers),
        match headers_error(*headers) {
            None => r is Ok,
            Some(m) => r matches Err(e) && e is BadRequest && message_of(e) == m,
        },
{
    let entries = match headers {
        Json::Object(entries) => entries,
        _ => {
            return Err(bad_request("webhook headers must be an object"));
        },
    };
    if entries.len() > MAX_HEADER_COUNT {
        return Err(bad_request("too many webhook headers"));
    }
    let mut i: usize = 0;
    while i < entries.len()
        invariant
            i <= entries.len(),
            *headers == Json::Object(*entries),
            forall|k: int| 0 <= k < i ==> header_ok(entries@[k].0@, #[trigger] entries@[k].1),
            header_entries_error(entries@, 0) == header_entries_error(entries@, i as int),
            entries@.len() <= MAX_HEADER_COUNT,
        decreases entries.len() - i,
    {
        let name = chars_of(entries[i].0.as_str());
        let lower = lower_ascii_vec(&name);
        if seq_is(&lower, "host") || seq_is(&lower, "content-length") || seq_is(
            &lower,
            "transfer-encoding",
        ) {
            assert(forbidden_header(entries@[i as int].0@));
            assert(!header_ok(entries@[i as int].0@, entries@[i as int].1));
            assert(header_entries_error(entries@, i as int) == Some("forbidden webhook header: "@ + name@));
            return Err(bad_request_with("forbidden webhook header: ", &name));
        }
        let ok = match &entries[i].1 {
            Json::String(s) => !utf8_len_exceeds(&chars_of(s.as_str()), MAX_HEADER_VALUE_BYTES),
            _ => false,
        };
        if !ok {
            assert(!header_ok(entries@[i as int].0@, entries@[i as int].1));
            assert(header_entries_error(entries@, i as int) == Some("invalid webhook header: "@ + name@));
            return Err(bad_request_with("invalid webhook header: ", &name));
        }
        i += 1;
    }
    Ok(())
}

// ---------------------------------------------------------------------------
// File names
// ---------------------------------------------------------------------------

/// An attachment name: not blank, at most 255 bytes once trimmed, without
/// path separators or control characters, and not `.` or `..`.
pub open spec fn filename_ok(s: Seq<char>) -> bool {
    let n = trim(s);
    &&& n.len() > 0
    &&& utf8_len(n) <= 255
    &&& !has_char(n, '/')
    &&& !has_char(n, '\\')
    &&& forall|i: int| 0 <= i < n.len() ==> !is_control(#[trigger] n[i])
    &&& n != "."@
    &&& n != ".."@
}

/// Why an attachment name is refused.
pub open spec fn filename_error(s: Seq<char>) -> Option<Seq<char>> {
    let n = trim(s);
    if n.len() == 0 || utf8_len(n) > 255 {
        Some("invalid filename"@)
    } else if has_char(n, '/') || has_char(n, '\\') || exists|i: int| 0 <= i < n.len() && is_control(#[trigger] n[i]) {
        Some("filename contains forbidden path characters"@)
    } else if n == "."@ || n == ".."@ {
        Some("invalid filename"@)
    } else {
        None
    }
}

pub fn validate_filename(filename: &str) -> (r: Result<(), AppError>)
    ensures
        r is Ok <==> filename_ok(filename@),
        match filename_error(filename@) {
            None => r is Ok,
            Some(m) => r matches Err(e) && e is BadRequest && message_of(e) == m,
        },
{
    let name = trim_vec(&chars_of(filename));
    if name.len() == 0 || utf8_len_exceeds(&name, 255) {
        return Err(bad_request("invalid filename"));
    }
    let mut control = false;
    let mut i: usize = 0;
    while i < name.len()
        invariant
            i <= name.len(),
            control == exists|k: int| 0 <= k < i && is_control(#[trigger] name@[k]),
        decreases name.len() - i,
    {
        if is_control_char(name[i]) {
            control = true;
        }
        i += 1;
    }
    if contains_char(&name, '/') || contains_char(&name, '\\') || contains_char(&name, '\0')
        || control {
        return Err(bad_request("filename contains forbidden path characters"));
    }
    if seq_is(&name, ".") || seq_is(&name, "..") {
        return Err(bad_request("invalid filename"));
    }
    Ok(())
}

// ---------------------------------------------------------------------------
// Client keys and inbound signatures
// ---------------------------------------------------------------------------

/// The key a client is rate-limited under: the first entry of
/// `X-Forwarded-For`, trimmed, when that is not blank; else the peer address.
pub open spec fn client_key(forwarded_for: Option<Seq<char>>, fallback: Seq<char>) -> Seq<char> {
    match forwarded_for {
        Some(f) => {
            let first = trim(f.subrange(0, find_char_from(f, 0, ',')));
            if first.len() > 0 {
                first
            } else {
                fallback
            }
        },
        None => fallback,
    }
}

pub fn client_ip_key(forwarded_for: Option<&str>, fallback: &str) -> (r: String)
    ensures
        r@ == client_key(
            match forwarded_for {
                Some(f) => Some(f@),
                None => None,
            },
            fallback@,
        ),
{
    match forwarded_for {
        Some(f) => {
            let v = chars_of(f);
            let end = find_char(&v, 0, ',');
            let first = trim_vec(&slice_chars(&v, 0, end));
            if first.len() > 0 {
                return string_of(first.as_slice());
            }
        },
        None => {},
    }
    string_of(chars_of(fallback).as_slice())
}

/// A signature `sha256=<hex>` is valid when the hex decodes to the
/// HMAC-SHA256 of the payload under the secret.
pub open spec fn signature_valid(secret: Seq<char>, payload: Seq<u8>, signature: Seq<char>) -> bool {
    &&& starts_with(signature, "sha256="@)
    &&& hex_decode(vstd::utf8::encode_utf8(signature.skip(7))) == Some(
        hmac_sha256(vstd::utf8::encode_utf8(secret), payload),
    )
}

/// Verifies an inbound webhook signature in constant time. The hex part is
/// read by byte pairs; the pairs read up to the first that fails must lie on
/// character boundaries (`hex_sliceable`), where slicing them would panic.
pub fn verify_webhook_signature(secret: &str, payload: &[u8], signature: &str) -> (r: bool)
    requires
        starts_with(signature@, "sha256="@) ==> hex_sliceable(signature@.skip(7)),
    ensures
        r == signature_valid(secret@, payload@, signature@),
{
    let expected = hmac_sha256_tag(secret.as_bytes(), payload);
    let sig = chars_of(signature);
    let prefix = chars_of("sha256=");
    proof {
        reveal_strlit("sha256=");
    }
    if !crate::text::starts_with_seq(&sig, &prefix) {
        return false;
    }
    let rest = string_of(slice_chars(&sig, 7, sig.len()).as_slice());
    assert(rest@ == signature@.skip(7));
    match hex_to_bytes(rest.as_str()) {
        Ok(bytes) => constant_time_eq(expected.as_slice(), bytes.as_slice()),
        Err(_) => false,
    }
}

// ---------------------------------------------------------------------------
// Brute-force limiter
// ---------------------------------------------------------------------------

#[verifier::external_type_specification]
#[verifier::external_body]
pub struct ExInstant(std::time::Instant);

/// Wraps `Instant::now`.
#[verifier::external_body]
fn instant_now() -> std::time::Instant {
    std::time::Instant::now()
}

/// Wraps `Instant::elapsed` and `Duration::as_nanos`, saturated to `u64`.
/// The reading depends on the clock, so nothing is stated of it.
#[verifier::external_body]
fn nanos_since(epoch: &std::time::Instant) -> u64 {
    u64::try_from(epoch.elapsed().as_nanos()).unwrap_or(u64::MAX)
}

/// The length of a duration in nanoseconds (`Duration::as_nanos`).
pub uninterp spec fn duration_as_nanos(d: core::time::Duration) -> nat;

/// A duration's length in nanoseconds, capped at `u64::MAX`.
pub open spec fn capped_nanos(d: core::time::Duration) -> u64 {
    if duration_as_nanos(d) > u64::MAX {
        u64::MAX
    } else {
        duration_as_nanos(d) as u64
    }
}

/// Wraps `Duration::as_nanos` (the whole length in nanoseconds, which
/// depends on the duration alone), saturated to `u64`.
#[verifier::external_body]
fn duration_nanos(d: core::time::Duration) -> (r: u64)
    ensures
        r == if duration_as_nanos(d) > u64::MAX {
            u64::MAX
        } else {
            duration_as_nanos(d) as u64
        },
{
    u64::try_from(d.as_nanos()).unwrap_or(u64::MAX)
}

/// Failed attempts recorded for one client key (times in nanoseconds since
/// the limiter was created, oldest first).
pub struct FailureLog {
    pub key: String,
    pub times: Vec<u64>,
}

/// Sliding-window limiter of failed authentication attempts per client key.
pub struct AuthRateLimiter {
    epoch: std::time::Instant,
    failures: Vec<FailureLog>,
    model: Ghost<Map<Seq<char>, Seq<u64>>>,
}

/// An attempt at `t` lies outside the window at `now`.
pub open spec fn expired(t: u64, now: u64, window: u64) -> bool {
    (if now >= t {
        now - t
    } else {
        0
    }) > window
}

/// Drops the attempts at the front that lie outside the window.
pub open spec fn prune(times: Seq<u64>, now: u64, window: u64) -> Seq<u64>
    decreases times.len(),
{
    if times.len() > 0 && expired(times[0], now, window) {
        prune(times.drop_first(), now, window)
    } else {
        times
    }
}

/// The attempt limit, never below one.
pub open spec fn limit_of(max_attempts: u32) -> u32 {
    if max_attempts < 1 {
        1
    } else {
        max_attempts
    }
}

pub open spec fn times_of(m: Map<Seq<char>, Seq<u64>>, key: Seq<char>) -> Seq<u64> {
    if m.contains_key(key) {
        m[key]
    } else {
        Seq::empty()
    }
}

/// Recording a failure at `now`: the key's attempts inside the window plus
/// this one, and whether they now exceed the limit.
pub open spec fn record_spec(
    m: Map<Seq<char>, Seq<u64>>,
    key: Seq<char>,
    max_attempts: u32,
    window: u64,
    now: u64,
) -> (bool, Map<Seq<char>, Seq<u64>>) {
    let kept = prune(times_of(m, key), now, window).push(now);
    ((kept.len() as u32) > limit_of(max_attempts), m.insert(key, kept))
}

/// Checking a key at `now`: its attempts inside the window, and whether they
/// exceed the limit. A key without a record is not limited.
pub open spec fn limited_spec(
    m: Map<Seq<char>, Seq<u64>>,
    key: Seq<char>,
    max_attempts: u32,
    window: u64,
    now: u64,
) -> (bool, Map<Seq<char>, Seq<u64>>) {
    if m.contains_key(key) {
        let kept = prune(m[key], now, window);
        ((kept.len() as u32) > limit_of(max_attempts), m.insert(key, kept))
    } else {
        (false, m)
    }
}

impl View for AuthRateLimiter {
    type V = Map<Seq<char>, Seq<u64>>;

    closed spec fn view(&self) -> Map<Seq<char>, Seq<u64>> {
        self.model@
    }
}

impl AuthRateLimiter {
    /// Keys are distinct and the model maps each key to its attempts.
    pub closed spec fn wf(&self) -> bool {
        &&& forall|i: int, j: int|
            0 <= i < j < self.failures@.len() ==> self.failures@[i].key@
                != self.failures@[j].key@
        &&& forall|i: int|
            0 <= i < self.failures@.len() ==> self.model@.contains_key(
                (#[trigger] self.failures@[i]).key@,
            ) && self.model@[self.failures@[i].key@] == self.failures@[i].times@
        &&& forall|k: Seq<char>|
            self.model@.contains_key(k) ==> exists|i: int|
                0 <= i < self.failures@.len() && (#[trigger] self.failures@[i]).key@ == k
    }

    pub fn new() -> (r: Self)
        ensures
            r.wf(),
            r@ == Map::<Seq<char>, Seq<u64>>::empty(),
    {
        AuthRateLimiter { epoch: instant_now(), failures: Vec::new(), model: Ghost(Map::empty()) }
    }

    fn find(&self, key: &Vec<char>) -> (r: Option<usize>)
        requires
            self.wf(),
        ensures
            match r {
                Some(i) => i < self.failures@.len() && self.failures@[i as int].key@ == key@,
                None => !self@.contains_key(key@),
            },
    {
        let mut i: usize = 0;
        while i < self.failures.len()
            invariant
                i <= self.failures@.len(),
                forall|k: int| 0 <= k < i ==> self.failures@[k].key@ != key@,
            decreases self.failures.len() - i,
        {
            let k = chars_of(self.failures[i].key.as_str());
            if seq_eq(&k, key) {
                return Some(i);
            }
            i += 1;
        }
        None
    }

    /// Attempts of `times` from the first one inside the window on.
    fn prune_times(times: &Vec<u64>, now: u64, window: u64) -> (r: Vec<u64>)
        ensures
            r@ == prune(times@, now, window),
    {
        let mut i: usize = 0;
        assert(times@.skip(0) =~= times@);
        while i < times.len() && now.saturating_sub(times[i]) > window
            invariant
                i <= times.len(),
                prune(times@, now, window) == prune(times@.skip(i as int), now, window),
            decreases times.len() - i,
        {
            assert(times@.skip(i as int).drop_first() =~= times@.skip(i + 1));
            i += 1;
        }
        let mut r: Vec<u64> = Vec::new();
        let mut j = i;
        while j < times.len()
            invariant
                i <= j <= times.len(),
                r@ == times@.subrange(i as int, j as int),
            decreases times.len() - j,
        {
            r.push(times[j]);
            j += 1;
        }
        assert(r@ =~= times@.skip(i as int));
        r
    }

    /// Replaces the attempts of `key` (adding the key when new).
    fn store(&mut self, key: &Vec<char>, at: Option<usize>, times: Vec<u64>)
        requires
            old(self).wf(),
            match at {
                Some(i) => i < old(self).failures@.len() && old(self).failures@[i as int].key@
                    == key@,
                None => !old(self)@.contains_key(key@),
            },
        ensures
            final(self).wf(),
            final(self)@ == old(self)@.insert(key@, times@),
    {
        let ghost m = self.model@.insert(key@, times@);
        match at {
            Some(i) => {
                let k = self.failures[i].key.clone();
                let ghost before = self.failures@;
                self.failures.set(i, FailureLog { key: k, times });
                self.model = Ghost(m);
                assert forall|k2: Seq<char>| self.model@.contains_key(k2) implies exists|j: int|
                    0 <= j < self.failures@.len() && (#[trigger] self.failures@[j]).key@ == k2 by {
                    if k2 != key@ {
                        let j = choose|j: int|
                            0 <= j < before.len() && (#[trigger] before[j]).key@ == k2;
                        assert(self.failures@[j].key@ == k2);
                    } else {
                        assert(self.failures@[i as int].key@ == k2);
                    }
                }
            },
            None => {
                let ghost before = self.failures@;
                self.failures.push(FailureLog { key: string_of(key.as_slice()), times });
                self.model = Ghost(m);
                assert forall|k2: Seq<char>| self.model@.contains_key(k2) implies exists|j: int|
                    0 <= j < self.failures@.len() && (#[trigger] self.failures@[j]).key@ == k2 by {
                    if k2 != key@ {
                        let j = choose|j: int|
                            0 <= j < before.len() && (#[trigger] before[j]).key@ == k2;
                        assert(self.failures@[j].key@ == k2);
                    } else {
                        assert(self.failures@[before.len() as int].key@ == k2);
                    }
                }
                assert forall|a: int, b: int| 0 <= a < b < self.failures@.len() implies self.failures@[a].key@
                    != self.failures@[b].key@ by {
                    if b == before.len() {
                        assert(old(self).model@.contains_key(before[a].key@));
                    }
                }
            },
        }
    }

    /// Records a failed attempt of `key` at `now` (nanoseconds) against a
    /// window of `window` nanoseconds; true when the key is now over the limit.
    pub fn record_failure_at(&mut self, key: &str, max_attempts: u32, window: u64, now: u64) -> (r:
        bool)
        requires
            old(self).wf(),
        ensures
            final(self).wf(),
            (r, final(self)@) == record_spec(old(self)@, key@, max_attempts, window, now),
    {
        let k = chars_of(key);
        let at = self.find(&k);
        let mut kept = match at {
            Some(i) => Self::prune_times(&self.failures[i].times, now, window),
            None => Vec::new(),
        };
        assert(at is Some ==> times_of(self@, key@) == self.failures@[at->Some_0 as int].times@);
        kept.push(now);
        let n = kept.len();
        let limited = (n as u32) > (if max_attempts < 1 {
            1
        } else {
            max_attempts
        });
        self.store(&k, at, kept);
        limited
    }

    /// Whether `key` is over the limit at `now`; drops its attempts that lie
    /// outside the window, records nothing.
    pub fn is_limited_at(&mut self, key: &str, max_attempts: u32, window: u64, now: u64) -> (r:
        bool)
        requires
            old(self).wf(),
        ensures
            final(self).wf(),
            (r, final(self)@) == limited_spec(old(self)@, key@, max_attempts, window, now),
    {
        let k = chars_of(key);
        match self.find(&k) {
            Some(i) => {
                let kept = Self::prune_times(&self.failures[i].times, now, window);
                let n = kept.len();
                let limited = (n as u32) > (if max_attempts < 1 {
                    1
                } else {
                    max_attempts
                });
                self.store(&k, Some(i), kept);
                limited
            },
            None => false,
        }
    }

    /// Records a failed attempt of `key` now; true when the key is over
    /// `max_attempts` (at least one) inside `window`.
    pub fn record_failure(&mut self, key: &str, max_attempts: u32, window: core::time::Duration) -> (r:
        bool)
        requires
            old(self).wf(),
        ensures
            final(self).wf(),
            exists|now: u64|
                (r, final(self)@) == record_spec(old(self)@, key@, max_attempts, capped_nanos(window), now),
    {
        let w = duration_nanos(window);
        let now = nanos_since(&self.epoch);
        let ghost before = self@;
        let r = self.record_failure_at(key, max_attempts, w, now);
        assert(w == capped_nanos(window));
        assert((r, self@) == record_spec(before, key@, max_attempts, capped_nanos(window), now));
        r
    }

    /// Whether `key` is rate-limited now (without recording).
    pub fn is_limited(&mut self, key: &str, max_attempts: u32, window: core::time::Duration) -> (r:
        bool)
        requires
            old(self).wf(),
        ensures
            final(self).wf(),
            exists|now: u64|
                (r, final(self)@) == limited_spec(old(self)@, key@, max_attempts, capped_nanos(window), now),
    {
        let w = duration_nanos(window);
        let now = nanos_since(&self.epoch);
        let ghost before = self@;
        let r = self.is_limited_at(key, max_attempts, w, now);
        assert(w == capped_nanos(window));
        assert((r, self@) == limited_spec(before, key@, max_attempts, capped_nanos(window), now));
        r
    }

    /// Forgets all attempts of `key` (after a successful login).
    pub fn clear(&mut self, key: &str)
        requires
            old(self).wf(),
        ensures
            final(self).wf(),
            final(self)@ == old(self)@.remove(key@),
    {
        let k = chars_of(key);
        match self.find(&k) {
            Some(i) => {
                let ghost before = self.failures@;
                let ghost m = self.model@.remove(key@);
                self.failures.remove(i);
                self.model = Ghost(m);
                assert forall|j: int| 0 <= j < self.failures@.len() implies self.model@.contains_key(
                    (#[trigger] self.failures@[j]).key@,
                ) && self.model@[self.failures@[j].key@] == self.failures@[j].times@ by {
                    let src = if j < i { j } else { j + 1 };
                    assert(self.failures@[j] == before[src]);
                }
                assert forall|k2: Seq<char>| self.model@.contains_key(k2) implies exists|j: int|
                    0 <= j < self.failures@.len() && (#[trigger] self.failures@[j]).key@ == k2 by {
                    let j = choose|j: int| 0 <= j < before.len() && (#[trigger] before[j]).key@ == k2;
                    if j < i {
                        assert(self.failures@[j].key@ == k2);
                    } else {
                        assert(self.failures@[j - 1].key@ == k2);
                    }
                }
                assert forall|a: int, b: int| 0 <= a < b < self.failures@.len() implies self.failures@[a].key@
                    != self.failures@[b].key@ by {
                    let sa = if a < i { a } else { a + 1 };
                    let sb = if b < i { b } else { b + 1 };
                    assert(self.failures@[a] == before[sa]);
                    assert(self.failures@[b] == before[sb]);
                }
            },
            None => {
                assert(self.model@.remove(key@) =~= self.model@);
            },
        }
    }
}

/// After `clear`, a key is not rate-limited, whatever the limit, window and
/// time.
pub proof fn lemma_clear_unlimits(
    m: Map<Seq<char>, Seq<u64>>,
    key: Seq<char>,
    max_attempts: u32,
    window: u64,
    now: u64,
)
    ensures
        !limited_spec(m.remove(key), key, max_attempts, window, now).0,
{
}

/// A failure that puts a key over the limit leaves it limited when checked
/// at the same moment with the same limit and window.
pub proof fn lemma_record_then_limited(
    m: Map<Seq<char>, Seq<u64>>,
    key: Seq<char>,
    max_attempts: u32,
    window: u64,
    now: u64,
)
    requires
        record_spec(m, key, max_attempts, window, now).0,
    ensures
        limited_spec(record_spec(m, key, max_attempts, window, now).1, key, max_attempts, window, now).0,
{
    let kept = prune(times_of(m, key), now, window);
    lemma_prune_front_kept(times_of(m, key), now, window);
    let t = kept.push(now);
    assert(!expired(now, now, window));
    if kept.len() > 0 {
        assert(t[0] == kept[0]);
    }
    assert(prune(t, now, window) == t);
}

proof fn lemma_prune_front_kept(times: Seq<u64>, now: u64, window: u64)
    ensures
        prune(times, now, window).len() > 0 ==> !expired(prune(times, now, window)[0], now, window),
    decreases times.len(),
{
    if times.len() > 0 && expired(times[0], now, window) {
        lemma_prune_front_kept(times.drop_first(), now, window);
    }
}

} // verus!
