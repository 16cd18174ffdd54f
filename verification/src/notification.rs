//! Notification templates and webhook payload signing.
use vstd::prelude::*;
use vstd::string::StringSliceAdditionalSpecFns;
use crate::crypto::{hex_lower, hex_sliceable, hmac_sha256, hmac_sha256_tag, lemma_hex_round_trip, to_hex_lower};
use crate::error::{message_of, Failure, AppError};
use crate::json::{json_text, to_text, Json};
use crate::security::signature_valid;
use crate::text::{chars_of, push_all, push_str, replace_all, replace_seq, starts_with, starts_with_seq, str_eq, string_from, string_of, trim, trim_str, utf8_len, utf8_len_exceeds};

verus! {

broadcast use vstd::string::group_string_axioms;

/// The text a value is rendered as: a string as itself, anything else as
/// its JSON text.
pub open spec fn rendered(v: Json) -> Seq<char> {
    match v {
        Json::String(s) => s@,
        _ => json_text(v),
    }
}

/// The placeholder of a key: `{{key}}`.
pub open spec fn placeholder(key: Seq<char>) -> Seq<char> {
    "{{"@ + key + "}}"@
}

/// Replaces each member's placeholder in turn, in member order.
pub open spec fn render_members(s: Seq<char>, entries: Seq<(String, Json)>) -> Seq<char>
    decreases entries.len(),
{
    if entries.len() == 0 {
        s
    } else {
        render_members(
            replace_all(s, placeholder(entries[0].0@), rendered(entries[0].1)),
            entries.drop_first(),
        )
    }
}

/// A template rendered with an object of variables; other data leave the
/// template as it is.
pub open spec fn render_spec(input: Seq<char>, data: Json) -> Seq<char> {
    match data {
        Json::Object(entries) => render_members(input, entries@),
        _ => input,
    }
}

/// Replaces every `{{key}}` of the template by the value of `key` in `data`.
pub fn render(input: &str, data: &Json) -> (r: String)
    ensures
        r@ == render_spec(input@, *data),
{
    let mut out = chars_of(input);
    match data {
        Json::Object(entries) => {
            let mut i: usize = 0;
            assert(entries@.skip(0) =~= entries@);
            while i < entries.len()
                invariant
                    i <= entries.len(),
                    render_members(input@, entries@) == render_members(out@, entries@.skip(i as int)),
                decreases entries.len() - i,
            {
                let mut pat: Vec<char> = Vec::new();
                push_str(&mut pat, "{{");
                push_str(&mut pat, entries[i].0.as_str());
                push_str(&mut pat, "}}");
                proof {
                    reveal_strlit("{{");
                }
                let value = match &entries[i].1 {
                    Json::String(s) => chars_of(s.as_str()),
                    other => to_text(other),
                };
                out = replace_seq(&out, &pat, &value);
                assert(entries@.skip(i as int).drop_first() =~= entries@.skip(i + 1));
                i += 1;
            }
        },
        _ => {},
    }
    string_of(out.as_slice())
}

/// Channels, body size (1,000,000 bytes) and subject size (10,000 bytes)
/// that a template may have.
pub open spec fn template_ok(channel: Seq<char>, subject: Seq<char>, body: Seq<char>) -> bool {
    (channel == "in_app"@ || channel == "email"@) && utf8_len(body) <= 1000000 && utf8_len(subject)
        <= 10000
}

pub fn validate_template(channel: &str, subject: &str, body: &str) -> (r: Result<(), Failure>)
    ensures
        r is Ok <==> template_ok(channel@, subject@, body@),
        r matches Err(f) ==> f is Other,
{
    if !(str_eq(channel, "in_app") || str_eq(channel, "email")) {
        return Err(Failure::Other(string_from("invalid notification channel")));
    }
    if utf8_len_exceeds(&chars_of(body), 1000000) {
        return Err(Failure::Other(string_from("notification body is too large")));
    }
    if utf8_len_exceeds(&chars_of(subject), 10000) {
        return Err(Failure::Other(string_from("notification subject is too large")));
    }
    Ok(())
}

/// `sha256=` and the lowercase hex HMAC-SHA256 of the payload under the secret.
pub open spec fn signature_of(secret: Seq<char>, payload: Seq<char>) -> Seq<char> {
    "sha256="@ + hex_lower(
        hmac_sha256(vstd::utf8::encode_utf8(secret), vstd::utf8::encode_utf8(payload)),
    )
}

/// Signs a webhook payload.
pub fn signature(secret: &str, payload: &str) -> (r: String)
    ensures
        r@ == signature_of(secret@, payload@),
        hmac_sha256(vstd::utf8::encode_utf8(secret@), vstd::utf8::encode_utf8(payload@)).len()
            == 32,
{
    let tag = hmac_sha256_tag(secret.as_bytes(), payload.as_bytes());
    let hex = to_hex_lower(tag.as_slice());
    let mut out = chars_of("sha256=");
    push_all(&mut out, &hex);
    string_of(out.as_slice())
}

/// A payload signed with a secret passes verification with the same secret,
/// and its signature meets the slicing condition of the verifier.
pub proof fn lemma_signature_verifies(secret: Seq<char>, payload: Seq<char>)
    requires
        hmac_sha256(vstd::utf8::encode_utf8(secret), vstd::utf8::encode_utf8(payload)).len()
            == 32,
    ensures
        signature_valid(secret, vstd::utf8::encode_utf8(payload), signature_of(secret, payload)),
        hex_sliceable(signature_of(secret, payload).skip(7)),
{
    reveal_strlit("sha256=");
    let tag = hmac_sha256(vstd::utf8::encode_utf8(secret), vstd::utf8::encode_utf8(payload));
    let sig = signature_of(secret, payload);
    assert(sig.skip(7) =~= hex_lower(tag));
    assert(sig.subrange(0, 7) =~= "sha256="@);
    lemma_hex_round_trip(tag);
}

/// Checks a notification rule: its trigger must be `transition` and its
/// target, once trimmed, an `http://` or `https://` URL.
pub fn validate_notification_rule(trigger: &str, target_url: &str) -> (r: Result<(), AppError>)
    ensures
        trigger@ != "transition"@ ==> (r matches Err(e) && e is BadRequest && message_of(e)
            == "unknown trigger: "@ + trigger@),
        trigger@ == "transition"@ ==> (r is Ok <==> (starts_with(trim(target_url@), "http://"@)
            || starts_with(trim(target_url@), "https://"@))),
        trigger@ == "transition"@ && r is Err ==> (r matches Err(e) && e is BadRequest
            && message_of(e) == "target_url must start with http:// or https://"@),
{
    if !str_eq(trigger, "transition") {
        let mut m = chars_of("unknown trigger: ");
        push_str(&mut m, trigger);
        return Err(AppError::BadRequest(string_of(m.as_slice())));
    }
    let url = trim_str(target_url);
    if !(starts_with_seq(&url, &chars_of("http://")) || starts_with_seq(&url, &chars_of("https://"))) {
        return Err(AppError::BadRequest(string_from("target_url must start with http:// or https://")));
    }
    Ok(())
}

} // verus!
