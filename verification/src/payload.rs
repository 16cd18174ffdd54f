//! Document payloads: whether a value fits its field, the per-field rules
//! (bounds, lengths, pattern), and how payloads are merged and redacted.
use vstd::prelude::*;
use crate::error::{message_of, AppError};
use crate::field_rules::{nonblank, number_f64, sv, iv};
use crate::float_bits::{f64_lt, i64_to_f64_bits, lt_bits, u64_to_f64_bits};
use crate::json::{clone_json, jv, member, members_v, opt_jv, Json, JsonNumber, JsonV};
use crate::pattern::{matches_simple_pattern, simple_match};
use crate::repository::{insert_member, lemma_member_members_v, Field, FieldOption};
use crate::text::{
    chars_of, i64_decimal, lower_ascii_seq, lower_ascii_vec, push_all, push_str, seq_is,
    signed_decimal, str_eq, string_from, string_of, string_views, trim, trim_str,
};
use crate::access::find_member;

verus! {

broadcast use vstd::string::group_string_axioms;

// ---------------------------------------------------------------------------
// Values against their field
// ---------------------------------------------------------------------------

/// The option values of a select field include `s`.
pub open spec fn has_option(options: Seq<FieldOption>, s: Seq<char>) -> bool {
    exists|i: int| 0 <= i < options.len() && (#[trigger] options[i]).value@ == s
}

/// Whether `v` is a value of the right kind for a field of type `t`.
pub open spec fn value_fits(t: Seq<char>, options: Seq<FieldOption>, v: Json) -> bool {
    if t == "text"@ || t == "textarea"@ || t == "date"@ || t == "reference"@ {
        v is String
    } else if t == "number"@ || t == "currency"@ {
        v is Number
    } else if t == "checkbox"@ || t == "boolean"@ {
        v is Bool
    } else if t == "select"@ {
        v matches Json::String(s) && has_option(options, s@)
    } else {
        false
    }
}

/// The kinds of value each field type takes: numbers (and only numbers) for
/// `number` and `currency`, strings for the text-like types, booleans for
/// `checkbox` and `boolean`, one of the options for `select`, and nothing
/// for any other type.
pub proof fn lemma_value_kinds(t: Seq<char>, options: Seq<FieldOption>, v: Json)
    ensures
        t == "number"@ ==> (value_fits(t, options, v) <==> v is Number),
        t == "currency"@ ==> (value_fits(t, options, v) <==> v is Number),
        t == "text"@ ==> (value_fits(t, options, v) <==> v is String),
        t == "textarea"@ ==> (value_fits(t, options, v) <==> v is String),
        t == "date"@ ==> (value_fits(t, options, v) <==> v is String),
        t == "reference"@ ==> (value_fits(t, options, v) <==> v is String),
        t == "checkbox"@ ==> (value_fits(t, options, v) <==> v is Bool),
        t == "boolean"@ ==> (value_fits(t, options, v) <==> v is Bool),
        t == "select"@ ==> (value_fits(t, options, v) <==> (v matches Json::String(s) && exists|i: int|
            0 <= i < options.len() && (#[trigger] options[i]).value@ == s@)),
        !(t == "number"@ || t == "currency"@ || t == "text"@ || t == "textarea"@ || t == "date"@
            || t == "reference"@ || t == "checkbox"@ || t == "boolean"@ || t == "select"@) ==> !value_fits(
            t,
            options,
            v,
        ),
{
    reveal_strlit("number");
    reveal_strlit("currency");
    reveal_strlit("text");
    reveal_strlit("textarea");
    reveal_strlit("date");
    reveal_strlit("reference");
    reveal_strlit("checkbox");
    reveal_strlit("boolean");
    reveal_strlit("select");
    if t == "number"@ {
        assert(t.len() == 6 && t[0] == 'n' && t[1] == 'u');
    }
    if t == "currency"@ {
        assert(t.len() == 8 && t[0] == 'c' && t[1] == 'u');
    }
    if t == "text"@ {
        assert(t.len() == 4 && t[0] == 't' && t[1] == 'e');
    }
    if t == "textarea"@ {
        assert(t.len() == 8 && t[0] == 't' && t[1] == 'e');
    }
    if t == "date"@ {
        assert(t.len() == 4 && t[0] == 'd' && t[1] == 'a');
    }
    if t == "reference"@ {
        assert(t.len() == 9 && t[0] == 'r' && t[1] == 'e');
    }
    if t == "checkbox"@ {
        assert(t.len() == 8 && t[0] == 'c' && t[1] == 'h');
    }
    if t == "boolean"@ {
        assert(t.len() == 7 && t[0] == 'b' && t[1] == 'o');
    }
    if t == "select"@ {
        assert(t.len() == 6 && t[0] == 's' && t[1] == 'e');
    }
}

fn has_option_exec(options: &Vec<FieldOption>, s: &String) -> (r: bool)
    ensures
        r == has_option(options@, s@),
{
    let mut i: usize = 0;
    while i < options.len()
        invariant
            i <= options.len(),
            forall|k: int| 0 <= k < i ==> (#[trigger] options@[k]).value@ != s@,
        decreases options.len() - i,
    {
        if str_eq(options[i].value.as_str(), s.as_str()) {
            return true;
        }
        i += 1;
    }
    false
}

/// Checks that a value is of the kind its field takes (a string, a number,
/// a boolean, or one of a select field's options); computed fields take none.
pub fn validate_field_value(field: &Field, value: &Json) -> (r: Result<(), AppError>)
    ensures
        r is Ok <==> value_fits(field.field_type@, field.options@, *value),
        r matches Err(e) ==> e is BadRequest && message_of(e) == "invalid value for field "@
            + field.name@ + ": expected "@ + field.field_type@,
{
    let t = field.field_type.as_str();
    let valid = if str_eq(t, "text") || str_eq(t, "textarea") || str_eq(t, "date") || str_eq(
        t,
        "reference",
    ) {
        matches!(value, Json::String(_))
    } else if str_eq(t, "number") || str_eq(t, "currency") {
        matches!(value, Json::Number(_))
    } else if str_eq(t, "checkbox") || str_eq(t, "boolean") {
        matches!(value, Json::Bool(_))
    } else if str_eq(t, "select") {
        match value {
            Json::String(s) => has_option_exec(&field.options, s),
            _ => false,
        }
    } else {
        false
    };
    if !valid {
        let mut m = chars_of("invalid value for field ");
        push_str(&mut m, field.name.as_str());
        push_str(&mut m, ": expected ");
        push_str(&mut m, t);
        return Err(AppError::BadRequest(string_of(m.as_slice())));
    }
    Ok(())
}

/// A rule of a field that a value breaks.
pub enum RuleViolation {
    /// The number is below the field's minimum.
    BelowMinimum,
    /// The number is above the field's maximum.
    AboveMaximum,
    /// The text, of this many characters, is shorter than the minimum.
    TooShort(i64),
    /// The text, of this many characters, is longer than the maximum.
    TooLong(i64),
    /// The text does not satisfy the field's pattern.
    PatternMismatch,
}

/// The first rule of `field` that `v` breaks: bounds for numbers of number
/// and currency fields, then lengths and the pattern for strings of text and
/// textarea fields.
pub open spec fn rule_violation(field: Field, v: Json) -> Option<RuleViolation> {
    let t = field.field_type@;
    if (t == "number"@ || t == "currency"@) && v is Number {
        let n = number_f64(v->Number_0);
        if field.min_value is Some && f64_lt(n, field.min_value->0) {
            Some(RuleViolation::BelowMinimum)
        } else if field.max_value is Some && f64_lt(field.max_value->0, n) {
            Some(RuleViolation::AboveMaximum)
        } else {
            None
        }
    } else if (t == "text"@ || t == "textarea"@) && v is String {
        let s = v->String_0@;
        if field.min_length is Some && s.len() < field.min_length->0 {
            Some(RuleViolation::TooShort(s.len() as i64))
        } else if field.max_length is Some && s.len() > field.max_length->0 {
            Some(RuleViolation::TooLong(s.len() as i64))
        } else if nonblank(sv(field.pattern)) is Some && !simple_match(
            nonblank(sv(field.pattern))->0,
            s,
        ) {
            Some(RuleViolation::PatternMismatch)
        } else {
            None
        }
    } else {
        None
    }
}

/// Holds a value to the bounds, lengths and pattern of its field. Whether a
/// unique value is already taken is a question for the store.
pub fn check_value_rules(field: &Field, value: &Json) -> (r: Option<RuleViolation>)
    requires
        value matches Json::String(s) ==> s@.len() <= i64::MAX,
    ensures
        r == rule_violation(*field, *value),
{
    let t = field.field_type.as_str();
    if str_eq(t, "number") || str_eq(t, "currency") {
        if let Json::Number(num) = value {
            let n = match num {
                JsonNumber::PosInt(u) => u64_to_f64_bits(*u),
                JsonNumber::NegInt(i) => i64_to_f64_bits(*i),
                JsonNumber::Float(b, _) => *b,
            };
            if let Some(min) = field.min_value {
                if lt_bits(n, min) {
                    return Some(RuleViolation::BelowMinimum);
                }
            }
            if let Some(max) = field.max_value {
                if lt_bits(max, n) {
                    return Some(RuleViolation::AboveMaximum);
                }
            }
        }
        proof {
            reveal_strlit("number");
            reveal_strlit("currency");
            reveal_strlit("text");
            reveal_strlit("textarea");
            assert("currency"@[0] != "textarea"@[0]);
            assert("number"@.len() == 6 && "text"@.len() == 4 && "textarea"@.len() == 8);
            assert("number"@ != "text"@ && "number"@ != "textarea"@);
            assert("currency"@ != "text"@ && "currency"@ != "textarea"@);
        }
        assert(rule_violation(*field, *value) is None);
        return None;
    }
    if str_eq(t, "text") || str_eq(t, "textarea") {
        if let Json::String(s) = value {
            let chars = chars_of(s.as_str());
            let length = chars.len() as i64;
            if let Some(min_length) = field.min_length {
                if length < min_length {
                    return Some(RuleViolation::TooShort(length));
                }
            }
            if let Some(max_length) = field.max_length {
                if length > max_length {
                    return Some(RuleViolation::TooLong(length));
                }
            }
            if let Some(p) = &field.pattern {
                let trimmed = trim_str(p.as_str());
                if trimmed.len() > 0 {
                    let ps = string_of(trimmed.as_slice());
                    if !matches_simple_pattern(ps.as_str(), s.as_str()) {
                        return Some(RuleViolation::PatternMismatch);
                    }
                }
            }
        }
    }
    None
}

/// The bad request for a length or pattern violation. (Bound violations
/// name the two doubles, which the caller writes out.)
pub fn rule_error(field: &Field, v: &RuleViolation) -> (e: AppError)
    requires
        !(v is BelowMinimum || v is AboveMaximum),
        v is TooShort ==> field.min_length is Some,
        v is TooLong ==> field.max_length is Some,
    ensures
        e is BadRequest,
        message_of(e) == match v {
            RuleViolation::TooShort(n) => "value too short for field "@ + field.name@ + ": "@
                + crate::text::signed_decimal(*n as int) + " < "@ + crate::text::signed_decimal(
                iv(field.min_length)->0,
            ),
            RuleViolation::TooLong(n) => "value too long for field "@ + field.name@ + ": "@
                + crate::text::signed_decimal(*n as int) + " > "@ + crate::text::signed_decimal(
                iv(field.max_length)->0,
            ),
            _ => "value does not match pattern for field "@ + field.name@,
        },
{
    match v {
        RuleViolation::TooShort(n) => {
            let mut m = chars_of("value too short for field ");
            push_str(&mut m, field.name.as_str());
            push_str(&mut m, ": ");
            push_all(&mut m, &i64_decimal(*n));
            push_str(&mut m, " < ");
            let bound = match field.min_length {
                Some(b) => b,
                None => 0,
            };
            push_all(&mut m, &i64_decimal(bound));
            AppError::BadRequest(string_of(m.as_slice()))
        },
        RuleViolation::TooLong(n) => {
            let mut m = chars_of("value too long for field ");
            push_str(&mut m, field.name.as_str());
            push_str(&mut m, ": ");
            push_all(&mut m, &i64_decimal(*n));
            push_str(&mut m, " > ");
            let bound = match field.max_length {
                Some(b) => b,
                None => 0,
            };
            push_all(&mut m, &i64_decimal(bound));
            AppError::BadRequest(string_of(m.as_slice()))
        },
        _ => {
            let mut m = chars_of("value does not match pattern for field ");
            push_str(&mut m, field.name.as_str());
            AppError::BadRequest(string_of(m.as_slice()))
        },
    }
}

// ---------------------------------------------------------------------------
// Merging and redacting
// ---------------------------------------------------------------------------

/// The member `k` of the merge of `incoming` over `stored`.
pub open spec fn merged_member(stored: Seq<(String, Json)>, incoming: Seq<(String, Json)>, k: Seq<char>) -> Option<JsonV> {
    if member(incoming, k) is Some {
        opt_jv(member(incoming, k))
    } else {
        opt_jv(member(stored, k))
    }
}

/// Merges an incoming partial payload over the stored one: every member of
/// `incoming` replaces or joins those of `stored`. When either is not an
/// object, the incoming payload is taken as it is.
pub fn merge_editable_payload(stored: &Json, incoming: &Json) -> (r: Json)
    ensures
        match (*stored, *incoming) {
            (Json::Object(s), Json::Object(i)) => r is Object && forall|k: Seq<char>|
                opt_jv(#[trigger] member(r->Object_0@, k)) == merged_member(s@, i@, k),
            _ => jv(r) == jv(*incoming),
        },
{
    let (s, inc) = match (stored, incoming) {
        (Json::Object(s), Json::Object(inc)) => (s, inc),
        _ => {
            return clone_json(incoming);
        },
    };
    let mut object: Vec<(String, Json)> = match clone_json(stored) {
        Json::Object(e) => e,
        _ => Vec::new(),
    };
    proof {
        assert forall|k: Seq<char>| opt_jv(#[trigger] member(object@, k)) == opt_jv(member(s@, k)) by {
            lemma_member_members_v(object@, s@, k);
        }
    }
    let mut j: usize = inc.len();
    assert(inc@.skip(inc.len() as int) =~= Seq::<(String, Json)>::empty());
    while j > 0
        invariant
            j <= inc.len(),
            forall|k: Seq<char>| opt_jv(#[trigger] member(object@, k)) == merged_member(
                s@,
                inc@.skip(j as int),
                k,
            ),
        decreases j,
    {
        let key = inc[j - 1].0.clone();
        let value = clone_json(&inc[j - 1].1);
        insert_member(&mut object, key, value);
        assert(inc@.skip(j - 1).drop_first() =~= inc@.skip(j as int));
        assert(inc@.skip(j - 1)[0] == inc@[j - 1]);
        j = j - 1;
    }
    assert(inc@.skip(0) =~= inc@);
    Json::Object(object)
}

/// The members of `entries` whose key is in `keys`, in order.
pub open spec fn kept_members(entries: Seq<(String, Json)>, keys: Seq<Seq<char>>) -> Seq<(Seq<char>, JsonV)>
    decreases entries.len(),
{
    if entries.len() == 0 {
        Seq::empty()
    } else if keys.contains(entries.last().0@) {
        kept_members(entries.drop_last(), keys).push((entries.last().0@, jv(entries.last().1)))
    } else {
        kept_members(entries.drop_last(), keys)
    }
}

/// Redaction keeps exactly the viewable members: every member of a redacted
/// object has a viewable key, and every member of the payload with a
/// viewable key is kept.
pub proof fn lemma_redaction_keeps_viewable(entries: Seq<(String, Json)>, keys: Seq<Seq<char>>)
    ensures
        forall|i: int|
            0 <= i < kept_members(entries, keys).len() ==> keys.contains(
                (#[trigger] kept_members(entries, keys)[i]).0,
            ),
        forall|j: int|
            0 <= j < entries.len() && keys.contains((#[trigger] entries[j]).0@) ==> kept_members(
                entries,
                keys,
            ).contains((entries[j].0@, jv(entries[j].1))),
    decreases entries.len(),
{
    if entries.len() > 0 {
        let prev = entries.drop_last();
        lemma_redaction_keeps_viewable(prev, keys);
        let k = kept_members(entries, keys);
        let kp = kept_members(prev, keys);
        assert forall|j: int|
            0 <= j < entries.len() && keys.contains((#[trigger] entries[j]).0@) implies k.contains(
            (entries[j].0@, jv(entries[j].1)),
        ) by {
            if j < entries.len() - 1 {
                assert(prev[j] == entries[j]);
                let w = choose|w: int| 0 <= w < kp.len() && kp[w] == (prev[j].0@, jv(prev[j].1));
                if keys.contains(entries.last().0@) {
                    assert(k[w] == kp[w]);
                }
            } else {
                assert(k[k.len() - 1] == (entries[j].0@, jv(entries[j].1)));
            }
        }
        assert forall|i: int| 0 <= i < k.len() implies keys.contains((#[trigger] k[i]).0) by {
            if i < kp.len() {
                assert(k[i] == kp[i]);
            }
        }
    }
}

fn contains_key(keys: &Vec<String>, k: &String) -> (r: bool)
    ensures
        r == string_views(keys@).contains(k@),
{
    let mut i: usize = 0;
    while i < keys.len()
        invariant
            i <= keys.len(),
            forall|j: int| 0 <= j < i ==> keys@[j]@ != k@,
        decreases keys.len() - i,
    {
        if str_eq(keys[i].as_str(), k.as_str()) {
            assert(string_views(keys@)[i as int] == k@);
            return true;
        }
        i += 1;
    }
    assert forall|j: int| 0 <= j < string_views(keys@).len() implies string_views(keys@)[j] != k@ by {
        assert(string_views(keys@)[j] == keys@[j]@);
    }
    false
}

/// Keeps only the members whose key is viewable; a payload that is not an
/// object is returned as it is.
pub fn redact_payload(payload: &Json, viewable: &Vec<String>) -> (r: Json)
    ensures
        match *payload {
            Json::Object(e) => r matches Json::Object(x) && members_v(x@) == kept_members(
                e@,
                string_views(viewable@),
            ),
            _ => jv(r) == jv(*payload),
        },
{
    let entries = match payload {
        Json::Object(e) => e,
        _ => {
            return clone_json(payload);
        },
    };
    let mut out: Vec<(String, Json)> = Vec::new();
    let mut i: usize = 0;
    while i < entries.len()
        invariant
            i <= entries.len(),
            members_v(out@) == kept_members(entries@.take(i as int), string_views(viewable@)),
        decreases entries.len() - i,
    {
        assert(entries@.take(i + 1).drop_last() =~= entries@.take(i as int));
        if contains_key(viewable, &entries[i].0) {
            let ghost before = out@;
            out.push((entries[i].0.clone(), clone_json(&entries[i].1)));
            assert(out@.drop_last() =~= before);
        }
        i += 1;
    }
    assert(entries@.take(entries.len() as int) =~= entries@);
    Json::Object(out)
}

// ---------------------------------------------------------------------------
// Numbered fields
// ---------------------------------------------------------------------------

/// A text field numbered from a counter: it has a prefix or a width.
pub open spec fn auto_numbered(f: Field) -> bool {
    f.field_type@ == "text"@ && (f.auto_number_prefix is Some || f.auto_number_width is Some)
}

/// The positions, among the first `n` fields, of the numbered fields that
/// a payload leaves out.
pub open spec fn to_number(fields: Seq<Field>, entries: Seq<(String, Json)>, n: int) -> Seq<usize>
    decreases n,
{
    if n <= 0 {
        Seq::empty()
    } else if auto_numbered(fields[n - 1]) && member(entries, fields[n - 1].name@) is None {
        to_number(fields, entries, n - 1).push((n - 1) as usize)
    } else {
        to_number(fields, entries, n - 1)
    }
}

/// The fields a new document takes numbers for, in field order.
pub fn fields_to_number(fields: &Vec<Field>, entries: &Vec<(String, Json)>) -> (r: Vec<usize>)
    ensures
        r@ == to_number(fields@, entries@, fields@.len() as int),
{
    let mut out: Vec<usize> = Vec::new();
    let mut i: usize = 0;
    while i < fields.len()
        invariant
            i <= fields.len(),
            out@ == to_number(fields@, entries@, i as int),
        decreases fields.len() - i,
    {
        let f = &fields[i];
        if str_eq(f.field_type.as_str(), "text") && (f.auto_number_prefix.is_some()
            || f.auto_number_width.is_some()) && find_member(entries, f.name.as_str()).is_none() {
            out.push(i);
        }
        i += 1;
    }
    out
}

/// `s` padded on the left with zeros to at least `w` characters.
pub open spec fn pad_zeros(s: Seq<char>, w: int) -> Seq<char> {
    if s.len() >= w {
        s
    } else {
        Seq::new((w - s.len()) as nat, |i: int| '0') + s
    }
}

/// The text of a field's next number: its prefix, then the number, padded
/// with zeros to the field's width when it has a positive one.
pub open spec fn auto_number(prefix: Option<Seq<char>>, value: int, width: Option<i64>) -> Seq<char> {
    let p = match prefix {
        Some(p) => p,
        None => Seq::empty(),
    };
    let d = signed_decimal(value);
    p + match width {
        Some(w) => if w > 0 {
            pad_zeros(d, w as int)
        } else {
            d
        },
        None => d,
    }
}

pub fn auto_number_text(prefix: Option<&str>, value: i64, width: Option<i64>) -> (r: String)
    ensures
        r@ == auto_number(
            match prefix {
                Some(p) => Some(p@),
                None => None,
            },
            value as int,
            width,
        ),
{
    let d = i64_decimal(value);
    let mut out: Vec<char> = match prefix {
        Some(p) => chars_of(p),
        None => Vec::new(),
    };
    let ghost start = out@;
    if let Some(w) = width {
        let dl = d.len() as u64;
        if w > 0 && dl < w as u64 {
            let pad: u64 = w as u64 - dl;
            let mut k: u64 = 0;
            while k < pad
                invariant
                    0 <= k <= pad,
                    out@ =~= start + Seq::new(k as nat, |i: int| '0'),
                decreases pad - k,
            {
                out.push('0');
                k += 1;
            }
        }
    }
    push_all(&mut out, &d);
    proof {
        if let Some(w) = width {
            if w > 0 && d@.len() < w {
                assert(out@ =~= start + pad_zeros(d@, w as int));
            } else {
                assert(out@ =~= start + d@);
            }
        } else {
            assert(out@ =~= start + d@);
        }
    }
    string_of(out.as_slice())
}

// ---------------------------------------------------------------------------
// Defaults
// ---------------------------------------------------------------------------

/// A field's default value as declared: none, a flag, a text, or a number
/// still to be read from its text.
pub enum FieldDefault {
    Nothing,
    Flag(bool),
    Text(String),
    Number(String),
}

/// The trimmed default text of a field that has a non-blank one and is not
/// numbered from a counter.
pub open spec fn default_text(f: Field) -> Option<Seq<char>> {
    if f.auto_number_prefix is Some || f.auto_number_width is Some {
        None
    } else {
        match f.default_value {
            Some(d) => if trim(d@).len() > 0 {
                Some(trim(d@))
            } else {
                None
            },
            None => None,
        }
    }
}

/// Whether `d` is the default a field declares (see `default_text`): by
/// type, a number's text, a flag written `true` or `false` in any ASCII
/// case, or the text itself.
pub open spec fn default_ok(f: Field, d: FieldDefault) -> bool {
    match default_text(f) {
        None => d is Nothing,
        Some(t) => if f.field_type@ == "number"@ || f.field_type@ == "currency"@ {
            d matches FieldDefault::Number(x) && x@ == t
        } else if f.field_type@ == "checkbox"@ || f.field_type@ == "boolean"@ {
            if lower_ascii_seq(t) == "true"@ {
                d matches FieldDefault::Flag(b) && b
            } else if lower_ascii_seq(t) == "false"@ {
                d matches FieldDefault::Flag(b) && !b
            } else {
                d is Nothing
            }
        } else {
            d matches FieldDefault::Text(x) && x@ == t
        },
    }
}

pub fn field_default_payload(field: &Field) -> (r: FieldDefault)
    ensures
        default_ok(*field, r),
{
    if field.auto_number_prefix.is_some() || field.auto_number_width.is_some() {
        return FieldDefault::Nothing;
    }
    let t = match &field.default_value {
        Some(d) => trim_str(d.as_str()),
        None => {
            return FieldDefault::Nothing;
        },
    };
    if t.len() == 0 {
        return FieldDefault::Nothing;
    }
    let ty = field.field_type.as_str();
    if str_eq(ty, "number") || str_eq(ty, "currency") {
        FieldDefault::Number(string_of(t.as_slice()))
    } else if str_eq(ty, "checkbox") || str_eq(ty, "boolean") {
        let lower = lower_ascii_vec(&t);
        if seq_is(&lower, "true") {
            FieldDefault::Flag(true)
        } else if seq_is(&lower, "false") {
            FieldDefault::Flag(false)
        } else {
            FieldDefault::Nothing
        }
    } else {
        FieldDefault::Text(string_of(t.as_slice()))
    }
}

/// The first value given for `k` among the defaults.
pub open spec fn default_for(defaults: Seq<(String, Json)>, k: Seq<char>) -> Option<Json> {
    member(defaults, k)
}

/// Fills the members a payload leaves out from the defaults `(name, value)`
/// given in field order; a payload that is not an object stays as it is.
pub fn apply_field_defaults(payload: &Json, defaults: &Vec<(String, Json)>) -> (r: Json)
    ensures
        match *payload {
            Json::Object(e) => r matches Json::Object(x) && forall|k: Seq<char>|
                #[trigger] opt_jv(member(x@, k)) == if member(e@, k) is Some {
                    opt_jv(member(e@, k))
                } else {
                    opt_jv(default_for(defaults@, k))
                },
            _ => jv(r) == jv(*payload),
        },
{
    let e = match payload {
        Json::Object(e) => e,
        _ => {
            return clone_json(payload);
        },
    };
    let copy = clone_json(payload);
    let mut out: Vec<(String, Json)> = match copy {
        Json::Object(x) => {
            assert(members_v(x@) == members_v(e@));
            x
        },
        _ => {
            assert(false);
            Vec::new()
        },
    };
    proof {
        assert forall|k: Seq<char>| #[trigger] opt_jv(member(out@, k)) == opt_jv(member(e@, k)) by {
            lemma_member_members_v(out@, e@, k);
        }
        assert(defaults@.take(0) =~= Seq::<(String, Json)>::empty());
    }
    let mut i: usize = 0;
    while i < defaults.len()
        invariant
            i <= defaults.len(),
            forall|k: Seq<char>|
                #[trigger] opt_jv(member(out@, k)) == if member(e@, k) is Some {
                    opt_jv(member(e@, k))
                } else {
                    opt_jv(member(defaults@.take(i as int), k))
                },
        decreases defaults.len() - i,
    {
        let name = defaults[i].0.as_str();
        proof {
            lemma_member_take_push(defaults@, i as int);
        }
        if find_member(&out, name).is_none() {
            let key = string_from(name);
            let value = clone_json(&defaults[i].1);
            insert_member(&mut out, key, value);
        }
        i += 1;
    }
    assert(defaults@.take(defaults.len() as int) =~= defaults@);
    Json::Object(out)
}

/// The first member of a prefix one longer: that of the shorter prefix, or
/// the added entry when the shorter has none.
proof fn lemma_member_take_push(d: Seq<(String, Json)>, i: int)
    requires
        0 <= i < d.len(),
    ensures
        forall|k: Seq<char>|
            #[trigger] member(d.take(i + 1), k) == if member(d.take(i), k) is Some {
                member(d.take(i), k)
            } else if d[i].0@ == k {
                Some(d[i].1)
            } else {
                None
            },
    decreases i,
{
    assert forall|k: Seq<char>|
        #[trigger] member(d.take(i + 1), k) == if member(d.take(i), k) is Some {
            member(d.take(i), k)
        } else if d[i].0@ == k {
            Some(d[i].1)
        } else {
            None
        } by {
        lemma_member_prefix(d.take(i + 1), i, k);
        assert(d.take(i + 1).take(i) =~= d.take(i));
    }
}

/// `member` of a sequence through its prefix of length `i` and the entry
/// after it.
proof fn lemma_member_prefix(s: Seq<(String, Json)>, i: int, k: Seq<char>)
    requires
        0 <= i,
        i + 1 == s.len(),
    ensures
        member(s, k) == if member(s.take(i), k) is Some {
            member(s.take(i), k)
        } else if s[i].0@ == k {
            Some(s[i].1)
        } else {
            None
        },
    decreases i,
{
    if i > 0 {
        let t = s.drop_first();
        lemma_member_prefix(t, i - 1, k);
        assert(t.take(i - 1) =~= s.take(i).drop_first());
        assert(s.take(i)[0] == s[0]);
    } else {
        assert(s.take(0) =~= Seq::<(String, Json)>::empty());
        assert(s.drop_first() =~= Seq::<(String, Json)>::empty());
    }
}

} // verus!
