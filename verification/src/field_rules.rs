//! Per-field validation rules: how a module definition declares them, which
//! combinations are coherent for a field type, and how a value is held to
//! them.
use vstd::prelude::*;
use crate::error::{bad_request, message_of, AppError};
use crate::float_bits::{f64_lt, i64_to_f64_bits, int_to_f64, is_finite, is_finite_bits, lt_bits, nat_to_f64, u64_to_f64_bits};
use crate::json::{get_spec, i64_of, bool_of, number_text, str_of, Json, JsonNumber};
use crate::metadata::{boolean_type, is_boolean_type, is_numeric_type, is_text_type, numeric_type, text_type};
use crate::numbers::{float_literal, is_float_literal};
use crate::text::{
    chars_of, i64_decimal, lower_ascii_seq, lower_ascii_vec, seq_is, string_of, trim, trim_str,
    u64_decimal, utf8_len, utf8_len_exceeds,
};

verus! {

broadcast use vstd::string::group_string_axioms;

/// Longest accepted pattern, in bytes.
pub const PATTERN_MAX_BYTES: usize = 500;

/// Rules of a field. `min_value` and `max_value` are doubles held as their
/// bit patterns.
pub struct FieldRules {
    pub is_unique: bool,
    pub min_value: Option<u64>,
    pub max_value: Option<u64>,
    pub pattern: Option<String>,
    pub min_length: Option<i64>,
    pub max_length: Option<i64>,
    pub default_value: Option<String>,
    pub auto_number_prefix: Option<String>,
    pub auto_number_width: Option<i64>,
}

/// What the rules say, with text as characters and integers unbounded.
pub struct FieldRulesV {
    pub is_unique: bool,
    pub min_value: Option<u64>,
    pub max_value: Option<u64>,
    pub pattern: Option<Seq<char>>,
    pub min_length: Option<int>,
    pub max_length: Option<int>,
    pub default_value: Option<Seq<char>>,
    pub auto_number_prefix: Option<Seq<char>>,
    pub auto_number_width: Option<int>,
}

impl View for FieldRules {
    type V = FieldRulesV;

    open spec fn view(&self) -> FieldRulesV {
        FieldRulesV {
            is_unique: self.is_unique,
            min_value: self.min_value,
            max_value: self.max_value,
            pattern: sv(self.pattern),
            min_length: iv(self.min_length),
            max_length: iv(self.max_length),
            default_value: sv(self.default_value),
            auto_number_prefix: sv(self.auto_number_prefix),
            auto_number_width: iv(self.auto_number_width),
        }
    }
}

impl Default for FieldRules {
    fn default() -> (r: FieldRules)
        ensures
            !r.is_unique,
            r.min_value is None,
            r.max_value is None,
            r.pattern is None,
            r.min_length is None,
            r.max_length is None,
            r.default_value is None,
            r.auto_number_prefix is None,
            r.auto_number_width is None,
    {
        FieldRules {
            is_unique: false,
            min_value: None,
            max_value: None,
            pattern: None,
            min_length: None,
            max_length: None,
            default_value: None,
            auto_number_prefix: None,
            auto_number_width: None,
        }
    }
}

pub open spec fn sv(o: Option<String>) -> Option<Seq<char>> {
    match o {
        Some(s) => Some(s@),
        None => None,
    }
}

pub open spec fn iv(o: Option<i64>) -> Option<int> {
    match o {
        Some(x) => Some(x as int),
        None => None,
    }
}

/// `get` on an optional value.
pub open spec fn opt_get(v: Option<Json>, k: Seq<char>) -> Option<Json> {
    match v {
        Some(x) => get_spec(x, k),
        None => None,
    }
}

/// `Number::as_f64`, as a bit pattern.
pub open spec fn number_f64(n: JsonNumber) -> u64 {
    match n {
        JsonNumber::PosInt(u) => nat_to_f64(u as nat) as u64,
        JsonNumber::NegInt(i) => int_to_f64(i as int) as u64,
        JsonNumber::Float(b, _) => b,
    }
}

/// `Value::as_f64`, as a bit pattern.
pub open spec fn f64_of(v: Option<Json>) -> Option<u64> {
    match v {
        Some(Json::Number(n)) => Some(number_f64(n)),
        _ => None,
    }
}

pub open spec fn or_else<T>(a: Option<T>, b: Option<T>) -> Option<T> {
    if a is Some {
        a
    } else {
        b
    }
}

/// The text of a declared default: a string as is, a number or a boolean as
/// it prints.
pub open spec fn default_text(v: Option<Json>) -> Option<Seq<char>> {
    match v {
        Some(Json::String(s)) => Some(s@),
        Some(Json::Number(n)) => Some(number_text(n)),
        Some(Json::Bool(b)) => Some(
            if b {
                "true"@
            } else {
                "false"@
            },
        ),
        _ => None,
    }
}

/// The rules that a field of a module definition declares: each is read
/// from the field itself first, then from its `rules` object.
pub open spec fn declared_rules(field: Json) -> FieldRulesV {
    let rules = get_spec(field, "rules"@);
    let auto = get_spec(field, "auto_number"@);
    let rules_auto = opt_get(rules, "auto_number"@);
    FieldRulesV {
        is_unique: bool_of(get_spec(field, "unique"@)) == Some(true) || bool_of(
            opt_get(rules, "unique"@),
        ) == Some(true),
        min_value: or_else(
            f64_of(get_spec(field, "min_value"@)),
            or_else(f64_of(opt_get(rules, "min_value"@)), f64_of(opt_get(rules, "min"@))),
        ),
        max_value: or_else(
            f64_of(get_spec(field, "max_value"@)),
            or_else(f64_of(opt_get(rules, "max_value"@)), f64_of(opt_get(rules, "max"@))),
        ),
        pattern: or_else(str_of(get_spec(field, "pattern"@)), str_of(opt_get(rules, "pattern"@))),
        min_length: or_else(
            i64_of(get_spec(field, "min_length"@)),
            i64_of(opt_get(rules, "min_length"@)),
        ),
        max_length: or_else(
            i64_of(get_spec(field, "max_length"@)),
            i64_of(opt_get(rules, "max_length"@)),
        ),
        default_value: or_else(
            default_text(get_spec(field, "default"@)),
            default_text(opt_get(rules, "default"@)),
        ),
        auto_number_prefix: or_else(
            str_of(opt_get(auto, "prefix"@)),
            str_of(opt_get(rules_auto, "prefix"@)),
        ),
        auto_number_width: or_else(
            i64_of(opt_get(auto, "width"@)),
            i64_of(opt_get(rules_auto, "width"@)),
        ),
    }
}

/// `Value::as_f64`, as a bit pattern.
pub fn json_as_f64(v: Option<&Json>) -> (r: Option<u64>)
    ensures
        r == f64_of(
            match v {
                Some(x) => Some(*x),
                None => None,
            },
        ),
{
    match v {
        Some(Json::Number(JsonNumber::PosInt(u))) => Some(u64_to_f64_bits(*u)),
        Some(Json::Number(JsonNumber::NegInt(i))) => Some(i64_to_f64_bits(*i)),
        Some(Json::Number(JsonNumber::Float(b, _))) => Some(*b),
        _ => None,
    }
}

fn get_opt<'a>(v: Option<&'a Json>, k: &str) -> (r: Option<&'a Json>)
    ensures
        match r {
            Some(x) => opt_get(
                match v {
                    Some(y) => Some(*y),
                    None => None,
                },
                k@,
            ) == Some(*x),
            None => opt_get(
                match v {
                    Some(y) => Some(*y),
                    None => None,
                },
                k@,
            ) is None,
        },
{
    match v {
        Some(x) => x.get(k),
        None => None,
    }
}

pub open spec fn deref_opt(v: Option<&Json>) -> Option<Json> {
    match v {
        Some(y) => Some(*y),
        None => None,
    }
}

fn as_string(v: Option<&Json>) -> (r: Option<String>)
    ensures
        sv(r) == str_of(deref_opt(v)),
{
    match v {
        Some(Json::String(s)) => Some(s.clone()),
        _ => None,
    }
}

fn as_i64(v: Option<&Json>) -> (r: Option<i64>)
    ensures
        iv(r) == i64_of(deref_opt(v)),
{
    match v {
        Some(Json::Number(JsonNumber::PosInt(u))) => {
            if *u <= 9223372036854775807u64 {
                Some(*u as i64)
            } else {
                None
            }
        },
        Some(Json::Number(JsonNumber::NegInt(i))) => Some(*i),
        _ => None,
    }
}

fn as_bool(v: Option<&Json>) -> (r: Option<bool>)
    ensures
        r == bool_of(deref_opt(v)),
{
    match v {
        Some(Json::Bool(b)) => Some(*b),
        _ => None,
    }
}

fn as_default(v: Option<&Json>) -> (r: Option<String>)
    ensures
        sv(r) == default_text(deref_opt(v)),
{
    match v {
        Some(Json::String(s)) => Some(s.clone()),
        Some(Json::Number(n)) => {
            let t = match n {
                JsonNumber::PosInt(u) => u64_decimal(*u),
                JsonNumber::NegInt(i) => i64_decimal(*i),
                JsonNumber::Float(_, t) => chars_of(t.as_str()),
            };
            Some(string_of(t.as_slice()))
        },
        Some(Json::Bool(b)) => {
            if *b {
                Some(crate::text::string_from("true"))
            } else {
                Some(crate::text::string_from("false"))
            }
        },
        _ => None,
    }
}

/// Reads the rules that a field of a module definition declares.
pub fn field_rules_from_definition(field: &Json) -> (r: FieldRules)
    ensures
        r@ == declared_rules(*field),
{
    let rules = field.get("rules");
    let auto = field.get("auto_number");
    let rules_auto = get_opt(rules, "auto_number");
    let is_unique = as_bool(field.get("unique")) == Some(true) || as_bool(get_opt(rules, "unique"))
        == Some(true);
    let min_value = match json_as_f64(field.get("min_value")) {
        Some(x) => Some(x),
        None => match json_as_f64(get_opt(rules, "min_value")) {
            Some(x) => Some(x),
            None => json_as_f64(get_opt(rules, "min")),
        },
    };
    let max_value = match json_as_f64(field.get("max_value")) {
        Some(x) => Some(x),
        None => match json_as_f64(get_opt(rules, "max_value")) {
            Some(x) => Some(x),
            None => json_as_f64(get_opt(rules, "max")),
        },
    };
    let pattern = match as_string(field.get("pattern")) {
        Some(x) => Some(x),
        None => as_string(get_opt(rules, "pattern")),
    };
    let min_length = match as_i64(field.get("min_length")) {
        Some(x) => Some(x),
        None => as_i64(get_opt(rules, "min_length")),
    };
    let max_length = match as_i64(field.get("max_length")) {
        Some(x) => Some(x),
        None => as_i64(get_opt(rules, "max_length")),
    };
    let default_value = match as_default(field.get("default")) {
        Some(x) => Some(x),
        None => as_default(get_opt(rules, "default")),
    };
    let auto_number_prefix = match as_string(get_opt(auto, "prefix")) {
        Some(x) => Some(x),
        None => as_string(get_opt(rules_auto, "prefix")),
    };
    let auto_number_width = match as_i64(get_opt(auto, "width")) {
        Some(x) => Some(x),
        None => as_i64(get_opt(rules_auto, "width")),
    };
    FieldRules {
        is_unique,
        min_value,
        max_value,
        pattern,
        min_length,
        max_length,
        default_value,
        auto_number_prefix,
        auto_number_width,
    }
}

/// The trimmed text of an optional string, when it is not empty.
pub open spec fn nonblank(o: Option<Seq<char>>) -> Option<Seq<char>> {
    match o {
        Some(s) => if trim(s).len() > 0 {
            Some(trim(s))
        } else {
            None
        },
        None => None,
    }
}

/// The first rule that `r` breaks for a field of type `t`, as the message of
/// the error, or `None` when the rules are coherent.
pub open spec fn rules_error(t: Seq<char>, r: FieldRulesV) -> Option<Seq<char>> {
    if r.min_value is Some && !numeric_type(t) {
        Some("min_value is only valid for number fields"@)
    } else if r.min_value is Some && !is_finite(r.min_value->0) {
        Some("min_value must be finite"@)
    } else if r.max_value is Some && !numeric_type(t) {
        Some("max_value is only valid for number fields"@)
    } else if r.max_value is Some && !is_finite(r.max_value->0) {
        Some("max_value must be finite"@)
    } else if r.min_value is Some && r.max_value is Some && f64_lt(
        r.max_value->0,
        r.min_value->0,
    ) {
        Some("min_value must be <= max_value"@)
    } else if nonblank(r.pattern) is Some && !text_type(t) {
        Some("pattern is only valid for text fields"@)
    } else if nonblank(r.pattern) is Some && utf8_len(nonblank(r.pattern)->0)
        > PATTERN_MAX_BYTES {
        Some("pattern is too long"@)
    } else if (r.min_length is Some || r.max_length is Some) && !text_type(t) {
        Some("length limits are only valid for text fields"@)
    } else if r.min_length is Some && r.min_length->0 < 0 {
        Some("min_length must be >= 0"@)
    } else if r.max_length is Some && r.max_length->0 < 0 {
        Some("max_length must be >= 0"@)
    } else if r.min_length is Some && r.max_length is Some && r.min_length->0
        > r.max_length->0 {
        Some("min_length must be <= max_length"@)
    } else if nonblank(r.default_value) is Some && numeric_type(t) && !float_literal(
        nonblank(r.default_value)->0,
    ) {
        Some("default_value must be a number"@)
    } else if nonblank(r.default_value) is Some && boolean_type(t) && !(lower_ascii_seq(
        nonblank(r.default_value)->0,
    ) == "true"@ || lower_ascii_seq(nonblank(r.default_value)->0) == "false"@) {
        Some("default_value must be true or false"@)
    } else if (r.auto_number_prefix is Some || r.auto_number_width is Some) && !text_type(t) {
        Some("auto_number is only valid for text fields"@)
    } else if r.auto_number_width is Some && !(1 <= r.auto_number_width->0 <= 10) {
        Some("auto_number width must be 1..=10"@)
    } else {
        None
    }
}

fn nonblank_exec(o: &Option<String>) -> (r: Option<Vec<char>>)
    ensures
        match r {
            Some(v) => nonblank(sv(*o)) == Some(v@),
            None => nonblank(sv(*o)) is None,
        },
{
    match o {
        Some(s) => {
            let t = trim_str(s.as_str());
            if t.len() > 0 {
                Some(t)
            } else {
                None
            }
        },
        None => None,
    }
}

/// Checks that the rules of a field are coherent for its type.
pub fn validate_field_rules(field_type: &str, rules: &FieldRules) -> (r: Result<(), AppError>)
    ensures
        match rules_error(field_type@, rules@) {
            None => r is Ok,
            Some(m) => r matches Err(e) && e is BadRequest && message_of(e) == m,
        },
{
    let numeric = is_numeric_type(field_type);
    let text = is_text_type(field_type);
    if let Some(min) = rules.min_value {
        if !numeric {
            return Err(bad_request("min_value is only valid for number fields"));
        }
        if !is_finite_bits(min) {
            return Err(bad_request("min_value must be finite"));
        }
    }
    if let Some(max) = rules.max_value {
        if !numeric {
            return Err(bad_request("max_value is only valid for number fields"));
        }
        if !is_finite_bits(max) {
            return Err(bad_request("max_value must be finite"));
        }
    }
    if let (Some(min), Some(max)) = (rules.min_value, rules.max_value) {
        if lt_bits(max, min) {
            return Err(bad_request("min_value must be <= max_value"));
        }
    }
    if let Some(pattern) = nonblank_exec(&rules.pattern) {
        if !text {
            return Err(bad_request("pattern is only valid for text fields"));
        }
        if utf8_len_exceeds(&pattern, PATTERN_MAX_BYTES) {
            return Err(bad_request("pattern is too long"));
        }
    }
    if (rules.min_length.is_some() || rules.max_length.is_some()) && !text {
        return Err(bad_request("length limits are only valid for text fields"));
    }
    if let Some(min_length) = rules.min_length {
        if min_length < 0 {
            return Err(bad_request("min_length must be >= 0"));
        }
    }
    if let Some(max_length) = rules.max_length {
        if max_length < 0 {
            return Err(bad_request("max_length must be >= 0"));
        }
    }
    if let (Some(min_length), Some(max_length)) = (rules.min_length, rules.max_length) {
        if min_length > max_length {
            return Err(bad_request("min_length must be <= max_length"));
        }
    }
    if let Some(default) = nonblank_exec(&rules.default_value) {
        if numeric && !is_float_literal(&default) {
            return Err(bad_request("default_value must be a number"));
        }
        if is_boolean_type(field_type) {
            let lower = lower_ascii_vec(&default);
            if !(seq_is(&lower, "true") || seq_is(&lower, "false")) {
                return Err(bad_request("default_value must be true or false"));
            }
        }
    }
    if rules.auto_number_prefix.is_some() || rules.auto_number_width.is_some() {
        if !text {
            return Err(bad_request("auto_number is only valid for text fields"));
        }
        if let Some(width) = rules.auto_number_width {
            if !(1 <= width && width <= 10) {
                return Err(bad_request("auto_number width must be 1..=10"));
            }
        }
    }
    Ok(())
}

} // verus!
