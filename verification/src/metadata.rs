//! Field types known to the runtime and their families.
use vstd::prelude::*;
use crate::error::{bad_request_with, message_of, AppError};
use crate::text::{chars_of, str_eq};

verus! {

/// The canonical field types, in their documented order.
pub open spec fn canonical_types() -> Seq<Seq<char>> {
    seq![
        "text"@, "long_text"@, "number"@, "decimal"@, "currency"@, "percentage"@, "integer"@,
        "boolean"@, "date"@, "datetime"@, "time"@, "select"@, "multi_select"@, "email"@,
        "phone"@, "url"@, "json"@, "file"@, "image"@, "reference"@, "computed"@, "formula"@,
        "auto_number"@,
    ]
}

/// A field type is accepted when it is canonical or one of the two legacy
/// spellings `textarea` and `checkbox`.
pub open spec fn is_valid_field_type(t: Seq<char>) -> bool {
    canonical_types().contains(t) || t == "textarea"@ || t == "checkbox"@
}

pub open spec fn text_type(t: Seq<char>) -> bool {
    t == "text"@ || t == "long_text"@ || t == "textarea"@ || t == "email"@ || t == "phone"@ || t
        == "url"@
}

pub open spec fn numeric_type(t: Seq<char>) -> bool {
    t == "number"@ || t == "decimal"@ || t == "currency"@ || t == "percentage"@ || t
        == "integer"@
}

pub open spec fn boolean_type(t: Seq<char>) -> bool {
    t == "boolean"@ || t == "checkbox"@
}

pub open spec fn option_type(t: Seq<char>) -> bool {
    t == "select"@ || t == "multi_select"@
}

/// The canonical field type names.
pub fn canonical_field_types() -> (r: Vec<&'static str>)
    ensures
        r@.len() == 23,
        forall|i: int| 0 <= i < 23 ==> (#[trigger] r@[i])@ == canonical_types()[i],
{
    let r = vec![
        "text", "long_text", "number", "decimal", "currency", "percentage", "integer",
        "boolean", "date", "datetime", "time", "select", "multi_select", "email", "phone",
        "url", "json", "file", "image", "reference", "computed", "formula", "auto_number",
    ];
    proof {
        assert(r@.len() == 23);
    }
    r
}

/// Field types as a closed set.
#[derive(Clone, Copy, Debug, PartialEq, Eq)]
pub enum FieldType {
    Text,
    LongText,
    Number,
    Decimal,
    Currency,
    Percentage,
    Integer,
    Boolean,
    Date,
    DateTime,
    Time,
    Select,
    MultiSelect,
    Email,
    Phone,
    Url,
    Json,
    File,
    Image,
    Reference,
    Computed,
    Formula,
    AutoNumber,
}

/// Accepts the canonical types and `textarea`/`checkbox`; rejects anything
/// else with a bad request naming the type.
pub fn validate_field_type(field_type: &str) -> (r: Result<(), AppError>)
    ensures
        r is Ok <==> is_valid_field_type(field_type@),
        r matches Err(e) ==> e is BadRequest && message_of(e) == "invalid field type: "@
            + field_type@,
{
    let types = canonical_field_types();
    let mut i: usize = 0;
    while i < types.len()
        invariant
            types@.len() == 23,
            forall|k: int| 0 <= k < 23 ==> (#[trigger] types@[k])@ == canonical_types()[k],
            i <= 23,
            forall|k: int| 0 <= k < i ==> canonical_types()[k] != field_type@,
        decreases 23 - i,
    {
        if str_eq(types[i], field_type) {
            assert(canonical_types()[i as int] == field_type@);
            return Ok(());
        }
        i += 1;
    }
    if str_eq(field_type, "textarea") || str_eq(field_type, "checkbox") {
        return Ok(());
    }
    let detail = chars_of(field_type);
    Err(bad_request_with("invalid field type: ", &detail))
}

pub fn is_text_type(field_type: &str) -> (r: bool)
    ensures
        r == text_type(field_type@),
{
    str_eq(field_type, "text") || str_eq(field_type, "long_text") || str_eq(field_type, "textarea")
        || str_eq(field_type, "email") || str_eq(field_type, "phone") || str_eq(field_type, "url")
}

pub fn is_numeric_type(field_type: &str) -> (r: bool)
    ensures
        r == numeric_type(field_type@),
{
    str_eq(field_type, "number") || str_eq(field_type, "decimal") || str_eq(field_type, "currency")
        || str_eq(field_type, "percentage") || str_eq(field_type, "integer")
}

pub fn is_boolean_type(field_type: &str) -> (r: bool)
    ensures
        r == boolean_type(field_type@),
{
    str_eq(field_type, "boolean") || str_eq(field_type, "checkbox")
}

pub fn is_option_type(field_type: &str) -> (r: bool)
    ensures
        r == option_type(field_type@),
{
    str_eq(field_type, "select") || str_eq(field_type, "multi_select")
}

} // verus!
