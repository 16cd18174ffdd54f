//! The checks a field passes before it is stored: its name and type, the
//! single status field of an entity, the entity a reference field points
//! at, its computed expression and its rules, in that order.
use vstd::prelude::*;
use crate::error::{message_of, AppError, Failure};
use crate::field_rules::{rules_error, validate_field_rules, FieldRules};
use crate::metadata::is_valid_field_type;
use crate::repository::{
    computed_field_error, opt_str, snake_case, validate_computed_field, validate_field_name,
    validate_field_type,
};
use crate::text::{chars_of, push_str, str_eq, string_from, string_of, trim, trim_str};

verus! {

broadcast use vstd::string::group_string_axioms;

/// Why a status field is refused: `(true, m)` for a conflict, `(false, m)`
/// for a bad request. `taken` tells whether the entity has another status
/// field.
pub open spec fn status_problem(entity_id: Seq<char>, field_type: Seq<char>, is_status: bool, taken: bool) -> Option<(bool, Seq<char>)> {
    if !is_status {
        None
    } else if field_type != "select"@ {
        Some((false, "status field must be of type select"@))
    } else if taken {
        Some((true, "entity already has a status field: "@ + entity_id))
    } else {
        None
    }
}

/// An entity holds one status field, of type select.
pub fn check_status_field(entity_id: &str, field_type: &str, is_status: bool, taken: bool) -> (r: Result<(), AppError>)
    ensures
        match status_problem(entity_id@, field_type@, is_status, taken) {
            None => r is Ok,
            Some((conflict, m)) => r matches Err(e) && message_of(e) == m && (conflict ==> e is Conflict)
                && (!conflict ==> e is BadRequest),
        },
{
    if !is_status {
        return Ok(());
    }
    if !str_eq(field_type, "select") {
        return Err(AppError::BadRequest(string_from("status field must be of type select")));
    }
    if taken {
        let mut m = chars_of("entity already has a status field: ");
        push_str(&mut m, entity_id);
        return Err(AppError::Conflict(string_of(m.as_slice())));
    }
    Ok(())
}

/// The entity a field refers to: the trimmed `ref_entity`, unless blank.
pub open spec fn ref_target(ref_entity: Option<Seq<char>>) -> Option<Seq<char>> {
    match ref_entity {
        Some(s) => if trim(s).len() > 0 {
            Some(trim(s))
        } else {
            None
        },
        None => None,
    }
}

pub fn reference_target(ref_entity: Option<&str>) -> (r: Option<String>)
    ensures
        match ref_target(opt_str(ref_entity)) {
            Some(t) => r matches Some(x) && x@ == t,
            None => r is None,
        },
{
    match ref_entity {
        Some(s) => {
            let t = trim_str(s);
            if t.len() > 0 {
                Some(string_of(t.as_slice()))
            } else {
                None
            }
        },
        None => None,
    }
}

/// Why a reference is refused: `(true, m)` when its target entity does not
/// exist, `(false, m)` for a bad request. `exists` tells whether the
/// target entity exists.
pub open spec fn reference_problem(entity_id: Seq<char>, field_type: Seq<char>, ref_entity: Option<Seq<char>>, exists: bool) -> Option<(bool, Seq<char>)> {
    if field_type != "reference"@ {
        if ref_target(ref_entity) is Some {
            Some((false, "ref_entity is only valid for reference fields"@))
        } else {
            None
        }
    } else {
        match ref_target(ref_entity) {
            None => Some((false, "reference fields require a ref_entity"@)),
            Some(t) => if t == entity_id {
                Some((false, "reference field cannot point at its own entity"@))
            } else if !exists {
                Some((true, "entity not found: "@ + t))
            } else {
                None
            },
        }
    }
}

/// A reference field points at another, existing entity; other fields
/// point at none.
pub fn check_reference_field(entity_id: &str, field_type: &str, ref_entity: Option<&str>, exists: bool) -> (r:
    Result<(), AppError>)
    ensures
        match reference_problem(entity_id@, field_type@, opt_str(ref_entity), exists) {
            None => r is Ok,
            Some((missing, m)) => r matches Err(e) && message_of(e) == m && (missing ==> e is NotFound)
                && (!missing ==> e is BadRequest),
        },
{
    let target = reference_target(ref_entity);
    if !str_eq(field_type, "reference") {
        if target.is_some() {
            return Err(AppError::BadRequest(string_from("ref_entity is only valid for reference fields")));
        }
        return Ok(());
    }
    match target {
        None => Err(AppError::BadRequest(string_from("reference fields require a ref_entity"))),
        Some(t) => {
            if str_eq(t.as_str(), entity_id) {
                return Err(AppError::BadRequest(string_from("reference field cannot point at its own entity")));
            }
            if !exists {
                let mut m = chars_of("entity not found: ");
                push_str(&mut m, t.as_str());
                return Err(AppError::NotFound(string_of(m.as_slice())));
            }
            Ok(())
        },
    }
}

/// The checks of a new field, in order: name, type, status, reference,
/// computed expression, rules. `status_taken` and `ref_exists` are what the
/// store answers for the entity's other status field and for the
/// reference's target.
pub fn check_field_definition(
    entity_id: &str,
    name: &str,
    field_type: &str,
    is_status: bool,
    status_taken: bool,
    ref_entity: Option<&str>,
    ref_exists: bool,
    computed_expr: Option<&str>,
    rules: &FieldRules,
) -> (r: Result<(), Failure>)
    ensures
        !snake_case(name@) ==> (r is Err && (name@.len() == 0 ==> (r matches Err(Failure::Other(m))
            && m@ == "field name is required"@)) && (name@.len() > 0 ==> (r matches Err(
            Failure::App(e),
        ) && e is BadRequest && message_of(e)
            == "field name must be lowercase snake_case (e.g. work_order)"@))),
        snake_case(name@) && !is_valid_field_type(field_type@) ==> (r matches Err(Failure::App(e))
            && e is BadRequest && message_of(e) == "invalid field type: "@ + field_type@),
        snake_case(name@) && is_valid_field_type(field_type@) ==> match status_problem(
            entity_id@,
            field_type@,
            is_status,
            status_taken,
        ) {
            Some((conflict, m)) => r matches Err(Failure::App(e)) && message_of(e) == m && (conflict
                ==> e is Conflict) && (!conflict ==> e is BadRequest),
            None => match reference_problem(entity_id@, field_type@, opt_str(ref_entity), ref_exists) {
                Some((missing, m)) => r matches Err(Failure::App(e)) && message_of(e) == m && (missing
                    ==> e is NotFound) && (!missing ==> e is BadRequest),
                None => match computed_field_error(field_type@, opt_str(computed_expr)) {
                    Some(m) => r matches Err(Failure::App(e)) && e is BadRequest && message_of(e) == m,
                    None => match rules_error(field_type@, rules@) {
                        Some(m) => r matches Err(Failure::App(e)) && e is BadRequest && message_of(e)
                            == m,
                        None => r is Ok,
                    },
                },
            },
        },
{
    validate_field_name(name)?;
    match validate_field_type(field_type) {
        Ok(()) => {},
        Err(e) => {
            return Err(Failure::App(e));
        },
    }
    match check_status_field(entity_id, field_type, is_status, status_taken) {
        Ok(()) => {},
        Err(e) => {
            return Err(Failure::App(e));
        },
    }
    match check_reference_field(entity_id, field_type, ref_entity, ref_exists) {
        Ok(()) => {},
        Err(e) => {
            return Err(Failure::App(e));
        },
    }
    match validate_computed_field(field_type, computed_expr) {
        Ok(()) => {},
        Err(e) => {
            return Err(Failure::App(e));
        },
    }
    match validate_field_rules(field_type, rules) {
        Ok(()) => Ok(()),
        Err(e) => Err(Failure::App(e)),
    }
}

} // verus!
