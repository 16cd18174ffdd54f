//! Roles: the built-in and user-defined roles that permissions are granted
//! to, and the rules for naming them.
use vstd::prelude::*;
use crate::error::Failure;
use crate::text::{chars_of, is_digit, is_digit_char, is_lower, is_lower_char, push_all, string_from, string_of, trim, trim_str};

verus! {

broadcast use vstd::string::group_string_axioms;

pub struct Role {
    pub id: String,
    pub name: String,
    pub label: String,
    pub description: String,
    pub system: bool,
    pub created_at: String,
}

/// Lowercase letters, digits, `_` and `-`.
pub open spec fn role_name_chars(s: Seq<char>) -> bool {
    forall|i: int| 0 <= i < s.len() ==> is_lower(#[trigger] s[i]) || is_digit(s[i]) || s[i] == '_'
        || s[i] == '-'
}

#[verifier::loop_isolation(false)]
/// A new role's name and label, trimmed, when both are present and the name
/// uses lowercase letters, digits, `_` and `-` only.
pub fn check_new_role(name: &str, label: &str) -> (r: Result<(String, String), Failure>)
    ensures
        (trim(name@).len() == 0 || trim(label@).len() == 0) ==> (r matches Err(Failure::Other(m))
            && m@ == "role name and label are required"@),
        (trim(name@).len() > 0 && trim(label@).len() > 0 && !role_name_chars(trim(name@))) ==> (
        r matches Err(Failure::Other(m)) && m@
            == "role name must contain lowercase letters, digits, '_' or '-'"@),
        (trim(name@).len() > 0 && trim(label@).len() > 0 && role_name_chars(trim(name@))) ==> (
        r matches Ok(p) && p.0@ == trim(name@) && p.1@ == trim(label@)),
{
    let n = trim_str(name);
    let l = trim_str(label);
    if n.len() == 0 || l.len() == 0 {
        return Err(Failure::Other(string_from("role name and label are required")));
    }
    let mut i: usize = 0;
    while i < n.len()
        invariant
            i <= n.len(),
            forall|k: int| 0 <= k < i ==> is_lower(#[trigger] n@[k]) || is_digit(n@[k]) || n@[k]
                == '_' || n@[k] == '-',
        decreases n.len() - i,
    {
        let c = n[i];
        if !(is_lower_char(c) || is_digit_char(c) || c == '_' || c == '-') {
            return Err(
                Failure::Other(
                    string_from("role name must contain lowercase letters, digits, '_' or '-'"),
                ),
            );
        }
        i += 1;
    }
    Ok((string_of(n.as_slice()), string_of(l.as_slice())))
}

/// The id of a role: `role_` and its name.
pub fn role_id(name: &str) -> (r: String)
    ensures
        r@ == "role_"@ + name@,
{
    let mut m = chars_of("role_");
    push_all(&mut m, &chars_of(name));
    string_of(m.as_slice())
}

/// Built-in roles cannot be changed or removed.
pub fn check_role_change(role: &Role, deleting: bool) -> (r: Result<(), Failure>)
    ensures
        !role.system ==> r is Ok,
        role.system ==> (r matches Err(Failure::Other(m)) && m@ == if deleting {
            "system role cannot be deleted"@
        } else {
            "system role cannot be modified"@
        }),
{
    if role.system {
        if deleting {
            return Err(Failure::Other(string_from("system role cannot be deleted")));
        }
        return Err(Failure::Other(string_from("system role cannot be modified")));
    }
    Ok(())
}

} // verus!
