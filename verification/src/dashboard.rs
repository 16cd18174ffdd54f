//! Dashboards: layouts of widgets over entities, and who may see them.
use vstd::prelude::*;
use crate::json::Json;
use crate::text::str_eq;

verus! {

broadcast use vstd::string::group_string_axioms;

pub struct Dashboard {
    pub id: String,
    pub name: String,
    pub description: String,
    pub layout: Json,
    pub filters: Json,
    pub roles: Vec<String>,
    pub users: Vec<String>,
    pub active: bool,
    pub created_by: Option<String>,
    pub created_at: String,
    pub updated_at: String,
}

pub struct DashboardWidget {
    pub id: String,
    pub kind: String,
    pub title: String,
    pub entity_id: String,
    pub config: Json,
    pub x: i64,
    pub y: i64,
    pub w: i64,
    pub h: i64,
}

pub open spec fn listed(v: Seq<String>, s: Seq<char>) -> bool {
    exists|i: int| 0 <= i < v.len() && (#[trigger] v[i])@ == s
}

/// Who sees a dashboard: nobody when it is inactive; otherwise
/// administrators, everyone when it names no roles and no users, and else
/// the roles and users it names.
pub open spec fn visible_to(d: Dashboard, user_id: Option<Seq<char>>, role: Seq<char>) -> bool {
    d.active && (role == "admin"@ || (d.roles@.len() == 0 && d.users@.len() == 0) || listed(
        d.roles@,
        role,
    ) || (user_id matches Some(u) && listed(d.users@, u)))
}

fn listed_exec(v: &Vec<String>, s: &str) -> (r: bool)
    ensures
        r == listed(v@, s@),
{
    let mut i: usize = 0;
    while i < v.len()
        invariant
            i <= v.len(),
            forall|k: int| 0 <= k < i ==> (#[trigger] v@[k])@ != s@,
        decreases v.len() - i,
    {
        if str_eq(v[i].as_str(), s) {
            return true;
        }
        i += 1;
    }
    false
}

pub fn can_view(d: &Dashboard, user_id: Option<&str>, role: &str) -> (r: bool)
    ensures
        r == visible_to(
            *d,
            match user_id {
                Some(u) => Some(u@),
                None => None,
            },
            role@,
        ),
{
    if !d.active {
        return false;
    }
    if str_eq(role, "admin") || d.roles.len() == 0 && d.users.len() == 0 {
        return true;
    }
    listed_exec(&d.roles, role) || match user_id {
        Some(u) => listed_exec(&d.users, u),
        None => false,
    }
}

} // verus!
