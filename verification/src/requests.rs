//! Request bodies and query strings of the HTTP interface, their defaults,
//! and the access decisions taken before a route runs.
use vstd::prelude::*;
use crate::error::AppError;
use crate::text::{chars_of, starts_with, starts_with_seq, str_eq, string_from, string_of, trim, trim_vec};

verus! {

broadcast use vstd::string::group_string_axioms;

pub struct CreateEntity {
    pub id: String,
    pub name: String,
    pub label: String,
}

pub struct ListDocumentsQuery {
    pub entity_id: String,
    pub limit: i64,
    pub offset: i64,
    pub search: Option<String>,
    pub status: Option<String>,
    pub sort_by: Option<String>,
    pub sort_dir: Option<String>,
    pub view_id: Option<String>,
}

pub struct EntityOptionsQuery {
    pub search: Option<String>,
    pub limit: i64,
}

pub struct CreateFieldOption {
    pub value: String,
    pub label: String,
}

pub struct UpdateFieldOption {
    pub value: String,
    pub label: String,
}

pub struct RollbackModuleRequest {
    pub version: i64,
}

pub struct CreateAutomationRequest {
    pub trigger: String,
    pub action: String,
    pub target_url: String,
    pub active: bool,
}

pub struct UpdatePermissionsRequest {
    pub permissions: Vec<PermissionEntry>,
}

pub struct PermissionEntry {
    pub role: String,
    pub can_view: bool,
    pub can_edit: bool,
}

pub struct UpdateFieldPermissionsRequest {
    pub permissions: Vec<FieldPermissionEntry>,
}

pub struct FieldPermissionEntry {
    pub field_id: String,
    pub role: String,
    pub can_view: bool,
    pub can_edit: bool,
}

pub struct CreateNotificationRule {
    pub trigger: String,
    pub target_url: String,
    pub active: bool,
}

pub struct UpdateNotificationRule {
    pub trigger: Option<String>,
    pub target_url: Option<String>,
    pub active: Option<bool>,
}

pub struct ListDeliveriesQuery {
    pub limit: i64,
    pub offset: i64,
}

pub struct CreateWorkflowState {
    pub name: String,
    pub label: String,
}

pub struct UpdateWorkflowState {
    pub label: String,
}

pub struct CreateWorkflowTransition {
    pub from_state: String,
    pub to_state: String,
    pub action: String,
    pub condition: String,
    pub required_role: String,
}

pub struct TransitionRequest {
    pub action: String,
    pub expected_updated_at: Option<String>,
}

pub struct DashboardQuery {
    pub entity_id: String,
}

pub struct ReportAggregateQuery {
    pub entity_id: String,
    pub group_by: String,
}

pub struct EventQuery {
    pub document_id: Option<String>,
    pub limit: Option<i64>,
    pub offset: Option<i64>,
}

pub struct AuditQuery {
    pub limit: i64,
    pub offset: i64,
}

pub struct CreateDocCommentRequest {
    pub body: String,
}

pub struct CreateDocActivityRequest {
    pub title: String,
    pub due_date: Option<String>,
    pub assignee: Option<String>,
}

pub struct GlobalAuditQuery {
    pub limit: i64,
    pub offset: i64,
    pub entity_id: Option<String>,
    pub action: Option<String>,
    pub search: Option<String>,
}

pub struct RegisterRequest {
    pub username: String,
    pub password: String,
}

pub struct LoginRequest {
    pub username: String,
    pub password: String,
}

pub struct CreateUserRequest {
    pub username: String,
    pub password: String,
    pub role: String,
}

pub struct UpdateUserRequest {
    pub role: String,
}

pub struct ResetPasswordRequest {
    pub password: String,
}

pub struct RestoreRequest {
    pub path: String,
    pub force: bool,
}

/// Listing query of the per-entity record routes.
pub struct DynamicListQuery {
    pub limit: i64,
    pub offset: i64,
    pub search: Option<String>,
    pub sort_by: Option<String>,
    pub sort_dir: Option<String>,
    pub view_id: Option<String>,
}

pub struct BulkDeleteBody {
    pub ids: Vec<String>,
}

// ---------------------------------------------------------------------------
// Defaults of omitted members
// ---------------------------------------------------------------------------

/// Page size when a listing does not say.
pub fn default_limit() -> (r: i64)
    ensures
        r == 50,
{
    50
}

/// Number of entity options returned when the query does not say.
pub fn default_options_limit() -> (r: i64)
    ensures
        r == 50,
{
    50
}

pub fn default_true() -> (r: bool)
    ensures
        r,
{
    true
}

/// `on_delete` of a relation update that does not name one.
pub fn default_relation_delete() -> (r: String)
    ensures
        r@ == "restrict"@,
{
    string_from("restrict")
}

/// Whether a notification rule that does not say is active: it is.
pub fn default_rule_active() -> (r: bool)
    ensures
        r,
{
    true
}

/// Trigger of a notification rule that does not name one.
pub fn default_rule_trigger() -> (r: String)
    ensures
        r@ == "transition"@,
{
    string_from("transition")
}

/// Role of a created user that is not given one.
pub fn default_user_role() -> (r: String)
    ensures
        r@ == "user"@,
{
    string_from("user")
}

// ---------------------------------------------------------------------------
// Access
// ---------------------------------------------------------------------------

/// Routes that answer without a session.
pub open spec fn public_path(path: Seq<char>) -> bool {
    path == "/health"@ || path == "/v1/version"@ || path == "/v1/auth/register"@ || path
        == "/v1/auth/login"@ || path == "/v1/auth/status"@
}

/// Routes reserved to administrators.
pub open spec fn admin_path(path: Seq<char>) -> bool {
    starts_with(path, "/v1/meta/"@) || starts_with(path, "/v1/admin/"@)
}

pub fn is_public_path(path: &str) -> (r: bool)
    ensures
        r == public_path(path@),
{
    str_eq(path, "/health") || str_eq(path, "/v1/version") || str_eq(path, "/v1/auth/register")
        || str_eq(path, "/v1/auth/login") || str_eq(path, "/v1/auth/status")
}

/// Lets a signed-in user with `role` through to `path`: administrators
/// everywhere, others everywhere but the administration routes.
pub fn authorize(path: &str, role: &str) -> (r: Result<(), AppError>)
    ensures
        r is Ok <==> !(admin_path(path@) && role@ != "admin"@),
        r matches Err(e) ==> e == AppError::Forbidden(e->Forbidden_0) && e->Forbidden_0@
            == "admin role required"@,
{
    let p = chars_of(path);
    let admin = starts_with_seq(&p, &chars_of("/v1/meta/")) || starts_with_seq(
        &p,
        &chars_of("/v1/admin/"),
    );
    if admin && !str_eq(role, "admin") {
        return Err(AppError::Forbidden(string_from("admin role required")));
    }
    Ok(())
}

/// The session token of an `Authorization` header value: what follows
/// `Bearer `, trimmed, when that is not empty.
pub open spec fn bearer_of(header: Option<Seq<char>>) -> Option<Seq<char>> {
    match header {
        Some(h) => if starts_with(h, "Bearer "@) && trim(h.skip(7)).len() > 0 {
            Some(trim(h.skip(7)))
        } else {
            None
        },
        None => None,
    }
}

pub fn bearer_token(header: Option<&str>) -> (r: Result<String, AppError>)
    ensures
        match bearer_of(
            match header {
                Some(h) => Some(h@),
                None => None,
            },
        ) {
            Some(t) => r matches Ok(s) && s@ == t,
            None => r matches Err(e) && e == AppError::Unauthorized(e->Unauthorized_0)
                && e->Unauthorized_0@ == "missing bearer token"@,
        },
{
    proof {
        reveal_strlit("Bearer ");
    }
    if let Some(h) = header {
        let v = chars_of(h);
        if starts_with_seq(&v, &chars_of("Bearer ")) {
            let rest = crate::text::slice_chars(&v, 7, v.len());
            assert(rest@ == h@.skip(7));
            let t = trim_vec(&rest);
            if t.len() > 0 {
                return Ok(string_of(t.as_slice()));
            }
        }
    }
    Err(AppError::Unauthorized(string_from("missing bearer token")))
}

} // verus!
