//! Records of the runtime (modules, fields, documents, reports, attachments)
//! and the validation rules applied before anything is stored.
use vstd::prelude::*;
use crate::error::{bad_request, message_of, AppError, Failure};
use crate::json::{clone_json, get_spec, json_text, jv, member, members_v, opt_jv, to_text, Json};
use crate::metadata::{is_valid_field_type, validate_field_type as metadata_validate_field_type};
use crate::text::{
    chars_of, contains_char, decimal, has_char, is_digit, is_digit_char, is_lower, is_lower_char, push_all, push_str, seq_eq, slice_chars, str_eq, string_from, string_of, trim, trim_str, trim_vec,
};

verus! {

broadcast use vstd::string::group_string_axioms;

/// Largest attachment accepted, in bytes.
pub const ATTACHMENT_MAX_BYTES: usize = 5242880;

// ---------------------------------------------------------------------------
// Records
// ---------------------------------------------------------------------------

pub struct Entity {
    pub id: String,
    pub name: String,
    pub label: String,
    pub module: Option<String>,
}

pub struct FieldOption {
    pub id: String,
    pub value: String,
    pub label: String,
}

/// A field of an entity. Bounds are `f64` values kept as IEEE-754 bits.
pub struct Field {
    pub id: String,
    pub name: String,
    pub field_type: String,
    pub required: bool,
    pub is_status: bool,
    pub position: i64,
    pub ref_entity: Option<String>,
    pub computed_expr: Option<String>,
    pub is_unique: bool,
    pub min_value: Option<u64>,
    pub max_value: Option<u64>,
    pub pattern: Option<String>,
    pub min_length: Option<i64>,
    pub max_length: Option<i64>,
    pub default_value: Option<String>,
    pub auto_number_prefix: Option<String>,
    pub auto_number_width: Option<i64>,
    pub options: Vec<FieldOption>,
}

pub struct FieldPermission {
    pub field_id: String,
    pub role: String,
    pub can_view: bool,
    pub can_edit: bool,
}

pub struct EntityPermission {
    pub role: String,
    pub can_view: bool,
    pub can_edit: bool,
}

pub struct EntityOption {
    pub id: String,
    pub label: String,
}

pub struct DocComment {
    pub id: String,
    pub entity_id: String,
    pub doc_id: String,
    pub body: String,
    pub actor: Option<String>,
    pub created_at: String,
}

pub struct DocCommentList {
    pub items: Vec<DocComment>,
    pub total: i64,
}

pub struct DocFollowerList {
    pub followers: Vec<String>,
    pub total: i64,
    pub is_following: bool,
}

pub struct DocActivity {
    pub id: String,
    pub entity_id: String,
    pub doc_id: String,
    pub title: String,
    pub due_date: Option<String>,
    pub assignee: Option<String>,
    pub done: bool,
    pub actor: Option<String>,
    pub created_at: String,
}

pub struct DocActivityList {
    pub items: Vec<DocActivity>,
    pub total: i64,
    pub open: i64,
}

pub struct DocAttachment {
    pub id: String,
    pub entity_id: String,
    pub doc_id: String,
    pub filename: String,
    pub content_type: String,
    pub size: i64,
    pub actor: Option<String>,
    pub created_at: String,
}

pub struct DocAttachmentList {
    pub items: Vec<DocAttachment>,
    pub total: i64,
}

pub struct DocAttachmentData {
    pub filename: String,
    pub content_type: String,
    pub data: Vec<u8>,
}

pub struct GlobalAuditFilter {
    pub entity_id: Option<String>,
    pub action: Option<String>,
    pub search: Option<String>,
}

pub struct WorkflowState {
    pub id: String,
    pub name: String,
    pub label: String,
    pub position: i64,
}

pub struct WorkflowTransition {
    pub id: String,
    pub action: String,
    pub from_state: String,
    pub to_state: String,
}

pub struct WorkflowDefinition {
    pub states: Vec<WorkflowState>,
    pub transitions: Vec<WorkflowTransition>,
}

pub struct NotificationRule {
    pub id: String,
    pub entity_id: String,
    pub trigger: String,
    pub target_url: String,
    pub active: bool,
    pub created_at: String,
}

pub struct StatusCount {
    pub status: String,
    pub count: i64,
}

pub struct PmSummary {
    pub open: i64,
    pub overdue: i64,
    pub done_this_week: i64,
    pub total: i64,
}

pub struct Module {
    pub id: String,
    pub name: String,
    pub label: String,
    pub description: String,
    pub icon: String,
    pub color: String,
    pub owner: String,
    pub status: String,
    pub version: i64,
    pub definition: Json,
    pub created_by: Option<String>,
    pub created_at: String,
    pub updated_at: String,
}

pub struct Automation {
    pub id: String,
    pub entity_id: String,
    pub trigger: String,
    pub action: String,
    pub target_url: String,
    pub active: bool,
    pub created_at: String,
}

pub struct MultiImportSheetResult {
    pub entity_id: String,
    pub created: usize,
    pub updated: usize,
}

pub struct MultiImportResult {
    pub sheets: Vec<MultiImportSheetResult>,
}

pub struct ImportResult {
    pub created: usize,
    pub updated: usize,
}

pub struct ListDocumentsFilter {
    pub search: Option<String>,
    pub status: Option<String>,
    pub sort_by: Option<String>,
    pub sort_dir: Option<String>,
    pub view_id: Option<String>,
}

pub struct ModuleAction {
    pub id: String,
    pub entity_id: String,
    pub kind: String,
    pub label: String,
}

// ---------------------------------------------------------------------------
// Names
// ---------------------------------------------------------------------------

/// Lowercase snake_case: a lowercase letter, then lowercase letters, digits
/// and underscores.
pub open spec fn snake_case(s: Seq<char>) -> bool {
    s.len() > 0 && is_lower(s[0]) && forall|i: int|
        1 <= i < s.len() ==> is_lower(#[trigger] s[i]) || is_digit(s[i]) || s[i] == '_'
}

fn snake_case_exec(v: &Vec<char>) -> (r: bool)
    ensures
        r == snake_case(v@),
{
    if v.len() == 0 || !is_lower_char(v[0]) {
        return false;
    }
    let mut i: usize = 1;
    while i < v.len()
        invariant
            1 <= i <= v.len(),
            forall|k: int| 1 <= k < i ==> is_lower(#[trigger] v@[k]) || is_digit(v@[k]) || v@[k]
                == '_',
        decreases v.len() - i,
    {
        if !(is_lower_char(v[i]) || is_digit_char(v[i]) || v[i] == '_') {
            return false;
        }
        i += 1;
    }
    true
}

/// A field name must be snake_case; an empty name is a plain error, any
/// other invalid name a bad request.
pub fn validate_field_name(name: &str) -> (r: Result<(), Failure>)
    ensures
        r is Ok <==> snake_case(name@),
        name@.len() == 0 ==> (r matches Err(Failure::Other(m)) && m@ == "field name is required"@),
        name@.len() > 0 && !snake_case(name@) ==> (r matches Err(Failure::App(e)) && e is BadRequest
            && message_of(e) == "field name must be lowercase snake_case (e.g. work_order)"@),
{
    let v = chars_of(name);
    if v.len() == 0 {
        return Err(Failure::Other(string_from("field name is required")));
    }
    if !snake_case_exec(&v) {
        return Err(
            Failure::App(bad_request("field name must be lowercase snake_case (e.g. work_order)")),
        );
    }
    Ok(())
}

pub fn validate_module_name(name: &str) -> (r: Result<(), AppError>)
    ensures
        r is Ok <==> snake_case(name@),
        r matches Err(e) ==> e is BadRequest && message_of(e)
            == "module name must be lowercase snake_case (e.g. vehicle)"@,
{
    match validate_field_name(name) {
        Ok(()) => Ok(()),
        Err(_) => Err(bad_request("module name must be lowercase snake_case (e.g. vehicle)")),
    }
}

pub fn validate_state_name(name: &str) -> (r: Result<(), AppError>)
    ensures
        r is Ok <==> snake_case(name@),
        r matches Err(e) ==> e is BadRequest && message_of(e)
            == "state name must be lowercase snake_case (e.g. open)"@,
{
    match validate_field_name(name) {
        Ok(()) => Ok(()),
        Err(_) => Err(bad_request("state name must be lowercase snake_case (e.g. open)")),
    }
}

pub fn validate_action_name(action: &str) -> (r: Result<(), AppError>)
    ensures
        r is Ok <==> snake_case(action@),
        r matches Err(e) ==> e is BadRequest && message_of(e)
            == "action must be lowercase snake_case (e.g. submit)"@,
{
    match validate_field_name(action) {
        Ok(()) => Ok(()),
        Err(_) => Err(bad_request("action must be lowercase snake_case (e.g. submit)")),
    }
}

pub fn validate_field_type(field_type: &str) -> (r: Result<(), AppError>)
    ensures
        r is Ok <==> is_valid_field_type(field_type@),
        r matches Err(e) ==> e is BadRequest && message_of(e) == "invalid field type: "@ + field_type@,
{
    metadata_validate_field_type(field_type)
}

/// Admins reach every module; others reach modules without an owner or
/// owned by them (the owner compared after trimming).
pub open spec fn module_access(module_owner: Seq<char>, owner: Seq<char>, role: Seq<char>) -> bool {
    role == "admin"@ || trim(module_owner).len() == 0 || module_owner == trim(owner)
}

pub fn check_module_access(module: &Module, owner: &str, role: &str) -> (r: Result<(), AppError>)
    ensures
        r is Ok <==> module_access(module.owner@, owner@, role@),
        r matches Err(e) ==> e is Forbidden,
{
    if str_eq(role, "admin") {
        return Ok(());
    }
    let module_owner = chars_of(module.owner.as_str());
    if trim_vec(&module_owner).len() != 0 && !seq_eq(&module_owner, &trim_str(owner)) {
        let id = chars_of(module.id.as_str());
        let mut m = chars_of("no access to module: ");
        push_all(&mut m, &id);
        return Err(AppError::Forbidden(string_of(m.as_slice())));
    }
    Ok(())
}

/// Modules of the runtime have no built-in domain engines.
pub fn domain_extensions() -> (r: Vec<&'static str>)
    ensures
        r@.len() == 0,
{
    Vec::new()
}

// ---------------------------------------------------------------------------
// Computed fields
// ---------------------------------------------------------------------------

/// A computed field needs an expression that references a field (holds `{`
/// and `}`); any other field type must not have one.
pub open spec fn computed_field_ok(field_type: Seq<char>, expr: Option<Seq<char>>) -> bool {
    if field_type != "computed"@ {
        !(expr matches Some(e) && trim(e).len() > 0)
    } else {
        expr matches Some(e) && trim(e).len() > 0 && has_char(trim(e), '{') && has_char(
            trim(e),
            '}',
        )
    }
}

pub open spec fn opt_str(o: Option<&str>) -> Option<Seq<char>> {
    match o {
        Some(s) => Some(s@),
        None => None,
    }
}

/// The message of the error for a field type and expression, if any.
pub open spec fn computed_field_error(field_type: Seq<char>, expr: Option<Seq<char>>) -> Option<
    Seq<char>,
> {
    let t = match expr {
        Some(e) => trim(e),
        None => Seq::empty(),
    };
    if field_type != "computed"@ {
        if t.len() > 0 {
            Some("computed_expr is only valid for computed fields"@)
        } else {
            None
        }
    } else if t.len() == 0 {
        Some("computed fields require a computed_expr"@)
    } else if !has_char(t, '{') || !has_char(t, '}') {
        Some("computed_expr must reference fields like {title}"@)
    } else {
        None
    }
}

pub fn validate_computed_field(field_type: &str, computed_expr: Option<&str>) -> (r: Result<
    (),
    AppError,
>)
    ensures
        r is Ok <==> computed_field_ok(field_type@, opt_str(computed_expr)),
        match computed_field_error(field_type@, opt_str(computed_expr)) {
            None => r is Ok,
            Some(m) => r matches Err(e) && e is BadRequest && message_of(e) == m,
        },
{
    let trimmed = match computed_expr {
        Some(e) => trim_str(e),
        None => Vec::new(),
    };
    if !str_eq(field_type, "computed") {
        if trimmed.len() > 0 {
            return Err(bad_request("computed_expr is only valid for computed fields"));
        }
        return Ok(());
    }
    if trimmed.len() == 0 {
        return Err(bad_request("computed fields require a computed_expr"));
    }
    if !contains_char(&trimmed, '{') || !contains_char(&trimmed, '}') {
        return Err(bad_request("computed_expr must reference fields like {title}"));
    }
    Ok(())
}

/// `str::trim_matches('"')`.
pub open spec fn trim_quotes(s: Seq<char>) -> Seq<char>
    decreases s.len(),
{
    if s.len() > 0 && s[0] == '"' {
        trim_quotes(s.drop_first())
    } else if s.len() > 0 && s.last() == '"' {
        trim_quotes(s.drop_last())
    } else {
        s
    }
}

fn trim_quotes_exec(v: &Vec<char>) -> (r: Vec<char>)
    ensures
        r@ == trim_quotes(v@),
    decreases v.len(),
{
    if v.len() > 0 && v[0] == '"' {
        let rest = slice_chars(v, 1, v.len());
        assert(rest@ =~= v@.drop_first());
        trim_quotes_exec(&rest)
    } else if v.len() > 0 && v[v.len() - 1] == '"' {
        let rest = slice_chars(v, 0, v.len() - 1);
        assert(rest@ =~= v@.drop_last());
        trim_quotes_exec(&rest)
    } else {
        v.clone()
    }
}

/// The text a payload value stands for in a computed field: strings as
/// themselves, null as nothing, anything else as its JSON text without
/// surrounding quotes; a missing key gives nothing.
pub open spec fn field_text(v: Option<Json>) -> Seq<char> {
    match v {
        None => Seq::empty(),
        Some(Json::String(s)) => s@,
        Some(Json::Null) => Seq::empty(),
        Some(other) => trim_quotes(json_text(other)),
    }
}

/// `{key}` placeholders replaced by payload values, left to right; text
/// after an unclosed `{` is kept as it is.
pub open spec fn interpolate(s: Seq<char>, payload: Json) -> Seq<char>
    decreases s.len(),
{
    let start = crate::text::find_char_from(s, 0, '{');
    if start < 0 || start >= s.len() {
        s
    } else {
        let after = s.subrange(start + 1, s.len() as int);
        let end = crate::text::find_char_from(after, 0, '}');
        if end < 0 || end >= after.len() {
            s
        } else {
            s.subrange(0, start) + field_text(
                get_spec(payload, trim(after.subrange(0, end))),
            ) + interpolate(after.subrange(end + 1, after.len() as int), payload)
        }
    }
}

/// Interpolates a computed field's template from a payload.
pub fn compute_field_value(expr: &str, payload: &Json) -> (r: String)
    ensures
        r@ == interpolate(expr@, *payload),
{
    let mut rest = chars_of(expr);
    let mut output: Vec<char> = Vec::new();
    loop
        invariant
            interpolate(expr@, *payload) == output@ + interpolate(rest@, *payload),
        decreases rest.len(),
    {
        let ghost old_rest = rest@;
        let ghost old_out = output@;
        let start = crate::text::find_char(&rest, 0, '{');
        if start >= rest.len() {
            push_all(&mut output, &rest);
            return string_of(output.as_slice());
        }
        let after = slice_chars(&rest, start + 1, rest.len());
        let end = crate::text::find_char(&after, 0, '}');
        if end >= after.len() {
            push_all(&mut output, &rest);
            return string_of(output.as_slice());
        }
        let head = slice_chars(&rest, 0, start);
        push_all(&mut output, &head);
        let key = string_of(trim_vec(&slice_chars(&after, 0, end)).as_slice());
        let value: Vec<char> = match payload.get(key.as_str()) {
            Some(Json::String(s)) => chars_of(s.as_str()),
            Some(Json::Null) => Vec::new(),
            Some(other) => trim_quotes_exec(&to_text(other)),
            None => Vec::new(),
        };
        push_all(&mut output, &value);
        rest = slice_chars(&after, end + 1, after.len());
        assert(output@ + interpolate(rest@, *payload) =~= old_out + interpolate(old_rest, *payload));
    }
}

/// Computed fields of a record: each `computed` field with an expression,
/// in field order.
pub open spec fn computed_of(fields: Seq<Field>) -> Seq<(Seq<char>, Seq<char>)>
    decreases fields.len(),
{
    if fields.len() == 0 {
        Seq::empty()
    } else {
        let rest = computed_of(fields.drop_first());
        let f = fields[0];
        if f.field_type@ == "computed"@ && f.computed_expr is Some {
            seq![(f.name@, f.computed_expr->Some_0@)] + rest
        } else {
            rest
        }
    }
}

/// Sets member `key` of an object to `v` (`Map::insert`): the first member
/// with the key is replaced, or the member is appended.
pub fn insert_member(entries: &mut Vec<(String, Json)>, key: String, v: Json)
    ensures
        member(final(entries)@, key@) == Some(v),
        forall|k: Seq<char>| k != key@ ==> member(final(entries)@, k) == member(old(entries)@, k),
{
    let k = chars_of(key.as_str());
    let mut i: usize = 0;
    while i < entries.len()
        invariant
            i <= entries.len(),
            forall|j: int| 0 <= j < i ==> entries@[j].0@ != key@,
            k@ == key@,
            entries@ == old(entries)@,
        decreases entries.len() - i,
    {
        if seq_eq(&chars_of(entries[i].0.as_str()), &k) {
            let ghost before = entries@;
            entries.set(i, (key, v));
            proof {
                assert(entries@ == before.update(i as int, entries@[i as int]));
                assert forall|k2: Seq<char>| k2 != key@ implies member(entries@, k2) == member(before, k2) by {
                    lemma_member_update(before, i as int, entries@[i as int], k2);
                }
                lemma_member_update(before, i as int, entries@[i as int], key@);
            }
            return;
        }
        i += 1;
    }
    let ghost before = entries@;
    entries.push((key, v));
    proof {
        assert(entries@ == before.push(entries@[before.len() as int]));
        assert forall|k2: Seq<char>| k2 != key@ implies member(entries@, k2) == member(before, k2) by {
            lemma_member_push(before, entries@[before.len() as int], k2);
        }
        lemma_member_push(before, entries@[before.len() as int], key@);
    }
}

/// Objects with equal deep views have members with equal deep views.
pub proof fn lemma_member_members_v(a: Seq<(String, Json)>, b: Seq<(String, Json)>, k: Seq<char>)
    requires
        members_v(a) == members_v(b),
    ensures
        opt_jv(member(a, k)) == opt_jv(member(b, k)),
    decreases a.len(),
{
    lemma_members_v_len(a);
    lemma_members_v_len(b);
    if a.len() > 0 {
        lemma_members_v_first(a);
        lemma_members_v_first(b);
        assert(members_v(a.drop_first()) =~= members_v(a).drop_first());
        assert(members_v(b.drop_first()) =~= members_v(b).drop_first());
        assert(members_v(a)[0] == members_v(b)[0]);
        lemma_member_members_v(a.drop_first(), b.drop_first(), k);
    }
}

pub proof fn lemma_members_v_len(a: Seq<(String, Json)>)
    ensures
        members_v(a).len() == a.len(),
    decreases a.len(),
{
    if a.len() > 0 {
        lemma_members_v_len(a.drop_last());
    }
}

pub proof fn lemma_members_v_first(a: Seq<(String, Json)>)
    requires
        a.len() > 0,
    ensures
        members_v(a) == seq![(a[0].0@, jv(a[0].1))] + members_v(a.drop_first()),
    decreases a.len(),
{
    if a.len() > 1 {
        lemma_members_v_first(a.drop_last());
        assert(a.drop_last().drop_first() =~= a.drop_first().drop_last());
        assert(members_v(a) =~= seq![(a[0].0@, jv(a[0].1))] + members_v(a.drop_first()));
    } else {
        assert(a.drop_first() =~= Seq::<(String, Json)>::empty());
        assert(a.drop_last() =~= Seq::<(String, Json)>::empty());
        assert(members_v(a) =~= seq![(a[0].0@, jv(a[0].1))] + members_v(a.drop_first()));
    }
}

proof fn lemma_member_update(e: Seq<(String, Json)>, i: int, p: (String, Json), k: Seq<char>)
    requires
        0 <= i < e.len(),
        e[i].0@ == p.0@,
        forall|j: int| 0 <= j < i ==> e[j].0@ != p.0@,
    ensures
        k == p.0@ ==> member(e.update(i, p), k) == Some(p.1),
        k != p.0@ ==> member(e.update(i, p), k) == member(e, k),
    decreases e.len(),
{
    let u = e.update(i, p);
    if i > 0 {
        assert(u.drop_first() =~= e.drop_first().update(i - 1, p));
        assert(u[0] == e[0]);
        lemma_member_update(e.drop_first(), i - 1, p, k);
    } else {
        assert(u.drop_first() =~= e.drop_first());
        assert(u[0] == p);
    }
}

proof fn lemma_member_push(e: Seq<(String, Json)>, p: (String, Json), k: Seq<char>)
    requires
        forall|j: int| 0 <= j < e.len() ==> e[j].0@ != p.0@,
    ensures
        k == p.0@ ==> member(e.push(p), k) == Some(p.1),
        k != p.0@ ==> member(e.push(p), k) == member(e, k),
    decreases e.len(),
{
    let u = e.push(p);
    if e.len() > 0 {
        assert(u.drop_first() =~= e.drop_first().push(p));
        assert(u[0] == e[0]);
        lemma_member_push(e.drop_first(), p, k);
    } else {
        assert(u.drop_first() =~= Seq::<(String, Json)>::empty());
        assert(u[0] == p);
        assert(member(u.drop_first(), k) is None);
    }
}

/// The members of a JSON value when it is an object, else none.
pub open spec fn object_members(v: Json) -> Seq<(String, Json)> {
    match v {
        Json::Object(e) => e@,
        _ => Seq::empty(),
    }
}

/// Index of the last computed entry before `n` that sets `k`, or -1.
pub open spec fn last_before(c: Seq<(Seq<char>, Seq<char>)>, k: Seq<char>, n: int) -> int
    decreases n,
{
    if n <= 0 {
        -1
    } else if c[n - 1].0 == k {
        n - 1
    } else {
        last_before(c, k, n - 1)
    }
}

proof fn lemma_last_before(c: Seq<(Seq<char>, Seq<char>)>, k: Seq<char>, n: int)
    requires
        0 <= n <= c.len(),
    ensures
        -1 <= last_before(c, k, n) < n,
        last_before(c, k, n) >= 0 ==> c[last_before(c, k, n)].0 == k,
        last_before(c, k, n) == -1 <==> forall|j: int| 0 <= j < n ==> c[j].0 != k,
    decreases n,
{
    if n > 0 {
        lemma_last_before(c, k, n - 1);
    }
}

/// The member that computed field `k` holds after applying `c` over
/// `payload`: the interpolation of the last computed entry for `k`, or the
/// payload's own member when no entry sets `k`.
pub open spec fn computed_member_ok(
    r: Seq<(String, Json)>,
    c: Seq<(Seq<char>, Seq<char>)>,
    payload: Json,
    k: Seq<char>,
    n: int,
) -> bool {
    let j = last_before(c, k, n);
    if j >= 0 {
        member(r, k) matches Some(Json::String(s)) && s@ == interpolate(c[j].1, payload)
    } else {
        opt_jv(member(r, k)) == opt_jv(member(object_members(payload), k))
    }
}

/// A payload with every computed field set from its template (computed from
/// the payload as given). A payload that is not an object starts from an
/// empty object; with no computed fields the payload is returned as it is.
pub fn apply_computed_fields(fields: &Vec<Field>, payload: &Json) -> (r: Json)
    ensures
        computed_of(fields@).len() == 0 ==> jv(r) == jv(*payload),
        computed_of(fields@).len() > 0 ==> r is Object && forall|k: Seq<char>|
            #[trigger] computed_member_ok(object_members(r), computed_of(fields@), *payload, k, computed_of(fields@).len() as int),
{
    let ghost c = computed_of(fields@);
    let mut computed: Vec<(String, String)> = Vec::new();
    let mut i: usize = 0;
    assert(fields@.skip(0) =~= fields@);
    while i < fields.len()
        invariant
            i <= fields.len(),
            c == computed_of(fields@),
            c == computed.view().map_values(|p: (String, String)| (p.0@, p.1@)) + computed_of(fields@.skip(i as int)),
        decreases fields.len() - i,
    {
        let ghost before = computed.view().map_values(|p: (String, String)| (p.0@, p.1@));
        assert(fields@.skip(i as int).drop_first() =~= fields@.skip(i + 1));
        assert(fields@.skip(i as int)[0] == fields@[i as int]);
        let f = &fields[i];
        if str_eq(f.field_type.as_str(), "computed") {
            match &f.computed_expr {
                Some(e) => {
                    computed.push((f.name.clone(), e.clone()));
                    assert(computed.view().map_values(|p: (String, String)| (p.0@, p.1@)) =~= before.push((f.name@, e@)));
                    assert(before.push((f.name@, e@)) + computed_of(fields@.skip(i + 1)) =~= before + (seq![(f.name@, e@)] + computed_of(fields@.skip(i + 1))));
                },
                None => {},
            }
        }
        i += 1;
    }
    assert(computed_of(fields@.skip(fields.len() as int)) =~= Seq::<(Seq<char>, Seq<char>)>::empty());
    assert(c =~= computed.view().map_values(|p: (String, String)| (p.0@, p.1@)));
    if computed.len() == 0 {
        return clone_json(payload);
    }
    let mut object: Vec<(String, Json)> = match payload {
        Json::Object(e) => match clone_json(payload) {
            Json::Object(e2) => e2,
            _ => Vec::new(),
        },
        _ => Vec::new(),
    };
    assert(members_v(object@) == members_v(object_members(*payload)));
    proof {
        assert forall|k: Seq<char>| #[trigger] computed_member_ok(object@, c, *payload, k, 0) by {
            lemma_member_members_v(object@, object_members(*payload), k);
        }
    }
    let mut j: usize = 0;
    while j < computed.len()
        invariant
            j <= computed.len(),
            c == computed.view().map_values(|p: (String, String)| (p.0@, p.1@)),
            forall|k: Seq<char>| #[trigger] computed_member_ok(object@, c, *payload, k, j as int),
        decreases computed.len() - j,
    {
        let value = compute_field_value(computed[j].1.as_str(), payload);
        let ghost before = object@;
        let ghost name = computed[j as int].0@;
        insert_member(&mut object, computed[j].0.clone(), Json::String(value));
        assert forall|k: Seq<char>| #[trigger] computed_member_ok(object@, c, *payload, k, j + 1) by {
            assert(computed_member_ok(before, c, *payload, k, j as int));
            assert(c[j as int].0 == name);
        }
        j += 1;
    }
    Json::Object(object)
}

/// A notification rule as stored: active unless its flag is zero.
pub fn notification_rule_row(
    id: String,
    entity_id: String,
    trigger: String,
    target_url: String,
    active: i64,
    created_at: String,
) -> (r: NotificationRule)
    ensures
        r == (NotificationRule { id, entity_id, trigger, target_url, active: active != 0, created_at }),
{
    NotificationRule { id, entity_id, trigger, target_url, active: active != 0, created_at }
}

/// An attachment as stored.
pub fn attachment_row(
    id: String,
    entity_id: String,
    doc_id: String,
    filename: String,
    content_type: String,
    size: i64,
    actor: Option<String>,
    created_at: String,
) -> (r: DocAttachment)
    ensures
        r == (DocAttachment { id, entity_id, doc_id, filename, content_type, size, actor, created_at }),
{
    DocAttachment { id, entity_id, doc_id, filename, content_type, size, actor, created_at }
}

/// The decimal text of the nanoseconds since 1970-01-01 as the clock reads
/// them (`SystemTime::now`; 0 for a clock set before then).
#[verifier::external_body]
fn unix_nanos_text() -> (r: String)
    ensures
        exists|n: nat| r@ == decimal(n),
{
    std::time::SystemTime::now().duration_since(std::time::UNIX_EPOCH).map(|d| d.as_nanos()).unwrap_or(0).to_string()
}

/// The id of an audit entry: the document, the action and the time in
/// nanoseconds.
pub fn audit_id(doc_id: &str, action: &str) -> (r: String)
    ensures
        exists|n: nat| r@ == doc_id@ + "-"@ + action@ + "-"@ + decimal(n),
{
    let t = unix_nanos_text();
    let mut m = chars_of(doc_id);
    push_str(&mut m, "-");
    push_str(&mut m, action);
    push_str(&mut m, "-");
    push_str(&mut m, t.as_str());
    string_of(m.as_slice())
}

/// Milliseconds since 1970-01-01 as the clock reads them (0 for a clock
/// set before then).
#[verifier::external_body]
fn unix_millis() -> (r: u64) {
    std::time::SystemTime::now().duration_since(std::time::UNIX_EPOCH).map(|d| d.as_millis() as u64).unwrap_or(0)
}

/// A source of ids made of the time in milliseconds and a counter, so that
/// ids taken within one millisecond differ.
pub struct NanoClock {
    pub counter: u64,
}

impl NanoClock {
    pub fn new() -> (r: NanoClock)
        ensures
            r.counter == 0,
    {
        NanoClock { counter: 0 }
    }

    /// The next id: the milliseconds times a million plus the counter's
    /// last six digits (wrapping as unsigned), read as a signed number;
    /// the counter moves on by one.
    pub fn chrono_nanos(&mut self) -> (r: i64)
        ensures
            final(self).counter == old(self).counter.wrapping_add(1),
            exists|millis: u64|
                r == (millis.wrapping_mul(1_000_000).wrapping_add(old(self).counter % 1_000_000)) as i64,
    {
        let millis = unix_millis();
        let c = self.counter;
        self.counter = c.wrapping_add(1);
        let v = millis.wrapping_mul(1_000_000).wrapping_add(c % 1_000_000);
        assert(c == old(self).counter);
        assert(v as i64 == (millis.wrapping_mul(1_000_000).wrapping_add(old(self).counter % 1_000_000)) as i64);
        v as i64
    }
}

} // verus!
