//! Rules on the records kept beside documents: attachments, activities,
//! saved views and their configuration, form layouts, report charts and the
//! built-in record actions.
use vstd::prelude::*;
use crate::error::{bad_request, bad_request_with, message_of, AppError};
use crate::field_rules::nonblank;
use crate::json::{get_spec, str_of, Json};
use crate::pattern::split_all;
use crate::repository::{ListDocumentsFilter, ModuleAction, ATTACHMENT_MAX_BYTES};
use crate::settings::{parse_unsigned, parse_unsigned_text};
use crate::text::{
    chars_of, is_alnum, is_alnum_char, lowercase, seq_eq, seq_is, slice_chars, starts_with,
    starts_with_seq, str_eq, string_from, string_of, string_views, to_lowercase, trim, trim_str,
    vec_views,
};

verus! {

broadcast use vstd::string::group_string_axioms;

// ---------------------------------------------------------------------------
// Attachments and activities
// ---------------------------------------------------------------------------

/// Content types an attachment may have (after trimming and lowercasing):
/// images, PDF, plain text, CSV and XLSX workbooks.
pub open spec fn attachment_type_ok(t: Seq<char>) -> bool {
    starts_with(t, "image/"@) || t == "application/pdf"@ || t == "text/plain"@ || t
        == "text/csv"@ || t == "application/vnd.openxmlformats-officedocument.spreadsheetml.sheet"@
}

/// The first problem with an attachment, as the message of the bad request.
pub open spec fn attachment_error(filename: Seq<char>, content_type: Seq<char>, size: nat) -> Option<Seq<char>> {
    if trim(filename).len() == 0 {
        Some("filename is required"@)
    } else if trim(filename).len() > 255 {
        Some("filename must be at most 255 characters"@)
    } else if size == 0 {
        Some("file is empty"@)
    } else if size > ATTACHMENT_MAX_BYTES {
        Some("file must be at most 5MB"@)
    } else if !attachment_type_ok(lowercase(trim(content_type))) {
        Some("unsupported file type"@)
    } else {
        None
    }
}

/// Checks an uploaded file: a name of 1 to 255 characters, 1 byte to 5 MB,
/// and an allowed content type.
pub fn validate_attachment(filename: &str, content_type: &str, size: usize) -> (r: Result<(), AppError>)
    ensures
        match attachment_error(filename@, content_type@, size as nat) {
            None => r is Ok,
            Some(m) => r matches Err(e) && e is BadRequest && message_of(e) == m,
        },
{
    let name = trim_str(filename);
    if name.len() == 0 {
        return Err(bad_request("filename is required"));
    }
    if name.len() > 255 {
        return Err(bad_request("filename must be at most 255 characters"));
    }
    if size == 0 {
        return Err(bad_request("file is empty"));
    }
    if size > ATTACHMENT_MAX_BYTES {
        return Err(bad_request("file must be at most 5MB"));
    }
    let trimmed = string_of(trim_str(content_type).as_slice());
    let ct = to_lowercase(trimmed.as_str());
    let c = chars_of(ct.as_str());
    let allowed = starts_with_seq(&c, &chars_of("image/")) || seq_is(&c, "application/pdf")
        || seq_is(&c, "text/plain") || seq_is(&c, "text/csv") || seq_is(
        &c,
        "application/vnd.openxmlformats-officedocument.spreadsheetml.sheet",
    );
    if !allowed {
        return Err(bad_request("unsupported file type"));
    }
    Ok(())
}

/// A due date `YYYY-MM-DD`: three parts split at `-`, of 4, 2 and 2
/// characters, each an unsigned 32-bit number, the year not 0, the month
/// 1 to 12 and the day 1 to 31.
pub open spec fn activity_date_ok(date: Seq<char>) -> bool {
    let parts = split_all(date, "-"@);
    &&& parts.len() == 3
    &&& parse_unsigned(parts[0], u32::MAX as nat) is Some
    &&& parse_unsigned(parts[1], u32::MAX as nat) is Some
    &&& parse_unsigned(parts[2], u32::MAX as nat) is Some
    &&& parts[0].len() == 4 && parts[1].len() == 2 && parts[2].len() == 2
    &&& parse_unsigned(parts[0], u32::MAX as nat)->0 != 0
    &&& 1 <= parse_unsigned(parts[1], u32::MAX as nat)->0 <= 12
    &&& 1 <= parse_unsigned(parts[2], u32::MAX as nat)->0 <= 31
}

pub fn valid_activity_date(date: &str) -> (r: bool)
    ensures
        r == activity_date_ok(date@),
{
    proof {
        reveal_strlit("-");
    }
    let parts = crate::pattern::split_text(&chars_of(date), &chars_of("-"));
    if parts.len() != 3 {
        return false;
    }
    assert(vec_views(parts@)[0] == parts@[0]@ && vec_views(parts@)[1] == parts@[1]@ && vec_views(parts@)[2] == parts@[2]@);
    let y = parse_unsigned_text(string_of(parts[0].as_slice()).as_str(), 4294967295);
    let m = parse_unsigned_text(string_of(parts[1].as_slice()).as_str(), 4294967295);
    let d = parse_unsigned_text(string_of(parts[2].as_slice()).as_str(), 4294967295);
    match (y, m, d) {
        (Some(y), Some(m), Some(d)) => {
            parts[0].len() == 4 && parts[1].len() == 2 && parts[2].len() == 2 && y != 0 && 1 <= m
                && m <= 12 && 1 <= d && d <= 31
        },
        _ => false,
    }
}

// ---------------------------------------------------------------------------
// Saved views
// ---------------------------------------------------------------------------

/// The trimmed non-empty text of member `k` of an object.
pub open spec fn config_text(config: Json, k: Seq<char>) -> Option<Seq<char>> {
    match config {
        Json::Object(_) => nonblank(str_of(get_spec(config, k))),
        _ => None,
    }
}

pub open spec fn sv(o: Option<String>) -> Option<Seq<char>> {
    match o {
        Some(s) => Some(s@),
        None => None,
    }
}

/// A filter member left unset by the request takes the view's setting.
pub open spec fn filled(before: Option<String>, after: Option<String>, config: Json, k: Seq<char>) -> bool {
    if before is Some {
        sv(after) == sv(before)
    } else {
        sv(after) == config_text(config, k)
    }
}

fn config_text_exec(config: &Json, k: &str) -> (r: Option<String>)
    ensures
        sv(r) == config_text(*config, k@),
{
    match config {
        Json::Object(_) => match config.get(k) {
            Some(Json::String(s)) => {
                let t = trim_str(s.as_str());
                if t.len() > 0 {
                    Some(string_of(t.as_slice()))
                } else {
                    None
                }
            },
            _ => None,
        },
        _ => None,
    }
}

/// Fills the members of a listing filter that the request left unset from a
/// saved view's configuration (`status`, `search`, `sort_by`, `sort_dir`).
pub fn apply_view_config(filter: &mut ListDocumentsFilter, config: &Json)
    ensures
        filled(old(filter).status, final(filter).status, *config, "status"@),
        filled(old(filter).search, final(filter).search, *config, "search"@),
        filled(old(filter).sort_by, final(filter).sort_by, *config, "sort_by"@),
        filled(old(filter).sort_dir, final(filter).sort_dir, *config, "sort_dir"@),
        sv(final(filter).view_id) == sv(old(filter).view_id),
{
    if filter.status.is_none() {
        filter.status = config_text_exec(config, "status");
    }
    if filter.search.is_none() {
        filter.search = config_text_exec(config, "search");
    }
    if filter.sort_by.is_none() {
        filter.sort_by = config_text_exec(config, "sort_by");
    }
    if filter.sort_dir.is_none() {
        filter.sort_dir = config_text_exec(config, "sort_dir");
    }
}

/// A name as it appears in ids: lowercased and trimmed, every character
/// other than an ASCII letter or digit replaced by `_`, and leading and
/// trailing `_` removed.
pub open spec fn slug(name: Seq<char>) -> Seq<char> {
    trim_underscores(lowercase(trim(name)).map_values(|c: char| if is_alnum(c) { c } else { '_' }))
}

pub open spec fn trim_underscores(s: Seq<char>) -> Seq<char>
    decreases s.len(),
{
    if s.len() > 0 && s[0] == '_' {
        trim_underscores(s.drop_first())
    } else if s.len() > 0 && s.last() == '_' {
        trim_underscores(s.drop_last())
    } else {
        s
    }
}

fn trim_underscores_exec(v: &Vec<char>) -> (r: Vec<char>)
    ensures
        r@ == trim_underscores(v@),
{
    let mut a: usize = 0;
    let mut b: usize = v.len();
    assert(v@.subrange(0, v.len() as int) =~= v@);
    while a < b && v[a] == '_'
        invariant
            a <= b <= v.len(),
            b == v.len(),
            trim_underscores(v@.subrange(a as int, b as int)) == trim_underscores(v@),
        decreases b - a,
    {
        assert(v@.subrange(a as int, b as int).drop_first() =~= v@.subrange(a + 1, b as int));
        a += 1;
    }
    while a < b && v[b - 1] == '_'
        invariant
            a <= b <= v.len(),
            a == b || v@[a as int] != '_',
            trim_underscores(v@.subrange(a as int, b as int)) == trim_underscores(v@),
        decreases b - a,
    {
        assert(v@.subrange(a as int, b as int).drop_last() =~= v@.subrange(a as int, b - 1));
        b -= 1;
    }
    slice_chars(v, a, b)
}

pub fn slugify_view_name(name: &str) -> (r: String)
    ensures
        r@ == slug(name@),
{
    let trimmed = string_of(trim_str(name).as_slice());
    let lower = chars_of(to_lowercase(trimmed.as_str()).as_str());
    let mut mapped: Vec<char> = Vec::new();
    let mut i: usize = 0;
    while i < lower.len()
        invariant
            i <= lower.len(),
            mapped@ == lower@.take(i as int).map_values(|c: char| if is_alnum(c) { c } else { '_' }),
        decreases lower.len() - i,
    {
        let c = lower[i];
        mapped.push(if is_alnum_char(c) { c } else { '_' });
        assert(lower@.take(i + 1).map_values(|c: char| if is_alnum(c) { c } else { '_' })
            =~= lower@.take(i as int).map_values(|c: char| if is_alnum(c) { c } else { '_' }).push(
            if is_alnum(c) { c } else { '_' },
        ));
        i += 1;
    }
    assert(lower@.take(lower.len() as int) =~= lower@);
    string_of(trim_underscores_exec(&mapped).as_slice())
}

// ---------------------------------------------------------------------------
// Record actions and report charts
// ---------------------------------------------------------------------------

/// The built-in record actions: (id, label).
pub open spec fn action_label(id: Seq<char>) -> Option<Seq<char>> {
    if id == "transition"@ {
        Some("Transition"@)
    } else if id == "create"@ {
        Some("Create"@)
    } else if id == "update"@ {
        Some("Update"@)
    } else if id == "post"@ {
        Some("Post"@)
    } else if id == "allocate"@ {
        Some("Allocate"@)
    } else if id == "convert"@ {
        Some("Convert"@)
    } else if id == "confirm"@ {
        Some("Confirm"@)
    } else if id == "complete"@ {
        Some("Complete"@)
    } else if id == "close"@ {
        Some("Close"@)
    } else {
        None
    }
}

/// The definition of a built-in action on an entity; its kind is its id.
pub fn module_action_definition(entity_id: &str, action_id: &str) -> (r: Result<ModuleAction, AppError>)
    ensures
        match action_label(action_id@) {
            Some(label) => r matches Ok(a) && a.id@ == action_id@ && a.entity_id@ == entity_id@
                && a.kind@ == action_id@ && a.label@ == label,
            None => r matches Err(e) && e is BadRequest && message_of(e) == "unknown action: "@
                + action_id@,
        },
{
    let label = if str_eq(action_id, "transition") {
        "Transition"
    } else if str_eq(action_id, "create") {
        "Create"
    } else if str_eq(action_id, "update") {
        "Update"
    } else if str_eq(action_id, "post") {
        "Post"
    } else if str_eq(action_id, "allocate") {
        "Allocate"
    } else if str_eq(action_id, "convert") {
        "Convert"
    } else if str_eq(action_id, "confirm") {
        "Confirm"
    } else if str_eq(action_id, "complete") {
        "Complete"
    } else if str_eq(action_id, "close") {
        "Close"
    } else {
        return Err(bad_request_with("unknown action: ", &chars_of(action_id)));
    };
    Ok(
        ModuleAction {
            id: string_from(action_id),
            entity_id: string_from(entity_id),
            kind: string_from(action_id),
            label: string_from(label),
        },
    )
}

/// The first problem with a saved report's configuration: it must be an
/// object with a non-blank `group_by` text and, if it has a `chart_type`,
/// `bar` or `pie`.
pub open spec fn report_config_error(config: Json) -> Option<Seq<char>> {
    if !(config is Object) {
        Some("report config must be a JSON object"@)
    } else if nonblank(str_of(get_spec(config, "group_by"@))) is None {
        Some("report config requires a group_by field"@)
    } else {
        match get_spec(config, "chart_type"@) {
            Some(Json::String(t)) => if t@ != "bar"@ && t@ != "pie"@ {
                Some("unknown chart_type: "@ + t@)
            } else {
                None
            },
            Some(_) => Some("chart_type must be a string"@),
            None => None,
        }
    }
}

pub fn validate_report_config(config: &Json) -> (r: Result<(), AppError>)
    ensures
        match report_config_error(*config) {
            None => r is Ok,
            Some(m) => r matches Err(e) && e is BadRequest && message_of(e) == m,
        },
{
    if !matches!(config, Json::Object(_)) {
        return Err(bad_request("report config must be a JSON object"));
    }
    let group_by = match config.get("group_by") {
        Some(Json::String(s)) => trim_str(s.as_str()).len() > 0,
        _ => false,
    };
    if !group_by {
        return Err(bad_request("report config requires a group_by field"));
    }
    match config.get("chart_type") {
        Some(Json::String(t)) => {
            if !str_eq(t.as_str(), "bar") && !str_eq(t.as_str(), "pie") {
                return Err(bad_request_with("unknown chart_type: ", &chars_of(t.as_str())));
            }
        },
        Some(_) => {
            return Err(bad_request("chart_type must be a string"));
        },
        None => {},
    }
    Ok(())
}

// ---------------------------------------------------------------------------
// Form layouts
// ---------------------------------------------------------------------------

/// Checking one field of a section: the ids seen so far, or the message of
/// the problem.
pub open spec fn layout_field(f: Json, section: Seq<char>, seen: Seq<Seq<char>>, known: Seq<Seq<char>>) -> Result<Seq<Seq<char>>, Seq<char>> {
    match f {
        Json::String(id) => if !known.contains(id@) {
            Err("unknown field: "@ + id@)
        } else if seen.contains(id@) {
            Err("duplicate field: "@ + id@)
        } else {
            Ok(seen.push(id@))
        },
        _ => Err("section field ids must be strings: "@ + section),
    }
}

pub open spec fn layout_fields(fs: Seq<Json>, n: int, section: Seq<char>, seen: Seq<Seq<char>>, known: Seq<Seq<char>>) -> Result<Seq<Seq<char>>, Seq<char>>
    decreases n,
{
    if n <= 0 {
        Ok(seen)
    } else {
        match layout_fields(fs, n - 1, section, seen, known) {
            Ok(s) => layout_field(fs[n - 1], section, s, known),
            Err(m) => Err(m),
        }
    }
}

/// Checking one section: a non-blank, not yet seen id (trimmed), a string
/// label if any, and an array of known field ids seen nowhere before.
pub open spec fn layout_section(sec: Json, seen: Seq<Seq<char>>, known: Seq<Seq<char>>) -> Result<Seq<Seq<char>>, Seq<char>> {
    if !(sec is Object) {
        Err("each section must be an object"@)
    } else {
        match nonblank(str_of(get_spec(sec, "id"@))) {
            None => Err("each section requires a non-empty id"@),
            Some(id) => if seen.contains(id) {
                Err("duplicate section id: "@ + id)
            } else if get_spec(sec, "label"@) is Some && !(get_spec(sec, "label"@)->0 is String) {
                Err("section label must be a string: "@ + id)
            } else {
                match get_spec(sec, "fields"@) {
                    None => Err("section requires a fields array: "@ + id),
                    Some(Json::Array(fs)) => layout_fields(fs@, fs@.len() as int, id, seen.push(id), known),
                    Some(_) => Err("section fields must be an array: "@ + id),
                }
            },
        }
    }
}

pub open spec fn layout_sections(ss: Seq<Json>, n: int, known: Seq<Seq<char>>) -> Result<Seq<Seq<char>>, Seq<char>>
    decreases n,
{
    if n <= 0 {
        Ok(Seq::empty())
    } else {
        match layout_sections(ss, n - 1, known) {
            Ok(s) => layout_section(ss[n - 1], s, known),
            Err(m) => Err(m),
        }
    }
}

/// The problem with a form layout, given the ids of the entity's fields.
pub open spec fn form_layout_error(config: Json, known: Seq<Seq<char>>) -> Option<Seq<char>> {
    if !(config is Object) {
        Some("form layout config must be a JSON object"@)
    } else {
        match get_spec(config, "sections"@) {
            None => Some("form layout config requires a sections array"@),
            Some(Json::Array(ss)) => match layout_sections(ss@, ss@.len() as int, known) {
                Ok(_) => None,
                Err(m) => Some(m),
            },
            Some(_) => Some("sections must be an array"@),
        }
    }
}

proof fn lemma_fields_err_stable(fs: Seq<Json>, i: int, n: int, section: Seq<char>, seen: Seq<Seq<char>>, known: Seq<Seq<char>>)
    requires
        0 <= i <= n,
        layout_fields(fs, i, section, seen, known) is Err,
    ensures
        layout_fields(fs, n, section, seen, known) == layout_fields(fs, i, section, seen, known),
    decreases n - i,
{
    if n > i {
        lemma_fields_err_stable(fs, i, n - 1, section, seen, known);
    }
}

proof fn lemma_sections_err_stable(ss: Seq<Json>, i: int, n: int, known: Seq<Seq<char>>)
    requires
        0 <= i <= n,
        layout_sections(ss, i, known) is Err,
    ensures
        layout_sections(ss, n, known) == layout_sections(ss, i, known),
    decreases n - i,
{
    if n > i {
        lemma_sections_err_stable(ss, i, n - 1, known);
    }
}

fn contains_id(seen: &Vec<Vec<char>>, id: &Vec<char>) -> (r: bool)
    ensures
        r == vec_views(seen@).contains(id@),
{
    let mut j: usize = 0;
    while j < seen.len()
        invariant
            j <= seen.len(),
            forall|k: int| 0 <= k < j ==> seen@[k]@ != id@,
        decreases seen.len() - j,
    {
        if seq_eq(&seen[j], id) {
            assert(vec_views(seen@)[j as int] == id@);
            return true;
        }
        j += 1;
    }
    assert forall|k: int| 0 <= k < vec_views(seen@).len() implies vec_views(seen@)[k] != id@ by {
        assert(vec_views(seen@)[k] == seen@[k]@);
    }
    false
}

fn known_id(known: &Vec<String>, id: &String) -> (r: bool)
    ensures
        r == string_views(known@).contains(id@),
{
    let mut j: usize = 0;
    while j < known.len()
        invariant
            j <= known.len(),
            forall|k: int| 0 <= k < j ==> known@[k]@ != id@,
        decreases known.len() - j,
    {
        if str_eq(known[j].as_str(), id.as_str()) {
            assert(string_views(known@)[j as int] == id@);
            return true;
        }
        j += 1;
    }
    assert forall|k: int| 0 <= k < string_views(known@).len() implies string_views(known@)[k] != id@ by {
        assert(string_views(known@)[k] == known@[k]@);
    }
    false
}

#[verifier::loop_isolation(false)]
fn check_section(sec: &Json, seen: &mut Vec<Vec<char>>, known: &Vec<String>) -> (r: Result<(), AppError>)
    ensures
        match layout_section(*sec, vec_views(old(seen)@), string_views(known@)) {
            Ok(s) => r is Ok && vec_views(final(seen)@) == s,
            Err(m) => r matches Err(e) && e is BadRequest && message_of(e) == m,
        },
{
    if !matches!(sec, Json::Object(_)) {
        return Err(bad_request("each section must be an object"));
    }
    let id = match sec.get("id") {
        Some(Json::String(s)) => {
            let t = trim_str(s.as_str());
            if t.len() == 0 {
                return Err(bad_request("each section requires a non-empty id"));
            }
            t
        },
        _ => {
            return Err(bad_request("each section requires a non-empty id"));
        },
    };
    if contains_id(seen, &id) {
        return Err(bad_request_with("duplicate section id: ", &id));
    }
    match sec.get("label") {
        Some(Json::String(_)) => {},
        Some(_) => {
            return Err(bad_request_with("section label must be a string: ", &id));
        },
        None => {},
    }
    let fs = match sec.get("fields") {
        Some(Json::Array(fs)) => fs,
        Some(_) => {
            return Err(bad_request_with("section fields must be an array: ", &id));
        },
        None => {
            return Err(bad_request_with("section requires a fields array: ", &id));
        },
    };
    let ghost seen0 = vec_views(seen@).push(id@);
    let ghost before = seen@;
    seen.push(id.clone());
    assert(vec_views(seen@) =~= vec_views(before).push(id@));
    let mut i: usize = 0;
    while i < fs.len()
        invariant
            i <= fs.len(),
            layout_fields(fs@, i as int, id@, seen0, string_views(known@)) == Ok::<Seq<Seq<char>>, Seq<char>>(vec_views(seen@)),
        decreases fs.len() - i,
    {
        match &fs[i] {
            Json::String(f) => {
                if !known_id(known, f) {
                    proof {
                        lemma_fields_err_stable(fs@, i + 1, fs@.len() as int, id@, seen0, string_views(known@));
                    }
                    return Err(bad_request_with("unknown field: ", &chars_of(f.as_str())));
                }
                let fc = chars_of(f.as_str());
                if contains_id(seen, &fc) {
                    proof {
                        lemma_fields_err_stable(fs@, i + 1, fs@.len() as int, id@, seen0, string_views(known@));
                    }
                    return Err(bad_request_with("duplicate field: ", &fc));
                }
                let ghost b2 = seen@;
                seen.push(fc);
                assert(vec_views(seen@) =~= vec_views(b2).push(f@));
            },
            _ => {
                proof {
                    lemma_fields_err_stable(fs@, i + 1, fs@.len() as int, id@, seen0, string_views(known@));
                }
                return Err(bad_request_with("section field ids must be strings: ", &id));
            },
        }
        i += 1;
    }
    Ok(())
}

#[verifier::loop_isolation(false)]
/// Checks a form layout: an object whose `sections` array holds sections
/// with distinct ids, each listing known field ids, every field at most
/// once in the whole layout.
pub fn validate_form_layout_config(config: &Json, field_ids: &Vec<String>) -> (r: Result<(), AppError>)
    ensures
        match form_layout_error(*config, string_views(field_ids@)) {
            None => r is Ok,
            Some(m) => r matches Err(e) && e is BadRequest && message_of(e) == m,
        },
{
    if !matches!(config, Json::Object(_)) {
        return Err(bad_request("form layout config must be a JSON object"));
    }
    let ss = match config.get("sections") {
        Some(Json::Array(ss)) => ss,
        Some(_) => {
            return Err(bad_request("sections must be an array"));
        },
        None => {
            return Err(bad_request("form layout config requires a sections array"));
        },
    };
    let mut seen: Vec<Vec<char>> = Vec::new();
    let mut i: usize = 0;
    assert(vec_views(seen@) =~= Seq::<Seq<char>>::empty());
    while i < ss.len()
        invariant
            i <= ss.len(),
            layout_sections(ss@, i as int, string_views(field_ids@)) == Ok::<Seq<Seq<char>>, Seq<char>>(vec_views(seen@)),
        decreases ss.len() - i,
    {
        match check_section(&ss[i], &mut seen, field_ids) {
            Ok(()) => {},
            Err(e) => {
                proof {
                    lemma_sections_err_stable(ss@, i + 1, ss@.len() as int, string_views(field_ids@));
                }
                return Err(e);
            },
        }
        i += 1;
    }
    Ok(())
}

} // verus!
