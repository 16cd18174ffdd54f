//! Publishing a new version of a module over entities that already hold
//! records: which stored entities a definition speaks of, and when dropping
//! one of their fields is refused.
use vstd::prelude::*;
use crate::error::{message_of, AppError};
use crate::json::{clone_json, get_spec, jv, Json};
use crate::module_definition::{definition_error, member_names, str_or, validate_module_definition};
use crate::repository::{opt_str, Module};
use crate::text::{
    chars_of, push_all, push_str, str_eq, string_from, string_of, string_views, trim, trim_vec,
};

verus! {

broadcast use vstd::string::group_string_axioms;

/// An entity of a definition as publishing sees it: the id it is stored
/// under and the field names the definition declares for it.
pub struct PublishTarget {
    pub entity_id: String,
    pub declared: Vec<String>,
}

pub open spec fn entity_items(d: Json) -> Seq<Json> {
    match get_spec(d, "entities"@) {
        Some(Json::Array(es)) => es@,
        _ => Seq::empty(),
    }
}

pub open spec fn declared_fields(e: Json) -> Seq<Seq<char>> {
    match get_spec(e, "fields"@) {
        Some(Json::Array(fs)) => member_names(fs@),
        _ => Seq::empty(),
    }
}

/// The entities with a non-blank name, each as `<module>_<name>` with its
/// declared field names, in order.
pub open spec fn targets(module_id: Seq<char>, es: Seq<Json>) -> Seq<(Seq<char>, Seq<Seq<char>>)>
    decreases es.len(),
{
    if es.len() == 0 {
        Seq::empty()
    } else {
        let prev = targets(module_id, es.drop_last());
        let n = trim(str_or(get_spec(es.last(), "name"@), Seq::empty()));
        if n.len() == 0 {
            prev
        } else {
            prev.push((module_id + "_"@ + n, declared_fields(es.last())))
        }
    }
}

pub open spec fn target_views(v: Seq<PublishTarget>) -> Seq<(Seq<char>, Seq<Seq<char>>)> {
    v.map_values(|t: PublishTarget| (t.entity_id@, string_views(t.declared@)))
}

fn item_names(items: &Vec<Json>) -> (r: Vec<String>)
    ensures
        string_views(r@) == member_names(items@),
{
    let mut out: Vec<String> = Vec::new();
    let mut i: usize = 0;
    while i < items.len()
        invariant
            i <= items.len(),
            string_views(out@) == member_names(items@.take(i as int)),
        decreases items.len() - i,
    {
        assert(items@.take(i + 1).drop_last() =~= items@.take(i as int));
        assert(items@.take(i + 1).last() == items@[i as int]);
        if let Some(n) = items[i].get_str("name") {
            let ghost before = out@;
            out.push(string_of(chars_of(n.as_str()).as_slice()));
            assert(string_views(out@) =~= string_views(before).push(n@));
        }
        i += 1;
    }
    assert(items@.take(items.len() as int) =~= items@);
    out
}

/// The stored entities a definition speaks of (see `targets`).
pub fn publish_targets(module_id: &str, definition: &Json) -> (r: Vec<PublishTarget>)
    ensures
        target_views(r@) == targets(module_id@, entity_items(*definition)),
{
    let empty: Vec<Json> = Vec::new();
    let es: &Vec<Json> = match definition.get_array("entities") {
        Some(a) => a,
        None => &empty,
    };
    assert(es@ == entity_items(*definition));
    let mut out: Vec<PublishTarget> = Vec::new();
    let mut i: usize = 0;
    while i < es.len()
        invariant
            i <= es.len(),
            target_views(out@) == targets(module_id@, es@.take(i as int)),
        decreases es.len() - i,
    {
        let e = &es[i];
        assert(es@.take(i + 1).drop_last() =~= es@.take(i as int));
        assert(es@.take(i + 1).last() == *e);
        let raw = match e.get_str("name") {
            Some(s) => chars_of(s.as_str()),
            None => Vec::new(),
        };
        assert(raw@ == str_or(get_spec(*e, "name"@), Seq::empty()));
        let n = trim_vec(&raw);
        if n.len() > 0 {
            let mut id = chars_of(module_id);
            push_str(&mut id, "_");
            push_all(&mut id, &n);
            let declared = match e.get_array("fields") {
                Some(fs) => item_names(fs),
                None => Vec::new(),
            };
            assert(string_views(declared@) == declared_fields(*e)) by {
                if !(get_spec(*e, "fields"@) matches Some(Json::Array(_))) {
                    assert(string_views(declared@) =~= Seq::<Seq<char>>::empty());
                }
            }
            let ghost before = out@;
            out.push(PublishTarget { entity_id: string_of(id.as_slice()), declared });
            assert(target_views(out@) =~= target_views(before).push(
                (module_id@ + "_"@ + n@, declared_fields(*e)),
            ));
        }
        i += 1;
    }
    assert(es@.take(es.len() as int) =~= es@);
    out
}

/// The first stored field name that the definition no longer declares.
pub open spec fn first_removed(stored: Seq<Seq<char>>, declared: Seq<Seq<char>>) -> Option<Seq<char>>
    decreases stored.len(),
{
    if stored.len() == 0 {
        None
    } else if !declared.contains(stored[0]) {
        Some(stored[0])
    } else {
        first_removed(stored.drop_first(), declared)
    }
}

/// Refuses a publish that drops a field of an entity holding records.
pub fn check_removed_fields(entity_id: &str, declared: &Vec<String>, stored: &Vec<String>, in_use: bool) -> (r:
    Result<(), AppError>)
    ensures
        match first_removed(string_views(stored@), string_views(declared@)) {
            Some(n) => if in_use {
                r matches Err(e) && e is Conflict && message_of(e) == "entity "@ + entity_id@
                    + " has records; removing field "@ + n + " is blocked"@
            } else {
                r is Ok
            },
            None => r is Ok,
        },
{
    let ghost sv = string_views(stored@);
    let ghost dv = string_views(declared@);
    let mut i: usize = 0;
    assert(sv.skip(0) =~= sv);
    while i < stored.len()
        invariant
            i <= stored.len(),
            sv == string_views(stored@),
            dv == string_views(declared@),
            first_removed(sv, dv) == first_removed(sv.skip(i as int), dv),
        decreases stored.len() - i,
    {
        assert(sv.skip(i as int).drop_first() =~= sv.skip(i + 1));
        assert(sv.skip(i as int)[0] == stored@[i as int]@);
        let mut j: usize = 0;
        let mut found = false;
        while j < declared.len()
            invariant
                j <= declared.len(),
                i < stored.len(),
                dv == string_views(declared@),
                found == exists|w: int| 0 <= w < j && (#[trigger] declared@[w])@ == stored@[i as int]@,
            decreases declared.len() - j,
        {
            if str_eq(declared[j].as_str(), stored[i].as_str()) {
                found = true;
            }
            j += 1;
        }
        proof {
            if found {
                let w = choose|w: int| 0 <= w < declared.len() && (#[trigger] declared@[w])@ == stored@[i as int]@;
                assert(dv[w] == stored@[i as int]@);
            } else {
                assert forall|w: int| 0 <= w < dv.len() implies dv[w] != stored@[i as int]@ by {
                    assert(dv[w] == declared@[w]@);
                }
            }
        }
        if !found {
            if in_use {
                let mut m = chars_of("entity ");
                push_str(&mut m, entity_id);
                push_str(&mut m, " has records; removing field ");
                push_str(&mut m, stored[i].as_str());
                push_str(&mut m, " is blocked");
                return Err(AppError::Conflict(string_of(m.as_slice())));
            }
            return Ok(());
        }
        i += 1;
    }
    Ok(())
}

// ---------------------------------------------------------------------------
// Status of a module
// ---------------------------------------------------------------------------

/// The steps of a module's lifecycle.
pub enum LifecycleStep {
    Submit,
    Publish,
    Enable,
    Disable,
    Archive,
    Restore,
}

/// Whether a step applies to a module in status `s`.
pub open spec fn step_applies(step: LifecycleStep, s: Seq<char>) -> bool {
    match step {
        LifecycleStep::Submit => s == "draft"@,
        LifecycleStep::Publish => s == "review"@,
        LifecycleStep::Enable => s == "published"@,
        LifecycleStep::Disable => s == "enabled"@,
        LifecycleStep::Archive => s == "published"@ || s == "disabled"@,
        LifecycleStep::Restore => s == "archived"@,
    }
}

/// The status a step leaves a module in.
pub open spec fn step_result(step: LifecycleStep) -> Seq<char> {
    match step {
        LifecycleStep::Submit => "review"@,
        LifecycleStep::Publish => "published"@,
        LifecycleStep::Enable => "enabled"@,
        LifecycleStep::Disable => "disabled"@,
        LifecycleStep::Archive => "archived"@,
        LifecycleStep::Restore => "draft"@,
    }
}

/// Why a step is refused to module `id`.
pub open spec fn step_refusal(step: LifecycleStep, id: Seq<char>) -> Seq<char> {
    match step {
        LifecycleStep::Submit => "module must be draft: "@ + id,
        LifecycleStep::Publish => "module must be in review before publishing: "@ + id,
        LifecycleStep::Enable => "module must be published: "@ + id,
        LifecycleStep::Disable => "module must be enabled: "@ + id,
        LifecycleStep::Archive => "module must be published or disabled before archive: "@ + id,
        LifecycleStep::Restore => "only archived modules restore: "@ + id,
    }
}

pub open spec fn step_target(s: Seq<char>, step: LifecycleStep) -> Option<Seq<char>> {
    if step_applies(step, s) {
        Some(step_result(step))
    } else {
        None
    }
}

fn refusal(prefix: &str, id: &str) -> (e: AppError)
    ensures
        e is Conflict,
        message_of(e) == prefix@ + id@,
{
    let mut m = chars_of(prefix);
    push_str(&mut m, id);
    AppError::Conflict(string_of(m.as_slice()))
}

/// The status a step moves module `module_id` to from `status`, or the
/// conflict that refuses it.
pub fn lifecycle_step(module_id: &str, status: &str, step: LifecycleStep) -> (r: Result<String, AppError>)
    ensures
        match step_target(status@, step) {
            Some(t) => r matches Ok(x) && x@ == t,
            None => r matches Err(e) && e is Conflict && message_of(e) == step_refusal(step, module_id@),
        },
{
    match step {
        LifecycleStep::Submit => if str_eq(status, "draft") {
            Ok(string_from("review"))
        } else {
            Err(refusal("module must be draft: ", module_id))
        },
        LifecycleStep::Publish => if str_eq(status, "review") {
            Ok(string_from("published"))
        } else {
            Err(refusal("module must be in review before publishing: ", module_id))
        },
        LifecycleStep::Enable => if str_eq(status, "published") {
            Ok(string_from("enabled"))
        } else {
            Err(refusal("module must be published: ", module_id))
        },
        LifecycleStep::Disable => if str_eq(status, "enabled") {
            Ok(string_from("disabled"))
        } else {
            Err(refusal("module must be enabled: ", module_id))
        },
        LifecycleStep::Archive => if str_eq(status, "published") || str_eq(status, "disabled") {
            Ok(string_from("archived"))
        } else {
            Err(refusal("module must be published or disabled before archive: ", module_id))
        },
        LifecycleStep::Restore => if str_eq(status, "archived") {
            Ok(string_from("draft"))
        } else {
            Err(refusal("only archived modules restore: ", module_id))
        },
    }
}

/// The status after a run of steps from `s`, or `None` when one is refused.
pub open spec fn run_steps(s: Seq<char>, steps: Seq<LifecycleStep>) -> Option<Seq<char>>
    decreases steps.len(),
{
    if steps.len() == 0 {
        Some(s)
    } else {
        match step_target(s, steps[0]) {
            Some(t) => run_steps(t, steps.drop_first()),
            None => None,
        }
    }
}

/// A run of steps from `s` is at status `v` at some point, `s` included.
pub open spec fn passes(s: Seq<char>, steps: Seq<LifecycleStep>, v: Seq<char>) -> bool
    decreases steps.len(),
{
    s == v || (steps.len() > 0 && match step_target(s, steps[0]) {
        Some(t) => passes(t, steps.drop_first(), v),
        None => false,
    })
}

proof fn lemma_statuses_differ()
    ensures
        "draft"@ != "review"@,
        "review"@ != "published"@,
        "published"@ != "enabled"@,
        "published"@ != "disabled"@,
        "published"@ != "archived"@,
        "published"@ != "draft"@,
        "archived"@ != "draft"@,
        "enabled"@ != "draft"@,
        "disabled"@ != "draft"@,
        "review"@ != "draft"@,
{
    reveal_strlit("draft");
    reveal_strlit("review");
    reveal_strlit("published");
    reveal_strlit("enabled");
    reveal_strlit("disabled");
    reveal_strlit("archived");
    assert("draft"@.len() == 5 && "review"@.len() == 6 && "published"@.len() == 9);
    assert("enabled"@.len() == 7 && "disabled"@.len() == 8 && "archived"@.len() == 8);
}

/// Publishing follows review: every run of steps that ends with a module
/// published, from a module that was not, passes through review.
pub proof fn lemma_publish_passes_review(s: Seq<char>, steps: Seq<LifecycleStep>)
    requires
        s != "published"@,
        run_steps(s, steps) == Some("published"@),
    ensures
        passes(s, steps, "review"@),
    decreases steps.len(),
{
    lemma_statuses_differ();
    if steps.len() > 0 {
        let t = step_target(s, steps[0]);
        if let Some(t) = t {
            if t == "published"@ {
                assert(steps[0] is Publish);
                assert(s == "review"@);
            } else {
                lemma_publish_passes_review(t, steps.drop_first());
            }
        }
    }
}

/// A module comes back to draft only from the archive: every run of steps
/// that ends with a module in draft, from a module that was not, passes
/// through archived.
pub proof fn lemma_draft_again_passes_archive(s: Seq<char>, steps: Seq<LifecycleStep>)
    requires
        s != "draft"@,
        run_steps(s, steps) == Some("draft"@),
    ensures
        passes(s, steps, "archived"@),
    decreases steps.len(),
{
    lemma_statuses_differ();
    if steps.len() > 0 {
        let t = step_target(s, steps[0]);
        if let Some(t) = t {
            if t == "draft"@ {
                assert(steps[0] is Restore);
                assert(s == "archived"@);
            } else {
                lemma_draft_again_passes_archive(t, steps.drop_first());
            }
        }
    }
}

/// The trimmed text of an edit, unless blank; otherwise the current value.
pub open spec fn edited(input: Option<Seq<char>>, current: Seq<char>) -> Seq<char> {
    match input {
        Some(s) => if trim(s).len() > 0 {
            trim(s)
        } else {
            current
        },
        None => current,
    }
}

fn edited_exec(input: Option<&str>, current: &String) -> (r: String)
    ensures
        r@ == edited(opt_str(input), current@),
{
    match input {
        Some(s) => {
            let t = trim_vec(&chars_of(s));
            if t.len() > 0 {
                string_of(t.as_slice())
            } else {
                string_from(current.as_str())
            }
        },
        None => string_from(current.as_str()),
    }
}

/// Edits a draft module: its label, description, icon and colour take the
/// given non-blank values, and its definition the given one once it passes
/// validation. A module that is not a draft is refused and left as it was.
pub fn edit_draft(
    module: &mut Module,
    label: Option<&str>,
    description: Option<&str>,
    icon: Option<&str>,
    color: Option<&str>,
    definition: Option<&Json>,
) -> (r: Result<(), AppError>)
    ensures
        old(module).status@ != "draft"@ ==> (r matches Err(e) && e is Conflict && message_of(e) == "module is "@
            + old(module).status@ + ": "@ + old(module).id@),
        old(module).status@ == "draft"@ ==> match definition {
            Some(d) => match definition_error(*d) {
                Some(m) => r matches Err(e) && e is BadRequest && message_of(e) == m,
                None => r is Ok,
            },
            None => r is Ok,
        },
        r is Err ==> *final(module) == *old(module),
        r is Ok ==> {
            &&& old(module).status@ == "draft"@
            &&& final(module).label@ == edited(opt_str(label), old(module).label@)
            &&& final(module).description@ == edited(opt_str(description), old(module).description@)
            &&& final(module).icon@ == edited(opt_str(icon), old(module).icon@)
            &&& final(module).color@ == edited(opt_str(color), old(module).color@)
            &&& jv(final(module).definition) == match definition {
                Some(d) => jv(*d),
                None => jv(old(module).definition),
            }
            &&& final(module).id == old(module).id
            &&& final(module).status == old(module).status
            &&& final(module).owner == old(module).owner
            &&& final(module).version == old(module).version
        },
{
    if !str_eq(module.status.as_str(), "draft") {
        let mut m = chars_of("module is ");
        push_str(&mut m, module.status.as_str());
        push_str(&mut m, ": ");
        push_str(&mut m, module.id.as_str());
        return Err(AppError::Conflict(string_of(m.as_slice())));
    }
    if let Some(d) = definition {
        validate_module_definition(d)?;
    }
    module.label = edited_exec(label, &module.label);
    module.description = edited_exec(description, &module.description);
    module.icon = edited_exec(icon, &module.icon);
    module.color = edited_exec(color, &module.color);
    if let Some(d) = definition {
        module.definition = clone_json(d);
    }
    Ok(())
}

/// A published module is archived before it is deleted.
pub fn check_deletable(module: &Module) -> (r: Result<(), AppError>)
    ensures
        r is Ok <==> module.status@ != "published"@,
        r matches Err(e) ==> e is Conflict && message_of(e) == "archive a published module first: "@ + module.id@,
{
    if str_eq(module.status.as_str(), "published") {
        return Err(refusal("archive a published module first: ", module.id.as_str()));
    }
    Ok(())
}

} // verus!
