//! Delivery of webhooks and automations: what a failed attempt leaves, the
//! settings an automation keeps, and the steps of an action chain.
use vstd::prelude::*;
use crate::error::{Failure};
use crate::formula::{syntax_valid, validate_syntax};
use crate::json::{clone_json, get_spec, jv, str_of, Json, JsonV};
use crate::text::{chars_of, push_str, slice_chars, str_eq, string_from, string_of, trim, trim_str, utf8_len, utf8_len_exceeds};

verus! {

broadcast use vstd::string::group_string_axioms;

/// Whether a delivery or execution is tried again.
pub enum DeliveryStatus {
    Pending,
    Failed,
}

/// The attempts a delivery gets: `max_attempts`, and at least one.
pub open spec fn allowed_attempts(max_attempts: int) -> int {
    if max_attempts > 1 {
        max_attempts
    } else {
        1
    }
}

/// Whether a failed attempt, with `attempts` made before it, is the last.
pub open spec fn fails_at(attempts: int, max_attempts: int) -> bool {
    attempts + 1 >= allowed_attempts(max_attempts)
}

/// After a failed attempt, with `attempts` made before it: the number of
/// attempts made, and whether another is due.
pub fn after_failure(attempts: i64, max_attempts: i64) -> (r: (i64, DeliveryStatus))
    requires
        attempts < i64::MAX,
    ensures
        r.0 == attempts + 1,
        r.1 is Failed <==> fails_at(attempts as int, max_attempts as int),
{
    let next = attempts + 1;
    let max = if max_attempts > 1 {
        max_attempts
    } else {
        1
    };
    if next >= max {
        (next, DeliveryStatus::Failed)
    } else {
        (next, DeliveryStatus::Pending)
    }
}

/// Retries end: from no attempts, each failure before the
/// `allowed_attempts`-th leaves the delivery pending, and that one leaves
/// it failed.
pub proof fn lemma_retries_end(max_attempts: int)
    ensures
        forall|n: int| 0 <= n && n + 1 < allowed_attempts(max_attempts) ==> !#[trigger] fails_at(n, max_attempts),
        fails_at(allowed_attempts(max_attempts) - 1, max_attempts),
        allowed_attempts(max_attempts) >= 1,
{
}

/// The first `n` characters of a text.
pub fn first_chars(s: &str, n: usize) -> (r: String)
    ensures
        r@ == s@.take(if s@.len() < n { s@.len() as int } else { n as int }),
{
    let v = chars_of(s);
    let end = if v.len() < n {
        v.len()
    } else {
        n
    };
    string_of(slice_chars(&v, 0, end).as_slice())
}

/// What an automation keeps once updated: its condition and schedule
/// trimmed, its action chain (an empty array when none is given), between
/// 1 and 20 attempts (3 when not given), and its active flag unless given.
pub struct AutomationSettings {
    pub condition: String,
    pub schedule: String,
    pub actions: Json,
    pub max_attempts: i64,
    pub active: bool,
}

pub open spec fn clamp(x: int, lo: int, hi: int) -> int {
    if x < lo {
        lo
    } else if x > hi {
        hi
    } else {
        x
    }
}

pub open spec fn opt_text(o: Option<&str>) -> Seq<char> {
    match o {
        Some(s) => s@,
        None => Seq::empty(),
    }
}

/// The settings an automation update keeps; a condition longer than 2048
/// bytes, or that is not a valid formula, is refused.
pub fn automation_settings(
    condition: Option<&str>,
    schedule: Option<&str>,
    actions: Option<&Json>,
    max_attempts: Option<i64>,
    active: Option<bool>,
    current_active: bool,
) -> (r: Result<AutomationSettings, Failure>)
    ensures
        utf8_len(trim(opt_text(condition))) > 2048 ==> (r matches Err(Failure::Other(m)) && m@
            == "automation condition is too long"@),
        utf8_len(trim(opt_text(condition))) <= 2048 && trim(opt_text(condition)).len() > 0
            && !syntax_valid(trim(opt_text(condition))) ==> (r matches Err(Failure::App(e))
            && e is BadRequest),
        r is Ok <==> utf8_len(trim(opt_text(condition))) <= 2048 && (trim(opt_text(condition)).len()
            == 0 || syntax_valid(trim(opt_text(condition)))),
        r matches Ok(st) ==> st.condition@ == trim(opt_text(condition)) && st.schedule@ == trim(
            opt_text(schedule),
        ) && jv(st.actions) == (match actions {
            Some(a) => jv(*a),
            None => JsonV::Array(Seq::empty()),
        }) && st.max_attempts == clamp(
            match max_attempts {
                Some(m) => m as int,
                None => 3,
            },
            1,
            20,
        ) && st.active == match active {
            Some(a) => a,
            None => current_active,
        },
{
    proof {
        reveal_strlit("");
        assert(""@ =~= Seq::<char>::empty());
    }
    let c = trim_str(match condition {
        Some(x) => x,
        None => "",
    });
    if utf8_len_exceeds(&c, 2048) {
        return Err(Failure::Other(string_from("automation condition is too long")));
    }
    let cs = string_of(c.as_slice());
    if c.len() > 0 {
        match validate_syntax(cs.as_str()) {
            Ok(()) => {},
            Err(e) => {
                return Err(Failure::App(e));
            },
        }
    }
    let s = trim_str(match schedule {
        Some(x) => x,
        None => "",
    });
    let actions = match actions {
        Some(a) => clone_json(a),
        None => {
            let r = Json::Array(Vec::new());
            assert(crate::json::items_v(Seq::<Json>::empty()) =~= Seq::empty());
            r
        },
    };
    let m = match max_attempts {
        Some(m) => m,
        None => 3,
    };
    let max_attempts = if m < 1 {
        1
    } else if m > 20 {
        20
    } else {
        m
    };
    let active = match active {
        Some(a) => a,
        None => current_active,
    };
    Ok(AutomationSettings { condition: cs, schedule: string_of(s.as_slice()), actions, max_attempts, active })
}

/// The action a step of an automation chain runs (its `action_id`, or the
/// step itself when it is text) and the payload it sends (an empty object
/// when none).
pub open spec fn chain_step(item: Json) -> Option<(Seq<char>, JsonV)> {
    let id = match str_of(get_spec(item, "action_id"@)) {
        Some(a) => Some(a),
        None => match item {
            Json::String(s) => Some(s@),
            _ => None,
        },
    };
    match id {
        Some(a) => Some(
            (
                a,
                match get_spec(item, "payload"@) {
                    Some(p) => jv(p),
                    None => JsonV::Object(Seq::empty()),
                },
            ),
        ),
        None => None,
    }
}

/// A step of an automation chain, or `None` for a step that names no action.
pub fn chain_item(item: &Json) -> (r: Option<(String, Json)>)
    ensures
        match chain_step(*item) {
            Some((a, p)) => r matches Some(x) && x.0@ == a && jv(x.1) == p,
            None => r is None,
        },
{
    let id = match item.get("action_id") {
        Some(Json::String(a)) => a.clone(),
        _ => match item {
            Json::String(s) => s.clone(),
            _ => {
                return None;
            },
        },
    };
    let payload = match item.get("payload") {
        Some(p) => clone_json(p),
        None => {
            let r = Json::Object(Vec::new());
            assert(crate::json::members_v(Seq::<(String, Json)>::empty()) =~= Seq::empty());
            r
        },
    };
    Some((id, payload))
}

/// The steps a chain runs: the steps up to the first one that names no
/// action, and whether there is such a step.
pub open spec fn chain_prefix(items: Seq<Json>) -> (Seq<(Seq<char>, JsonV)>, bool)
    decreases items.len(),
{
    if items.len() == 0 {
        (Seq::empty(), false)
    } else {
        match chain_step(items[0]) {
            Some(step) => {
                let (rest, broken) = chain_prefix(items.drop_first());
                (seq![step] + rest, broken)
            },
            None => (Seq::empty(), true),
        }
    }
}

/// What an automation execution does.
pub enum AutomationPlan {
    /// Run these module actions in turn; `broken` when the chain goes on
    /// with a step that names no action, which fails the execution once
    /// the steps before it have run.
    Chain { steps: Vec<(String, Json)>, broken: bool },
    /// Hand the target to the webhook or notification sender.
    Send { action: String, target_url: String },
}

pub open spec fn step_views(v: Seq<(String, Json)>) -> Seq<(Seq<char>, JsonV)> {
    v.map_values(|p: (String, Json)| (p.0@, jv(p.1)))
}

/// Decides what an automation with action kind `action` does: run its
/// chain of module actions, or send to its target.
pub fn automation_plan(action: &str, target_url: &str, chain: &Vec<Json>) -> (r: Result<AutomationPlan, String>)
    ensures
        action@ == "actions"@ ==> if chain@.len() == 0 {
            r matches Err(m) && m@ == "automation action chain is empty"@
        } else {
            r matches Ok(AutomationPlan::Chain { steps, broken }) && (step_views(steps@), broken)
                == chain_prefix(chain@)
        },
        (action@ == "webhook"@ || action@ == "notify"@) ==> (r matches Ok(
            AutomationPlan::Send { action: a, target_url: t },
        ) && a@ == action@ && t@ == target_url@),
        !(action@ == "actions"@ || action@ == "webhook"@ || action@ == "notify"@) ==> (r matches Err(m)
            && m@ == "unsupported automation action: "@ + action@),
{
    proof {
        reveal_strlit("actions");
        reveal_strlit("webhook");
        reveal_strlit("notify");
    }
    assert("actions"@.len() == 7 && "webhook"@.len() == 7 && "notify"@.len() == 6);
    assert("actions"@[0] != "webhook"@[0] && "actions"@ != "notify"@);
    if str_eq(action, "actions") {
        if chain.len() == 0 {
            return Err(string_from("automation action chain is empty"));
        }
        let mut steps: Vec<(String, Json)> = Vec::new();
        let mut broken = false;
        let mut i: usize = 0;
        assert(chain@.skip(0) =~= chain@);
        assert(step_views(steps@) + chain_prefix(chain@).0 =~= chain_prefix(chain@).0);
        while i < chain.len() && !broken
            invariant
                i <= chain.len(),
                !broken ==> chain_prefix(chain@) == (step_views(steps@) + chain_prefix(chain@.skip(i as int)).0,
                    chain_prefix(chain@.skip(i as int)).1),
                broken ==> chain_prefix(chain@) == (step_views(steps@), true),
            decreases (chain.len() - i) as int + if broken { 0int } else { 1int },
        {
            assert(chain@.skip(i as int).drop_first() =~= chain@.skip(i + 1));
            assert(chain@.skip(i as int)[0] == chain@[i as int]);
            match chain_item(&chain[i]) {
                Some(step) => {
                    let ghost before = steps@;
                    steps.push(step);
                    assert(step_views(steps@) =~= step_views(before) + seq![chain_step(chain@[i as int])->Some_0]);
                    assert(step_views(steps@) + chain_prefix(chain@.skip(i + 1)).0 =~= step_views(before)
                        + chain_prefix(chain@.skip(i as int)).0);
                    i += 1;
                },
                None => {
                    broken = true;
                    assert(step_views(steps@) + chain_prefix(chain@.skip(i as int)).0 =~= step_views(steps@));
                },
            }
        }
        proof {
            if !broken {
                assert(chain@.skip(chain.len() as int) =~= Seq::<Json>::empty());
                assert(step_views(steps@) + Seq::<(Seq<char>, JsonV)>::empty() =~= step_views(steps@));
            }
        }
        return Ok(AutomationPlan::Chain { steps, broken });
    }
    if str_eq(action, "webhook") || str_eq(action, "notify") {
        return Ok(AutomationPlan::Send { action: string_from(action), target_url: string_from(target_url) });
    }
    let mut m = chars_of("unsupported automation action: ");
    push_str(&mut m, action);
    Err(string_of(m.as_slice()))
}

/// The automation trigger an event fires, if any.
pub open spec fn event_trigger_spec(event_type: Seq<char>) -> Option<Seq<char>> {
    if event_type == "record.created"@ {
        Some("create"@)
    } else if event_type == "record.updated"@ {
        Some("update"@)
    } else if event_type == "record.deleted"@ {
        Some("delete"@)
    } else {
        None
    }
}

pub fn event_trigger(event_type: &str) -> (r: Option<&'static str>)
    ensures
        match event_trigger_spec(event_type@) {
            Some(t) => r matches Some(x) && x@ == t,
            None => r is None,
        },
{
    if str_eq(event_type, "record.created") {
        Some("create")
    } else if str_eq(event_type, "record.updated") {
        Some("update")
    } else if str_eq(event_type, "record.deleted") {
        Some("delete")
    } else {
        None
    }
}

} // verus!
