//! Handling of an incoming trigger request: which hook it is for, what
//! payload is stored, and the order of the checks it must pass.
//!
//! Some checks need the database (cooldown, rate limit, concurrency). The
//! caller performs each action [`trigger_step`] asks for and hands the
//! outcome back as the next event.
use vstd::prelude::*;

use crate::barriers::approval::requires_approval;
use crate::barriers::BarrierOutcome;
use crate::config::{HookConfig, TriggerRateLimit};
use crate::json::{json_of, parse_json, string_member, string_object, to_json_string, to_text, Json};
use vstd::string::StringSliceAdditionalSpecFns;
use crate::models::trigger_attempt::attempt_status_name;
use crate::models::TriggerAttemptStatus;
use crate::payload::{error_views, schema_errors, FieldValidationError, PayloadField, PayloadSchema};
use crate::text::{chars_of, split_seq, string_of, trim};
use crate::trigger_rules::EvalOutcome;

verus! {

/// The client address: the first `X-Forwarded-For` entry, trimmed, when
/// there is a non-empty one, else the peer address.
pub open spec fn source_ip(forwarded_for: Option<Seq<char>>, peer: Seq<char>) -> Seq<char> {
    match forwarded_for {
        Some(v) => {
            let first = trim(split_seq(v, ',')[0]);
            if first.len() > 0 {
                first
            } else {
                peer
            }
        },
        None => peer,
    }
}

/// Extract the client IP address from the request.
///
/// Prefers the first address in `X-Forwarded-For` (set by reverse proxies),
/// falls back to the peer socket address.
pub fn extract_source_ip(forwarded_for: Option<&str>, peer: &str) -> (r: String)
    ensures
        r@ == source_ip(
            match forwarded_for {
                Some(v) => Some(v@),
                None => None,
            },
            peer@,
        ),
{
    match forwarded_for {
        Some(v) => {
            let vc = chars_of(v);
            let pieces = crate::text::split_chars(vc.as_slice(), ',');
            proof {
                assert(crate::text::views(pieces@) == split_seq(v@, ','));
                lemma_split_nonempty(v@, ',');
            }
            assert(crate::text::views(pieces@)[0] == pieces@[0]@);
            let first = crate::text::trim_chars(pieces[0].as_slice());
            if first.len() > 0 {
                string_of(first.as_slice())
            } else {
                peer.to_owned()
            }
        },
        None => peer.to_owned(),
    }
}

proof fn lemma_split_nonempty(s: Seq<char>, c: char)
    ensures
        split_seq(s, c).len() >= 1,
{
}

/// The first hook with this slug, enabled or not.
pub open spec fn hook_index(hooks: Seq<HookConfig>, slug: Seq<char>, enabled_only: bool) -> Option<int>
    decreases hooks.len(),
{
    if hooks.len() == 0 {
        None
    } else {
        match hook_index(hooks.drop_last(), slug, enabled_only) {
            Some(i) => Some(i),
            None => if hooks.last().slug@ == slug && (!enabled_only || hooks.last().enabled) {
                Some(hooks.len() - 1)
            } else {
                None
            },
        }
    }
}

/// Index of the first hook with `slug` (and, when `enabled_only`, enabled).
pub fn find_hook(hooks: &[HookConfig], slug: &str, enabled_only: bool) -> (r: Option<usize>)
    ensures
        r matches Some(i) ==> hook_index(hooks@, slug@, enabled_only) == Some(i as int),
        r is None ==> hook_index(hooks@, slug@, enabled_only) is None,
{
    let mut i: usize = 0;
    while i < hooks.len()
        invariant
            i <= hooks@.len(),
            hook_index(hooks@.take(i as int), slug@, enabled_only) is None,
        decreases hooks@.len() - i,
    {
        assert(hooks@.take(i + 1).drop_last() == hooks@.take(i as int));
        let h = &hooks[i];
        if crate::models::same_text(h.slug.as_str(), slug) && (!enabled_only || h.enabled) {
            proof {
                lemma_index_extends(hooks@, i as int, slug@, enabled_only);
            }
            return Some(i);
        }
        i = i + 1;
    }
    assert(hooks@.take(hooks@.len() as int) == hooks@);
    None
}

proof fn lemma_index_extends(hooks: Seq<HookConfig>, i: int, slug: Seq<char>, enabled_only: bool)
    requires
        0 <= i < hooks.len(),
        hook_index(hooks.take(i + 1), slug, enabled_only) == Some(i),
    ensures
        hook_index(hooks, slug, enabled_only) == Some(i),
    decreases hooks.len() - i,
{
    if i + 1 < hooks.len() {
        let k = hooks.len() - 1;
        assert(hooks.take(k + 1) == hooks);
        lemma_prefix_keeps_index(hooks, i + 1, slug, enabled_only, i);
    } else {
        assert(hooks.take(i + 1) == hooks);
    }
}

proof fn lemma_prefix_keeps_index(hooks: Seq<HookConfig>, n: int, slug: Seq<char>, enabled_only: bool, i: int)
    requires
        0 <= n <= hooks.len(),
        hook_index(hooks.take(n), slug, enabled_only) == Some(i),
    ensures
        hook_index(hooks, slug, enabled_only) == Some(i),
    decreases hooks.len() - n,
{
    if n < hooks.len() {
        assert(hooks.take(n + 1).drop_last() == hooks.take(n));
        lemma_prefix_keeps_index(hooks, n + 1, slug, enabled_only, i);
    } else {
        assert(hooks.take(n) == hooks);
    }
}

/// The text of `bytes` read as UTF-8, each invalid sequence replaced by
/// U+FFFD, as `String::from_utf8_lossy` gives it.
pub uninterp spec fn utf8_lossy(bytes: Seq<u8>) -> Seq<char>;

/// `String::from_utf8_lossy`. Claims the named result, and that valid
/// UTF-8 is read as the text it encodes (its documentation: valid input
/// is taken unchanged, only invalid sequences are replaced).
#[verifier::external_body]
fn lossy_text(bytes: &[u8]) -> (s: String)
    ensures
        s@ == utf8_lossy(bytes@),
        vstd::utf8::valid_utf8(bytes@) ==> s@ == vstd::utf8::decode_utf8(bytes@),
{
    String::from_utf8_lossy(bytes).into_owned()
}

/// Why a payload was refused.
#[derive(Debug)]
pub enum PayloadRejection {
    /// The body is not JSON; the parser's message.
    InvalidJson(String),
    /// The body does not match the hook's schema.
    Invalid(Vec<FieldValidationError>),
}

/// Whether `j` is the empty object.
pub open spec fn is_empty_object(j: Json) -> bool {
    j matches Json::Object(fields) && fields@.len() == 0
}

proof fn lemma_empty_objects_same_errors(fields: Seq<PayloadField>, a: Json, b: Json)
    requires
        is_empty_object(a),
        is_empty_object(b),
    ensures
        schema_errors(fields, a) == schema_errors(fields, b),
    decreases fields.len(),
{
    if fields.len() > 0 {
        lemma_empty_objects_same_errors(fields.drop_last(), a, b);
        let name = fields.last().name@;
        lemma_split_nonempty(name, '.');
        assert(crate::json::resolve_path(a, name) is None);
        assert(crate::json::resolve_path(b, name) is None);
    }
}

/// Prepare the payload stored with an execution.
///
/// With a schema the body must be JSON (an empty body counts as `{}`) and
/// match the schema; the stored payload is its compact JSON text. Without
/// a schema an empty body is stored as `{}`, a JSON body as its compact
/// text, and anything else as its text (valid UTF-8 unchanged). The body is
/// read as JSON by [`parse_json`].
pub fn prepare_payload(schema: Option<&PayloadSchema>, body: &[u8]) -> (r: Result<String, PayloadRejection>)
    ensures
        match schema {
            Some(s) => if body@.len() == 0 {
                &&& forall|e: Json| is_empty_object(e) ==> (schema_errors(s.fields@, e).len() == 0 ==> (r matches Ok(t) && t@ == seq!['{', '}']))
                &&& forall|e: Json| is_empty_object(e) ==> (schema_errors(s.fields@, e).len() > 0 ==> (r matches Err(PayloadRejection::Invalid(es))
                    && error_views(es@) == schema_errors(s.fields@, e)))
            } else {
                match json_of(body@) {
                    Err(e) => r matches Err(PayloadRejection::InvalidJson(m)) && m@ == e,
                    Ok(v) => {
                        &&& schema_errors(s.fields@, v).len() == 0 ==> (r matches Ok(t) && t@ == to_text(v))
                        &&& schema_errors(s.fields@, v).len() > 0 ==> (r matches Err(PayloadRejection::Invalid(es))
                            && error_views(es@) == schema_errors(s.fields@, v))
                    },
                }
            },
            None => r matches Ok(t) && t@ == if body@.len() == 0 {
                seq!['{', '}']
            } else {
                match json_of(body@) {
                    Ok(v) => to_text(v),
                    Err(_) => utf8_lossy(body@),
                }
            },
        },
        schema is None && body@.len() > 0 && json_of(body@) is Err && vstd::utf8::valid_utf8(body@) ==> (r matches Ok(t)
            && t@ == vstd::utf8::decode_utf8(body@)),
{
    match schema {
        Some(s) => {
            let value = if body.len() == 0 {
                Json::Object(Vec::new())
            } else {
                match parse_json(body) {
                    Ok(v) => v,
                    Err(e) => return Err(PayloadRejection::InvalidJson(e)),
                }
            };
            proof {
                if body@.len() == 0 {
                    assert forall|e: Json| is_empty_object(e) implies schema_errors(s.fields@, e)
                        == schema_errors(s.fields@, value) by {
                        lemma_empty_objects_same_errors(s.fields@, e, value);
                    }
                }
            }
            match s.validate(&value) {
                Err(errors) => Err(PayloadRejection::Invalid(errors)),
                Ok(()) => {
                    let t = to_json_string(&value);
                    proof {
                        if body@.len() == 0 {
                            assert(to_text(value) == seq!['{', '}']);
                        }
                    }
                    Ok(string_of(t.as_slice()))
                },
            }
        },
        None => {
            if body.len() == 0 {
                return Ok(string_of(vec!['{', '}'].as_slice()));
            }
            match parse_json(body) {
                Ok(v) => {
                    let t = to_json_string(&v);
                    Ok(string_of(t.as_slice()))
                },
                Err(_) => Ok(lossy_text(body)),
            }
        },
    }
}

/// The text `{:?}` writes for a list of field errors with these fields and
/// messages (the derived `Debug` of `Vec<FieldValidationError>`).
pub uninterp spec fn errors_debug(errors: Seq<(Seq<char>, Seq<char>)>) -> Seq<char>;

/// `format!("{:?}", errors)`. Claims only the named result.
#[verifier::external_body]
fn debug_errors(errors: &Vec<FieldValidationError>) -> (s: String)
    ensures
        s@ == errors_debug(error_views(errors@)),
{
    format!("{:?}", errors)
}

/// The reason recorded with the trigger attempt of a refused payload.
pub fn rejection_reason(rejection: &PayloadRejection) -> (r: String)
    ensures
        rejection matches PayloadRejection::InvalidJson(m) ==> r@ == "invalid JSON: "@ + m@,
        rejection matches PayloadRejection::Invalid(es) ==> r@ == "payload validation failed: "@ + errors_debug(
            error_views(es@),
        ),
{
    let mut out: Vec<char> = Vec::new();
    match rejection {
        PayloadRejection::InvalidJson(m) => {
            crate::text::extend_str(&mut out, "invalid JSON: ");
            crate::text::extend_str(&mut out, m.as_str());
        },
        PayloadRejection::Invalid(es) => {
            crate::text::extend_str(&mut out, "payload validation failed: ");
            let d = debug_errors(es);
            crate::text::extend_str(&mut out, d.as_str());
        },
    }
    string_of(out.as_slice())
}

/// What a stored payload reads as for the payload filters: the JSON it
/// holds, or an empty object when it is not JSON.
pub fn stored_payload_value(payload_text: &str) -> (v: Json)
    ensures
        json_of(payload_text.spec_bytes()) matches Ok(x) ==> v == x,
        json_of(payload_text.spec_bytes()) is Err ==> is_empty_object(v),
{
    match parse_json(payload_text.as_bytes()) {
        Ok(v) => v,
        Err(_) => Json::Object(Vec::new()),
    }
}

/// What the trigger handler does next.
#[derive(Debug)]
pub enum TriggerAction {
    /// Evaluate the payload filters.
    EvaluateFilters,
    /// Evaluate the time windows.
    EvaluateWindows,
    /// Look up the latest start and check this cooldown (nanoseconds).
    EvaluateCooldown(u128),
    /// Count this window's triggers and check the limit.
    EvaluateRateLimit(TriggerRateLimit),
    /// Pass the concurrency barrier.
    EvaluateConcurrency,
    /// Record the attempt and answer; no execution runs.
    Respond {
        http_status: u16,
        attempt_status: TriggerAttemptStatus,
        reason: String,
        execution_id: Option<String>,
        body: Json,
    },
    /// Create the execution awaiting approval, record the attempt, answer.
    CreatePendingApproval,
    /// Create the execution, record the attempt, answer and run it.
    CreateAndRun,
}

/// The answer to the last action of the trigger handler.
#[derive(Debug)]
pub enum TriggerEvent {
    /// The request is authenticated and its payload prepared.
    Start,
    FiltersEvaluated(EvalOutcome),
    WindowsEvaluated(EvalOutcome),
    CooldownEvaluated(EvalOutcome),
    RateLimitEvaluated(EvalOutcome),
    ConcurrencyEvaluated(BarrierOutcome),
}

/// Whether check number `k` applies to the hook: 0 payload filters (when
/// there are some), 1 time windows (when there are some), 2 cooldown,
/// 3 rate limit, 4 concurrency; 5 is the end.
pub open spec fn check_applies(hook: HookConfig, k: nat) -> bool {
    if k == 0 {
        hook.trigger_rules matches Some(r) && (r.payload_filters matches Some(f) && f@.len() > 0)
    } else if k == 1 {
        hook.trigger_rules matches Some(r) && (r.time_windows matches Some(w) && w@.len() > 0)
    } else if k == 2 {
        hook.trigger_rules matches Some(r) && r.cooldown is Some
    } else if k == 3 {
        hook.trigger_rules matches Some(r) && r.rate_limit is Some
    } else if k == 4 {
        hook.concurrency is Some
    } else {
        true
    }
}

/// The first check from `k` on that applies to the hook.
pub open spec fn first_check(hook: HookConfig, k: nat) -> nat
    decreases 5 - k,
{
    if k >= 5 || check_applies(hook, k) {
        k
    } else {
        first_check(hook, k + 1)
    }
}

/// Whether `a` is the action for the first check from `k` on: the check
/// itself, or, past the last check, creating the execution (awaiting
/// approval when the hook requires it).
pub open spec fn continues_at(hook: HookConfig, k: nat, a: TriggerAction) -> bool {
    let c = first_check(hook, k);
    if c == 0 {
        a is EvaluateFilters
    } else if c == 1 {
        a is EvaluateWindows
    } else if c == 2 {
        a matches TriggerAction::EvaluateCooldown(cd) && hook.trigger_rules->0.cooldown == Some(cd)
    } else if c == 3 {
        a matches TriggerAction::EvaluateRateLimit(rl) && hook.trigger_rules->0.rate_limit == Some(rl)
    } else if c == 4 {
        a is EvaluateConcurrency
    } else if hook.approval matches Some(ap) && ap.required {
        a is CreatePendingApproval
    } else {
        a is CreateAndRun
    }
}

/// The checks run in order and each runs exactly when it is configured:
/// from the start, payload filters are evaluated when the hook has a
/// non-empty filter list; time windows come next, from the start or after
/// the filters, exactly when the hook has a non-empty window list; then
/// the cooldown, the rate limit and the concurrency barrier when they are
/// set; an execution is created only once none of them is left.
pub proof fn checks_run_exactly_when_configured(hook: HookConfig, k: nat, a: TriggerAction)
    requires
        k <= 5,
        continues_at(hook, k, a),
    ensures
        ({
            let rules = hook.trigger_rules->0;
            let filters = hook.trigger_rules is Some && rules.payload_filters is Some && rules.payload_filters->0@.len() >= 1;
            let windows = hook.trigger_rules is Some && rules.time_windows is Some && rules.time_windows->0@.len() >= 1;
            let cooldown = hook.trigger_rules is Some && rules.cooldown is Some;
            let rate = hook.trigger_rules is Some && rules.rate_limit is Some;
            let barrier = hook.concurrency is Some;
            &&& (a is EvaluateFilters <==> k == 0 && filters)
            &&& (a is EvaluateWindows <==> k <= 1 && windows && !(k == 0 && filters))
            &&& (a is EvaluateCooldown <==> k <= 2 && cooldown && !(k == 0 && filters) && !(k <= 1 && windows))
            &&& (a is EvaluateRateLimit <==> k <= 3 && rate && !(k == 0 && filters) && !(k <= 1 && windows) && !(k <= 2
                && cooldown))
            &&& (a is EvaluateConcurrency <==> k <= 4 && barrier && !(k == 0 && filters) && !(k <= 1 && windows) && !(k
                <= 2 && cooldown) && !(k <= 3 && rate))
            &&& (a is CreateAndRun || a is CreatePendingApproval) <==> (!(k == 0 && filters) && !(k <= 1 && windows)
                && !(k <= 2 && cooldown) && !(k <= 3 && rate) && !(k <= 4 && barrier))
        }),
{
    reveal_with_fuel(first_check, 6);
}

/// Whether `a` answers with `http_status` and the rejection as a JSON
/// object `{"reason": .., "status": ..}`, recording the attempt as
/// rejected.
pub open spec fn rejects_with(a: TriggerAction, http_status: u16, status: TriggerAttemptStatus, reason: Seq<char>) -> bool {
    &&& a matches TriggerAction::Respond { http_status: h, attempt_status: s, reason: r, execution_id: x, body: b }
    &&& h == http_status && s == status && r@ == reason && x is None
    &&& string_object(b, seq![("reason"@, reason), ("status"@, attempt_status_name(status))])
}

fn check_action(hook: &HookConfig, k: u8) -> (a: TriggerAction)
    requires
        k <= 5,
    ensures
        continues_at(*hook, k as nat, a),
    decreases 5 - k,
{
    let applies = if k == 0 {
        match &hook.trigger_rules {
            Some(r) => match &r.payload_filters {
                Some(f) => f.len() > 0,
                None => false,
            },
            None => false,
        }
    } else if k == 1 {
        match &hook.trigger_rules {
            Some(r) => match &r.time_windows {
                Some(w) => w.len() > 0,
                None => false,
            },
            None => false,
        }
    } else if k == 2 {
        match &hook.trigger_rules {
            Some(r) => r.cooldown.is_some(),
            None => false,
        }
    } else if k == 3 {
        match &hook.trigger_rules {
            Some(r) => r.rate_limit.is_some(),
            None => false,
        }
    } else if k == 4 {
        hook.concurrency.is_some()
    } else {
        true
    };
    assert(applies == check_applies(*hook, k as nat));
    if !applies {
        return check_action(hook, k + 1);
    }
    if k == 0 {
        TriggerAction::EvaluateFilters
    } else if k == 1 {
        TriggerAction::EvaluateWindows
    } else if k == 2 {
        match &hook.trigger_rules {
            Some(r) => match r.cooldown {
                Some(cd) => TriggerAction::EvaluateCooldown(cd),
                None => TriggerAction::EvaluateConcurrency,
            },
            None => TriggerAction::EvaluateConcurrency,
        }
    } else if k == 3 {
        match &hook.trigger_rules {
            Some(r) => match r.rate_limit {
                Some(rl) => TriggerAction::EvaluateRateLimit(rl),
                None => TriggerAction::EvaluateConcurrency,
            },
            None => TriggerAction::EvaluateConcurrency,
        }
    } else if k == 4 {
        TriggerAction::EvaluateConcurrency
    } else if requires_approval(hook.approval.as_ref()) {
        TriggerAction::CreatePendingApproval
    } else {
        TriggerAction::CreateAndRun
    }
}

fn reject(http_status: u16, status: TriggerAttemptStatus, reason: String) -> (a: TriggerAction)
    ensures
        rejects_with(a, http_status, status, reason@),
{
    let mut fields: Vec<(String, Json)> = Vec::new();
    fields.push(string_member("reason", reason.clone()));
    fields.push(string_member("status", status.to_string()));
    TriggerAction::Respond {
        http_status,
        attempt_status: status,
        reason,
        execution_id: None,
        body: Json::Object(fields),
    }
}

/// Decide the trigger handler's next action from the answer to its last.
///
/// The checks run in order: payload filters, time windows, cooldown, rate
/// limit, concurrency; each is skipped when the hook does not configure it.
/// A rejection by a rule answers 200 with the status and reason (429 for
/// the rate limit); a rejection by the concurrency barrier answers 503; a
/// queued execution answers 200 with its id. When every check passes the
/// execution is created, awaiting approval if the hook requires it.
pub fn trigger_step(hook: &HookConfig, event: TriggerEvent) -> (a: TriggerAction)
    ensures
        match event {
            TriggerEvent::Start => continues_at(*hook, 0, a),
            TriggerEvent::FiltersEvaluated(EvalOutcome::Allow) => continues_at(*hook, 1, a),
            TriggerEvent::FiltersEvaluated(EvalOutcome::Reject { status, reason }) => rejects_with(a, 200, status, reason@),
            TriggerEvent::WindowsEvaluated(EvalOutcome::Allow) => continues_at(*hook, 2, a),
            TriggerEvent::WindowsEvaluated(EvalOutcome::Reject { status, reason }) => rejects_with(a, 200, status, reason@),
            TriggerEvent::CooldownEvaluated(EvalOutcome::Allow) => continues_at(*hook, 3, a),
            TriggerEvent::CooldownEvaluated(EvalOutcome::Reject { status, reason }) => rejects_with(a, 200, status, reason@),
            TriggerEvent::RateLimitEvaluated(EvalOutcome::Allow) => continues_at(*hook, 4, a),
            TriggerEvent::RateLimitEvaluated(EvalOutcome::Reject { status, reason }) => rejects_with(a, 429, status, reason@),
            TriggerEvent::ConcurrencyEvaluated(BarrierOutcome::Proceed) => continues_at(*hook, 5, a),
            TriggerEvent::ConcurrencyEvaluated(BarrierOutcome::Reject { status, reason }) => rejects_with(a, 503, status, reason@),
            TriggerEvent::ConcurrencyEvaluated(BarrierOutcome::Defer { execution_id, status: _, reason }) => {
                &&& a matches TriggerAction::Respond { http_status: h, attempt_status: s, reason: r, execution_id: x, body: b }
                &&& h == 200 && s == TriggerAttemptStatus::Fired && r@ == reason@
                &&& x matches Some(id) && id@ == execution_id@
                &&& string_object(b, seq![("execution_id"@, execution_id@), ("reason"@, reason@), ("status"@, "queued"@)])
            },
        },
{
    match event {
        TriggerEvent::Start => check_action(hook, 0),
        TriggerEvent::FiltersEvaluated(EvalOutcome::Allow) => check_action(hook, 1),
        TriggerEvent::FiltersEvaluated(EvalOutcome::Reject { status, reason }) => reject(200, status, reason),
        TriggerEvent::WindowsEvaluated(EvalOutcome::Allow) => check_action(hook, 2),
        TriggerEvent::WindowsEvaluated(EvalOutcome::Reject { status, reason }) => reject(200, status, reason),
        TriggerEvent::CooldownEvaluated(EvalOutcome::Allow) => check_action(hook, 3),
        TriggerEvent::CooldownEvaluated(EvalOutcome::Reject { status, reason }) => reject(200, status, reason),
        TriggerEvent::RateLimitEvaluated(EvalOutcome::Allow) => check_action(hook, 4),
        TriggerEvent::RateLimitEvaluated(EvalOutcome::Reject { status, reason }) => reject(429, status, reason),
        TriggerEvent::ConcurrencyEvaluated(BarrierOutcome::Proceed) => check_action(hook, 5),
        TriggerEvent::ConcurrencyEvaluated(BarrierOutcome::Reject { status, reason }) => reject(503, status, reason),
        TriggerEvent::ConcurrencyEvaluated(BarrierOutcome::Defer { execution_id, status: _, reason }) => {
            let mut fields: Vec<(String, Json)> = Vec::new();
            fields.push(string_member("execution_id", execution_id.clone()));
            fields.push(string_member("reason", reason.clone()));
            fields.push(string_member("status", "queued".to_owned()));
            TriggerAction::Respond {
                http_status: 200,
                attempt_status: TriggerAttemptStatus::Fired,
                reason,
                execution_id: Some(execution_id),
                body: Json::Object(fields),
            }
        },
    }
}

/// The reason recorded with the trigger attempt of an accepted trigger.
pub fn accepted_reason(pending_approval: bool) -> (r: &'static str)
    ensures
        pending_approval ==> r@ == "pending approval"@,
        !pending_approval ==> r@ == "ok"@,
{
    proof {
        reveal_strlit("pending approval");
        reveal_strlit("ok");
    }
    if pending_approval {
        "pending approval"
    } else {
        "ok"
    }
}

/// The answer to an accepted trigger: `{"execution_id": ..}`, with
/// `"status": "pending_approval"` when the execution awaits approval.
pub fn accepted_body(execution_id: &str, pending_approval: bool) -> (b: Json)
    ensures
        pending_approval ==> string_object(b, seq![("execution_id"@, execution_id@), ("status"@, "pending_approval"@)]),
        !pending_approval ==> string_object(b, seq![("execution_id"@, execution_id@)]),
{
    let mut fields: Vec<(String, Json)> = Vec::new();
    fields.push(string_member("execution_id", execution_id.to_owned()));
    if pending_approval {
        fields.push(string_member("status", "pending_approval".to_owned()));
    }
    Json::Object(fields)
}

/// The answer to a refused payload: 400 with `{"error": "invalid JSON",
/// "message": ..}`, or 422 with `{"details": [{"field", "message"}..],
/// "error": "payload validation failed"}`.
pub fn payload_rejection_response(rejection: &PayloadRejection) -> (r: (u16, Json))
    ensures
        rejection matches PayloadRejection::InvalidJson(m) ==> r.0 == 400 && string_object(
            r.1,
            seq![("error"@, "invalid JSON"@), ("message"@, m@)],
        ),
        rejection matches PayloadRejection::Invalid(es) ==> {
            &&& r.0 == 422
            &&& r.1 matches Json::Object(fields)
            &&& fields@.len() == 2
            &&& fields@[0].0@ == "details"@ && fields@[1].0@ == "error"@
            &&& fields@[1].1 matches Json::String(e) && e@ == "payload validation failed"@
            &&& fields@[0].1 matches Json::Array(items) && items@.len() == es@.len()
                && forall|i: int| 0 <= i < es@.len() ==> string_object(
                #[trigger] items@[i],
                seq![("field"@, es@[i].field@), ("message"@, es@[i].message@)],
            )
        },
{
    match rejection {
        PayloadRejection::InvalidJson(m) => {
            let mut fields: Vec<(String, Json)> = Vec::new();
            fields.push(string_member("error", "invalid JSON".to_owned()));
            fields.push(string_member("message", m.clone()));
            (400, Json::Object(fields))
        },
        PayloadRejection::Invalid(es) => {
            let mut items: Vec<Json> = Vec::new();
            let mut i: usize = 0;
            while i < es.len()
                invariant
                    i <= es@.len(),
                    items@.len() == i,
                    forall|j: int| 0 <= j < i ==> string_object(
                        #[trigger] items@[j],
                        seq![("field"@, es@[j].field@), ("message"@, es@[j].message@)],
                    ),
                decreases es@.len() - i,
            {
                let mut f: Vec<(String, Json)> = Vec::new();
                f.push(string_member("field", es[i].field.clone()));
                f.push(string_member("message", es[i].message.clone()));
                items.push(Json::Object(f));
                i = i + 1;
            }
            let mut fields: Vec<(String, Json)> = Vec::new();
            fields.push(("details".to_owned(), Json::Array(items)));
            fields.push(string_member("error", "payload validation failed".to_owned()));
            (422, Json::Object(fields))
        },
    }
}

} // verus!
