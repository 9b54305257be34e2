//! Completion notifications: whether one is sent, and what it says.
use vstd::prelude::*;

use crate::config::{HookConfig, NotificationConfig, NotifyOutcome};
use crate::executor::ExecutionResult;
use crate::interpolation::{interpolate_owned, interpolated};
use crate::json::{string_member as member, string_object, Json};
use crate::models::execution::Execution;
use crate::models::execution::execution_status_name;
use crate::models::ExecutionStatus;
use crate::text::{dec_int, push_dec_i64, string_of};
use crate::timing::{opt_string_view, seconds_between, seconds_label};

verus! {

/// The notification outcome of a terminal status, if it has one.
pub open spec fn outcome_of(status: ExecutionStatus) -> Option<NotifyOutcome> {
    match status {
        ExecutionStatus::Success => Some(NotifyOutcome::Success),
        ExecutionStatus::Failed => Some(NotifyOutcome::Failure),
        ExecutionStatus::TimedOut => Some(NotifyOutcome::Timeout),
        _ => None,
    }
}

/// Map ExecutionStatus to NotifyOutcome for filtering.
pub fn status_to_outcome(status: &ExecutionStatus) -> (r: Option<NotifyOutcome>)
    ensures
        r == outcome_of(*status),
{
    match status {
        ExecutionStatus::Success => Some(NotifyOutcome::Success),
        ExecutionStatus::Failed => Some(NotifyOutcome::Failure),
        ExecutionStatus::TimedOut => Some(NotifyOutcome::Timeout),
        _ => None,
    }
}

/// Whether a notification is sent for a run that ended with `status`: its
/// outcome must be one the hook asks to be told about.
pub fn should_notify(config: &NotificationConfig, status: &ExecutionStatus) -> (b: bool)
    ensures
        b == (outcome_of(*status) matches Some(o) && config.on@.contains(o)),
{
    let outcome = match status_to_outcome(status) {
        Some(o) => o,
        None => return false,
    };
    let mut i: usize = 0;
    while i < config.on.len()
        invariant
            i <= config.on@.len(),
            outcome_of(*status) == Some(outcome),
            forall|j: int| 0 <= j < i ==> config.on@[j] != outcome,
        decreases config.on@.len() - i,
    {
        if config.on[i] == outcome {
            assert(config.on@[i as int] == outcome);
            return true;
        }
        i = i + 1;
    }
    false
}

/// The text of an optional exit code: its digits, or empty.
pub open spec fn exit_code_text(code: Option<i32>) -> Seq<char> {
    match code {
        Some(c) => dec_int(c as int),
        None => seq![],
    }
}

/// The members of the notification context, by key in sorted order, as
/// strings: duration, execution id, exit code, hook name and slug, status
/// and trigger source.
pub open spec fn context_members(hook: HookConfig, result: ExecutionResult, execution: Execution) -> Seq<(Seq<char>, Seq<char>)> {
    seq![
        ("duration"@, seconds_label(opt_string_view(execution.started_at), opt_string_view(execution.completed_at))),
        ("execution_id"@, execution.id@),
        ("exit_code"@, exit_code_text(result.exit_code)),
        ("hook_name"@, hook.name@),
        ("hook_slug"@, hook.slug@),
        ("status"@, execution_status_name(result.status)),
        ("trigger_source"@, execution.trigger_source@),
    ]
}

/// Build a JSON context for notification template interpolation.
pub fn notification_context(hook: &HookConfig, result: &ExecutionResult, execution: &Execution) -> (j: Json)
    ensures
        string_object(j, context_members(*hook, *result, *execution)),
{
    let duration = seconds_between(&execution.started_at, &execution.completed_at);
    let exit_code = match result.exit_code {
        Some(c) => {
            let mut m: Vec<char> = Vec::new();
            push_dec_i64(&mut m, c as i64);
            string_of(m.as_slice())
        },
        None => String::new(),
    };
    let mut fields: Vec<(String, Json)> = Vec::new();
    fields.push(member("duration", duration));
    fields.push(member("execution_id", execution.id.clone()));
    fields.push(member("exit_code", exit_code));
    fields.push(member("hook_name", hook.name.clone()));
    fields.push(member("hook_slug", hook.slug.clone()));
    fields.push(member("status", result.status.to_string()));
    fields.push(member("trigger_source", execution.trigger_source.clone()));
    let ghost ms = context_members(*hook, *result, *execution);
    assert forall|i: int| 0 <= i < ms.len() implies (#[trigger] fields@[i]).0@ == ms[i].0 && (
        fields@[i].1 matches Json::String(v) && v@ == ms[i].1) by {
        if i == 2 {
            match result.exit_code {
                Some(c) => {},
                None => {
                    assert(exit_code@ =~= Seq::<char>::empty());
                },
            }
        }
    }
    Json::Object(fields)
}

/// The body of the notification: the configured template filled from the
/// context.
pub fn notification_body(config: &NotificationConfig, context: &Json) -> (b: String)
    ensures
        b@ == interpolated(config.body@, *context),
{
    interpolate_owned(config.body.as_str(), context)
}

} // verus!
