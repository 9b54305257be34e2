//! Trigger rules: payload filters, time windows, cooldowns and rate limits
//! that decide whether an incoming trigger may create an execution.
use vstd::prelude::*;

use crate::models::TriggerAttemptStatus;

pub mod cooldown;
pub mod payload_filter;
pub mod rate_limit;
pub mod time_window;

verus! {


/// Outcome of a trigger rule evaluation.
#[derive(Debug)]
pub enum EvalOutcome {
    /// Request passes this evaluator.
    Allow,
    /// Request is rejected by this evaluator.
    Reject { status: TriggerAttemptStatus, reason: String },
}

} // verus!
