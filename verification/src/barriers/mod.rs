//! Barriers an execution passes before it runs: concurrency and approval.
//!
//! When an execution finishes, the hook's lock passes to the next queued
//! execution or is released; [`completion_start`], [`after_peek`] and
//! [`after_hand_off`] decide each step of that hand-over.
use vstd::prelude::*;

use crate::config::{ApprovalConfig, ConcurrencyConfig, ConcurrencyMode};
use crate::models::{ExecutionStatus, TriggerAttemptStatus};

pub mod approval;
pub mod concurrency;
pub mod execution_queue;

use approval::requires_approval;
use execution_queue::QueueEntry;

verus! {

/// Outcome of an execution barrier check.
#[derive(Debug)]
pub enum BarrierOutcome {
    /// Execution proceeds immediately.
    Proceed,
    /// Request is rejected -- no execution record created.
    Reject { status: TriggerAttemptStatus, reason: String },
    /// Execution is deferred -- record created but not run yet.
    Defer { execution_id: String, status: ExecutionStatus, reason: String },
}

/// What the completion hand-over does next.
#[derive(Debug)]
pub enum CompletionAction {
    /// Release the hook's execution lock; nothing else is to run.
    Release,
    /// Look at the next waiting entry of the hook's queue.
    PeekQueue,
    /// Pass the lock to the queued execution.
    HandOff { entry_id: String, execution_id: String },
    /// Mark the queue entry ready and the execution as awaiting approval.
    AwaitApproval { entry_id: String, execution_id: String },
    /// Mark the queue entry ready and run the queued execution.
    RunNext { entry_id: String, execution_id: String },
    /// Stop: the lock could not be handed off.
    Stop,
}

/// First step when an execution reaches a terminal state: only a hook with
/// a queue looks for a successor; every other hook releases its lock.
pub fn completion_start(concurrency: Option<ConcurrencyConfig>) -> (a: CompletionAction)
    ensures
        (a is PeekQueue) <==> (concurrency matches Some(c) && c.mode == ConcurrencyMode::Queue),
        !(a is PeekQueue) ==> a is Release,
{
    match concurrency {
        Some(c) => match c.mode {
            ConcurrencyMode::Queue => CompletionAction::PeekQueue,
            ConcurrencyMode::Mutex => CompletionAction::Release,
        },
        None => CompletionAction::Release,
    }
}

/// After looking at the queue: release the lock when it is empty, else hand
/// it to the first waiting execution.
pub fn after_peek(next: Option<QueueEntry>) -> (a: CompletionAction)
    ensures
        next is None ==> a is Release,
        next matches Some(q) ==> (a matches CompletionAction::HandOff { entry_id, execution_id }
            && entry_id@ == q.id@ && execution_id@ == q.execution_id@),
{
    match next {
        None => CompletionAction::Release,
        Some(q) => CompletionAction::HandOff { entry_id: q.id, execution_id: q.execution_id },
    }
}

/// After the hand-off: stop if it failed; else the dequeued execution
/// awaits approval when the hook requires it, or runs.
pub fn after_hand_off(handed_off: bool, entry_id: String, execution_id: String, approval: Option<ApprovalConfig>) -> (a: CompletionAction)
    ensures
        !handed_off ==> a is Stop,
        handed_off && (approval matches Some(ap) && ap.required) ==> (a matches CompletionAction::AwaitApproval { entry_id: e, execution_id: x }
            && e@ == entry_id@ && x@ == execution_id@),
        handed_off && !(approval matches Some(ap) && ap.required) ==> (a matches CompletionAction::RunNext { entry_id: e, execution_id: x }
            && e@ == entry_id@ && x@ == execution_id@),
{
    if !handed_off {
        return CompletionAction::Stop;
    }
    if requires_approval(approval.as_ref()) {
        CompletionAction::AwaitApproval { entry_id, execution_id }
    } else {
        CompletionAction::RunNext { entry_id, execution_id }
    }
}

} // verus!
