//! The concurrency barrier: at most one running execution per hook, with
//! either rejection or a bounded queue for the requests that find it busy.
//!
//! The barrier talks to the database in up to four steps. Each answer is an
//! event; [`next_step`] says what to do with it.
use vstd::prelude::*;

use super::BarrierOutcome;
use crate::config::{ConcurrencyConfig, ConcurrencyMode};
use crate::models::{ExecutionStatus, TriggerAttemptStatus};
use crate::text::{dec, dec_int, extend_str, push_dec, push_dec_i64, string_of};

verus! {

/// The answer to the barrier's last database step; `None` or `false` when
/// the step failed.
#[derive(Debug)]
pub enum ConcurrencyEvent {
    /// Whether the hook's execution lock was taken for this execution.
    LockAttempted(Option<bool>),
    /// How many executions wait in the hook's queue.
    QueueCounted(Option<i64>),
    /// Whether the execution record was created.
    ExecutionCreated(bool),
    /// The queue position the execution was given.
    Enqueued(Option<i64>),
}

/// What the barrier does next.
#[derive(Debug)]
pub enum ConcurrencyStep {
    /// The barrier has its outcome.
    Decided(BarrierOutcome),
    /// Count the executions waiting in the hook's queue.
    CountWaiting,
    /// Create the execution record (the queue refers to it).
    CreateExecution,
    /// Put the execution in the hook's queue.
    Enqueue,
}

/// A rejection with the given reason.
pub open spec fn rejected(step: ConcurrencyStep, reason: Seq<char>) -> bool {
    step matches ConcurrencyStep::Decided(BarrierOutcome::Reject { status, reason: r })
        && status == TriggerAttemptStatus::ConcurrencyRejected && r@ == reason
}

fn reject(reason: String) -> (step: ConcurrencyStep)
    ensures
        rejected(step, reason@),
{
    ConcurrencyStep::Decided(
        BarrierOutcome::Reject { status: TriggerAttemptStatus::ConcurrencyRejected, reason },
    )
}

/// Decide the barrier's next step from the answer to its last one.
///
/// Taking the lock lets the execution proceed. A busy hook rejects in mutex
/// mode; in queue mode the execution is queued unless the queue already
/// holds `queue_depth` executions, and is then deferred with its position.
/// A failed database step rejects with an internal error.
pub fn next_step(config: &ConcurrencyConfig, exec_id: &str, event: ConcurrencyEvent) -> (step: ConcurrencyStep)
    ensures
        match event {
            ConcurrencyEvent::LockAttempted(None) => rejected(step, "internal error acquiring lock"@),
            ConcurrencyEvent::LockAttempted(Some(true)) => step matches ConcurrencyStep::Decided(BarrierOutcome::Proceed),
            ConcurrencyEvent::LockAttempted(Some(false)) => match config.mode {
                ConcurrencyMode::Mutex => rejected(step, "another execution is in progress"@),
                ConcurrencyMode::Queue => step is CountWaiting,
            },
            ConcurrencyEvent::QueueCounted(None) => rejected(step, "internal error checking queue"@),
            ConcurrencyEvent::QueueCounted(Some(count)) => if count >= config.queue_depth {
                rejected(step, "queue full ("@ + dec_int(count as int) + "/"@ + dec(config.queue_depth as nat) + ")"@)
            } else {
                step is CreateExecution
            },
            ConcurrencyEvent::ExecutionCreated(false) => rejected(step, "internal error creating queued execution"@),
            ConcurrencyEvent::ExecutionCreated(true) => step is Enqueue,
            ConcurrencyEvent::Enqueued(None) => rejected(step, "internal error enqueueing execution"@),
            ConcurrencyEvent::Enqueued(Some(position)) => {
                &&& step matches ConcurrencyStep::Decided(BarrierOutcome::Defer { execution_id, status, reason })
                &&& execution_id@ == exec_id@
                &&& status == ExecutionStatus::Pending
                &&& reason@ == "queued at position "@ + dec_int(position as int)
            },
        },
{
    match event {
        ConcurrencyEvent::LockAttempted(None) => reject("internal error acquiring lock".to_owned()),
        ConcurrencyEvent::LockAttempted(Some(true)) => ConcurrencyStep::Decided(BarrierOutcome::Proceed),
        ConcurrencyEvent::LockAttempted(Some(false)) => match config.mode {
            ConcurrencyMode::Mutex => reject("another execution is in progress".to_owned()),
            ConcurrencyMode::Queue => ConcurrencyStep::CountWaiting,
        },
        ConcurrencyEvent::QueueCounted(None) => reject("internal error checking queue".to_owned()),
        ConcurrencyEvent::QueueCounted(Some(count)) => {
            if count >= config.queue_depth as i64 {
                let mut m: Vec<char> = Vec::new();
                extend_str(&mut m, "queue full (");
                push_dec_i64(&mut m, count);
                extend_str(&mut m, "/");
                push_dec(&mut m, config.queue_depth as u128);
                extend_str(&mut m, ")");
                reject(string_of(m.as_slice()))
            } else {
                ConcurrencyStep::CreateExecution
            }
        },
        ConcurrencyEvent::ExecutionCreated(false) => reject(
            "internal error creating queued execution".to_owned(),
        ),
        ConcurrencyEvent::ExecutionCreated(true) => ConcurrencyStep::Enqueue,
        ConcurrencyEvent::Enqueued(None) => reject("internal error enqueueing execution".to_owned()),
        ConcurrencyEvent::Enqueued(Some(position)) => {
            let mut m: Vec<char> = Vec::new();
            extend_str(&mut m, "queued at position ");
            push_dec_i64(&mut m, position);
            ConcurrencyStep::Decided(
                BarrierOutcome::Defer {
                    execution_id: exec_id.to_owned(),
                    status: ExecutionStatus::Pending,
                    reason: string_of(m.as_slice()),
                },
            )
        },
    }
}

} // verus!
