use sendword::barriers::approval::requires_approval;
use sendword::barriers::concurrency::{next_step, ConcurrencyEvent, ConcurrencyStep};
use sendword::barriers::execution_queue::QueueEntry;
use sendword::barriers::{after_hand_off, after_peek, completion_start, BarrierOutcome, CompletionAction};
use sendword::config::{ApprovalConfig, ConcurrencyConfig, ConcurrencyMode};
use sendword::models::{ExecutionStatus, TriggerAttemptStatus};

fn approval_required() -> ApprovalConfig {
    ApprovalConfig { required: true, timeout: None }
}

fn approval_not_required() -> ApprovalConfig {
    ApprovalConfig { required: false, timeout: Some(300 * 1_000_000_000) }
}

#[test]
fn requires_approval_true_when_required() {
    assert!(requires_approval(Some(&approval_required())));
}

#[test]
fn requires_approval_false_when_not_required() {
    assert!(!requires_approval(Some(&approval_not_required())));
}

#[test]
fn requires_approval_false_when_none() {
    assert!(!requires_approval(None));
}

fn reason(step: ConcurrencyStep) -> String {
    match step {
        ConcurrencyStep::Decided(BarrierOutcome::Reject { status, reason }) => {
            assert_eq!(status, TriggerAttemptStatus::ConcurrencyRejected);
            reason
        }
        _ => panic!("expected a rejection"),
    }
}

#[test]
fn acquired_lock_proceeds() {
    let cfg = ConcurrencyConfig { mode: ConcurrencyMode::Mutex, queue_depth: 10 };
    assert!(matches!(
        next_step(&cfg, "e1", ConcurrencyEvent::LockAttempted(Some(true))),
        ConcurrencyStep::Decided(BarrierOutcome::Proceed)
    ));
}

#[test]
fn busy_mutex_rejects() {
    let cfg = ConcurrencyConfig { mode: ConcurrencyMode::Mutex, queue_depth: 10 };
    assert_eq!(
        reason(next_step(&cfg, "e1", ConcurrencyEvent::LockAttempted(Some(false)))),
        "another execution is in progress"
    );
}

#[test]
fn busy_queue_counts_then_queues() {
    let cfg = ConcurrencyConfig { mode: ConcurrencyMode::Queue, queue_depth: 2 };
    assert!(matches!(
        next_step(&cfg, "e1", ConcurrencyEvent::LockAttempted(Some(false))),
        ConcurrencyStep::CountWaiting
    ));
    assert!(matches!(
        next_step(&cfg, "e1", ConcurrencyEvent::QueueCounted(Some(1))),
        ConcurrencyStep::CreateExecution
    ));
    assert!(matches!(
        next_step(&cfg, "e1", ConcurrencyEvent::ExecutionCreated(true)),
        ConcurrencyStep::Enqueue
    ));
    match next_step(&cfg, "e1", ConcurrencyEvent::Enqueued(Some(2))) {
        ConcurrencyStep::Decided(BarrierOutcome::Defer { execution_id, status, reason }) => {
            assert_eq!(execution_id, "e1");
            assert_eq!(status, ExecutionStatus::Pending);
            assert_eq!(reason, "queued at position 2");
        }
        _ => panic!("expected a deferral"),
    }
}

#[test]
fn full_queue_rejects() {
    let cfg = ConcurrencyConfig { mode: ConcurrencyMode::Queue, queue_depth: 2 };
    assert_eq!(
        reason(next_step(&cfg, "e1", ConcurrencyEvent::QueueCounted(Some(2)))),
        "queue full (2/2)"
    );
}

#[test]
fn failed_steps_reject_with_internal_errors() {
    let cfg = ConcurrencyConfig { mode: ConcurrencyMode::Queue, queue_depth: 2 };
    assert_eq!(
        reason(next_step(&cfg, "e1", ConcurrencyEvent::LockAttempted(None))),
        "internal error acquiring lock"
    );
    assert_eq!(
        reason(next_step(&cfg, "e1", ConcurrencyEvent::QueueCounted(None))),
        "internal error checking queue"
    );
    assert_eq!(
        reason(next_step(&cfg, "e1", ConcurrencyEvent::ExecutionCreated(false))),
        "internal error creating queued execution"
    );
    assert_eq!(
        reason(next_step(&cfg, "e1", ConcurrencyEvent::Enqueued(None))),
        "internal error enqueueing execution"
    );
}

#[test]
fn completion_hand_over() {
    assert!(matches!(completion_start(None), CompletionAction::Release));
    assert!(matches!(
        completion_start(Some(ConcurrencyConfig { mode: ConcurrencyMode::Mutex, queue_depth: 1 })),
        CompletionAction::Release
    ));
    assert!(matches!(
        completion_start(Some(ConcurrencyConfig { mode: ConcurrencyMode::Queue, queue_depth: 1 })),
        CompletionAction::PeekQueue
    ));
    assert!(matches!(after_peek(None), CompletionAction::Release));
    let entry = QueueEntry {
        id: "q1".into(),
        hook_slug: "h".into(),
        execution_id: "e2".into(),
        position: 1,
    };
    match after_peek(Some(entry)) {
        CompletionAction::HandOff { entry_id, execution_id } => {
            assert_eq!(entry_id, "q1");
            assert_eq!(execution_id, "e2");
        }
        _ => panic!("expected a hand-off"),
    }
    assert!(matches!(
        after_hand_off(false, "q1".into(), "e2".into(), None),
        CompletionAction::Stop
    ));
    assert!(matches!(
        after_hand_off(true, "q1".into(), "e2".into(), Some(approval_required())),
        CompletionAction::AwaitApproval { .. }
    ));
    assert!(matches!(
        after_hand_off(true, "q1".into(), "e2".into(), Some(approval_not_required())),
        CompletionAction::RunNext { .. }
    ));
}
