//! Trigger attempts: the log of every incoming trigger request.
use vstd::prelude::*;

verus! {

/// Outcome of one incoming trigger request.
#[derive(Clone, Copy, Debug, PartialEq, Eq, Structural)]
pub enum TriggerAttemptStatus {
    Fired,
    AuthFailed,
    ValidationFailed,
    Filtered,
    RateLimited,
    ScheduleSkipped,
    CooldownSkipped,
    ConcurrencyRejected,
    PendingApproval,
}

/// The stored (snake case) name of a trigger attempt status.
pub open spec fn attempt_status_name(s: TriggerAttemptStatus) -> Seq<char> {
    match s {
        TriggerAttemptStatus::Fired => "fired"@,
        TriggerAttemptStatus::AuthFailed => "auth_failed"@,
        TriggerAttemptStatus::ValidationFailed => "validation_failed"@,
        TriggerAttemptStatus::Filtered => "filtered"@,
        TriggerAttemptStatus::RateLimited => "rate_limited"@,
        TriggerAttemptStatus::ScheduleSkipped => "schedule_skipped"@,
        TriggerAttemptStatus::CooldownSkipped => "cooldown_skipped"@,
        TriggerAttemptStatus::ConcurrencyRejected => "concurrency_rejected"@,
        TriggerAttemptStatus::PendingApproval => "pending_approval"@,
    }
}

/// The status whose stored name is `s`, if any.
pub open spec fn parse_attempt_status(s: Seq<char>) -> Option<TriggerAttemptStatus> {
    if s == "fired"@ {
        Some(TriggerAttemptStatus::Fired)
    } else if s == "auth_failed"@ {
        Some(TriggerAttemptStatus::AuthFailed)
    } else if s == "validation_failed"@ {
        Some(TriggerAttemptStatus::ValidationFailed)
    } else if s == "filtered"@ {
        Some(TriggerAttemptStatus::Filtered)
    } else if s == "rate_limited"@ {
        Some(TriggerAttemptStatus::RateLimited)
    } else if s == "schedule_skipped"@ {
        Some(TriggerAttemptStatus::ScheduleSkipped)
    } else if s == "cooldown_skipped"@ {
        Some(TriggerAttemptStatus::CooldownSkipped)
    } else if s == "concurrency_rejected"@ {
        Some(TriggerAttemptStatus::ConcurrencyRejected)
    } else if s == "pending_approval"@ {
        Some(TriggerAttemptStatus::PendingApproval)
    } else {
        None
    }
}

fn str_eq(a: &str, b: &str) -> (r: bool)
    ensures
        r == (a@ == b@),
{
    let av = crate::text::chars_of(a);
    let bv = crate::text::chars_of(b);
    if av.len() != bv.len() {
        return false;
    }
    let mut i: usize = 0;
    while i < av.len()
        invariant
            av@ == a@,
            bv@ == b@,
            av@.len() == bv@.len(),
            i <= av@.len(),
            forall|j: int| 0 <= j < i ==> av@[j] == bv@[j],
        decreases av@.len() - i,
    {
        if av[i] != bv[i] {
            assert(av@[i as int] != bv@[i as int]);
            return false;
        }
        i = i + 1;
    }
    assert(av@ == bv@);
    true
}

/// Whether two string slices hold the same characters.
pub fn same_text(a: &str, b: &str) -> (r: bool)
    ensures
        r == (a@ == b@),
{
    str_eq(a, b)
}

impl TriggerAttemptStatus {
    /// Parse a status string. Returns `None` for unrecognised values.
    pub fn parse(s: &str) -> (r: Option<TriggerAttemptStatus>)
        ensures
            r == parse_attempt_status(s@),
    {
        if str_eq(s, "fired") {
            Some(TriggerAttemptStatus::Fired)
        } else if str_eq(s, "auth_failed") {
            Some(TriggerAttemptStatus::AuthFailed)
        } else if str_eq(s, "validation_failed") {
            Some(TriggerAttemptStatus::ValidationFailed)
        } else if str_eq(s, "filtered") {
            Some(TriggerAttemptStatus::Filtered)
        } else if str_eq(s, "rate_limited") {
            Some(TriggerAttemptStatus::RateLimited)
        } else if str_eq(s, "schedule_skipped") {
            Some(TriggerAttemptStatus::ScheduleSkipped)
        } else if str_eq(s, "cooldown_skipped") {
            Some(TriggerAttemptStatus::CooldownSkipped)
        } else if str_eq(s, "concurrency_rejected") {
            Some(TriggerAttemptStatus::ConcurrencyRejected)
        } else if str_eq(s, "pending_approval") {
            Some(TriggerAttemptStatus::PendingApproval)
        } else {
            None
        }
    }

    /// The stored name of this status (what `Display` writes).
    pub fn as_str(&self) -> (s: &'static str)
        ensures
            s@ == attempt_status_name(*self),
    {
        match self {
            TriggerAttemptStatus::Fired => "fired",
            TriggerAttemptStatus::AuthFailed => "auth_failed",
            TriggerAttemptStatus::ValidationFailed => "validation_failed",
            TriggerAttemptStatus::Filtered => "filtered",
            TriggerAttemptStatus::RateLimited => "rate_limited",
            TriggerAttemptStatus::ScheduleSkipped => "schedule_skipped",
            TriggerAttemptStatus::CooldownSkipped => "cooldown_skipped",
            TriggerAttemptStatus::ConcurrencyRejected => "concurrency_rejected",
            TriggerAttemptStatus::PendingApproval => "pending_approval",
        }
    }

    /// The stored name of this status, as an owned string.
    pub fn to_string(&self) -> (s: String)
        ensures
            s@ == attempt_status_name(*self),
    {
        self.as_str().to_owned()
    }
}

/// Parsing the stored name of a trigger attempt status gives the status back.
pub proof fn attempt_status_name_round_trip(s: TriggerAttemptStatus)
    ensures
        parse_attempt_status(attempt_status_name(s)) == Some(s),
{
    reveal_strlit("fired");
    assert("fired"@.len() == 5 && "fired"@[0] == 'f');
    reveal_strlit("auth_failed");
    assert("auth_failed"@.len() == 11 && "auth_failed"@[0] == 'a');
    reveal_strlit("validation_failed");
    assert("validation_failed"@.len() == 17 && "validation_failed"@[0] == 'v');
    reveal_strlit("filtered");
    assert("filtered"@.len() == 8 && "filtered"@[0] == 'f');
    reveal_strlit("rate_limited");
    assert("rate_limited"@.len() == 12 && "rate_limited"@[0] == 'r');
    reveal_strlit("schedule_skipped");
    assert("schedule_skipped"@.len() == 16 && "schedule_skipped"@[0] == 's');
    reveal_strlit("cooldown_skipped");
    assert("cooldown_skipped"@.len() == 16 && "cooldown_skipped"@[0] == 'c');
    reveal_strlit("concurrency_rejected");
    assert("concurrency_rejected"@.len() == 20 && "concurrency_rejected"@[0] == 'c');
    reveal_strlit("pending_approval");
    assert("pending_approval"@.len() == 16 && "pending_approval"@[0] == 'p');
}

/// A stored trigger attempt.
#[derive(Debug)]
pub struct TriggerAttempt {
    pub id: String,
    pub hook_slug: String,
    pub attempted_at: String,
    pub source_ip: String,
    pub status: TriggerAttemptStatus,
    pub reason: String,
    pub execution_id: Option<String>,
}

/// Parameters for inserting a new trigger attempt.
#[derive(Debug)]
pub struct NewTriggerAttempt<'a> {
    pub hook_slug: &'a str,
    pub source_ip: &'a str,
    pub status: TriggerAttemptStatus,
    pub reason: &'a str,
    pub execution_id: Option<&'a str>,
}

} // verus!
