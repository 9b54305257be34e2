//! Cooldown: minimum time between executions of a hook.
use vstd::prelude::*;

use super::EvalOutcome;
use crate::config::NANOS_PER_SEC;
use crate::models::TriggerAttemptStatus;
use crate::text::{dec, extend_str, push_dec, string_of};

verus! {

/// The largest span a signed time delta holds, in nanoseconds
/// (`i64::MAX` milliseconds).
pub const MAX_TIME_DELTA_NANOS: u128 = 9_223_372_036_854_775_807_000_000u128;

/// The cooldown verdict for the latest start time (nanoseconds since the
/// epoch), if any: rejected while less than the cooldown has elapsed.
pub open spec fn cooldown_remaining(started_at: Option<i128>, now: i128, cooldown: u128) -> Option<int> {
    match started_at {
        None => None,
        Some(start) => if cooldown > MAX_TIME_DELTA_NANOS {
            None
        } else if (now - start) < cooldown {
            Some((cooldown - (now - start)) / (NANOS_PER_SEC as int))
        } else {
            None
        },
    }
}

/// The reason given while a cooldown is active.
pub open spec fn cooldown_reason(remaining_secs: int) -> Seq<char> {
    "cooldown active, "@ + dec(remaining_secs as nat) + "s remaining"@
}

/// Decides a cooldown check from the start time of the hook's latest
/// started execution (`None` when there is none or it cannot be read).
pub fn cooldown_outcome(started_at: Option<i128>, now: i128, cooldown: u128) -> (r: EvalOutcome)
    requires
        started_at matches Some(s) ==> -0x1_0000_0000_0000_0000_0000_0000i128 <= s <= 0x1_0000_0000_0000_0000_0000_0000i128,
        -0x1_0000_0000_0000_0000_0000_0000i128 <= now <= 0x1_0000_0000_0000_0000_0000_0000i128,
    ensures
        match r {
            EvalOutcome::Allow => cooldown_remaining(started_at, now, cooldown) is None,
            EvalOutcome::Reject { status, reason } => {
                &&& status == TriggerAttemptStatus::CooldownSkipped
                &&& cooldown_remaining(started_at, now, cooldown) is Some
                &&& reason@ == cooldown_reason(cooldown_remaining(started_at, now, cooldown)->0)
            },
        },
{
    match started_at {
        None => EvalOutcome::Allow,
        Some(start) => {
            if cooldown > MAX_TIME_DELTA_NANOS {
                return EvalOutcome::Allow;
            }
            let elapsed: i128 = now - start;
            let cd = cooldown as i128;
            if elapsed < cd {
                let remaining = (cd - elapsed) as u128;
                let secs = remaining / NANOS_PER_SEC;
                let mut m: Vec<char> = Vec::new();
                extend_str(&mut m, "cooldown active, ");
                push_dec(&mut m, secs);
                extend_str(&mut m, "s remaining");
                EvalOutcome::Reject { status: TriggerAttemptStatus::CooldownSkipped, reason: string_of(m.as_slice()) }
            } else {
                EvalOutcome::Allow
            }
        },
    }
}

/// What `DateTime::parse_from_rfc3339(s)` gives, as whole seconds since the
/// epoch and the sub-second nanoseconds.
pub uninterp spec fn rfc3339_instant(s: Seq<char>) -> Option<(i64, u32)>;

/// `chrono::DateTime::parse_from_rfc3339(s)`, then `timestamp()` and
/// `timestamp_subsec_nanos()`. Claims only the named result: the
/// sub-second part may reach past one second, as chrono reads a leap
/// second (second 60) as second 59 plus up to 1,999,999,999 nanoseconds.
#[verifier::external_body]
pub(crate) fn parse_rfc3339(s: &str) -> (r: Option<(i64, u32)>)
    ensures
        r == rfc3339_instant(s@),
{
    match chrono::DateTime::parse_from_rfc3339(s) {
        Ok(t) => Some((t.timestamp(), t.timestamp_subsec_nanos())),
        Err(_) => None,
    }
}

/// What `NaiveDateTime::parse_from_str(s, fmt)` gives, read as UTC: whole
/// seconds since the epoch and the sub-second nanoseconds.
pub uninterp spec fn naive_utc_instant(s: Seq<char>, fmt: Seq<char>) -> Option<(i64, u32)>;

/// `chrono::NaiveDateTime::parse_from_str(s, fmt)`, then `and_utc()`,
/// `timestamp()` and `timestamp_subsec_nanos()`. Claims only the named
/// result: a leap second may carry up to 1,999,999,999 nanoseconds.
#[verifier::external_body]
fn parse_naive_utc(s: &str, fmt: &str) -> (r: Option<(i64, u32)>)
    ensures
        r == naive_utc_instant(s@, fmt@),
{
    match chrono::NaiveDateTime::parse_from_str(s, fmt) {
        Ok(t) => Some((t.and_utc().timestamp(), t.and_utc().timestamp_subsec_nanos())),
        Err(_) => None,
    }
}

/// An instant in nanoseconds since the epoch from seconds and sub-second
/// nanoseconds.
pub open spec fn instant_nanos(t: (i64, u32)) -> int {
    t.0 * 1_000_000_000 + t.1
}

/// How a stored start time is read: RFC 3339, else a timestamp without
/// zone (whole seconds, then fractional) taken as UTC.
pub open spec fn stored_instant(s: Seq<char>) -> Option<int> {
    match rfc3339_instant(s) {
        Some(t) => Some(instant_nanos(t)),
        None => match naive_utc_instant(s, "%Y-%m-%dT%H:%M:%S"@) {
            Some(t) => Some(instant_nanos(t)),
            None => match naive_utc_instant(s, "%Y-%m-%dT%H:%M:%S%.f"@) {
                Some(t) => Some(instant_nanos(t)),
                None => None,
            },
        },
    }
}

fn to_nanos(t: (i64, u32)) -> (n: i128)
    ensures
        n == instant_nanos(t),
        -0x1_0000_0000_0000_0000_0000_0000i128 <= n <= 0x1_0000_0000_0000_0000_0000_0000i128,
{
    (t.0 as i128) * 1_000_000_000 + (t.1 as i128)
}

/// Reads a stored execution start time as nanoseconds since the epoch.
pub fn parse_started_at(s: &str) -> (r: Option<i128>)
    ensures
        match r {
            Some(n) => stored_instant(s@) == Some(n as int),
            None => stored_instant(s@) is None,
        },
        r matches Some(n) ==> -0x1_0000_0000_0000_0000_0000_0000i128 <= n <= 0x1_0000_0000_0000_0000_0000_0000i128,
{
    match parse_rfc3339(s) {
        Some(t) => Some(to_nanos(t)),
        None => match parse_naive_utc(s, "%Y-%m-%dT%H:%M:%S") {
            Some(t) => Some(to_nanos(t)),
            None => match parse_naive_utc(s, "%Y-%m-%dT%H:%M:%S%.f") {
                Some(t) => Some(to_nanos(t)),
                None => None,
            },
        },
    }
}

} // verus!
