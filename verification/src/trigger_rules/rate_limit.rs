//! Rate limit: at most a number of triggers per fixed window.
use vstd::prelude::*;

use super::EvalOutcome;
use crate::config::{TriggerRateLimit, NANOS_PER_SEC};
use crate::models::TriggerAttemptStatus;
use crate::text::{dec, extend_str, push_dec, string_of};

verus! {

/// Start (seconds since the epoch) of the fixed window that holds
/// `now_secs`: the window length in whole seconds (at least one) times the
/// number of whole windows elapsed.
pub open spec fn window_start_secs(window: u128, now_secs: i64) -> int {
    let w: int = if window / NANOS_PER_SEC == 0 { 1 } else { (window / NANOS_PER_SEC) as int };
    let n: int = (now_secs as u64) as int;
    (n / w) * w
}

/// The start of the rate-limit window that holds `now_secs`.
pub fn rate_limit_window_start(window: u128, now_secs: i64) -> (r: u64)
    requires
        window <= crate::config::MAX_DURATION_NANOS,
    ensures
        r == window_start_secs(window, now_secs),
{
    let ws = window / NANOS_PER_SEC;
    let w: u64 = if ws == 0 { 1 } else { ws as u64 };
    let n: u64 = now_secs as u64;
    let q = n / w;
    assert(q * w <= n) by (nonlinear_arith)
        requires
            q == n / w,
            w > 0,
    ;
    q * w
}

/// What `humantime::format_duration` writes for the duration of `secs`
/// seconds and `nanos` nanoseconds.
pub uninterp spec fn humantime_text(secs: u64, nanos: u32) -> Seq<char>;

/// `humantime::format_duration(Duration::new(secs, nanos)).to_string()`.
/// Claims only the named result.
#[verifier::external_body]
fn format_humantime(secs: u64, nanos: u32) -> (s: String)
    requires
        nanos < 1_000_000_000,
    ensures
        s@ == humantime_text(secs, nanos),
{
    humantime::format_duration(std::time::Duration::new(secs, nanos)).to_string()
}

/// The text `humantime` writes for a duration of `d` nanoseconds.
pub open spec fn duration_words(d: u128) -> Seq<char> {
    humantime_text((d / NANOS_PER_SEC) as u64, (d % NANOS_PER_SEC) as u32)
}

/// The reason given when the rate limit is exceeded.
pub open spec fn rate_limit_reason(config: TriggerRateLimit) -> Seq<char> {
    "rate limit exceeded ("@ + dec(config.max_requests as nat) + " per "@ + duration_words(config.window) + ")"@
}

/// Decides a rate-limit check from the conditional counter increment:
/// `Some(rows)` is the number of counters it incremented (one when under
/// the limit), `None` a storage failure, which lets the trigger through.
pub fn rate_limit_outcome(updated: Option<u64>, config: &TriggerRateLimit) -> (r: EvalOutcome)
    requires
        config.window <= crate::config::MAX_DURATION_NANOS,
    ensures
        match r {
            EvalOutcome::Allow => updated is None || updated == Some(1u64),
            EvalOutcome::Reject { status, reason } => status == TriggerAttemptStatus::RateLimited
                && updated is Some && updated != Some(1u64) && reason@ == rate_limit_reason(*config),
        },
{
    match updated {
        Some(1) => EvalOutcome::Allow,
        Some(_) => {
            let mut m: Vec<char> = Vec::new();
            extend_str(&mut m, "rate limit exceeded (");
            push_dec(&mut m, config.max_requests as u128);
            extend_str(&mut m, " per ");
            let secs = (config.window / NANOS_PER_SEC) as u64;
            let nanos = (config.window % NANOS_PER_SEC) as u32;
            let w = format_humantime(secs, nanos);
            extend_str(&mut m, w.as_str());
            extend_str(&mut m, ")");
            EvalOutcome::Reject { status: TriggerAttemptStatus::RateLimited, reason: string_of(m.as_slice()) }
        },
        None => EvalOutcome::Allow,
    }
}

} // verus!
