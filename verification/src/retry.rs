//! Retry policy: which configuration applies and how long to wait.
use vstd::prelude::*;

use crate::config::{valid_duration, BackoffStrategy, HookConfig, RetryConfig, MAX_DURATION_NANOS};
use crate::models::ExecutionStatus;
use crate::text::{dec, extend_str, push_dec, string_of};

verus! {

/// Resolved retry configuration for a single execution.
/// Uses hook-level overrides when present, otherwise falls back to global defaults.
#[derive(Clone, Copy, Debug)]
pub struct EffectiveRetryConfig {
    pub count: u32,
    pub backoff: BackoffStrategy,
    /// Delay before the first retry, in nanoseconds.
    pub initial_delay: u128,
    /// Upper bound of any delay, in nanoseconds.
    pub max_delay: u128,
}

/// The retry settings that apply to a hook: its own, else the global ones.
pub open spec fn effective_retry(hook: &HookConfig, global: &RetryConfig) -> RetryConfig {
    match hook.retries {
        Some(r) => r,
        None => *global,
    }
}

/// Resolve the effective retry config for a hook.
/// Hook-level retries override global defaults entirely (not field-by-field).
pub fn resolve_retry_config(hook: &HookConfig, global: &RetryConfig) -> (e: EffectiveRetryConfig)
    ensures
        e.count == effective_retry(hook, global).count,
        e.backoff == effective_retry(hook, global).backoff,
        e.initial_delay == effective_retry(hook, global).initial_delay,
        e.max_delay == effective_retry(hook, global).max_delay,
{
    let retry: &RetryConfig = match &hook.retries {
        Some(r) => r,
        None => global,
    };
    EffectiveRetryConfig {
        count: retry.count,
        backoff: retry.backoff,
        initial_delay: retry.initial_delay,
        max_delay: retry.max_delay,
    }
}

/// `2^e` for small exponents.
pub open spec fn pow2(e: nat) -> nat
    decreases e,
{
    if e == 0 { 1 } else { 2 * pow2((e - 1) as nat) }
}

/// The multiplier of exponential backoff for a 1-indexed attempt:
/// `2^(attempt-1)`, with the exponent capped at 31.
pub open spec fn exp_multiplier(attempt: u32) -> nat {
    let e: nat = if attempt == 0 { 0 } else { (attempt - 1) as nat };
    pow2(if e > 31 { 31 } else { e })
}

/// The smaller of two integers.
pub open spec fn min_int(a: int, b: int) -> int {
    if a <= b { a } else { b }
}

/// The delay before retry number `attempt` (1-indexed):
/// none, `initial * attempt`, or `initial * 2^(attempt-1)`, capped at `max`
/// (multiplication saturates at the largest duration first).
pub open spec fn backoff_delay(strategy: BackoffStrategy, attempt: u32, initial: u128, max: u128) -> int {
    let raw: int = match strategy {
        BackoffStrategy::NoDelay => 0,
        BackoffStrategy::Linear => initial * attempt,
        BackoffStrategy::Exponential => initial * exp_multiplier(attempt),
    };
    min_int(min_int(raw, MAX_DURATION_NANOS as int), max as int)
}

proof fn lemma_pow2_bound(e: nat)
    requires
        e <= 31,
    ensures
        1 <= pow2(e) <= 0x8000_0000,
{
    lemma_pow2_pos(e);
    lemma_pow2_mono(e, 31);
    lemma_pow2_31();
}

proof fn lemma_pow2_31()
    ensures
        pow2(31) == 0x8000_0000,
{
    assert(pow2(8) == 256) by {
        reveal_with_fuel(pow2, 9);
    }
    assert(pow2(16) == 65536) by {
        lemma_pow2_add(8, 8);
    }
    assert(pow2(15) == 32768) by {
        lemma_pow2_add(8, 7);
        reveal_with_fuel(pow2, 8);
    }
    lemma_pow2_add(16, 15);
}

proof fn lemma_pow2_add(a: nat, b: nat)
    ensures
        pow2(a + b) == pow2(a) * pow2(b),
    decreases a,
{
    if a > 0 {
        let a1 = (a - 1) as nat;
        lemma_pow2_add(a1, b);
        assert(pow2(a + b) == 2 * pow2(a1 + b));
        assert(pow2(a) == 2 * pow2(a1));
        let x = pow2(a1);
        let y = pow2(b);
        assert(2 * (x * y) == (2 * x) * y) by (nonlinear_arith);
    } else {
        assert(pow2(a) == 1);
        assert(a + b == b);
    }
}

proof fn lemma_pow2_mono(a: nat, b: nat)
    requires
        a <= b,
    ensures
        pow2(a) <= pow2(b),
    decreases b,
{
    if a < b {
        lemma_pow2_mono(a, (b - 1) as nat);
        lemma_pow2_pos((b - 1) as nat);
    }
}

proof fn lemma_pow2_pos(e: nat)
    ensures
        pow2(e) >= 1,
    decreases e,
{
    if e > 0 {
        lemma_pow2_pos((e - 1) as nat);
    }
}

fn shl_multiplier(attempt: u32) -> (m: u128)
    ensures
        m == exp_multiplier(attempt),
        1 <= m <= 0x8000_0000,
{
    let exp: u32 = if attempt == 0 { 0 } else { attempt - 1 };
    let exp: u32 = if exp > 31 { 31 } else { exp };
    let mut m: u128 = 1;
    let mut i: u32 = 0;
    while i < exp
        invariant
            i <= exp <= 31,
            m == pow2(i as nat),
        decreases exp - i,
    {
        proof {
            lemma_pow2_bound(i as nat);
        }
        m = m * 2;
        i = i + 1;
    }
    proof {
        lemma_pow2_bound(exp as nat);
    }
    m
}

/// Calculate the delay before the given retry attempt (1-indexed).
///
/// - `NoDelay`: no delay (returns zero)
/// - `Linear`: initial_delay * attempt, capped at max_delay
/// - `Exponential`: initial_delay * 2^(attempt-1), capped at max_delay
pub fn calculate_backoff(
    strategy: BackoffStrategy,
    attempt: u32,
    initial_delay: u128,
    max_delay: u128,
) -> (d: u128)
    requires
        valid_duration(initial_delay),
        valid_duration(max_delay),
    ensures
        d == backoff_delay(strategy, attempt, initial_delay, max_delay),
        d <= max_delay,
{
    let raw: u128 = match strategy {
        BackoffStrategy::NoDelay => 0,
        BackoffStrategy::Linear => {
            assert(initial_delay * attempt <= MAX_DURATION_NANOS * 0xffff_ffffu128) by (nonlinear_arith)
                requires
                    initial_delay <= MAX_DURATION_NANOS,
                    attempt <= 0xffff_ffffu32,
            ;
            initial_delay * (attempt as u128)
        },
        BackoffStrategy::Exponential => {
            let m = shl_multiplier(attempt);
            assert(initial_delay * m <= MAX_DURATION_NANOS * 0x8000_0000u128) by (nonlinear_arith)
                requires
                    initial_delay <= MAX_DURATION_NANOS,
                    m <= 0x8000_0000u128,
            ;
            initial_delay * m
        },
    };
    let capped = if raw > MAX_DURATION_NANOS { MAX_DURATION_NANOS } else { raw };
    if capped < max_delay { capped } else { max_delay }
}

/// Whether a finished attempt is retried: only failures that exited with a
/// code are retried (not successes, timeouts or spawn failures), and only
/// while retries remain.
pub open spec fn spec_should_retry(status: ExecutionStatus, exit_code: Option<i32>, attempt: u32, count: u32) -> bool {
    1 <= attempt <= count && status == ExecutionStatus::Failed && exit_code is Some
}

/// Decides whether retry number `attempt` (1-indexed) runs after an attempt
/// that ended with `status` and `exit_code`.
pub fn should_retry(status: &ExecutionStatus, exit_code: Option<i32>, attempt: u32, count: u32) -> (b: bool)
    ensures
        b == spec_should_retry(*status, exit_code, attempt, count),
{
    1 <= attempt && attempt <= count && *status == ExecutionStatus::Failed && exit_code.is_some()
}

/// The backoff delay never exceeds the configured maximum, and it does not
/// shrink from one attempt to the next.
pub proof fn backoff_is_capped_and_monotone(
    strategy: BackoffStrategy,
    a: u32,
    b: u32,
    initial: u128,
    max: u128,
)
    requires
        a <= b,
        valid_duration(initial),
        valid_duration(max),
    ensures
        backoff_delay(strategy, a, initial, max) <= max,
        backoff_delay(strategy, a, initial, max) <= backoff_delay(strategy, b, initial, max),
{
    match strategy {
        BackoffStrategy::NoDelay => {},
        BackoffStrategy::Linear => {
            assert(initial * a <= initial * b) by (nonlinear_arith)
                requires
                    a <= b,
            ;
        },
        BackoffStrategy::Exponential => {
            let ea: nat = if a == 0 { 0 } else { (a - 1) as nat };
            let eb: nat = if b == 0 { 0 } else { (b - 1) as nat };
            let ca: nat = if ea > 31 { 31 } else { ea };
            let cb: nat = if eb > 31 { 31 } else { eb };
            lemma_pow2_mono(ca, cb);
            let ma = exp_multiplier(a);
            let mb = exp_multiplier(b);
            assert(initial * ma <= initial * mb) by (nonlinear_arith)
                requires
                    ma <= mb,
            ;
        },
    }
}


/// What the retry loop does after an attempt has finished.
#[derive(Debug)]
pub enum RetryStep {
    /// Keep the last attempt's result.
    Finish,
    /// Wait `delay` nanoseconds, mark the logs and run retry number `attempt`.
    Retry { attempt: u32, delay: u128 },
}

/// The retry loop's decision once an attempt has ended with `status` and
/// `exit_code`, where `attempt` is the number (1-indexed) of the retry that
/// would come next: retry after the backoff delay when [`should_retry`]
/// says so, finish otherwise.
pub fn next_retry(status: &ExecutionStatus, exit_code: Option<i32>, attempt: u32, config: &EffectiveRetryConfig) -> (r: RetryStep)
    requires
        valid_duration(config.initial_delay),
        valid_duration(config.max_delay),
    ensures
        spec_should_retry(*status, exit_code, attempt, config.count) ==> (r matches RetryStep::Retry { attempt: a, delay }
            && a == attempt && delay == backoff_delay(config.backoff, attempt, config.initial_delay, config.max_delay)),
        !spec_should_retry(*status, exit_code, attempt, config.count) ==> r is Finish,
{
    if should_retry(status, exit_code, attempt, config.count) {
        let delay = calculate_backoff(config.backoff, attempt, config.initial_delay, config.max_delay);
        RetryStep::Retry { attempt, delay }
    } else {
        RetryStep::Finish
    }
}

/// The marker appended to both log files before a retry.
pub fn retry_marker(attempt: u32) -> (m: String)
    ensures
        m@ == "\n--- RETRY ATTEMPT "@ + dec(attempt as nat) + " ---\n"@,
{
    let mut out: Vec<char> = Vec::new();
    extend_str(&mut out, "\n--- RETRY ATTEMPT ");
    push_dec(&mut out, attempt as u128);
    extend_str(&mut out, " ---\n");
    string_of(out.as_slice())
}

} // verus!
