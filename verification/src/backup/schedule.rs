//! When the next scheduled backup runs.
use std::str::FromStr;

use vstd::prelude::*;

use crate::config::BackupConfig;

verus! {

/// What the `cron` crate gives for the schedule `schedule` after the
/// instant `after_millis` (milliseconds since the epoch): the first time,
/// in milliseconds, at which the schedule fires, `None` when it never fires
/// again, or the error's text when the schedule does not parse.
pub uninterp spec fn cron_next(schedule: Seq<char>, after_millis: i64) -> Result<Option<i64>, Seq<char>>;

/// The latest instant (milliseconds since the epoch, in the year 128,724)
/// from which the schedule is looked up. chrono holds instants up to the
/// year 262,142; `Schedule::after` adds a second to its start, which would
/// panic at the very end of that range.
pub const MAX_SCHEDULE_MILLIS: i64 = 4_000_000_000_000_000;

/// `cron::Schedule::from_str`, then `Schedule::after` at the instant from
/// `DateTime::from_timestamp_millis`, its first item read back with
/// `timestamp_millis`. Claimed to be [`cron_next`].
#[verifier::external_body]
fn next_fire(schedule: &str, after_millis: i64) -> (r: Result<Option<i64>, String>)
    requires
        after_millis <= MAX_SCHEDULE_MILLIS,
    ensures
        match r {
            Ok(n) => cron_next(schedule@, after_millis) == Ok::<Option<i64>, Seq<char>>(n),
            Err(e) => cron_next(schedule@, after_millis) == Err::<Option<i64>, Seq<char>>(e@),
        },
{
    let sched = match cron::Schedule::from_str(schedule) {
        Ok(s) => s,
        Err(e) => return Err(e.to_string()),
    };
    let start = match chrono::DateTime::from_timestamp_millis(after_millis) {
        Some(t) => t,
        None => return Ok(None),
    };
    match sched.after(&start).next() {
        Some(t) => Ok(Some(t.timestamp_millis())),
        None => Ok(None),
    }
}

/// The wait between two checks of the configuration when no backup is due.
pub const IDLE_WAIT_MILLIS: u64 = 60_000;

/// What the backup scheduler does next.
#[derive(Debug)]
pub enum SchedulerStep {
    /// Nothing is scheduled (no backup configuration, no schedule, or no
    /// time left at which it fires): wait [`IDLE_WAIT_MILLIS`] and look again.
    Idle,
    /// The schedule does not parse (the error's text): wait
    /// [`IDLE_WAIT_MILLIS`] and look again.
    InvalidSchedule(String),
    /// Wait this many milliseconds, then back up.
    BackupAfter(u64),
}

/// The wait before the instant `next` seen at `now`, none when it has
/// passed.
pub open spec fn wait_until(next: i64, now: i64) -> int {
    if next > now {
        next - now
    } else {
        0
    }
}

/// The next step of the backup scheduler at the instant `now_millis`
/// (milliseconds since the epoch): idle without a configuration or a
/// schedule, past [`MAX_SCHEDULE_MILLIS`], or when the schedule never fires
/// again; an invalid schedule is reported; otherwise wait until the next
/// time it fires, then back up.
pub fn scheduler_step(backup: &Option<BackupConfig>, now_millis: i64) -> (s: SchedulerStep)
    ensures
        now_millis > MAX_SCHEDULE_MILLIS ==> s is Idle,
        now_millis <= MAX_SCHEDULE_MILLIS ==> match backup {
            None => s is Idle,
            Some(b) => match b.schedule {
                None => s is Idle,
                Some(sched) => match cron_next(sched@, now_millis) {
                    Err(e) => s matches SchedulerStep::InvalidSchedule(m) && m@ == e,
                    Ok(None) => s is Idle,
                    Ok(Some(next)) => s matches SchedulerStep::BackupAfter(w) && w == wait_until(next, now_millis),
                },
            },
        },
{
    if now_millis > MAX_SCHEDULE_MILLIS {
        return SchedulerStep::Idle;
    }
    let b = match backup {
        Some(b) => b,
        None => return SchedulerStep::Idle,
    };
    let sched = match &b.schedule {
        Some(s) => s,
        None => return SchedulerStep::Idle,
    };
    match next_fire(sched.as_str(), now_millis) {
        Err(e) => SchedulerStep::InvalidSchedule(e),
        Ok(None) => SchedulerStep::Idle,
        Ok(Some(next)) => {
            if next > now_millis {
                let d: i128 = next as i128 - now_millis as i128;
                SchedulerStep::BackupAfter(d as u64)
            } else {
                SchedulerStep::BackupAfter(0)
            }
        },
    }
}

} // verus!
