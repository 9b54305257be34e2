//! Time windows: days and hours during which a hook may fire.
use vstd::prelude::*;

use super::EvalOutcome;
use crate::config::{TimeWindow, NANOS_PER_SEC};
use crate::models::TriggerAttemptStatus;
use crate::text::{chars_of, extend_str, push_dec, string_of};

verus! {

/// Nanoseconds in one day.
pub const NANOS_PER_DAY: i128 = 86_400_000_000_000i128;

/// Whole seconds since the Unix epoch of an instant given in nanoseconds
/// (rounded down).
pub open spec fn unix_secs(now: i128) -> int {
    (now as int) / (NANOS_PER_SEC as int)
}

/// Day of the week of an instant, `0` for Monday through `6` for Sunday
/// (1970-01-01 was a Thursday).
pub open spec fn weekday_index(now: i128) -> int {
    (unix_secs(now) / 86400 + 3) % 7
}

/// Seconds since midnight (UTC) of an instant.
pub open spec fn second_of_day(now: i128) -> int {
    unix_secs(now) % 86400
}

/// Three-letter English name of a weekday index.
pub open spec fn weekday_name(d: int) -> Seq<char> {
    if d == 0 { "Mon"@ }
    else if d == 1 { "Tue"@ }
    else if d == 2 { "Wed"@ }
    else if d == 3 { "Thu"@ }
    else if d == 4 { "Fri"@ }
    else if d == 5 { "Sat"@ }
    else { "Sun"@ }
}

/// Three-letter English name of a weekday index (0 = Monday).
pub fn weekday_abbrev(d: u8) -> (s: &'static str)
    requires
        d < 7,
    ensures
        s@ == weekday_name(d as int),
{
    if d == 0 { "Mon" }
    else if d == 1 { "Tue" }
    else if d == 2 { "Wed" }
    else if d == 3 { "Thu" }
    else if d == 4 { "Fri" }
    else if d == 5 { "Sat" }
    else { "Sun" }
}

/// The weekday named for an instant is its calendar weekday: the days
/// since 1970-01-01 (a Thursday), counted from the instant's UTC date,
/// name "Thu", "Fri", "Sat", "Sun", "Mon", "Tue", "Wed" in turn; and the
/// names of the indexes 0 to 6 are, in order, "Mon" to "Sun".
pub proof fn weekday_names_follow_the_calendar(now: i128, d: int)
    ensures
        weekday_name(weekday_index(now)) == seq!["Thu"@, "Fri"@, "Sat"@, "Sun"@, "Mon"@, "Tue"@, "Wed"@][(
        unix_secs(now) / 86400) % 7],
        0 <= d < 7 ==> weekday_name(d) == seq!["Mon"@, "Tue"@, "Wed"@, "Thu"@, "Fri"@, "Sat"@, "Sun"@][d],
{
    let days = unix_secs(now) / 86400;
    let m = days % 7;
    assert(weekday_index(now) == (m + 3) % 7) by {
        assert((days + 3) % 7 == (days % 7 + 3) % 7) by (nonlinear_arith);
    }
}

/// What `NaiveTime::parse_from_str(s, "%H:%M")` gives, as (hour, minute).
pub uninterp spec fn hh_mm(s: Seq<char>) -> Option<(u32, u32)>;

/// `chrono::NaiveTime::parse_from_str(s, "%H:%M")`, then `hour()` and
/// `minute()`. Claims the named result, and that the hour and minute of a
/// parsed time are below 24 and 60.
#[verifier::external_body]
fn parse_hh_mm(s: &str) -> (r: Option<(u32, u32)>)
    ensures
        r == hh_mm(s@),
        r matches Some(t) ==> t.0 < 24 && t.1 < 60,
{
    match chrono::NaiveTime::parse_from_str(s, "%H:%M") {
        Ok(t) => Some((chrono::Timelike::hour(&t), chrono::Timelike::minute(&t))),
        Err(_) => None,
    }
}

/// An ASCII letter folded to lower case; other characters unchanged.
pub open spec fn ascii_lower(c: char) -> char {
    if 'A' <= c && c <= 'Z' {
        ((c as u32) + 32) as char
    } else {
        c
    }
}

/// `str::eq_ignore_ascii_case`.
pub open spec fn eq_ignore_ascii_case(a: Seq<char>, b: Seq<char>) -> bool {
    a.len() == b.len() && forall|i: int| 0 <= i < a.len() ==> ascii_lower(#[trigger] a[i]) == ascii_lower(b[i])
}

fn lower(c: char) -> (r: char)
    ensures
        r == ascii_lower(c),
{
    if 'A' <= c && c <= 'Z' {
        let u = ((c as u32) + 32) as u8;
        u as char
    } else {
        c
    }
}

fn eq_ignore_case(a: &str, b: &str) -> (r: bool)
    ensures
        r == eq_ignore_ascii_case(a@, b@),
{
    let av = chars_of(a);
    let bv = chars_of(b);
    if av.len() != bv.len() {
        return false;
    }
    let mut i: usize = 0;
    while i < av.len()
        invariant
            av@ == a@,
            bv@ == b@,
            av@.len() == bv@.len(),
            i <= av@.len(),
            forall|j: int| 0 <= j < i ==> ascii_lower(#[trigger] av@[j]) == ascii_lower(bv@[j]),
        decreases av@.len() - i,
    {
        if lower(av[i]) != lower(bv[i]) {
            return false;
        }
        i = i + 1;
    }
    true
}

/// Whether a window's day list admits the given weekday name.
pub open spec fn day_matches(w: TimeWindow, day: Seq<char>) -> bool {
    w.days@.len() == 0 || exists|i: int| 0 <= i < w.days@.len() && eq_ignore_ascii_case(#[trigger] w.days@[i]@, day)
}

/// Whether a window admits the instant: its bounds parse, the day matches,
/// and the time of day (to the second) is in `[start, end)`.
pub open spec fn window_admits(w: TimeWindow, now: i128) -> bool {
    match (hh_mm(w.start_time@), hh_mm(w.end_time@)) {
        (Some(start), Some(end)) => day_matches(w, weekday_name(weekday_index(now)))
            && start.0 * 3600 + start.1 * 60 <= second_of_day(now)
            && second_of_day(now) < end.0 * 3600 + end.1 * 60,
        _ => false,
    }
}

/// Two-digit zero-padded rendering of `n < 100`.
pub open spec fn two_digits(n: int) -> Seq<char> {
    seq![crate::text::digit_char((n / 10) as nat), crate::text::digit_char((n % 10) as nat)]
}

/// The reason given when no window admits the instant.
pub open spec fn window_reason(now: i128) -> Seq<char> {
    "no time window matches current time "@ + weekday_name(weekday_index(now)) + " "@
        + two_digits(second_of_day(now) / 3600) + ":"@ + two_digits((second_of_day(now) % 3600) / 60)
}

fn floor_div(n: i128, d: i128) -> (q: i128)
    requires
        d > 0,
        n > i128::MIN,
    ensures
        q == (n as int) / (d as int),
{
    if n >= 0 {
        let q = ((n as u128) / (d as u128)) as i128;
        assert(q as int == (n as int) / (d as int));
        q
    } else {
        let m = (0 - n) as u128;
        let du = d as u128;
        assert(m + du - 1 <= m * du + du - 1) by (nonlinear_arith)
            requires
                du >= 1,
                m >= 1,
        ;
        let c = (m + du - 1) / du;
        assert(c as int == (m as int + du as int - 1) / (du as int));
        assert(c <= m) by (nonlinear_arith)
            requires
                c as int == (m as int + du as int - 1) / (du as int),
                du >= 1,
                m >= 1,
        ;
        proof {
            lemma_floor_neg(n as int, d as int);
        }
        (0 - (c as i128))
    }
}

proof fn lemma_floor_neg(n: int, d: int)
    requires
        n < 0,
        d > 0,
    ensures
        n / d == -((-n + d - 1) / d),
{
    let m = -n;
    let c = (m + d - 1) / d;
    let r = (m + d - 1) % d;
    assert(m + d - 1 == c * d + r && 0 <= r < d) by (nonlinear_arith)
        requires
            c == (m + d - 1) / d,
            r == (m + d - 1) % d,
            d > 0,
    ;
    assert(n == (-c) * d + (d - 1 - r)) by (nonlinear_arith)
        requires
            m + d - 1 == c * d + r,
            m == -n,
    ;
    assert(0 <= d - 1 - r < d);
    assert(n / d == -c) by (nonlinear_arith)
        requires
            n == (-c) * d + (d - 1 - r),
            0 <= d - 1 - r < d,
            d > 0,
    ;
}

fn two_digit_chars(out: &mut Vec<char>, n: u64)
    requires
        n < 100,
    ensures
        final(out)@ == old(out)@ + two_digits(n as int),
{
    let mut t: Vec<char> = Vec::new();
    push_dec(&mut t, (n / 10) as u128);
    assert(crate::text::dec((n / 10) as nat) == seq![crate::text::digit_char((n / 10) as nat)]);
    let mut u: Vec<char> = Vec::new();
    push_dec(&mut u, (n % 10) as u128);
    assert(crate::text::dec((n % 10) as nat) == seq![crate::text::digit_char((n % 10) as nat)]);
    out.push(t[0]);
    out.push(u[0]);
}

/// Evaluates time windows at the instant `now` (nanoseconds since the
/// Unix epoch): allowed when some window admits it, else skipped by
/// schedule.
pub fn evaluate_at(windows: &[TimeWindow], now: i128) -> (r: EvalOutcome)
    requires
        now > i128::MIN,
    ensures
        match r {
            EvalOutcome::Allow => exists|i: int| 0 <= i < windows@.len() && window_admits(#[trigger] windows@[i], now),
            EvalOutcome::Reject { status, reason } => status == TriggerAttemptStatus::ScheduleSkipped
                && reason@ == window_reason(now)
                && forall|i: int| 0 <= i < windows@.len() ==> !window_admits(#[trigger] windows@[i], now),
        },
{
    let secs = floor_div(now, 1_000_000_000i128);
    assert(secs == unix_secs(now));
    let days = floor_div(secs, 86400);
    proof {
        vstd::arithmetic::div_mod::lemma_fundamental_div_mod(secs as int, 86400);
    }
    let sod = (secs - days * 86400) as u64;
    assert(sod as int == second_of_day(now));
    let weeks = floor_div(days, 7);
    proof {
        vstd::arithmetic::div_mod::lemma_fundamental_div_mod(days as int, 7);
    }
    let r7 = (days - weeks * 7) as u64;
    assert(r7 as int == (days as int) % 7);
    let wd = ((r7 + 3) % 7) as u8;
    assert(wd as int == weekday_index(now)) by {
        vstd::arithmetic::div_mod::lemma_add_mod_noop(days as int, 3, 7);
    }
    let day = weekday_abbrev(wd);
    let mut i: usize = 0;
    while i < windows.len()
        invariant
            i <= windows@.len(),
            sod as int == second_of_day(now),
            0 <= sod < 86400,
            day@ == weekday_name(weekday_index(now)),
            forall|j: int| 0 <= j < i ==> !window_admits(#[trigger] windows@[j], now),
        decreases windows@.len() - i,
    {
        let w = &windows[i];
        match (parse_hh_mm(w.start_time.as_str()), parse_hh_mm(w.end_time.as_str())) {
            (Some(start), Some(end)) => {
                let mut day_ok = w.days.len() == 0;
                let mut k: usize = 0;
                while k < w.days.len() && !day_ok
                    invariant
                        k <= w.days@.len(),
                        day_ok ==> day_matches(*w, day@),
                        !day_ok ==> w.days@.len() > 0 && forall|j: int| 0 <= j < k ==> !eq_ignore_ascii_case(
                            #[trigger] w.days@[j]@,
                            day@,
                        ),
                    decreases w.days@.len() - k,
                {
                    if eq_ignore_case(w.days[k].as_str(), day) {
                        day_ok = true;
                    }
                    k = k + 1;
                }
                let s0 = (start.0 as u64) * 3600 + (start.1 as u64) * 60;
                let e0 = (end.0 as u64) * 3600 + (end.1 as u64) * 60;
                if day_ok && s0 <= sod && sod < e0 {
                    assert(window_admits(windows@[i as int], now));
                    return EvalOutcome::Allow;
                }
            },
            _ => {},
        }
        i = i + 1;
    }
    let mut m: Vec<char> = Vec::new();
    extend_str(&mut m, "no time window matches current time ");
    extend_str(&mut m, day);
    extend_str(&mut m, " ");
    two_digit_chars(&mut m, sod / 3600);
    extend_str(&mut m, ":");
    two_digit_chars(&mut m, (sod % 3600) / 60);
    EvalOutcome::Reject { status: TriggerAttemptStatus::ScheduleSkipped, reason: string_of(m.as_slice()) }
}

} // verus!
