//! Elapsed time between two stored timestamps.
use vstd::prelude::*;

use crate::text::{dec, dec_int, extend_str, push_dec, string_of};
use crate::trigger_rules::cooldown::{parse_rfc3339, rfc3339_instant};

verus! {

/// Nanoseconds since the epoch of a parsed RFC 3339 timestamp.
pub open spec fn instant_ns(t: (i64, u32)) -> int {
    t.0 * 1_000_000_000 + t.1
}

/// `a / b` rounded toward zero, as Rust's integer division does.
pub open spec fn div_trunc(a: int, b: int) -> int
    recommends
        b > 0,
{
    if a >= 0 {
        a / b
    } else {
        -((-a) / b)
    }
}

/// `a % b` with the sign of `a`, as Rust's remainder does.
pub open spec fn rem_trunc(a: int, b: int) -> int
    recommends
        b > 0,
{
    a - div_trunc(a, b) * b
}

fn div_trunc_exec(a: i128, b: i128) -> (r: i128)
    requires
        b > 0,
        -0x1_0000_0000_0000_0000_0000_0000i128 <= a <= 0x1_0000_0000_0000_0000_0000_0000i128,
    ensures
        r == div_trunc(a as int, b as int),
        -0x1_0000_0000_0000_0000_0000_0000i128 <= r <= 0x1_0000_0000_0000_0000_0000_0000i128,
{
    if a >= 0 {
        let q = a / b;
        assert(q <= a) by (nonlinear_arith)
            requires
                a >= 0,
                b > 0,
                q == a / b,
        ;
        q
    } else {
        let n: i128 = 0 - a;
        let q: i128 = n / b;
        assert(0 <= q <= n) by (nonlinear_arith)
            requires
                n > 0,
                b > 0,
                q == n / b,
        ;
        0 - q
    }
}

fn push_dec_i128(out: &mut Vec<char>, n: i128)
    ensures
        final(out)@ == old(out)@ + dec_int(n as int),
{
    if n < 0 {
        out.push('-');
        let m: u128 = (0i128 - (n + 1)) as u128 + 1;
        push_dec(out, m);
    } else {
        push_dec(out, n as u128);
    }
}

/// The nanoseconds from `started` to `completed`, when both are RFC 3339
/// timestamps.
pub open spec fn span_ns(started: Seq<char>, completed: Seq<char>) -> Option<int> {
    match (rfc3339_instant(started), rfc3339_instant(completed)) {
        (Some(s), Some(e)) => Some(instant_ns(e) - instant_ns(s)),
        _ => None,
    }
}

/// Nanoseconds from `started` to `completed`, when both parse.
pub fn span_nanos(started: &str, completed: &str) -> (r: Option<i128>)
    ensures
        r matches Some(n) ==> span_ns(started@, completed@) == Some(n as int),
        r matches Some(n) ==> -0x1_0000_0000_0000_0000_0000_0000i128 <= n <= 0x1_0000_0000_0000_0000_0000_0000i128,
        r is None ==> span_ns(started@, completed@) is None,
{
    let s = parse_rfc3339(started);
    let e = parse_rfc3339(completed);
    match (s, e) {
        (Some(s), Some(e)) => {
            let sn: i128 = s.0 as i128 * 1_000_000_000 + s.1 as i128;
            let en: i128 = e.0 as i128 * 1_000_000_000 + e.1 as i128;
            Some(en - sn)
        },
        _ => None,
    }
}

/// The digits of `n` padded with leading zeros to `width` characters.
pub open spec fn zero_padded(n: nat, width: nat) -> Seq<char>
    decreases width,
{
    if dec(n).len() >= width || width == 0 {
        dec(n)
    } else {
        seq!['0'] + zero_padded(n, (width - 1) as nat)
    }
}

/// `n` as `{:03}` writes it: zero-padded to three characters, a minus sign
/// counting as one of them.
pub open spec fn pad3(n: int) -> Seq<char> {
    if n < 0 {
        seq!['-'] + zero_padded((-n) as nat, 2)
    } else {
        zero_padded(n as nat, 3)
    }
}

fn push_zero_padded(out: &mut Vec<char>, n: u128, width: usize)
    ensures
        final(out)@ == old(out)@ + zero_padded(n as nat, width as nat),
    decreases width,
{
    let mut digits: Vec<char> = Vec::new();
    push_dec(&mut digits, n);
    assert(digits@ == dec(n as nat));
    if digits.len() >= width || width == 0 {
        crate::text::extend_chars(out, digits.as_slice());
    } else {
        out.push('0');
        push_zero_padded(out, n, width - 1);
    }
}

/// How long an execution took, for the execution lists: seconds and
/// milliseconds below a minute, minutes and seconds below an hour, else
/// hours and minutes. Nothing when a timestamp is missing or unreadable,
/// or when the end comes a whole second or more before the start.
pub open spec fn duration_label(started: Option<Seq<char>>, completed: Option<Seq<char>>) -> Option<Seq<char>> {
    match (started, completed) {
        (Some(s), Some(c)) => match span_ns(s, c) {
            Some(ns) => {
                let secs = div_trunc(ns, 1_000_000_000);
                if secs < 0 {
                    None
                } else if secs < 60 {
                    Some(dec(secs as nat) + seq!['.'] + pad3(rem_trunc(div_trunc(ns, 1_000_000), 1000))
                        + seq!['s'])
                } else if secs < 3600 {
                    Some(dec((secs / 60) as nat) + "m "@ + dec((secs % 60) as nat) + seq!['s'])
                } else {
                    Some(dec((secs / 3600) as nat) + "h "@ + dec(((secs % 3600) / 60) as nat) + seq!['m'])
                }
            },
            None => None,
        },
        _ => None,
    }
}

/// The view of an optional string.
pub open spec fn opt_string_view(o: Option<String>) -> Option<Seq<char>> {
    match o {
        Some(s) => Some(s@),
        None => None,
    }
}

/// Compute duration string from ISO8601 timestamps.
/// Returns None if either timestamp is missing.
pub fn compute_duration(started_at: &Option<String>, completed_at: &Option<String>) -> (r: Option<String>)
    ensures
        r matches Some(s) ==> duration_label(opt_string_view(*started_at), opt_string_view(*completed_at)) == Some(s@),
        r is None ==> duration_label(opt_string_view(*started_at), opt_string_view(*completed_at)) is None,
{
    let (s, c) = match (started_at, completed_at) {
        (Some(s), Some(c)) => (s, c),
        _ => return None,
    };
    let ns = match span_nanos(s.as_str(), c.as_str()) {
        Some(n) => n,
        None => return None,
    };
    let secs: i128 = div_trunc_exec(ns, 1_000_000_000);
    if secs < 0 {
        return None;
    }
    let mut m: Vec<char> = Vec::new();
    if secs < 60 {
        let ms_total: i128 = div_trunc_exec(ns, 1_000_000);
        let ms: i128 = ms_total - div_trunc_exec(ms_total, 1000) * 1000;
        push_dec(&mut m, secs as u128);
        m.push('.');
        if ms < 0 {
            m.push('-');
            push_zero_padded(&mut m, (0 - ms) as u128, 2);
        } else {
            push_zero_padded(&mut m, ms as u128, 3);
        }
        m.push('s');
    } else if secs < 3600 {
        push_dec(&mut m, (secs / 60) as u128);
        extend_str(&mut m, "m ");
        push_dec(&mut m, (secs % 60) as u128);
        m.push('s');
    } else {
        push_dec(&mut m, (secs / 3600) as u128);
        extend_str(&mut m, "h ");
        push_dec(&mut m, ((secs % 3600) / 60) as u128);
        m.push('m');
    }
    Some(string_of(m.as_slice()))
}

/// Whole seconds from `started` to `completed`, for notifications:
/// `"<n>s"`, or `unknown` when a timestamp is missing or unreadable.
pub open spec fn seconds_label(started: Option<Seq<char>>, completed: Option<Seq<char>>) -> Seq<char> {
    match (started, completed) {
        (Some(s), Some(c)) => match span_ns(s, c) {
            Some(ns) => dec_int(div_trunc(ns, 1_000_000_000)) + seq!['s'],
            None => "unknown"@,
        },
        _ => "unknown"@,
    }
}

/// Execution duration in whole seconds as a string, or "unknown" if
/// incomplete.
pub fn seconds_between(started_at: &Option<String>, completed_at: &Option<String>) -> (r: String)
    ensures
        r@ == seconds_label(opt_string_view(*started_at), opt_string_view(*completed_at)),
{
    let (s, c) = match (started_at, completed_at) {
        (Some(s), Some(c)) => (s, c),
        _ => return "unknown".to_owned(),
    };
    match span_nanos(s.as_str(), c.as_str()) {
        Some(ns) => {
            let secs: i128 = div_trunc_exec(ns, 1_000_000_000);
            let mut m: Vec<char> = Vec::new();
            push_dec_i128(&mut m, secs);
            m.push('s');
            string_of(m.as_slice())
        },
        None => "unknown".to_owned(),
    }
}

} // verus!
