//! Execution records and their lifecycle states.
use vstd::prelude::*;

use crate::models::trigger_attempt::same_text;
use crate::text::{chars_of, lex_lt, sub_chars, text_lt};

verus! {

/// Lifecycle state of an execution record.
#[derive(Clone, Copy, Debug, PartialEq, Eq, Structural)]
pub enum ExecutionStatus {
    Pending,
    PendingApproval,
    Approved,
    Rejected,
    Expired,
    Running,
    Success,
    Failed,
    TimedOut,
}

/// Whether a status is terminal: success, failed, timed out, rejected or expired.
pub open spec fn status_is_terminal(s: ExecutionStatus) -> bool {
    matches!(
        s,
        ExecutionStatus::Success | ExecutionStatus::Failed | ExecutionStatus::TimedOut
            | ExecutionStatus::Rejected | ExecutionStatus::Expired
    )
}

/// The stored (snake case) name of an execution status.
pub open spec fn execution_status_name(s: ExecutionStatus) -> Seq<char> {
    match s {
        ExecutionStatus::Pending => "pending"@,
        ExecutionStatus::PendingApproval => "pending_approval"@,
        ExecutionStatus::Approved => "approved"@,
        ExecutionStatus::Rejected => "rejected"@,
        ExecutionStatus::Expired => "expired"@,
        ExecutionStatus::Running => "running"@,
        ExecutionStatus::Success => "success"@,
        ExecutionStatus::Failed => "failed"@,
        ExecutionStatus::TimedOut => "timed_out"@,
    }
}

/// The execution status with the given stored name, if any.
pub open spec fn parse_execution_status(name: Seq<char>) -> Option<ExecutionStatus> {
    if name == "pending"@ {
        Some(ExecutionStatus::Pending)
    } else if name == "pending_approval"@ {
        Some(ExecutionStatus::PendingApproval)
    } else if name == "approved"@ {
        Some(ExecutionStatus::Approved)
    } else if name == "rejected"@ {
        Some(ExecutionStatus::Rejected)
    } else if name == "expired"@ {
        Some(ExecutionStatus::Expired)
    } else if name == "running"@ {
        Some(ExecutionStatus::Running)
    } else if name == "success"@ {
        Some(ExecutionStatus::Success)
    } else if name == "failed"@ {
        Some(ExecutionStatus::Failed)
    } else if name == "timed_out"@ {
        Some(ExecutionStatus::TimedOut)
    } else {
        None
    }
}

impl ExecutionStatus {
    /// Returns true if this status represents a terminal state.
    pub fn is_terminal(&self) -> (b: bool)
        ensures
            b == status_is_terminal(*self),
    {
        match self {
            ExecutionStatus::Success | ExecutionStatus::Failed | ExecutionStatus::TimedOut
            | ExecutionStatus::Rejected | ExecutionStatus::Expired => true,
            _ => false,
        }
    }

    /// The status stored under `name` (as the database column holds it);
    /// `None` for an unknown name.
    pub fn from_name(name: &str) -> (r: Option<ExecutionStatus>)
        ensures
            r == parse_execution_status(name@),
    {
        if same_text(name, "pending") {
            Some(ExecutionStatus::Pending)
        } else if same_text(name, "pending_approval") {
            Some(ExecutionStatus::PendingApproval)
        } else if same_text(name, "approved") {
            Some(ExecutionStatus::Approved)
        } else if same_text(name, "rejected") {
            Some(ExecutionStatus::Rejected)
        } else if same_text(name, "expired") {
            Some(ExecutionStatus::Expired)
        } else if same_text(name, "running") {
            Some(ExecutionStatus::Running)
        } else if same_text(name, "success") {
            Some(ExecutionStatus::Success)
        } else if same_text(name, "failed") {
            Some(ExecutionStatus::Failed)
        } else if same_text(name, "timed_out") {
            Some(ExecutionStatus::TimedOut)
        } else {
            None
        }
    }

    /// The stored name of this status (what `Display` writes).
    pub fn as_str(&self) -> (s: &'static str)
        ensures
            s@ == execution_status_name(*self),
    {
        match self {
            ExecutionStatus::Pending => "pending",
            ExecutionStatus::PendingApproval => "pending_approval",
            ExecutionStatus::Approved => "approved",
            ExecutionStatus::Rejected => "rejected",
            ExecutionStatus::Expired => "expired",
            ExecutionStatus::Running => "running",
            ExecutionStatus::Success => "success",
            ExecutionStatus::Failed => "failed",
            ExecutionStatus::TimedOut => "timed_out",
        }
    }

    /// The stored name of this status, as an owned string.
    pub fn to_string(&self) -> (s: String)
        ensures
            s@ == execution_status_name(*self),
    {
        self.as_str().to_owned()
    }
}

/// Distinct execution statuses have distinct stored names.
pub proof fn execution_status_names_distinct(a: ExecutionStatus, b: ExecutionStatus)
    requires
        a != b,
    ensures
        execution_status_name(a) != execution_status_name(b),
{
    reveal_strlit("pending");
    assert("pending"@.len() == 7 && "pending"@[0] == 'p' && "pending"@[1] == 'e');
    reveal_strlit("pending_approval");
    assert("pending_approval"@.len() == 16 && "pending_approval"@[0] == 'p' && "pending_approval"@[1] == 'e');
    reveal_strlit("approved");
    assert("approved"@.len() == 8 && "approved"@[0] == 'a' && "approved"@[1] == 'p');
    reveal_strlit("rejected");
    assert("rejected"@.len() == 8 && "rejected"@[0] == 'r' && "rejected"@[1] == 'e');
    reveal_strlit("expired");
    assert("expired"@.len() == 7 && "expired"@[0] == 'e' && "expired"@[1] == 'x');
    reveal_strlit("running");
    assert("running"@.len() == 7 && "running"@[0] == 'r' && "running"@[1] == 'u');
    reveal_strlit("success");
    assert("success"@.len() == 7 && "success"@[0] == 's' && "success"@[1] == 'u');
    reveal_strlit("failed");
    assert("failed"@.len() == 6 && "failed"@[0] == 'f' && "failed"@[1] == 'a');
    reveal_strlit("timed_out");
    assert("timed_out"@.len() == 9 && "timed_out"@[0] == 't' && "timed_out"@[1] == 'i');
}

/// Reading the stored name of an execution status gives the status back.
pub proof fn execution_status_name_round_trip(s: ExecutionStatus)
    ensures
        parse_execution_status(execution_status_name(s)) == Some(s),
{
    let all = seq![
        ExecutionStatus::Pending,
        ExecutionStatus::PendingApproval,
        ExecutionStatus::Approved,
        ExecutionStatus::Rejected,
        ExecutionStatus::Expired,
        ExecutionStatus::Running,
        ExecutionStatus::Success,
        ExecutionStatus::Failed,
        ExecutionStatus::TimedOut,
    ];
    assert forall|i: int| 0 <= i < all.len() && all[i] != s implies execution_status_name(#[trigger] all[i])
        != execution_status_name(s) by {
        execution_status_names_distinct(all[i], s);
    }
    assert(all[0] == ExecutionStatus::Pending);
    assert(all[1] == ExecutionStatus::PendingApproval);
    assert(all[2] == ExecutionStatus::Approved);
    assert(all[3] == ExecutionStatus::Rejected);
    assert(all[4] == ExecutionStatus::Expired);
    assert(all[5] == ExecutionStatus::Running);
    assert(all[6] == ExecutionStatus::Success);
    assert(all[7] == ExecutionStatus::Failed);
    assert(all[8] == ExecutionStatus::TimedOut);
}

/// A stored execution.
#[derive(Debug)]
pub struct Execution {
    pub id: String,
    pub hook_slug: String,
    pub triggered_at: String,
    pub started_at: Option<String>,
    pub completed_at: Option<String>,
    pub status: ExecutionStatus,
    pub exit_code: Option<i32>,
    pub log_path: String,
    pub trigger_source: String,
    pub request_payload: String,
    pub retry_count: i32,
    pub retry_of: Option<String>,
    pub approved_at: Option<String>,
    pub approved_by: Option<String>,
}

/// Parameters for creating a new execution.
#[derive(Debug)]
pub struct NewExecution<'a> {
    /// Pre-generated ID. If None, a new UUIDv7 is generated.
    pub id: Option<&'a str>,
    pub hook_slug: &'a str,
    pub log_path: &'a str,
    pub trigger_source: &'a str,
    pub request_payload: &'a str,
    pub retry_of: Option<&'a str>,
    /// Optional initial status. Defaults to `pending` if None.
    pub status: Option<ExecutionStatus>,
}

/// Filters for the execution list. All fields are optional; omitted fields are not applied.
#[derive(Debug)]
pub struct ExecutionFilters<'a> {
    /// Filter by status string (e.g. "success", "failed"). None = all statuses.
    pub status: Option<&'a str>,
    /// Inclusive lower bound on triggered_at (ISO8601). None = no lower bound.
    pub from_date: Option<&'a str>,
    /// Inclusive upper bound on triggered_at (ISO8601). None = no upper bound.
    pub to_date: Option<&'a str>,
}

/// Whether a trigger time lies in the date range: not before `from_date`,
/// and, cut to the length of `to_date`, not after it (so the whole
/// `to_date` day is included).
pub open spec fn in_date_range(triggered_at: Seq<char>, from_date: Option<Seq<char>>, to_date: Option<Seq<char>>) -> bool {
    &&& (from_date matches Some(from) ==> !lex_lt(triggered_at, from))
    &&& (to_date matches Some(to) ==> !lex_lt(
        to,
        triggered_at.take(if to.len() < triggered_at.len() { to.len() as int } else { triggered_at.len() as int }),
    ))
}

/// The view of an optional string slice.
pub open spec fn opt_view(o: Option<&str>) -> Option<Seq<char>> {
    match o {
        Some(s) => Some(s@),
        None => None,
    }
}

/// The executions of `candidates` within the date range of `filters`, in
/// order.
pub open spec fn within_dates(candidates: Seq<Execution>, filters: ExecutionFilters) -> Seq<Execution>
    decreases candidates.len(),
{
    if candidates.len() == 0 {
        seq![]
    } else {
        let rest = within_dates(candidates.drop_last(), filters);
        if in_date_range(candidates.last().triggered_at@, opt_view(filters.from_date), opt_view(filters.to_date)) {
            rest.push(candidates.last())
        } else {
            rest
        }
    }
}

/// Whether execution `e` was triggered within the date range of `filters`.
pub fn execution_in_date_range(e: &Execution, filters: &ExecutionFilters) -> (b: bool)
    ensures
        b == in_date_range(e.triggered_at@, opt_view(filters.from_date), opt_view(filters.to_date)),
{
    let t = chars_of(e.triggered_at.as_str());
    match filters.from_date {
        Some(from) => {
            let f = chars_of(from);
            if text_lt(t.as_slice(), f.as_slice()) {
                return false;
            }
        },
        None => {},
    }
    match filters.to_date {
        Some(to) => {
            let tc = chars_of(to);
            let n = if tc.len() < t.len() { tc.len() } else { t.len() };
            let day = sub_chars(t.as_slice(), 0, n);
            assert(day@ == t@.take(n as int));
            if text_lt(tc.as_slice(), day.as_slice()) {
                return false;
            }
        },
        None => {},
    }
    true
}

/// The items of `s` after skipping `offset`, at most `limit` of them.
pub open spec fn page_of<T>(s: Seq<T>, limit: nat, offset: nat) -> Seq<T> {
    if offset >= s.len() {
        seq![]
    } else if s.len() - offset > limit {
        s.subrange(offset as int, (offset + limit) as int)
    } else {
        s.subrange(offset as int, s.len() as int)
    }
}

/// One page of the executions within the date range of `filters`: the
/// matching candidates, in order, after skipping `offset`, at most `limit`.
pub fn page_within_dates(candidates: Vec<Execution>, filters: &ExecutionFilters, limit: usize, offset: usize) -> (page: Vec<Execution>)
    ensures
        page@ == page_of(within_dates(candidates@, *filters), limit as nat, offset as nat),
{
    let ghost all = candidates@;
    let mut rest = candidates;
    let mut kept: Vec<Execution> = Vec::new();
    let mut i: usize = 0;
    let n = rest.len();
    while rest.len() > 0
        invariant
            n == all.len(),
            i + rest@.len() == n,
            rest@ == all.skip(i as int),
            kept@ == within_dates(all.take(i as int), *filters),
        decreases rest@.len(),
    {
        let e = rest.remove(0);
        assert(all.take(i + 1).drop_last() == all.take(i as int));
        assert(all.take(i + 1).last() == e);
        assert(rest@ == all.skip(i + 1));
        if execution_in_date_range(&e, filters) {
            kept.push(e);
        }
        i = i + 1;
    }
    assert(all.take(n as int) == all);
    let mut page: Vec<Execution> = Vec::new();
    if offset >= kept.len() {
        return page;
    }
    let mut tail = kept.split_off(offset);
    assert(tail@ == within_dates(all, *filters).subrange(offset as int, within_dates(all, *filters).len() as int));
    if tail.len() > limit {
        tail.truncate(limit);
    }
    page = tail;
    page
}

} // verus!
