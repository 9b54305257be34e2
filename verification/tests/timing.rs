use sendword::models::execution::{execution_in_date_range, page_within_dates, Execution, ExecutionFilters};
use sendword::models::ExecutionStatus;
use sendword::timing::{compute_duration, seconds_between};

fn some(s: &str) -> Option<String> {
    Some(s.to_owned())
}

#[test]
fn compute_duration_formats() {
    assert_eq!(compute_duration(&some("2026-01-01T00:00:00Z"), &some("2026-01-01T00:00:03.25Z")).as_deref(), Some("3.250s"));
    assert_eq!(compute_duration(&some("2026-01-01T00:00:00Z"), &some("2026-01-01T00:02:05Z")).as_deref(), Some("2m 5s"));
    assert_eq!(compute_duration(&some("2026-01-01T00:00:00Z"), &some("2026-01-01T03:04:05Z")).as_deref(), Some("3h 4m"));
    assert_eq!(compute_duration(&some("2026-01-01T00:00:05Z"), &some("2026-01-01T00:00:00Z")), None);
    assert_eq!(compute_duration(&None, &some("2026-01-01T00:00:00Z")), None);
    assert_eq!(compute_duration(&some("yesterday"), &some("2026-01-01T00:00:00Z")), None);
}

#[test]
fn seconds_between_for_notifications() {
    assert_eq!(seconds_between(&some("2026-04-12T10:00:01Z"), &some("2026-04-12T10:00:04Z")), "3s");
    assert_eq!(seconds_between(&some("2026-04-12T10:00:04Z"), &some("2026-04-12T10:00:01.5Z")), "-2s");
    assert_eq!(seconds_between(&None, &None), "unknown");
}

fn exec(id: &str, at: &str) -> Execution {
    Execution {
        id: id.into(),
        hook_slug: "h".into(),
        triggered_at: at.into(),
        started_at: None,
        completed_at: None,
        status: ExecutionStatus::Success,
        exit_code: None,
        log_path: String::new(),
        trigger_source: String::new(),
        request_payload: "{}".into(),
        retry_count: 0,
        retry_of: None,
        approved_at: None,
        approved_by: None,
    }
}

#[test]
fn date_range_filter_includes_whole_end_day() {
    let f = ExecutionFilters { status: None, from_date: Some("2026-01-02"), to_date: Some("2026-01-03") };
    assert!(!execution_in_date_range(&exec("a", "2026-01-01T23:59:59Z"), &f));
    assert!(execution_in_date_range(&exec("b", "2026-01-02T00:00:00Z"), &f));
    assert!(execution_in_date_range(&exec("c", "2026-01-03T23:59:59Z"), &f));
    assert!(!execution_in_date_range(&exec("d", "2026-01-04T00:00:00Z"), &f));
    let all = vec![
        exec("d", "2026-01-04T00:00:00Z"),
        exec("c", "2026-01-03T10:00:00Z"),
        exec("b", "2026-01-02T10:00:00Z"),
        exec("a", "2026-01-01T10:00:00Z"),
    ];
    let page = page_within_dates(all, &f, 1, 1);
    assert_eq!(page.len(), 1);
    assert_eq!(page[0].id, "b");
}
