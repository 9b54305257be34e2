use sendword::error::AppError;
use sendword::views::{avatar_initial, render_date_span, NavActive, PaginationState};

#[test]
fn pagination_helpers() {
    let pagination = PaginationState::new(2, 20, 45, 20);
    assert_eq!(pagination.start_index(), 21);
    assert_eq!(pagination.end_index(), 40);
    assert_eq!(pagination.total_pages(), 3);
    assert!(pagination.has_previous());
    assert!(pagination.has_next());
    assert_eq!(pagination.summary_label(), "21-40 OF 45");

    let out_of_range = PaginationState::new(99, 20, 45, 20);
    assert_eq!(out_of_range.page, 3);
    assert_eq!(out_of_range.summary_label(), "41-45 OF 45");
}

#[test]
fn pagination_of_nothing() {
    let p = PaginationState::new(0, 0, -5, 7);
    assert_eq!(p.page, 1);
    assert_eq!(p.per_page, 1);
    assert_eq!(p.total, 0);
    assert_eq!(p.item_count, 1);
    assert_eq!(p.total_pages(), 1);
    assert_eq!(p.summary_label(), "0-0 OF 0");
    assert!(!p.has_previous());
    assert!(!p.has_next());
}

#[test]
fn date_span_escapes_value() {
    let date = render_date_span(r#"2026-05-17T10:00:00Z" onclick="bad"#).unwrap();
    assert!(date.contains(r#"data-ts="2026-05-17T10:00:00Z&#34; onclick=&#34;bad""#));
    assert!(date.contains("2026-05-17T10:00:00Z&#34; onclick=&#34;bad"));
    assert_eq!(render_date_span("<&'>").unwrap(), "<span data-ts=\"&#60;&#38;&#39;&#62;\">&#60;&#38;&#39;&#62;</span>");
}

#[test]
fn avatar_initial_upper_cases_first_letter() {
    assert_eq!(avatar_initial("admin"), "A");
    assert_eq!(avatar_initial(""), "S");
    assert_eq!(avatar_initial("ßeta"), "SS");
    assert_eq!(NavActive::default(), NavActive::NoSection);
}

#[test]
fn app_error_responses() {
    let (status, body) = AppError::not_found("hook").response_parts();
    assert_eq!(status, 404);
    assert_eq!(body, "hook not found");
    let (status, body) = AppError::Internal(eyre::Report::msg("boom")).response_parts();
    assert_eq!(status, 500);
    assert_eq!(body, "internal server error");
}
