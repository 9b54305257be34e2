use sendword::models::session::generate_token;
use sendword::models::user::{hash_password, verify_password};
use sendword::models::{validate_username, ExecutionStatus, TriggerAttemptStatus};
use std::collections::HashSet;

#[test]
fn validate_username_accepts_valid() {
    assert!(validate_username("admin").is_ok());
    assert!(validate_username("user-1").is_ok());
    assert!(validate_username("abc").is_ok());
    assert!(validate_username("a".repeat(32).as_str()).is_ok());
}

#[test]
fn validate_username_rejects_too_short() {
    assert!(validate_username("ab").is_err());
    assert!(validate_username("a").is_err());
    assert!(validate_username("").is_err());
}

#[test]
fn validate_username_rejects_too_long() {
    assert!(validate_username("a".repeat(33).as_str()).is_err());
}

#[test]
fn validate_username_rejects_leading_trailing_hyphen() {
    assert!(validate_username("-admin").is_err());
    assert!(validate_username("admin-").is_err());
}

#[test]
fn validate_username_rejects_invalid_chars() {
    assert!(validate_username("admin@home").is_err());
    assert!(validate_username("user name").is_err());
    assert!(validate_username("user_name").is_err());
}

#[test]
fn validate_username_reports_each_error() {
    assert_eq!(validate_username("ab"), Err("username must be 3-32 characters"));
    assert_eq!(validate_username("-ab"), Err("username must not start or end with a hyphen"));
    assert_eq!(
        validate_username("a_b"),
        Err("username must contain only alphanumeric characters and hyphens")
    );
    // Length counts bytes: two-byte characters make "éé" four bytes long.
    assert_eq!(
        validate_username("éé"),
        Err("username must contain only alphanumeric characters and hyphens")
    );
}

#[test]
fn execution_status_is_terminal() {
    assert!(!ExecutionStatus::Pending.is_terminal());
    assert!(!ExecutionStatus::Running.is_terminal());
    assert!(!ExecutionStatus::PendingApproval.is_terminal());
    assert!(!ExecutionStatus::Approved.is_terminal());
    assert!(ExecutionStatus::Success.is_terminal());
    assert!(ExecutionStatus::Failed.is_terminal());
    assert!(ExecutionStatus::TimedOut.is_terminal());
    assert!(ExecutionStatus::Rejected.is_terminal());
    assert!(ExecutionStatus::Expired.is_terminal());
}

#[test]
fn execution_status_names() {
    assert_eq!(ExecutionStatus::PendingApproval.to_string(), "pending_approval");
    assert_eq!(ExecutionStatus::TimedOut.to_string(), "timed_out");
    assert_eq!(ExecutionStatus::Success.as_str(), "success");
}

#[test]
fn status_display_matches_db_check_constraint() {
    let cases = [
        (TriggerAttemptStatus::Fired, "fired"),
        (TriggerAttemptStatus::AuthFailed, "auth_failed"),
        (TriggerAttemptStatus::ValidationFailed, "validation_failed"),
        (TriggerAttemptStatus::Filtered, "filtered"),
        (TriggerAttemptStatus::RateLimited, "rate_limited"),
        (TriggerAttemptStatus::ScheduleSkipped, "schedule_skipped"),
        (TriggerAttemptStatus::CooldownSkipped, "cooldown_skipped"),
        (TriggerAttemptStatus::ConcurrencyRejected, "concurrency_rejected"),
        (TriggerAttemptStatus::PendingApproval, "pending_approval"),
    ];
    for (variant, expected) in cases {
        assert_eq!(variant.to_string(), expected);
        assert_eq!(TriggerAttemptStatus::parse(expected), Some(variant));
    }
    assert_eq!(TriggerAttemptStatus::parse("bogus"), None);
    assert_eq!(TriggerAttemptStatus::parse("Fired"), None);
}

#[test]
fn generate_token_produces_43_char_base64url_string() {
    let token = generate_token().expect("OS RNG");
    assert_eq!(token.len(), 43);
    // base64url alphabet: A-Z, a-z, 0-9, -, _
    assert!(token.chars().all(|c| c.is_ascii_alphanumeric() || c == '-' || c == '_'));
}

#[test]
fn generate_token_produces_unique_tokens() {
    let tokens: HashSet<String> = (0..100).map(|_| generate_token().expect("OS RNG")).collect();
    assert_eq!(tokens.len(), 100);
}

#[test]
fn hash_and_verify_password_roundtrips() {
    let hash = hash_password("correct-horse-battery-staple").unwrap();
    assert!(verify_password("correct-horse-battery-staple", &hash));
    assert!(!verify_password("wrong-password", &hash));
}

#[test]
fn hash_password_produces_unique_salts() {
    let h1 = hash_password("same-password").unwrap();
    let h2 = hash_password("same-password").unwrap();
    assert_ne!(h1, h2, "hashes should differ due to unique salts");
    // Both should still verify
    assert!(verify_password("same-password", &h1));
    assert!(verify_password("same-password", &h2));
}

#[test]
fn verify_password_rejects_malformed_hash() {
    assert!(!verify_password("anything", "not-a-valid-hash"));
}

#[test]
fn execution_status_names_read_back() {
    for s in [
        ExecutionStatus::Pending,
        ExecutionStatus::PendingApproval,
        ExecutionStatus::Approved,
        ExecutionStatus::Rejected,
        ExecutionStatus::Expired,
        ExecutionStatus::Running,
        ExecutionStatus::Success,
        ExecutionStatus::Failed,
        ExecutionStatus::TimedOut,
    ] {
        assert_eq!(ExecutionStatus::from_name(s.as_str()), Some(s));
    }
    assert_eq!(ExecutionStatus::from_name("done"), None);
}
