use sendword::auth::{extract_cookie, CookieConfig, COOKIE_NAME};
use sendword::extractors::login_redirect_target;

#[test]
fn extract_cookie_finds_single_cookie() {
    assert_eq!(
        extract_cookie(Some("sendword_session=abc123"), "sendword_session"),
        Some("abc123".into())
    );
}

#[test]
fn extract_cookie_finds_cookie_among_multiple() {
    assert_eq!(
        extract_cookie(
            Some("other=xyz; sendword_session=token123; another=456"),
            "sendword_session"
        ),
        Some("token123".into())
    );
}

#[test]
fn extract_cookie_returns_none_when_missing() {
    assert_eq!(extract_cookie(Some("other=xyz"), "sendword_session"), None);
}

#[test]
fn extract_cookie_returns_none_for_empty_value() {
    assert_eq!(extract_cookie(Some("sendword_session="), "sendword_session"), None);
}

#[test]
fn extract_cookie_returns_none_when_no_cookie_header() {
    assert_eq!(extract_cookie(None, "sendword_session"), None);
}

#[test]
fn extract_cookie_does_not_match_prefix_substring() {
    assert_eq!(extract_cookie(Some("other_sendword_session=bad"), "sendword_session"), None);
}

#[test]
fn extract_cookie_does_not_match_name_with_suffix() {
    assert_eq!(extract_cookie(Some("sendword_session_extra=bad"), "sendword_session"), None);
}

#[test]
fn extract_cookie_skips_empty_value_and_keeps_looking() {
    assert_eq!(
        extract_cookie(Some("sendword_session=; sendword_session=second"), COOKIE_NAME),
        Some("second".into())
    );
}

#[test]
fn session_cookie_header_without_secure() {
    let cfg = CookieConfig { secure: false };
    let header = cfg.session_cookie_header("tok123");
    assert!(header.contains("sendword_session=tok123"));
    assert!(header.contains("HttpOnly"));
    assert!(header.contains("SameSite=Lax"));
    assert!(header.contains("Path=/"));
    assert!(!header.contains("Secure"));
}

#[test]
fn session_cookie_header_with_secure() {
    let cfg = CookieConfig { secure: true };
    let header = cfg.session_cookie_header("tok123");
    assert!(header.contains("Secure"));
}

#[test]
fn clear_cookie_header_sets_max_age_zero() {
    let cfg = CookieConfig { secure: false };
    let header = cfg.clear_cookie_header();
    assert!(header.contains("Max-Age=0"));
    assert!(header.contains("sendword_session="));
}

#[test]
fn session_cookie_header_exact_text() {
    let cfg = CookieConfig { secure: true };
    assert_eq!(
        cfg.session_cookie_header("t"),
        "sendword_session=t; HttpOnly; SameSite=Lax; Path=/; Secure"
    );
    assert_eq!(
        CookieConfig { secure: false }.clear_cookie_header(),
        "sendword_session=; HttpOnly; SameSite=Lax; Path=/; Max-Age=0"
    );
}

#[test]
fn rejected_pages_redirect_to_login() {
    assert_eq!(login_redirect_target(), "/login");
}
