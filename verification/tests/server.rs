use sendword::server::if_none_match_matches;

#[test]
fn if_none_match_exact_weak_and_star() {
    let etag = "\"abc123\"";
    assert!(if_none_match_matches(Some("\"abc123\""), etag));
    assert!(if_none_match_matches(Some("W/\"abc123\""), etag));
    assert!(if_none_match_matches(Some("*"), etag));
    assert!(if_none_match_matches(Some("\"zzz\", \"abc123\""), etag));
    assert!(if_none_match_matches(Some("  W/\"abc123\"  ,\"x\""), etag));
}

#[test]
fn if_none_match_absent_or_different() {
    let etag = "\"abc123\"";
    assert!(!if_none_match_matches(None, etag));
    assert!(!if_none_match_matches(Some("\"other\""), etag));
    assert!(!if_none_match_matches(Some(""), etag));
    assert!(!if_none_match_matches(Some("w/\"abc123\""), etag));
}
