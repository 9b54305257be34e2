use sendword::log_stream::{
    adjust_emit_len_for_secret_prefixes, emit_prefix_len, html_escape, mask_resolved_env_values_and_escape, safe_emit_prefix_len,
    stream_mask_tail_chars, LogStreamMasker, LogTail, TailRead, LOG_TAIL_READ_CHUNK_BYTES,
};
use sendword::masking::MaskingConfig;

fn masking_for(vars: &[&str]) -> MaskingConfig {
    MaskingConfig {
        env_vars: vars.iter().map(|s| (*s).to_owned()).collect(),
        patterns: Vec::new(),
        compiled_patterns: Vec::new(),
    }
}

#[test]
fn log_stream_masker_holds_complete_secret_until_it_can_mask_it() {
    let hook_env = vec![("SECRET_TOKEN".to_owned(), "live-secret-value".to_owned())];
    let masking = masking_for(&["SECRET_TOKEN"]);
    let mut masker = LogStreamMasker::new(&masking, &hook_env, &[]);

    assert_eq!(masker.push("live-secret-value\n"), None);
    let flushed = masker.flush().expect("masked tail");

    assert_eq!(flushed, "***\n");
    assert!(!flushed.contains("live-secret-value"));
    assert!(!flushed.contains("live-"));
}

#[test]
fn log_stream_masker_does_not_emit_split_secret_prefixes() {
    let hook_env = vec![("SECRET_TOKEN".to_owned(), "live-secret-value".to_owned())];
    let masking = masking_for(&["SECRET_TOKEN"]);
    let mut masker = LogStreamMasker::new(&masking, &hook_env, &[]);
    let mut output = String::new();

    for chunk in ["prefix live-", "secret-value suffix with enough padding to emit"] {
        if let Some(data) = masker.push(chunk) {
            output.push_str(&data);
        }
    }
    if let Some(data) = masker.flush() {
        output.push_str(&data);
    }

    assert!(output.contains("prefix *** suffix"));
    assert!(!output.contains("live-secret-value"));
    assert!(!output.contains("live-"));
}

#[test]
fn masker_without_secrets_passes_text_through_escaped() {
    let mut masker = LogStreamMasker::new(&masking_for(&[]), &[], &[]);
    assert_eq!(masker.push("a<b>&\"c\""), Some("a&lt;b&gt;&amp;&quot;c&quot;".to_owned()));
    assert_eq!(masker.flush(), None);
}

#[test]
fn masker_uses_system_env_when_hook_env_lacks_the_variable() {
    let system_env = vec![("TOKEN".to_owned(), "abc".to_owned())];
    let mut masker = LogStreamMasker::new(&masking_for(&["TOKEN"]), &[], &system_env);
    let mut out = String::new();
    for chunk in ["x ab", "c y abc z"] {
        if let Some(d) = masker.push(chunk) {
            out.push_str(&d);
        }
    }
    if let Some(d) = masker.flush() {
        out.push_str(&d);
    }
    assert_eq!(out, "x *** y *** z");
}

#[test]
fn html_escape_replaces_special_characters() {
    assert_eq!(html_escape("<a href=\"x\">&</a>"), "&lt;a href=&quot;x&quot;&gt;&amp;&lt;/a&gt;");
    assert_eq!(html_escape("plain 'text'"), "plain 'text'");
}

#[test]
fn mask_resolved_values_then_escape() {
    let secrets = vec!["s<1".to_owned(), "two".to_owned()];
    assert_eq!(
        mask_resolved_env_values_and_escape("a s<1 two <", &secrets),
        "a *** *** &lt;"
    );
    assert_eq!(mask_resolved_env_values_and_escape("<x>", &[]), "&lt;x&gt;");
}

#[test]
fn emit_lengths() {
    let secrets = vec!["abcd".to_owned(), "xy".to_owned()];
    assert_eq!(stream_mask_tail_chars(&secrets), 4);
    assert_eq!(stream_mask_tail_chars(&[]), 0);
    assert_eq!(emit_prefix_len("hello world", 4), 7);
    assert_eq!(emit_prefix_len("hey", 4), 0);
    assert_eq!(emit_prefix_len("hey", 0), 3);
    // the emitted part must not end in a proper prefix of a secret
    assert_eq!(safe_emit_prefix_len("0123456ab", 2, &secrets), 7);
    assert_eq!(safe_emit_prefix_len("01234abc", 0, &secrets), 5);
    assert_eq!(safe_emit_prefix_len("0123456ax", 1, &secrets), 7);
    assert_eq!(safe_emit_prefix_len("abcabcab", 0, &secrets), 0);
}

#[test]
fn emit_len_backs_off_before_a_secret_prefix() {
    let secrets = vec!["hunter2".to_owned()];
    // "abc hun" ends with "hun", a proper prefix of the secret.
    assert_eq!(adjust_emit_len_for_secret_prefixes("abc hunter", 7, &secrets), 4);
    assert_eq!(adjust_emit_len_for_secret_prefixes("abc xyz", 7, &secrets), 7);
    assert_eq!(adjust_emit_len_for_secret_prefixes("abc h", 5, &[]), 5);
}

#[test]
fn log_tail_reads_new_bytes_in_chunks() {
    let mut tail = LogTail::new("/tmp/x/stdout.log");
    assert_eq!(tail.path(), "/tmp/x/stdout.log");
    assert!(matches!(tail.next_read(0), TailRead::Nothing));
    match tail.next_read(5) {
        TailRead::Read { from, len } => assert_eq!((from, len), (0, 5)),
        other => panic!("unexpected {other:?}"),
    }
    tail.advance(5);
    assert_eq!(tail.offset(), 5);
    assert!(matches!(tail.next_read(5), TailRead::Nothing));
    match tail.next_read(5 + 200_000) {
        TailRead::Read { from, len } => assert_eq!((from, len), (5, LOG_TAIL_READ_CHUNK_BYTES)),
        other => panic!("unexpected {other:?}"),
    }
}

#[test]
fn log_tail_starts_over_after_truncation_or_failure() {
    let mut tail = LogTail::new("log");
    tail.advance(100);
    match tail.next_read(40) {
        TailRead::Read { from, len } => assert_eq!((from, len), (0, 40)),
        other => panic!("unexpected {other:?}"),
    }
    assert_eq!(tail.offset(), 0);
    tail.advance(40);
    tail.reset();
    assert_eq!(tail.offset(), 0);
}

#[test]
fn emit_lengths_are_byte_offsets() {
    assert_eq!(safe_emit_prefix_len("é", 0, &[]), 2);
    assert_eq!(emit_prefix_len("héllo", 2), 4);
    assert_eq!(emit_prefix_len("héllo", 0), 6);
    let secrets = vec!["hunter2".to_owned()];
    assert_eq!(adjust_emit_len_for_secret_prefixes("é hun", 6, &secrets), 3);
    assert_eq!(safe_emit_prefix_len("ééé hunt", 0, &secrets), 7);
}
