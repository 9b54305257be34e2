use sendword::backup::schedule::{scheduler_step, SchedulerStep};
use sendword::backup::store::{region_setting, RegionSetting};
use sendword::backup::{retention_deletions, sort_newest_first, sort_oldest_first, BackupEntry, S3Client};
use sendword::config::{BackupConfig, RetentionConfig};

fn entry(key: &str, at: &str) -> BackupEntry {
    BackupEntry { key: key.to_owned(), size: 10, last_modified: at.to_owned() }
}

fn config(prefix: &str, region: &str, endpoint: &str) -> BackupConfig {
    BackupConfig {
        bucket: "backups".to_owned(),
        region: region.to_owned(),
        endpoint: endpoint.to_owned(),
        access_key: "ak".to_owned(),
        secret_key: "sk".to_owned(),
        prefix: prefix.to_owned(),
        schedule: None,
        retention: RetentionConfig { max_count: None, max_age: None },
    }
}

fn keys(v: &[BackupEntry]) -> Vec<&str> {
    v.iter().map(|e| e.key.as_str()).collect()
}

#[test]
fn region_setting_named_or_custom() {
    match region_setting(&config("", "eu-west-1", "")) {
        RegionSetting::Named(n) => assert_eq!(n, "eu-west-1"),
        other => panic!("unexpected {other:?}"),
    }
    match region_setting(&config("", "", "http://minio:9000")) {
        RegionSetting::Custom { region, endpoint } => {
            assert_eq!(region, "us-east-1");
            assert_eq!(endpoint, "http://minio:9000");
        }
        other => panic!("unexpected {other:?}"),
    }
    match region_setting(&config("", "local", "http://minio:9000")) {
        RegionSetting::Custom { region, .. } => assert_eq!(region, "local"),
        other => panic!("unexpected {other:?}"),
    }
}

#[test]
fn client_keys_and_listing_prefix() {
    // Building the client sets up an HTTP client; where that is not
    // possible here, there is nothing further to check.
    if let Ok(client) = S3Client::new(&config("sendword//", "", "http://localhost:9000")) {
        assert_eq!(client.key("backup-1.tar.gz"), "sendword/backup-1.tar.gz");
        assert_eq!(client.list_prefix(), "sendword/");
        let shown = client.entries(vec![
            entry("sendword/backup-1.tar.gz", "2024-01-01T00:00:00Z"),
            entry("other/x", "2024-01-02T00:00:00Z"),
        ]);
        assert_eq!(keys(&shown), vec!["backup-1.tar.gz", "other/x"]);
    }
    if let Ok(client) = S3Client::new(&config("", "", "http://localhost:9000")) {
        assert_eq!(client.key("b.tar.gz"), "b.tar.gz");
        assert_eq!(client.list_prefix(), "");
        let shown = client.entries(vec![entry("b.tar.gz", "2024")]);
        assert_eq!(keys(&shown), vec!["b.tar.gz"]);
    }
}

#[test]
fn sorts_are_stable_by_time() {
    let entries = vec![
        entry("b", "2024-01-02T00:00:00Z"),
        entry("a", "2024-01-01T00:00:00Z"),
        entry("c", "2024-01-02T00:00:00Z"),
        entry("d", "2024-01-03T00:00:00Z"),
    ];
    assert_eq!(keys(&sort_oldest_first(&entries)), vec!["a", "b", "c", "d"]);
    assert_eq!(keys(&sort_newest_first(&entries)), vec!["d", "b", "c", "a"]);
    assert!(sort_oldest_first(&[]).is_empty());
}

#[test]
fn retention_by_count_deletes_oldest() {
    let entries = vec![
        entry("k3", "2024-01-03T00:00:00Z"),
        entry("k1", "2024-01-01T00:00:00Z"),
        entry("k4", "2024-01-04T00:00:00Z"),
        entry("k2", "2024-01-02T00:00:00Z"),
    ];
    assert_eq!(retention_deletions(&entries, Some(2), None), vec!["k1", "k2"]);
    assert_eq!(retention_deletions(&entries, Some(4), None), Vec::<String>::new());
    assert_eq!(retention_deletions(&entries, Some(0), None), vec!["k1", "k2", "k3", "k4"]);
    assert_eq!(retention_deletions(&entries, None, None), Vec::<String>::new());
}

#[test]
fn retention_by_age_adds_older_entries_once() {
    let entries = vec![
        entry("k3", "2024-01-03T00:00:00Z"),
        entry("k1", "2024-01-01T00:00:00Z"),
        entry("k2", "2024-01-02T00:00:00Z"),
    ];
    // Count removes k1; age removes everything before Jan 3 not yet listed.
    assert_eq!(
        retention_deletions(&entries, Some(2), Some("2024-01-03T00:00:00Z")),
        vec!["k1", "k2"]
    );
    assert_eq!(
        retention_deletions(&entries, None, Some("2024-01-02T12:00:00Z")),
        vec!["k1", "k2"]
    );
    assert_eq!(retention_deletions(&entries, None, Some("2023-12-31")), Vec::<String>::new());
}

#[test]
fn scheduler_idles_without_a_schedule() {
    assert!(matches!(scheduler_step(&None, 0), SchedulerStep::Idle));
    assert!(matches!(scheduler_step(&Some(config("", "", "")), 0), SchedulerStep::Idle));
}

#[test]
fn scheduler_reports_an_invalid_schedule() {
    let mut c = config("", "", "");
    c.schedule = Some("not a schedule".to_owned());
    assert!(matches!(scheduler_step(&Some(c), 0), SchedulerStep::InvalidSchedule(_)));
}

#[test]
fn scheduler_waits_for_the_next_fire_time() {
    let mut c = config("", "", "");
    c.schedule = Some("0 0 3 * * *".to_owned());
    match scheduler_step(&Some(c.clone()), 0) {
        SchedulerStep::BackupAfter(ms) => assert_eq!(ms, 3 * 3600 * 1000),
        other => panic!("unexpected {other:?}"),
    }
    match scheduler_step(&Some(c), 3 * 3600 * 1000 - 500) {
        SchedulerStep::BackupAfter(ms) => assert_eq!(ms, 500),
        other => panic!("unexpected {other:?}"),
    }
}

#[test]
fn s3_client_keeps_bucket_region_and_keys() {
    if let Ok(c) = S3Client::new(&config("prod/", "eu-west-1", "")) {
        assert_eq!(c.key("a.tar.gz"), "prod/a.tar.gz");
    }
}
