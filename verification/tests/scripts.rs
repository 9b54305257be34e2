use sendword::scripts::{format_size, sort_by_name, validate_filename, ScriptEntry};

fn test_dir() -> &'static str {
    "/tmp/sendword-test-scripts"
}

#[test]
fn valid_filenames_accepted() {
    let dir = test_dir();
    assert!(validate_filename("deploy.sh", dir).is_ok());
    assert!(validate_filename("my-script", dir).is_ok());
    assert!(validate_filename("backup_db.py", dir).is_ok());
    assert!(validate_filename("run123", dir).is_ok());
    assert!(validate_filename("a.b.c", dir).is_ok());
}

#[test]
fn rejects_empty_filename() {
    assert!(validate_filename("", test_dir()).is_err());
}

#[test]
fn rejects_leading_dot() {
    assert!(validate_filename(".hidden", test_dir()).is_err());
    assert!(validate_filename(".env", test_dir()).is_err());
}

#[test]
fn rejects_path_traversal() {
    assert!(validate_filename("../etc/passwd", test_dir()).is_err());
    assert!(validate_filename("..sneaky", test_dir()).is_err());
}

#[test]
fn rejects_slashes() {
    assert!(validate_filename("sub/script.sh", test_dir()).is_err());
    assert!(validate_filename("a\\b", test_dir()).is_err());
}

#[test]
fn rejects_spaces_and_special_chars() {
    assert!(validate_filename("my script.sh", test_dir()).is_err());
    assert!(validate_filename("script;rm -rf", test_dir()).is_err());
    assert!(validate_filename("file\0name", test_dir()).is_err());
}

#[test]
fn validated_path_and_messages() {
    assert_eq!(validate_filename("deploy.sh", "data/scripts").unwrap(), "data/scripts/deploy.sh");
    assert_eq!(validate_filename("deploy.sh", "data/scripts/").unwrap(), "data/scripts/deploy.sh");
    assert_eq!(validate_filename("", "d"), Err("Filename cannot be empty"));
    assert_eq!(validate_filename(".x", "d"), Err("Filename cannot start with a dot"));
    assert_eq!(validate_filename("a..b", "d"), Err("Filename cannot contain '..'"));
    assert_eq!(
        validate_filename("a b", "d"),
        Err("Filename may only contain letters, numbers, hyphens, underscores, and dots")
    );
}

#[test]
fn format_size_bytes() {
    assert_eq!(format_size(0), "0 B");
    assert_eq!(format_size(512), "512 B");
    assert_eq!(format_size(1023), "1023 B");
}

#[test]
fn format_size_kilobytes() {
    assert_eq!(format_size(1024), "1.0 KB");
    assert_eq!(format_size(1536), "1.5 KB");
    assert_eq!(format_size(10240), "10 KB");
    assert_eq!(format_size(512 * 1024), "512 KB");
}

#[test]
fn format_size_megabytes() {
    assert_eq!(format_size(1024 * 1024), "1.0 MB");
    assert_eq!(format_size(2 * 1024 * 1024 + 512 * 1024), "2.5 MB");
}

#[test]
fn format_size_rounds_like_float_formatting() {
    for bytes in [1024u64, 1075, 1126, 1177, 5000, 10239, 10240, 10752, 11264, 1048575, 1048576, 1153434, 123456789] {
        let expected = if bytes < 1024 * 1024 {
            let kb = bytes as f64 / 1024.0;
            if kb < 10.0 { format!("{kb:.1} KB") } else { format!("{:.0} KB", kb) }
        } else {
            let mb = bytes as f64 / (1024.0 * 1024.0);
            format!("{mb:.1} MB")
        };
        assert_eq!(format_size(bytes), expected, "bytes = {bytes}");
    }
}

#[test]
fn scripts_are_listed_by_name() {
    let entry = |name: &str| ScriptEntry { name: name.into(), size: "1 B".into(), modified: String::new() };
    let sorted = sort_by_name(vec![entry("deploy.sh"), entry("backup.sh"), entry("cleanup.py")]);
    let names: Vec<&str> = sorted.iter().map(|e| e.name.as_str()).collect();
    assert_eq!(names, vec!["backup.sh", "cleanup.py", "deploy.sh"]);
}
