//! Configurations: their defaults, what is cut to its bounds and what is
//! refused.

use rustmon::config::{
    join_names, Config, OutputFormat, DEFAULT_HISTORY_LEN, DEFAULT_INTERVAL, MAX_HISTORY_LEN,
    MIN_INTERVAL,
};
use rustmon::error::{Error, IoErrorKind, IoFailure};

const KNOWN: &[&str] = &["cpu", "memory", "thermal", "disk", "net", "gpu"];

fn slash() -> Result<String, IoFailure> {
    Ok("/".to_string())
}

#[test]
fn defaults_are_sane() {
    let c = Config::new();
    assert_eq!(c.interval, DEFAULT_INTERVAL);
    assert_eq!(c.sysfs_root, "/");
    assert!(c.only.is_empty());
    assert!(c.skip.is_empty());
    assert!(!c.once);
    assert!(!c.summary);
    assert_eq!(c.format, OutputFormat::Text);
    assert!(!c.verbose);
    assert_eq!(c.history_len, DEFAULT_HISTORY_LEN);
    assert_eq!(Config::default().interval, DEFAULT_INTERVAL);
}

#[test]
fn validate_clamps_a_too_short_interval() {
    let mut c = Config::new();
    c.interval = 0;
    c.sysfs_root = "/".to_string();
    c.validate(KNOWN, slash(), true).expect("validates");
    assert_eq!(c.interval, MIN_INTERVAL);
}

#[test]
fn validate_caps_an_unbounded_history_length() {
    let mut c = Config::new();
    c.history_len = usize::MAX;
    c.sysfs_root = "/".to_string();
    c.validate(KNOWN, slash(), true).expect("validates");
    assert_eq!(c.history_len, MAX_HISTORY_LEN);
}

#[test]
fn validate_rejects_an_unknown_collector_in_only_or_skip() {
    let mut c = Config::new();
    c.sysfs_root = "/".to_string();
    c.only = vec!["cpuu".to_string()];
    let err = c.validate(KNOWN, slash(), true).expect_err("typo must be rejected");
    assert!(matches!(err, Error::Parse { .. }), "got {err:?}");

    let mut c = Config::new();
    c.sysfs_root = "/".to_string();
    c.skip = vec!["gpuu".to_string()];
    assert!(c.validate(KNOWN, slash(), true).is_err());
}

#[test]
fn validate_rejects_a_sysfs_root_that_is_not_a_directory() {
    let mut c = Config::new();
    c.sysfs_root = "/etc/hostname".to_string();
    let err = c
        .validate(KNOWN, Ok("/etc/hostname".to_string()), false)
        .expect_err("a file is not a valid root");
    assert!(matches!(err, Error::PathRejected { .. }), "got {err:?}");
}

#[test]
fn validate_rejects_a_sysfs_root_that_does_not_exist() {
    let mut c = Config::new();
    c.sysfs_root = "/this/path/does/not/exist/hopefully".to_string();
    let missing = IoFailure {
        kind: IoErrorKind::NotFound,
        errno: Some(2),
        message: "No such file or directory (os error 2)".to_string(),
    };
    let err = c.validate(KNOWN, Err(missing), false).expect_err("missing root must be rejected");
    assert!(matches!(err, Error::Io { .. }), "got {err:?}");
}

#[test]
fn wants_with_empty_only_runs_everything_not_skipped() {
    let mut c = Config::new();
    assert!(c.wants("cpu"));
    c.skip = vec!["cpu".to_string()];
    assert!(!c.wants("cpu"));
    assert!(c.wants("memory"));
}

#[test]
fn skip_wins_over_only_for_the_same_name() {
    let mut c = Config::new();
    c.only = vec!["cpu".to_string(), "memory".to_string()];
    c.skip = vec!["cpu".to_string()];
    assert!(!c.wants("cpu"));
    assert!(c.wants("memory"));
    assert!(!c.wants("thermal"), "not in the only-list at all");
}

#[test]
fn validation_is_settled_by_one_run() {
    let mut c = Config::new();
    c.interval = 1;
    c.history_len = usize::MAX;
    c.validate(KNOWN, slash(), true).expect("validates");
    let (interval, history) = (c.interval, c.history_len);
    c.validate(KNOWN, slash(), true).expect("validates again");
    assert_eq!((c.interval, c.history_len), (interval, history));
}

#[test]
fn names_are_joined_with_commas() {
    assert_eq!(join_names(KNOWN), "cpu, memory, thermal, disk, net, gpu");
    assert_eq!(join_names(&[]), "");
}
