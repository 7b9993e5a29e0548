//! The command line of the monitor.

use rustmon::cli::{
    help_text, parse, parse_collector_list, parse_interval, settle, version_text, Invocation,
    VERSION,
};
use rustmon::config::{Config, OutputFormat, MIN_INTERVAL};
use rustmon::error::{Error, IoErrorKind, IoFailure};

fn run_config(a: &[&str]) -> Config {
    match parse(a).expect("parses") {
        Invocation::Run(c) => c,
        _ => panic!("expected Run"),
    }
}

fn refused(a: &[&str]) -> Error {
    match parse(a) {
        Err(e) => e,
        Ok(_) => panic!("must fail"),
    }
}

#[test]
fn no_arguments_yields_default_config() {
    let c = run_config(&[]);
    assert!(!c.once);
    assert_eq!(c.format, OutputFormat::Text);
    assert!(!c.verbose);
}

#[test]
fn help_and_version_short_circuit_before_any_other_flag() {
    assert!(matches!(parse(&["--once", "--help"]).expect("parses"), Invocation::Help));
    assert!(matches!(parse(&["-h"]).expect("parses"), Invocation::Help));
    assert!(matches!(parse(&["-V"]).expect("parses"), Invocation::Version));
    assert!(matches!(parse(&["--version"]).expect("parses"), Invocation::Version));
}

#[test]
fn once_and_verbose_flags() {
    let c = run_config(&["--once", "-v"]);
    assert!(c.once);
    assert!(c.verbose);

    let c = run_config(&["-1"]);
    assert!(c.once);
}

#[test]
fn format_accepts_text_and_json() {
    assert_eq!(run_config(&["-f", "text"]).format, OutputFormat::Text);
    assert_eq!(run_config(&["--format", "json"]).format, OutputFormat::Json);
}

#[test]
fn an_invalid_format_value_is_an_error() {
    let err = refused(&["--format", "xml"]);
    assert!(matches!(err, Error::Parse { .. }), "got {err:?}");
}

#[test]
fn interval_flag_is_parsed_through_parse_interval() {
    let c = run_config(&["-i", "500"]);
    assert_eq!(c.interval, 500);
}

#[test]
fn only_and_skip_are_validated_collector_lists() {
    let c = run_config(&["--only", "cpu,memory", "--skip", "gpu"]);
    assert_eq!(c.only, vec!["cpu", "memory"]);
    assert_eq!(c.skip, vec!["gpu"]);
}

#[test]
fn only_with_a_typo_is_rejected_at_parse_time() {
    let err = refused(&["--only", "cpuu"]);
    assert!(matches!(err, Error::Parse { .. }), "got {err:?}");
}

#[test]
fn sysfs_root_flag_sets_the_path() {
    let root = "/srv/rustmon";
    let c = run_config(&["--sysfs-root", root]);
    assert!(c.sysfs_root.ends_with("rustmon") || c.sysfs_root == root);
}

#[test]
fn history_flag_parses_a_number() {
    assert_eq!(run_config(&["--history", "60"]).history_len, 60);
}

#[test]
fn history_flag_rejects_a_non_number() {
    let err = refused(&["--history", "sixty"]);
    assert!(matches!(err, Error::Parse { .. }), "got {err:?}");
}

#[test]
fn an_unknown_flag_is_an_error_not_a_silent_no_op() {
    let err = refused(&["--formt", "json"]);
    assert!(matches!(err, Error::Parse { .. }), "got {err:?}");
}

#[test]
fn a_flag_missing_its_value_is_an_error() {
    for flag in
        ["-i", "--interval", "-f", "--format", "--only", "--skip", "--sysfs-root", "--history"]
    {
        let err = refused(&[flag]);
        assert!(matches!(err, Error::Parse { .. }), "{flag} produced {err:?}");
    }
}

#[test]
fn parse_interval_accepts_a_bare_number_as_milliseconds() {
    assert_eq!(parse_interval("250").unwrap(), 250);
}

#[test]
fn parse_interval_accepts_ms_and_s_suffixes() {
    assert_eq!(parse_interval("500ms").unwrap(), 500);
    assert_eq!(parse_interval("2s").unwrap(), 2_000);
}

#[test]
fn parse_interval_checks_ms_before_s() {
    assert_eq!(parse_interval("1000ms").unwrap(), 1000);
}

#[test]
fn parse_interval_rejects_garbage() {
    assert!(parse_interval("").is_err());
    assert!(parse_interval("fast").is_err());
    assert!(parse_interval("-5").is_err());
    assert!(parse_interval("5.5s").is_err());
}

const KNOWN: &[&str] = &["cpu", "memory", "thermal", "disk", "net", "gpu"];

#[test]
fn parse_collector_list_trims_and_drops_empty_entries() {
    assert_eq!(parse_collector_list(" cpu, memory ,", KNOWN).unwrap(), vec!["cpu", "memory"]);
}

#[test]
fn parse_collector_list_rejects_an_unknown_name() {
    assert!(parse_collector_list("cpu,nope", KNOWN).is_err());
}

#[test]
fn parse_collector_list_of_empty_string_is_an_empty_list() {
    assert_eq!(parse_collector_list("", KNOWN).unwrap(), Vec::<String>::new());
}

#[test]
fn help_text_documents_every_flag() {
    let help = help_text();
    for flag in [
        "--once",
        "--summary",
        "--format",
        "--interval",
        "--only",
        "--skip",
        "--sysfs-root",
        "--history",
        "--verbose",
        "--help",
    ] {
        assert!(help.contains(flag), "help text is missing {flag}");
    }
    assert!(help.to_lowercase().contains("read-only"));
}

#[test]
fn version_text_includes_the_crate_version() {
    assert!(version_text(&[]).contains(VERSION));
}

#[test]
fn version_text_lists_compiled_in_features() {
    let text = version_text(&["tui", "traceroute"]);
    assert!(text.contains("tui"), "{text}");
    assert!(text.contains("traceroute"), "{text}");
    assert!(!text.contains("gpu-nvidia"), "{text}");
}

#[test]
fn settling_checks_the_root_and_the_bounds() {
    let invocation = parse(&["-i", "1ms"]).expect("parses");
    match settle(invocation, Ok("/".to_string()), true) {
        Ok(Invocation::Run(c)) => assert_eq!(c.interval, MIN_INTERVAL),
        _ => panic!("expected Run"),
    }

    let missing = IoFailure {
        kind: IoErrorKind::NotFound,
        errno: Some(2),
        message: "No such file or directory (os error 2)".to_string(),
    };
    let invocation = parse(&["--sysfs-root", "/nope"]).expect("parses");
    assert!(matches!(settle(invocation, Err(missing), false), Err(Error::Io { .. })));

    let invocation = parse(&["--sysfs-root", "/etc/hostname"]).expect("parses");
    assert!(matches!(
        settle(invocation, Ok("/etc/hostname".to_string()), false),
        Err(Error::PathRejected { .. })
    ));
}
