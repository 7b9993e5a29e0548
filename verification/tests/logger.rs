//! The session logger: its log, its phrase, its names and its end.

use rustmon::error::{IoErrorKind, IoFailure};
use rustmon::logger::args::{choose_mode, command_line, resolve_log_dir, Mode};
use rustmon::logger::logfile::LogFile;
use rustmon::logger::safe_view::write_visible;
use rustmon::logger::session::{
    finish_session, log_filename, must_stop_child, Force, LogAction, LogCreation, ReapAction,
    ReapEvent, Reaper, StopReason, SIGHUP_GRACE, SIGKILL_GRACE, SIGTERM_GRACE,
};
use rustmon::logger::session::{unix, windows};
use rustmon::logger::signals::unix::{received, stop_signal};
use rustmon::logger::signals::windows::{
    received as received_event, CTRL_BREAK_EVENT, CTRL_CLOSE_EVENT, CTRL_C_EVENT, CTRL_LOGOFF_EVENT,
    CTRL_SHUTDOWN_EVENT, NONE_RECEIVED,
};
use rustmon::logger::signals::StopSignal;
use rustmon::logger::stop_trigger::{StopTrigger, MAX_LINE_LEN};
use rustmon::logger::terminal::raw_console_mode;
use rustmon::logger::timestamp::{format_utc, format_utc_compact};

fn text_of(log: LogFile) -> String {
    String::from_utf8(log.into_writer()).unwrap()
}

// ---- the log -----------------------------------------------------------------

#[test]
fn header_records_start_time_shell_and_tty() {
    let log = LogFile::new(Vec::new(), "/bin/bash", "/dev/pts/4", 1_700_000_000);

    assert_eq!(
        text_of(log),
        "=== rustlogger session started 2023-11-14T22:13:20Z ===\nshell: /bin/bash\ntty: /dev/pts/4\n"
    );
}

#[test]
fn each_line_gets_its_own_timestamp_prefix() {
    let mut log = LogFile::new(Vec::new(), "/bin/sh", "/dev/pts/0", 0);

    log.write_output(b"hello\nworld", 1_700_000_000);

    let text = text_of(log);
    let body: Vec<&str> = text.lines().skip(3).collect();
    assert_eq!(body.len(), 2);
    assert!(body[0].ends_with("] hello"), "got: {body:?}");
    assert!(body[1].ends_with("] world"), "got: {body:?}");
    for line in &body {
        assert!(line.starts_with('['), "line missing timestamp: {line:?}");
    }
    assert_eq!(body[0], "[2023-11-14T22:13:20Z] hello");
}

#[test]
fn footer_records_reason_and_exit_code_and_closes_a_dangling_line() {
    let mut log = LogFile::new(Vec::new(), "/bin/sh", "/dev/pts/0", 0);
    log.write_output(b"still typing", 0);

    log.finish("shell exited", Some(7), 1_700_000_100);

    let text = text_of(log);
    assert!(text.contains("still typing\n"), "got: {text:?}");
    assert!(text.contains("=== rustlogger session ended 2023-11-14T22:15:00Z ==="));
    assert!(text.contains("reason: shell exited"));
    assert!(text.contains("exit code: 7"));
}

#[test]
fn write_output_flushes_so_a_live_session_is_readable_before_finish() {
    let mut log = LogFile::new(Vec::new(), "/bin/sh", "/dev/pts/0", 0);
    let _header = log.take_bytes();
    log.write_output(b"still running\n", 0);

    let written = String::from_utf8(log.take_bytes()).unwrap();
    assert!(
        written.contains("still running"),
        "expected the output to be there without calling finish, got: {written:?}"
    );
    assert!(log.take_bytes().is_empty(), "nothing is taken out twice");
}

#[test]
fn chunks_of_a_line_are_logged_like_the_line() {
    let mut whole = LogFile::new(Vec::new(), "sh", "tty", 0);
    whole.write_output(b"one line\nanother\n", 60);
    let mut cut = LogFile::new(Vec::new(), "sh", "tty", 0);
    for byte in b"one line\nanother\n" {
        cut.write_output(&[*byte], 60);
    }
    assert_eq!(text_of(whole), text_of(cut));
}

#[test]
fn a_child_without_an_exit_code_has_none_in_the_footer() {
    let mut log = LogFile::new(Vec::new(), "sh", "tty", 0);
    let _ = log.take_bytes();
    log.finish("process exited", None, 0);
    assert_eq!(
        text_of(log),
        "=== rustlogger session ended 1970-01-01T00:00:00Z ===\nreason: process exited\nexit code: (none)\n"
    );
}

// ---- arguments -----------------------------------------------------------------

fn words(a: &[&str]) -> Vec<String> {
    a.iter().map(|s| s.to_string()).collect()
}

#[test]
fn log_dir_resolution_scenarios() {
    let args = words(&["echo", "hi"]);
    let (dir, used) = resolve_log_dir(&args, None);
    assert_eq!(dir, None);
    assert_eq!(
        args[used], "echo",
        "the command token must be untouched when nothing was resolved"
    );

    let args = words(&["echo"]);
    let (dir, used) = resolve_log_dir(&args, Some("/tmp/from-env".to_string()));
    assert_eq!(dir.as_deref(), Some("/tmp/from-env"));
    assert_eq!(args[used], "echo");

    let args = words(&["--log-dir", "/tmp/from-flag", "echo"]);
    let (dir, used) = resolve_log_dir(&args, None);
    assert_eq!(dir.as_deref(), Some("/tmp/from-flag"));
    assert_eq!(
        args[used], "echo",
        "the command token must immediately follow, with the flag pair fully consumed"
    );

    let args = words(&["--log-dir", "/tmp/from-flag", "echo"]);
    let (dir, _) = resolve_log_dir(&args, Some("/tmp/from-env".to_string()));
    assert_eq!(dir.as_deref(), Some("/tmp/from-flag"));

    let args = words(&["echo", "--log-dir", "nope"]);
    let (dir, used) = resolve_log_dir(&args, None);
    assert_eq!(dir, None);
    assert_eq!(
        args[used..].to_vec(),
        words(&["echo", "--log-dir", "nope"]),
        "a --log-dir belonging to the wrapped command must pass through untouched"
    );

    let args = words(&["--log-dir"]);
    assert_eq!(resolve_log_dir(&args, None).0, None);
}

#[test]
fn a_command_runs_by_itself_and_a_shell_is_used() {
    match choose_mode(&words(&["--log-dir", "/x", "echo", "--log-dir", "/y"]), 2, None) {
        Mode::Headless { command, args } => {
            assert_eq!(command, "echo");
            assert_eq!(args, words(&["--log-dir", "/y"]));
            assert_eq!(command_line(&command, &args), "echo --log-dir /y");
        }
        Mode::Interactive { .. } => panic!("expected a command"),
    }
    match choose_mode(&words(&[]), 0, None) {
        Mode::Interactive { shell } => assert_eq!(shell, "/bin/sh"),
        Mode::Headless { .. } => panic!("expected a shell"),
    }
    match choose_mode(&words(&[]), 0, Some("/bin/zsh".to_string())) {
        Mode::Interactive { shell } => assert_eq!(shell, "/bin/zsh"),
        Mode::Headless { .. } => panic!("expected a shell"),
    }
}

// ---- looking at a log ------------------------------------------------------------

fn render(input: &[u8]) -> String {
    let mut out = Vec::new();
    write_visible(input, &mut out);
    String::from_utf8(out).expect("output was not valid utf-8")
}

#[test]
fn printable_ascii_and_newlines_pass_through_unchanged() {
    assert_eq!(render(b"hello world\n"), "hello world\n");
    assert_eq!(render(b"a\tb\n"), "a\tb\n");
}

#[test]
fn escape_and_other_control_bytes_become_caret_notation() {
    assert_eq!(render(b"\x1b[2J"), "^[[2J");
    assert_eq!(render(b"\x07"), "^G");
    assert_eq!(render(b"\x00"), "^@");
    assert_eq!(render(b"\x7f"), "^?");
}

#[test]
fn carriage_return_is_rendered_not_executed() {
    assert_eq!(render(b"clean output\rPWNED"), "clean output^MPWNED");
}

#[test]
fn high_bit_bytes_get_the_m_dash_prefix() {
    assert_eq!(render(&[0xE1]), "M-a");
    assert_eq!(render(&[0x9b]), "M-^[");
}

#[test]
fn a_forged_footer_line_is_rendered_as_inert_text_not_hidden() {
    let input = b"=== rustlogger session ended 1970-01-01T00:00:00Z ===\nreason: process exited\n";
    let out = render(input);
    assert!(out.contains("=== rustlogger session ended 1970-01-01T00:00:00Z ==="));
    assert!(out.contains("reason: process exited"));
}

#[test]
fn no_raw_esc_or_del_byte_ever_reaches_the_output() {
    let input: Vec<u8> = (0u8..=255).collect();
    let mut out = Vec::new();
    write_visible(&input[..], &mut out);
    assert!(!out.contains(&0x1b), "a raw ESC byte reached the output");
    assert!(!out.contains(&0x7f), "a raw DEL byte reached the output");
    for &b in &out {
        assert!(
            b == b'\n' || b == b'\t' || (0x20..0x7f).contains(&b),
            "output contained a raw non-printable byte: {b:#x}"
        );
    }
}

// ---- the phrase ------------------------------------------------------------------

#[test]
fn detects_trigger_on_newline() {
    let mut t = StopTrigger::new();
    assert!(!t.feed(b"stoplogger"));
    assert!(t.feed(b"\n"));
}

#[test]
fn detects_trigger_on_carriage_return() {
    let mut t = StopTrigger::new();
    assert!(t.feed(b"stoplogger\r"));
}

#[test]
fn ignores_surrounding_whitespace() {
    let mut t = StopTrigger::new();
    assert!(t.feed(b"  stoplogger  \n"));
}

#[test]
fn does_not_trigger_on_partial_word() {
    let mut t = StopTrigger::new();
    assert!(!t.feed(b"stoplog\n"));
}

#[test]
fn does_not_trigger_on_unrelated_command() {
    let mut t = StopTrigger::new();
    assert!(!t.feed(b"sudo apt update\n"));
}

#[test]
fn resets_after_each_line() {
    let mut t = StopTrigger::new();
    assert!(!t.feed(b"ls -la\n"));
    assert!(!t.feed(b"stoplog"));
    assert!(t.feed(b"ger\n"));
}

#[test]
fn backspace_edits_are_respected() {
    let mut t = StopTrigger::new();
    assert!(t.feed(b"stoploggerX\x7f\n"));
}

#[test]
fn newline_free_input_does_not_grow_the_buffer_without_bound() {
    let mut t = StopTrigger::new();
    let chunk = vec![b'A'; 64 * 1024];

    for _ in 0..128 {
        assert!(!t.feed(&chunk));
    }

    assert!(
        t.buffered_len() <= MAX_LINE_LEN,
        "buffer grew to {} bytes after 8 MiB of newline-free input; cap is {MAX_LINE_LEN}",
        t.buffered_len()
    );
}

#[test]
fn an_over_long_line_cannot_match_even_if_it_ends_with_the_trigger() {
    let mut t = StopTrigger::new();
    t.feed(&vec![b'A'; MAX_LINE_LEN + 1]);
    assert!(!t.feed(b"stoplogger\n"));
}

#[test]
fn the_line_after_an_overflow_can_still_trigger_normally() {
    let mut t = StopTrigger::new();
    t.feed(&vec![b'A'; MAX_LINE_LEN * 2]);
    assert!(!t.feed(b"\n"), "the over-long line itself must not match");
    assert!(t.feed(b"stoplogger\n"));
}

#[test]
fn ctrl_c_clears_the_current_line() {
    let mut t = StopTrigger::new();
    assert!(!t.feed(b"stoplogger\x03\n"));
}

#[test]
fn bytes_that_are_no_text_are_not_the_phrase() {
    let mut t = StopTrigger::new();
    assert!(!t.feed(b"stoplogger\xff\n"));
    assert!(t.feed("\u{3000}stoplogger\u{a0}\n".as_bytes()));
}

// ---- times -----------------------------------------------------------------------

#[test]
fn timestamp_matches_known_reference_dates() {
    let cases: &[(i64, &str)] = &[
        (0, "1970-01-01T00:00:00Z"),
        (1, "1970-01-01T00:00:01Z"),
        (86_399, "1970-01-01T23:59:59Z"),
        (86_400, "1970-01-02T00:00:00Z"),
        (1_700_000_000, "2023-11-14T22:13:20Z"),
        (1_712_345_678, "2024-04-05T19:34:38Z"),
        (951_782_400, "2000-02-29T00:00:00Z"),
        (1_735_689_599, "2024-12-31T23:59:59Z"),
    ];

    for &(secs, expected) in cases {
        assert_eq!(format_utc(secs), expected, "mismatch for epoch {secs}");
    }
    assert_eq!(format_utc(-5), "1970-01-01T00:00:00Z");
}

#[test]
fn compact_form_matches_the_iso_form_digit_for_digit() {
    assert_eq!(format_utc(1_700_000_000), "2023-11-14T22:13:20Z");
    assert_eq!(format_utc_compact(1_700_000_000), "20231114-221320");
}

// ---- the log file ----------------------------------------------------------------

fn taken() -> IoFailure {
    IoFailure {
        kind: IoErrorKind::AlreadyExists,
        errno: Some(17),
        message: "File exists (os error 17)".to_string(),
    }
}

fn opened(action: &LogAction) -> String {
    match action {
        LogAction::Open(path) => path.clone(),
        _ => panic!("expected a file to be opened"),
    }
}

#[test]
fn log_filename_is_the_bare_timestamped_name() {
    assert_eq!(log_filename(0), "rustlogger-19700101-000000.log");
}

#[test]
fn create_log_file_defaults_to_the_cwd_with_no_directory_component() {
    let (mut creation, action) = LogCreation::new(None, 0, 42);
    assert_eq!(opened(&action), "rustlogger-19700101-000000.log");
    match creation.advance(None) {
        LogAction::Use(path) => assert_eq!(path, "rustlogger-19700101-000000.log"),
        _ => panic!("expected the file to be used"),
    }
}

#[test]
fn create_log_file_auto_creates_a_given_dir_including_missing_parents() {
    let (mut creation, action) = LogCreation::new(Some("/tmp/nested/logs".to_string()), 0, 42);
    match action {
        LogAction::MakeDir(dir) => assert_eq!(dir, "/tmp/nested/logs"),
        _ => panic!("expected the directory to be made"),
    }
    let action = creation.advance(None);
    assert_eq!(opened(&action), "/tmp/nested/logs/rustlogger-19700101-000000.log");
}

#[test]
fn create_log_file_refuses_to_write_through_a_pre_planted_symlink() {
    let (mut creation, action) = LogCreation::new(None, 0, 42);
    let predicted = opened(&action);
    let next = creation.advance(Some(taken()));
    assert_ne!(opened(&next), predicted);
}

#[test]
fn create_log_file_gives_concurrent_same_second_sessions_distinct_files() {
    let (mut creation, action) = LogCreation::new(None, 0, 42);
    let first = opened(&action);
    let second = opened(&creation.advance(Some(taken())));
    assert_ne!(first, second, "two sessions in the same second must not share one log file");
    assert_eq!(second, "rustlogger-19700101-000000-42-1.log");
    assert!(
        second.ends_with(".log"),
        "the disambiguated name must still end in .log so globs find it: {second:?}"
    );
}

#[test]
fn a_log_file_is_given_up_after_as_many_names_as_there_are() {
    let (mut creation, action) = LogCreation::new(None, 0, 42);
    let mut names = vec![opened(&action)];
    loop {
        match creation.advance(Some(taken())) {
            LogAction::Open(name) => {
                assert!(!names.contains(&name));
                names.push(name);
            }
            LogAction::Fail(e) => {
                assert_eq!(e.kind, IoErrorKind::AlreadyExists);
                assert_eq!(
                    e.message,
                    "could not create a log file after 16 attempts (last tried a name based on \
                     \"rustlogger-19700101-000000.log\"); refusing to write to an existing path: \
                     File exists (os error 17)"
                );
                break;
            }
            _ => panic!("neither a name nor an end"),
        }
    }
    assert_eq!(names.len(), 16);

    let (mut creation, _) = LogCreation::new(Some("/root".to_string()), 0, 42);
    let denied = IoFailure {
        kind: IoErrorKind::PermissionDenied,
        errno: Some(13),
        message: "Permission denied (os error 13)".to_string(),
    };
    match creation.advance(Some(denied)) {
        LogAction::Fail(e) => assert_eq!(e.kind, IoErrorKind::PermissionDenied),
        _ => panic!("expected the failure itself"),
    }
}

// ---- the end ---------------------------------------------------------------------

fn sigterm() -> StopSignal {
    StopSignal { description: "SIGTERM".to_string(), exit_code: 143 }
}

#[test]
fn stop_reason_display_text_matches_the_documented_log_footer_wording() {
    assert_eq!(StopReason::StopPhrase.to_string(), "stoplogger command");
    assert_eq!(StopReason::ChildExited.to_string(), "process exited");
    assert_eq!(StopReason::OuterClosed.to_string(), "outer terminal input closed");
    assert_eq!(StopReason::Signal(sigterm()).to_string(), "caught signal SIGTERM");
}

#[test]
fn stop_and_reap_escalates_past_a_child_that_ignores_sighup() {
    let (mut reaper, action) = Reaper::new();
    assert_eq!(action, ReapAction::Send(Force::Hangup));
    assert_eq!(reaper.advance(ReapEvent::Sent, 1_000), ReapAction::Check);
    assert_eq!(reaper.advance(ReapEvent::Running, 1_000), ReapAction::Sleep(25));
    assert_eq!(reaper.advance(ReapEvent::Slept, 1_025), ReapAction::Check);
    let waited = 1_000 + SIGHUP_GRACE;
    assert_eq!(
        reaper.advance(ReapEvent::Running, waited),
        ReapAction::Send(Force::Terminate)
    );
    assert_eq!(reaper.advance(ReapEvent::Sent, waited), ReapAction::Check);
    assert_eq!(
        reaper.advance(ReapEvent::Exited(None), waited + 10),
        ReapAction::Done(Some(None))
    );
}

#[test]
fn a_child_that_outlives_everything_is_given_up() {
    let (mut reaper, _) = Reaper::new();
    reaper.advance(ReapEvent::Sent, 0);
    let t1 = SIGHUP_GRACE;
    assert_eq!(reaper.advance(ReapEvent::Running, t1), ReapAction::Send(Force::Terminate));
    reaper.advance(ReapEvent::Sent, t1);
    let t2 = t1 + SIGTERM_GRACE;
    assert_eq!(reaper.advance(ReapEvent::Running, t2 - 1), ReapAction::Sleep(25));
    assert_eq!(reaper.advance(ReapEvent::Running, t2), ReapAction::Send(Force::Kill));
    reaper.advance(ReapEvent::Sent, t2);
    let t3 = t2 + SIGKILL_GRACE;
    assert_eq!(reaper.advance(ReapEvent::Running, t3), ReapAction::Done(None));
}

#[test]
fn finish_session_preserves_output_logged_before_it_was_called() {
    let mut log = LogFile::new(Vec::new(), "/bin/sh", "test", 0);
    log.write_output(b"output from before the stop condition fired\n", 0);

    let exit_code = finish_session(&mut log, &StopReason::StopPhrase, Some(None), 0);
    assert_eq!(exit_code, 0, "stoplogger should be a clean exit");

    let logged = text_of(log);
    assert!(
        logged.contains("output from before the stop condition fired"),
        "expected prior log content to survive finish_session, got: {logged:?}"
    );
    assert!(logged.contains("=== rustlogger session ended "), "log: {logged:?}");
    assert!(logged.contains("reason: stoplogger command"), "log: {logged:?}");
    assert!(
        logged.find("output from before").unwrap() < logged.find("session ended").unwrap(),
        "prior output should appear before the footer, not after: {logged:?}"
    );
}

#[test]
fn the_exit_code_follows_the_reason() {
    let run = |reason: StopReason, reaped: Option<Option<i32>>| {
        let mut log = LogFile::new(Vec::new(), "sh", "tty", 0);
        let code = finish_session(&mut log, &reason, reaped, 0);
        (code, text_of(log))
    };
    assert_eq!(run(StopReason::ChildExited, Some(Some(7))).0, 7);
    assert_eq!(run(StopReason::ChildExited, Some(None)).0, 1);
    assert_eq!(run(StopReason::OuterClosed, Some(Some(0))).0, 1);
    assert_eq!(run(StopReason::Signal(sigterm()), Some(None)).0, 143);

    let (code, text) = run(StopReason::StopPhrase, None);
    assert_eq!(code, 0);
    assert!(text.contains(
        "reason: stoplogger command (child did not exit; gave up after SIGKILL)\nexit code: (none)\n"
    ));

    assert!(!must_stop_child(&StopReason::ChildExited));
    assert!(must_stop_child(&StopReason::StopPhrase));
}

// ---- the loops -------------------------------------------------------------------

fn test_log() -> LogFile {
    LogFile::new(Vec::new(), "/bin/sh", "test", 0)
}

#[test]
fn unix_stop_phrase_ends_the_loop_immediately() {
    let mut log = test_log();
    let (mut proxy, action) = unix::Proxy::new();
    assert!(matches!(action, unix::ProxyAction::Poll));
    let polled = unix::ProxyEvent::Polled { outer: true, master: false };
    assert!(matches!(proxy.advance(&mut log, polled, 0), unix::ProxyAction::ReadOuter));
    let typed = b"stoplogger\n".to_vec();
    match proxy.advance(&mut log, unix::ProxyEvent::OuterRead(typed), 0) {
        unix::ProxyAction::Forward(bytes) => {
            assert_eq!(bytes, b"stoplogger\n");
            match proxy.advance(&mut log, unix::ProxyEvent::Forwarded(bytes), 0) {
                unix::ProxyAction::Stop(reason) => assert_eq!(reason, StopReason::StopPhrase),
                _ => panic!("expected the end"),
            }
        }
        _ => panic!("expected what was typed to be forwarded"),
    }
}

#[test]
fn unix_master_eof_reports_child_exited_with_its_code() {
    let mut log = test_log();
    let (mut proxy, _) = unix::Proxy::new();
    let polled = unix::ProxyEvent::Polled { outer: false, master: true };
    assert!(matches!(proxy.advance(&mut log, polled, 0), unix::ProxyAction::ReadMaster));
    match proxy.advance(&mut log, unix::ProxyEvent::MasterRead(b"exit 7\r\n".to_vec()), 0) {
        unix::ProxyAction::Show(bytes) => {
            let next = proxy.advance(&mut log, unix::ProxyEvent::Shown(bytes), 0);
            assert!(matches!(next, unix::ProxyAction::Poll));
        }
        _ => panic!("expected the output to be shown"),
    }
    let gone = IoFailure {
        kind: IoErrorKind::Other,
        errno: Some(5),
        message: "Input/output error (os error 5)".to_string(),
    };
    let reason = match proxy.advance(&mut log, unix::ProxyEvent::MasterFailed(gone), 0) {
        unix::ProxyAction::Stop(reason) => reason,
        _ => panic!("expected the end"),
    };
    assert_eq!(reason, StopReason::ChildExited);
    assert_eq!(finish_session(&mut log, &reason, Some(Some(7)), 0), 7);
    let logged = text_of(log);
    assert!(
        logged.contains("exit 7"),
        "expected the echoed shell output in the log, got: {logged:?}"
    );
}

#[test]
fn unix_outer_input_eof_is_reported_without_touching_the_child() {
    let mut log = test_log();
    let (mut proxy, _) = unix::Proxy::new();
    match proxy.advance(&mut log, unix::ProxyEvent::OuterRead(Vec::new()), 0) {
        unix::ProxyAction::Stop(reason) => assert_eq!(reason, StopReason::OuterClosed),
        _ => panic!("expected the end"),
    }
}

#[test]
fn session_stop_phrase_ends_the_loop_immediately() {
    let mut log = test_log();
    let (mut proxy, _) = unix::Proxy::new();
    let forwarded = unix::ProxyEvent::Forwarded(b"stoplogger\n".to_vec());
    match proxy.advance(&mut log, forwarded, 0) {
        unix::ProxyAction::Stop(reason) => assert_eq!(reason, StopReason::StopPhrase),
        _ => panic!("expected the end"),
    }
}

#[test]
fn session_master_eof_reports_child_exited_with_its_code() {
    let mut log = test_log();
    let (mut proxy, _) = unix::Proxy::new();
    let reason = match proxy.advance(&mut log, unix::ProxyEvent::MasterRead(Vec::new()), 0) {
        unix::ProxyAction::Stop(reason) => reason,
        _ => panic!("expected the end"),
    };
    assert_eq!(reason, StopReason::ChildExited);
    assert_eq!(finish_session(&mut log, &reason, Some(Some(7)), 0), 7);
}

#[test]
fn session_outer_input_eof_is_reported_without_touching_the_child() {
    let mut log = test_log();
    let (mut proxy, _) = unix::Proxy::new();
    match proxy.advance(&mut log, unix::ProxyEvent::OuterRead(Vec::new()), 0) {
        unix::ProxyAction::Stop(reason) => assert_eq!(reason, StopReason::OuterClosed),
        _ => panic!("expected the end"),
    }
}

#[test]
fn both_sides_of_the_loop_are_served_in_turn() {
    let mut log = test_log();
    let (mut proxy, _) = unix::Proxy::new();
    let polled = unix::ProxyEvent::Polled { outer: true, master: true };
    assert!(matches!(proxy.advance(&mut log, polled, 0), unix::ProxyAction::ReadOuter));
    let forwarded = unix::ProxyEvent::Forwarded(b"ls\n".to_vec());
    assert!(matches!(proxy.advance(&mut log, forwarded, 0), unix::ProxyAction::ReadMaster));
    let forwarded = unix::ProxyEvent::Forwarded(b"ls\n".to_vec());
    assert!(matches!(proxy.advance(&mut log, forwarded, 0), unix::ProxyAction::Poll));
}

#[test]
fn a_signal_ends_the_loop_and_another_interruption_does_not() {
    let mut log = test_log();
    let (mut proxy, _) = unix::Proxy::new();
    let other = unix::ProxyEvent::Interrupted(None);
    assert!(matches!(proxy.advance(&mut log, other, 0), unix::ProxyAction::Poll));
    match proxy.advance(&mut log, unix::ProxyEvent::Interrupted(Some(sigterm())), 0) {
        unix::ProxyAction::Stop(reason) => assert_eq!(reason, StopReason::Signal(sigterm())),
        _ => panic!("expected the end"),
    }
    let broken = IoFailure { kind: IoErrorKind::Other, errno: Some(9), message: "x".to_string() };
    match proxy.advance(&mut log, unix::ProxyEvent::Failed(broken), 0) {
        unix::ProxyAction::Fail(e) => assert_eq!(e.errno, Some(9)),
        _ => panic!("expected the failure"),
    }
}

#[test]
fn headless_loop_captures_output_and_reports_child_exited() {
    let mut log = test_log();
    let (mut proxy, _) = unix::Proxy::headless();
    let polled = unix::ProxyEvent::Polled { outer: true, master: false };
    assert!(matches!(proxy.advance(&mut log, polled, 0), unix::ProxyAction::ReadMaster));
    let shown = unix::ProxyEvent::Shown(b"hello-headless\r\n".to_vec());
    assert!(matches!(proxy.advance(&mut log, shown, 0), unix::ProxyAction::Poll));
    let reason = match proxy.advance(&mut log, unix::ProxyEvent::MasterRead(Vec::new()), 0) {
        unix::ProxyAction::Stop(reason) => reason,
        _ => panic!("expected the end"),
    };
    assert_eq!(reason, StopReason::ChildExited);
    assert_eq!(finish_session(&mut log, &reason, Some(Some(0)), 0), 0);
    let logged = text_of(log);
    assert!(
        logged.contains("hello-headless"),
        "expected the command's output in the log, got: {logged:?}"
    );
    assert!(logged.contains("reason: process exited"), "log: {logged:?}");
}

#[test]
fn the_threaded_loop_decides_alike() {
    let mut log = test_log();
    let mut proxy = windows::Proxy::new(false);
    match proxy.advance(&mut log, windows::ProxyEvent::FromChild(b"hi".to_vec()), 0) {
        windows::ProxyAction::Show(bytes) => assert_eq!(bytes, b"hi"),
        _ => panic!("expected the output to be shown"),
    }
    let shown = windows::ProxyEvent::Shown(b"hi".to_vec());
    assert!(matches!(proxy.advance(&mut log, shown, 0), windows::ProxyAction::Receive));
    let half = windows::ProxyEvent::FromOuter(b"stop".to_vec());
    assert!(matches!(proxy.advance(&mut log, half, 0), windows::ProxyAction::Receive));
    match proxy.advance(&mut log, windows::ProxyEvent::FromOuter(b"logger\r".to_vec()), 0) {
        windows::ProxyAction::Stop(reason) => assert_eq!(reason, StopReason::StopPhrase),
        _ => panic!("expected the end"),
    }
    match proxy.advance(&mut log, windows::ProxyEvent::ChildExited, 0) {
        windows::ProxyAction::Stop(reason) => assert_eq!(reason, StopReason::ChildExited),
        _ => panic!("expected the end"),
    }
    match proxy.advance(&mut log, windows::ProxyEvent::OuterClosed, 0) {
        windows::ProxyAction::Stop(reason) => assert_eq!(reason, StopReason::OuterClosed),
        _ => panic!("expected the end"),
    }
    let quiet = windows::ProxyEvent::Timeout(None);
    assert!(matches!(proxy.advance(&mut log, quiet, 0), windows::ProxyAction::Receive));
    match proxy.advance(&mut log, windows::ProxyEvent::Timeout(Some(sigterm())), 0) {
        windows::ProxyAction::Stop(reason) => assert_eq!(reason, StopReason::Signal(sigterm())),
        _ => panic!("expected the end"),
    }
    match proxy.advance(&mut log, windows::ProxyEvent::Disconnected, 0) {
        windows::ProxyAction::Fail(e) => assert_eq!(
            e.message,
            "both proxy worker threads exited without reporting a reason"
        ),
        _ => panic!("expected the failure"),
    }
    match windows::Proxy::new(true).advance(&mut log, windows::ProxyEvent::Disconnected, 0) {
        windows::ProxyAction::Fail(e) => {
            assert_eq!(e.message, "the proxy reader thread exited without reporting a reason")
        }
        _ => panic!("expected the failure"),
    }
    assert!(text_of(log).ends_with("] hi"));
}

// ---- signals ---------------------------------------------------------------------

#[test]
fn records_each_installed_signal_and_then_clears() {
    assert_eq!(received(0), None);
    assert_eq!(received(15), Some(sigterm()));
    assert_eq!(
        received(1),
        Some(StopSignal { description: "SIGHUP".to_string(), exit_code: 129 })
    );
    assert_eq!(
        received(2),
        Some(StopSignal { description: "SIGINT".to_string(), exit_code: 130 })
    );
    assert_eq!(received(-1), None);
    assert_eq!(received(100_000), None);
}

#[test]
fn a_signal_exits_as_shells_count_it() {
    let s = stop_signal(9, "SIGKILL");
    assert_eq!((s.description.as_str(), s.exit_code), ("SIGKILL", 137));
}

#[test]
fn console_events_have_their_own_words() {
    let told = |event: u32| received_event(event).map(|s| (s.description, s.exit_code));
    assert_eq!(told(NONE_RECEIVED), None);
    assert_eq!(told(CTRL_C_EVENT), Some(("CTRL_C_EVENT".to_string(), 130)));
    assert_eq!(told(CTRL_BREAK_EVENT), Some(("CTRL_BREAK_EVENT".to_string(), 130)));
    assert_eq!(told(CTRL_CLOSE_EVENT), Some(("CTRL_CLOSE_EVENT".to_string(), 1)));
    assert_eq!(told(CTRL_LOGOFF_EVENT), Some(("CTRL_LOGOFF_EVENT".to_string(), 1)));
    assert_eq!(told(CTRL_SHUTDOWN_EVENT), Some(("CTRL_SHUTDOWN_EVENT".to_string(), 1)));
    assert_eq!(told(77), Some(("unknown console-control event 77".to_string(), 1)));
}

#[test]
fn a_raw_console_neither_echoes_nor_waits_for_lines() {
    assert_eq!(raw_console_mode(0x01f7), 0x03f0);
    assert_eq!(raw_console_mode(0), 0x0200);
    assert_eq!(raw_console_mode(raw_console_mode(0x01f7)), 0x03f0);
}

#[test]
fn a_lone_flag_leaves_the_directory_to_the_environment() {
    let args = words(&["--log-dir"]);
    let (dir, used) = resolve_log_dir(&args, Some("/tmp/from-env".to_string()));
    assert_eq!(dir.as_deref(), Some("/tmp/from-env"));
    assert_eq!(used, args.len());
}

#[test]
fn chunks_at_different_times_lose_nothing_and_stamp_each_line_once() {
    let mut log = LogFile::new(Vec::new(), "/bin/sh", "/dev/pts/0", 0);
    let header = 3;
    log.write_output(b"a b", 1);
    log.write_output(b"", 2);
    log.write_output(b" c\nd", 3);
    log.write_output(b"\n\n", 4);
    let text = text_of(log);
    let body: Vec<&str> = text.lines().skip(header).collect();
    assert_eq!(
        body,
        vec![
            "[1970-01-01T00:00:01Z] a b c",
            "[1970-01-01T00:00:03Z] d",
            "[1970-01-01T00:00:04Z] ",
        ]
    );
    let bare: Vec<&str> = body.iter().map(|line| line.split_once(' ').unwrap().1).collect();
    assert_eq!(bare.join("\n"), "a b c\nd\n");
}

#[test]
fn the_compact_form_is_the_iso_form_without_its_separators() {
    for secs in [-5i64, 0, 1, 951_782_400, 1_700_000_000, 253_402_300_799, 253_402_300_800] {
        let packed: String = format_utc(secs)
            .chars()
            .filter(|c| !matches!(c, '-' | ':' | 'Z'))
            .map(|c| if c == 'T' { '-' } else { c })
            .collect();
        assert_eq!(format_utc_compact(secs), packed);
    }
    assert_eq!(format_utc_compact(-5), format_utc_compact(0));
    assert_ne!(format_utc_compact(1_700_000_000), format_utc_compact(1_700_000_001));
}

#[test]
fn the_first_free_name_is_the_log() {
    let existing = ["rustlogger-19700101-000000.log", "rustlogger-19700101-000000-42-1.log"];
    let (mut creation, mut action) = LogCreation::new(None, 0, 42);
    let used = loop {
        action = match action {
            LogAction::Open(path) => {
                let failure = if existing.contains(&path.as_str()) { Some(taken()) } else { None };
                creation.advance(failure)
            }
            LogAction::Use(path) => break path,
            _ => panic!("there is a free name"),
        };
    };
    assert_eq!(used, "rustlogger-19700101-000000-42-2.log");
}
