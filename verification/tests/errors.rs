//! What errors say, and which failures are no errors.

use rustmon::error::{Absence, Error, IoErrorKind, IoFailure};

/// EIO, ENXIO, ENODEV, ENODATA and EOPNOTSUPP.
const ERRNO_NOT_REPORTED: [i32; 5] = [5, 6, 19, 61, 95];

fn p() -> &'static str {
    "sys/class/hwmon/hwmon0/temp1_input"
}

fn failure(kind: IoErrorKind) -> IoFailure {
    IoFailure { kind, errno: None, message: "boom".to_string() }
}

fn from_raw_os_error(errno: i32) -> IoFailure {
    IoFailure { kind: IoErrorKind::Other, errno: Some(errno), message: "boom".to_string() }
}

#[test]
fn path_is_carried_by_the_variants_that_have_one() {
    assert!(Error::parse(p(), Some(3), "nope".to_string()).path().is_some());
    assert!(Error::Io { path: p().to_string(), source: failure(IoErrorKind::Other) }
        .path()
        .is_some());
    assert!(Error::PathRejected { path: p().to_string(), reason: "escapes root".to_string() }
        .path()
        .is_some());

    assert!(Error::Unsupported { what: "gpu" }.path().is_none());
    assert!(Error::Arithmetic { what: "overflow" }.path().is_none());
}

fn absence_of(err: IoFailure) -> Absence {
    match Error::classify_io(p(), err) {
        Ok(absence) => absence,
        Err(e) => panic!("expected an absence, got error: {}", e.to_string()),
    }
}

#[test]
fn enoent_and_eacces_are_absences_not_errors() {
    assert_eq!(absence_of(failure(IoErrorKind::NotFound)), Absence::NotPresent);
    assert_eq!(absence_of(failure(IoErrorKind::PermissionDenied)), Absence::PermissionDenied);
}

#[test]
fn eio_from_a_disconnected_probe_is_not_reported() {
    for errno in ERRNO_NOT_REPORTED {
        assert_eq!(
            absence_of(from_raw_os_error(errno)),
            Absence::NotReported,
            "errno {errno} should classify as NotReported"
        );
    }
}

#[test]
fn a_genuine_io_failure_stays_an_error() {
    let err = Error::classify_io(p(), failure(IoErrorKind::Other))
        .expect_err("an ordinary failure must not be swallowed as an absence");
    assert!(matches!(err, Error::Io { .. }));
    assert_eq!(err.path().map(|p| p.as_str()), Some(p()));

    assert!(Error::classify_io(p(), from_raw_os_error(12)).is_err());
}

#[test]
fn display_always_names_the_path() {
    let with_line = Error::parse(p(), Some(7), "expected a u64".to_string());
    let rendered = with_line.to_string();
    assert!(rendered.contains("temp1_input"), "{rendered}");
    assert!(rendered.contains(":7:"), "{rendered}");
    assert!(rendered.contains("expected a u64"), "{rendered}");

    let whole_file = Error::parse(p(), None, "empty".to_string());
    assert!(!whole_file.to_string().contains(":7:"));
    assert!(whole_file.to_string().contains("temp1_input"));
}

#[test]
fn only_io_exposes_an_inner_source() {
    let io_err = Error::Io { path: p().to_string(), source: failure(IoErrorKind::Other) };
    assert!(io_err.source().is_some());
    assert!(Error::parse(p(), None, "x".to_string()).source().is_none());
    assert!(Error::Unsupported { what: "gpu" }.source().is_none());
}

#[test]
fn an_error_is_reported_with_its_cause() {
    let io_err = Error::Io { path: "proc/stat".to_string(), source: failure(IoErrorKind::Other) };
    let message = io_err.to_string();
    assert_eq!(
        rustmon::report_error(&io_err),
        format!("rustmon: error: {message}\n  caused by: boom\n")
    );

    let plain = Error::Unsupported { what: "gpu" };
    let message = plain.to_string();
    assert_eq!(rustmon::report_error(&plain), format!("rustmon: error: {message}\n"));
}

#[test]
fn exit_codes_are_cut_to_a_byte() {
    assert_eq!(rustmon::exit_code_from(-1), 0);
    assert_eq!(rustmon::exit_code_from(0), 0);
    assert_eq!(rustmon::exit_code_from(7), 7);
    assert_eq!(rustmon::exit_code_from(255), 255);
    assert_eq!(rustmon::exit_code_from(256), 255);
}
