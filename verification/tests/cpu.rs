//! Processor readings.

use rustmon::collectors::cpu::{
    parse_cpu_times, parse_loadavg, parse_model_name, parse_proc_stat, parse_scalar_line,
};
use rustmon::error::Error;
use rustmon::sample::CpuTimes;

const REAL_PROC_STAT: &str = "\
cpu  716788 2411 217900 54326362 611468 0 7764 0 3632 0
cpu0 34662 182 13033 2248192 27383 0 6306 0 198 0
cpu1 225997 340 39071 1809314 244553 0 822 0 1126 0
cpu2 168489 571 35741 2008529 107718 0 328 0 857 0
intr 1234567 0 0 0
ctxt 347270246
btime 1785853821
processes 47471
procs_running 2
procs_blocked 0
";

fn p() -> &'static str {
    "proc/stat"
}

#[test]
fn parses_a_real_proc_stat() {
    let (total, per_core) = parse_proc_stat(p(), REAL_PROC_STAT).expect("real fixture parses");

    assert_eq!(total.user, 716_788);
    assert_eq!(total.idle, 54_326_362);
    assert_eq!(total.guest, 3_632);
    assert_eq!(per_core.len(), 3);
    assert_eq!(per_core[0].user, 34_662);
    assert_eq!(per_core[2].softirq, 328);
}

#[test]
fn scalar_lines_are_picked_out_of_proc_stat() {
    assert_eq!(parse_scalar_line(REAL_PROC_STAT, "ctxt"), Some(347_270_246));
    assert_eq!(parse_scalar_line(REAL_PROC_STAT, "btime"), Some(1_785_853_821));
    assert_eq!(parse_scalar_line(REAL_PROC_STAT, "nosuchkey"), None);
}

#[test]
fn offline_cores_leave_gaps_rather_than_shifting_indices() {
    let stat = "\
cpu  100 0 0 100 0 0 0 0 0 0
cpu0 10 0 0 10 0 0 0 0 0 0
cpu3 40 0 0 40 0 0 0 0 0 0
";
    let (_, per_core) = parse_proc_stat(p(), stat).expect("parses");

    assert_eq!(per_core.len(), 4);
    assert_eq!(per_core[0].user, 10);
    assert_eq!(per_core[1], CpuTimes::default());
    assert_eq!(per_core[2], CpuTimes::default());
    assert_eq!(per_core[3].user, 40);
}

#[test]
fn cpu_a_truncated_line_is_a_parse_error_not_a_panic() {
    let stat = "\
cpu  716788 2411 217900 54326362 611468 0 7764 0 3632 0
cpu0 34662 182 130";

    let err = parse_proc_stat(p(), stat).expect_err("truncated line must fail");
    assert!(matches!(err, Error::Parse { line: Some(2), .. }), "got {err:?}");
}

#[test]
fn a_non_numeric_field_is_a_parse_error() {
    let stat = "cpu  716788 2411 banana 54326362 611468 0 7764 0 3632 0\n";
    let err = parse_proc_stat(p(), stat).expect_err("garbage field must fail");
    assert!(matches!(err, Error::Parse { line: Some(1), .. }), "got {err:?}");

    let rendered = parse_proc_stat(p(), "cpu  1 2 \u{1b}[2J3 4\n")
        .expect_err("escape must fail")
        .to_string();
    assert!(!rendered.contains('\u{1b}'), "escape survived: {rendered:?}");
}

#[test]
fn a_value_overflowing_u64_is_a_parse_error() {
    let stat = format!("cpu  {} 2411 217900 54326362 0 0 0 0 0 0\n", u128::from(u64::MAX) + 1);
    let err = parse_proc_stat(p(), &stat).expect_err("u64 overflow must fail");
    assert!(matches!(err, Error::Parse { .. }), "got {err:?}");

    let stat = format!("cpu  {} 0 0 0 0 0 0 0 0 0\n", u64::MAX);
    let (total, _) = parse_proc_stat(p(), &stat).expect("u64::MAX parses");
    assert_eq!(total.user, u64::MAX);
}

#[test]
fn missing_trailing_fields_default_to_zero() {
    let (total, _) = parse_proc_stat(p(), "cpu  100 20 30 40\n").expect("four fields parse");
    assert_eq!(total.user, 100);
    assert_eq!(total.idle, 40);
    assert_eq!(total.steal, 0);
    assert_eq!(total.guest_nice, 0);
}

#[test]
fn a_file_with_no_aggregate_line_is_an_error() {
    let err = parse_proc_stat(p(), "cpu0 1 2 3 4\nctxt 5\n").expect_err("no `cpu ` line");
    assert!(matches!(err, Error::Parse { line: None, .. }), "got {err:?}");
}

#[test]
fn an_absurd_core_index_is_refused_rather_than_allocated() {
    let stat = "cpu  1 2 3 4\ncpu4000000000 1 2 3 4\n";
    let err = parse_proc_stat(p(), stat).expect_err("huge index must be refused");
    assert!(matches!(err, Error::Parse { .. }), "got {err:?}");
}

#[test]
fn a_cpu_line_with_a_non_numeric_index_is_an_error() {
    let err = parse_proc_stat(p(), "cpu  1 2 3 4\ncpuX 1 2 3 4\n").expect_err("bad index");
    assert!(matches!(err, Error::Parse { line: Some(2), .. }), "got {err:?}");
}

#[test]
fn parses_a_real_loadavg() {
    let load = parse_loadavg("proc/loadavg", "1.52 1.52 1.52 2/2535 47452\n")
        .expect("real fixture parses");
    let load = [&load.one, &load.five, &load.fifteen].map(|v| v.parse::<f64>().unwrap());
    assert_eq!(load, [1.52, 1.52, 1.52]);
}

#[test]
fn a_short_or_garbled_loadavg_is_a_parse_error() {
    let path = "proc/loadavg";
    assert!(parse_loadavg(path, "1.52 1.52\n").is_err(), "only two values");
    assert!(parse_loadavg(path, "").is_err(), "empty file");
    assert!(parse_loadavg(path, "x y z\n").is_err(), "non-numeric");
    assert!(parse_loadavg(path, "nan 1.0 1.0\n").is_err(), "NaN accepted");
    assert!(parse_loadavg(path, "inf 1.0 1.0\n").is_err(), "inf accepted");
}

#[test]
fn parses_and_sanitises_the_model_name() {
    let cpuinfo = "\
processor\t: 0
vendor_id\t: AuthenticAMD
model name\t: AMD Ryzen 9 9900X 12-Core Processor
cpu MHz\t\t: 4400.000
";
    assert_eq!(
        parse_model_name(cpuinfo).as_deref(),
        Some("AMD Ryzen 9 9900X 12-Core Processor")
    );

    let hostile = "model name\t: \u{1b}[2JEvil\u{1b}[0m CPU\n";
    let got = parse_model_name(hostile).expect("still yields a name");
    assert!(!got.contains('\u{1b}'), "escape survived: {got:?}");
    assert_eq!(got, "Evil CPU");

    assert_eq!(parse_model_name("processor\t: 0\n"), None);
    assert_eq!(parse_model_name("model name\t:   \n"), None);
}

#[test]
fn the_fields_of_one_line_are_read_in_order() {
    let times = parse_cpu_times(p(), 1, "1 2 3 4 5 6 7 8 9 10").expect("a full line");
    assert_eq!(times.user, 1);
    assert_eq!(times.nice, 2);
    assert_eq!(times.system, 3);
    assert_eq!(times.idle, 4);
    assert_eq!(times.iowait, 5);
    assert_eq!(times.irq, 6);
    assert_eq!(times.softirq, 7);
    assert_eq!(times.steal, 8);

    let err = parse_cpu_times(p(), 3, "1 2 3").expect_err("four fields are needed");
    assert!(matches!(err, Error::Parse { line: Some(3), .. }), "got {err:?}");
}
