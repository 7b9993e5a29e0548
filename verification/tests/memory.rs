//! Memory readings.

use rustmon::collectors::memory::{parse_meminfo, parse_meminfo_line};
use rustmon::error::Error;
use rustmon::units::Percent;

fn as_f64(p: Percent) -> f64 {
    let (part, whole) = p.ratio();
    part as f64 * 100.0 / whole as f64
}

const REAL_MEMINFO: &str = "\
MemTotal:       63310204 kB
MemFree:         1842488 kB
MemAvailable:   52048372 kB
Buffers:         1710008 kB
Cached:         47800420 kB
SwapCached:            0 kB
SwapTotal:       8388604 kB
SwapFree:        8387912 kB
HugePages_Total:       0
Hugepagesize:       2048 kB
";

fn p() -> &'static str {
    "proc/meminfo"
}

#[test]
fn parses_a_real_meminfo_in_kib_not_bytes() {
    let m = parse_meminfo(p(), REAL_MEMINFO).expect("real fixture parses");

    assert_eq!(m.total.as_u64(), 63_310_204 * 1024);
    assert_eq!(m.free.as_u64(), 1_842_488 * 1024);
    assert_eq!(m.available.as_u64(), 52_048_372 * 1024);
    assert_eq!(m.buffers.as_u64(), 1_710_008 * 1024);
    assert_eq!(m.cached.as_u64(), 47_800_420 * 1024);
    assert_eq!(m.swap_total.as_u64(), 8_388_604 * 1024);
    assert_eq!(m.swap_free.as_u64(), 8_387_912 * 1024);
}

#[test]
fn similar_and_unitless_keys_do_not_bleed_into_the_sample() {
    let m = parse_meminfo(p(), REAL_MEMINFO).expect("parses");
    assert_eq!(m.cached.as_u64(), 47_800_420 * 1024);

    assert_eq!(
        parse_meminfo_line(p(), 1, "HugePages_Total:       0").expect("well-formed"),
        None,
        "a unit-less count must be skipped, not read as kB"
    );
    assert!(parse_meminfo_line(p(), 1, "Hugepagesize:       2048 kB")
        .expect("well-formed")
        .is_some());
}

#[test]
fn used_is_derived_from_available_not_free() {
    let m = parse_meminfo(p(), REAL_MEMINFO).expect("parses");

    assert_eq!(m.used().as_u64(), (63_310_204 - 52_048_372) * 1024);

    let pct = as_f64(m.used_percent().expect("non-zero total"));
    assert!((17.0..19.0).contains(&pct), "expected ~18%, got {pct}");

    assert_eq!(m.swap_used().as_u64(), (8_388_604 - 8_387_912) * 1024);
}

#[test]
fn a_kernel_without_memavailable_falls_back_rather_than_failing() {
    let old = "\
MemTotal:       1000000 kB
MemFree:          10000 kB
Buffers:          20000 kB
Cached:          300000 kB
";
    let m = parse_meminfo(p(), old).expect("old kernel parses");
    assert_eq!(m.available.as_u64(), (10_000 + 20_000 + 300_000) * 1024);
}

#[test]
fn memory_a_truncated_line_is_a_parse_error_not_a_panic() {
    let torn = "MemTotal:       63310204 kB\nMemFree:";
    let err = parse_meminfo(p(), torn).expect_err("truncated line must fail");
    assert!(matches!(err, Error::Parse { line: Some(2), .. }), "got {err:?}");

    let err = parse_meminfo(p(), "MemTotal 63310204 kB\n").expect_err("no colon");
    assert!(matches!(err, Error::Parse { .. }), "got {err:?}");
}

#[test]
fn a_non_numeric_value_is_a_parse_error() {
    let err = parse_meminfo(p(), "MemTotal:  banana kB\n").expect_err("garbage value");
    assert!(matches!(err, Error::Parse { line: Some(1), .. }), "got {err:?}");

    let rendered = parse_meminfo(p(), "MemTotal:  \u{1b}[2Jx kB\n")
        .expect_err("escape must fail")
        .to_string();
    assert!(!rendered.contains('\u{1b}'), "escape survived: {rendered:?}");
}

#[test]
fn values_that_overflow_are_errors_not_wraps() {
    let too_big = format!("MemTotal:  {} kB\n", u128::from(u64::MAX) + 1);
    let err = parse_meminfo(p(), &too_big).expect_err("u64 overflow must fail");
    assert!(matches!(err, Error::Parse { .. }), "got {err:?}");

    let overflows_kib = format!("MemTotal:  {} kB\n", u64::MAX);
    let err = parse_meminfo(p(), &overflows_kib).expect_err("kiB overflow must fail");
    assert!(matches!(err, Error::Arithmetic { .. }), "got {err:?}");
}

#[test]
fn a_file_without_memtotal_is_an_error() {
    let err = parse_meminfo(p(), "MemFree:  100 kB\n").expect_err("no MemTotal");
    assert!(matches!(err, Error::Parse { line: None, .. }), "got {err:?}");
}

#[test]
fn unknown_keys_and_blank_lines_are_ignored() {
    let with_extras = "\
MemTotal:       1000 kB
\n
SomeFutureKey:  4242 kB
MemFree:         500 kB
";
    let m = parse_meminfo(p(), with_extras).expect("unknown keys are fine");
    assert_eq!(m.total.as_u64(), 1000 * 1024);
    assert_eq!(m.free.as_u64(), 500 * 1024);
}

