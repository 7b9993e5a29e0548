//! What the readings themselves say.

use rustmon::sample::{
    CpuTimes, MemorySample, Snapshot, TcpState, TempSensor, TempSeverity,
};
use rustmon::units::{Bytes, MilliCelsius, Percent};

fn as_f64(p: Percent) -> f64 {
    let (part, whole) = p.ratio();
    part as f64 * 100.0 / whole as f64
}

fn sample_times() -> CpuTimes {
    CpuTimes {
        user: 100,
        nice: 10,
        system: 20,
        idle: 1_000,
        iowait: 5,
        irq: 1,
        softirq: 2,
        steal: 3,
        guest: 50,
        guest_nice: 7,
    }
}

#[test]
fn total_excludes_the_double_counted_guest_fields() {
    let t = sample_times();
    let first_eight = 100 + 10 + 20 + 1_000 + 5 + 1 + 2 + 3;

    assert_eq!(t.total(), first_eight);
    assert_ne!(t.total(), first_eight + 50 + 7, "guest/guest_nice must not be added again");
}

#[test]
fn busy_is_everything_that_is_not_idle_or_iowait() {
    let t = sample_times();
    assert_eq!(t.busy(), t.total() - 1_000 - 5);
    assert_eq!(CpuTimes::default().busy(), 0);
}

#[test]
fn counter_arithmetic_saturates_rather_than_overflowing() {
    let maxed = CpuTimes {
        user: u64::MAX,
        nice: u64::MAX,
        system: u64::MAX,
        idle: u64::MAX,
        iowait: u64::MAX,
        irq: u64::MAX,
        softirq: u64::MAX,
        steal: u64::MAX,
        guest: u64::MAX,
        guest_nice: u64::MAX,
    };

    assert_eq!(maxed.total(), u64::MAX);
    assert_eq!(maxed.busy(), 0);
}

fn mem(total: u64, available: u64) -> MemorySample {
    MemorySample {
        total: Bytes::from_bytes(total),
        available: Bytes::from_bytes(available),
        ..MemorySample::default()
    }
}

#[test]
fn used_is_total_minus_available() {
    let m = mem(1_000, 400);
    assert_eq!(m.used().as_u64(), 600);
    assert!((as_f64(m.used_percent().expect("non-zero total")) - 60.0).abs() < 1e-9);
}

#[test]
fn a_machine_reporting_no_memory_has_no_percentage() {
    assert_eq!(mem(0, 0).used_percent(), None);
}

#[test]
fn available_exceeding_total_floors_at_zero_used() {
    assert_eq!(mem(1_000, 2_000).used().as_u64(), 0);
}

#[test]
fn swap_used_saturates_too() {
    let m = MemorySample {
        swap_total: Bytes::from_bytes(100),
        swap_free: Bytes::from_bytes(400),
        ..MemorySample::default()
    };
    assert_eq!(m.swap_used().as_u64(), 0);
}

fn sensor(value: i64, max: Option<i64>, crit: Option<i64>) -> TempSensor {
    TempSensor {
        label: "Package id 0".to_string(),
        value: MilliCelsius::from_millidegrees(value),
        max: max.map(MilliCelsius::from_millidegrees),
        crit: crit.map(MilliCelsius::from_millidegrees),
    }
}

#[test]
fn severity_ladder() {
    assert_eq!(sensor(50_000, Some(85_000), Some(95_000)).severity(), TempSeverity::Normal);
    assert_eq!(sensor(85_000, Some(85_000), Some(95_000)).severity(), TempSeverity::Warning);
    assert_eq!(sensor(95_000, Some(85_000), Some(95_000)).severity(), TempSeverity::Critical);
}

#[test]
fn crit_outranks_max() {
    assert_eq!(sensor(99_000, Some(85_000), Some(95_000)).severity(), TempSeverity::Critical);
}

#[test]
fn no_trip_points_means_unknown_not_normal() {
    assert_eq!(sensor(70_000, None, None).severity(), TempSeverity::Unknown);
    assert_eq!(sensor(70_000, Some(85_000), None).severity(), TempSeverity::Normal);
}

#[test]
fn a_fresh_snapshot_is_empty() {
    let s = Snapshot::now(1_700_000_000, 5);
    assert!(s.cpu.is_none() && s.memory.is_none() && s.thermal.is_none());
    assert!(s.disks.is_none() && s.net.is_none() && s.gpus.is_none());
    assert!(s.connections.is_none());
    assert!(s.errors.is_empty());
}

#[test]
fn tcp_state_decodes_the_kernel_enum() {
    assert_eq!(TcpState::from_byte(0x01), TcpState::Established);
    assert_eq!(TcpState::from_byte(0x0a), TcpState::Listen);
    assert_eq!(TcpState::from_byte(0x0b), TcpState::Closing);
}

#[test]
fn tcp_state_unknown_values_are_preserved_not_dropped() {
    assert_eq!(TcpState::from_byte(0xff), TcpState::Unknown(0xff));
    assert_eq!(TcpState::Unknown(0xff).as_str(), "unknown");
}

#[test]
fn elapsed_since_measures_forward_intervals_only() {
    let earlier = Snapshot::now(0, 1_000);
    let mut later = Snapshot::now(0, 1_000);
    later.taken_at_monotonic = earlier.taken_at_monotonic + 500_000_000;

    let elapsed = later.elapsed_since(&earlier).map(|nanos| nanos as f64 / 1e9);
    assert_eq!(elapsed, Some(0.5));

    assert_eq!(earlier.elapsed_since(&later), None);
}

#[test]
fn a_zero_length_interval_yields_no_elapsed_time() {
    let a = Snapshot::now(0, 7);
    let mut b = Snapshot::now(0, 7);
    b.taken_at_monotonic = a.taken_at_monotonic;

    assert_eq!(b.elapsed_since(&a), None);
}

#[test]
fn a_percentage_never_passes_the_whole() {
    assert_eq!(Percent::from_ratio(3, 2).map(|p| p.ratio()), Some((2, 2)));
    assert_eq!(Percent::from_ratio(1, 0), None);
    assert_eq!(Percent::whole_number(250).ratio(), (100, 100));
}

#[test]
fn kib_that_do_not_fit_bytes_are_an_error() {
    assert_eq!(Bytes::from_kib(4).map(|b| b.as_u64()).ok(), Some(4096));
    assert!(Bytes::from_kib(u64::MAX / 1024 + 1).is_err());
}
