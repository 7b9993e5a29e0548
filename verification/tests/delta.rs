//! Counters that become rates.

use rustmon::delta::{counter_delta, cpu_busy_percent, per_second, RateTracker};
use rustmon::sample::{
    CpuSample, CpuTimes, DiskDevice, DiskSample, NetInterface, NetSample, Snapshot,
};
use rustmon::units::{PerSecond, Percent};

fn percent(p: Percent) -> f64 {
    let (part, whole) = p.ratio();
    part as f64 * 100.0 / whole as f64
}

fn per_sec(r: PerSecond) -> f64 {
    r.count as f64 * r.scale as f64 * 1e9 / r.nanos as f64
}

#[test]
fn counter_delta_forward_and_flat() {
    assert_eq!(counter_delta(10, 15), Some(5));
    assert_eq!(counter_delta(15, 15), Some(0));
}

#[test]
fn counter_delta_drops_the_interval_when_the_counter_goes_backwards() {
    assert_eq!(counter_delta(15, 10), None);
    assert_eq!(counter_delta(u64::MAX, 0), None);
}

#[test]
fn counter_delta_does_not_correct_a_32_bit_wrap() {
    let prev = u64::from(u32::MAX) - 5;
    let curr = 100u64;
    assert_eq!(counter_delta(prev, curr), None);
}

#[test]
fn per_second_basic_rate() {
    assert_eq!(per_second(Some(1_000), 2_000_000_000).map(per_sec), Some(500.0));
    assert_eq!(per_second(Some(0), 5_000_000_000).map(per_sec), Some(0.0));
}

#[test]
fn per_second_propagates_a_missing_delta() {
    assert_eq!(per_second(None, 2_000_000_000), None);
}

#[test]
fn per_second_rejects_non_positive_or_non_finite_intervals() {
    assert_eq!(per_second(Some(100), 0), None);
}

fn times(user: u64, idle: u64) -> CpuTimes {
    CpuTimes {
        user,
        idle,
        ..CpuTimes::default()
    }
}

#[test]
fn cpu_busy_percent_basic() {
    let prev = times(100, 900);
    let curr = times(200, 1_800);
    let pct = percent(cpu_busy_percent(&prev, &curr).expect("valid delta"));
    assert!((pct - 10.0).abs() < 1e-9, "got {pct}");
}

#[test]
fn cpu_busy_percent_none_on_a_sub_tick_interval() {
    let t = times(100, 900);
    assert_eq!(cpu_busy_percent(&t, &t), None);
}

#[test]
fn cpu_busy_percent_none_when_the_counters_reset() {
    let prev = times(200, 1_800);
    let curr = times(100, 900);
    assert_eq!(cpu_busy_percent(&prev, &curr), None);
}

fn disk(name: &str, sectors_read: u64, sectors_written: u64, reads: u64, writes: u64, ticks_ms: u64) -> DiskDevice {
    DiskDevice {
        name: name.to_string(),
        reads_completed: reads,
        writes_completed: writes,
        sectors_read,
        sectors_written,
        io_ticks_ms: ticks_ms,
    }
}

fn net_if(name: &str, rx_bytes: u64, tx_bytes: u64, rx_packets: u64, tx_packets: u64) -> NetInterface {
    NetInterface {
        name: name.to_string(),
        rx_bytes,
        tx_bytes,
        rx_packets,
        tx_packets,
        rx_errors: 0,
        tx_errors: 0,
        rx_dropped: 0,
        tx_dropped: 0,
        operstate: None,
        mtu: None,
    }
}

fn at(base: &Snapshot, offset: u64) -> Snapshot {
    let mut s = Snapshot::now(0, 0);
    s.taken_at_monotonic = base.taken_at_monotonic + offset;
    s
}

#[test]
fn the_first_update_has_nothing_to_compare_against() {
    let mut tracker = RateTracker::new();
    assert!(tracker.update(&Snapshot::now(0, 0)).is_none());
}

#[test]
fn reset_forgets_the_previous_snapshot() {
    let mut tracker = RateTracker::new();
    let first = Snapshot::now(0, 0);
    let second = at(&first, 1_000_000_000);

    assert!(tracker.update(&first).is_none());
    assert!(tracker.update(&second).is_some(), "second call has a prior reading");

    tracker.reset();

    let third = at(&second, 1_000_000_000);
    assert!(
        tracker.update(&third).is_none(),
        "post-reset update must behave like a first call"
    );
}

#[test]
fn a_zero_or_negative_interval_yields_no_rates_at_the_whole_snapshot_level() {
    let mut tracker = RateTracker::new();
    let first = Snapshot::now(0, 0);
    let same_instant = at(&first, 0);

    assert!(tracker.update(&first).is_none());
    assert!(
        tracker.update(&same_instant).is_none(),
        "zero elapsed time"
    );
}

#[test]
fn disk_and_net_rates_match_by_name_over_a_real_interval() {
    let mut tracker = RateTracker::new();

    let mut first = Snapshot::now(0, 0);
    first.disks = Some(DiskSample {
        devices: vec![disk("sda", 1_000, 2_000, 100, 50, 400)],
        mounts: vec![],
    });
    first.net = Some(NetSample {
        interfaces: vec![net_if("eth0", 10_000, 5_000, 100, 50)],
    });

    let mut second = at(&first, 2_000_000_000);
    second.disks = Some(DiskSample {
        devices: vec![disk("sda", 3_000, 2_400, 300, 90, 1_400)],
        mounts: vec![],
    });
    second.net = Some(NetSample {
        interfaces: vec![net_if("eth0", 30_000, 9_000, 300, 90)],
    });

    assert!(tracker.update(&first).is_none());
    let rates = tracker.update(&second).expect("valid interval");

    assert!((rates.interval_nanos as f64 / 1e9 - 2.0).abs() < 1e-9);

    let d = rates.disk.get("sda").expect("a rate");
    assert!((per_sec(d.read) - 512_000.0).abs() < 1e-6, "{:?}", d.read);
    assert!((per_sec(d.write) - 102_400.0).abs() < 1e-6, "{:?}", d.write);
    assert!((per_sec(d.read_iops) - 100.0).abs() < 1e-9);
    assert!((per_sec(d.write_iops) - 20.0).abs() < 1e-9);
    let util = percent(d.utilisation.expect("ticks advanced"));
    assert!((util - 50.0).abs() < 1e-6, "got {util}");

    let n = rates.net.get("eth0").expect("a rate");
    assert!((per_sec(n.rx) - 10_000.0).abs() < 1e-6);
    assert!((per_sec(n.tx) - 2_000.0).abs() < 1e-6);
    assert!((per_sec(n.rx_packets_per_sec) - 100.0).abs() < 1e-9);
    assert!((per_sec(n.tx_packets_per_sec) - 20.0).abs() < 1e-9);
}

#[test]
fn devices_are_matched_by_name_not_by_position() {
    let mut tracker = RateTracker::new();

    let mut first = Snapshot::now(0, 0);
    first.disks = Some(DiskSample {
        devices: vec![disk("sda", 0, 0, 0, 0, 0), disk("sdb", 0, 0, 0, 0, 0)],
        mounts: vec![],
    });

    let mut second = at(&first, 1_000_000_000);
    second.disks = Some(DiskSample {
        devices: vec![
            disk("sdc", 5_000, 0, 0, 0, 0),
            disk("sdb", 1_024, 0, 0, 0, 0),
            disk("sda", 512, 0, 0, 0, 0),
        ],
        mounts: vec![],
    });

    assert!(tracker.update(&first).is_none());
    let rates = tracker.update(&second).expect("valid interval");

    assert!(rates.disk.get("sdc").is_none());

    assert!(
        (per_sec(rates.disk.get("sda").expect("a rate").read) - 262_144.0).abs() < 1e-6,
        "{:?}",
        rates.disk.get("sda")
    );
    assert!(
        (per_sec(rates.disk.get("sdb").expect("a rate").read) - 524_288.0).abs() < 1e-6,
        "{:?}",
        rates.disk.get("sdb")
    );
}

#[test]
fn a_wrapped_interface_is_dropped_for_one_refresh_others_are_not() {
    let mut tracker = RateTracker::new();

    let mut first = Snapshot::now(0, 0);
    first.net = Some(NetSample {
        interfaces: vec![
            net_if("eth0", u64::from(u32::MAX) - 5, 0, 0, 0),
            net_if("lo", 1_000, 1_000, 10, 10),
        ],
    });

    let mut second = at(&first, 1_000_000_000);
    second.net = Some(NetSample {
        interfaces: vec![
            net_if("eth0", 100, 0, 0, 0),
            net_if("lo", 2_000, 2_000, 20, 20),
        ],
    });

    assert!(tracker.update(&first).is_none());
    let rates = tracker.update(&second).expect("valid interval");

    assert!(
        rates.net.get("eth0").is_none(),
        "a wrapped counter must not produce a rate"
    );
    assert!(rates.net.get("lo").is_some(), "an unaffected interface must still report");
}

#[test]
fn a_device_removed_since_the_previous_snapshot_has_no_entry() {
    let mut tracker = RateTracker::new();

    let mut first = Snapshot::now(0, 0);
    first.disks = Some(DiskSample {
        devices: vec![disk("sda", 0, 0, 0, 0, 0), disk("sdb", 0, 0, 0, 0, 0)],
        mounts: vec![],
    });

    let mut second = at(&first, 1_000_000_000);
    second.disks = Some(DiskSample {
        devices: vec![disk("sda", 512, 0, 0, 0, 0)],
        mounts: vec![],
    });

    assert!(tracker.update(&first).is_none());
    let rates = tracker.update(&second).expect("valid interval");

    assert!(rates.disk.get("sda").is_some());
    assert!(rates.disk.get("sdb").is_none());
    assert!(!rates.disk.is_empty());
}

#[test]
fn a_core_that_comes_online_mid_session_has_no_rate_yet() {
    let mut tracker = RateTracker::new();

    let mut first = Snapshot::now(0, 0);
    first.cpu = Some(CpuSample {
        total: times(100, 900),
        per_core: vec![times(100, 900)],
        freq_khz: vec![],
        load_avg: None,
        model: None,
        ctxt: None,
        btime: None,
    });

    let mut second = at(&first, 1_000_000_000);
    second.cpu = Some(CpuSample {
        total: times(200, 1_800),
        per_core: vec![times(200, 1_800), times(50, 50)],
        freq_khz: vec![],
        load_avg: None,
        model: None,
        ctxt: None,
        btime: None,
    });

    assert!(tracker.update(&first).is_none());
    let rates = tracker.update(&second).expect("valid interval");

    assert_eq!(rates.cpu_per_core.len(), 2);
    assert!(rates.cpu_per_core[0].is_some(), "core 0 has a prior reading");
    assert!(
        rates.cpu_per_core[1].is_none(),
        "core 1 has no prior reading and must not borrow core 0's"
    );
}

#[test]
fn a_busy_counter_that_fell_gives_no_percentage() {
    assert_eq!(cpu_busy_percent(&times(100, 0), &times(50, 150)), None);
}
