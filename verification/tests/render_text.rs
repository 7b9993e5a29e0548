//! Snapshots as text.

use rustmon::addr::{parse_address, IpAddr};
use rustmon::delta::{DiskRate, NetRate, RateTable, Rates};
use rustmon::render::document::{Document, Piece, Quantity};
use rustmon::render::text::pad;
use rustmon::sample::{
    CollectorError, ConnProtocol, Connection, ConnectionSample, CpuSample, CpuTimes, DiskDevice,
    DiskSample, HwmonChip, LoadAvg, MemorySample, NetInterface, NetSample, Snapshot, TcpState,
    TempSensor, ThermalSample,
};
use rustmon::units::{Bytes, KiloHertz, MilliCelsius, PerSecond, Percent};

fn ip(text: &str) -> IpAddr {
    let chars: Vec<char> = text.chars().collect();
    parse_address(&chars).expect("an address")
}

fn number(q: &Quantity) -> f64 {
    match q {
        Quantity::Seconds { nanos } => *nanos as f64 / 1e9,
        Quantity::Share(p) => {
            let (part, whole) = p.ratio();
            part as f64 * 100.0 / whole as f64
        }
        Quantity::Rate(r) => r.count as f64 * r.scale as f64 * 1e9 / r.nanos as f64,
        Quantity::Celsius(t) => t.as_millidegrees() as f64 / 1e3,
        Quantity::Watts(w) => w.as_microwatts() as f64 / 1e6,
        Quantity::Gigahertz(k) => k.as_khz() as f64 / 1e6,
        Quantity::Numeral(s) => s.parse().expect("a number"),
    }
}

fn shown(document: Document) -> String {
    let mut out = String::new();
    for piece in document.into_pieces() {
        match piece {
            Piece::Text(s) => out.push_str(&s),
            Piece::Number(q) => out.push_str(&format!("{}", number(&q))),
            Piece::Fixed { value, decimals, width } => {
                out.push_str(&format!("{:>width$.decimals$}", number(&value)))
            }
            Piece::Size(b) => out.push_str(&format!("{} B", b.as_u64())),
            Piece::Throughput(r) => out.push_str(&format!("{} B/s", number(&Quantity::Rate(r)))),
            Piece::Bar { share, width } => {
                let filled = number(&Quantity::Share(share)) / 100.0 * width as f64;
                let filled = filled.round() as usize;
                out.push_str(&format!("[{}{}]", "#".repeat(filled), "-".repeat(width - filled)));
            }
        }
    }
    out
}

fn rate(count: u64) -> PerSecond {
    PerSecond { count, scale: 1, nanos: 1_000_000_000 }
}

#[test]
fn pad_right_pads_short_strings() {
    assert_eq!(pad("hi", 5), "hi   ");
}

#[test]
fn pad_truncates_long_strings() {
    assert_eq!(pad("toolongforthis", 6), "toolon");
}

#[test]
fn pad_exact_length_is_unchanged() {
    assert_eq!(pad("exact", 5), "exact");
}

#[test]
fn pad_truncates_on_a_character_boundary_not_a_byte_boundary() {
    let result = pad("ééé", 2);
    assert_eq!(result, "éé");
    assert!(result.is_char_boundary(result.len()));
}

fn full_snapshot() -> Snapshot {
    let mut s = Snapshot::now(0, 0);
    s.cpu = Some(CpuSample {
        total: CpuTimes { user: 100, idle: 900, ..CpuTimes::default() },
        per_core: vec![CpuTimes::default(), CpuTimes::default()],
        freq_khz: vec![Some(KiloHertz::from_khz(3_600_000)), None],
        load_avg: Some(LoadAvg {
            one: "1.00".to_string(),
            five: "1.50".to_string(),
            fifteen: "2.00".to_string(),
        }),
        model: Some("Test CPU".to_string()),
        ctxt: Some(1),
        btime: Some(2),
    });
    s.memory = Some(MemorySample {
        total: Bytes::from_bytes(1000),
        available: Bytes::from_bytes(400),
        free: Bytes::from_bytes(100),
        ..MemorySample::default()
    });
    s
}

fn render(snapshot: &Snapshot, rates: Option<&Rates>, verbose: bool) -> String {
    shown(rustmon::render::text::write(snapshot, rates, verbose).expect("writes fine"))
}

#[test]
fn writes_a_header_and_the_present_sections() {
    let text = render(&full_snapshot(), None, false);
    assert!(text.starts_with("rustmon —"));
    assert!(text.contains("CPU"));
    assert!(text.contains("Test CPU"));
    assert!(text.contains("cores: 2"));
    assert!(text.contains("Memory"));
    assert!(text.contains("load avg: 1.00 1.50 2.00"));
}

#[test]
fn absent_sections_produce_no_heading_at_all() {
    let text = render(&full_snapshot(), None, false);
    for absent in ["Thermal", "Disk", "Net", "GPU", "Connections"] {
        assert!(!text.contains(absent), "unexpected section {absent}");
    }
}

#[test]
fn connections_section_shows_owner_protocol_and_endpoints() {
    let mut snapshot = full_snapshot();
    snapshot.connections = Some(ConnectionSample {
        connections: vec![
            Connection {
                protocol: ConnProtocol::Tcp,
                local_addr: ip("192.168.1.1"),
                local_port: 51000,
                remote_addr: ip("8.8.8.8"),
                remote_port: 443,
                state: Some(TcpState::Established),
                uid: 1000,
                pid: Some(42),
                program: Some("curl".to_string()),
                ppid: Some(7),
            },
            Connection {
                protocol: ConnProtocol::Udp,
                local_addr: ip("192.168.1.1"),
                local_port: 51001,
                remote_addr: ip("1.1.1.1"),
                remote_port: 53,
                state: None,
                uid: 1001,
                pid: None,
                program: None,
                ppid: None,
            },
        ],
    });

    let text = render(&snapshot, None, false);
    assert!(text.contains("Connections"));
    assert!(text.contains("curl[42]"), "{text}");
    assert!(text.contains("8.8.8.8:443"), "{text}");
    assert!(text.contains("[established]"), "{text}");
    assert!(text.contains("uid 1001"), "{text}");
}

#[test]
fn a_core_with_no_frequency_reads_n_a_not_a_panic() {
    let text = render(&full_snapshot(), None, false);
    assert!(text.contains("n/a"));
}

#[test]
fn verbose_prints_errors_and_quiet_mode_does_not() {
    let mut snapshot = full_snapshot();
    snapshot.errors.push(CollectorError { collector: "gpu", message: "boom".to_string() });

    let verbose_text = render(&snapshot, None, true);
    assert!(verbose_text.contains("Errors"));
    assert!(verbose_text.contains("gpu: boom"));

    let quiet_text = render(&snapshot, None, false);
    assert!(!quiet_text.contains("Errors"));
    assert!(!quiet_text.contains("boom"));
}

#[test]
fn output_never_contains_control_bytes() {
    let mut snapshot = full_snapshot();
    snapshot.thermal = Some(ThermalSample {
        chips: vec![HwmonChip {
            name: "chip".to_string(),
            temps: vec![TempSensor {
                label: "temp1".to_string(),
                value: MilliCelsius::from_millidegrees(45_000),
                max: None,
                crit: None,
            }],
            fans: Vec::new(),
        }],
    });

    let text = render(&snapshot, None, true);
    assert!(
        !text.chars().any(|c| (c as u32) < 0x20 && c != '\n'),
        "control byte leaked into text output"
    );
}

#[test]
fn a_swapless_machine_has_no_swap_line() {
    let mut snapshot = full_snapshot();
    snapshot.memory = Some(MemorySample {
        total: Bytes::from_bytes(1000),
        available: Bytes::from_bytes(400),
        swap_total: Bytes::from_bytes(0),
        swap_free: Bytes::from_bytes(0),
        ..MemorySample::default()
    });
    assert!(!render(&snapshot, None, false).contains("swap"));
}

#[test]
fn renders_with_rates_present() {

    let mut snapshot = full_snapshot();
    snapshot.disks = Some(DiskSample {
        devices: vec![
            DiskDevice {
                name: "sda".to_string(),
                reads_completed: 1,
                writes_completed: 2,
                sectors_read: 3,
                sectors_written: 4,
                io_ticks_ms: 5,
            },
            DiskDevice {
                name: "sdb-no-rate".to_string(),
                reads_completed: 1,
                writes_completed: 2,
                sectors_read: 3,
                sectors_written: 4,
                io_ticks_ms: 5,
            },
        ],
        mounts: Vec::new(),
    });
    snapshot.net = Some(NetSample {
        interfaces: vec![NetInterface {
            name: "eth0".to_string(),
            rx_bytes: 1,
            tx_bytes: 2,
            rx_packets: 3,
            tx_packets: 4,
            rx_errors: 0,
            tx_errors: 0,
            rx_dropped: 0,
            tx_dropped: 0,
            operstate: Some("up".to_string()),
            mtu: Some(1500),
        }],
    });

    let mut disk_rates = RateTable::new();
    disk_rates.insert(
        "sda".to_string(),
        DiskRate {
            read: rate(100),
            write: rate(50),
            read_iops: rate(1),
            write_iops: rate(2),
            utilisation: Some(Percent::from_ratio(50, 1000).expect("a share")),
        },
    );
    let mut net_rates = RateTable::new();
    net_rates.insert(
        "eth0".to_string(),
        NetRate {
            rx: rate(10),
            tx: rate(20),
            rx_packets_per_sec: rate(1),
            tx_packets_per_sec: rate(2),
        },
    );
    let rates = Rates {
        interval_nanos: 1_000_000_000,
        cpu_total: Some(Percent::from_ratio(125, 1000).expect("a share")),
        cpu_per_core: vec![Some(Percent::from_ratio(125, 1000).expect("a share")), None],
        disk: disk_rates,
        net: net_rates,
    };

    let text = render(&snapshot, Some(&rates), false);
    assert!(text.contains("sda"));
    assert!(text.contains("no rate yet"), "sdb-no-rate should hit the no-rate branch");
    assert!(text.contains("eth0"));
    assert!(text.contains("[up]"));
}
