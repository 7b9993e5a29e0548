//! Snapshots as JSON.

use rustmon::addr::{parse_address, IpAddr};
use rustmon::config::{Config, OutputFormat};
use rustmon::delta::{DiskRate, NetRate, RateTable, Rates};
use rustmon::render::document::{Document, Piece, Quantity};
use rustmon::render::json::{
    escape_json_string, format_rfc3339, JsonWriter, MAX_STRING_LEN,
};
use rustmon::render::render;
use rustmon::sample::{
    CollectorError, ConnProtocol, Connection, ConnectionSample, CpuSample, CpuTimes, DiskDevice,
    DiskSample, FanSensor, Gpu, GpuSample, GpuVendor, HwmonChip, LoadAvg, MemorySample, MountPoint,
    NetInterface, NetSample, Snapshot, TcpState, TempSensor, ThermalSample,
};
use rustmon::units::{Bytes, KiloHertz, MicroWatts, MilliCelsius, PerSecond, Percent, Rpm};

fn ip(text: &str) -> IpAddr {
    let chars: Vec<char> = text.chars().collect();
    parse_address(&chars).expect("an address")
}

fn number(q: &Quantity) -> f64 {
    match q {
        Quantity::Seconds { nanos } => *nanos as f64 / 1e9,
        Quantity::Share(p) => {
            let (part, whole) = p.ratio();
            part as f64 * 100.0 / whole as f64
        }
        Quantity::Rate(r) => r.count as f64 * r.scale as f64 * 1e9 / r.nanos as f64,
        Quantity::Celsius(t) => t.as_millidegrees() as f64 / 1e3,
        Quantity::Watts(w) => w.as_microwatts() as f64 / 1e6,
        Quantity::Gigahertz(k) => k.as_khz() as f64 / 1e6,
        Quantity::Numeral(s) => s.parse().expect("a number"),
    }
}

fn shown(document: Document) -> String {
    let mut out = String::new();
    for piece in document.into_pieces() {
        match piece {
            Piece::Text(s) => out.push_str(&s),
            Piece::Number(q) => out.push_str(&format!("{}", number(&q))),
            Piece::Fixed { value, decimals, width } => {
                out.push_str(&format!("{:>width$.decimals$}", number(&value)))
            }
            Piece::Size(b) => out.push_str(&format!("{} B", b.as_u64())),
            Piece::Throughput(r) => out.push_str(&format!("{} B/s", number(&Quantity::Rate(r)))),
            Piece::Bar { share, width } => {
                let filled = number(&Quantity::Share(share)) / 100.0 * width as f64;
                let filled = filled.round() as usize;
                out.push_str(&format!("[{}{}]", "#".repeat(filled), "-".repeat(width - filled)));
            }
        }
    }
    out
}

fn rate(count: u64) -> PerSecond {
    PerSecond { count, scale: 1, nanos: 1_000_000_000 }
}

#[test]
fn escapes_the_required_rfc8259_sequences() {
    assert_eq!(escape_json_string("a\"b"), "\"a\\\"b\"");
    assert_eq!(escape_json_string("a\\b"), "\"a\\\\b\"");
    assert_eq!(escape_json_string("a\nb"), "\"a\\nb\"");
    assert_eq!(escape_json_string("a\rb"), "\"a\\rb\"");
    assert_eq!(escape_json_string("a\tb"), "\"a\\tb\"");
    assert_eq!(escape_json_string("plain"), "\"plain\"");
}

#[test]
fn escapes_every_control_character_below_0x20() {
    for code in 0u32..0x20 {
        let c = char::from_u32(code).unwrap();
        let s = String::from(c);
        let escaped = escape_json_string(&s);
        let acceptable_named = matches!(code, 0x08 | 0x09 | 0x0a | 0x0c | 0x0d);
        if !acceptable_named {
            assert_eq!(escaped, format!("\"\\u{code:04x}\""), "code point {code:#x}");
        }
        assert!(!escaped[1..escaped.len() - 1].chars().any(|c| (c as u32) < 0x20 && !matches!(c, '\\')), "{escaped:?} leaked a raw control byte");
    }
}

#[test]
fn escapes_del_and_the_c1_control_range() {
    assert_eq!(escape_json_string("\u{7f}"), "\"\\u007f\"");
    assert_eq!(escape_json_string("\u{9b}"), "\"\\u009b\"");
    assert_eq!(escape_json_string("\u{80}"), "\"\\u0080\"");
    assert_eq!(escape_json_string("\u{9f}"), "\"\\u009f\"");
}

#[test]
fn an_embedded_ansi_escape_survives_only_as_an_escaped_sequence() {
    let hostile = "\u{1b}[2Jdevice";
    let escaped = escape_json_string(hostile);
    assert!(!escaped.contains('\u{1b}'), "{escaped:?}");
    assert!(escaped.contains("\\u001b"));
}

#[test]
fn a_string_over_the_length_cap_is_truncated_on_a_char_boundary() {
    let long = "é".repeat(MAX_STRING_LEN + 10);
    let escaped = escape_json_string(&long);
    assert_eq!(escaped.chars().filter(|&c| c == 'é').count(), MAX_STRING_LEN);
}



#[test]
fn json_matches_known_reference_dates() {
    let cases: &[(i64, &str)] = &[
        (0, "1970-01-01T00:00:00Z"),
        (1, "1970-01-01T00:00:01Z"),
        (86_399, "1970-01-01T23:59:59Z"),
        (86_400, "1970-01-02T00:00:00Z"),
        (1_700_000_000, "2023-11-14T22:13:20Z"),
        (951_782_400, "2000-02-29T00:00:00Z"),
        (1_735_689_599, "2024-12-31T23:59:59Z"),
    ];

    for &(secs, expected) in cases {
        assert_eq!(format_rfc3339(secs).unwrap(), expected, "mismatch for epoch {secs}");
    }
}

#[test]
fn a_time_before_the_epoch_is_an_error_not_a_silent_fallback() {
    assert!(format_rfc3339(-1).is_err());
}

fn written(f: impl FnOnce(&mut JsonWriter)) -> String {
    let mut w = JsonWriter::new();
    f(&mut w);
    w.into_document().plain_text().expect("nothing but text")
}

#[test]
fn empty_object_and_array() {
    assert_eq!(written(|w| { w.begin_object(); w.end_object() }), "{}");
    assert_eq!(written(|w| { w.begin_array(); w.end_array() }), "[]");
}

#[test]
fn object_with_two_members_gets_exactly_one_comma() {
    let out = written(|w| {
        w.begin_object();
        w.key("a");
        w.u64_value(1);
        w.key("b");
        w.u64_value(2);
        w.end_object();
    });
    assert_eq!(out, "{\"a\":1,\"b\":2}");
}

#[test]
fn array_elements_are_comma_separated_with_no_comma_before_the_first() {
    let out = written(|w| {
        w.begin_array();
        w.u64_value(1);
        w.u64_value(2);
        w.u64_value(3);
        w.end_array();
    });
    assert_eq!(out, "[1,2,3]");
}

#[test]
fn no_comma_appears_between_a_key_and_its_value() {
    let out = written(|w| {
        w.begin_object();
        w.key("only");
        w.str_value("value");
        w.end_object();
    });
    assert_eq!(out, "{\"only\":\"value\"}");
}

#[test]
fn nested_object_in_array_and_array_in_object() {
    let out = written(|w| {
        w.begin_array();
        w.begin_object();
        w.key("x");
        w.u64_value(1);
        w.end_object();
        w.begin_object();
        w.key("y");
        w.u64_value(2);
        w.end_object();
        w.end_array();
    });
    assert_eq!(out, "[{\"x\":1},{\"y\":2}]");

    let out = written(|w| {
        w.begin_object();
        w.key("list");
        w.begin_array();
        w.u64_value(1);
        w.u64_value(2);
        w.end_array();
        w.key("after");
        w.bool_value(true);
        w.end_object();
    });
    assert_eq!(out, "{\"list\":[1,2],\"after\":true}");
}

#[test]
fn null_and_bool_values() {
    let out = written(|w| {
        w.begin_array();
        w.null_value();
        w.bool_value(true);
        w.bool_value(false);
        w.end_array();
    });
    assert_eq!(out, "[null,true,false]");
}


fn assert_structurally_valid_json(s: &str) {
    let mut stack = Vec::new();
    let mut in_string = false;
    let mut escaped = false;

    for c in s.chars() {
        if in_string {
            if escaped {
                escaped = false;
            } else {
                match c {
                    '\\' => escaped = true,
                    '"' => in_string = false,
                    c if (c as u32) < 0x20 => {
                        panic!("raw control byte {:#x} inside a JSON string in: {s}", c as u32)
                    }
                    _ => {}
                }
            }
            continue;
        }

        match c {
            '"' => in_string = true,
            '{' | '[' => stack.push(c),
            '}' => assert_eq!(stack.pop(), Some('{'), "unbalanced }} in: {s}"),
            ']' => assert_eq!(stack.pop(), Some('['), "unbalanced ] in: {s}"),
            _ => {}
        }
    }

    assert!(!in_string, "unterminated string in: {s}");
    assert!(stack.is_empty(), "unclosed containers {stack:?} in: {s}");
}

fn full_snapshot() -> Snapshot {
    let mut s = Snapshot::now(0, 0);
    s.cpu = Some(CpuSample {
        total: CpuTimes { user: 100, idle: 900, ..CpuTimes::default() },
        per_core: vec![CpuTimes::default()],
        freq_khz: vec![Some(KiloHertz::from_khz(3_600_000))],
        load_avg: Some(LoadAvg {
            one: "1.00".to_string(),
            five: "1.50".to_string(),
            fifteen: "2.00".to_string(),
        }),
        model: Some("Test CPU".to_string()),
        ctxt: Some(1),
        btime: Some(2),
    });
    s.memory = Some(MemorySample {
        total: Bytes::from_bytes(1000),
        available: Bytes::from_bytes(400),
        free: Bytes::from_bytes(100),
        ..MemorySample::default()
    });
    s.errors.push(CollectorError { collector: "gpu", message: "boom".to_string() });
    s
}

#[test]
fn golden_snapshot_is_structurally_valid_and_contains_expected_fields() {
    let snapshot = full_snapshot();
    let text = shown(rustmon::render::json::write(&snapshot, None, true).expect("writes fine"));

    assert_structurally_valid_json(text.trim());

    assert!(text.contains("\"schema\":1"));
    assert!(text.contains("\"model\":\"Test CPU\""));
    assert!(text.contains("\"cores\":1"));
    assert!(text.contains("\"total_bytes\":1000"));
    assert!(text.contains("\"used_bytes\":600"));
    assert!(text.contains("\"collector\":\"gpu\""));
    assert!(text.contains("\"message\":\"boom\""));
    assert!(text.ends_with('\n'));
}

#[test]
fn verbose_false_omits_the_errors_array() {
    let snapshot = full_snapshot();
    let text = shown(rustmon::render::json::write(&snapshot, None, false).expect("writes fine"));

    assert_structurally_valid_json(text.trim());
    assert!(!text.contains("\"errors\""));
}

#[test]
fn an_empty_snapshot_is_still_valid_json() {
    let snapshot = Snapshot::now(0, 0);
    let text = shown(rustmon::render::json::write(&snapshot, None, false).expect("writes fine"));

    assert_structurally_valid_json(text.trim());
    assert!(text.contains("\"schema\":1"));
    assert!(!text.contains("\"cpu\""));
}

#[test]
fn round_trip_every_section_is_structurally_sound() {

    let mut snapshot = full_snapshot();
    snapshot.thermal = Some(ThermalSample {
        chips: vec![HwmonChip {
            name: "chip".to_string(),
            temps: vec![TempSensor {
                label: "temp1".to_string(),
                value: MilliCelsius::from_millidegrees(45_000),
                max: Some(MilliCelsius::from_millidegrees(90_000)),
                crit: None,
            }],
            fans: vec![FanSensor {
                label: "fan1".to_string(),
                rpm: Rpm::from_rpm(1200),
            }],
        }],
    });
    snapshot.disks = Some(DiskSample {
        devices: vec![DiskDevice {
            name: "sda".to_string(),
            reads_completed: 1,
            writes_completed: 2,
            sectors_read: 3,
            sectors_written: 4,
            io_ticks_ms: 5,
        }],
        mounts: vec![MountPoint {
            source: "/dev/sda1".to_string(),
            mount_point: "/".to_string(),
            fs_type: "ext4".to_string(),
            total: Some(Bytes::from_bytes(1000)),
            available: Some(Bytes::from_bytes(500)),
        }],
    });
    snapshot.net = Some(NetSample {
        interfaces: vec![NetInterface {
            name: "eth0".to_string(),
            rx_bytes: 1,
            tx_bytes: 2,
            rx_packets: 3,
            tx_packets: 4,
            rx_errors: 0,
            tx_errors: 0,
            rx_dropped: 0,
            tx_dropped: 0,
            operstate: Some("up".to_string()),
            mtu: Some(1500),
        }],
    });
    snapshot.gpus = Some(GpuSample {
        gpus: vec![Gpu {
            vendor: GpuVendor::Amd,
            name: "card0".to_string(),
            busy: Some(Percent::from_ratio(100, 1000).expect("a share")),
            vram_total: Some(Bytes::from_bytes(2000)),
            vram_used: Some(Bytes::from_bytes(500)),
            temp: Some(MilliCelsius::from_millidegrees(50_000)),
            power: Some(MicroWatts::from_microwatts(9_000_000)),
            fan_rpm: Some(Rpm::from_rpm(800)),
            freq_khz: None,
        }],
    });
    snapshot.connections = Some(ConnectionSample {
        connections: vec![Connection {
            protocol: ConnProtocol::Tcp,
            local_addr: ip("192.168.1.1"),
            local_port: 51000,
            remote_addr: ip("8.8.8.8"),
            remote_port: 443,
            state: Some(TcpState::Established),
            uid: 1000,
            pid: Some(42),
            program: Some("curl".to_string()),
            ppid: None,
        }],
    });

    let mut disk_rates = RateTable::new();
    disk_rates.insert(
        "sda".to_string(),
        DiskRate {
            read: rate(100),
            write: rate(50),
            read_iops: rate(1),
            write_iops: rate(2),
            utilisation: Some(Percent::from_ratio(50, 1000).expect("a share")),
        },
    );
    let mut net_rates = RateTable::new();
    net_rates.insert(
        "eth0".to_string(),
        NetRate {
            rx: rate(10),
            tx: rate(20),
            rx_packets_per_sec: rate(1),
            tx_packets_per_sec: rate(2),
        },
    );
    let rates = Rates {
        interval_nanos: 1_000_000_000,
        cpu_total: Some(Percent::from_ratio(125, 1000).expect("a share")),
        cpu_per_core: vec![Some(Percent::from_ratio(125, 1000).expect("a share"))],
        disk: disk_rates,
        net: net_rates,
    };

    let text = shown(rustmon::render::json::write(&snapshot, Some(&rates), true).expect("writes fine"));

    assert_structurally_valid_json(text.trim());
    for expected in [
        "\"thermal\"", "\"disk\"", "\"mounts\"", "\"net\"", "\"gpu\"",
        "\"read_bytes_per_sec\":100", "\"rx_bytes_per_sec\":10",
        "\"vendor\":\"amd\"", "\"connections\"", "\"remote_addr\":\"8.8.8.8\"",
        "\"program\":\"curl\"",
    ] {
        assert!(text.contains(expected), "missing {expected} in {text}");
    }
}

#[test]
fn dispatches_to_text_by_default() {
    let mut config = Config::new();
    config.format = OutputFormat::Text;
    let snapshot = Snapshot::now(0, 0);

    let out = shown(render(&snapshot, None, &config).expect("renders fine"));
    assert!(out.starts_with("rustmon —"), "expected text output, got {out:?}");
}

#[test]
fn dispatches_to_json_when_configured() {
    let mut config = Config::new();
    config.format = OutputFormat::Json;
    let snapshot = Snapshot::now(0, 0);

    let out = shown(render(&snapshot, None, &config).expect("renders fine"));
    assert!(out.trim_start().starts_with('{'), "expected JSON output, got {out:?}");
}

#[test]
fn later_times_have_later_texts() {
    let times = [0i64, 1, 59, 60, 86_399, 86_400, 951_782_399, 951_782_400, 253_402_300_799];
    for pair in times.windows(2) {
        assert!(format_rfc3339(pair[0]).unwrap() < format_rfc3339(pair[1]).unwrap());
    }
}
