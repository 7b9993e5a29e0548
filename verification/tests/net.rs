//! Network interfaces.

use rustmon::collectors::net::{
    build_sample, is_visible, parse_net_dev, parse_net_dev_line, read_link_state,
};
use rustmon::delta::RateTracker;
use rustmon::error::{Error, IoErrorKind, IoFailure};
use rustmon::sample::Snapshot;
use rustmon::sysfs::{PathFacts, SysfsReader};
use rustmon::units::PerSecond;

/// A tree of files that stands in for the filesystem below a root.
struct TempTree {
    files: Vec<(String, Vec<u8>)>,
    dirs: Vec<String>,
    links: Vec<(String, String)>,
}

const ROOT: &str = "/fixture";

fn failed(kind: IoErrorKind) -> IoFailure {
    IoFailure { kind, errno: None, message: "it failed".to_string() }
}

#[allow(dead_code)]
impl TempTree {
    fn new(_tag: &str) -> TempTree {
        TempTree { files: Vec::new(), dirs: Vec::new(), links: Vec::new() }
    }

    fn dir(&mut self, rel: &str) -> &mut TempTree {
        let mut upto = String::new();
        for part in rel.split('/') {
            if !upto.is_empty() {
                upto.push('/');
            }
            upto.push_str(part);
            if !self.dirs.contains(&upto) {
                self.dirs.push(upto.clone());
            }
        }
        self
    }

    fn parent(&mut self, rel: &str) {
        if let Some((parent, _)) = rel.rsplit_once('/') {
            self.dir(parent);
        }
    }

    fn file(&mut self, rel: &str, contents: &str) -> &mut TempTree {
        self.parent(rel);
        self.files.retain(|(path, _)| path != rel);
        self.files.push((rel.to_string(), contents.as_bytes().to_vec()));
        self
    }

    fn symlink(&mut self, rel: &str, target: &str) -> &mut TempTree {
        self.parent(rel);
        self.links.push((rel.to_string(), target.to_string()));
        self
    }

    fn remove(&mut self, rel: &str) -> &mut TempTree {
        let below = format!("{rel}/");
        self.files.retain(|(path, _)| path != rel && !path.starts_with(&below));
        self.dirs.retain(|path| path != rel && !path.starts_with(&below));
        self.links.retain(|(path, _)| path != rel && !path.starts_with(&below));
        self
    }

    fn entries(&self, rel: &str) -> Vec<Option<String>> {
        let below = if rel.is_empty() { String::new() } else { format!("{rel}/") };
        let mut names: Vec<Option<String>> = Vec::new();
        let paths = self.dirs.iter().chain(self.files.iter().map(|(p, _)| p)).chain(
            self.links.iter().map(|(p, _)| p),
        );
        for path in paths {
            if let Some(rest) = path.strip_prefix(&below) {
                if !rest.is_empty() && !rest.contains('/') {
                    names.push(Some(rest.to_string()));
                }
            }
        }
        names
    }

    /// The facts of what really is at `at`, recorded under `path`.
    fn facts(&self, path: &str, at: &str) -> PathFacts {
        let canonical = if at.is_empty() { ROOT.to_string() } else { format!("{ROOT}/{at}") };
        let file = self.files.iter().find(|(p, _)| p == at);
        let is_dir = at.is_empty() || self.dirs.contains(&at.to_string());
        PathFacts {
            path: path.to_string(),
            canonical: Ok(canonical),
            contents: match file {
                Some((_, bytes)) => Ok(bytes.clone()),
                None => Err(failed(IoErrorKind::Other)),
            },
            entries: if is_dir { Ok(self.entries(at)) } else { Err(failed(IoErrorKind::Other)) },
            target: Err(failed(IoErrorKind::Other)),
        }
    }

    fn reader(&self) -> SysfsReader {
        let mut reader = match SysfsReader::with_root(ROOT, Ok(ROOT.to_string()), true) {
            Ok(reader) => reader,
            Err(e) => panic!("{}", e.to_string()),
        };
        let mut paths: Vec<String> = vec![String::new()];
        paths.extend(self.dirs.iter().cloned());
        paths.extend(self.files.iter().map(|(p, _)| p.clone()));
        for path in &paths {
            reader.record(self.facts(path, path));
        }
        for (path, target) in &self.links {
            let inside = target.strip_prefix("/fixture/");
            let mut link = match inside {
                Some(at) => self.facts(path, at),
                None => self.facts(path, path),
            };
            if inside.is_none() {
                link.canonical = if target.starts_with('/') {
                    Ok(target.clone())
                } else {
                    Err(failed(IoErrorKind::NotFound))
                };
                link.entries = Ok(Vec::new());
            }
            link.target = Ok(target.clone());
            reader.record(link);
            if let Some(at) = inside {
                for real in &paths {
                    if let Some(rest) = real.strip_prefix(&format!("{at}/")) {
                        reader.record(self.facts(&format!("{path}/{rest}"), real));
                    }
                }
            }
        }
        reader
    }
}

fn per_sec(r: PerSecond) -> f64 {
    r.count as f64 * r.scale as f64 * 1e9 / r.nanos as f64
}

fn p() -> &'static str {
    "proc/net/dev"
}

const REAL_NET_DEV: &str = "\
Inter-|   Receive                                                |  Transmit
 face |bytes    packets errs drop fifo frame compressed multicast|bytes    packets errs drop fifo colls carrier compressed
    lo:   64142     823    0    0    0     0          0         0    64142     823    0    0    0     0       0          0
enp13s0: 11667885   17405    0    0    0     0          0        12 17816421   17864    0    0    0     0       0          0
wlp14s0:       0       0    0    0    0     0          0         0        0       0    0    0    0     0       0          0
wg0-mullvad: 10655240   17153    0    0    0     0          0         0 17062264   17780    0    0    0     0       0          0
";

#[test]
fn parses_real_net_dev_including_a_hyphenated_name() {
    let interfaces = parse_net_dev(p(), REAL_NET_DEV).expect("real fixture parses");
    let names: Vec<&str> = interfaces.iter().map(|i| i.name.as_str()).collect();
    assert_eq!(names, vec!["lo", "enp13s0", "wlp14s0", "wg0-mullvad"]);

    let wg = interfaces.iter().find(|i| i.name == "wg0-mullvad").expect("present");
    assert_eq!(wg.rx_bytes, 10_655_240);
    assert_eq!(wg.tx_bytes, 17_062_264);
    assert_eq!(wg.rx_packets, 17_153);
    assert_eq!(wg.tx_packets, 17_780);
}

#[test]
fn a_name_with_no_space_before_the_colon_is_not_merged_with_its_counters() {
    let line = "\
Inter-|   Receive                                                |  Transmit
 face |bytes    packets errs drop fifo frame compressed multicast|bytes    packets errs drop fifo colls carrier compressed
averyveryverylonginterfacename0:123 456 0 0 0 0 0 0 789 12 0 0 0 0 0 0
";
    let interfaces = parse_net_dev(p(), line).expect("parses");
    assert_eq!(interfaces.len(), 1);
    assert_eq!(interfaces[0].name, "averyveryverylonginterfacename0");
    assert_eq!(interfaces[0].rx_bytes, 123);
}

#[test]
fn net_a_truncated_line_is_a_parse_error_not_a_panic() {
    let contents = "h1\nh2\neth0: 123 456\n";
    let err = parse_net_dev(p(), contents).expect_err("too few counters must fail");
    assert!(matches!(err, Error::Parse { line: Some(3), .. }), "got {err:?}");
}

#[test]
fn net_a_non_numeric_counter_is_a_parse_error() {
    let contents = "h1\nh2\neth0: banana 456 0 0 0 0 0 0 789 12 0 0 0 0 0 0\n";
    let err = parse_net_dev(p(), contents).expect_err("garbage counter must fail");
    assert!(matches!(err, Error::Parse { line: Some(3), .. }), "got {err:?}");
}

#[test]
fn a_line_with_no_colon_is_a_parse_error() {
    let contents = "h1\nh2\nno colon here at all\n";
    let err = parse_net_dev(p(), contents).expect_err("no colon must fail");
    assert!(matches!(err, Error::Parse { .. }), "got {err:?}");
}

#[test]
fn an_unsafe_interface_name_is_a_parse_error() {
    let contents = "h1\nh2\n../../etc: 123 456 0 0 0 0 0 0 789 12 0 0 0 0 0 0\n";
    let err = parse_net_dev(p(), contents).expect_err("unsafe name must fail");
    assert!(matches!(err, Error::Parse { .. }), "got {err:?}");
}

#[test]
fn blank_lines_after_the_headers_are_skipped() {
    let contents = "h1\nh2\n\neth0: 123 456 0 0 0 0 0 0 789 12 0 0 0 0 0 0\n\n";
    let interfaces = parse_net_dev(p(), contents).expect("blank lines are fine");
    assert_eq!(interfaces.len(), 1);
}

#[test]
fn loopback_is_hidden_by_default_but_not_with_show_all() {
    assert!(!is_visible("lo", false));
    assert!(is_visible("lo", true));
    assert!(is_visible("eth0", false));
}

#[test]
fn build_sample_is_none_when_nothing_is_visible() {
    assert!(build_sample(Vec::new()).is_none());
}

#[test]
fn a_hotplugged_interface_does_not_corrupt_existing_rates() {

    let before = "\
h1\nh2\neth0: 1000 10 0 0 0 0 0 0 2000 20 0 0 0 0 0 0\n";
    let after = "\
h1\nh2\neth0: 3000 30 0 0 0 0 0 0 6000 60 0 0 0 0 0 0\nusb0: 500 5 0 0 0 0 0 0 700 7 0 0 0 0 0 0\n";

    let mut first = Snapshot::now(0, 0);
    first.net = build_sample(parse_net_dev(p(), before).expect("parses"));

    let mut second = Snapshot::now(0, 0);
    second.taken_at_monotonic = first.taken_at_monotonic + 2_000_000_000;
    second.net = build_sample(parse_net_dev(p(), after).expect("parses"));

    let mut tracker = RateTracker::new();
    assert!(tracker.update(&first).is_none());
    let rates = tracker.update(&second).expect("valid interval");

    let eth0 = rates.net.get("eth0").expect("a rate");
    assert!((per_sec(eth0.rx) - 1_000.0).abs() < 1e-6, "{:?}", eth0.rx);
    assert!((per_sec(eth0.tx) - 2_000.0).abs() < 1e-6, "{:?}", eth0.tx);

    assert!(!rates.net.get("usb0").is_some());
}

#[test]
fn the_link_state_is_read_where_it_is_reported() {
    let mut tree = TempTree::new("net-link");
    tree.file("sys/class/net/eth0/operstate", "up\n");
    tree.file("sys/class/net/eth0/mtu", "1500\n");
    let (operstate, mtu) = read_link_state(&tree.reader(), "eth0").expect("reads fine");
    assert_eq!(operstate.as_deref(), Some("up"));
    assert_eq!(mtu, Some(1500));

    let (operstate, mtu) = read_link_state(&tree.reader(), "eth1").expect("reads fine");
    assert_eq!((operstate, mtu), (None, None));
}

#[test]
fn one_net_dev_line_names_one_interface() {
    let line = "eth0: 1 2 3 4 5 6 7 8 9 10 11 12 13 14 15 16";
    let interface = parse_net_dev_line(p(), 3, line).expect("a full line").expect("an interface");
    assert_eq!(interface.name, "eth0");
    assert_eq!(interface.rx_bytes, 1);
    assert_eq!(interface.rx_packets, 2);
    assert_eq!(interface.rx_errors, 3);
    assert_eq!(interface.rx_dropped, 4);
    assert_eq!(interface.tx_bytes, 9);
    assert_eq!(interface.tx_packets, 10);
    assert_eq!(interface.tx_errors, 11);
    assert_eq!(interface.tx_dropped, 12);

    assert!(parse_net_dev_line(p(), 3, " ").expect("a blank line").is_none());
}
