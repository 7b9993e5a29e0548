//! The collectors together.

use rustmon::collector::Registry;
use rustmon::collectors::any::AnyCollector;
use rustmon::collectors::connections::ConnectionsCollector;
use rustmon::collectors::cpu::CpuCollector;
use rustmon::collectors::disk::DiskCollector;
use rustmon::collectors::known_collectors;
use rustmon::collectors::memory::MemoryCollector;
use rustmon::collectors::net::NetCollector;
use rustmon::config::{Config, OutputFormat};
use rustmon::error::{Error, IoErrorKind, IoFailure};
use rustmon::render::document::Piece;
use rustmon::sysfs::{PathFacts, SysfsReader};

/// A tree of files that stands in for the filesystem below a root.
struct TempTree {
    files: Vec<(String, Vec<u8>)>,
    dirs: Vec<String>,
    links: Vec<(String, String)>,
}

const ROOT: &str = "/fixture";

fn failed(kind: IoErrorKind) -> IoFailure {
    IoFailure { kind, errno: None, message: "it failed".to_string() }
}

#[allow(dead_code)]
impl TempTree {
    fn new(_tag: &str) -> TempTree {
        TempTree { files: Vec::new(), dirs: Vec::new(), links: Vec::new() }
    }

    fn dir(&mut self, rel: &str) -> &mut TempTree {
        let mut upto = String::new();
        for part in rel.split('/') {
            if !upto.is_empty() {
                upto.push('/');
            }
            upto.push_str(part);
            if !self.dirs.contains(&upto) {
                self.dirs.push(upto.clone());
            }
        }
        self
    }

    fn parent(&mut self, rel: &str) {
        if let Some((parent, _)) = rel.rsplit_once('/') {
            self.dir(parent);
        }
    }

    fn file(&mut self, rel: &str, contents: &str) -> &mut TempTree {
        self.parent(rel);
        self.files.retain(|(path, _)| path != rel);
        self.files.push((rel.to_string(), contents.as_bytes().to_vec()));
        self
    }

    fn symlink(&mut self, rel: &str, target: &str) -> &mut TempTree {
        self.parent(rel);
        self.links.push((rel.to_string(), target.to_string()));
        self
    }

    fn remove(&mut self, rel: &str) -> &mut TempTree {
        let below = format!("{rel}/");
        self.files.retain(|(path, _)| path != rel && !path.starts_with(&below));
        self.dirs.retain(|path| path != rel && !path.starts_with(&below));
        self.links.retain(|(path, _)| path != rel && !path.starts_with(&below));
        self
    }

    fn entries(&self, rel: &str) -> Vec<Option<String>> {
        let below = if rel.is_empty() { String::new() } else { format!("{rel}/") };
        let mut names: Vec<Option<String>> = Vec::new();
        let paths = self.dirs.iter().chain(self.files.iter().map(|(p, _)| p)).chain(
            self.links.iter().map(|(p, _)| p),
        );
        for path in paths {
            if let Some(rest) = path.strip_prefix(&below) {
                if !rest.is_empty() && !rest.contains('/') {
                    names.push(Some(rest.to_string()));
                }
            }
        }
        names
    }

    /// The facts of what really is at `at`, recorded under `path`.
    fn facts(&self, path: &str, at: &str) -> PathFacts {
        let canonical = if at.is_empty() { ROOT.to_string() } else { format!("{ROOT}/{at}") };
        let file = self.files.iter().find(|(p, _)| p == at);
        let is_dir = at.is_empty() || self.dirs.contains(&at.to_string());
        PathFacts {
            path: path.to_string(),
            canonical: Ok(canonical),
            contents: match file {
                Some((_, bytes)) => Ok(bytes.clone()),
                None => Err(failed(IoErrorKind::Other)),
            },
            entries: if is_dir { Ok(self.entries(at)) } else { Err(failed(IoErrorKind::Other)) },
            target: Err(failed(IoErrorKind::Other)),
        }
    }

    fn reader(&self) -> SysfsReader {
        let mut reader = match SysfsReader::with_root(ROOT, Ok(ROOT.to_string()), true) {
            Ok(reader) => reader,
            Err(e) => panic!("{}", e.to_string()),
        };
        let mut paths: Vec<String> = vec![String::new()];
        paths.extend(self.dirs.iter().cloned());
        paths.extend(self.files.iter().map(|(p, _)| p.clone()));
        for path in &paths {
            reader.record(self.facts(path, path));
        }
        for (path, target) in &self.links {
            let inside = target.strip_prefix("/fixture/");
            let mut link = match inside {
                Some(at) => self.facts(path, at),
                None => self.facts(path, path),
            };
            if inside.is_none() {
                link.canonical = if target.starts_with('/') {
                    Ok(target.clone())
                } else {
                    Err(failed(IoErrorKind::NotFound))
                };
                link.entries = Ok(Vec::new());
            }
            link.target = Ok(target.clone());
            reader.record(link);
            if let Some(at) = inside {
                for real in &paths {
                    if let Some(rest) = real.strip_prefix(&format!("{at}/")) {
                        reader.record(self.facts(&format!("{path}/{rest}"), real));
                    }
                }
            }
        }
        reader
    }
}

fn cpu() -> AnyCollector {
    AnyCollector::Cpu(CpuCollector::new())
}

fn memory() -> AnyCollector {
    AnyCollector::Memory(MemoryCollector::new())
}

fn disk() -> AnyCollector {
    AnyCollector::Disk(DiskCollector::new())
}

fn net() -> AnyCollector {
    AnyCollector::Net(NetCollector::new())
}

fn connections() -> AnyCollector {
    AnyCollector::Connections(ConnectionsCollector::new())
}

#[test]
fn one_collector_failing_does_not_stop_the_others() {
    let mut tree = TempTree::new("registry-one-failure");
    tree.file("proc/stat", "cpu  1 2 3 4\n");
    tree.file("proc/loadavg", "1.52 1.52 1.52 2/2535 47452\n");
    tree.file("proc/diskstats", "garbage\n");
    tree.file("proc/meminfo", "MemTotal: 1000 kB\n");
    let mut registry =
        Registry::from_collectors(vec![cpu(), disk(), memory()], tree.reader());

    let snapshot =
        registry.collect_all(0, 0).expect("a collector error must not fail collect_all");

    assert!(snapshot.cpu.is_some(), "collector before the failure ran");
    assert!(snapshot.memory.is_some(), "collector after the failure ran");

    assert_eq!(snapshot.errors.len(), 1);
    assert_eq!(snapshot.errors[0].collector, "disk");
    assert!(!snapshot.errors[0].message.is_empty());
}

#[test]
fn every_failure_is_recorded_separately() {
    let mut tree = TempTree::new("registry-all-failures");
    tree.file("proc/diskstats", "garbage\n");
    tree.file("proc/net/dev", "h1\nh2\ngarbage\n");
    tree.file("proc/net/tcp", "header\ngarbage\n");
    let mut registry =
        Registry::from_collectors(vec![disk(), net(), connections()], tree.reader());

    let snapshot = registry.collect_all(0, 0).expect("still produces a snapshot");

    assert_eq!(snapshot.errors.len(), 3);
    assert_eq!(
        snapshot.errors.iter().map(|e| e.collector).collect::<Vec<_>>(),
        vec!["disk", "net", "connections"]
    );
    assert!(snapshot.cpu.is_none() && snapshot.memory.is_none());
}

#[test]
fn active_reports_the_registered_collectors_in_order() {
    let registry = Registry::from_collectors(vec![cpu(), memory()], SysfsReader::new());

    assert_eq!(registry.active(), vec!["cpu", "memory"]);
}

#[test]
fn an_empty_registry_still_produces_a_snapshot() {
    let mut registry = Registry::<AnyCollector>::from_collectors(Vec::new(), SysfsReader::new());
    let snapshot = registry.collect_all(0, 0).expect("empty registry is not an error");

    assert!(snapshot.errors.is_empty());
    assert!(snapshot.cpu.is_none());
}

#[test]
fn the_known_collectors_have_their_names() {
    assert_eq!(
        known_collectors(),
        vec!["cpu", "memory", "thermal", "disk", "net", "gpu", "connections"]
    );
}

#[test]
fn a_run_without_a_display_is_unsupported() {
    let config = Config::new();
    match rustmon::run(&config, SysfsReader::new(), 0, 0) {
        Err(Error::Unsupported { what }) => assert!(what.contains("--once")),
        _ => panic!("expected a refusal"),
    }
}

#[test]
fn a_single_snapshot_is_rendered() {
    let mut tree = TempTree::new("run-once");
    tree.file("proc/meminfo", "MemTotal: 1000 kB\n");
    let mut config = Config::new();
    config.once = true;
    config.only = vec!["memory".to_string()];
    let (code, document) = rustmon::run(&config, tree.reader(), 0, 0).expect("runs");
    assert_eq!(code, 0);
    assert!(!document.into_pieces().is_empty());

    config.summary = true;
    let (code, document) = rustmon::run(&config, tree.reader(), 0, 0).expect("runs");
    assert_eq!(code, 1);
    assert_eq!(document.plain_text().as_deref(), Some(""));
}

#[test]
fn from_config_drops_everything_that_fails_probe() {
    let mut tree = TempTree::new("registry-from-config-empty");
    tree.dir("nothing-here");
    let reader = tree.reader();

    let config = Config::new();
    let registry = Registry::from_config(&config, reader).expect("builds fine");
    assert!(registry.active().is_empty());
}

#[test]
fn from_config_honours_only() {
    let mut tree = TempTree::new("registry-from-config-only");
    tree.file("proc/stat", "cpu  0 0 0 0 0 0 0 0 0 0\n");
    tree.file("proc/meminfo", "MemTotal: 1000 kB\n");
    let reader = tree.reader();

    let mut config = Config::new();
    config.only = vec!["cpu".to_string()];

    let registry = Registry::from_config(&config, reader).expect("builds fine");
    assert_eq!(registry.active(), vec!["cpu"]);
}

#[test]
fn from_config_honours_skip() {
    let mut tree = TempTree::new("registry-from-config-skip");
    tree.file("proc/stat", "cpu  0 0 0 0 0 0 0 0 0 0\n");
    tree.file("proc/meminfo", "MemTotal: 1000 kB\n");
    let reader = tree.reader();

    let mut config = Config::new();
    config.skip = vec!["memory".to_string()];

    let registry = Registry::from_config(&config, reader).expect("builds fine");
    assert_eq!(registry.active(), vec!["cpu"]);
}

#[test]
fn a_registry_collects_from_what_it_observed_last() {
    let mut before = TempTree::new("registry-before");
    before.file("proc/meminfo", "MemTotal: 1000 kB\n");
    let mut after = TempTree::new("registry-after");
    after.file("proc/meminfo", "MemTotal: 2000 kB\n");

    let mut registry = Registry::from_collectors(vec![memory()], before.reader());
    let first = registry.collect_all(0, 0).expect("a snapshot");
    registry.observe(after.reader());
    let second = registry.collect_all(1, 1).expect("a snapshot");

    assert_eq!(first.memory.expect("memory present").total.as_u64(), 1_024_000);
    assert_eq!(second.memory.expect("memory present").total.as_u64(), 2_048_000);
}

#[test]
fn hostile_names_do_not_reach_the_output() {
    let mut tree = TempTree::new("hostile");
    tree.file("proc/stat", "cpu  1 2 3 4\n");
    tree.file("proc/loadavg", "1.52 1.52 1.52 2/2535 47452\n");
    tree.file("proc/cpuinfo", "model name\t: Evil\u{1b}[2J CPU\u{7}\n");
    tree.file("proc/mounts", "/dev/\u{1b}]0;x / ext4 rw 0 0\n");
    tree.file("proc/diskstats", "   8       0 sda 158 0 9120 52 0 0 0 0 0 35 52\n");
    for format in [OutputFormat::Text, OutputFormat::Json] {
        let mut config = Config::new();
        config.once = true;
        config.format = format;
        let (code, document) = rustmon::run(&config, tree.reader(), 0, 0).expect("runs");
        assert_eq!(code, 0);
        let mut written = String::new();
        for piece in document.into_pieces() {
            if let Piece::Text(s) = piece {
                written.push_str(&s);
            }
        }
        assert!(written.contains("Evil"), "{written:?}");
        assert!(!written.chars().any(|c| c.is_control() && c != '\n'), "{written:?}");
    }
}

#[test]
fn a_frequency_that_makes_no_sense_is_noted_and_costs_nothing_else() {
    let mut tree = TempTree::new("frequency-noted");
    tree.file("proc/stat", "cpu  1 2 3 4\ncpu0 1 2 3 4\ncpu1 1 2 3 4\n");
    tree.file("proc/loadavg", "1.52 1.52 1.52 2/2535 47452\n");
    tree.file("sys/devices/system/cpu/cpu0/cpufreq/scaling_cur_freq", "garbage\n");
    tree.file("sys/devices/system/cpu/cpu1/cpufreq/scaling_cur_freq", "800000\n");
    let mut registry = Registry::from_collectors(vec![cpu()], tree.reader());
    let snapshot = registry.collect_all(0, 0).expect("a snapshot");

    let sample = snapshot.cpu.expect("the counters are there");
    assert_eq!(sample.per_core.len(), 2);
    assert!(sample.freq_khz[0].is_none());
    assert_eq!(sample.freq_khz[1].map(|f| f.as_khz()), Some(800_000));
    assert_eq!(snapshot.errors.len(), 1);
    assert_eq!(snapshot.errors[0].collector, "cpu");
    assert!(snapshot.errors[0].message.contains("garbage"), "{:?}", snapshot.errors);
}

#[test]
fn a_counter_that_is_none_is_sanitised_in_its_error() {
    let mut tree = TempTree::new("counter-sanitised");
    tree.file("proc/diskstats", "8 0 sda 1 2 3 4 \u{1b}[31mfive 6 7 8 9 10 11\n");
    tree.file(
        "proc/net/tcp",
        "header\n0: \u{1b}[31mlocal 0100007F:1F90 01 0:0 0:0 0 1000 0 55123\n",
    );
    let mut registry = Registry::from_collectors(vec![disk(), connections()], tree.reader());
    let snapshot = registry.collect_all(0, 0).expect("a snapshot");
    assert_eq!(snapshot.errors.len(), 2);
    assert!(snapshot.errors[0].message.ends_with(": \"five\""), "{:?}", snapshot.errors);
    assert!(snapshot.errors[1].message.ends_with(" \"local\""), "{:?}", snapshot.errors);
}

#[test]
fn only_what_a_run_reads_need_be_recorded() {
    let mut config = Config::new();
    assert!(!rustmon::collects(&config, "cpu"), "there is no live display");
    config.once = true;
    config.skip = vec!["gpu".to_string()];
    assert!(rustmon::collects(&config, "cpu"));
    assert!(!rustmon::collects(&config, "gpu"));
    config.summary = true;
    config.only = vec!["disk".to_string()];
    let summarised: Vec<&str> = known_collectors()
        .into_iter()
        .filter(|name| rustmon::collects(&config, name))
        .collect();
    assert_eq!(summarised, vec!["cpu", "memory", "thermal"]);
}

#[test]
fn verbose_errors_hold_no_control_characters() {
    let mut tree = TempTree::new("hostile-errors");
    tree.file("proc/stat", "cpu  \u{1b}[2J 2 3 4\n");
    tree.file("proc/meminfo", "Mem\u{7}Total\n");
    tree.file("proc/diskstats", "8 0 s\u{1b}]0;x\u{7}da 1\n");
    tree.file("proc/net/dev", "h\nh\n\u{9b}31m: 1\n");
    tree.file("proc/net/tcp", "h\n0: \u{1b}[31mx 2 3 4 5 6 7 8 9\n");
    let mut config = Config::new();
    config.once = true;
    config.verbose = true;
    let (code, document) = rustmon::run(&config, tree.reader(), 0, 0).expect("runs");
    assert_eq!(code, 0);
    let written = document.plain_text().expect("no figures");
    assert_eq!(written.matches("parsing proc/").count(), 5, "{written}");
    assert!(!written.chars().any(|c| c.is_control() && c != '\n'), "{written:?}");
}
