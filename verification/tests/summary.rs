//! The summary for a prompt.

use rustmon::error::{IoErrorKind, IoFailure};
use rustmon::sample::{CollectorError, HwmonChip, Snapshot, TempSensor, ThermalSample};
use rustmon::summary::{plural, run, summarise, write_summary, Status};
use rustmon::sysfs::{PathFacts, SysfsReader};
use rustmon::units::MilliCelsius;

/// A tree of files that stands in for the filesystem below a root.
struct TempTree {
    files: Vec<(String, Vec<u8>)>,
    dirs: Vec<String>,
    links: Vec<(String, String)>,
}

const ROOT: &str = "/fixture";

fn failed(kind: IoErrorKind) -> IoFailure {
    IoFailure { kind, errno: None, message: "it failed".to_string() }
}

#[allow(dead_code)]
impl TempTree {
    fn new(_tag: &str) -> TempTree {
        TempTree { files: Vec::new(), dirs: Vec::new(), links: Vec::new() }
    }

    fn dir(&mut self, rel: &str) -> &mut TempTree {
        let mut upto = String::new();
        for part in rel.split('/') {
            if !upto.is_empty() {
                upto.push('/');
            }
            upto.push_str(part);
            if !self.dirs.contains(&upto) {
                self.dirs.push(upto.clone());
            }
        }
        self
    }

    fn parent(&mut self, rel: &str) {
        if let Some((parent, _)) = rel.rsplit_once('/') {
            self.dir(parent);
        }
    }

    fn file(&mut self, rel: &str, contents: &str) -> &mut TempTree {
        self.parent(rel);
        self.files.retain(|(path, _)| path != rel);
        self.files.push((rel.to_string(), contents.as_bytes().to_vec()));
        self
    }

    fn symlink(&mut self, rel: &str, target: &str) -> &mut TempTree {
        self.parent(rel);
        self.links.push((rel.to_string(), target.to_string()));
        self
    }

    fn remove(&mut self, rel: &str) -> &mut TempTree {
        let below = format!("{rel}/");
        self.files.retain(|(path, _)| path != rel && !path.starts_with(&below));
        self.dirs.retain(|path| path != rel && !path.starts_with(&below));
        self.links.retain(|(path, _)| path != rel && !path.starts_with(&below));
        self
    }

    fn entries(&self, rel: &str) -> Vec<Option<String>> {
        let below = if rel.is_empty() { String::new() } else { format!("{rel}/") };
        let mut names: Vec<Option<String>> = Vec::new();
        let paths = self.dirs.iter().chain(self.files.iter().map(|(p, _)| p)).chain(
            self.links.iter().map(|(p, _)| p),
        );
        for path in paths {
            if let Some(rest) = path.strip_prefix(&below) {
                if !rest.is_empty() && !rest.contains('/') {
                    names.push(Some(rest.to_string()));
                }
            }
        }
        names
    }

    /// The facts of what really is at `at`, recorded under `path`.
    fn facts(&self, path: &str, at: &str) -> PathFacts {
        let canonical = if at.is_empty() { ROOT.to_string() } else { format!("{ROOT}/{at}") };
        let file = self.files.iter().find(|(p, _)| p == at);
        let is_dir = at.is_empty() || self.dirs.contains(&at.to_string());
        PathFacts {
            path: path.to_string(),
            canonical: Ok(canonical),
            contents: match file {
                Some((_, bytes)) => Ok(bytes.clone()),
                None => Err(failed(IoErrorKind::Other)),
            },
            entries: if is_dir { Ok(self.entries(at)) } else { Err(failed(IoErrorKind::Other)) },
            target: Err(failed(IoErrorKind::Other)),
        }
    }

    fn reader(&self) -> SysfsReader {
        let mut reader = match SysfsReader::with_root(ROOT, Ok(ROOT.to_string()), true) {
            Ok(reader) => reader,
            Err(e) => panic!("{}", e.to_string()),
        };
        let mut paths: Vec<String> = vec![String::new()];
        paths.extend(self.dirs.iter().cloned());
        paths.extend(self.files.iter().map(|(p, _)| p.clone()));
        for path in &paths {
            reader.record(self.facts(path, path));
        }
        for (path, target) in &self.links {
            let inside = target.strip_prefix("/fixture/");
            let mut link = match inside {
                Some(at) => self.facts(path, at),
                None => self.facts(path, path),
            };
            if inside.is_none() {
                link.canonical = if target.starts_with('/') {
                    Ok(target.clone())
                } else {
                    Err(failed(IoErrorKind::NotFound))
                };
                link.entries = Ok(Vec::new());
            }
            link.target = Ok(target.clone());
            reader.record(link);
            if let Some(at) = inside {
                for real in &paths {
                    if let Some(rest) = real.strip_prefix(&format!("{at}/")) {
                        reader.record(self.facts(&format!("{path}/{rest}"), real));
                    }
                }
            }
        }
        reader
    }
}

fn sensor(value: i64, max: Option<i64>, crit: Option<i64>) -> TempSensor {
    TempSensor {
        label: "test".to_string(),
        value: MilliCelsius::from_millidegrees(value),
        max: max.map(MilliCelsius::from_millidegrees),
        crit: crit.map(MilliCelsius::from_millidegrees),
    }
}

fn snapshot_with_temps(temps: Vec<TempSensor>) -> Snapshot {
    let mut s = Snapshot::now(0, 0);
    s.thermal = Some(ThermalSample {
        chips: vec![HwmonChip {
            name: "chip0".to_string(),
            temps,
            fans: Vec::new(),
        }],
    });
    s
}

#[test]
fn a_snapshot_with_nothing_notable_is_ok_with_no_headline() {
    let snapshot = snapshot_with_temps(vec![sensor(40_000, Some(90_000), Some(100_000))]);
    let (status, headline) = summarise(&snapshot);
    assert_eq!(status, Status::Fine);
    assert!(headline.is_empty());
}

#[test]
fn an_empty_snapshot_is_ok() {
    assert_eq!(summarise(&Snapshot::now(0, 0)).0, Status::Fine);
}

#[test]
fn a_warning_sensor_yields_warning_status_and_a_count() {
    let snapshot = snapshot_with_temps(vec![sensor(90_000, Some(90_000), Some(100_000))]);
    let (status, headline) = summarise(&snapshot);
    assert_eq!(status, Status::Warning);
    assert_eq!(headline, "1 warning");
}

#[test]
fn a_critical_sensor_outranks_warning_status() {
    let snapshot = snapshot_with_temps(vec![
        sensor(90_000, Some(90_000), Some(100_000)),
        sensor(150_000, Some(90_000), Some(100_000)),
    ]);
    let (status, headline) = summarise(&snapshot);
    assert_eq!(status, Status::Critical);
    assert_eq!(headline, "1 critical, 1 warning");
}

#[test]
fn multiple_warnings_pluralise_correctly() {
    let snapshot = snapshot_with_temps(vec![
        sensor(90_000, Some(90_000), Some(100_000)),
        sensor(91_000, Some(90_000), Some(100_000)),
    ]);
    assert_eq!(summarise(&snapshot).1, "2 warnings");
}

#[test]
fn a_collector_error_alone_yields_warning_status() {
    let mut snapshot = Snapshot::now(0, 0);
    snapshot.errors.push(CollectorError {
        collector: "thermal",
        message: "boom".to_string(),
    });
    let (status, headline) = summarise(&snapshot);
    assert_eq!(status, Status::Warning);
    assert_eq!(headline, "1 collector error");
}

#[test]
fn unknown_severity_sensors_do_not_count_as_warnings() {
    let snapshot = snapshot_with_temps(vec![sensor(90_000, None, None)]);
    assert_eq!(summarise(&snapshot).0, Status::Fine);
}

#[test]
fn write_summary_produces_valid_newline_terminated_json() {
    let text = write_summary(Status::Warning, "2 warnings").plain_text().expect("nothing but text");
    assert!(text.ends_with('\n'));
    assert!(text.contains("\"status\""));
    assert!(text.contains("\"warning\""));
    assert!(text.contains("\"headline\""));
    assert!(text.contains("2 warnings"));
}

#[test]
fn one_is_not_plural() {
    assert_eq!(plural(1, "warning"), "1 warning");
    assert_eq!(plural(0, "warning"), "0 warnings");
    assert_eq!(plural(12, "collector error"), "12 collector errors");
}

#[test]
fn the_summary_of_a_hot_machine_is_one_line() {
    let mut tree = TempTree::new("summary-hot");
    tree.file("proc/stat", "cpu  1 2 3 4\n");
    tree.file("proc/loadavg", "1.52 1.52 1.52 2/2535 47452\n");
    tree.file("proc/meminfo", "MemTotal: 1000 kB\n");
    tree.file("sys/class/hwmon/hwmon0/name", "coretemp\n");
    tree.file("sys/class/hwmon/hwmon0/temp1_input", "99000\n");
    tree.file("sys/class/hwmon/hwmon0/temp1_crit", "95000\n");
    let (code, out) = run(tree.reader(), 0, 0).expect("runs");
    assert_eq!(code, 0);
    assert_eq!(
        out.plain_text().as_deref(),
        Some("{\"status\":\"critical\",\"headline\":\"1 critical\"}\n")
    );

    tree.file("sys/class/hwmon/hwmon0/temp1_input", "40000\n");
    let (code, out) = run(tree.reader(), 0, 0).expect("runs");
    assert_eq!(code, 1);
    assert_eq!(out.plain_text().as_deref(), Some(""));
}
