//! Temperatures and fans.

use rustmon::collector::Collector;
use rustmon::collectors::thermal::{
    build_sample, read_chip, read_hwmon_chips, sensor_indices, ThermalCollector,
    MAX_SENSORS_PER_CHIP,
};
use rustmon::error::{IoErrorKind, IoFailure};
use rustmon::sample::{Snapshot, TempSeverity};
use rustmon::sysfs::{PathFacts, SysfsReader};

/// A tree of files that stands in for the filesystem below a root.
struct TempTree {
    files: Vec<(String, Vec<u8>)>,
    dirs: Vec<String>,
    links: Vec<(String, String)>,
}

const ROOT: &str = "/fixture";

fn failed(kind: IoErrorKind) -> IoFailure {
    IoFailure { kind, errno: None, message: "it failed".to_string() }
}

#[allow(dead_code)]
impl TempTree {
    fn new(_tag: &str) -> TempTree {
        TempTree { files: Vec::new(), dirs: Vec::new(), links: Vec::new() }
    }

    fn dir(&mut self, rel: &str) -> &mut TempTree {
        let mut upto = String::new();
        for part in rel.split('/') {
            if !upto.is_empty() {
                upto.push('/');
            }
            upto.push_str(part);
            if !self.dirs.contains(&upto) {
                self.dirs.push(upto.clone());
            }
        }
        self
    }

    fn parent(&mut self, rel: &str) {
        if let Some((parent, _)) = rel.rsplit_once('/') {
            self.dir(parent);
        }
    }

    fn file(&mut self, rel: &str, contents: &str) -> &mut TempTree {
        self.parent(rel);
        self.files.retain(|(path, _)| path != rel);
        self.files.push((rel.to_string(), contents.as_bytes().to_vec()));
        self
    }

    fn symlink(&mut self, rel: &str, target: &str) -> &mut TempTree {
        self.parent(rel);
        self.links.push((rel.to_string(), target.to_string()));
        self
    }

    fn remove(&mut self, rel: &str) -> &mut TempTree {
        let below = format!("{rel}/");
        self.files.retain(|(path, _)| path != rel && !path.starts_with(&below));
        self.dirs.retain(|path| path != rel && !path.starts_with(&below));
        self.links.retain(|(path, _)| path != rel && !path.starts_with(&below));
        self
    }

    fn entries(&self, rel: &str) -> Vec<Option<String>> {
        let below = if rel.is_empty() { String::new() } else { format!("{rel}/") };
        let mut names: Vec<Option<String>> = Vec::new();
        let paths = self.dirs.iter().chain(self.files.iter().map(|(p, _)| p)).chain(
            self.links.iter().map(|(p, _)| p),
        );
        for path in paths {
            if let Some(rest) = path.strip_prefix(&below) {
                if !rest.is_empty() && !rest.contains('/') {
                    names.push(Some(rest.to_string()));
                }
            }
        }
        names
    }

    /// The facts of what really is at `at`, recorded under `path`.
    fn facts(&self, path: &str, at: &str) -> PathFacts {
        let canonical = if at.is_empty() { ROOT.to_string() } else { format!("{ROOT}/{at}") };
        let file = self.files.iter().find(|(p, _)| p == at);
        let is_dir = at.is_empty() || self.dirs.contains(&at.to_string());
        PathFacts {
            path: path.to_string(),
            canonical: Ok(canonical),
            contents: match file {
                Some((_, bytes)) => Ok(bytes.clone()),
                None => Err(failed(IoErrorKind::Other)),
            },
            entries: if is_dir { Ok(self.entries(at)) } else { Err(failed(IoErrorKind::Other)) },
            target: Err(failed(IoErrorKind::Other)),
        }
    }

    fn reader(&self) -> SysfsReader {
        let mut reader = match SysfsReader::with_root(ROOT, Ok(ROOT.to_string()), true) {
            Ok(reader) => reader,
            Err(e) => panic!("{}", e.to_string()),
        };
        let mut paths: Vec<String> = vec![String::new()];
        paths.extend(self.dirs.iter().cloned());
        paths.extend(self.files.iter().map(|(p, _)| p.clone()));
        for path in &paths {
            reader.record(self.facts(path, path));
        }
        for (path, target) in &self.links {
            let inside = target.strip_prefix("/fixture/");
            let mut link = match inside {
                Some(at) => self.facts(path, at),
                None => self.facts(path, path),
            };
            if inside.is_none() {
                link.canonical = if target.starts_with('/') {
                    Ok(target.clone())
                } else {
                    Err(failed(IoErrorKind::NotFound))
                };
                link.entries = Ok(Vec::new());
            }
            link.target = Ok(target.clone());
            reader.record(link);
            if let Some(at) = inside {
                for real in &paths {
                    if let Some(rest) = real.strip_prefix(&format!("{at}/")) {
                        reader.record(self.facts(&format!("{path}/{rest}"), real));
                    }
                }
            }
        }
        reader
    }
}

#[test]
fn sensor_indices_are_not_assumed_contiguous() {
    let mut tree = TempTree::new("thermal-indices");
    tree.dir("hwmon0");
    tree.file("hwmon0/temp1_input", "50000\n");
    tree.file("hwmon0/temp3_input", "39125\n");
    tree.file("hwmon0/temp4_input", "40500\n");
    tree.file("hwmon0/temp2_label", "ghost\n");
    let r = tree.reader();

    let indices = sensor_indices(&r, "hwmon0", "temp").expect("lists fine");
    assert_eq!(indices, vec![1, 3, 4]);
}

#[test]
fn sensor_indices_caps_at_the_per_chip_maximum() {
    let mut tree = TempTree::new("thermal-cap");
    tree.dir("hwmon0");
    for i in 0..MAX_SENSORS_PER_CHIP + 50 {
        tree.file(&format!("hwmon0/temp{i}_input"), "1000\n");
    }
    let r = tree.reader();

    let indices = sensor_indices(&r, "hwmon0", "temp").expect("lists fine");
    assert_eq!(indices.len(), MAX_SENSORS_PER_CHIP);
}

#[test]
fn a_missing_chip_directory_yields_no_indices_not_an_error() {
    let mut tree = TempTree::new("thermal-missing-dir");
    tree.dir("hwmon");
    let r = tree.reader();

    assert_eq!(
        sensor_indices(&r, "hwmon/hwmon0", "temp").expect("not an error"),
        Vec::<u32>::new()
    );
}

#[test]
fn a_chip_with_no_labels_falls_back_to_a_synthetic_one() {
    let mut tree = TempTree::new("thermal-no-label");
    tree.file("hwmon0/name", "r8169_0_d00:00\n");
    tree.file("hwmon0/temp1_input", "39000\n");
    tree.file("hwmon0/temp1_max", "120000\n");
    let r = tree.reader();

    let chip = read_chip(&r, "hwmon0")
        .expect("reads fine")
        .expect("chip has a sensor");

    assert_eq!(chip.name, "r8169_0_d00:00");
    assert_eq!(chip.temps.len(), 1);
    assert_eq!(chip.temps[0].label, "r8169_0_d00:00 temp1");
    assert_eq!(chip.temps[0].value.as_millidegrees(), 39_000);
    assert_eq!(chip.temps[0].max.map(|t| t.as_millidegrees()), Some(120_000));
    assert_eq!(chip.temps[0].crit, None);
    assert!(chip.fans.is_empty());
}

#[test]
fn a_chip_with_fans_but_no_temps() {
    let mut tree = TempTree::new("thermal-fans-only");
    tree.file("hwmon0/name", "amdgpu\n");
    tree.file("hwmon0/fan1_input", "1850\n");
    tree.file("hwmon0/fan1_label", "intake\n");
    let r = tree.reader();

    let chip = read_chip(&r, "hwmon0")
        .expect("reads fine")
        .expect("chip has a sensor");

    assert!(chip.temps.is_empty());
    assert_eq!(chip.fans.len(), 1);
    assert_eq!(chip.fans[0].label, "intake");
    assert_eq!(chip.fans[0].rpm.as_u64(), 1_850);
}

#[test]
fn a_garbage_temp_input_skips_only_that_sensor() {
    let mut tree = TempTree::new("thermal-garbage");
    tree.file("hwmon0/name", "coretemp\n");
    tree.file("hwmon0/temp1_input", "not a number\n");
    tree.file("hwmon0/temp2_input", "45000\n");
    let r = tree.reader();

    let chip = read_chip(&r, "hwmon0")
        .expect("a garbled sensor must not be a hard error")
        .expect("the other sensor still makes this a real chip");

    assert_eq!(chip.temps.len(), 1);
    assert_eq!(chip.temps[0].value.as_millidegrees(), 45_000);
}

#[test]
fn a_garbage_trip_point_does_not_lose_the_reading() {
    let mut tree = TempTree::new("thermal-garbage-trip");
    tree.file("hwmon0/name", "coretemp\n");
    tree.file("hwmon0/temp1_input", "45000\n");
    tree.file("hwmon0/temp1_max", "not a number\n");
    let r = tree.reader();

    let chip = read_chip(&r, "hwmon0").expect("reads fine").expect("has a sensor");
    assert_eq!(chip.temps[0].value.as_millidegrees(), 45_000);
    assert_eq!(chip.temps[0].max, None);
}

#[test]
fn labels_are_sanitised_before_reaching_the_sample() {
    let mut tree = TempTree::new("thermal-hostile-label");
    tree.file("hwmon0/name", "coretemp\n");
    tree.file("hwmon0/temp1_input", "45000\n");
    tree.file("hwmon0/temp1_label", "\u{1b}[2JPackage\u{1b}[0m id 0\n");
    let r = tree.reader();

    let chip = read_chip(&r, "hwmon0").expect("reads fine").expect("has a sensor");
    assert_eq!(chip.temps[0].label, "Package id 0");
}

#[test]
fn a_chip_reporting_nothing_is_treated_as_absent() {
    let mut tree = TempTree::new("thermal-empty-chip");
    tree.file("hwmon0/name", "ghost\n");
    tree.file("hwmon0/update_interval", "1000\n");
    let r = tree.reader();

    assert!(read_chip(&r, "hwmon0").expect("reads fine").is_none());
}

#[test]
fn a_chip_with_no_name_file_is_skipped() {
    let mut tree = TempTree::new("thermal-no-name");
    tree.file("hwmon0/temp1_input", "45000\n");
    let r = tree.reader();

    assert!(read_chip(&r, "hwmon0").expect("reads fine").is_none());
}

#[test]
fn an_empty_hwmon_directory_yields_no_chips() {
    let mut tree = TempTree::new("thermal-empty-hwmon");
    tree.dir("sys/class/hwmon");
    let r = tree.reader();

    assert!(read_hwmon_chips(&r).expect("not an error").is_empty());
    assert!(build_sample(Vec::new()).is_none());
}

#[test]
fn a_missing_hwmon_directory_yields_no_chips() {
    let mut tree = TempTree::new("thermal-no-hwmon-at-all");
    tree.dir("sys");
    let r = tree.reader();

    assert!(read_hwmon_chips(&r).expect("not an error").is_empty());
}

#[test]
fn parses_a_real_multi_sensor_chip() {
    let mut tree = TempTree::new("thermal-real-k10temp");
    tree.file("sys/class/hwmon/hwmon0/name", "k10temp\n");
    tree.file("sys/class/hwmon/hwmon0/temp1_label", "Tctl\n");
    tree.file("sys/class/hwmon/hwmon0/temp1_input", "50000\n");
    tree.file("sys/class/hwmon/hwmon0/temp3_label", "Tccd1\n");
    tree.file("sys/class/hwmon/hwmon0/temp3_input", "39125\n");
    tree.file("sys/class/hwmon/hwmon0/temp4_label", "Tccd2\n");
    tree.file("sys/class/hwmon/hwmon0/temp4_input", "40500\n");
    let r = tree.reader();

    let chips = read_hwmon_chips(&r).expect("reads fine");
    assert_eq!(chips.len(), 1);
    assert_eq!(chips[0].name, "k10temp");

    let labels: Vec<&str> = chips[0].temps.iter().map(|t| t.label.as_str()).collect();
    assert_eq!(labels, vec!["Tctl", "Tccd1", "Tccd2"]);

    let sample = build_sample(chips).expect("non-empty");
    assert_eq!(sample.chips[0].temps[0].severity(), TempSeverity::Unknown, "no trip points on this chip");
}

#[test]
fn falls_back_to_thermal_zones_when_hwmon_is_empty() {
    let mut tree = TempTree::new("thermal-zone-fallback");
    tree.dir("sys/class/hwmon");
    tree.file("sys/class/thermal/thermal_zone0/type", "x86_pkg_temp\n");
    tree.file("sys/class/thermal/thermal_zone0/temp", "52000\n");
    tree.file("sys/class/thermal/thermal_zone1/type", "acpitz\n");
    tree.file("sys/class/thermal/thermal_zone1/temp", "48000\n");
    tree.dir("sys/class/thermal/cooling_device0");
    let r = tree.reader();

    let mut collector = ThermalCollector::new();
    let mut snapshot = Snapshot::now(0, 0);
    collector.collect(&r, &mut snapshot).expect("collects fine");

    let thermal = snapshot.thermal.expect("fallback produced a sample");
    assert_eq!(thermal.chips.len(), 1);
    assert_eq!(thermal.chips[0].name, "thermal_zone");
    assert_eq!(thermal.chips[0].temps.len(), 2);
    assert!(thermal.chips[0]
        .temps
        .iter()
        .any(|t| t.label == "x86_pkg_temp" && t.value.as_millidegrees() == 52_000));
}

#[test]
fn no_sensors_anywhere_yields_no_thermal_sample() {
    let mut tree = TempTree::new("thermal-nothing");
    tree.dir("sys/class/hwmon");
    tree.dir("sys/class/thermal");
    let r = tree.reader();

    let mut collector = ThermalCollector::new();
    let mut snapshot = Snapshot::now(0, 0);
    collector.collect(&r, &mut snapshot).expect("collects fine");

    assert!(snapshot.thermal.is_none());
    assert!(snapshot.errors.is_empty());
}

#[test]
fn probe_is_true_only_when_something_is_actually_there() {
    let mut empty = TempTree::new("thermal-probe-empty");
    empty.dir("sys/class/hwmon");
    assert!(!ThermalCollector::new().probe(&empty.reader()));

    let mut with_chip = TempTree::new("thermal-probe-chip");
    with_chip.dir("sys/class/hwmon/hwmon0");
    assert!(ThermalCollector::new().probe(&with_chip.reader()));

    let mut with_zone_only = TempTree::new("thermal-probe-zone");
    with_zone_only.dir("sys/class/hwmon");
    with_zone_only.dir("sys/class/thermal");
    assert!(ThermalCollector::new().probe(&with_zone_only.reader()));

    let mut nothing = TempTree::new("thermal-probe-nothing");
    nothing.dir("sys");
    assert!(!ThermalCollector::new().probe(&nothing.reader()));
}

#[test]
fn a_disappearing_chip_is_dropped_on_the_next_collect() {
    let mut tree = TempTree::new("thermal-cache-disappear");
    tree.file("sys/class/hwmon/hwmon0/name", "keep\n");
    tree.file("sys/class/hwmon/hwmon0/temp1_input", "40000\n");
    tree.file("sys/class/hwmon/hwmon1/name", "gone\n");
    tree.file("sys/class/hwmon/hwmon1/temp1_input", "50000\n");
    let r = tree.reader();

    let mut collector = ThermalCollector::new();
    let mut snapshot = Snapshot::now(0, 0);
    collector.collect(&r, &mut snapshot).expect("first collect");
    assert_eq!(snapshot.thermal.expect("has chips").chips.len(), 2);

    tree.remove("sys/class/hwmon/hwmon1");

    let r = tree.reader();
    let mut snapshot = Snapshot::now(0, 0);
    collector.collect(&r, &mut snapshot).expect("second collect after removal");
    let chips = snapshot.thermal.expect("still has a chip").chips;
    assert_eq!(chips.len(), 1);
    assert_eq!(chips[0].name, "keep");
}

#[test]
fn a_new_chip_is_not_picked_up_by_itself() {
    let mut tree = TempTree::new("thermal-cache-new-chip-alone");
    tree.file("sys/class/hwmon/hwmon0/name", "original\n");
    tree.file("sys/class/hwmon/hwmon0/temp1_input", "40000\n");
    let r = tree.reader();

    let mut collector = ThermalCollector::new();
    let mut snapshot = Snapshot::now(0, 0);
    collector.collect(&r, &mut snapshot).expect("first collect");
    assert_eq!(snapshot.thermal.expect("has a chip").chips.len(), 1);

    tree.file("sys/class/hwmon/hwmon1/name", "new-arrival\n");
    tree.file("sys/class/hwmon/hwmon1/temp1_input", "45000\n");

    let r = tree.reader();
    let mut snapshot = Snapshot::now(0, 0);
    collector.collect(&r, &mut snapshot).expect("second collect");
    assert_eq!(
        snapshot.thermal.expect("still has the original chip").chips.len(),
        1,
        "a chip appearing alone must not be picked up until something else triggers a re-scan"
    );
}

#[test]
fn a_new_chip_is_picked_up_when_another_disappears_in_the_same_refresh() {
    let mut tree = TempTree::new("thermal-cache-swap");
    tree.file("sys/class/hwmon/hwmon0/name", "leaving\n");
    tree.file("sys/class/hwmon/hwmon0/temp1_input", "40000\n");
    let r = tree.reader();

    let mut collector = ThermalCollector::new();
    let mut snapshot = Snapshot::now(0, 0);
    collector.collect(&r, &mut snapshot).expect("first collect");

    tree.remove("sys/class/hwmon/hwmon0");
    tree.file("sys/class/hwmon/hwmon1/name", "arriving\n");
    tree.file("sys/class/hwmon/hwmon1/temp1_input", "45000\n");

    let r = tree.reader();
    let mut snapshot = Snapshot::now(0, 0);
    collector.collect(&r, &mut snapshot).expect("second collect");
    let chips = snapshot.thermal.expect("has the new chip").chips;
    assert_eq!(chips.len(), 1);
    assert_eq!(chips[0].name, "arriving");
}
