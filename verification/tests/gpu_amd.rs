//! Graphics cards of one vendor.

use rustmon::collectors::gpu::amd::{find_hwmon_dir, read, read_hwmon_metrics};
use rustmon::error::{IoErrorKind, IoFailure};
use rustmon::sample::GpuVendor;
use rustmon::sysfs::{PathFacts, SysfsReader};
use rustmon::units::Percent;

/// A tree of files that stands in for the filesystem below a root.
struct TempTree {
    files: Vec<(String, Vec<u8>)>,
    dirs: Vec<String>,
    links: Vec<(String, String)>,
}

const ROOT: &str = "/fixture";

fn failed(kind: IoErrorKind) -> IoFailure {
    IoFailure { kind, errno: None, message: "it failed".to_string() }
}

#[allow(dead_code)]
impl TempTree {
    fn new(_tag: &str) -> TempTree {
        TempTree { files: Vec::new(), dirs: Vec::new(), links: Vec::new() }
    }

    fn dir(&mut self, rel: &str) -> &mut TempTree {
        let mut upto = String::new();
        for part in rel.split('/') {
            if !upto.is_empty() {
                upto.push('/');
            }
            upto.push_str(part);
            if !self.dirs.contains(&upto) {
                self.dirs.push(upto.clone());
            }
        }
        self
    }

    fn parent(&mut self, rel: &str) {
        if let Some((parent, _)) = rel.rsplit_once('/') {
            self.dir(parent);
        }
    }

    fn file(&mut self, rel: &str, contents: &str) -> &mut TempTree {
        self.parent(rel);
        self.files.retain(|(path, _)| path != rel);
        self.files.push((rel.to_string(), contents.as_bytes().to_vec()));
        self
    }

    fn symlink(&mut self, rel: &str, target: &str) -> &mut TempTree {
        self.parent(rel);
        self.links.push((rel.to_string(), target.to_string()));
        self
    }

    fn remove(&mut self, rel: &str) -> &mut TempTree {
        let below = format!("{rel}/");
        self.files.retain(|(path, _)| path != rel && !path.starts_with(&below));
        self.dirs.retain(|path| path != rel && !path.starts_with(&below));
        self.links.retain(|(path, _)| path != rel && !path.starts_with(&below));
        self
    }

    fn entries(&self, rel: &str) -> Vec<Option<String>> {
        let below = if rel.is_empty() { String::new() } else { format!("{rel}/") };
        let mut names: Vec<Option<String>> = Vec::new();
        let paths = self.dirs.iter().chain(self.files.iter().map(|(p, _)| p)).chain(
            self.links.iter().map(|(p, _)| p),
        );
        for path in paths {
            if let Some(rest) = path.strip_prefix(&below) {
                if !rest.is_empty() && !rest.contains('/') {
                    names.push(Some(rest.to_string()));
                }
            }
        }
        names
    }

    /// The facts of what really is at `at`, recorded under `path`.
    fn facts(&self, path: &str, at: &str) -> PathFacts {
        let canonical = if at.is_empty() { ROOT.to_string() } else { format!("{ROOT}/{at}") };
        let file = self.files.iter().find(|(p, _)| p == at);
        let is_dir = at.is_empty() || self.dirs.contains(&at.to_string());
        PathFacts {
            path: path.to_string(),
            canonical: Ok(canonical),
            contents: match file {
                Some((_, bytes)) => Ok(bytes.clone()),
                None => Err(failed(IoErrorKind::Other)),
            },
            entries: if is_dir { Ok(self.entries(at)) } else { Err(failed(IoErrorKind::Other)) },
            target: Err(failed(IoErrorKind::Other)),
        }
    }

    fn reader(&self) -> SysfsReader {
        let mut reader = match SysfsReader::with_root(ROOT, Ok(ROOT.to_string()), true) {
            Ok(reader) => reader,
            Err(e) => panic!("{}", e.to_string()),
        };
        let mut paths: Vec<String> = vec![String::new()];
        paths.extend(self.dirs.iter().cloned());
        paths.extend(self.files.iter().map(|(p, _)| p.clone()));
        for path in &paths {
            reader.record(self.facts(path, path));
        }
        for (path, target) in &self.links {
            let inside = target.strip_prefix("/fixture/");
            let mut link = match inside {
                Some(at) => self.facts(path, at),
                None => self.facts(path, path),
            };
            if inside.is_none() {
                link.canonical = if target.starts_with('/') {
                    Ok(target.clone())
                } else {
                    Err(failed(IoErrorKind::NotFound))
                };
                link.entries = Ok(Vec::new());
            }
            link.target = Ok(target.clone());
            reader.record(link);
            if let Some(at) = inside {
                for real in &paths {
                    if let Some(rest) = real.strip_prefix(&format!("{at}/")) {
                        reader.record(self.facts(&format!("{path}/{rest}"), real));
                    }
                }
            }
        }
        reader
    }
}

fn percent(p: Percent) -> f64 {
    let (part, whole) = p.ratio();
    part as f64 * 100.0 / whole as f64
}

fn real_amd_tree() -> TempTree {
    let mut tree = TempTree::new("gpu-amd-real");
    tree.file("sys/class/drm/card1/device/gpu_busy_percent", "2\n");
    tree.file("sys/class/drm/card1/device/mem_info_vram_total", "17095983104\n");
    tree.file("sys/class/drm/card1/device/mem_info_vram_used", "1811267584\n");
    tree.file("sys/class/drm/card1/device/hwmon/hwmon5/temp1_input", "26000\n");
    tree.file("sys/class/drm/card1/device/hwmon/hwmon5/power1_average", "9000000\n");
    tree.file("sys/class/drm/card1/device/hwmon/hwmon5/fan1_input", "0\n");
    tree
}

#[test]
fn reads_a_real_amd_card_end_to_end() {
    let tree = real_amd_tree();
    let r = tree.reader();

    let gpu = read(&r, "card1").expect("reads fine").expect("AMD always yields a Gpu");

    assert_eq!(gpu.vendor, GpuVendor::Amd);
    assert_eq!(gpu.name, "card1");
    assert!((percent(gpu.busy.expect("busy present")) - 2.0).abs() < 1e-9);
    assert_eq!(gpu.vram_total.expect("total present").as_u64(), 17_095_983_104);
    assert_eq!(gpu.vram_used.expect("used present").as_u64(), 1_811_267_584);
    assert_eq!(gpu.temp.expect("temp present").as_millidegrees(), 26_000);
    assert_eq!(gpu.power.expect("power present").as_microwatts() as f64 / 1e6, 9.0);
    assert_eq!(gpu.fan_rpm.expect("fan present").as_u64(), 0);
    assert_eq!(gpu.freq_khz, None, "AMD clock isn't wired up yet — see the field's doc");
}

#[test]
fn power_falls_back_to_power1_input_when_average_is_absent() {
    let mut tree = TempTree::new("gpu-amd-power-fallback");
    tree.file("sys/class/drm/card0/device/hwmon/hwmon0/power1_input", "12000000\n");
    let r = tree.reader();

    let (_, power, _) = read_hwmon_metrics(&r, "sys/class/drm/card0/device/hwmon/hwmon0")
        .expect("reads fine");
    assert_eq!(power.expect("fallback found it").as_microwatts() as f64 / 1e6, 12.0);
}

#[test]
fn a_card_with_no_hwmon_node_still_yields_a_gpu() {
    let mut tree = TempTree::new("gpu-amd-no-hwmon");
    tree.file("sys/class/drm/card0/device/gpu_busy_percent", "0\n");
    let r = tree.reader();

    let gpu = read(&r, "card0").expect("reads fine").expect("still a Gpu");
    assert_eq!(gpu.temp, None);
    assert_eq!(gpu.power, None);
    assert_eq!(gpu.fan_rpm, None);
}

#[test]
fn a_completely_empty_device_dir_still_yields_a_gpu() {
    let mut tree = TempTree::new("gpu-amd-empty");
    tree.dir("sys/class/drm/card0/device");
    let r = tree.reader();

    let gpu = read(&r, "card0").expect("reads fine").expect("identity alone is enough");
    assert_eq!(gpu.name, "card0");
    assert_eq!(gpu.busy, None);
}

#[test]
fn find_hwmon_dir_picks_the_lowest_numbered_node() {
    let mut tree = TempTree::new("gpu-amd-hwmon-pick");
    tree.dir("sys/class/drm/card0/device/hwmon/hwmon9");
    tree.dir("sys/class/drm/card0/device/hwmon/hwmon2");
    let r = tree.reader();

    let found = find_hwmon_dir(&r, "sys/class/drm/card0/device")
        .expect("reads fine")
        .expect("a hwmon node exists");
    assert!(found.ends_with("hwmon2"), "{found:?}");
}

#[test]
fn find_hwmon_dir_is_none_when_absent() {
    let mut tree = TempTree::new("gpu-amd-hwmon-absent");
    tree.dir("sys/class/drm/card0/device");
    let r = tree.reader();

    assert!(find_hwmon_dir(&r, "sys/class/drm/card0/device")
        .expect("not an error")
        .is_none());
}

#[test]
fn nodes_are_ordered_by_number_and_not_by_name() {
    let mut tree = TempTree::new("gpu-amd-hwmon-numbers");
    tree.dir("sys/class/drm/card0/device/hwmon/hwmon10");
    tree.dir("sys/class/drm/card0/device/hwmon/hwmon2");
    tree.dir("sys/class/drm/card0/device/hwmon/hwmon123456789012345678901234567890");
    let found = find_hwmon_dir(&tree.reader(), "sys/class/drm/card0/device")
        .expect("reads fine")
        .expect("a hwmon node exists");
    assert_eq!(found, "sys/class/drm/card0/device/hwmon/hwmon2");
}
