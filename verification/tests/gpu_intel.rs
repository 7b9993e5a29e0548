//! Graphics cards of one vendor.

use rustmon::collectors::gpu::intel::{read, read_frequency, read_vram};
use rustmon::error::{IoErrorKind, IoFailure};
use rustmon::sample::GpuVendor;
use rustmon::sysfs::{PathFacts, SysfsReader};

/// A tree of files that stands in for the filesystem below a root.
struct TempTree {
    files: Vec<(String, Vec<u8>)>,
    dirs: Vec<String>,
    links: Vec<(String, String)>,
}

const ROOT: &str = "/fixture";

fn failed(kind: IoErrorKind) -> IoFailure {
    IoFailure { kind, errno: None, message: "it failed".to_string() }
}

#[allow(dead_code)]
impl TempTree {
    fn new(_tag: &str) -> TempTree {
        TempTree { files: Vec::new(), dirs: Vec::new(), links: Vec::new() }
    }

    fn dir(&mut self, rel: &str) -> &mut TempTree {
        let mut upto = String::new();
        for part in rel.split('/') {
            if !upto.is_empty() {
                upto.push('/');
            }
            upto.push_str(part);
            if !self.dirs.contains(&upto) {
                self.dirs.push(upto.clone());
            }
        }
        self
    }

    fn parent(&mut self, rel: &str) {
        if let Some((parent, _)) = rel.rsplit_once('/') {
            self.dir(parent);
        }
    }

    fn file(&mut self, rel: &str, contents: &str) -> &mut TempTree {
        self.parent(rel);
        self.files.retain(|(path, _)| path != rel);
        self.files.push((rel.to_string(), contents.as_bytes().to_vec()));
        self
    }

    fn symlink(&mut self, rel: &str, target: &str) -> &mut TempTree {
        self.parent(rel);
        self.links.push((rel.to_string(), target.to_string()));
        self
    }

    fn remove(&mut self, rel: &str) -> &mut TempTree {
        let below = format!("{rel}/");
        self.files.retain(|(path, _)| path != rel && !path.starts_with(&below));
        self.dirs.retain(|path| path != rel && !path.starts_with(&below));
        self.links.retain(|(path, _)| path != rel && !path.starts_with(&below));
        self
    }

    fn entries(&self, rel: &str) -> Vec<Option<String>> {
        let below = if rel.is_empty() { String::new() } else { format!("{rel}/") };
        let mut names: Vec<Option<String>> = Vec::new();
        let paths = self.dirs.iter().chain(self.files.iter().map(|(p, _)| p)).chain(
            self.links.iter().map(|(p, _)| p),
        );
        for path in paths {
            if let Some(rest) = path.strip_prefix(&below) {
                if !rest.is_empty() && !rest.contains('/') {
                    names.push(Some(rest.to_string()));
                }
            }
        }
        names
    }

    /// The facts of what really is at `at`, recorded under `path`.
    fn facts(&self, path: &str, at: &str) -> PathFacts {
        let canonical = if at.is_empty() { ROOT.to_string() } else { format!("{ROOT}/{at}") };
        let file = self.files.iter().find(|(p, _)| p == at);
        let is_dir = at.is_empty() || self.dirs.contains(&at.to_string());
        PathFacts {
            path: path.to_string(),
            canonical: Ok(canonical),
            contents: match file {
                Some((_, bytes)) => Ok(bytes.clone()),
                None => Err(failed(IoErrorKind::Other)),
            },
            entries: if is_dir { Ok(self.entries(at)) } else { Err(failed(IoErrorKind::Other)) },
            target: Err(failed(IoErrorKind::Other)),
        }
    }

    fn reader(&self) -> SysfsReader {
        let mut reader = match SysfsReader::with_root(ROOT, Ok(ROOT.to_string()), true) {
            Ok(reader) => reader,
            Err(e) => panic!("{}", e.to_string()),
        };
        let mut paths: Vec<String> = vec![String::new()];
        paths.extend(self.dirs.iter().cloned());
        paths.extend(self.files.iter().map(|(p, _)| p.clone()));
        for path in &paths {
            reader.record(self.facts(path, path));
        }
        for (path, target) in &self.links {
            let inside = target.strip_prefix("/fixture/");
            let mut link = match inside {
                Some(at) => self.facts(path, at),
                None => self.facts(path, path),
            };
            if inside.is_none() {
                link.canonical = if target.starts_with('/') {
                    Ok(target.clone())
                } else {
                    Err(failed(IoErrorKind::NotFound))
                };
                link.entries = Ok(Vec::new());
            }
            link.target = Ok(target.clone());
            reader.record(link);
            if let Some(at) = inside {
                for real in &paths {
                    if let Some(rest) = real.strip_prefix(&format!("{at}/")) {
                        reader.record(self.facts(&format!("{path}/{rest}"), real));
                    }
                }
            }
        }
        reader
    }
}



#[test]
fn reads_an_i915_style_card() {
    let mut tree = TempTree::new("gpu-intel-i915");
    tree.file("sys/class/drm/card0/gt_cur_freq_mhz", "1450\n");
    tree.file("sys/class/drm/card0/device/lmem_total_bytes", "8589934592\n");
    tree.file("sys/class/drm/card0/device/lmem_avail_bytes", "6442450944\n");
    let r = tree.reader();

    let gpu = read(&r, "card0").expect("reads fine").expect("Intel always yields a Gpu");

    assert_eq!(gpu.vendor, GpuVendor::Intel);
    assert_eq!(gpu.busy, None, "no utilisation percentage in sysfs for Intel");
    assert_eq!(gpu.fan_rpm, None);

    assert_eq!(gpu.freq_khz.expect("frequency present").as_khz(), 1_450_000);

    assert_eq!(gpu.vram_total.expect("total present").as_u64(), 8_589_934_592);
    assert_eq!(gpu.vram_used.expect("used present").as_u64(), 2_147_483_648);
}

#[test]
fn frequency_falls_back_to_the_xe_path() {
    let mut tree = TempTree::new("gpu-intel-xe-freq");
    tree.file("sys/class/drm/card0/gt/gt0/freq_cur", "800\n");
    let r = tree.reader();

    let freq = read_frequency(&r, "sys/class/drm/card0")
        .expect("reads fine")
        .expect("xe fallback found it");
    assert_eq!(freq.as_khz(), 800_000);
}

#[test]
fn integrated_graphics_reports_no_vram() {
    let mut tree = TempTree::new("gpu-intel-integrated");
    tree.dir("sys/class/drm/card0/device");
    let r = tree.reader();

    let (total, used) =
        read_vram(&r, "sys/class/drm/card0/device").expect("reads fine");
    assert_eq!(total, None);
    assert_eq!(used, None);
}

#[test]
fn vram_used_is_none_without_both_files() {
    let mut tree = TempTree::new("gpu-intel-partial-vram");
    tree.file("sys/class/drm/card0/device/lmem_total_bytes", "1000\n");
    let r = tree.reader();

    let (total, used) =
        read_vram(&r, "sys/class/drm/card0/device").expect("reads fine");
    assert_eq!(total.expect("total present").as_u64(), 1000);
    assert_eq!(used, None, "available is missing, so used can't be derived");
}

#[test]
fn a_card_with_nothing_readable_still_yields_a_gpu() {
    let mut tree = TempTree::new("gpu-intel-empty");
    tree.dir("sys/class/drm/card0/device");
    let r = tree.reader();

    let gpu = read(&r, "card0").expect("reads fine").expect("identity alone is enough");
    assert_eq!(gpu.name, "card0");
    assert_eq!(gpu.freq_khz, None);
}
