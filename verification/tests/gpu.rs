//! Graphics cards.

use rustmon::collector::Collector;
use rustmon::collectors::gpu::{
    build_sample, enumerate_cards, read_card, read_vendor, GpuCollector,
};
use rustmon::error::{IoErrorKind, IoFailure};
use rustmon::sample::{GpuVendor, Snapshot};
use rustmon::sysfs::{PathFacts, SysfsReader};

/// A tree of files that stands in for the filesystem below a root.
struct TempTree {
    files: Vec<(String, Vec<u8>)>,
    dirs: Vec<String>,
    links: Vec<(String, String)>,
}

const ROOT: &str = "/fixture";

fn failed(kind: IoErrorKind) -> IoFailure {
    IoFailure { kind, errno: None, message: "it failed".to_string() }
}

#[allow(dead_code)]
impl TempTree {
    fn new(_tag: &str) -> TempTree {
        TempTree { files: Vec::new(), dirs: Vec::new(), links: Vec::new() }
    }

    fn dir(&mut self, rel: &str) -> &mut TempTree {
        let mut upto = String::new();
        for part in rel.split('/') {
            if !upto.is_empty() {
                upto.push('/');
            }
            upto.push_str(part);
            if !self.dirs.contains(&upto) {
                self.dirs.push(upto.clone());
            }
        }
        self
    }

    fn parent(&mut self, rel: &str) {
        if let Some((parent, _)) = rel.rsplit_once('/') {
            self.dir(parent);
        }
    }

    fn file(&mut self, rel: &str, contents: &str) -> &mut TempTree {
        self.parent(rel);
        self.files.retain(|(path, _)| path != rel);
        self.files.push((rel.to_string(), contents.as_bytes().to_vec()));
        self
    }

    fn symlink(&mut self, rel: &str, target: &str) -> &mut TempTree {
        self.parent(rel);
        self.links.push((rel.to_string(), target.to_string()));
        self
    }

    fn remove(&mut self, rel: &str) -> &mut TempTree {
        let below = format!("{rel}/");
        self.files.retain(|(path, _)| path != rel && !path.starts_with(&below));
        self.dirs.retain(|path| path != rel && !path.starts_with(&below));
        self.links.retain(|(path, _)| path != rel && !path.starts_with(&below));
        self
    }

    fn entries(&self, rel: &str) -> Vec<Option<String>> {
        let below = if rel.is_empty() { String::new() } else { format!("{rel}/") };
        let mut names: Vec<Option<String>> = Vec::new();
        let paths = self.dirs.iter().chain(self.files.iter().map(|(p, _)| p)).chain(
            self.links.iter().map(|(p, _)| p),
        );
        for path in paths {
            if let Some(rest) = path.strip_prefix(&below) {
                if !rest.is_empty() && !rest.contains('/') {
                    names.push(Some(rest.to_string()));
                }
            }
        }
        names
    }

    /// The facts of what really is at `at`, recorded under `path`.
    fn facts(&self, path: &str, at: &str) -> PathFacts {
        let canonical = if at.is_empty() { ROOT.to_string() } else { format!("{ROOT}/{at}") };
        let file = self.files.iter().find(|(p, _)| p == at);
        let is_dir = at.is_empty() || self.dirs.contains(&at.to_string());
        PathFacts {
            path: path.to_string(),
            canonical: Ok(canonical),
            contents: match file {
                Some((_, bytes)) => Ok(bytes.clone()),
                None => Err(failed(IoErrorKind::Other)),
            },
            entries: if is_dir { Ok(self.entries(at)) } else { Err(failed(IoErrorKind::Other)) },
            target: Err(failed(IoErrorKind::Other)),
        }
    }

    fn reader(&self) -> SysfsReader {
        let mut reader = match SysfsReader::with_root(ROOT, Ok(ROOT.to_string()), true) {
            Ok(reader) => reader,
            Err(e) => panic!("{}", e.to_string()),
        };
        let mut paths: Vec<String> = vec![String::new()];
        paths.extend(self.dirs.iter().cloned());
        paths.extend(self.files.iter().map(|(p, _)| p.clone()));
        for path in &paths {
            reader.record(self.facts(path, path));
        }
        for (path, target) in &self.links {
            let inside = target.strip_prefix("/fixture/");
            let mut link = match inside {
                Some(at) => self.facts(path, at),
                None => self.facts(path, path),
            };
            if inside.is_none() {
                link.canonical = if target.starts_with('/') {
                    Ok(target.clone())
                } else {
                    Err(failed(IoErrorKind::NotFound))
                };
                link.entries = Ok(Vec::new());
            }
            link.target = Ok(target.clone());
            reader.record(link);
            if let Some(at) = inside {
                for real in &paths {
                    if let Some(rest) = real.strip_prefix(&format!("{at}/")) {
                        reader.record(self.facts(&format!("{path}/{rest}"), real));
                    }
                }
            }
        }
        reader
    }
}

#[test]
fn enumerate_cards_excludes_connector_output_nodes() {
    let mut tree = TempTree::new("gpu-enumerate");
    tree.dir("sys/class/drm/card0");
    tree.dir("sys/class/drm/card1");
    tree.dir("sys/class/drm/card0-DP-1");
    tree.dir("sys/class/drm/card0-HDMI-A-1");
    let r = tree.reader();

    assert_eq!(enumerate_cards(&r).expect("lists fine"), vec!["card0", "card1"]);
}

#[test]
fn enumerate_cards_is_empty_not_an_error_when_drm_is_absent() {
    let mut tree = TempTree::new("gpu-no-drm");
    tree.dir("sys");
    let r = tree.reader();
    assert!(enumerate_cards(&r).expect("not an error").is_empty());
}

#[test]
fn read_vendor_maps_real_pci_ids() {
    let mut tree = TempTree::new("gpu-vendor");
    tree.file("sys/class/drm/card1/device/vendor", "0x1002\n");
    tree.file("sys/class/drm/card2/device/vendor", "0x8086\n");
    tree.file("sys/class/drm/card3/device/vendor", "0x10de\n");
    tree.file("sys/class/drm/card4/device/vendor", "0xbeef\n");
    let r = tree.reader();

    assert_eq!(read_vendor(&r, "card1").expect("no error"), GpuVendor::Amd);
    assert_eq!(read_vendor(&r, "card2").expect("no error"), GpuVendor::Intel);
    assert_eq!(read_vendor(&r, "card3").expect("no error"), GpuVendor::Nvidia);
    assert_eq!(read_vendor(&r, "card4").expect("no error"), GpuVendor::Unknown);
    assert_eq!(read_vendor(&r, "card5").expect("no error"), GpuVendor::Unknown);
}

#[test]
fn read_card_dispatches_by_vendor_and_unknown_yields_none() {
    let mut tree = TempTree::new("gpu-read-card-unknown");
    tree.dir("sys/class/drm/card0/device");
    let r = tree.reader();

    assert!(read_card(&r, "card0", GpuVendor::Unknown)
        .expect("not an error")
        .is_none());
}

#[test]
fn build_sample_is_none_for_an_empty_list() {
    assert!(build_sample(Vec::new()).is_none());
}

#[test]
fn collector_reads_two_real_amd_cards() {
    let mut tree = TempTree::new("gpu-collector-two-cards");
    tree.file("sys/class/drm/card1/device/vendor", "0x1002\n");
    tree.file("sys/class/drm/card1/device/gpu_busy_percent", "2\n");
    tree.file("sys/class/drm/card2/device/vendor", "0x1002\n");
    tree.file("sys/class/drm/card2/device/gpu_busy_percent", "0\n");
    let r = tree.reader();

    let mut collector = GpuCollector::new();
    let mut snapshot = Snapshot::now(0, 0);
    collector.collect(&r, &mut snapshot).expect("collects fine");

    let sample = snapshot.gpus.expect("two real GPUs present");
    assert_eq!(sample.gpus.len(), 2);
    assert!(sample.gpus.iter().all(|g| g.vendor == GpuVendor::Amd));
    assert!(snapshot.errors.is_empty());
}

#[test]
fn collector_reports_none_when_no_gpu_is_present() {
    let mut tree = TempTree::new("gpu-collector-none");
    tree.dir("sys/class/drm");
    let r = tree.reader();

    let mut collector = GpuCollector::new();
    let mut snapshot = Snapshot::now(0, 0);
    collector.collect(&r, &mut snapshot).expect("collects fine");
    assert!(snapshot.gpus.is_none());
}

#[test]
fn probe_is_true_only_with_a_readable_vendor_file() {
    let mut with_gpu = TempTree::new("gpu-probe-yes");
    with_gpu.file("sys/class/drm/card0/device/vendor", "0x1002\n");
    assert!(GpuCollector::new().probe(&with_gpu.reader()));

    let mut card_no_vendor = TempTree::new("gpu-probe-card-no-vendor");
    card_no_vendor.dir("sys/class/drm/card0/device");
    assert!(!GpuCollector::new().probe(&card_no_vendor.reader()));

    let mut nothing = TempTree::new("gpu-probe-nothing");
    nothing.dir("sys");
    assert!(!GpuCollector::new().probe(&nothing.reader()));
}

#[test]
fn an_nvidia_card_is_noted_and_not_shown() {
    let mut tree = TempTree::new("gpu-nvidia");
    tree.file("sys/class/drm/card0/device/vendor", "0x10de\n");
    tree.file("sys/class/drm/card1/device/vendor", "0x1002\n");
    let mut collector = GpuCollector::new();
    let mut snapshot = Snapshot::now(0, 0);
    collector.collect(&tree.reader(), &mut snapshot).expect("collects fine");

    let sample = snapshot.gpus.expect("the other card is shown");
    assert_eq!(sample.gpus.len(), 1);
    assert_eq!(sample.gpus[0].name, "card1");
    assert_eq!(snapshot.errors.len(), 1);
    assert_eq!(snapshot.errors[0].collector, "gpu");
    assert!(snapshot.errors[0].message.starts_with("card0: "), "{:?}", snapshot.errors);
    assert!(snapshot.errors[0].message.contains("NVIDIA"));
}
