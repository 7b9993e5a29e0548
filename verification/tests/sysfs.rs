//! Reading below a root: what is read, what is refused, and what counts as
//! absent.

use rustmon::error::{Absence, Error, IoErrorKind, IoFailure};
use rustmon::sysfs::{
    is_safe_component, sanitize_kernel_string, NameFilter, PathFacts, SysfsReader,
    DEFAULT_MAX_ENTRIES, DEFAULT_MAX_LINES, DEFAULT_MAX_READ_BYTES,
};

/// A tree of files that stands in for the filesystem below a root.
struct TempTree {
    files: Vec<(String, Vec<u8>)>,
    dirs: Vec<String>,
    links: Vec<(String, String)>,
}

const ROOT: &str = "/fixture";

fn failed(kind: IoErrorKind) -> IoFailure {
    IoFailure { kind, errno: None, message: "it failed".to_string() }
}

#[allow(dead_code)]
impl TempTree {
    fn new(_tag: &str) -> TempTree {
        TempTree { files: Vec::new(), dirs: Vec::new(), links: Vec::new() }
    }

    fn dir(&mut self, rel: &str) -> &mut TempTree {
        let mut upto = String::new();
        for part in rel.split('/') {
            if !upto.is_empty() {
                upto.push('/');
            }
            upto.push_str(part);
            if !self.dirs.contains(&upto) {
                self.dirs.push(upto.clone());
            }
        }
        self
    }

    fn parent(&mut self, rel: &str) {
        if let Some((parent, _)) = rel.rsplit_once('/') {
            self.dir(parent);
        }
    }

    fn file(&mut self, rel: &str, contents: &str) -> &mut TempTree {
        self.parent(rel);
        self.files.retain(|(path, _)| path != rel);
        self.files.push((rel.to_string(), contents.as_bytes().to_vec()));
        self
    }

    fn symlink(&mut self, rel: &str, target: &str) -> &mut TempTree {
        self.parent(rel);
        self.links.push((rel.to_string(), target.to_string()));
        self
    }

    fn remove(&mut self, rel: &str) -> &mut TempTree {
        let below = format!("{rel}/");
        self.files.retain(|(path, _)| path != rel && !path.starts_with(&below));
        self.dirs.retain(|path| path != rel && !path.starts_with(&below));
        self.links.retain(|(path, _)| path != rel && !path.starts_with(&below));
        self
    }

    fn entries(&self, rel: &str) -> Vec<Option<String>> {
        let below = if rel.is_empty() { String::new() } else { format!("{rel}/") };
        let mut names: Vec<Option<String>> = Vec::new();
        let paths = self.dirs.iter().chain(self.files.iter().map(|(p, _)| p)).chain(
            self.links.iter().map(|(p, _)| p),
        );
        for path in paths {
            if let Some(rest) = path.strip_prefix(&below) {
                if !rest.is_empty() && !rest.contains('/') {
                    names.push(Some(rest.to_string()));
                }
            }
        }
        names
    }

    /// The facts of what really is at `at`, recorded under `path`.
    fn facts(&self, path: &str, at: &str) -> PathFacts {
        let canonical = if at.is_empty() { ROOT.to_string() } else { format!("{ROOT}/{at}") };
        let file = self.files.iter().find(|(p, _)| p == at);
        let is_dir = at.is_empty() || self.dirs.contains(&at.to_string());
        PathFacts {
            path: path.to_string(),
            canonical: Ok(canonical),
            contents: match file {
                Some((_, bytes)) => Ok(bytes.clone()),
                None => Err(failed(IoErrorKind::Other)),
            },
            entries: if is_dir { Ok(self.entries(at)) } else { Err(failed(IoErrorKind::Other)) },
            target: Err(failed(IoErrorKind::Other)),
        }
    }

    fn reader(&self) -> SysfsReader {
        let mut reader = match SysfsReader::with_root(ROOT, Ok(ROOT.to_string()), true) {
            Ok(reader) => reader,
            Err(e) => panic!("{}", e.to_string()),
        };
        let mut paths: Vec<String> = vec![String::new()];
        paths.extend(self.dirs.iter().cloned());
        paths.extend(self.files.iter().map(|(p, _)| p.clone()));
        for path in &paths {
            reader.record(self.facts(path, path));
        }
        for (path, target) in &self.links {
            let inside = target.strip_prefix("/fixture/");
            let mut link = match inside {
                Some(at) => self.facts(path, at),
                None => self.facts(path, path),
            };
            if inside.is_none() {
                link.canonical = if target.starts_with('/') {
                    Ok(target.clone())
                } else {
                    Err(failed(IoErrorKind::NotFound))
                };
                link.entries = Ok(Vec::new());
            }
            link.target = Ok(target.clone());
            reader.record(link);
            if let Some(at) = inside {
                for real in &paths {
                    if let Some(rest) = real.strip_prefix(&format!("{at}/")) {
                        reader.record(self.facts(&format!("{path}/{rest}"), real));
                    }
                }
            }
        }
        reader
    }
}

fn value<T>(got: Result<Result<T, Absence>, Error>) -> T {
    match got {
        Ok(Ok(v)) => v,
        Ok(Err(absence)) => panic!("expected a value, got absence {absence:?}"),
        Err(e) => panic!("expected a value, got error: {}", e.to_string()),
    }
}

fn absence<T: std::fmt::Debug>(got: Result<Result<T, Absence>, Error>) -> Absence {
    match got {
        Ok(Err(absence)) => absence,
        Ok(Ok(v)) => panic!("expected an absence, got value {v:?}"),
        Err(e) => panic!("expected an absence, got error: {}", e.to_string()),
    }
}

fn refusal<T: std::fmt::Debug>(got: Result<Result<T, Absence>, Error>) -> Error {
    match got {
        Err(e) => e,
        Ok(other) => panic!("expected a refusal, got {other:?}"),
    }
}

#[test]
fn safe_components_cover_the_real_device_names() {
    for name in [
        "sda",
        "nvme0n1p2",
        "dm-0",
        "mmcblk0",
        "hwmon3",
        "temp1_input",
        "enp0s31f6",
        "wlp3s0",
        "eth0.100",
        "br-1a2b3c",
        "card0",
        "renderD128",
        "0000:00:02.0",
        "thermal_zone0",
    ] {
        assert!(is_safe_component(name), "{name} should be accepted");
    }
}

#[test]
fn unsafe_components_are_rejected() {
    for name in [
        "",
        ".",
        "..",
        ".hidden",
        "a/b",
        "a\u{0}b",
        "a b",
        "a*b",
        "a$b",
        "a\nb",
        "a\u{1b}[31m",
        "~root",
        "a|b",
        "../etc",
    ] {
        assert!(!is_safe_component(name), "{name:?} should be rejected");
    }

    assert!(is_safe_component(&"a".repeat(255)));
    assert!(!is_safe_component(&"a".repeat(256)));
}

#[test]
fn sanitize_strips_control_characters() {
    assert_eq!(sanitize_kernel_string("Core 0", 64), "Core 0");
    assert_eq!(sanitize_kernel_string("a\u{0}b\u{1}c", 64), "abc");
    assert_eq!(sanitize_kernel_string("a\u{7f}b", 64), "ab");
    assert_eq!(sanitize_kernel_string("a\u{9f}b", 64), "ab");
    assert_eq!(sanitize_kernel_string("line\nbreak\ttab", 64), "linebreaktab");
}

#[test]
fn sanitize_drops_whole_ansi_sequences_not_just_the_escape() {
    assert_eq!(sanitize_kernel_string("\u{1b}[31mRED\u{1b}[0m", 64), "RED");
    assert_eq!(sanitize_kernel_string("before\u{1b}[2Jafter", 64), "beforeafter");
    assert_eq!(sanitize_kernel_string("x\u{9b}31my", 64), "xy");
    assert_eq!(sanitize_kernel_string("\u{1b}csafe", 64), "safe");
}

#[test]
fn sanitize_drops_osc_sequences_including_unterminated_ones() {
    assert_eq!(sanitize_kernel_string("\u{1b}]0;title\u{7}rest", 64), "rest");
    assert_eq!(sanitize_kernel_string("\u{1b}]0;title\u{1b}\\rest", 64), "rest");
    assert_eq!(sanitize_kernel_string("keep\u{1b}]0;forever", 64), "keep");
}

#[test]
fn sanitize_truncates_by_characters_not_bytes() {
    assert_eq!(sanitize_kernel_string("abcdefgh", 3), "abc");
    assert_eq!(sanitize_kernel_string("abc", 0), "");
    assert_eq!(sanitize_kernel_string("°°°°", 2), "°°");
    assert_eq!(sanitize_kernel_string("Package id 0 °C", 64), "Package id 0 °C");
}

#[test]
fn sanitising_twice_changes_nothing() {
    for text in ["\u{1b}[31mRED\u{1b}[0m", "a\u{9b}31mb\u{1b}]0;t\u{7}c", "plain", ""] {
        let once = sanitize_kernel_string(text, 4);
        assert_eq!(sanitize_kernel_string(&once, 4), once);
    }
}

#[test]
fn reads_and_parses_scalar_files() {
    let mut tree = TempTree::new("scalar");
    tree.file("sys/class/hwmon/hwmon0/name", "coretemp\n");
    tree.file("sys/class/hwmon/hwmon0/temp1_input", "45678\n");
    tree.file("sys/class/hwmon/hwmon0/temp2_input", "-4250\n");
    let r = tree.reader();

    assert_eq!(value(r.read_first_line("sys/class/hwmon/hwmon0/name")), "coretemp");
    assert_eq!(value(r.read_u64("sys/class/hwmon/hwmon0/temp1_input")), 45_678);
    assert_eq!(value(r.read_i64("sys/class/hwmon/hwmon0/temp2_input")), -4_250);
}

#[test]
fn garbage_in_a_numeric_file_is_a_parse_error_not_a_panic() {
    let mut tree = TempTree::new("garbage");
    tree.file("sys/bad", "not a number\n");
    tree.file("sys/negative", "-1\n");
    let r = tree.reader();

    let err = refusal(r.read_u64("sys/bad"));
    assert!(matches!(err, Error::Parse { .. }), "got {err:?}");

    let err = refusal(r.read_u64("sys/negative"));
    assert!(matches!(err, Error::Parse { .. }), "got {err:?}");
    assert_eq!(value(r.read_i64("sys/negative")), -1);
}

#[test]
fn a_parse_error_does_not_carry_terminal_escapes() {
    let mut tree = TempTree::new("escapes");
    tree.file("sys/hostile", "\u{1b}[2J\u{1b}[31mgotcha\n");
    let r = tree.reader();

    let rendered = refusal(r.read_u64("sys/hostile")).to_string();
    assert!(!rendered.contains('\u{1b}'), "escape survived: {rendered:?}");
    assert!(rendered.contains("gotcha"), "{rendered:?}");
}

#[test]
fn an_empty_file_is_not_reported_rather_than_an_empty_string() {
    let mut tree = TempTree::new("empty");
    tree.file("sys/empty", "");
    tree.file("sys/blank", "   \n");
    let r = tree.reader();

    assert_eq!(absence(r.read_first_line("sys/empty")), Absence::NotReported);
    assert_eq!(absence(r.read_first_line("sys/blank")), Absence::NotReported);
    assert_eq!(absence(r.read_u64("sys/empty")), Absence::NotReported);
}

#[test]
fn a_missing_file_is_absent_not_an_error() {
    let mut tree = TempTree::new("missing");
    tree.dir("sys");
    let r = tree.reader();

    assert_eq!(absence(r.read_first_line("sys/nope")), Absence::NotPresent);
    assert_eq!(absence(r.read_u64("sys/nope")), Absence::NotPresent);
    assert_eq!(absence(r.list_dir("sys/nodir", NameFilter::All)), Absence::NotPresent);
}

#[test]
fn an_unreadable_file_is_absent_not_a_panic() {
    let mut tree = TempTree::new("eacces");
    tree.dir("sys");
    let mut r = tree.reader();
    let mut facts = tree.facts("sys/secret", "sys/secret");
    facts.contents = Err(failed(IoErrorKind::PermissionDenied));
    r.record(facts);

    assert_eq!(absence(r.read_first_line("sys/secret")), Absence::PermissionDenied);
}

#[test]
fn traversal_attempts_are_refused() {
    let mut tree = TempTree::new("traversal");
    tree.file("sys/present", "1\n");
    let r = tree.reader();

    for attempt in ["../../etc/passwd", "a/../../b", "..", "./sys/present"] {
        let err = refusal(r.read_first_line(attempt));
        assert!(matches!(err, Error::PathRejected { .. }), "{attempt:?} produced {err:?}");
    }
}

#[test]
fn absolute_paths_are_refused() {
    let mut tree = TempTree::new("absolute");
    tree.dir("sys");
    let r = tree.reader();

    let err = refusal(r.read_first_line("/etc/passwd"));
    assert!(matches!(err, Error::PathRejected { .. }), "got {err:?}");
}

#[test]
fn an_unsafe_name_is_quoted_in_the_refusal() {
    let r = TempTree::new("quoting").reader();
    match refusal(r.read_first_line("sys/a\"b")) {
        Error::PathRejected { path, reason } => {
            assert_eq!(path, "sys/a\"b");
            assert_eq!(reason, "unsafe path component \"a\\\"b\"");
        }
        other => panic!("got {other:?}"),
    }
}

#[test]
fn a_symlink_pointing_out_of_the_root_is_refused() {
    let mut tree = TempTree::new("escape");
    tree.dir("sys");
    tree.symlink("sys/escape", "/outside");
    let mut r = tree.reader();
    let mut beyond = tree.facts("sys/escape/passwd", "sys/escape/passwd");
    beyond.canonical = Ok("/outside/passwd".to_string());
    beyond.contents = Ok(b"root:x:0:0\n".to_vec());
    r.record(beyond);

    let err = refusal(r.read_first_line("sys/escape/passwd"));
    assert!(matches!(err, Error::PathRejected { .. }), "got {err:?}");

    let err = refusal(r.list_dir("sys/escape", NameFilter::All));
    assert!(matches!(err, Error::PathRejected { .. }), "got {err:?}");

    assert!(!r.is_present("sys/escape/passwd"));
}

#[test]
fn a_sibling_whose_name_starts_like_the_root_lies_outside() {
    let tree = TempTree::new("sibling");
    let mut r = tree.reader();
    let mut facts = tree.facts("sys", "sys");
    facts.canonical = Ok("/fixture-two/sys".to_string());
    r.record(facts);
    assert!(!r.is_present("sys"));
}

#[test]
fn a_symlink_inside_the_root_is_followed() {
    let mut tree = TempTree::new("inner");
    tree.file("sys/devices/chip/temp1_input", "42000\n");
    tree.dir("sys/class/hwmon");
    tree.symlink("sys/class/hwmon/hwmon0", "/fixture/sys/devices/chip");
    let r = tree.reader();

    assert_eq!(value(r.read_u64("sys/class/hwmon/hwmon0/temp1_input")), 42_000);
}

#[test]
fn read_link_returns_the_raw_target_of_a_safe_symlink() {
    let mut tree = TempTree::new("readlink-safe");
    tree.file("real/target", "1\n");
    tree.symlink("proc/1/fd/3", "../../real/target");
    let r = tree.reader();

    assert_eq!(value(r.read_link("proc/1/fd/3")), "../../real/target");
}

#[test]
fn read_link_returns_a_synthetic_procfs_style_target() {
    let mut tree = TempTree::new("readlink-socket");
    tree.dir("proc/1/fd");
    tree.symlink("proc/1/fd/4", "socket:[12345]");
    let r = tree.reader();

    assert_eq!(value(r.read_link("proc/1/fd/4")), "socket:[12345]");
}

#[test]
fn read_link_returns_the_target_string_even_when_it_points_outside_the_root() {
    let mut tree = TempTree::new("readlink-escaping-target");
    tree.dir("proc/1/fd");
    tree.symlink("proc/1/fd/5", "/outside/secret");
    let r = tree.reader();

    assert_eq!(value(r.read_link("proc/1/fd/5")), "/outside/secret");
}

#[test]
fn read_link_rejects_a_traversal_attempt_in_its_own_path() {
    let r = TempTree::new("readlink-traversal").reader();

    let err = refusal(r.read_link("../../etc/passwd"));
    assert!(matches!(err, Error::PathRejected { .. }), "got {err:?}");

    let err = refusal(r.read_link("proc/../../../etc/passwd"));
    assert!(matches!(err, Error::PathRejected { .. }), "got {err:?}");
}

#[test]
fn read_link_rejects_a_path_whose_parent_escapes_the_root() {
    let mut tree = TempTree::new("readlink-parent-escape");
    tree.dir("proc/1");
    tree.symlink("proc/1/fd", "/outside");
    let r = tree.reader();

    let err = refusal(r.read_link("proc/1/fd/3"));
    assert!(matches!(err, Error::PathRejected { .. }), "got {err:?}");
}

#[test]
fn read_link_on_a_missing_path_is_absent_not_an_error() {
    let mut tree = TempTree::new("readlink-missing");
    tree.dir("proc/1/fd");
    let r = tree.reader();

    assert_eq!(absence(r.read_link("proc/1/fd/99")), Absence::NotPresent);
}

#[test]
fn read_link_on_a_regular_file_is_a_hard_error_not_a_panic() {
    let mut tree = TempTree::new("readlink-not-a-symlink");
    tree.file("proc/1/fd/6", "not a symlink\n");
    let r = tree.reader();

    assert!(r.read_link("proc/1/fd/6").is_err());
}

#[test]
fn reads_stop_at_the_size_cap() {
    let mut tree = TempTree::new("cap");
    tree.file("proc/huge", &"a".repeat(2 * 1024 * 1024));

    let capped = value(tree.reader().read_to_string("proc/huge"));
    assert_eq!(capped.len(), DEFAULT_MAX_READ_BYTES);

    let tighter = tree.reader().with_max_read_bytes(10);
    assert_eq!(value(tighter.read_to_string("proc/huge")).len(), 10);
}

#[test]
fn bytes_that_are_no_text_are_replaced() {
    let tree = TempTree::new("lossy");
    let mut r = tree.reader();
    let mut facts = tree.facts("sys/odd", "sys/odd");
    facts.contents = Ok(vec![b'a', 0xff, b'b']);
    r.record(facts);

    assert_eq!(value(r.read_to_string("sys/odd")), "a\u{fffd}b");
}

#[test]
fn list_dir_filters_unsafe_names_sorts_and_caps() {
    let mut tree = TempTree::new("list");
    tree.dir("sys/class/net/eth0");
    tree.dir("sys/class/net/lo");
    tree.dir("sys/class/net/wlan0");
    tree.dir("sys/class/net/.hidden");
    let r = tree.reader();

    assert_eq!(
        value(r.list_dir("sys/class/net", NameFilter::All)),
        vec!["eth0", "lo", "wlan0"]
    );

    assert_eq!(
        value(r.list_dir("sys/class/net", NameFilter::Affixed { prefix: "w", suffix: "" })),
        vec!["wlan0"]
    );

    let capped = tree.reader().with_max_entries(2);
    assert_eq!(value(capped.list_dir("sys/class/net", NameFilter::All)).len(), 2);
}

#[test]
fn a_listing_keeps_only_numbered_names_where_asked() {
    let mut tree = TempTree::new("numbered");
    for name in ["hwmon0", "hwmon12", "hwmon", "hwmon1a", "other3"] {
        tree.dir(&format!("sys/{name}"));
    }
    assert_eq!(
        value(tree.reader().list_dir("sys", NameFilter::Numbered { prefix: "hwmon" })),
        vec!["hwmon0", "hwmon12"]
    );
}

#[test]
fn with_root_rejects_a_file_and_a_missing_directory() {
    assert!(matches!(
        SysfsReader::with_root("/fixture/notadir", Ok("/fixture/notadir".to_string()), false),
        Err(Error::PathRejected { .. })
    ));
    assert!(matches!(
        SysfsReader::with_root("/fixture/nope", Err(failed(IoErrorKind::NotFound)), false),
        Err(Error::Io { .. })
    ));
}

#[test]
fn default_reader_is_rooted_at_slash() {
    assert_eq!(SysfsReader::default().root(), "/");
    assert_eq!(SysfsReader::new().max_read_bytes(), DEFAULT_MAX_READ_BYTES);
    assert_eq!(SysfsReader::new().max_lines(), DEFAULT_MAX_LINES);
    assert_eq!(SysfsReader::new().max_entries(), DEFAULT_MAX_ENTRIES);
}

#[test]
fn exists_is_false_for_missing_and_refused_paths() {
    let mut tree = TempTree::new("exists");
    tree.file("sys/present", "1\n");
    let r = tree.reader();

    assert!(r.is_present("sys/present"));
    assert!(!r.is_present("sys/absent"));
    assert!(!r.is_present("../../etc/passwd"));
}

#[test]
fn an_open_command_takes_the_rest_and_only_its_terminators_end_it() {
    assert_eq!(sanitize_kernel_string("a\u{1b}]0;t\u{1b}[31mRED", 64), "a");
    assert_eq!(sanitize_kernel_string("a\u{1b}]0;t\u{1b}", 64), "a");
    assert_eq!(sanitize_kernel_string("a\u{1b}]0;t\u{1b}x\u{1b}\\b", 64), "ab");
    assert_eq!(sanitize_kernel_string("a\u{9d}0;t\u{7}b", 64), "ab");
    assert_eq!(sanitize_kernel_string("a\u{9d}0;t\u{9c}b", 64), "ab");
}

#[test]
fn what_may_not_be_read_does_not_count_as_present() {
    let mut tree = TempTree::new("denied");
    tree.file("sys/open", "1\n");
    let mut reader = tree.reader();
    let mut secret = tree.facts("sys/secret", "sys/secret");
    secret.contents = Err(failed(IoErrorKind::PermissionDenied));
    reader.record(secret);
    let mut closed = tree.facts("sys/closed", "sys/closed");
    closed.entries = Err(failed(IoErrorKind::PermissionDenied));
    reader.record(closed);

    assert!(reader.is_present("sys/open"));
    assert!(reader.is_present("sys"));
    assert!(!reader.is_present("sys/secret"));
    assert!(!reader.is_present("sys/closed"));
}

#[test]
fn nothing_outside_the_root_may_be_opened() {
    let reader = TempTree::new("allow").reader();
    let inside = Ok("/fixture/sys/a".to_string());
    assert_eq!(value(reader.allow("sys/a", &inside)), "/fixture/sys/a");
    refusal(reader.allow("sys/a", &Ok("/etc/shadow".to_string())));
    refusal(reader.allow("../a", &inside));
    refusal(reader.allow("/sys/a", &inside));
    assert_eq!(
        absence(reader.allow("sys/a", &Err(failed(IoErrorKind::NotFound)))),
        Absence::NotPresent
    );
    assert_eq!(absence(reader.resolve("sys/a")), Absence::NotPresent);
}
