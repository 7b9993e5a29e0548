//! Connections, and the processes that own them.

use rustmon::addr::{parse_address, IpAddr};
use rustmon::collector::Collector;
use rustmon::collectors::connections::{
    decode_hex_bytes, is_interesting, is_public_ip, parse_hex_addr, parse_hex_addr_port,
    parse_proc_net, parse_proc_net_line, parse_socket_inode, read_parent_pid,
    ConnectionsCollector, RawSocket,
};
use rustmon::error::{Error, IoErrorKind, IoFailure};
use rustmon::sample::Snapshot;
use rustmon::sysfs::{PathFacts, SysfsReader};

/// A tree of files that stands in for the filesystem below a root.
struct TempTree {
    files: Vec<(String, Vec<u8>)>,
    dirs: Vec<String>,
    links: Vec<(String, String)>,
}

const ROOT: &str = "/fixture";

fn failed(kind: IoErrorKind) -> IoFailure {
    IoFailure { kind, errno: None, message: "it failed".to_string() }
}

#[allow(dead_code)]
impl TempTree {
    fn new(_tag: &str) -> TempTree {
        TempTree { files: Vec::new(), dirs: Vec::new(), links: Vec::new() }
    }

    fn dir(&mut self, rel: &str) -> &mut TempTree {
        let mut upto = String::new();
        for part in rel.split('/') {
            if !upto.is_empty() {
                upto.push('/');
            }
            upto.push_str(part);
            if !self.dirs.contains(&upto) {
                self.dirs.push(upto.clone());
            }
        }
        self
    }

    fn parent(&mut self, rel: &str) {
        if let Some((parent, _)) = rel.rsplit_once('/') {
            self.dir(parent);
        }
    }

    fn file(&mut self, rel: &str, contents: &str) -> &mut TempTree {
        self.parent(rel);
        self.files.retain(|(path, _)| path != rel);
        self.files.push((rel.to_string(), contents.as_bytes().to_vec()));
        self
    }

    fn symlink(&mut self, rel: &str, target: &str) -> &mut TempTree {
        self.parent(rel);
        self.links.push((rel.to_string(), target.to_string()));
        self
    }

    fn remove(&mut self, rel: &str) -> &mut TempTree {
        let below = format!("{rel}/");
        self.files.retain(|(path, _)| path != rel && !path.starts_with(&below));
        self.dirs.retain(|path| path != rel && !path.starts_with(&below));
        self.links.retain(|(path, _)| path != rel && !path.starts_with(&below));
        self
    }

    fn entries(&self, rel: &str) -> Vec<Option<String>> {
        let below = if rel.is_empty() { String::new() } else { format!("{rel}/") };
        let mut names: Vec<Option<String>> = Vec::new();
        let paths = self.dirs.iter().chain(self.files.iter().map(|(p, _)| p)).chain(
            self.links.iter().map(|(p, _)| p),
        );
        for path in paths {
            if let Some(rest) = path.strip_prefix(&below) {
                if !rest.is_empty() && !rest.contains('/') {
                    names.push(Some(rest.to_string()));
                }
            }
        }
        names
    }

    /// The facts of what really is at `at`, recorded under `path`.
    fn facts(&self, path: &str, at: &str) -> PathFacts {
        let canonical = if at.is_empty() { ROOT.to_string() } else { format!("{ROOT}/{at}") };
        let file = self.files.iter().find(|(p, _)| p == at);
        let is_dir = at.is_empty() || self.dirs.contains(&at.to_string());
        PathFacts {
            path: path.to_string(),
            canonical: Ok(canonical),
            contents: match file {
                Some((_, bytes)) => Ok(bytes.clone()),
                None => Err(failed(IoErrorKind::Other)),
            },
            entries: if is_dir { Ok(self.entries(at)) } else { Err(failed(IoErrorKind::Other)) },
            target: Err(failed(IoErrorKind::Other)),
        }
    }

    fn reader(&self) -> SysfsReader {
        let mut reader = match SysfsReader::with_root(ROOT, Ok(ROOT.to_string()), true) {
            Ok(reader) => reader,
            Err(e) => panic!("{}", e.to_string()),
        };
        let mut paths: Vec<String> = vec![String::new()];
        paths.extend(self.dirs.iter().cloned());
        paths.extend(self.files.iter().map(|(p, _)| p.clone()));
        for path in &paths {
            reader.record(self.facts(path, path));
        }
        for (path, target) in &self.links {
            let inside = target.strip_prefix("/fixture/");
            let mut link = match inside {
                Some(at) => self.facts(path, at),
                None => self.facts(path, path),
            };
            if inside.is_none() {
                link.canonical = if target.starts_with('/') {
                    Ok(target.clone())
                } else {
                    Err(failed(IoErrorKind::NotFound))
                };
                link.entries = Ok(Vec::new());
            }
            link.target = Ok(target.clone());
            reader.record(link);
            if let Some(at) = inside {
                for real in &paths {
                    if let Some(rest) = real.strip_prefix(&format!("{at}/")) {
                        reader.record(self.facts(&format!("{path}/{rest}"), real));
                    }
                }
            }
        }
        reader
    }
}

fn ip(text: &str) -> IpAddr {
    let chars: Vec<char> = text.chars().collect();
    parse_address(&chars).expect("an address")
}

fn p() -> &'static str {
    "proc/net/tcp"
}

#[test]
fn decodes_ipv4_address_and_port() {
    let (addr, port) = parse_hex_addr_port("0100007F:0050").expect("parses");
    assert_eq!(addr, IpAddr::v4(127, 0, 0, 1));
    assert_eq!(port, 80);
}

#[test]
fn decodes_a_real_public_ipv4_address() {
    let (addr, port) = parse_hex_addr_port("04030201:01BB").expect("parses");
    assert_eq!(addr, IpAddr::v4(1, 2, 3, 4));
    assert_eq!(port, 443);
}

#[test]
fn decodes_ipv6_address() {
    let (addr, port) =
        parse_hex_addr_port("60480120000060480000000088880000:0050").expect("parses");
    assert_eq!(addr, ip("2001:4860:4860::8888"));
    assert_eq!(port, 80);
}

#[test]
fn unparseable_addresses_are_none_not_a_panic() {
    assert_eq!(parse_hex_addr_port("notanaddress"), None);
    assert_eq!(parse_hex_addr_port("0100007F"), None);
    assert_eq!(parse_hex_addr_port("XX:0050"), None);
    assert_eq!(parse_hex_addr_port("010:0050"), None);
}

#[test]
fn private_and_special_ipv4_ranges_are_excluded() {
    for text in [
        "10.0.0.1", "172.16.0.1", "192.168.1.1",
        "127.0.0.1",
        "169.254.1.1",
        "0.0.0.0",
        "224.0.0.1",
        "255.255.255.255",
    ] {
        let addr = ip(text);
        assert!(!is_public_ip(&addr), "{text} should not be public");
    }
}

#[test]
fn a_real_public_ipv4_address_is_public() {
    let addr = ip("8.8.8.8");
    assert!(is_public_ip(&addr));
}

#[test]
fn private_and_special_ipv6_ranges_are_excluded() {
    for text in ["::1", "::", "fe80::1", "fc00::1", "ff02::1"] {
        let addr = ip(text);
        assert!(!is_public_ip(&addr), "{text} should not be public");
    }
}

#[test]
fn a_real_public_ipv6_address_is_public() {
    let addr = ip("2001:4860:4860::8888");
    assert!(is_public_ip(&addr));
}

fn socket(remote_addr: &str, remote_port: u16) -> RawSocket {
    RawSocket {
        local_addr: ip("0.0.0.0"),
        local_port: 12345,
        remote_addr: ip(remote_addr),
        remote_port,
        state_byte: 0x01,
        uid: 1000,
        inode: 999,
    }
}

#[test]
fn a_listening_socket_with_no_peer_is_not_interesting() {
    assert!(!is_interesting(&socket("0.0.0.0", 0)));
}

#[test]
fn a_connection_to_a_public_address_is_interesting() {
    assert!(is_interesting(&socket("8.8.8.8", 443)));
}

#[test]
fn a_connection_to_a_private_address_is_not_interesting() {
    assert!(!is_interesting(&socket("192.168.1.1", 443)));
}

const REAL_TCP: &str = "\
  sl  local_address rem_address   st tx_queue rx_queue tr tm->when retrnsmt   uid  timeout inode
   0: 0100007F:8AE1 0100007F:1F90 01 00000000:00000000 00:00000000 00000000  1000        0 55123 1 0000000000000000 20 0 0 10 -1
   1: 0A00A8C0:C71C 08080808:01BB 01 00000000:00000000 00:00000000 00000000  1000        0 55124 1 0000000000000000 20 0 0 10 -1
   2: 00000000:0016 00000000:0000 0A 00000000:00000000 00:00000000 00000000     0        0 55125 1 0000000000000000 20 0 0 10 -1
";

#[test]
fn parses_a_real_tcp_table() {
    let entries = parse_proc_net(p(), REAL_TCP).expect("real fixture parses");
    assert_eq!(entries.len(), 3);

    assert_eq!(entries[0].local_port, 0x8AE1);
    assert_eq!(entries[0].remote_port, 0x1F90);
    assert_eq!(entries[0].state_byte, 0x01);
    assert_eq!(entries[0].uid, 1000);
    assert_eq!(entries[0].inode, 55123);

    assert_eq!(entries[1].remote_addr, IpAddr::v4(8, 8, 8, 8));
    assert_eq!(entries[1].remote_port, 443);

    assert_eq!(entries[2].remote_port, 0);
    assert_eq!(entries[2].state_byte, 0x0a);
}

#[test]
fn the_header_line_is_always_skipped() {
    let entries = parse_proc_net(p(), "  sl  local_address rem_address   st ...\n").expect("parses");
    assert!(entries.is_empty());
}

#[test]
fn connections_a_truncated_line_is_a_parse_error_not_a_panic() {
    let stat = "  sl  local_address rem_address   st tx_queue rx_queue tr tm->when retrnsmt   uid  timeout inode\n   0: 0100007F:8AE1 0100007F:1F90 01\n";
    let err = parse_proc_net(p(), stat).expect_err("truncated line must fail");
    assert!(matches!(err, Error::Parse { line: Some(2), .. }), "got {err:?}");
}

#[test]
fn an_unparseable_address_is_a_parse_error() {
    let stat = "  sl  local_address rem_address   st tx_queue rx_queue tr tm->when retrnsmt   uid  timeout inode\n   0: garbage 0100007F:1F90 01 00000000:00000000 00:00000000 00000000  1000        0 55123\n";
    let err = parse_proc_net(p(), stat).expect_err("garbage address must fail");
    assert!(matches!(err, Error::Parse { .. }), "got {err:?}");
}

#[test]
fn connections_blank_lines_are_skipped() {
    let entries = parse_proc_net(p(), &format!("{REAL_TCP}\n\n")).expect("blank trailing lines are fine");
    assert_eq!(entries.len(), 3);
}

#[test]
fn parses_a_real_socket_fd_target() {
    assert_eq!(parse_socket_inode("socket:[12345]"), Some(12345));
}

#[test]
fn non_socket_fd_targets_are_none() {
    assert_eq!(parse_socket_inode("/dev/null"), None);
    assert_eq!(parse_socket_inode("pipe:[6789]"), None);
    assert_eq!(parse_socket_inode("anon_inode:[eventfd]"), None);
}

#[test]
fn read_parent_pid_finds_the_ppid_line() {
    let mut tree = TempTree::new("read-parent-pid-happy");
    tree.file("proc/99/status", "Name:\tsh\nState:\tS\nPPid:\t1\nUid:\t0\t0\t0\t0\n");
    assert_eq!(read_parent_pid(&tree.reader(), "99"), Some(1));
}

#[test]
fn read_parent_pid_is_none_when_status_is_missing() {
    let tree = TempTree::new("read-parent-pid-missing");
    assert_eq!(read_parent_pid(&tree.reader(), "99"), None);
}

#[test]
fn read_parent_pid_is_none_when_the_ppid_line_is_malformed() {
    let mut tree = TempTree::new("read-parent-pid-malformed");
    tree.file("proc/99/status", "Name:\tsh\nPPid:\tnot-a-number\n");
    assert_eq!(read_parent_pid(&tree.reader(), "99"), None);
}

#[test]
fn read_parent_pid_is_none_when_there_is_no_ppid_line_at_all() {
    let mut tree = TempTree::new("read-parent-pid-absent-field");
    tree.file("proc/99/status", "Name:\tsh\nState:\tS\n");
    assert_eq!(read_parent_pid(&tree.reader(), "99"), None);
}

fn tcp_header() -> &'static str {
    "  sl  local_address rem_address   st tx_queue rx_queue tr tm->when retrnsmt   uid  timeout inode\n"
}

#[test]
fn collect_correlates_a_connection_to_its_owning_process() {
    let mut tree = TempTree::new("connections-e2e");
    let tcp = format!(
        "{}   0: 0A00A8C0:C71C 08080808:01BB 01 00000000:00000000 00:00000000 00000000  1000        0 999999 1\n",
        tcp_header()
    );
    tree.file("proc/net/tcp", &tcp);

    tree.dir("proc/42/fd");
    tree.symlink("proc/42/fd/3", "socket:[999999]");
    tree.file("proc/42/comm", "curl\n");
    tree.file("proc/42/status", "Name:\tcurl\nState:\tS (sleeping)\nPPid:\t7\nUid:\t1000\t1000\t1000\t1000\n");

    let reader = tree.reader();
    let mut collector = ConnectionsCollector::new();
    let mut snapshot = Snapshot::now(0, 0);
    collector.collect(&reader, &mut snapshot).expect("collect must not fail");

    let sample = snapshot.connections.expect("connections present");
    assert_eq!(sample.connections.len(), 1);
    let conn = &sample.connections[0];
    assert_eq!(conn.remote_addr, IpAddr::v4(8, 8, 8, 8));
    assert_eq!(conn.remote_port, 443);
    assert_eq!(conn.pid, Some(42));
    assert_eq!(conn.program.as_deref(), Some("curl"));
    assert_eq!(conn.ppid, Some(7));
    assert_eq!(conn.uid, 1000);
}

#[test]
fn collect_leaves_ppid_none_when_status_is_unreadable() {
    let mut tree = TempTree::new("connections-e2e-no-status");
    let tcp = format!(
        "{}   0: 0A00A8C0:C71C 08080808:01BB 01 00000000:00000000 00:00000000 00000000  1000        0 999999 1\n",
        tcp_header()
    );
    tree.file("proc/net/tcp", &tcp);
    tree.dir("proc/42/fd");
    tree.symlink("proc/42/fd/3", "socket:[999999]");
    tree.file("proc/42/comm", "curl\n");

    let reader = tree.reader();
    let mut collector = ConnectionsCollector::new();
    let mut snapshot = Snapshot::now(0, 0);
    collector.collect(&reader, &mut snapshot).expect("collect must not fail");

    let sample = snapshot.connections.expect("connections present");
    assert_eq!(sample.connections[0].pid, Some(42));
    assert_eq!(sample.connections[0].ppid, None);
}

#[test]
fn collect_is_fail_soft_when_the_owning_process_cannot_be_attributed() {
    let mut tree = TempTree::new("connections-e2e-unattributed");
    let tcp = format!(
        "{}   0: 0A00A8C0:C71C 08080808:01BB 01 00000000:00000000 00:00000000 00000000  1000        0 999999 1\n",
        tcp_header()
    );
    tree.file("proc/net/tcp", &tcp);

    let reader = tree.reader();
    let mut collector = ConnectionsCollector::new();
    let mut snapshot = Snapshot::now(0, 0);
    collector.collect(&reader, &mut snapshot).expect("collect must not fail");

    let sample = snapshot.connections.expect("connections present");
    assert_eq!(sample.connections.len(), 1);
    assert_eq!(sample.connections[0].pid, None);
    assert_eq!(sample.connections[0].program, None);
    assert_eq!(sample.connections[0].uid, 1000, "uid still shown even when pid is not");
}

#[test]
fn collect_filters_out_private_and_listening_sockets() {
    let mut tree = TempTree::new("connections-e2e-filtered");
    let tcp = format!(
        "{header}   0: 0100007F:8AE1 0100007F:1F90 01 00000000:00000000 00:00000000 00000000  1000        0 1 1\n\
              1: 00000000:0016 00000000:0000 0A 00000000:00000000 00:00000000 00000000     0        0 2 1\n\
              2: 0A00A8C0:C71C 08080808:01BB 01 00000000:00000000 00:00000000 00000000  1000        0 3 1\n",
        header = tcp_header()
    );
    tree.file("proc/net/tcp", &tcp);

    let reader = tree.reader();
    let mut collector = ConnectionsCollector::new();
    let mut snapshot = Snapshot::now(0, 0);
    collector.collect(&reader, &mut snapshot).expect("collect must not fail");

    let sample = snapshot.connections.expect("connections present");
    assert_eq!(sample.connections.len(), 1, "{:?}", sample.connections);
    assert_eq!(sample.connections[0].remote_addr, IpAddr::v4(8, 8, 8, 8));
}

#[test]
fn probe_is_true_when_proc_net_tcp_exists() {
    let mut tree = TempTree::new("connections-probe");
    tree.file("proc/net/tcp", tcp_header());
    assert!(ConnectionsCollector::new().probe(&tree.reader()));
}

#[test]
fn probe_is_false_when_proc_net_tcp_is_absent() {
    let tree = TempTree::new("connections-probe-absent");
    assert!(!ConnectionsCollector::new().probe(&tree.reader()));
}

#[test]
fn hex_digits_are_read_in_pairs() {
    assert_eq!(decode_hex_bytes("00ffA0"), Some(vec![0x00, 0xff, 0xa0]));
    assert_eq!(decode_hex_bytes(""), None);
    assert_eq!(decode_hex_bytes("abc"), None);
    assert_eq!(decode_hex_bytes("zz"), None);
}

#[test]
fn addresses_are_stored_in_host_order_words() {
    assert_eq!(parse_hex_addr("0100007F"), Some(IpAddr::v4(127, 0, 0, 1)));
    assert_eq!(parse_hex_addr("00000000000000000000000001000000"), Some(ip("::1")));
    assert_eq!(parse_hex_addr("0100"), None);
}

#[test]
fn one_line_of_a_table_is_one_socket() {
    let line = REAL_TCP.lines().nth(2).expect("a line");
    let socket = parse_proc_net_line(p(), 3, line).expect("parses");
    assert_eq!(socket.local_addr, IpAddr::v4(192, 168, 0, 10));
    assert_eq!(socket.local_port, 0xC71C);
    assert_eq!(socket.remote_addr, IpAddr::v4(8, 8, 8, 8));
    assert_eq!(socket.remote_port, 443);
    assert_eq!(socket.uid, 1000);
    assert_eq!(socket.inode, 55124);
    let err = parse_proc_net_line(p(), 9, "").expect_err("nothing there");
    assert!(matches!(err, Error::Parse { line: Some(9), .. }), "got {err:?}");
}
