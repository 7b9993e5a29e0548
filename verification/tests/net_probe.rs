//! Names behind addresses, and routes to them.

use rustmon::addr::{parse_address, IpAddr};
use rustmon::error::{IoErrorKind, IoFailure};
use rustmon::net_probe::dns::{
    build_query, decode_name, encode_qname, parse_ptr_response, ptr_qname, ptr_request, query_id,
    read_nameserver, resolve_ptr, QCLASS_IN, QTYPE_PTR,
};
use rustmon::net_probe::traceroute::{
    build_echo_request, internet_checksum, parse_reply, Trace, TraceAction, TraceEvent, MAX_HOPS,
    PROBE_TIMEOUT, TRACE_BUDGET,
};
use rustmon::sysfs::{PathFacts, SysfsReader};

/// A tree of files that stands in for the filesystem below a root.
struct TempTree {
    files: Vec<(String, Vec<u8>)>,
    dirs: Vec<String>,
    links: Vec<(String, String)>,
}

const ROOT: &str = "/fixture";

fn failed(kind: IoErrorKind) -> IoFailure {
    IoFailure { kind, errno: None, message: "it failed".to_string() }
}

#[allow(dead_code)]
impl TempTree {
    fn new(_tag: &str) -> TempTree {
        TempTree { files: Vec::new(), dirs: Vec::new(), links: Vec::new() }
    }

    fn dir(&mut self, rel: &str) -> &mut TempTree {
        let mut upto = String::new();
        for part in rel.split('/') {
            if !upto.is_empty() {
                upto.push('/');
            }
            upto.push_str(part);
            if !self.dirs.contains(&upto) {
                self.dirs.push(upto.clone());
            }
        }
        self
    }

    fn parent(&mut self, rel: &str) {
        if let Some((parent, _)) = rel.rsplit_once('/') {
            self.dir(parent);
        }
    }

    fn file(&mut self, rel: &str, contents: &str) -> &mut TempTree {
        self.parent(rel);
        self.files.retain(|(path, _)| path != rel);
        self.files.push((rel.to_string(), contents.as_bytes().to_vec()));
        self
    }

    fn symlink(&mut self, rel: &str, target: &str) -> &mut TempTree {
        self.parent(rel);
        self.links.push((rel.to_string(), target.to_string()));
        self
    }

    fn remove(&mut self, rel: &str) -> &mut TempTree {
        let below = format!("{rel}/");
        self.files.retain(|(path, _)| path != rel && !path.starts_with(&below));
        self.dirs.retain(|path| path != rel && !path.starts_with(&below));
        self.links.retain(|(path, _)| path != rel && !path.starts_with(&below));
        self
    }

    fn entries(&self, rel: &str) -> Vec<Option<String>> {
        let below = if rel.is_empty() { String::new() } else { format!("{rel}/") };
        let mut names: Vec<Option<String>> = Vec::new();
        let paths = self.dirs.iter().chain(self.files.iter().map(|(p, _)| p)).chain(
            self.links.iter().map(|(p, _)| p),
        );
        for path in paths {
            if let Some(rest) = path.strip_prefix(&below) {
                if !rest.is_empty() && !rest.contains('/') {
                    names.push(Some(rest.to_string()));
                }
            }
        }
        names
    }

    /// The facts of what really is at `at`, recorded under `path`.
    fn facts(&self, path: &str, at: &str) -> PathFacts {
        let canonical = if at.is_empty() { ROOT.to_string() } else { format!("{ROOT}/{at}") };
        let file = self.files.iter().find(|(p, _)| p == at);
        let is_dir = at.is_empty() || self.dirs.contains(&at.to_string());
        PathFacts {
            path: path.to_string(),
            canonical: Ok(canonical),
            contents: match file {
                Some((_, bytes)) => Ok(bytes.clone()),
                None => Err(failed(IoErrorKind::Other)),
            },
            entries: if is_dir { Ok(self.entries(at)) } else { Err(failed(IoErrorKind::Other)) },
            target: Err(failed(IoErrorKind::Other)),
        }
    }

    fn reader(&self) -> SysfsReader {
        let mut reader = match SysfsReader::with_root(ROOT, Ok(ROOT.to_string()), true) {
            Ok(reader) => reader,
            Err(e) => panic!("{}", e.to_string()),
        };
        let mut paths: Vec<String> = vec![String::new()];
        paths.extend(self.dirs.iter().cloned());
        paths.extend(self.files.iter().map(|(p, _)| p.clone()));
        for path in &paths {
            reader.record(self.facts(path, path));
        }
        for (path, target) in &self.links {
            let inside = target.strip_prefix("/fixture/");
            let mut link = match inside {
                Some(at) => self.facts(path, at),
                None => self.facts(path, path),
            };
            if inside.is_none() {
                link.canonical = if target.starts_with('/') {
                    Ok(target.clone())
                } else {
                    Err(failed(IoErrorKind::NotFound))
                };
                link.entries = Ok(Vec::new());
            }
            link.target = Ok(target.clone());
            reader.record(link);
            if let Some(at) = inside {
                for real in &paths {
                    if let Some(rest) = real.strip_prefix(&format!("{at}/")) {
                        reader.record(self.facts(&format!("{path}/{rest}"), real));
                    }
                }
            }
        }
        reader
    }
}

fn addr(text: &str) -> IpAddr {
    let chars: Vec<char> = text.chars().collect();
    parse_address(&chars).expect("an address")
}

// ---- addresses ---------------------------------------------------------------

#[test]
fn addresses_are_read_as_they_are_written() {
    for text in [
        "0.0.0.0",
        "8.8.8.8",
        "255.255.255.255",
        "::",
        "::1",
        "2001:db8::1",
        "1:2:3:4:5:6:7:8",
        "fe80::1:2:3:4",
        "::ffff:1.2.3.4",
    ] {
        assert_eq!(addr(text).to_string(), text);
    }
    assert_eq!(addr("1:2:3:4:5:6:7::").to_string(), "1:2:3:4:5:6:7:0");
    assert_eq!(addr("64:FF9B::192.0.2.33").to_string(), "64:ff9b::c000:221");
    assert_eq!(addr("1:2:3:4:5:6:1.2.3.4").to_string(), "1:2:3:4:5:6:102:304");
}

#[test]
fn what_is_no_address_is_not_read_as_one() {
    for text in [
        "",
        "1.2.3",
        "1.2.3.4.5",
        "256.1.1.1",
        "01.2.3.4",
        "1.2.3.4 ",
        "+1.2.3.4",
        ":",
        ":::",
        "1::2::3",
        "12345::",
        "g::",
        "1:2:3:4:5:6:7",
        "1:2:3:4:5:6:7:8:9",
        "1:2:3:4:5:6:7:8::",
        "::1:2:3:4:5:6:7:8",
        "1.2.3.4::",
        "1:2:3:4:5:6::1.2.3.4",
        "fe80::1%eth0",
    ] {
        let chars: Vec<char> = text.chars().collect();
        assert_eq!(parse_address(&chars), None, "{text:?}");
    }
}

// ---- names on the wire ---------------------------------------------------------

#[test]
fn ptr_qname_reverses_ipv4_octets() {
    assert_eq!(ptr_qname(addr("8.8.8.8")), "8.8.8.8.in-addr.arpa");
    assert_eq!(ptr_qname(addr("1.2.3.4")), "4.3.2.1.in-addr.arpa");
}

#[test]
fn ptr_qname_reverses_ipv6_nibbles() {
    let name = ptr_qname(addr("::1"));
    assert!(name.ends_with(".ip6.arpa"));
    assert!(name.starts_with("1.0.0.0."), "{name}");
    assert_eq!(name.len(), 32 * 2 + "ip6.arpa".len());
}

#[test]
fn encode_qname_length_prefixes_each_label_and_terminates_with_root() {
    let encoded = encode_qname("a.bc.arpa");
    assert_eq!(encoded, vec![1, b'a', 2, b'b', b'c', 4, b'a', b'r', b'p', b'a', 0]);
}

#[test]
fn a_label_is_cut_to_what_the_wire_holds() {
    let encoded = encode_qname(&"x".repeat(70));
    assert_eq!(encoded.len(), 1 + 63 + 1);
    assert_eq!(encoded[0], 63);
}

#[test]
fn decode_name_reads_a_plain_uncompressed_name() {
    let msg = encode_qname("dns.google");
    let (name, end) = decode_name(&msg, 0).expect("decodes");
    assert_eq!(name, "dns.google");
    assert_eq!(end, msg.len());
}

#[test]
fn decode_name_follows_a_compression_pointer() {
    let mut msg = encode_qname("dns.google");
    let pointer_offset = msg.len();
    msg.extend_from_slice(&[0xc0, 0x00]);

    let (name, end) = decode_name(&msg, pointer_offset).expect("decodes");
    assert_eq!(name, "dns.google");
    assert_eq!(end, pointer_offset + 2);
}

#[test]
fn decode_name_rejects_a_self_referencing_pointer_loop() {
    let msg = vec![0xc0, 0x00];
    assert_eq!(decode_name(&msg, 0), None);
}

#[test]
fn decode_name_rejects_a_forward_pointer() {
    let mut msg = vec![0xc0, 0x04];
    msg.extend_from_slice(&encode_qname("x"));
    assert_eq!(decode_name(&msg, 0), None);
}

#[test]
fn decode_name_on_truncated_input_is_none_not_a_panic() {
    assert_eq!(decode_name(&[], 0), None);
    assert_eq!(decode_name(&[5, b'h', b'e'], 0), None);
    assert_eq!(decode_name(&[0xc0], 0), None);
}

#[test]
fn a_name_is_bounded_in_jumps_and_length() {
    let mut msg = vec![0];
    for i in 0..20u8 {
        let target = if i == 0 { 0 } else { 1 + 2 * (i - 1) };
        msg.extend_from_slice(&[0xc0, target]);
    }
    assert!(decode_name(&msg, 1 + 2 * 15).is_some());
    assert_eq!(decode_name(&msg, 1 + 2 * 16), None);

    let mut long = Vec::new();
    for _ in 0..4 {
        long.push(63);
        long.extend_from_slice(&[b'a'; 63]);
    }
    long.push(0);
    assert_eq!(decode_name(&long, 0), None);
    assert_eq!(decode_name(&[0x40, 0], 0), None);
}

#[test]
fn a_label_that_is_no_text_is_replaced() {
    let (name, _) = decode_name(&[2, b'a', 0xff, 0], 0).expect("decodes");
    assert_eq!(name, "a\u{fffd}");
}

// ---- replies ---------------------------------------------------------------------

fn build_fake_response(id: u16, question_name: &str, answer_name: &str) -> Vec<u8> {
    let mut msg = Vec::new();
    msg.extend_from_slice(&id.to_be_bytes());
    msg.extend_from_slice(&0x8180u16.to_be_bytes());
    msg.extend_from_slice(&1u16.to_be_bytes());
    msg.extend_from_slice(&1u16.to_be_bytes());
    msg.extend_from_slice(&0u16.to_be_bytes());
    msg.extend_from_slice(&0u16.to_be_bytes());

    let question_start = msg.len();
    msg.extend_from_slice(&encode_qname(question_name));
    msg.extend_from_slice(&QTYPE_PTR.to_be_bytes());
    msg.extend_from_slice(&QCLASS_IN.to_be_bytes());

    msg.extend_from_slice(&[0xc0, question_start as u8]);
    msg.extend_from_slice(&QTYPE_PTR.to_be_bytes());
    msg.extend_from_slice(&QCLASS_IN.to_be_bytes());
    msg.extend_from_slice(&300u32.to_be_bytes());
    let rdata = encode_qname(answer_name);
    msg.extend_from_slice(&(rdata.len() as u16).to_be_bytes());
    msg.extend_from_slice(&rdata);

    msg
}

#[test]
fn parses_a_real_shaped_ptr_response() {
    let msg = build_fake_response(1234, "8.8.8.8.in-addr.arpa", "dns.google");
    let names = parse_ptr_response(&msg, 1234).expect("parses");
    assert_eq!(names, vec!["dns.google".to_string()]);
}

#[test]
fn a_mismatched_id_is_rejected() {
    let msg = build_fake_response(1234, "8.8.8.8.in-addr.arpa", "dns.google");
    assert_eq!(parse_ptr_response(&msg, 9999), None);
}

#[test]
fn a_query_message_not_marked_as_a_response_is_rejected() {
    let query = build_query(1234, "8.8.8.8.in-addr.arpa");
    assert_eq!(parse_ptr_response(&query, 1234), None);
}

#[test]
fn a_query_has_one_question() {
    let query = build_query(0x1234, "a");
    assert_eq!(
        query,
        vec![0x12, 0x34, 1, 0, 0, 1, 0, 0, 0, 0, 0, 0, 1, b'a', 0, 0, 12, 0, 1]
    );
}

#[test]
fn an_nxdomain_style_rcode_is_an_empty_result_not_none() {
    let mut msg = Vec::new();
    msg.extend_from_slice(&1234u16.to_be_bytes());
    msg.extend_from_slice(&0x8183u16.to_be_bytes());
    msg.extend_from_slice(&1u16.to_be_bytes());
    msg.extend_from_slice(&0u16.to_be_bytes());
    msg.extend_from_slice(&0u16.to_be_bytes());
    msg.extend_from_slice(&0u16.to_be_bytes());
    msg.extend_from_slice(&encode_qname("nope.in-addr.arpa"));
    msg.extend_from_slice(&QTYPE_PTR.to_be_bytes());
    msg.extend_from_slice(&QCLASS_IN.to_be_bytes());

    assert_eq!(parse_ptr_response(&msg, 1234), Some(Vec::new()));
}

#[test]
fn a_hostile_ptr_name_is_sanitised() {
    let msg = build_fake_response(1234, "1.0.0.127.in-addr.arpa", "evil\u{1b}[2Jhost");
    let names = parse_ptr_response(&msg, 1234).expect("parses");
    assert_eq!(names.len(), 1);
    assert!(!names[0].contains('\u{1b}'), "{:?}", names[0]);
    assert!(names[0].contains("evilhost") || names[0].contains("evil"), "{:?}", names[0]);
}

#[test]
fn a_reply_that_is_cut_short_says_nothing() {
    let msg = build_fake_response(1234, "8.8.8.8.in-addr.arpa", "dns.google");
    for end in 0..msg.len() {
        assert_eq!(parse_ptr_response(&msg[..end], 1234), None, "{end} bytes");
    }
}

// ---- the name server -------------------------------------------------------------

#[test]
fn reads_the_first_nameserver_line() {
    let mut tree = TempTree::new("dns-resolv-conf");
    tree.file("etc/resolv.conf", "# comment\nnameserver 8.8.8.8\nnameserver 1.1.1.1\n");
    assert_eq!(read_nameserver(&tree.reader()), Some(addr("8.8.8.8")));
}

#[test]
fn missing_resolv_conf_is_none_not_a_panic() {
    let tree = TempTree::new("dns-no-resolv-conf");
    assert_eq!(read_nameserver(&tree.reader()), None);
}

#[test]
fn a_resolv_conf_with_no_nameserver_line_is_none() {
    let mut tree = TempTree::new("dns-resolv-conf-empty");
    tree.file("etc/resolv.conf", "search example.com\noptions timeout:2\n");
    assert_eq!(read_nameserver(&tree.reader()), None);
}

#[test]
fn a_nameserver_that_is_no_address_is_passed_over() {
    let mut tree = TempTree::new("dns-odd");
    tree.file("etc/resolv.conf", "nameserver\nnameserver here\nnameserver ::1\n");
    assert_eq!(read_nameserver(&tree.reader()), Some(addr("::1")));
}

#[test]
fn a_lookup_asks_the_configured_server() {
    let mut tree = TempTree::new("dns-lookup");
    tree.file("etc/resolv.conf", "nameserver 127.0.0.53\n");
    let reader = tree.reader();
    let (server, query) = ptr_request(&reader, addr("8.8.8.8"), 7).expect("a request");
    assert_eq!(server, addr("127.0.0.53"));
    assert_eq!(query, build_query(7, "8.8.8.8.in-addr.arpa"));

    let reply = build_fake_response(7, "8.8.8.8.in-addr.arpa", "dns.google");
    assert_eq!(
        resolve_ptr(&reader, 7, Some(&reply)),
        Some(vec!["dns.google".to_string()])
    );
    assert_eq!(resolve_ptr(&reader, 7, None), None);

    let nowhere = TempTree::new("dns-nowhere").reader();
    assert!(ptr_request(&nowhere, addr("8.8.8.8"), 7).is_none());
    assert_eq!(resolve_ptr(&nowhere, 7, Some(&reply)), None);
    assert_eq!(query_id(65_537), 1);
}

// ---- checksums -------------------------------------------------------------------

#[test]
fn a_correctly_checksummed_buffer_sums_to_zero() {
    let packet = build_echo_request(0x1234, 0x0001);
    assert_eq!(internet_checksum(&packet), 0);
}

#[test]
fn checksum_of_an_odd_length_buffer_does_not_panic() {
    assert_eq!(internet_checksum(&[1, 2, 3]), !(0x0102 + 0x0300));
}

#[test]
fn checksum_of_an_empty_buffer_is_all_ones() {
    assert_eq!(internet_checksum(&[]), 0xffff);
}

#[test]
fn carries_are_folded_back_in() {
    assert_eq!(internet_checksum(&[0xff, 0xff, 0x00, 0x02]), !0x0002);
}

#[test]
fn echo_request_has_the_right_shape() {
    let packet = build_echo_request(0xabcd, 0x0007);
    assert_eq!(packet[0], 8, "type must be Echo Request");
    assert_eq!(packet[1], 0, "code must be 0");
    assert_eq!(&packet[4..6], &0xabcdu16.to_be_bytes());
    assert_eq!(&packet[6..8], &0x0007u16.to_be_bytes());
    assert_eq!(packet.len(), 8);
}

// ---- replies of routers ------------------------------------------------------------

fn fake_ip_header(src: [u8; 4]) -> Vec<u8> {
    let mut header = vec![0u8; 20];
    header[0] = 0x45;
    header[9] = 1;
    header[12..16].copy_from_slice(&src);
    header
}

fn echo_reply(src: [u8; 4], ident: u16, seq: u16) -> Vec<u8> {
    let mut buf = fake_ip_header(src);
    buf.extend_from_slice(&[0, 0, 0, 0]);
    buf.extend_from_slice(&ident.to_be_bytes());
    buf.extend_from_slice(&seq.to_be_bytes());
    buf
}

fn time_exceeded(src: [u8; 4], ident: u16, seq: u16) -> Vec<u8> {
    let mut buf = fake_ip_header(src);
    buf.extend_from_slice(&[11, 0, 0, 0]);
    buf.extend_from_slice(&[0, 0, 0, 0]);
    buf.extend_from_slice(&fake_ip_header([93, 184, 216, 34]));
    buf.extend_from_slice(&build_echo_request(ident, seq));
    buf
}

#[test]
fn recognises_a_matching_echo_reply() {
    let buf = echo_reply([93, 184, 216, 34], 0x1234, 0x0005);
    assert_eq!(parse_reply(&buf, 0x1234, 0x0005), Some(IpAddr::v4(93, 184, 216, 34)));
}

#[test]
fn rejects_an_echo_reply_with_a_mismatched_sequence() {
    let buf = echo_reply([1, 1, 1, 1], 0x1234, 0x0005);
    assert_eq!(parse_reply(&buf, 0x1234, 0x0099), None);
}

#[test]
fn recognises_a_matching_time_exceeded_from_an_intermediate_hop() {
    let buf = time_exceeded([10, 0, 0, 1], 0x1234, 0x0005);
    assert_eq!(
        parse_reply(&buf, 0x1234, 0x0005),
        Some(IpAddr::v4(10, 0, 0, 1)),
        "must report the replying router's address, not the original destination"
    );
}

#[test]
fn an_unrelated_icmp_type_is_not_a_match() {
    let mut buf = fake_ip_header([1, 1, 1, 1]);
    buf.extend_from_slice(&[3, 0, 0, 0]);
    buf.extend_from_slice(&0x1234u16.to_be_bytes());
    buf.extend_from_slice(&0x0005u16.to_be_bytes());

    assert_eq!(parse_reply(&buf, 0x1234, 0x0005), None);
}

#[test]
fn truncated_or_empty_buffers_are_none_not_a_panic() {
    assert_eq!(parse_reply(&[], 1, 1), None);
    assert_eq!(parse_reply(&[0x45], 1, 1), None);
    assert_eq!(parse_reply(&fake_ip_header([0, 0, 0, 0]), 1, 1), None);
}

// ---- a trace ---------------------------------------------------------------------

fn probe_ttl(action: TraceAction) -> u8 {
    match action {
        TraceAction::Probe { ttl, packet } => {
            assert_eq!(packet, build_echo_request(9, ttl as u16));
            ttl
        }
        TraceAction::Receive => panic!("expected a probe, not a wait"),
        TraceAction::Finish => panic!("expected a probe, not the end"),
    }
}

#[test]
fn a_trace_ends_at_its_destination() {
    let dest = IpAddr::v4(93, 184, 216, 34);
    let mut trace = Trace::new(dest, 9, 0);
    assert_eq!(probe_ttl(trace.advance(TraceEvent::Started, 0)), 1);
    assert!(matches!(trace.advance(TraceEvent::Sent, 1), TraceAction::Receive));
    let stray = TraceEvent::Received(echo_reply([5, 5, 5, 5], 8, 1));
    assert!(matches!(trace.advance(stray, 2), TraceAction::Receive));
    let router = TraceEvent::Received(time_exceeded([10, 0, 0, 1], 9, 1));
    assert_eq!(probe_ttl(trace.advance(router, 3)), 2);
    assert_eq!(probe_ttl(trace.advance(TraceEvent::SendFailed, 4)), 3);
    assert!(matches!(trace.advance(TraceEvent::Sent, 5), TraceAction::Receive));
    assert_eq!(probe_ttl(trace.advance(TraceEvent::ReceiveFailed, 6)), 4);
    assert!(matches!(trace.advance(TraceEvent::Sent, 7), TraceAction::Receive));
    let reached = TraceEvent::Received(echo_reply([93, 184, 216, 34], 9, 4));
    assert!(matches!(trace.advance(reached, 8), TraceAction::Finish));
    assert!(matches!(trace.advance(TraceEvent::Started, 9), TraceAction::Finish));
    assert_eq!(
        trace.into_hops(),
        vec![Some(IpAddr::v4(10, 0, 0, 1)), None, None, Some(dest)]
    );
}

#[test]
fn a_trace_is_bounded_in_hops_and_time() {
    let mut trace = Trace::new(IpAddr::v4(127, 0, 0, 1), 9, 0);
    let mut action = trace.advance(TraceEvent::Started, 0);
    let mut probes = 0;
    while let TraceAction::Probe { .. } = action {
        probes += 1;
        action = trace.advance(TraceEvent::SendFailed, 0);
    }
    assert_eq!(probes, usize::from(MAX_HOPS));
    assert_eq!(trace.into_hops().len(), usize::from(MAX_HOPS));

    let mut trace = Trace::new(IpAddr::v4(127, 0, 0, 1), 9, 0);
    assert_eq!(probe_ttl(trace.advance(TraceEvent::Started, 0)), 1);
    assert!(matches!(trace.advance(TraceEvent::Sent, 0), TraceAction::Receive));
    let stray = TraceEvent::Received(Vec::new());
    assert_eq!(probe_ttl(trace.advance(stray, PROBE_TIMEOUT)), 2);
    let late = TraceEvent::SendFailed;
    assert!(matches!(trace.advance(late, TRACE_BUDGET), TraceAction::Finish));
    assert_eq!(trace.into_hops(), vec![None, None]);
}
