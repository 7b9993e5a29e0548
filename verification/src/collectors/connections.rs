//! Connections to the internet, from `/proc/net/{tcp,tcp6,udp,udp6}`, and the
//! processes that own them.

use vstd::prelude::*;

use crate::addr::{group, nats, octet, octets, split_groups, IpAddr};
use crate::collector::{Collected, Collector};
use crate::error::{Error, ErrorView};
use crate::number::{parse, parse_of, parse_u64};
use crate::sample::{
    tcp_state_of, views, ConnProtocol, Connection, ConnectionSample, ConnectionSampleView,
    ConnectionView, Snapshot, SnapshotView, TcpState,
};
use crate::sysfs::{
    quoted, sanitize_kernel_string, sanitized, show, NameFilter, SysfsReader, DEFAULT_MAX_LINES,
};
use crate::text::{
    chars_of, cut_at, first_of, lines, lines_of, slices, split_once, strings,
    strip_prefix, strip_suffix, text2, text3, text_option_view, trim, trim_of, without_prefix,
    without_suffix, words, words_of,
};

verus! {

pub const NAME: &'static str = "connections";

pub const PROC_TCP: &'static str = "proc/net/tcp";

pub const PROC_TCP6: &'static str = "proc/net/tcp6";

pub const PROC_UDP: &'static str = "proc/net/udp";

pub const PROC_UDP6: &'static str = "proc/net/udp6";

/// Cap on a program's name.
pub const MAX_PROGRAM_NAME_LEN: usize = 64;

// ---------------------------------------------------------------------------
// Addresses
// ---------------------------------------------------------------------------
/// The bytes that pairs of hexadecimal digits write.
pub open spec fn hex_bytes_of(s: Seq<char>) -> Option<Seq<u8>>
    decreases s.len(),
{
    if s.len() == 0 || s.len() % 2 != 0 {
        None
    } else {
        match parse_of(s.take(2), 16, 255) {
            None => None,
            Some(b) => if s.len() == 2 {
                Some(seq![b as u8])
            } else {
                match hex_bytes_of(s.skip(2)) {
                    None => None,
                    Some(rest) => Some(seq![b as u8] + rest),
                }
            },
        }
    }
}

/// Four bytes as one number, the last on top: the kernel writes a word in the
/// order of a little-endian machine.
pub open spec fn word_at(bytes: Seq<u8>, i: int) -> nat {
    (((bytes[i + 3] * 256 + bytes[i + 2]) * 256 + bytes[i + 1]) * 256 + bytes[i]) as nat
}

/// The address that hexadecimal digits write: one word for IPv4, four words
/// for IPv6.
pub open spec fn hex_addr_of(s: Seq<char>) -> Option<IpAddr> {
    match hex_bytes_of(s) {
        None => None,
        Some(b) => if b.len() == 4 {
            Some(IpAddr::V4(word_at(b, 0) as u32))
        } else if b.len() == 16 {
            Some(
                IpAddr::V6(
                    (((word_at(b, 0) * 0x1_0000_0000 + word_at(b, 4)) * 0x1_0000_0000 + word_at(
                        b,
                        8,
                    )) * 0x1_0000_0000 + word_at(b, 12)) as u128,
                ),
            )
        } else {
            None
        },
    }
}

/// The address and the port of a field. The port is not reversed.
pub open spec fn hex_addr_port_of(s: Seq<char>) -> Option<(IpAddr, u16)> {
    match cut_at(s, ':') {
        None => None,
        Some((addr, port)) => match parse_of(port, 16, u16::MAX as nat) {
            None => None,
            Some(p) => match hex_addr_of(addr) {
                None => None,
                Some(a) => Some((a, p as u16)),
            },
        },
    }
}

pub open spec fn bytes_option_view(r: Option<Vec<u8>>) -> Option<Seq<u8>> {
    match r {
        Some(v) => Some(v@),
        None => None,
    }
}

fn decode_hex(s: &[char]) -> (r: Option<Vec<u8>>)
    ensures
        bytes_option_view(r) == hex_bytes_of(s@),
{
    if s.len() == 0 || s.len() % 2 != 0 {
        return None;
    }
    let mut out: Vec<u8> = Vec::new();
    let mut rest: &[char] = s;
    while rest.len() > 2
        invariant
            rest.len() >= 2,
            rest.len() % 2 == 0,
            hex_bytes_of(s@) == match hex_bytes_of(rest@) {
                Some(more) => Some(out@ + more),
                None => None,
            },
        decreases rest.len(),
    {
        let pair: &[char] = &rest[0..2];
        let next: &[char] = &rest[2..rest.len()];
        assert(pair@ == rest@.take(2));
        assert(next@ == rest@.skip(2));
        match parse(pair, 16, 255) {
            None => return None,
            Some(b) => {
                let ghost before = out@;
                out.push(b as u8);
                proof {
                    match hex_bytes_of(next@) {
                        Some(more) => {
                            assert(before.push(b as u8) + more == before + (seq![b as u8] + more));
                        },
                        None => {},
                    }
                }
            },
        }
        rest = next;
    }
    assert(rest@.take(2) == rest@);
    match parse(rest, 16, 255) {
        None => None,
        Some(b) => {
            let ghost before = out@;
            out.push(b as u8);
            assert(before.push(b as u8) == before + seq![b as u8]);
            Some(out)
        },
    }
}

fn word(bytes: &Vec<u8>, i: usize) -> (r: u32)
    requires
        i + 3 < bytes.len(),
    ensures
        r == word_at(bytes@, i as int),
{
    ((bytes[i + 3] as u32 * 256 + bytes[i + 2] as u32) * 256 + bytes[i + 1] as u32) * 256
        + bytes[i] as u32
}

fn decode_addr(s: &[char]) -> (r: Option<IpAddr>)
    ensures
        r == hex_addr_of(s@),
{
    let bytes = match decode_hex(s) {
        None => return None,
        Some(bytes) => bytes,
    };
    if bytes.len() == 4 {
        Some(IpAddr::V4(word(&bytes, 0)))
    } else if bytes.len() == 16 {
        let a: u128 = word(&bytes, 0) as u128;
        let b: u128 = word(&bytes, 4) as u128;
        let c: u128 = word(&bytes, 8) as u128;
        let d: u128 = word(&bytes, 12) as u128;
        Some(
            IpAddr::V6(((a * 0x1_0000_0000 + b) * 0x1_0000_0000 + c) * 0x1_0000_0000 + d),
        )
    } else {
        None
    }
}

fn decode_addr_port(s: &[char]) -> (r: Option<(IpAddr, u16)>)
    ensures
        r == hex_addr_port_of(s@),
{
    let (addr, port) = match split_once(s, ':') {
        None => return None,
        Some(parts) => parts,
    };
    match parse(port, 16, u16::MAX as u64) {
        None => None,
        Some(p) => match decode_addr(addr) {
            None => None,
            Some(a) => Some((a, p as u16)),
        },
    }
}

/// Decodes pairs of hexadecimal digits.
pub fn decode_hex_bytes(hex: &str) -> (r: Option<Vec<u8>>)
    ensures
        bytes_option_view(r) == hex_bytes_of(hex@),
{
    let cs = chars_of(hex);
    decode_hex(cs.as_slice())
}

/// Decodes an address.
pub fn parse_hex_addr(hex: &str) -> (r: Option<IpAddr>)
    ensures
        r == hex_addr_of(hex@),
{
    let cs = chars_of(hex);
    decode_addr(cs.as_slice())
}

/// Decodes an `address:port` field.
pub fn parse_hex_addr_port(field: &str) -> (r: Option<(IpAddr, u16)>)
    ensures
        r == hex_addr_port_of(field@),
{
    let cs = chars_of(field);
    decode_addr_port(cs.as_slice())
}

/// An IPv4 address by its octets that is not on the internet: private,
/// loopback, link-local, unspecified, multicast, broadcast or for
/// documentation.
pub open spec fn special_v4(a: nat, b: nat, c: nat, d: nat) -> bool {
    ||| a == 10
    ||| a == 172 && 16 <= b <= 31
    ||| a == 192 && b == 168
    ||| a == 127
    ||| a == 169 && b == 254
    ||| a == 0 && b == 0 && c == 0 && d == 0
    ||| 224 <= a <= 239
    ||| a == 255 && b == 255 && c == 255 && d == 255
    ||| a == 192 && b == 0 && c == 2
    ||| a == 198 && b == 51 && c == 100
    ||| a == 203 && b == 0 && c == 113
}

/// The address is on the internet. Of IPv6, the loopback and the unspecified
/// address, multicast, link-local `fe80::/10` and unique local `fc00::/7` are
/// not.
pub open spec fn public_ip(addr: IpAddr) -> bool {
    match addr {
        IpAddr::V4(bits) => !special_v4(
            octet(bits as nat, 0),
            octet(bits as nat, 1),
            octet(bits as nat, 2),
            octet(bits as nat, 3),
        ),
        IpAddr::V6(bits) => {
            let top = group(bits as nat, 0);
            !(bits <= 1 || top >= 0xff00 || 0xfe80 <= top <= 0xfebf || 0xfc00 <= top <= 0xfdff)
        },
    }
}

/// Is this address one of the internet's?
pub fn is_public_ip(addr: &IpAddr) -> (r: bool)
    ensures
        r == public_ip(*addr),
{
    match *addr {
        IpAddr::V4(bits) => {
            let (a, b, c, d) = octets(bits);
            !(a == 10 || (a == 172 && 16 <= b && b <= 31) || (a == 192 && b == 168) || a == 127 || (a
                == 169 && b == 254) || (a == 0 && b == 0 && c == 0 && d == 0) || (224 <= a && a
                <= 239) || (a == 255 && b == 255 && c == 255 && d == 255) || (a == 192 && b == 0
                && c == 2) || (a == 198 && b == 51 && c == 100) || (a == 203 && b == 0 && c == 113))
        },
        IpAddr::V6(bits) => {
            let all = split_groups(bits);
            assert(nats(all@).len() == 8);
            assert(nats(all@)[0] == all@[0] as nat);
            let top: u16 = all[0];
            !(bits <= 1 || top >= 0xff00 || (0xfe80 <= top && top <= 0xfebf) || (0xfc00 <= top && top
                <= 0xfdff))
        },
    }
}

// ---------------------------------------------------------------------------
// The tables
// ---------------------------------------------------------------------------
/// One line of a socket table.
#[derive(Debug, Clone, Copy, PartialEq, Eq, Structural)]
pub struct RawSocket {
    pub local_addr: IpAddr,
    pub local_port: u16,
    pub remote_addr: IpAddr,
    pub remote_port: u16,
    pub state_byte: u8,
    pub uid: u32,
    pub inode: u64,
}

/// The name of the column at `i`.
pub open spec fn column(i: nat) -> Seq<char> {
    if i == 0 {
        "sl"@
    } else if i == 1 {
        "local_address"@
    } else if i == 2 {
        "rem_address"@
    } else if i == 3 {
        "st"@
    } else if i == 4 {
        "tx_queue:rx_queue"@
    } else if i == 5 {
        "tr:tm->when"@
    } else if i == 6 {
        "retrnsmt"@
    } else if i == 7 {
        "uid"@
    } else if i == 8 {
        "timeout"@
    } else {
        "inode"@
    }
}

fn column_name(i: usize) -> (r: &'static str)
    ensures
        r@ == column(i as nat),
{
    if i == 0 {
        "sl"
    } else if i == 1 {
        "local_address"
    } else if i == 2 {
        "rem_address"
    } else if i == 3 {
        "st"
    } else if i == 4 {
        "tx_queue:rx_queue"
    } else if i == 5 {
        "tr:tm->when"
    } else if i == 6 {
        "retrnsmt"
    } else if i == 7 {
        "uid"
    } else if i == 8 {
        "timeout"
    } else {
        "inode"
    }
}

pub open spec fn bad_line(path: Seq<char>, line_no: usize, reason: Seq<char>) -> ErrorView {
    ErrorView::Parse { path, line: Some(line_no), reason }
}

/// A column as an error shows it.
pub open spec fn shown_field(field: Seq<char>) -> Seq<char> {
    quoted(sanitized(field, 64))
}

/// What a line of a socket table says: ten columns, of which addresses, state,
/// user and inode count. The first column that is missing is an error, and
/// then the first that makes no sense.
pub open spec fn socket_line_of(path: Seq<char>, line_no: usize, line: Seq<char>) -> Result<
    RawSocket,
    ErrorView,
> {
    let f = words_of(line);
    if f.len() < 10 {
        Err(bad_line(path, line_no, "line has no "@ + column(f.len()) + " field"@))
    } else {
        match hex_addr_port_of(f[1]) {
            None => Err(
                bad_line(path, line_no, "unparseable local address "@ + shown_field(f[1])),
            ),
            Some((local_addr, local_port)) => match hex_addr_port_of(f[2]) {
                None => Err(
                    bad_line(path, line_no, "unparseable remote address "@ + shown_field(f[2])),
                ),
                Some((remote_addr, remote_port)) => match parse_of(f[3], 16, 255) {
                    None => Err(
                        bad_line(path, line_no, "state "@ + shown_field(f[3]) + " is not hex"@),
                    ),
                    Some(state) => match parse_of(f[7], 10, u32::MAX as nat) {
                        None => Err(
                            bad_line(path, line_no, "uid "@ + shown_field(f[7]) + " is not a number"@),
                        ),
                        Some(uid) => match parse_of(f[9], 10, u64::MAX as nat) {
                            None => Err(
                                bad_line(
                                    path,
                                    line_no,
                                    "inode "@ + shown_field(f[9]) + " is not a number"@,
                                ),
                            ),
                            Some(inode) => Ok(
                                RawSocket {
                                    local_addr,
                                    local_port,
                                    remote_addr,
                                    remote_port,
                                    state_byte: state as u8,
                                    uid: uid as u32,
                                    inode: inode as u64,
                                },
                            ),
                        },
                    },
                },
            },
        }
    }
}

pub open spec fn socket_view(r: Result<RawSocket, Error>) -> Result<RawSocket, ErrorView> {
    match r {
        Ok(s) => Ok(s),
        Err(e) => Err(e@),
    }
}

fn show_field(field: &[char]) -> (r: String)
    ensures
        r@ == shown_field(field@),
{
    show(field, 64)
}

fn fail(path: &str, line_no: usize, reason: String) -> (r: Result<RawSocket, Error>)
    ensures
        r is Err,
        r->Err_0@ == bad_line(path@, line_no, reason@),
{
    Err(Error::parse(path, Some(line_no), reason))
}

fn parse_line(path: &str, line_no: usize, line: &[char]) -> (r: Result<RawSocket, Error>)
    ensures
        socket_view(r) == socket_line_of(path@, line_no, line@),
{
    let f = words(line);
    let ghost fs = slices(f@);
    if f.len() < 10 {
        return fail(path, line_no, text3("line has no ", column_name(f.len()), " field"));
    }
    assert(fs[1] == f@[1]@ && fs[2] == f@[2]@ && fs[3] == f@[3]@ && fs[7] == f@[7]@ && fs[9]
        == f@[9]@);
    let (local_addr, local_port) = match decode_addr_port(f[1]) {
        None => {
            let shown = show_field(f[1]);
            return fail(path, line_no, text2("unparseable local address ", shown.as_str()));
        },
        Some(local) => local,
    };
    let (remote_addr, remote_port) = match decode_addr_port(f[2]) {
        None => {
            let shown = show_field(f[2]);
            return fail(path, line_no, text2("unparseable remote address ", shown.as_str()));
        },
        Some(remote) => remote,
    };
    let state: u64 = match parse(f[3], 16, 255) {
        None => {
            let shown = show_field(f[3]);
            return fail(path, line_no, text3("state ", shown.as_str(), " is not hex"));
        },
        Some(state) => state,
    };
    let uid: u64 = match parse(f[7], 10, u32::MAX as u64) {
        None => {
            let shown = show_field(f[7]);
            return fail(path, line_no, text3("uid ", shown.as_str(), " is not a number"));
        },
        Some(uid) => uid,
    };
    let inode: u64 = match parse_u64(f[9]) {
        None => {
            let shown = show_field(f[9]);
            return fail(path, line_no, text3("inode ", shown.as_str(), " is not a number"));
        },
        Some(inode) => inode,
    };
    Ok(
        RawSocket {
            local_addr,
            local_port,
            remote_addr,
            remote_port,
            state_byte: state as u8,
            uid: uid as u32,
            inode,
        },
    )
}

/// One line of a socket table.
pub fn parse_proc_net_line(path: &str, line_no: usize, line: &str) -> (r: Result<RawSocket, Error>)
    ensures
        socket_view(r) == socket_line_of(path@, line_no, line@),
{
    let cs = chars_of(line);
    parse_line(path, line_no, cs.as_slice())
}

/// What the lines say, of which the first has the number `line_no`. Blank
/// lines say nothing, and a line that makes no sense fails the whole table.
pub open spec fn socket_lines(path: Seq<char>, line_no: nat, lines: Seq<Seq<char>>) -> Result<
    Seq<RawSocket>,
    ErrorView,
>
    decreases lines.len(),
{
    if lines.len() == 0 {
        Ok(seq![])
    } else if trim_of(lines[0]).len() == 0 {
        socket_lines(path, line_no + 1, lines.drop_first())
    } else {
        match socket_line_of(path, line_no as usize, lines[0]) {
            Err(e) => Err(e),
            Ok(s) => match socket_lines(path, line_no + 1, lines.drop_first()) {
                Err(e) => Err(e),
                Ok(rest) => Ok(seq![s] + rest),
            },
        }
    }
}

/// The lines behind the header.
pub open spec fn table_lines(contents: Seq<char>) -> Seq<Seq<char>> {
    let all = lines_of(contents);
    if all.len() == 0 {
        seq![]
    } else {
        first_of(all.skip(1), DEFAULT_MAX_LINES as nat)
    }
}

pub open spec fn sockets_of_table(path: Seq<char>, contents: Seq<char>) -> Result<
    Seq<RawSocket>,
    ErrorView,
> {
    socket_lines(path, 2, table_lines(contents))
}

pub open spec fn sockets_view(r: Result<Vec<RawSocket>, Error>) -> Result<Seq<RawSocket>, ErrorView> {
    match r {
        Ok(v) => Ok(v@),
        Err(e) => Err(e@),
    }
}

/// Parses a whole socket table, whose first line is a header.
pub fn parse_proc_net(path: &str, contents: &str) -> (r: Result<Vec<RawSocket>, Error>)
    ensures
        sockets_view(r) == sockets_of_table(path@, contents@),
{
    let cs = chars_of(contents);
    let all = lines(cs.as_slice());
    let ghost ls = slices(all@);
    let ghost data = table_lines(contents@);
    let mut out: Vec<RawSocket> = Vec::new();
    if all.len() == 0 {
        return Ok(out);
    }
    let n: usize = if all.len() - 1 < DEFAULT_MAX_LINES {
        all.len() - 1
    } else {
        DEFAULT_MAX_LINES
    };
    let mut i: usize = 0;
    assert(data.skip(0) == data);
    assert forall|rest: Seq<RawSocket>| #[trigger] (out@ + rest) == rest by {}
    while i < n
        invariant
            i <= n,
            n <= all.len() - 1,
            n <= DEFAULT_MAX_LINES,
            n == data.len(),
            ls == slices(all@),
            data == first_of(ls.skip(1), DEFAULT_MAX_LINES as nat),
            data == table_lines(contents@),
            socket_lines(path@, 2, data) == match socket_lines(
                path@,
                (i + 2) as nat,
                data.skip(i as int),
            ) {
                Ok(rest) => Ok::<Seq<RawSocket>, ErrorView>(out@ + rest),
                Err(e) => Err(e),
            },
        decreases n - i,
    {
        let line: &[char] = all[i + 1];
        assert(data.skip(i as int)[0] == line@);
        assert(data.skip(i as int).drop_first() == data.skip(i + 1));
        if trim(line).len() > 0 {
            match parse_line(path, i + 2, line) {
                Err(e) => return Err(e),
                Ok(s) => {
                    let ghost before = out@;
                    out.push(s);
                    proof {
                        match socket_lines(path@, (i + 3) as nat, data.skip(i + 1)) {
                            Ok(more) => {
                                assert(before.push(s) + more == before + (seq![s] + more));
                            },
                            Err(_) => {},
                        }
                    }
                },
            }
        }
        i = i + 1;
    }
    assert(data.skip(i as int) == Seq::<Seq<char>>::empty());
    assert(out@ + Seq::<RawSocket>::empty() == out@);
    Ok(out)
}

/// A socket with a peer on the internet. Port zero means that there is no
/// peer.
pub open spec fn interesting(s: RawSocket) -> bool {
    s.remote_port != 0 && public_ip(s.remote_addr)
}

pub fn is_interesting(entry: &RawSocket) -> (r: bool)
    ensures
        r == interesting(*entry),
{
    entry.remote_port != 0 && is_public_ip(&entry.remote_addr)
}

// ---------------------------------------------------------------------------
// Owners
// ---------------------------------------------------------------------------
/// The inode of the socket that a file descriptor's link names.
pub open spec fn socket_inode_of(target: Seq<char>) -> Option<u64> {
    match without_prefix(target, "socket:["@) {
        None => None,
        Some(rest) => match without_suffix(rest, "]"@) {
            None => None,
            Some(digits) => match parse_of(digits, 10, u64::MAX as nat) {
                None => None,
                Some(n) => Some(n as u64),
            },
        },
    }
}

/// The inode of a `socket:[N]` target; any other target is no socket.
pub fn parse_socket_inode(target: &str) -> (r: Option<u64>)
    ensures
        r == socket_inode_of(target@),
{
    let cs = chars_of(target);
    match strip_prefix(cs.as_slice(), "socket:[") {
        None => None,
        Some(rest) => match strip_suffix(rest, "]") {
            None => None,
            Some(digits) => parse_u64(digits),
        },
    }
}

/// The name of a process, where it can be read.
pub open spec fn program_of(reader: &SysfsReader, pid: Seq<char>) -> Option<Seq<char>> {
    match reader.first_line_at("proc/"@ + pid + "/comm"@) {
        Ok(Ok(name)) => Some(sanitized(name, MAX_PROGRAM_NAME_LEN as nat)),
        _ => None,
    }
}

/// What stands behind the first `PPid:` that begins a line.
pub open spec fn ppid_in(lines: Seq<Seq<char>>) -> Option<u32>
    decreases lines.len(),
{
    if lines.len() == 0 {
        None
    } else {
        match without_prefix(lines[0], "PPid:"@) {
            Some(rest) => match parse_of(trim_of(rest), 10, u32::MAX as nat) {
                Some(n) => Some(n as u32),
                None => None,
            },
            None => ppid_in(lines.drop_first()),
        }
    }
}

/// The parent of a process, where it can be read.
pub open spec fn ppid_of(reader: &SysfsReader, pid: Seq<char>) -> Option<u32> {
    match reader.text_at("proc/"@ + pid + "/status"@) {
        Ok(Ok(text)) => ppid_in(lines_of(text)),
        _ => None,
    }
}

pub fn read_program_name(reader: &SysfsReader, pid: &str) -> (r: Option<String>)
    ensures
        text_option_view(r) == program_of(reader, pid@),
{
    let path = text3("proc/", pid, "/comm");
    match reader.read_first_line(path.as_str()) {
        Ok(Ok(name)) => Some(sanitize_kernel_string(name.as_str(), MAX_PROGRAM_NAME_LEN)),
        _ => None,
    }
}

/// The parent of a process, from its status file. `None` where the file, the
/// line or the number is missing.
pub fn read_parent_pid(reader: &SysfsReader, pid: &str) -> (r: Option<u32>)
    ensures
        r == ppid_of(reader, pid@),
{
    let path = text3("proc/", pid, "/status");
    let contents = match reader.read_to_string(path.as_str()) {
        Ok(Ok(contents)) => contents,
        _ => return None,
    };
    let cs = chars_of(contents.as_str());
    let all = lines(cs.as_slice());
    let ghost ls = slices(all@);
    let mut i: usize = 0;
    assert(ls.skip(0) == ls);
    while i < all.len()
        invariant
            i <= all.len(),
            ls == slices(all@),
            ppid_of(reader, pid@) == ppid_in(ls),
            ppid_in(ls.skip(i as int)) == ppid_in(ls),
        decreases all.len() - i,
    {
        assert(ls.skip(i as int)[0] == all@[i as int]@);
        assert(ls.skip(i as int).drop_first() == ls.skip(i + 1));
        if let Some(rest) = strip_prefix(all[i], "PPid:") {
            return match parse(trim(rest), 10, u32::MAX as u64) {
                Some(n) => Some(n as u32),
                None => None,
            };
        }
        i = i + 1;
    }
    None
}

/// Who owns a socket.
#[derive(Debug)]
pub struct Owner {
    pub pid: u32,
    pub program: Option<String>,
    pub ppid: Option<u32>,
}

pub struct OwnerView {
    pub pid: u32,
    pub program: Option<Seq<char>>,
    pub ppid: Option<u32>,
}

impl View for Owner {
    type V = OwnerView;

    open spec fn view(&self) -> OwnerView {
        OwnerView { pid: self.pid, program: text_option_view(self.program), ppid: self.ppid }
    }
}

pub open spec fn fd_dir(pid: Seq<char>) -> Seq<char> {
    "proc/"@ + pid + "/fd"@
}

/// The sockets among some file descriptors of a directory.
pub open spec fn sockets_among(reader: &SysfsReader, dir: Seq<char>, fds: Seq<Seq<char>>) -> Seq<u64>
    decreases fds.len(),
{
    if fds.len() == 0 {
        seq![]
    } else {
        let before = sockets_among(reader, dir, fds.drop_last());
        match reader.target_at(dir + "/"@ + fds.last()) {
            Ok(Ok(target)) => match socket_inode_of(target) {
                Some(inode) => before.push(inode),
                None => before,
            },
            _ => before,
        }
    }
}

/// The sockets that a process holds, as far as its descriptors can be read.
pub open spec fn sockets_of(reader: &SysfsReader, pid: Seq<char>) -> Seq<u64> {
    match reader.names_at(fd_dir(pid), NameFilter::Numbered { prefix: "" }) {
        Ok(Ok(fds)) => sockets_among(reader, fd_dir(pid), fds),
        _ => seq![],
    }
}

/// The first of the processes that holds a socket.
pub open spec fn owner_among(reader: &SysfsReader, pids: Seq<Seq<char>>, inode: u64) -> Option<
    OwnerView,
>
    decreases pids.len(),
{
    if pids.len() == 0 {
        None
    } else {
        match parse_of(pids[0], 10, u32::MAX as nat) {
            Some(n) => if sockets_of(reader, pids[0]).contains(inode) {
                Some(
                    OwnerView {
                        pid: n as u32,
                        program: program_of(reader, pids[0]),
                        ppid: ppid_of(reader, pids[0]),
                    },
                )
            } else {
                owner_among(reader, pids.drop_first(), inode)
            },
            None => owner_among(reader, pids.drop_first(), inode),
        }
    }
}

/// The process that owns a socket: the first, in the order of their names,
/// whose descriptors show it.
pub open spec fn owner_of(reader: &SysfsReader, inode: u64) -> Option<OwnerView> {
    match reader.names_at("proc"@, NameFilter::Numbered { prefix: "" }) {
        Ok(Ok(pids)) => owner_among(reader, pids, inode),
        _ => None,
    }
}

pub open spec fn owner_view(o: Option<Owner>) -> Option<OwnerView> {
    match o {
        Some(o) => Some(o@),
        None => None,
    }
}

fn read_sockets(reader: &SysfsReader, pid: &str) -> (r: Vec<u64>)
    ensures
        r@ == sockets_of(reader, pid@),
{
    let dir = text3("proc/", pid, "/fd");
    let mut out: Vec<u64> = Vec::new();
    let fds = match reader.list_dir(dir.as_str(), NameFilter::Numbered { prefix: "" }) {
        Ok(Ok(fds)) => fds,
        _ => return out,
    };
    let ghost fs = strings(fds@);
    let mut i: usize = 0;
    while i < fds.len()
        invariant
            i <= fds.len(),
            fs == strings(fds@),
            dir@ == fd_dir(pid@),
            out@ == sockets_among(reader, dir@, fs.take(i as int)),
        decreases fds.len() - i,
    {
        assert(fs.take(i + 1).drop_last() == fs.take(i as int));
        assert(fs.take(i + 1).last() == fds@[i as int]@);
        let path = text3(dir.as_str(), "/", fds[i].as_str());
        if let Ok(Ok(target)) = reader.read_link(path.as_str()) {
            if let Some(inode) = parse_socket_inode(target.as_str()) {
                out.push(inode);
            }
        }
        i = i + 1;
    }
    assert(fs.take(i as int) == fs);
    out
}

fn holds(inodes: &Vec<u64>, inode: u64) -> (r: bool)
    ensures
        r == inodes@.contains(inode),
{
    let mut i: usize = 0;
    while i < inodes.len()
        invariant
            i <= inodes.len(),
            forall|k: int| 0 <= k < i ==> inodes@[k] != inode,
        decreases inodes.len() - i,
    {
        if inodes[i] == inode {
            assert(inodes@[i as int] == inode);
            return true;
        }
        i = i + 1;
    }
    false
}

fn all_found(found: &Vec<Option<Owner>>) -> (r: bool)
    ensures
        r == (forall|k: int| 0 <= k < found@.len() ==> (#[trigger] found@[k]) is Some),
{
    let mut i: usize = 0;
    while i < found.len()
        invariant
            i <= found.len(),
            forall|k: int| 0 <= k < i ==> (#[trigger] found@[k]) is Some,
        decreases found.len() - i,
    {
        if found[i].is_none() {
            assert(found@[i as int] is None);
            return false;
        }
        i = i + 1;
    }
    true
}

/// Gives every socket in `needed` that has no owner yet to the process `pid`,
/// where that holds it.
fn claim(reader: &SysfsReader, pid: &str, n: u32, needed: &Vec<u64>, found: &mut Vec<Option<Owner>>)
    requires
        old(found)@.len() == needed@.len(),
    ensures
        final(found)@.len() == needed@.len(),
        forall|k: int|
            0 <= k < needed@.len() ==> owner_view(#[trigger] final(found)@[k]) == (if old(
                found,
            )@[k] is None && sockets_of(reader, pid@).contains(needed@[k]) {
                Some(
                    OwnerView {
                        pid: n,
                        program: program_of(reader, pid@),
                        ppid: ppid_of(reader, pid@),
                    },
                )
            } else {
                owner_view(old(found)@[k])
            }),
{
    let ghost before = found@;
    let sockets = read_sockets(reader, pid);
    if sockets.len() == 0 {
        return;
    }
    let mut k: usize = 0;
    while k < needed.len()
        invariant
            k <= needed.len(),
            found@.len() == needed@.len(),
            before.len() == needed@.len(),
            sockets@ == sockets_of(reader, pid@),
            forall|j: int| k <= j < needed@.len() ==> #[trigger] found@[j] == before[j],
            forall|j: int|
                0 <= j < k ==> owner_view(#[trigger] found@[j]) == (if before[j] is None
                    && sockets@.contains(needed@[j]) {
                    Some(
                        OwnerView {
                            pid: n,
                            program: program_of(reader, pid@),
                            ppid: ppid_of(reader, pid@),
                        },
                    )
                } else {
                    owner_view(before[j])
                }),
        decreases needed.len() - k,
    {
        assert(found@[k as int] == before[k as int]);
        if found[k].is_none() && holds(&sockets, needed[k]) {
            let owner = Owner {
                pid: n,
                program: read_program_name(reader, pid),
                ppid: read_parent_pid(reader, pid),
            };
            found.set(k, Some(owner));
        }
        k = k + 1;
    }
}

/// Finds the owners of the sockets in `needed`, and looks no further once
/// every one is found.
pub fn resolve_owners(reader: &SysfsReader, needed: &Vec<u64>) -> (r: Vec<Option<Owner>>)
    ensures
        r@.len() == needed@.len(),
        forall|k: int|
            0 <= k < needed@.len() ==> owner_view(#[trigger] r@[k]) == owner_of(
                reader,
                needed@[k],
            ),
{
    let mut found: Vec<Option<Owner>> = Vec::new();
    while found.len() < needed.len()
        invariant
            found@.len() <= needed@.len(),
            forall|k: int| 0 <= k < found@.len() ==> (#[trigger] found@[k]) is None,
        decreases needed.len() - found.len(),
    {
        found.push(None);
    }
    let pids = match reader.list_dir("proc", NameFilter::Numbered { prefix: "" }) {
        Ok(Ok(pids)) => pids,
        _ => return found,
    };
    let ghost ps = strings(pids@);
    let mut i: usize = 0;
    assert(ps.skip(0) == ps);
    while i < pids.len() && !all_found(&found)
        invariant
            i <= pids.len(),
            ps == strings(pids@),
            found@.len() == needed@.len(),
            forall|k: int|
                0 <= k < needed@.len() ==> owner_among(reader, ps, needed@[k]) == (if (
                #[trigger] found@[k]) is Some {
                    owner_view(found@[k])
                } else {
                    owner_among(reader, ps.skip(i as int), needed@[k])
                }),
        decreases pids.len() - i,
    {
        let ghost before = found@;
        let pid = pids[i].as_str();
        assert(ps.skip(i as int)[0] == pid@);
        assert(ps.skip(i as int).drop_first() == ps.skip(i + 1));
        let cs = chars_of(pid);
        if let Some(n) = parse(cs.as_slice(), 10, u32::MAX as u64) {
            claim(reader, pid, n as u32, needed, &mut found);
        }
        assert forall|k: int| 0 <= k < needed@.len() implies owner_among(reader, ps, needed@[k])
            == (if (#[trigger] found@[k]) is Some {
            owner_view(found@[k])
        } else {
            owner_among(reader, ps.skip(i + 1), needed@[k])
        }) by {
            assert(before[k] is Some || before[k] is None);
        }
        i = i + 1;
    }
    assert forall|k: int| 0 <= k < needed@.len() implies owner_view(#[trigger] found@[k])
        == owner_of(reader, needed@[k]) by {
        if i == pids.len() {
            assert(ps.skip(i as int) == Seq::<Seq<char>>::empty());
        }
        assert(found@[k] is Some || found@[k] is None);
    }
    found
}

// ---------------------------------------------------------------------------
// The collector
// ---------------------------------------------------------------------------
#[derive(Debug)]
pub struct ConnectionsCollector {}

/// The interesting sockets among `sockets`.
pub open spec fn interesting_among(protocol: ConnProtocol, sockets: Seq<RawSocket>) -> Seq<
    (ConnProtocol, RawSocket),
>
    decreases sockets.len(),
{
    if sockets.len() == 0 {
        seq![]
    } else {
        let before = interesting_among(protocol, sockets.drop_last());
        if interesting(sockets.last()) {
            before.push((protocol, sockets.last()))
        } else {
            before
        }
    }
}

/// The interesting sockets of one table; a table that is not there has none.
pub open spec fn table_of(reader: &SysfsReader, path: Seq<char>, protocol: ConnProtocol) -> Result<
    Seq<(ConnProtocol, RawSocket)>,
    ErrorView,
> {
    match reader.text_at(path) {
        Err(e) => Err(e),
        Ok(Err(_)) => Ok(seq![]),
        Ok(Ok(text)) => match sockets_of_table(path, text) {
            Err(e) => Err(e),
            Ok(sockets) => Ok(interesting_among(protocol, sockets)),
        },
    }
}

pub open spec fn connection_of(reader: &SysfsReader, protocol: ConnProtocol, s: RawSocket) -> ConnectionView {
    let owner = owner_of(reader, s.inode);
    ConnectionView {
        protocol,
        local_addr: s.local_addr,
        local_port: s.local_port,
        remote_addr: s.remote_addr,
        remote_port: s.remote_port,
        state: match protocol {
            ConnProtocol::Tcp => Some(tcp_state_of(s.state_byte)),
            ConnProtocol::Udp => None,
        },
        uid: s.uid,
        pid: match owner {
            Some(o) => Some(o.pid),
            None => None,
        },
        program: match owner {
            Some(o) => o.program,
            None => None,
        },
        ppid: match owner {
            Some(o) => o.ppid,
            None => None,
        },
    }
}

pub open spec fn connections_of(reader: &SysfsReader, raw: Seq<(ConnProtocol, RawSocket)>) -> Seq<
    ConnectionView,
> {
    raw.map_values(|x: (ConnProtocol, RawSocket)| connection_of(reader, x.0, x.1))
}

/// The interesting sockets of all four tables.
pub open spec fn all_sockets_of(reader: &SysfsReader) -> Result<
    Seq<(ConnProtocol, RawSocket)>,
    ErrorView,
> {
    match table_of(reader, PROC_TCP@, ConnProtocol::Tcp) {
        Err(e) => Err(e),
        Ok(a) => match table_of(reader, PROC_TCP6@, ConnProtocol::Tcp) {
            Err(e) => Err(e),
            Ok(b) => match table_of(reader, PROC_UDP@, ConnProtocol::Udp) {
                Err(e) => Err(e),
                Ok(c) => match table_of(reader, PROC_UDP6@, ConnProtocol::Udp) {
                    Err(e) => Err(e),
                    Ok(d) => Ok(a + b + c + d),
                },
            },
        },
    }
}

/// What a collection does.
pub open spec fn connections_collected(reader: &SysfsReader, before: SnapshotView) -> Collected<()> {
    match all_sockets_of(reader) {
        Err(e) => Collected { state: (), snapshot: before, outcome: Err(e) },
        Ok(raw) => Collected {
            state: (),
            snapshot: SnapshotView {
                connections: Some(
                    ConnectionSampleView { connections: connections_of(reader, raw) },
                ),
                ..before
            },
            outcome: Ok(()),
        },
    }
}

/// Adds the interesting sockets of one table.
fn read_table(
    reader: &SysfsReader,
    path: &str,
    protocol: ConnProtocol,
    raw: &mut Vec<(ConnProtocol, RawSocket)>,
) -> (r: Result<(), Error>)
    ensures
        match table_of(reader, path@, protocol) {
            Ok(found) => r is Ok && final(raw)@ == old(raw)@ + found,
            Err(e) => r is Err && r->Err_0@ == e,
        },
{
    let ghost before = raw@;
    let contents = match reader.read_to_string(path) {
        Err(e) => return Err(e),
        Ok(Err(_)) => {
            assert(before + Seq::<(ConnProtocol, RawSocket)>::empty() == before);
            return Ok(());
        },
        Ok(Ok(contents)) => contents,
    };
    let sockets = match parse_proc_net(path, contents.as_str()) {
        Err(e) => return Err(e),
        Ok(sockets) => sockets,
    };
    let mut i: usize = 0;
    assert(before + Seq::<(ConnProtocol, RawSocket)>::empty() == before);
    while i < sockets.len()
        invariant
            i <= sockets.len(),
            raw@ == before + interesting_among(protocol, sockets@.take(i as int)),
        decreases sockets.len() - i,
    {
        assert(sockets@.take(i + 1).drop_last() == sockets@.take(i as int));
        if is_interesting(&sockets[i]) {
            raw.push((protocol, sockets[i]));
            assert(raw@ == before + interesting_among(protocol, sockets@.take(i + 1)));
        }
        i = i + 1;
    }
    assert(sockets@.take(i as int) == sockets@);
    Ok(())
}

/// The connections of some sockets, with their owners.
fn attribute(reader: &SysfsReader, raw: &Vec<(ConnProtocol, RawSocket)>) -> (r: Vec<Connection>)
    ensures
        views(r@) == connections_of(reader, raw@),
{
    let mut needed: Vec<u64> = Vec::new();
    let mut i: usize = 0;
    while i < raw.len()
        invariant
            i <= raw.len(),
            needed@.len() == i,
            forall|k: int| 0 <= k < i ==> #[trigger] needed@[k] == raw@[k].1.inode,
        decreases raw.len() - i,
    {
        needed.push(raw[i].1.inode);
        i = i + 1;
    }
    let owners = resolve_owners(reader, &needed);
    let mut out: Vec<Connection> = Vec::new();
    let mut k: usize = 0;
    while k < raw.len()
        invariant
            k <= raw.len(),
            owners@.len() == raw@.len(),
            needed@.len() == raw@.len(),
            forall|j: int| 0 <= j < raw@.len() ==> #[trigger] needed@[j] == raw@[j].1.inode,
            forall|j: int|
                0 <= j < needed@.len() ==> owner_view(#[trigger] owners@[j]) == owner_of(
                    reader,
                    needed@[j],
                ),
            views(out@) == connections_of(reader, raw@.take(k as int)),
        decreases raw.len() - k,
    {
        let (protocol, s) = raw[k];
        assert(owner_view(owners@[k as int]) == owner_of(reader, s.inode));
        let (pid, program, ppid) = match &owners[k] {
            Some(o) => {
                let program: Option<String> = match &o.program {
                    Some(p) => Some(p.clone()),
                    None => None,
                };
                (Some(o.pid), program, o.ppid)
            },
            None => (None, None, None),
        };
        let state = match protocol {
            ConnProtocol::Tcp => Some(TcpState::from_byte(s.state_byte)),
            ConnProtocol::Udp => None,
        };
        let ghost before = views(out@);
        let c = Connection {
            protocol,
            local_addr: s.local_addr,
            local_port: s.local_port,
            remote_addr: s.remote_addr,
            remote_port: s.remote_port,
            state,
            uid: s.uid,
            pid,
            program,
            ppid,
        };
        out.push(c);
        assert(views(out@) == before.push(c@));
        assert(c@ == connection_of(reader, protocol, s));
        assert(connections_of(reader, raw@.take(k + 1)) == connections_of(
            reader,
            raw@.take(k as int),
        ).push(connection_of(reader, protocol, s)));
        k = k + 1;
    }
    assert(raw@.take(k as int) == raw@);
    out
}

impl ConnectionsCollector {
    pub fn new() -> (r: ConnectionsCollector)
        ensures
            r == (ConnectionsCollector {  }),
    {
        ConnectionsCollector {  }
    }
}

impl Collector for ConnectionsCollector {
    type Model = ();

    open spec fn model(&self) -> () {
        ()
    }

    open spec fn named(state: ()) -> Seq<char> {
        NAME@
    }

    open spec fn usable(state: (), reader: &SysfsReader) -> bool {
        reader.present(PROC_TCP@)
    }

    open spec fn collected(state: (), reader: &SysfsReader, before: SnapshotView) -> Collected<()> {
        connections_collected(reader, before)
    }

    fn name(&self) -> (r: &'static str) {
        NAME
    }

    fn probe(&self, reader: &SysfsReader) -> (r: bool) {
        reader.is_present(PROC_TCP)
    }

    fn collect(&mut self, reader: &SysfsReader, snapshot: &mut Snapshot) -> (r: Result<(), Error>) {
        let mut raw: Vec<(ConnProtocol, RawSocket)> = Vec::new();
        if let Err(e) = read_table(reader, PROC_TCP, ConnProtocol::Tcp, &mut raw) {
            return Err(e);
        }
        if let Err(e) = read_table(reader, PROC_TCP6, ConnProtocol::Tcp, &mut raw) {
            return Err(e);
        }
        if let Err(e) = read_table(reader, PROC_UDP, ConnProtocol::Udp, &mut raw) {
            return Err(e);
        }
        if let Err(e) = read_table(reader, PROC_UDP6, ConnProtocol::Udp, &mut raw) {
            return Err(e);
        }
        assert(all_sockets_of(reader) == Ok::<Seq<(ConnProtocol, RawSocket)>, ErrorView>(raw@));
        let connections = attribute(reader, &raw);
        snapshot.connections = Some(ConnectionSample { connections });
        Ok(())
    }
}

// ---------------------------------------------------------------------------
// What is kept
// ---------------------------------------------------------------------------
pub open spec fn all_interesting(raw: Seq<(ConnProtocol, RawSocket)>) -> bool {
    forall|i: int| 0 <= i < raw.len() ==> interesting((#[trigger] raw[i]).1)
}

proof fn lemma_interesting(protocol: ConnProtocol, sockets: Seq<RawSocket>)
    ensures
        all_interesting(interesting_among(protocol, sockets)),
    decreases sockets.len(),
{
    if sockets.len() > 0 {
        lemma_interesting(protocol, sockets.drop_last());
    }
}

proof fn lemma_table(reader: &SysfsReader, path: Seq<char>, protocol: ConnProtocol)
    ensures
        table_of(reader, path, protocol) matches Ok(raw) ==> all_interesting(raw),
{
    if let Ok(Ok(text)) = reader.text_at(path) {
        if let Ok(sockets) = sockets_of_table(path, text) {
            lemma_interesting(protocol, sockets);
        }
    }
}

/// Only connections with a peer on the internet are kept: no listening socket,
/// and nobody at a private or special address.
pub proof fn only_public_peers_are_kept(reader: &SysfsReader, before: SnapshotView)
    requires
        connections_collected(reader, before).outcome is Ok,
    ensures
        connections_collected(reader, before).snapshot.connections matches Some(sample) && forall|
            i: int,
        |
            0 <= i < sample.connections.len() ==> (#[trigger] sample.connections[i]).remote_port != 0
                && public_ip(sample.connections[i].remote_addr),
{
    lemma_table(reader, PROC_TCP@, ConnProtocol::Tcp);
    lemma_table(reader, PROC_TCP6@, ConnProtocol::Tcp);
    lemma_table(reader, PROC_UDP@, ConnProtocol::Udp);
    lemma_table(reader, PROC_UDP6@, ConnProtocol::Udp);
    let raw = all_sockets_of(reader)->Ok_0;
    assert(all_interesting(raw));
    let kept = connections_of(reader, raw);
    assert forall|i: int| 0 <= i < kept.len() implies (#[trigger] kept[i]).remote_port != 0
        && public_ip(kept[i].remote_addr) by {
        assert(kept[i] == connection_of(reader, raw[i].0, raw[i].1));
        assert(interesting(raw[i].1));
    }
}

} // verus!
