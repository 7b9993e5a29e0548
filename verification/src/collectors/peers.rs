//! What the tables of sockets come to: no connection with the internet is
//! missed, and none is made up.

use vstd::prelude::*;

use crate::addr::IpAddr;
use crate::collectors::connections::{
    all_sockets_of, connection_of, connections_collected, connections_of, fd_dir, hex_addr_of,
    hex_addr_port_of, hex_bytes_of, interesting, interesting_among, owner_among, ppid_in,
    ppid_of, program_of, public_ip, socket_inode_of, socket_line_of, socket_lines, sockets_among,
    sockets_of, sockets_of_table, table_lines, table_of, RawSocket,
};
use crate::number::{
    all_digits, decimal, decimal_round_trip, digit_of, digits_value, lemma_decimal_digits,
    numbers_are_read_within_their_limit, parse_of,
};
use crate::sample::{tcp_state_of, ConnProtocol, ConnectionView, SnapshotView};
use crate::sysfs::{sanitized, NameFilter, SysfsReader};
use crate::text::{
    affixes_are_taken_off, begins, ends, lemma_index_of_is, lines_of, trim_of,
    trimming_takes_off_the_blanks, without_prefix, words_of,
};

verus! {

/// One of the kernel's four tables, and the protocol of what stands in it.
pub open spec fn socket_table(path: Seq<char>, protocol: ConnProtocol) -> bool {
    ||| protocol == ConnProtocol::Tcp && (path == "proc/net/tcp"@ || path == "proc/net/tcp6"@)
    ||| protocol == ConnProtocol::Udp && (path == "proc/net/udp"@ || path == "proc/net/udp6"@)
}

/// The line at `k` of a table, behind its header, is one that is read and not
/// blank.
pub open spec fn socket_row(text: Seq<char>, k: int) -> bool {
    &&& 1 <= k < lines_of(text).len()
    &&& k <= 65_536
    &&& trim_of(lines_of(text)[k]).len() > 0
}

/// The connection is the one that the socket has: its ends, its user, and its
/// state where the protocol has one.
pub open spec fn connects(c: ConnectionView, protocol: ConnProtocol, s: RawSocket) -> bool {
    &&& c.protocol == protocol
    &&& c.local_addr == s.local_addr
    &&& c.local_port == s.local_port
    &&& c.remote_addr == s.remote_addr
    &&& c.remote_port == s.remote_port
    &&& c.uid == s.uid
    &&& c.state == (match protocol {
        ConnProtocol::Tcp => Some(tcp_state_of(s.state_byte)),
        ConnProtocol::Udp => None,
    })
}

/// The snapshot holds the connection that the socket has.
pub open spec fn is_connected(after: SnapshotView, protocol: ConnProtocol, s: RawSocket) -> bool {
    after.connections matches Some(sample) && exists|i: int|
        0 <= i < sample.connections.len() && #[trigger] connects(
            sample.connections[i],
            protocol,
            s,
        )
}

/// A descriptor of the process in `proc` under `dir` is the socket `inode`.
pub open spec fn process_holds(reader: &SysfsReader, dir: Seq<char>, inode: u64) -> bool {
    reader.names_at("proc/"@ + dir + "/fd"@, NameFilter::Numbered { prefix: "" }) matches Ok(Ok(fds))
        && exists|j: int|
        0 <= j < fds.len() && (reader.target_at("proc/"@ + dir + "/fd/"@ + #[trigger] fds[j])
            matches Ok(Ok(target)) && socket_inode_of(target) == Some(inode))
}

/// The owner of a connection: a process that holds its socket, with its name and
/// its parent; none where no process that can be seen holds it.
pub open spec fn owned(reader: &SysfsReader, c: ConnectionView, inode: u64) -> bool {
    match reader.names_at("proc"@, NameFilter::Numbered { prefix: "" }) {
        Ok(Ok(dirs)) => match c.pid {
            Some(pid) => exists|j: int|
                0 <= j < dirs.len() && parse_of(#[trigger] dirs[j], 10, u32::MAX as nat) == Some(
                    pid as nat,
                ) && process_holds(reader, dirs[j], inode) && c.program == program_of(
                    reader,
                    dirs[j],
                ) && c.ppid == ppid_of(reader, dirs[j]),
            None => c.program is None && c.ppid is None && forall|j: int|
                0 <= j < dirs.len() ==> parse_of(#[trigger] dirs[j], 10, u32::MAX as nat) is None
                    || !process_holds(reader, dirs[j], inode),
        },
        _ => c.pid is None && c.program is None && c.ppid is None,
    }
}

proof fn lemma_row(path: Seq<char>, line_no: nat, lines: Seq<Seq<char>>, k: int)
    requires
        0 <= k < lines.len(),
        trim_of(lines[k]).len() > 0,
        socket_lines(path, line_no, lines) is Ok,
    ensures
        socket_line_of(path, (line_no + k) as usize, lines[k]) matches Ok(s) && socket_lines(
            path,
            line_no,
            lines,
        )->Ok_0.contains(s),
    decreases lines.len(),
{
    let all = socket_lines(path, line_no, lines)->Ok_0;
    let rest = lines.drop_first();
    if k == 0 {
        let s = socket_line_of(path, line_no as usize, lines[0])->Ok_0;
        assert(all[0] == s);
    } else {
        lemma_row(path, line_no + 1, rest, k - 1);
        assert(rest[k - 1] == lines[k]);
        let tail = socket_lines(path, line_no + 1, rest)->Ok_0;
        let s = socket_line_of(path, (line_no + k) as usize, lines[k])->Ok_0;
        let j = choose|j: int| 0 <= j < tail.len() && tail[j] == s;
        if trim_of(lines[0]).len() == 0 {
            assert(all[j] == s);
        } else {
            assert(all[j + 1] == s);
        }
    }
}

proof fn lemma_from_row(path: Seq<char>, line_no: nat, lines: Seq<Seq<char>>, i: int) -> (k: int)
    requires
        socket_lines(path, line_no, lines) matches Ok(all) && 0 <= i < all.len(),
    ensures
        0 <= k < lines.len(),
        trim_of(lines[k]).len() > 0,
        socket_lines(path, line_no, lines) matches Ok(all) && socket_line_of(
            path,
            (line_no + k) as usize,
            lines[k],
        ) == Ok::<RawSocket, crate::error::ErrorView>(all[i]),
    decreases lines.len(),
{
    let rest = lines.drop_first();
    if trim_of(lines[0]).len() == 0 {
        let k = lemma_from_row(path, line_no + 1, rest, i);
        assert(rest[k] == lines[k + 1]);
        k + 1
    } else if i == 0 {
        0
    } else {
        let k = lemma_from_row(path, line_no + 1, rest, i - 1);
        assert(rest[k] == lines[k + 1]);
        k + 1
    }
}

proof fn lemma_among(protocol: ConnProtocol, sockets: Seq<RawSocket>, s: RawSocket)
    requires
        sockets.contains(s),
        interesting(s),
    ensures
        interesting_among(protocol, sockets).contains((protocol, s)),
    decreases sockets.len(),
{
    let front = sockets.drop_last();
    let before = interesting_among(protocol, front);
    let all = interesting_among(protocol, sockets);
    let i = choose|i: int| 0 <= i < sockets.len() && sockets[i] == s;
    if i == sockets.len() - 1 {
        assert(all[all.len() - 1] == (protocol, s));
    } else {
        assert(front[i] == s);
        lemma_among(protocol, front, s);
        let j = choose|j: int| 0 <= j < before.len() && before[j] == (protocol, s);
        assert(all[j] == (protocol, s));
    }
}

proof fn lemma_from_among(protocol: ConnProtocol, sockets: Seq<RawSocket>, i: int)
    requires
        0 <= i < interesting_among(protocol, sockets).len(),
    ensures
        interesting_among(protocol, sockets)[i].0 == protocol,
        sockets.contains(interesting_among(protocol, sockets)[i].1),
        interesting(interesting_among(protocol, sockets)[i].1),
    decreases sockets.len(),
{
    if sockets.len() > 0 {
        let front = sockets.drop_last();
        let before = interesting_among(protocol, front);
        let found = interesting_among(protocol, sockets)[i];
        if i < before.len() {
            lemma_from_among(protocol, front, i);
            let j = choose|j: int| 0 <= j < front.len() && front[j] == found.1;
            assert(sockets[j] == found.1);
        } else {
            assert(sockets[sockets.len() - 1] == found.1);
        }
    }
}

proof fn lemma_rows(text: Seq<char>, k: int)
    requires
        socket_row(text, k),
    ensures
        0 <= k - 1 < table_lines(text).len(),
        table_lines(text)[k - 1] == lines_of(text)[k],
{
}

/// The sockets of all tables hold those of this one.
proof fn lemma_tables(reader: &SysfsReader, path: Seq<char>, protocol: ConnProtocol)
    requires
        socket_table(path, protocol),
        all_sockets_of(reader) is Ok,
    ensures
        table_of(reader, path, protocol) matches Ok(part) && forall|x: (ConnProtocol, RawSocket)|
            part.contains(x) ==> all_sockets_of(reader)->Ok_0.contains(x),
{
    let a = table_of(reader, "proc/net/tcp"@, ConnProtocol::Tcp)->Ok_0;
    let b = table_of(reader, "proc/net/tcp6"@, ConnProtocol::Tcp)->Ok_0;
    let c = table_of(reader, "proc/net/udp"@, ConnProtocol::Udp)->Ok_0;
    let d = table_of(reader, "proc/net/udp6"@, ConnProtocol::Udp)->Ok_0;
    let all = all_sockets_of(reader)->Ok_0;
    assert(all == a + b + c + d);
    let part = table_of(reader, path, protocol)->Ok_0;
    assert forall|x: (ConnProtocol, RawSocket)| part.contains(x) implies all.contains(x) by {
        let i = choose|i: int| 0 <= i < part.len() && part[i] == x;
        if protocol == ConnProtocol::Tcp && path == "proc/net/tcp"@ {
            assert(all[i] == x);
        } else if protocol == ConnProtocol::Tcp {
            assert(all[a.len() + i] == x);
        } else if path == "proc/net/udp"@ {
            assert(all[a.len() + b.len() + i] == x);
        } else {
            assert(all[a.len() + b.len() + c.len() + i] == x);
        }
    }
}

/// After a collection that succeeds, every row of the four tables whose peer has
/// a port and a public address is among the connections, with its ends, its
/// user and the protocol of its table.
pub proof fn every_public_peer_is_kept(
    reader: &SysfsReader,
    before: SnapshotView,
    path: Seq<char>,
    protocol: ConnProtocol,
    text: Seq<char>,
    k: int,
)
    requires
        connections_collected(reader, before).outcome is Ok,
        socket_table(path, protocol),
        reader.text_at(path) == Ok::<Result<Seq<char>, crate::error::Absence>, crate::error::ErrorView>(
            Ok(text),
        ),
        socket_row(text, k),
    ensures
        socket_line_of(path, (k + 1) as usize, lines_of(text)[k]) matches Ok(s) && (s.remote_port
            != 0 && public_ip(s.remote_addr) ==> is_connected(
            connections_collected(reader, before).snapshot,
            protocol,
            s,
        )),
{
    lemma_tables(reader, path, protocol);
    lemma_rows(text, k);
    lemma_row(path, 2, table_lines(text), k - 1);
    let s = socket_line_of(path, (k + 1) as usize, lines_of(text)[k])->Ok_0;
    if s.remote_port != 0 && public_ip(s.remote_addr) {
        let raw = all_sockets_of(reader)->Ok_0;
        let sockets = sockets_of_table(path, text)->Ok_0;
        lemma_among(protocol, sockets, s);
        assert(raw.contains((protocol, s)));
        let i = choose|i: int| 0 <= i < raw.len() && raw[i] == (protocol, s);
        let kept = connections_of(reader, raw);
        assert(kept[i] == connection_of(reader, protocol, s));
        assert(connects(kept[i], protocol, s));
        let sample = connections_collected(reader, before).snapshot.connections->0;
        assert(connects(sample.connections[i], protocol, s));
    }
}

proof fn lemma_sockets(reader: &SysfsReader, dir: Seq<char>, fds: Seq<Seq<char>>, inode: u64)
    ensures
        sockets_among(reader, dir, fds).contains(inode) <==> exists|j: int|
            0 <= j < fds.len() && (reader.target_at(dir + "/"@ + #[trigger] fds[j]) matches Ok(
                Ok(target),
            ) && socket_inode_of(target) == Some(inode)),
    decreases fds.len(),
{
    if fds.len() > 0 {
        let front = fds.drop_last();
        let last = fds.len() - 1;
        lemma_sockets(reader, dir, front, inode);
        let before = sockets_among(reader, dir, front);
        let all = sockets_among(reader, dir, fds);
        if all.contains(inode) {
            let i = choose|i: int| 0 <= i < all.len() && all[i] == inode;
            if i < before.len() {
                assert(before[i] == inode);
                let j = choose|j: int|
                    0 <= j < front.len() && (reader.target_at(dir + "/"@ + #[trigger] front[j])
                        matches Ok(Ok(target)) && socket_inode_of(target) == Some(inode));
                assert(fds[j] == front[j]);
            } else {
                assert(fds[last] == fds.last());
            }
        }
        if exists|j: int|
            0 <= j < fds.len() && (reader.target_at(dir + "/"@ + #[trigger] fds[j]) matches Ok(
                Ok(target),
            ) && socket_inode_of(target) == Some(inode)) {
            let j = choose|j: int|
                0 <= j < fds.len() && (reader.target_at(dir + "/"@ + #[trigger] fds[j]) matches Ok(
                    Ok(target),
                ) && socket_inode_of(target) == Some(inode));
            if j < last {
                assert(front[j] == fds[j]);
                let i = choose|i: int| 0 <= i < before.len() && before[i] == inode;
                assert(all[i] == inode);
            } else {
                assert(all[all.len() - 1] == inode);
            }
        }
    }
}

proof fn lemma_process(reader: &SysfsReader, dir: Seq<char>, inode: u64)
    ensures
        sockets_of(reader, dir).contains(inode) == process_holds(reader, dir, inode),
{
    reveal_strlit("/fd");
    reveal_strlit("/fd/");
    reveal_strlit("/");
    assert forall|f: Seq<char>| true implies fd_dir(dir) + "/"@ + f == #[trigger] ("proc/"@ + dir
        + "/fd/"@ + f) by {
        assert(fd_dir(dir) + "/"@ == "proc/"@ + dir + "/fd/"@);
    }
    if let Ok(Ok(fds)) = reader.names_at(fd_dir(dir), NameFilter::Numbered { prefix: "" }) {
        lemma_sockets(reader, fd_dir(dir), fds, inode);
        if sockets_of(reader, dir).contains(inode) {
            let j = choose|j: int|
                0 <= j < fds.len() && (reader.target_at(fd_dir(dir) + "/"@ + #[trigger] fds[j])
                    matches Ok(Ok(target)) && socket_inode_of(target) == Some(inode));
            assert(fd_dir(dir) + "/"@ + fds[j] == "proc/"@ + dir + "/fd/"@ + fds[j]);
        }
        if process_holds(reader, dir, inode) {
            let j = choose|j: int|
                0 <= j < fds.len() && (reader.target_at(
                    "proc/"@ + dir + "/fd/"@ + #[trigger] fds[j],
                ) matches Ok(Ok(target)) && socket_inode_of(target) == Some(inode));
            assert(fd_dir(dir) + "/"@ + fds[j] == "proc/"@ + dir + "/fd/"@ + fds[j]);
        }
    }
}

proof fn lemma_owner(reader: &SysfsReader, dirs: Seq<Seq<char>>, inode: u64)
    ensures
        match owner_among(reader, dirs, inode) {
            Some(o) => exists|j: int|
                0 <= j < dirs.len() && parse_of(#[trigger] dirs[j], 10, u32::MAX as nat) == Some(
                    o.pid as nat,
                ) && process_holds(reader, dirs[j], inode) && o.program == program_of(
                    reader,
                    dirs[j],
                ) && o.ppid == ppid_of(reader, dirs[j]),
            None => forall|j: int|
                0 <= j < dirs.len() ==> parse_of(#[trigger] dirs[j], 10, u32::MAX as nat) is None
                    || !process_holds(reader, dirs[j], inode),
        },
    decreases dirs.len(),
{
    if dirs.len() > 0 {
        let rest = dirs.drop_first();
        lemma_owner(reader, rest, inode);
        lemma_process(reader, dirs[0], inode);
        let here = parse_of(dirs[0], 10, u32::MAX as nat) is Some && sockets_of(
            reader,
            dirs[0],
        ).contains(inode);
        match owner_among(reader, dirs, inode) {
            Some(o) => {
                if !here {
                    let j = choose|j: int|
                        0 <= j < rest.len() && parse_of(#[trigger] rest[j], 10, u32::MAX as nat)
                            == Some(o.pid as nat) && process_holds(reader, rest[j], inode)
                            && o.program == program_of(reader, rest[j]) && o.ppid == ppid_of(
                            reader,
                            rest[j],
                        );
                    assert(dirs[j + 1] == rest[j]);
                }
            },
            None => {
                assert forall|j: int| 0 <= j < dirs.len() implies parse_of(
                    #[trigger] dirs[j],
                    10,
                    u32::MAX as nat,
                ) is None || !process_holds(reader, dirs[j], inode) by {
                    if j > 0 {
                        assert(rest[j - 1] == dirs[j]);
                    }
                }
            },
        }
    }
}

/// A row of a table is where a connection comes from.
pub open spec fn stems_from(
    reader: &SysfsReader,
    c: ConnectionView,
    path: Seq<char>,
    protocol: ConnProtocol,
    k: int,
) -> bool {
    &&& socket_table(path, protocol)
    &&& reader.text_at(path) matches Ok(Ok(text)) && socket_row(text, k) && (socket_line_of(
        path,
        (k + 1) as usize,
        lines_of(text)[k],
    ) matches Ok(s) && s.remote_port != 0 && public_ip(s.remote_addr) && connects(c, protocol, s)
        && owned(reader, c, s.inode))
}

proof fn lemma_stems(
    reader: &SysfsReader,
    path: Seq<char>,
    protocol: ConnProtocol,
    i: int,
)
    requires
        socket_table(path, protocol),
        table_of(reader, path, protocol) matches Ok(part) && 0 <= i < part.len(),
    ensures
        table_of(reader, path, protocol) matches Ok(part) && exists|k: int|
            #[trigger] stems_from(
                reader,
                connection_of(reader, part[i].0, part[i].1),
                path,
                protocol,
                k,
            ),
{
    let text = reader.text_at(path)->Ok_0->Ok_0;
    let sockets = sockets_of_table(path, text)->Ok_0;
    let part = table_of(reader, path, protocol)->Ok_0;
    lemma_from_among(protocol, sockets, i);
    let s = part[i].1;
    let j = choose|j: int| 0 <= j < sockets.len() && sockets[j] == s;
    let k = lemma_from_row(path, 2, table_lines(text), j) + 1;
    assert(table_lines(text)[k - 1] == lines_of(text)[k]);
    let c = connection_of(reader, protocol, s);
    if let Ok(Ok(dirs)) = reader.names_at("proc"@, NameFilter::Numbered { prefix: "" }) {
        lemma_owner(reader, dirs, s.inode);
    }
    assert(owned(reader, c, s.inode));
    assert(stems_from(reader, c, path, protocol, k));
}

/// Every connection stems from a row of one of the four tables, and its owner,
/// where one is named, is a process that holds its socket.
pub proof fn every_connection_has_its_row(reader: &SysfsReader, before: SnapshotView, i: int)
    requires
        connections_collected(reader, before).outcome is Ok,
        connections_collected(reader, before).snapshot.connections matches Some(sample) && 0 <= i
            < sample.connections.len(),
    ensures
        connections_collected(reader, before).snapshot.connections matches Some(sample) && exists|
            path: Seq<char>,
            protocol: ConnProtocol,
            k: int,
        | #[trigger]
            stems_from(reader, sample.connections[i], path, protocol, k),
{
    let a = table_of(reader, "proc/net/tcp"@, ConnProtocol::Tcp)->Ok_0;
    let b = table_of(reader, "proc/net/tcp6"@, ConnProtocol::Tcp)->Ok_0;
    let c = table_of(reader, "proc/net/udp"@, ConnProtocol::Udp)->Ok_0;
    let d = table_of(reader, "proc/net/udp6"@, ConnProtocol::Udp)->Ok_0;
    let raw = all_sockets_of(reader)->Ok_0;
    assert(raw == a + b + c + d);
    let kept = connections_of(reader, raw);
    assert(kept[i] == connection_of(reader, raw[i].0, raw[i].1));
    if i < a.len() {
        lemma_stems(reader, "proc/net/tcp"@, ConnProtocol::Tcp, i);
        assert(raw[i] == a[i]);
    } else if i < a.len() + b.len() {
        lemma_stems(reader, "proc/net/tcp6"@, ConnProtocol::Tcp, i - a.len());
        assert(raw[i] == b[i - a.len()]);
    } else if i < a.len() + b.len() + c.len() {
        lemma_stems(reader, "proc/net/udp"@, ConnProtocol::Udp, i - a.len() - b.len());
        assert(raw[i] == c[i - a.len() - b.len()]);
    } else {
        lemma_stems(reader, "proc/net/udp6"@, ConnProtocol::Udp, i - a.len() - b.len() - c.len());
        assert(raw[i] == d[i - a.len() - b.len() - c.len()]);
    }
}

// ---------------------------------------------------------------------------
// What the columns of a row mean
// ---------------------------------------------------------------------------
/// The number that the pair of hexadecimal digits at `i` writes.
pub open spec fn pair(s: Seq<char>, i: int) -> nat {
    digits_value(s.subrange(2 * i, 2 * i + 2), 16)
}

proof fn lemma_pair(s: Seq<char>)
    requires
        s.len() == 2,
        all_digits(s, 16),
    ensures
        digits_value(s, 16) <= 255,
        parse_of(s, 16, 255) == Some(digits_value(s, 16)),
{
    reveal_with_fuel(digits_value, 3);
    assert(digit_of(s[0], 16) is Some && digit_of(s[1], 16) is Some);
    assert(s.drop_last()[0] == s[0]);
    assert(s[0] != '+');
}

proof fn lemma_pairs(s: Seq<char>)
    requires
        s.len() > 0,
        s.len() % 2 == 0,
        all_digits(s, 16),
    ensures
        hex_bytes_of(s) matches Some(b) && b.len() == s.len() / 2 && forall|i: int|
            0 <= i < b.len() ==> #[trigger] b[i] == pair(s, i),
        forall|i: int| 0 <= i < s.len() / 2 ==> #[trigger] pair(s, i) <= 255,
    decreases s.len(),
{
    let front = s.take(2);
    assert forall|i: int| 0 <= i < front.len() implies digit_of(#[trigger] front[i], 16) is Some by {
        assert(front[i] == s[i]);
    }
    lemma_pair(front);
    assert(s.subrange(0, 2) == front);
    if s.len() > 2 {
        let rest = s.skip(2);
        assert forall|i: int| 0 <= i < rest.len() implies digit_of(#[trigger] rest[i], 16) is Some by {
            assert(rest[i] == s[i + 2]);
        }
        lemma_pairs(rest);
        let b = hex_bytes_of(s)->0;
        let more = hex_bytes_of(rest)->0;
        assert forall|i: int| 0 <= i < s.len() / 2 implies #[trigger] pair(s, i) <= 255 && b[i]
            == pair(s, i) by {
            if i > 0 {
                assert(pair(rest, i - 1) <= 255);
                assert(rest.subrange(2 * (i - 1), 2 * (i - 1) + 2) == s.subrange(2 * i, 2 * i + 2));
                assert(b[i] == more[i - 1]);
            }
        }
    }
}

/// Eight digits are an IPv4 address of which the last pair is the first octet.
pub proof fn v4_digits_are_read_from_the_end(s: Seq<char>)
    requires
        s.len() == 8,
        all_digits(s, 16),
    ensures
        hex_addr_of(s) matches Some(IpAddr::V4(bits)) && bits == 0x100_0000 * pair(s, 3) + 0x1_0000
            * pair(s, 2) + 0x100 * pair(s, 1) + pair(s, 0),
{
    lemma_pairs(s);
    let b = hex_bytes_of(s)->0;
    assert(b[0] == pair(s, 0) && b[1] == pair(s, 1) && b[2] == pair(s, 2) && b[3] == pair(s, 3));
}

/// The word of 32 bits that the eight digits at `w` write, the last pair on top.
pub open spec fn word_of(s: Seq<char>, w: int) -> nat {
    0x100_0000 * pair(s, 4 * w + 3) + 0x1_0000 * pair(s, 4 * w + 2) + 0x100 * pair(s, 4 * w + 1)
        + pair(s, 4 * w)
}

/// Thirty-two digits are an IPv6 address: four words, each with its last pair on
/// top, the first word on top of all.
pub proof fn v6_digits_are_four_words(s: Seq<char>)
    requires
        s.len() == 32,
        all_digits(s, 16),
    ensures
        hex_addr_of(s) matches Some(IpAddr::V6(bits)) && bits == 0x1_0000_0000_0000_0000_0000_0000
            * word_of(s, 0) + 0x1_0000_0000_0000_0000 * word_of(s, 1) + 0x1_0000_0000 * word_of(
            s,
            2,
        ) + word_of(s, 3),
{
    lemma_pairs(s);
    let b = hex_bytes_of(s)->0;
    assert forall|i: int| 0 <= i < 16 implies #[trigger] b[i] == pair(s, i) by {}
    assert(word_of(s, 0) == 0x100_0000 * b[3] + 0x1_0000 * b[2] + 0x100 * b[1] + b[0]);
    assert(word_of(s, 1) == 0x100_0000 * b[7] + 0x1_0000 * b[6] + 0x100 * b[5] + b[4]);
    assert(word_of(s, 2) == 0x100_0000 * b[11] + 0x1_0000 * b[10] + 0x100 * b[9] + b[8]);
    assert(word_of(s, 3) == 0x100_0000 * b[15] + 0x1_0000 * b[14] + 0x100 * b[13] + b[12]);
}

/// An address and a port have a colon between them, and the port is written as it
/// is.
pub proof fn ports_follow_the_colon(a: Seq<char>, port: Seq<char>)
    requires
        all_digits(a, 16),
        port.len() > 0,
        all_digits(port, 16),
        digits_value(port, 16) <= 65_535,
    ensures
        match hex_addr_of(a) {
            Some(addr) => hex_addr_port_of(a + seq![':'] + port) == Some(
                (addr, digits_value(port, 16) as u16),
            ),
            None => hex_addr_port_of(a + seq![':'] + port) is None,
        },
{
    let s = a + seq![':'] + port;
    let n = a.len() as int;
    assert(s[n] == ':');
    assert forall|i: int| 0 <= i < n implies #[trigger] s[i] != ':' by {
        assert(s[i] == a[i]);
        assert(digit_of(a[i], 16) is Some);
    }
    lemma_index_of_is(s, ':', n);
    assert(s.take(n) == a);
    assert(s.skip(n + 1) == port);
    assert(digit_of(port[0], 16) is Some);
    assert(port[0] != '+');
}

/// A row has its own end in the second column, the peer in the third, the state
/// in the fourth, the user in the eighth and the inode in the tenth.
pub proof fn rows_are_read_by_their_columns(path: Seq<char>, line_no: usize, line: Seq<char>)
    ensures
        socket_line_of(path, line_no, line) matches Ok(s) ==> {
            let w = words_of(line);
            &&& w.len() >= 10
            &&& hex_addr_port_of(w[1]) == Some((s.local_addr, s.local_port))
            &&& hex_addr_port_of(w[2]) == Some((s.remote_addr, s.remote_port))
            &&& parse_of(w[3], 16, 255) == Some(s.state_byte as nat)
            &&& parse_of(w[7], 10, u32::MAX as nat) == Some(s.uid as nat)
            &&& parse_of(w[9], 10, u64::MAX as nat) == Some(s.inode as nat)
        },
{
}

/// The link of a socket's descriptor gives the number between `socket:[` and `]`, and
/// a link of another shape gives none.
pub proof fn sockets_are_named_by_their_number(n: u64, other: Seq<char>)
    ensures
        socket_inode_of("socket:["@ + decimal(n as nat) + "]"@) == Some(n),
        !(begins(other, "socket:["@) && ends(other, "]"@)) ==> socket_inode_of(other) is None,
{
    reveal_strlit("socket:[");
    reveal_strlit("]");
    let digits = decimal(n as nat);
    assert("socket:["@ + digits + "]"@ =~= "socket:["@ + (digits + "]"@));
    affixes_are_taken_off("socket:["@, digits + "]"@);
    affixes_are_taken_off("]"@, digits);
    decimal_round_trip(n);
    if let Some(rest) = without_prefix(other, "socket:["@) {
        if ends(rest, "]"@) {
            assert(other.last() == rest.last());
            assert(rest.skip(rest.len() - 1) =~= other.skip(other.len() - 1));
            assert(ends(other, "]"@));
        }
    }
}

/// Of the processes that hold a socket, the one whose directory comes first owns it.
pub proof fn the_first_holder_owns_the_socket(
    reader: &SysfsReader,
    dirs: Seq<Seq<char>>,
    inode: u64,
    i: int,
    pid: u32,
)
    requires
        0 <= i < dirs.len(),
        dirs[i] == decimal(pid as nat),
        process_holds(reader, dirs[i], inode),
        forall|j: int| 0 <= j < i ==> !process_holds(reader, #[trigger] dirs[j], inode),
    ensures
        owner_among(reader, dirs, inode) matches Some(o) && o.pid == pid && o.program == program_of(
            reader,
            dirs[i],
        ) && o.ppid == ppid_of(reader, dirs[i]),
    decreases i,
{
    lemma_process(reader, dirs[0], inode);
    if i == 0 {
        numbers_are_read_within_their_limit(pid as nat, u32::MAX as nat);
    } else {
        let rest = dirs.drop_first();
        assert(rest[i - 1] == dirs[i]);
        assert forall|j: int| 0 <= j < i - 1 implies !process_holds(
            reader,
            #[trigger] rest[j],
            inode,
        ) by {
            assert(rest[j] == dirs[j + 1]);
        }
        assert(!process_holds(reader, dirs[0], inode));
        the_first_holder_owns_the_socket(reader, rest, inode, i - 1, pid);
    }
}

/// The program of a process is the first line of its `comm`, cut to 64 characters
/// and without what a terminal would take as a command.
pub proof fn programs_are_read_from_their_file(reader: &SysfsReader, pid: Seq<char>, name: Seq<char>)
    ensures
        reader.first_line_at("proc/"@ + pid + "/comm"@) == Ok::<
            Result<Seq<char>, crate::error::Absence>,
            crate::error::ErrorView,
        >(Ok(name)) ==> program_of(reader, pid) == Some(sanitized(name, 64)),
        !(reader.first_line_at("proc/"@ + pid + "/comm"@) matches Ok(Ok(_))) ==> program_of(
            reader,
            pid,
        ) is None,
{
}

proof fn lemma_parent(lines: Seq<Seq<char>>, k: int, n: u32)
    requires
        0 <= k < lines.len(),
        lines[k] == "PPid:"@ + seq!['\t'] + decimal(n as nat),
        forall|j: int| 0 <= j < k ==> !begins(#[trigger] lines[j], "PPid:"@),
    ensures
        ppid_in(lines) == Some(n),
    decreases k,
{
    if k == 0 {
        let digits = decimal(n as nat);
        let tab = seq!['\t'];
        assert("PPid:"@ + tab + digits =~= "PPid:"@ + (tab + digits));
        affixes_are_taken_off("PPid:"@, tab + digits);
        lemma_decimal_digits(n as nat);
        assert(digit_of(digits[0], 10) is Some);
        assert(digit_of(digits.last(), 10) is Some);
        trimming_takes_off_the_blanks(tab, digits, Seq::<char>::empty());
        assert(tab + digits + Seq::<char>::empty() =~= tab + digits);
        numbers_are_read_within_their_limit(n as nat, u32::MAX as nat);
    } else {
        let rest = lines.drop_first();
        assert(!begins(lines[0], "PPid:"@));
        assert(rest[k - 1] == lines[k]);
        assert forall|j: int| 0 <= j < k - 1 implies !begins(#[trigger] rest[j], "PPid:"@) by {
            assert(rest[j] == lines[j + 1]);
        }
        lemma_parent(rest, k - 1, n);
    }
}

/// The parent of a process is the number behind `PPid:` in its `status`.
pub proof fn parents_are_read_by_their_name(
    reader: &SysfsReader,
    pid: Seq<char>,
    text: Seq<char>,
    k: int,
    n: u32,
)
    requires
        reader.text_at("proc/"@ + pid + "/status"@) == Ok::<
            Result<Seq<char>, crate::error::Absence>,
            crate::error::ErrorView,
        >(Ok(text)),
        0 <= k < lines_of(text).len(),
        lines_of(text)[k] == "PPid:"@ + seq!['\t'] + decimal(n as nat),
        forall|j: int| 0 <= j < k ==> !begins(#[trigger] lines_of(text)[j], "PPid:"@),
    ensures
        ppid_of(reader, pid) == Some(n),
{
    lemma_parent(lines_of(text), k, n);
}

} // verus!
