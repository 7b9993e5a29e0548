//! What the kernel's tables come to: every figure is read from its column, every
//! line of hardware is kept, and none is made up.

use vstd::prelude::*;

use crate::collectors::counters::{counters_of, numbers};
use crate::collectors::disk::{
    device_names, disk_collected, disk_line_of, disk_lines, interesting, interesting_devices,
    mount_line_of, mount_lines, pseudo_filesystem, sized, unescaped, virtual_device,
};
use crate::collectors::net::{linked, net_collected, net_line_of, net_lines};
use crate::error::{Absence, ErrorView};
use crate::number::parse_of;
use crate::sample::{
    DiskDeviceView, MountPointView, NetInterfaceView, SnapshotView,
};
use crate::sysfs::{sanitized, SysfsReader};
use crate::text::{begins, first_of, index_of, lemma_index_of, lines_of, trim_of, words_of};

verus! {

/// The word writes that number.
pub open spec fn writes(word: Seq<char>, n: u64) -> bool {
    parse_of(word, 10, u64::MAX as nat) == Some(n as nat)
}

/// The file holds that text.
pub open spec fn holds_text(reader: &SysfsReader, path: Seq<char>, text: Seq<char>) -> bool {
    reader.text_at(path) == Ok::<Result<Seq<char>, Absence>, ErrorView>(Ok(text))
}

proof fn lemma_numbers(path: Seq<char>, line_no: usize, idx: nat, fields: Seq<Seq<char>>)
    requires
        numbers(path, line_no, idx, fields) is Ok,
    ensures
        numbers(path, line_no, idx, fields)->Ok_0.len() == fields.len(),
        forall|k: int|
            0 <= k < fields.len() ==> writes(
                #[trigger] fields[k],
                numbers(path, line_no, idx, fields)->Ok_0[k],
            ),
    decreases fields.len(),
{
    if fields.len() > 0 {
        let rest = fields.drop_first();
        lemma_numbers(path, line_no, idx + 1, rest);
        let all = numbers(path, line_no, idx, fields)->Ok_0;
        let tail = numbers(path, line_no, idx + 1, rest)->Ok_0;
        assert forall|k: int| 0 <= k < fields.len() implies writes(#[trigger] fields[k], all[k]) by {
            if k > 0 {
                assert(rest[k - 1] == fields[k]);
                assert(all[k] == tail[k - 1]);
            }
        }
    }
}

proof fn lemma_counters(path: Seq<char>, line_no: usize, fields: Seq<Seq<char>>, want: nat)
    requires
        counters_of(path, line_no, fields, want) is Ok,
    ensures
        fields.len() >= want,
        counters_of(path, line_no, fields, want)->Ok_0.len() == want,
        forall|k: int|
            0 <= k < want ==> writes(
                #[trigger] fields[k],
                counters_of(path, line_no, fields, want)->Ok_0[k],
            ),
{
    let used = first_of(fields, want);
    lemma_numbers(path, line_no, 0, used);
    assert forall|k: int| 0 <= k < want implies writes(
        #[trigger] fields[k],
        counters_of(path, line_no, fields, want)->Ok_0[k],
    ) by {
        assert(used[k] == fields[k]);
    }
}

// ---------------------------------------------------------------------------
// Network interfaces
// ---------------------------------------------------------------------------
/// The line of an interface: its name up to the first colon, then what it
/// received in the first columns and what it sent in those from the ninth on.
pub proof fn interfaces_are_read_by_their_columns(path: Seq<char>, line_no: usize, line: Seq<char>)
    ensures
        net_line_of(path, line_no, line) matches Ok(Some(i)) ==> exists|p: int|
            0 <= p < line.len() && #[trigger] line[p] == ':' && (forall|q: int|
                0 <= q < p ==> line[q] != ':') && i.name == trim_of(line.take(p)) && ({
                let w = words_of(line.skip(p + 1));
                &&& w.len() >= 16
                &&& writes(w[0], i.rx_bytes)
                &&& writes(w[1], i.rx_packets)
                &&& writes(w[2], i.rx_errors)
                &&& writes(w[3], i.rx_dropped)
                &&& writes(w[8], i.tx_bytes)
                &&& writes(w[9], i.tx_packets)
                &&& writes(w[10], i.tx_errors)
                &&& writes(w[11], i.tx_dropped)
            }),
{
    if let Ok(Some(i)) = net_line_of(path, line_no, line) {
        lemma_index_of(line, ':');
        let p = index_of(line, ':') as int;
        lemma_counters(path, line_no, words_of(line.skip(p + 1)), 16);
        assert(line[p] == ':');
    }
}

proof fn lemma_net_line(path: Seq<char>, line_no: nat, lines: Seq<Seq<char>>, k: int)
    requires
        0 <= k < lines.len(),
        net_lines(path, line_no, lines) is Ok,
    ensures
        net_line_of(path, (line_no + k) as usize, lines[k]) is Ok,
        net_line_of(path, (line_no + k) as usize, lines[k]) matches Ok(Some(found)) ==> net_lines(
            path,
            line_no,
            lines,
        )->Ok_0.contains(found),
    decreases lines.len(),
{
    let all = net_lines(path, line_no, lines)->Ok_0;
    let rest = lines.drop_first();
    let tail = net_lines(path, line_no + 1, rest)->Ok_0;
    let here = net_line_of(path, line_no as usize, lines[0])->Ok_0;
    if k == 0 {
        if here is Some {
            assert(all[0] == here->0);
        }
    } else {
        lemma_net_line(path, line_no + 1, rest, k - 1);
        assert(rest[k - 1] == lines[k]);
        if let Ok(Some(found)) = net_line_of(path, (line_no + k) as usize, lines[k]) {
            let j = choose|j: int| 0 <= j < tail.len() && tail[j] == found;
            if here is Some {
                assert(all[j + 1] == found);
            } else {
                assert(all[j] == found);
            }
        }
    }
}

proof fn lemma_net_from(path: Seq<char>, line_no: nat, lines: Seq<Seq<char>>, i: int) -> (k: int)
    requires
        net_lines(path, line_no, lines) matches Ok(all) && 0 <= i < all.len(),
    ensures
        0 <= k < lines.len(),
        net_line_of(path, (line_no + k) as usize, lines[k]) == Ok::<Option<NetInterfaceView>, ErrorView>(
            Some(net_lines(path, line_no, lines)->Ok_0[i]),
        ),
    decreases lines.len(),
{
    let rest = lines.drop_first();
    let here = net_line_of(path, line_no as usize, lines[0])->Ok_0;
    if here is Some && i == 0 {
        0
    } else {
        let j = if here is Some {
            i - 1
        } else {
            i
        };
        let k = lemma_net_from(path, line_no + 1, rest, j);
        assert(rest[k] == lines[k + 1]);
        k + 1
    }
}

/// What `/sys/class/net` says of an interface: the state of its link.
pub open spec fn link_state(reader: &SysfsReader, name: Seq<char>) -> Option<Seq<char>> {
    match reader.first_line_at("sys/class/net"@ + "/"@ + name + "/operstate"@) {
        Ok(Ok(state)) => Some(state),
        _ => None,
    }
}

/// What it says of the largest packet.
pub open spec fn link_mtu(reader: &SysfsReader, name: Seq<char>) -> Option<u64> {
    match reader.u64_at("sys/class/net"@ + "/"@ + name + "/mtu"@) {
        Ok(Ok(mtu)) => Some(mtu),
        _ => None,
    }
}

/// The interface has the name and the counters of its line, and the state of its
/// own link.
pub open spec fn is_linked(
    reader: &SysfsReader,
    read: NetInterfaceView,
    kept: NetInterfaceView,
) -> bool {
    &&& kept.name == read.name
    &&& kept.rx_bytes == read.rx_bytes
    &&& kept.tx_bytes == read.tx_bytes
    &&& kept.rx_packets == read.rx_packets
    &&& kept.tx_packets == read.tx_packets
    &&& kept.rx_errors == read.rx_errors
    &&& kept.tx_errors == read.tx_errors
    &&& kept.rx_dropped == read.rx_dropped
    &&& kept.tx_dropped == read.tx_dropped
    &&& kept.operstate == link_state(reader, read.name)
    &&& kept.mtu == link_mtu(reader, read.name)
}

proof fn lemma_linked(
    reader: &SysfsReader,
    all: Seq<NetInterfaceView>,
    show_all: bool,
    read: NetInterfaceView,
)
    requires
        all.contains(read),
        show_all || !begins(read.name, "lo"@),
    ensures
        exists|j: int|
            0 <= j < linked(reader, all, show_all).len() && is_linked(
                reader,
                read,
                #[trigger] linked(reader, all, show_all)[j],
            ),
    decreases all.len(),
{
    let front = all.drop_last();
    let before = linked(reader, front, show_all);
    let kept = linked(reader, all, show_all);
    let i = choose|i: int| 0 <= i < all.len() && all[i] == read;
    if i == all.len() - 1 {
        assert(is_linked(reader, read, kept[kept.len() - 1]));
    } else {
        assert(front[i] == read);
        lemma_linked(reader, front, show_all, read);
        let j = choose|j: int|
            0 <= j < before.len() && is_linked(reader, read, #[trigger] before[j]);
        assert(kept[j] == before[j]);
    }
}

proof fn lemma_linked_from(
    reader: &SysfsReader,
    all: Seq<NetInterfaceView>,
    show_all: bool,
    j: int,
) -> (i: int)
    requires
        0 <= j < linked(reader, all, show_all).len(),
    ensures
        0 <= i < all.len(),
        is_linked(reader, all[i], linked(reader, all, show_all)[j]),
        show_all || !begins(all[i].name, "lo"@),
    decreases all.len(),
{
    let front = all.drop_last();
    let before = linked(reader, front, show_all);
    if j < before.len() {
        let i = lemma_linked_from(reader, front, show_all, j);
        assert(linked(reader, all, show_all)[j] == before[j]);
        i
    } else {
        all.len() - 1
    }
}

/// The snapshot holds the interface of that line, linked.
pub open spec fn interface_kept(
    reader: &SysfsReader,
    after: SnapshotView,
    read: NetInterfaceView,
) -> bool {
    after.net matches Some(sample) && exists|j: int|
        0 <= j < sample.interfaces.len() && is_linked(
            reader,
            read,
            #[trigger] sample.interfaces[j],
        )
}

/// After a collection that succeeds, every line behind the two of the header is
/// an interface of the snapshot, but for loopbacks where they are not wanted.
pub proof fn every_interface_is_kept(
    reader: &SysfsReader,
    before: SnapshotView,
    show_all: bool,
    text: Seq<char>,
    k: int,
)
    requires
        net_collected(show_all, reader, before).outcome is Ok,
        holds_text(reader, "proc/net/dev"@, text),
        2 <= k < lines_of(text).len(),
        k < 65_538,
        trim_of(lines_of(text)[k]).len() > 0,
    ensures
        net_line_of("proc/net/dev"@, (k + 1) as usize, lines_of(text)[k]) matches Ok(Some(read))
            && (show_all || !begins(read.name, "lo"@) ==> interface_kept(
            reader,
            net_collected(show_all, reader, before).snapshot,
            read,
        )),
{
    let path = "proc/net/dev"@;
    let lines = crate::collectors::net::data_lines(text);
    assert(lines[k - 2] == lines_of(text)[k]);
    lemma_net_line(path, 3, lines, k - 2);
    let all = net_lines(path, 3, lines)->Ok_0;
    let read = net_line_of(path, (k + 1) as usize, lines_of(text)[k])->Ok_0->0;
    if show_all || !begins(read.name, "lo"@) {
        lemma_linked(reader, all, show_all, read);
        let kept = linked(reader, all, show_all);
        let j = choose|j: int| 0 <= j < kept.len() && is_linked(reader, read, #[trigger] kept[j]);
        let sample = net_collected(show_all, reader, before).snapshot.net->0;
        assert(sample.interfaces == kept);
        assert(is_linked(reader, read, sample.interfaces[j]));
    }
}

/// Every interface of the snapshot stands on such a line, and none is a loopback
/// that was not wanted.
pub proof fn every_interface_was_read(
    reader: &SysfsReader,
    before: SnapshotView,
    show_all: bool,
    text: Seq<char>,
    j: int,
)
    requires
        net_collected(show_all, reader, before).outcome is Ok,
        holds_text(reader, "proc/net/dev"@, text),
        net_collected(show_all, reader, before).snapshot.net matches Some(sample) && 0 <= j
            < sample.interfaces.len(),
    ensures
        ({
            let kept = net_collected(show_all, reader, before).snapshot.net->0.interfaces[j];
            &&& show_all || !begins(kept.name, "lo"@)
            &&& exists|k: int|
                2 <= k < lines_of(text).len() && (net_line_of(
                    "proc/net/dev"@,
                    (k + 1) as usize,
                    #[trigger] lines_of(text)[k],
                ) matches Ok(Some(read)) && is_linked(reader, read, kept))
        }),
{
    let path = "proc/net/dev"@;
    let lines = crate::collectors::net::data_lines(text);
    let all = net_lines(path, 3, lines)->Ok_0;
    let i = lemma_linked_from(reader, all, show_all, j);
    let k = lemma_net_from(path, 3, lines, i);
    assert(lines[k] == lines_of(text)[k + 2]);
}

// ---------------------------------------------------------------------------
// Disks
// ---------------------------------------------------------------------------
/// The line of a disk: its name is the third word, and behind it stand the reads,
/// the sectors read, the writes, the sectors written and the time at work, each
/// in its column.
pub proof fn disks_are_read_by_their_columns(path: Seq<char>, line_no: usize, line: Seq<char>)
    ensures
        disk_line_of(path, line_no, line) matches Ok(Some(d)) ==> ({
            let w = words_of(line);
            &&& w.len() >= 14
            &&& d.name == w[2]
            &&& writes(w[3], d.reads_completed)
            &&& writes(w[5], d.sectors_read)
            &&& writes(w[7], d.writes_completed)
            &&& writes(w[9], d.sectors_written)
            &&& writes(w[12], d.io_ticks_ms)
        }),
{
    if let Ok(Some(d)) = disk_line_of(path, line_no, line) {
        let w = words_of(line);
        let rest = w.skip(3);
        lemma_counters(path, line_no, rest, 11);
        assert(rest[0] == w[3] && rest[2] == w[5] && rest[4] == w[7] && rest[6] == w[9] && rest[9]
            == w[12]);
    }
}

proof fn lemma_disk_line(path: Seq<char>, line_no: nat, lines: Seq<Seq<char>>, k: int)
    requires
        0 <= k < lines.len(),
        disk_lines(path, line_no, lines) is Ok,
    ensures
        disk_line_of(path, (line_no + k) as usize, lines[k]) is Ok,
        disk_line_of(path, (line_no + k) as usize, lines[k]) matches Ok(Some(found)) ==> disk_lines(
            path,
            line_no,
            lines,
        )->Ok_0.contains(found),
    decreases lines.len(),
{
    let all = disk_lines(path, line_no, lines)->Ok_0;
    let rest = lines.drop_first();
    let tail = disk_lines(path, line_no + 1, rest)->Ok_0;
    let here = disk_line_of(path, line_no as usize, lines[0])->Ok_0;
    if k == 0 {
        if here is Some {
            assert(all[0] == here->0);
        }
    } else {
        lemma_disk_line(path, line_no + 1, rest, k - 1);
        assert(rest[k - 1] == lines[k]);
        if let Ok(Some(found)) = disk_line_of(path, (line_no + k) as usize, lines[k]) {
            let j = choose|j: int| 0 <= j < tail.len() && tail[j] == found;
            if here is Some {
                assert(all[j + 1] == found);
            } else {
                assert(all[j] == found);
            }
        }
    }
}

proof fn lemma_disk_from(path: Seq<char>, line_no: nat, lines: Seq<Seq<char>>, i: int) -> (k: int)
    requires
        disk_lines(path, line_no, lines) matches Ok(all) && 0 <= i < all.len(),
    ensures
        0 <= k < lines.len(),
        disk_line_of(path, (line_no + k) as usize, lines[k]) == Ok::<Option<DiskDeviceView>, ErrorView>(
            Some(disk_lines(path, line_no, lines)->Ok_0[i]),
        ),
    decreases lines.len(),
{
    let rest = lines.drop_first();
    let here = disk_line_of(path, line_no as usize, lines[0])->Ok_0;
    if here is Some && i == 0 {
        0
    } else {
        let j = if here is Some {
            i - 1
        } else {
            i
        };
        let k = lemma_disk_from(path, line_no + 1, rest, j);
        assert(rest[k] == lines[k + 1]);
        k + 1
    }
}

proof fn lemma_interesting(all: Seq<DiskDeviceView>, names: Seq<Seq<char>>, d: DiskDeviceView)
    requires
        all.contains(d),
        interesting(d.name, names),
    ensures
        interesting_devices(all, names).contains(d),
    decreases all.len(),
{
    let front = all.drop_last();
    let before = interesting_devices(front, names);
    let kept = interesting_devices(all, names);
    let i = choose|i: int| 0 <= i < all.len() && all[i] == d;
    if i == all.len() - 1 {
        assert(kept[kept.len() - 1] == d);
    } else {
        assert(front[i] == d);
        lemma_interesting(front, names, d);
        let j = choose|j: int| 0 <= j < before.len() && before[j] == d;
        assert(kept[j] == d);
    }
}

proof fn lemma_interesting_from(all: Seq<DiskDeviceView>, names: Seq<Seq<char>>, j: int)
    requires
        0 <= j < interesting_devices(all, names).len(),
    ensures
        all.contains(interesting_devices(all, names)[j]),
        interesting(interesting_devices(all, names)[j].name, names),
    decreases all.len(),
{
    let front = all.drop_last();
    let before = interesting_devices(front, names);
    let d = interesting_devices(all, names)[j];
    if j < before.len() {
        lemma_interesting_from(front, names, j);
        let i = choose|i: int| 0 <= i < front.len() && front[i] == d;
        assert(all[i] == d);
    } else {
        assert(all[all.len() - 1] == d);
    }
}

/// The device is made up by the kernel, and no hardware.
pub open spec fn made_up(name: Seq<char>) -> bool {
    ||| begins(name, "loop"@)
    ||| begins(name, "ram"@)
    ||| begins(name, "zram"@)
    ||| begins(name, "dm-"@)
    ||| begins(name, "md"@)
}

/// Both names are words of the table, and the first is the second with a number
/// behind it, or with a `p` and a number.
pub open spec fn part_of(name: Seq<char>, disk: Seq<char>) -> bool {
    exists|n: Seq<char>|
        n.len() > 0 && (forall|i: int| 0 <= i < n.len() ==> '0' <= #[trigger] n[i] <= '9') && (name
            == #[trigger] (disk + n) || name == disk + seq!['p'] + n)
}

proof fn lemma_part_of(name: Seq<char>, disk: Seq<char>)
    ensures
        part_of(name, disk) <==> crate::collectors::disk::partition_of(name, disk),
{
    if part_of(name, disk) {
        let n = choose|n: Seq<char>|
            n.len() > 0 && (forall|i: int| 0 <= i < n.len() ==> '0' <= #[trigger] n[i] <= '9') && (
            name == #[trigger] (disk + n) || name == disk + seq!['p'] + n);
        assert(name.take(disk.len() as int) =~= disk);
        let rest = name.skip(disk.len() as int);
        if name == disk + n {
            assert(rest =~= n);
        } else {
            assert(rest =~= seq!['p'] + n);
            assert(rest.drop_first() =~= n);
        }
    }
    if crate::collectors::disk::partition_of(name, disk) {
        let rest = name.skip(disk.len() as int);
        assert(name.take(disk.len() as int) == disk);
        assert(name =~= disk + rest);
        if crate::number::all_digits(rest, 10) {
            assert(name == disk + rest);
        } else {
            let n = rest.drop_first();
            assert(name =~= disk + seq!['p'] + n);
            assert((disk + n).len() == disk.len() + n.len());
        }
    }
}

/// The device stands on the line at `k`.
pub open spec fn disk_stands(text: Seq<char>, k: int, d: DiskDeviceView) -> bool {
    &&& 0 <= k < lines_of(text).len()
    &&& k < 65_536
    &&& disk_line_of("proc/diskstats"@, (k + 1) as usize, lines_of(text)[k]) == Ok::<
        Option<DiskDeviceView>,
        ErrorView,
    >(Some(d))
}

proof fn lemma_disk_lines(text: Seq<char>) -> (lines: Seq<Seq<char>>)
    ensures
        lines == first_of(lines_of(text), 65_536),
        forall|k: int|
            0 <= k < lines_of(text).len() && k < 65_536 ==> k < lines.len() && lines[k]
                == #[trigger] lines_of(text)[k],
{
    first_of(lines_of(text), 65_536)
}

/// After a collection that succeeds, the disks of the snapshot are those of the
/// table, without devices that are made up and without parts of another disk.
pub proof fn whole_disks_are_kept(
    reader: &SysfsReader,
    before: SnapshotView,
    text: Seq<char>,
    k: int,
    d: DiskDeviceView,
)
    requires
        disk_collected(reader, before).outcome is Ok,
        holds_text(reader, "proc/diskstats"@, text),
        disk_stands(text, k, d),
        !made_up(d.name),
        forall|j: int, other: DiskDeviceView| #[trigger]
            disk_stands(text, j, other) ==> !part_of(d.name, other.name),
    ensures
        disk_collected(reader, before).snapshot.disks matches Some(sample)
            && sample.devices.contains(d),
{
    let path = "proc/diskstats"@;
    let lines = lemma_disk_lines(text);
    let all = disk_lines(path, 1, lines)->Ok_0;
    lemma_disk_line(path, 1, lines, k);
    let names = device_names(all);
    assert forall|i: int| 0 <= i < names.len() implies !crate::collectors::disk::partition_of(
        d.name,
        #[trigger] names[i],
    ) by {
        let j = lemma_disk_from(path, 1, lines, i);
        assert(lines[j] == lines_of(text)[j]);
        assert(disk_stands(text, j, all[i]));
        lemma_part_of(d.name, names[i]);
    }
    lemma_interesting(all, names, d);
}

/// No disk of the snapshot is made up, or part of another that the table has, and
/// each stands on a line of it.
pub proof fn every_disk_was_read(
    reader: &SysfsReader,
    before: SnapshotView,
    text: Seq<char>,
    j: int,
)
    requires
        disk_collected(reader, before).outcome is Ok,
        holds_text(reader, "proc/diskstats"@, text),
        disk_collected(reader, before).snapshot.disks matches Some(sample) && 0 <= j
            < sample.devices.len(),
    ensures
        ({
            let d = disk_collected(reader, before).snapshot.disks->0.devices[j];
            &&& !made_up(d.name)
            &&& exists|k: int| #[trigger] disk_stands(text, k, d)
            &&& forall|k: int, other: DiskDeviceView| #[trigger]
                disk_stands(text, k, other) ==> !part_of(d.name, other.name)
        }),
{
    let path = "proc/diskstats"@;
    let lines = lemma_disk_lines(text);
    let all = disk_lines(path, 1, lines)->Ok_0;
    let names = device_names(all);
    let d = disk_collected(reader, before).snapshot.disks->0.devices[j];
    lemma_interesting_from(all, names, j);
    let i = choose|i: int| 0 <= i < all.len() && all[i] == d;
    let k = lemma_disk_from(path, 1, lines, i);
    assert(lines[k] == lines_of(text)[k]);
    assert(disk_stands(text, k, d));
    assert(virtual_device(d.name) == made_up(d.name));
    assert forall|k: int, other: DiskDeviceView| #[trigger]
        disk_stands(text, k, other) implies !part_of(d.name, other.name) by {
        lemma_disk_line(path, 1, lines, k);
        let i = choose|i: int| 0 <= i < all.len() && all[i] == other;
        assert(names[i] == other.name);
        lemma_part_of(d.name, other.name);
    }
}

// ---------------------------------------------------------------------------
// Mounts
// ---------------------------------------------------------------------------
/// The line of a mount: what is mounted, where, and as which file system.
pub proof fn mounts_are_read_by_their_columns(path: Seq<char>, line_no: usize, line: Seq<char>)
    ensures
        mount_line_of(path, line_no, line) matches Ok(Some(m)) ==> ({
            let w = words_of(line);
            &&& w.len() >= 3
            &&& m.source == sanitized(unescaped(w[0]), 4096)
            &&& m.mount_point == sanitized(unescaped(w[1]), 4096)
            &&& m.fs_type == sanitized(w[2], 4096)
        }),
{
}

proof fn lemma_mount_line(path: Seq<char>, line_no: nat, lines: Seq<Seq<char>>, k: int)
    requires
        0 <= k < lines.len(),
        mount_lines(path, line_no, lines) is Ok,
    ensures
        mount_line_of(path, (line_no + k) as usize, lines[k]) is Ok,
        mount_line_of(path, (line_no + k) as usize, lines[k]) matches Ok(Some(found)) ==> mount_lines(
            path,
            line_no,
            lines,
        )->Ok_0.contains(found),
    decreases lines.len(),
{
    let all = mount_lines(path, line_no, lines)->Ok_0;
    let rest = lines.drop_first();
    let tail = mount_lines(path, line_no + 1, rest)->Ok_0;
    let here = mount_line_of(path, line_no as usize, lines[0])->Ok_0;
    if k == 0 {
        if here is Some {
            assert(all[0] == here->0);
        }
    } else {
        lemma_mount_line(path, line_no + 1, rest, k - 1);
        assert(rest[k - 1] == lines[k]);
        if let Ok(Some(found)) = mount_line_of(path, (line_no + k) as usize, lines[k]) {
            let j = choose|j: int| 0 <= j < tail.len() && tail[j] == found;
            if here is Some {
                assert(all[j + 1] == found);
            } else {
                assert(all[j] == found);
            }
        }
    }
}

proof fn lemma_mount_from(path: Seq<char>, line_no: nat, lines: Seq<Seq<char>>, i: int) -> (k: int)
    requires
        mount_lines(path, line_no, lines) matches Ok(all) && 0 <= i < all.len(),
    ensures
        0 <= k < lines.len(),
        mount_line_of(path, (line_no + k) as usize, lines[k]) == Ok::<Option<MountPointView>, ErrorView>(
            Some(mount_lines(path, line_no, lines)->Ok_0[i]),
        ),
    decreases lines.len(),
{
    let rest = lines.drop_first();
    let here = mount_line_of(path, line_no as usize, lines[0])->Ok_0;
    if here is Some && i == 0 {
        0
    } else {
        let j = if here is Some {
            i - 1
        } else {
            i
        };
        let k = lemma_mount_from(path, line_no + 1, rest, j);
        assert(rest[k] == lines[k + 1]);
        k + 1
    }
}

/// The mount is the one of its line, with the size of the file system at its own
/// place: as many blocks as there are, and as many as can be had.
pub open spec fn is_sized(reader: &SysfsReader, read: MountPointView, kept: MountPointView) -> bool {
    &&& kept.source == read.source
    &&& kept.mount_point == read.mount_point
    &&& kept.fs_type == read.fs_type
    &&& match reader.blocks_at(read.mount_point) {
        Some((size, blocks, available)) => if size * blocks <= u64::MAX && size * available
            <= u64::MAX {
            kept.total matches Some(t) && t.0 == size * blocks && (kept.available matches Some(a)
                && a.0 == size * available)
        } else {
            kept.total is None && kept.available is None
        },
        None => kept.total is None && kept.available is None,
    }
}

/// After a collection that succeeds, every storage of the mount table is among the
/// mounts of the snapshot, with its own size, and every mount was read there.
pub proof fn every_mount_is_kept(reader: &SysfsReader, before: SnapshotView, text: Seq<char>)
    requires
        disk_collected(reader, before).outcome is Ok,
        holds_text(reader, "proc/self/mounts"@, text),
    ensures
        forall|k: int|
            0 <= k < lines_of(text).len() && k < 65_536 ==> (mount_line_of(
                "proc/self/mounts"@,
                (k + 1) as usize,
                #[trigger] lines_of(text)[k],
            ) matches Ok(Some(read)) ==> mount_kept(
                reader,
                disk_collected(reader, before).snapshot,
                read,
            )),
        disk_collected(reader, before).snapshot.disks matches Some(sample) ==> forall|j: int|
            0 <= j < sample.mounts.len() ==> mount_was_read(
                reader,
                text,
                #[trigger] sample.mounts[j],
            ),
{
    let path = "proc/self/mounts"@;
    let lines = lemma_disk_lines(text);
    let all = mount_lines(path, 1, lines)->Ok_0;
    let kept = sized(reader, all);
    let after = disk_collected(reader, before).snapshot;
    assert forall|i: int| 0 <= i < all.len() implies is_sized(reader, #[trigger] all[i], kept[i]) by {}
    assert forall|k: int|
        0 <= k < lines_of(text).len() && k < 65_536 && (mount_line_of(
            path,
            (k + 1) as usize,
            #[trigger] lines_of(text)[k],
        ) matches Ok(Some(_))) implies mount_kept(
        reader,
        after,
        mount_line_of(path, (k + 1) as usize, lines_of(text)[k])->Ok_0->0,
    ) by {
        lemma_mount_line(path, 1, lines, k);
        let read = mount_line_of(path, (k + 1) as usize, lines_of(text)[k])->Ok_0->0;
        let i = choose|i: int| 0 <= i < all.len() && all[i] == read;
        assert(is_sized(reader, all[i], kept[i]));
        assert(after.disks->0.mounts[i] == kept[i]);
    }
    if let Some(sample) = after.disks {
        assert forall|j: int| 0 <= j < sample.mounts.len() implies mount_was_read(
            reader,
            text,
            #[trigger] sample.mounts[j],
        ) by {
            let k = lemma_mount_from(path, 1, lines, j);
            assert(lines[k] == lines_of(text)[k]);
            assert(is_sized(reader, all[j], kept[j]));
        }
    }
}

pub open spec fn mount_kept(reader: &SysfsReader, after: SnapshotView, read: MountPointView) -> bool {
    after.disks matches Some(sample) && exists|i: int|
        0 <= i < sample.mounts.len() && is_sized(reader, read, #[trigger] sample.mounts[i])
}

pub open spec fn mount_was_read(
    reader: &SysfsReader,
    text: Seq<char>,
    kept: MountPointView,
) -> bool {
    exists|k: int|
        0 <= k < lines_of(text).len() && (mount_line_of(
            "proc/self/mounts"@,
            (k + 1) as usize,
            #[trigger] lines_of(text)[k],
        ) matches Ok(Some(read)) && is_sized(reader, read, kept))
}

/// The kinds of filesystem that hold no storage of their own.
pub open spec fn storeless() -> Seq<Seq<char>> {
    seq![
        "proc"@,
        "sysfs"@,
        "devtmpfs"@,
        "devpts"@,
        "tmpfs"@,
        "cgroup"@,
        "cgroup2"@,
        "securityfs"@,
        "debugfs"@,
        "tracefs"@,
        "pstore"@,
        "bpf"@,
        "configfs"@,
        "fusectl"@,
        "mqueue"@,
        "hugetlbfs"@,
        "autofs"@,
        "overlay"@,
        "squashfs"@,
        "ramfs"@,
        "binfmt_misc"@,
        "efivarfs"@,
        "nsfs"@,
    ]
}

/// A mount is left out exactly where its filesystem holds no storage of its own.
pub proof fn storeless_filesystems_are_left_out(kind: Seq<char>)
    ensures
        pseudo_filesystem(kind) <==> storeless().contains(kind),
{
    let all = storeless();
    if pseudo_filesystem(kind) {
        assert(all[0] == "proc"@ && all[1] == "sysfs"@ && all[2] == "devtmpfs"@ && all[3] == "devpts"@
            && all[4] == "tmpfs"@ && all[5] == "cgroup"@ && all[6] == "cgroup2"@ && all[7]
            == "securityfs"@ && all[8] == "debugfs"@ && all[9] == "tracefs"@ && all[10] == "pstore"@
            && all[11] == "bpf"@ && all[12] == "configfs"@ && all[13] == "fusectl"@ && all[14]
            == "mqueue"@ && all[15] == "hugetlbfs"@ && all[16] == "autofs"@ && all[17] == "overlay"@
            && all[18] == "squashfs"@ && all[19] == "ramfs"@ && all[20] == "binfmt_misc"@ && all[21]
            == "efivarfs"@ && all[22] == "nsfs"@);
    }
}

} // verus!
