//! What a reader finds in the rendered text: each figure behind its label, and
//! each thing of the snapshot on a line of its own.

use vstd::prelude::*;

use crate::addr::{address_text, IpAddr};
use crate::delta::{DiskRateView, NetRate, RatesView};
use crate::number::decimal;
use crate::render::document::{chars, letter, Glyph, QuantityView};
use crate::render::json::rfc3339_of;
use crate::render::schema::{disk_rate, net_rate, protocol_name, total_share};
use crate::render::text::{
    busy_text, chip_text, chips_text, connection_line, connection_lines, connections_section,
    connections_text, core_count_text, core_text, cores_text, cpu_section, cpu_text, disk_line,
    disk_lines, disk_section, disk_text, endpoints_text, error_lines, errors_text, fan_text,
    fans_text, gpu_freq_text, gpu_line, gpu_lines, gpu_section, gpu_temp_text, gpu_text,
    interface_line, interface_lines, labelled, load_text, marker, memory_section, memory_text,
    model_text, mount_line, mount_lines, net_section, net_text, owner_text, padded, sections,
    shown_state, size_line, snapshot_text, state_text, swap_text, temp_text, temps_text,
    thermal_section, thermal_text, used_line, util_text, vendor_title, vram_text,
};
use crate::sample::{
    severity_of, tcp_state_name, CollectorErrorView, ConnProtocol, ConnectionSampleView,
    ConnectionView, CpuSampleView, DiskDeviceView, DiskSampleView, FanSensorView, GpuSampleView,
    GpuVendor, GpuView, HwmonChipView, LoadAvgView, MemorySample, MountPointView,
    NetInterfaceView, NetSampleView, SnapshotView, TempSensorView, ThermalSampleView,
};
use crate::summary::{above_usual, at_limit};
use crate::units::{Bytes, KiloHertz};

verus! {

// ---------------------------------------------------------------------------
// Reading a document
// ---------------------------------------------------------------------------
/// The label stands directly before that place.
pub open spec fn behind(doc: Seq<Glyph>, k: int, label: Seq<char>) -> bool {
    label.len() <= k <= doc.len() && forall|j: int|
        0 <= j < label.len() ==> doc[k - label.len() + j] == letter(#[trigger] label[j])
}

/// Who looks for a figure behind that label finds this one, and no other.
pub open spec fn reads(doc: Seq<Glyph>, label: Seq<char>, g: Glyph) -> bool {
    &&& exists|k: int| 0 <= k < doc.len() && #[trigger] behind(doc, k, label) && doc[k] == g
    &&& forall|k: int|
        0 <= k < doc.len() && #[trigger] behind(doc, k, label) && !(doc[k] is Letter) ==> doc[k]
            == g
}

/// That figure stands behind that label somewhere.
pub open spec fn shows(doc: Seq<Glyph>, label: Seq<char>, g: Glyph) -> bool {
    exists|k: int| 0 <= k < doc.len() && #[trigger] behind(doc, k, label) && doc[k] == g
}

/// A quantity with so many decimals, in a column of that width.
pub open spec fn figure(value: QuantityView, decimals: usize, width: usize) -> Glyph {
    Glyph::Fixed { value, decimals, width }
}

/// There is no figure in it, only text.
pub open spec fn only_text(doc: Seq<Glyph>) -> bool {
    forall|k: int| 0 <= k < doc.len() ==> #[trigger] doc[k] is Letter
}

/// From that place on, the document goes on with that part.
pub open spec fn stands_at(doc: Seq<Glyph>, part: Seq<Glyph>, at: int) -> bool {
    0 <= at && at + part.len() <= doc.len() && forall|j: int|
        0 <= j < part.len() ==> doc[at + j] == #[trigger] part[j]
}

/// The part stands somewhere in the document, in one piece.
pub open spec fn holds(doc: Seq<Glyph>, part: Seq<Glyph>) -> bool {
    exists|at: int| #[trigger] stands_at(doc, part, at)
}

/// From that place on, the document goes on with that text.
pub open spec fn says(doc: Seq<Glyph>, at: int, text: Seq<char>) -> bool {
    stands_at(doc, chars(text), at)
}

/// The text fills that column, cut or filled with blanks.
pub open spec fn column(doc: Seq<Glyph>, at: int, text: Seq<char>, width: int) -> bool {
    0 <= at && at + width <= doc.len() && forall|j: int|
        0 <= j < width ==> #[trigger] doc[at + j] == letter(
            if j < text.len() {
                text[j]
            } else {
                ' '
            },
        )
}

proof fn lemma_holds(doc: Seq<Glyph>, before: Seq<Glyph>, part: Seq<Glyph>, after: Seq<Glyph>)
    requires
        doc =~= before + part + after,
    ensures
        holds(doc, part),
{
    assert(stands_at(doc, part, before.len() as int));
}

proof fn lemma_holds_both(a: Seq<Glyph>, b: Seq<Glyph>)
    ensures
        holds(a + b, a),
        holds(a + b, b),
{
    lemma_holds(a + b, Seq::empty(), a, b);
    lemma_holds(a + b, a, b, Seq::empty());
}

proof fn lemma_holds_through(doc: Seq<Glyph>, part: Seq<Glyph>, inner: Seq<Glyph>)
    requires
        holds(doc, part),
        holds(part, inner),
    ensures
        holds(doc, inner),
{
    let a = choose|at: int| #[trigger] stands_at(doc, part, at);
    let b = choose|at: int| #[trigger] stands_at(part, inner, at);
    assert forall|j: int| 0 <= j < inner.len() implies doc[a + b + j] == #[trigger] inner[j] by {
        assert(part[b + j] == inner[j]);
    }
    assert(stands_at(doc, inner, a + b));
}

/// Each section of the snapshot stands in the document.
#[verifier::rlimit(40)]
proof fn lemma_sections(s: SnapshotView, rates: Option<RatesView>, verbose: bool)
    requires
        snapshot_text(s, rates, verbose) is Ok,
    ensures
        holds(snapshot_text(s, rates, verbose)->Ok_0, cpu_section(s.cpu, rates)),
        holds(snapshot_text(s, rates, verbose)->Ok_0, memory_section(s.memory)),
        holds(snapshot_text(s, rates, verbose)->Ok_0, thermal_section(s.thermal)),
        holds(snapshot_text(s, rates, verbose)->Ok_0, disk_section(s.disks, rates)),
        holds(snapshot_text(s, rates, verbose)->Ok_0, net_section(s.net, rates)),
        holds(snapshot_text(s, rates, verbose)->Ok_0, gpu_section(s.gpus)),
        holds(snapshot_text(s, rates, verbose)->Ok_0, connections_section(s.connections)),
        holds(snapshot_text(s, rates, verbose)->Ok_0, errors_text(s.errors, verbose)),
{
    let doc = snapshot_text(s, rates, verbose)->Ok_0;
    let head = chars("rustmon — "@) + chars(rfc3339_of(s.taken_at)->Ok_0) + chars("\n\n"@);
    let a = cpu_section(s.cpu, rates);
    let b = memory_section(s.memory);
    let c = thermal_section(s.thermal);
    let d = disk_section(s.disks, rates);
    let e = net_section(s.net, rates);
    let f = gpu_section(s.gpus);
    let g = connections_section(s.connections);
    let h = errors_text(s.errors, verbose);
    let own = a + b + c;
    let rated = d + e;
    let others = f + g;
    let all = own + rated + others;
    lemma_holds_both(head + all, h);
    lemma_holds_both(head, all);
    lemma_holds_both(own + rated, others);
    lemma_holds_both(own, rated);
    lemma_holds_both(a + b, c);
    lemma_holds_both(a, b);
    lemma_holds_both(d, e);
    lemma_holds_both(f, g);
    lemma_holds_through(doc, head + all, all);
    lemma_holds_through(doc, all, own + rated);
    lemma_holds_through(doc, all, others);
    lemma_holds_through(doc, own + rated, own);
    lemma_holds_through(doc, own + rated, rated);
    lemma_holds_through(doc, own, a + b);
    lemma_holds_through(doc, own, c);
    lemma_holds_through(doc, a + b, a);
    lemma_holds_through(doc, a + b, b);
    lemma_holds_through(doc, rated, d);
    lemma_holds_through(doc, rated, e);
    lemma_holds_through(doc, others, f);
    lemma_holds_through(doc, others, g);
}

// ---------------------------------------------------------------------------
// Network interfaces
// ---------------------------------------------------------------------------
/// On the line of an interface the rate that it receives at stands behind `rx`,
/// the rate that it sends at behind `tx`, and there is no third figure.
#[verifier::rlimit(40)]
pub proof fn rates_are_read_by_their_labels(i: NetInterfaceView, r: NetRate)
    ensures
        reads(interface_line(i, Some(r)), " rx "@, Glyph::Throughput(r.rx)),
        reads(interface_line(i, Some(r)), " tx "@, Glyph::Throughput(r.tx)),
        forall|k: int|
            0 <= k < interface_line(i, Some(r)).len() && !(interface_line(i, Some(r))[k] is Letter)
                ==> behind(interface_line(i, Some(r)), k, " rx "@) || behind(
                interface_line(i, Some(r)),
                k,
                " tx "@,
            ),
        only_text(interface_line(i, None)),
{
    let line = interface_line(i, Some(r));
    reveal_strlit("] ");
    reveal_strlit("rx ");
    reveal_strlit(" rx ");
    reveal_strlit(" tx ");
    reveal_strlit("\n");
    let head = chars("  "@) + chars(padded(i.name, 12)) + chars(" ["@) + chars(
        shown_state(i.operstate),
    ) + chars("] "@);
    let k = head.len() as int + 3;
    assert(behind(line, k, " rx "@));
    assert(line[k] == Glyph::Throughput(r.rx));
    assert(behind(line, k + 5, " tx "@));
    assert(line[k + 5] == Glyph::Throughput(r.tx));
    assert forall|j: int| 0 <= j < line.len() && !(line[j] is Letter) implies j == k || j == k
        + 5 by {}
    assert(line[k - 3] == letter('r'));
    assert(line[k + 2] == letter('t'));
    assert(!behind(line, k + 5, " rx "@)) by {
        assert(" rx "@[1] == 'r');
    }
    assert(!behind(line, k, " tx "@)) by {
        assert(" tx "@[1] == 't');
    }
}

/// The name of an interface stands at the start of its line, its state in
/// brackets behind the name.
pub proof fn interfaces_are_named(i: NetInterfaceView, r: Option<NetRate>)
    ensures
        column(interface_line(i, r), 2, i.name, 12),
        i.operstate matches Some(state) ==> says(interface_line(i, r), 14, " ["@ + state + "] "@),
        i.operstate is None ==> says(interface_line(i, r), 14, " [?] "@),
{
    reveal_strlit("  ");
    reveal_strlit(" [");
    reveal_strlit("] ");
    reveal_strlit("?");
    reveal_strlit(" [?] ");
    assert(" ["@ + "?"@ + "] "@ == " [?] "@);
}

proof fn lemma_interface(interfaces: Seq<NetInterfaceView>, rates: Option<RatesView>, i: int)
    requires
        0 <= i < interfaces.len(),
    ensures
        holds(
            interface_lines(interfaces, rates),
            interface_line(interfaces[i], net_rate(rates, interfaces[i].name)),
        ),
    decreases interfaces.len(),
{
    let all = interface_lines(interfaces, rates);
    let rest = interface_lines(interfaces.drop_last(), rates);
    let last = interface_line(interfaces.last(), net_rate(rates, interfaces.last().name));
    let none = Seq::<Glyph>::empty();
    if i == interfaces.len() - 1 {
        lemma_holds(all, rest, last, none);
    } else {
        lemma_interface(interfaces.drop_last(), rates, i);
        lemma_holds(all, none, rest, last);
        lemma_holds_through(
            all,
            rest,
            interface_line(interfaces[i], net_rate(rates, interfaces[i].name)),
        );
    }
}

/// Every interface of a snapshot has its line, with its own rate where there is
/// one under its name.
#[verifier::rlimit(40)]
pub proof fn every_interface_has_its_line(
    s: SnapshotView,
    rates: Option<RatesView>,
    verbose: bool,
    i: int,
)
    requires
        snapshot_text(s, rates, verbose) is Ok,
        s.net is Some,
        0 <= i < s.net->0.interfaces.len(),
    ensures
        ({
            let doc = snapshot_text(s, rates, verbose)->Ok_0;
            let one = s.net->0.interfaces[i];
            match rates {
                Some(r) => if r.net.contains_key(one.name) {
                    holds(doc, interface_line(one, Some(r.net[one.name])))
                } else {
                    holds(doc, interface_line(one, None))
                },
                None => holds(doc, interface_line(one, None)),
            }
        }),
{
    let doc = snapshot_text(s, rates, verbose)->Ok_0;
    let all = s.net->0.interfaces;
    let line = interface_line(all[i], net_rate(rates, all[i].name));
    lemma_sections(s, rates, verbose);
    lemma_holds(net_text(all, rates), chars("Net\n"@), interface_lines(all, rates), chars("\n"@));
    lemma_interface(all, rates, i);
    lemma_holds_through(doc, net_text(all, rates), interface_lines(all, rates));
    lemma_holds_through(doc, interface_lines(all, rates), line);
}

/// Interfaces are written one after the other, in their order.
pub proof fn interfaces_follow_each_other(
    a: Seq<NetInterfaceView>,
    b: Seq<NetInterfaceView>,
    rates: Option<RatesView>,
)
    ensures
        interface_lines(a + b, rates) == interface_lines(a, rates) + interface_lines(b, rates),
    decreases b.len(),
{
    if b.len() == 0 {
        assert(a + b == a);
    } else {
        interfaces_follow_each_other(a, b.drop_last(), rates);
        assert((a + b).drop_last() == a + b.drop_last());
    }
}

// ---------------------------------------------------------------------------
// Disks
// ---------------------------------------------------------------------------
/// On the line of a disk the rate of reading stands behind `read`, that of
/// writing behind `write`, and the share of time that it worked behind `util`.
#[verifier::rlimit(40)]
pub proof fn disk_rates_are_read_by_their_labels(d: DiskDeviceView, r: DiskRateView)
    ensures
        reads(disk_line(d, Some(r)), " read "@, Glyph::Throughput(r.read)),
        reads(disk_line(d, Some(r)), " write "@, Glyph::Throughput(r.write)),
        r.utilisation matches Some(p) ==> reads(
            disk_line(d, Some(r)),
            " util "@,
            Glyph::Fixed { value: QuantityView::Share(p), decimals: 1, width: 0 },
        ),
        r.utilisation is None ==> behind(
            disk_line(d, Some(r)),
            disk_line(d, Some(r)).len() as int,
            " util n/a\n"@,
        ),
        only_text(disk_line(d, None)),
{
    let line = disk_line(d, Some(r));
    reveal_strlit(" ");
    reveal_strlit("\n");
    reveal_strlit("n/a");
    reveal_strlit("%");
    reveal_strlit("read ");
    reveal_strlit(" read ");
    reveal_strlit(" write ");
    reveal_strlit(" util ");
    reveal_strlit(" util n/a\n");
    let k = labelled(d.name).len() as int + 5;
    assert(behind(line, k, " read "@));
    assert(line[k] == Glyph::Throughput(r.read));
    assert(behind(line, k + 8, " write "@));
    assert(line[k + 8] == Glyph::Throughput(r.write));
    assert(behind(line, k + 15, " util "@));
    assert forall|j: int| 0 <= j < line.len() && !(line[j] is Letter) implies j == k || j == k + 8
        || j == k + 15 by {}
    assert(line[k - 2] == letter('d'));
    assert(line[k + 6] == letter('e'));
    assert(line[k + 13] == letter('l'));
    assert(" read "@[4] == 'd');
    assert(" write "@[5] == 'e');
    assert(" util "@[4] == 'l');
    assert(!behind(line, k + 8, " read "@) && !behind(line, k + 15, " read "@));
    assert(!behind(line, k, " write "@) && !behind(line, k + 15, " write "@));
    assert(!behind(line, k, " util "@) && !behind(line, k + 8, " util "@));
}

/// The name of a disk stands at the start of its line.
pub proof fn disks_are_named(d: DiskDeviceView, r: Option<DiskRateView>)
    ensures
        column(disk_line(d, r), 2, d.name, 10),
{
    reveal_strlit("  ");
}

proof fn lemma_disk(devices: Seq<DiskDeviceView>, rates: Option<RatesView>, i: int)
    requires
        0 <= i < devices.len(),
    ensures
        holds(
            disk_lines(devices, rates),
            disk_line(devices[i], disk_rate(rates, devices[i].name)),
        ),
    decreases devices.len(),
{
    let all = disk_lines(devices, rates);
    let rest = disk_lines(devices.drop_last(), rates);
    let last = disk_line(devices.last(), disk_rate(rates, devices.last().name));
    let none = Seq::<Glyph>::empty();
    if i == devices.len() - 1 {
        lemma_holds(all, rest, last, none);
    } else {
        lemma_disk(devices.drop_last(), rates, i);
        lemma_holds(all, none, rest, last);
        lemma_holds_through(all, rest, disk_line(devices[i], disk_rate(rates, devices[i].name)));
    }
}

/// Every disk of a snapshot has its line, with its own rates where there are
/// some under its name.
#[verifier::rlimit(40)]
pub proof fn every_disk_has_its_line(
    s: SnapshotView,
    rates: Option<RatesView>,
    verbose: bool,
    i: int,
)
    requires
        snapshot_text(s, rates, verbose) is Ok,
        s.disks is Some,
        0 <= i < s.disks->0.devices.len(),
    ensures
        ({
            let doc = snapshot_text(s, rates, verbose)->Ok_0;
            let one = s.disks->0.devices[i];
            match rates {
                Some(r) => if r.disk.contains_key(one.name) {
                    holds(doc, disk_line(one, Some(r.disk[one.name])))
                } else {
                    holds(doc, disk_line(one, None))
                },
                None => holds(doc, disk_line(one, None)),
            }
        }),
{
    let doc = snapshot_text(s, rates, verbose)->Ok_0;
    let sample = s.disks->0;
    let all = sample.devices;
    let lines = disk_lines(all, rates);
    lemma_sections(s, rates, verbose);
    lemma_holds(
        disk_text(sample, rates),
        chars("Disk\n"@),
        lines,
        mount_lines(sample.mounts) + chars("\n"@),
    );
    lemma_disk(all, rates, i);
    lemma_holds_through(doc, disk_text(sample, rates), lines);
    lemma_holds_through(doc, lines, disk_line(all[i], disk_rate(rates, all[i].name)));
}

/// Disks are written one after the other, in their order.
pub proof fn disks_follow_each_other(
    a: Seq<DiskDeviceView>,
    b: Seq<DiskDeviceView>,
    rates: Option<RatesView>,
)
    ensures
        disk_lines(a + b, rates) == disk_lines(a, rates) + disk_lines(b, rates),
    decreases b.len(),
{
    if b.len() == 0 {
        assert(a + b == a);
    } else {
        disks_follow_each_other(a, b.drop_last(), rates);
        assert((a + b).drop_last() == a + b.drop_last());
    }
}

proof fn lemma_mount(mounts: Seq<MountPointView>, i: int)
    requires
        0 <= i < mounts.len(),
    ensures
        holds(mount_lines(mounts), mount_line(mounts[i])),
    decreases mounts.len(),
{
    let all = mount_lines(mounts);
    let rest = mount_lines(mounts.drop_last());
    let none = Seq::<Glyph>::empty();
    if i == mounts.len() - 1 {
        lemma_holds(all, rest, mount_line(mounts.last()), none);
    } else {
        lemma_mount(mounts.drop_last(), i);
        lemma_holds(all, none, rest, mount_line(mounts.last()));
        lemma_holds_through(all, rest, mount_line(mounts[i]));
    }
}

/// Every mount of a snapshot has its line: what is mounted, where, and as which
/// file system.
#[verifier::rlimit(40)]
pub proof fn every_mount_has_its_line(
    s: SnapshotView,
    rates: Option<RatesView>,
    verbose: bool,
    i: int,
)
    requires
        snapshot_text(s, rates, verbose) is Ok,
        s.disks is Some,
        0 <= i < s.disks->0.mounts.len(),
    ensures
        ({
            let one = s.disks->0.mounts[i];
            holds(
                snapshot_text(s, rates, verbose)->Ok_0,
                chars(
                    "  "@ + one.source + " -> "@ + one.mount_point + " ("@ + one.fs_type + ")\n"@,
                ),
            )
        }),
{
    let doc = snapshot_text(s, rates, verbose)->Ok_0;
    let sample = s.disks->0;
    let m = sample.mounts[i];
    let lines = mount_lines(sample.mounts);
    lemma_sections(s, rates, verbose);
    lemma_holds(
        disk_text(sample, rates),
        chars("Disk\n"@) + disk_lines(sample.devices, rates),
        lines,
        chars("\n"@),
    );
    lemma_mount(sample.mounts, i);
    lemma_holds_through(doc, disk_text(sample, rates), lines);
    lemma_holds_through(doc, lines, mount_line(m));
    assert(mount_line(m) =~= chars(
        "  "@ + m.source + " -> "@ + m.mount_point + " ("@ + m.fs_type + ")\n"@,
    ));
}

// ---------------------------------------------------------------------------
// Memory
// ---------------------------------------------------------------------------
/// Each figure of the memory stands behind its label: what there is, what of it
/// is not available, what is, and the same of the swap where there is some.
#[verifier::rlimit(40)]
pub proof fn memory_is_read_by_its_labels(m: MemorySample)
    ensures
        reads(memory_text(m), "\n  total      "@, Glyph::Size(m.total)),
        reads(memory_text(m), "\n  available  "@, Glyph::Size(m.available)),
        forall|used: Bytes|
            used.0 + m.available.0 == m.total.0 || (used.0 == 0 && m.available.0 > m.total.0)
                ==> #[trigger] reads(memory_text(m), "\n  used       "@, Glyph::Size(used)),
        forall|used: Bytes|
            m.swap_total.0 > 0 && (used.0 + m.swap_free.0 == m.swap_total.0 || (used.0 == 0
                && m.swap_free.0 > m.swap_total.0)) ==> #[trigger] reads(
                memory_text(m),
                "\n  swap       "@,
                Glyph::Size(used),
            ),
        m.swap_total.0 > 0 ==> reads(memory_text(m), " / "@, Glyph::Size(m.swap_total)),
        m.swap_total.0 == 0 ==> forall|k: int|
            0 <= k < memory_text(m).len() && #[trigger] behind(
                memory_text(m),
                k,
                "\n  swap       "@,
            ) ==> memory_text(m)[k] is Letter,
{
    let text = memory_text(m);
    reveal_strlit(" ");
    reveal_strlit("  ");
    reveal_strlit(" (");
    reveal_strlit("%) ");
    reveal_strlit(" / ");
    reveal_strlit("\n");
    reveal_strlit("Memory\n");
    reveal_strlit("total");
    reveal_strlit("used");
    reveal_strlit("available");
    reveal_strlit("swap");
    reveal_strlit("\n  total      ");
    reveal_strlit("\n  used       ");
    reveal_strlit("\n  available  ");
    reveal_strlit("\n  swap       ");
    let swap = m.swap_total.0 > 0;
    let (total, used, available) = ("\n  total      "@, "\n  used       "@, "\n  available  "@);
    let swapped = "\n  swap       "@;
    assert forall|k: int| 0 <= k < text.len() && !(text[k] is Letter) implies k == 20 || k == 35
        || k == 38 || k == 42 || k == 57 || (swap && (k == 72 || k == 76)) by {}
    assert(text[20] == Glyph::Size(m.total));
    assert(text[35] == Glyph::Size(m.spec_used()));
    assert(text[57] == Glyph::Size(m.available));
    assert(text[9] == letter('t') && text[24] == letter('u') && text[27] == letter('d') && text[31]
        == letter(' ') && text[46] == letter('a'));
    assert(total[3] == 't' && used[3] == 'u' && available[3] == 'a' && swapped[3] == 's');
    assert(behind(text, 20, total));
    assert(behind(text, 35, used));
    assert(behind(text, 57, available));
    if swap {
        assert(text[61] == letter('s') && text[65] == letter(' '));
        assert(text[72] == Glyph::Size(m.spec_swap_used()));
        assert(text[76] == Glyph::Size(m.swap_total));
        assert(behind(text, 72, swapped));
        assert(behind(text, 76, " / "@));
    }
    assert forall|k: int| 0 <= k < text.len() && !(text[k] is Letter) && #[trigger] behind(
        text,
        k,
        total,
    ) implies k == 20 by {
        assert(text[k - 11] == letter(total[3]));
    }
    assert forall|k: int| 0 <= k < text.len() && !(text[k] is Letter) && #[trigger] behind(
        text,
        k,
        used,
    ) implies k == 35 by {
        assert(text[k - 11] == letter(used[3]));
    }
    assert forall|k: int| 0 <= k < text.len() && !(text[k] is Letter) && #[trigger] behind(
        text,
        k,
        available,
    ) implies k == 57 by {
        assert(text[k - 11] == letter(available[3]));
    }
    assert forall|k: int| 0 <= k < text.len() && !(text[k] is Letter) && #[trigger] behind(
        text,
        k,
        swapped,
    ) implies swap && k == 72 by {
        assert(text[k - 11] == letter(swapped[3]));
    }
    assert forall|k: int| 0 <= k < text.len() && !(text[k] is Letter) && #[trigger] behind(
        text,
        k,
        " / "@,
    ) implies swap && k == 76 by {
        assert(text[k - 2] == letter(" / "@[1]));
    }
}

/// The share of the memory that is used stands in brackets, of all there is,
/// and the bar shows the same share.
#[verifier::rlimit(40)]
pub proof fn memory_share_is_of_the_total(m: MemorySample, used: nat)
    requires
        m.total.0 > 0,
        used + m.available.0 == m.total.0 || (used == 0 && m.available.0 > m.total.0),
    ensures
        reads(
            memory_text(m),
            " ("@,
            Glyph::Fixed {
                value: QuantityView::Share((used, m.total.0 as nat)),
                decimals: 1,
                width: 0,
            },
        ),
        reads(
            memory_text(m),
            "%) "@,
            Glyph::Bar { share: (used, m.total.0 as nat), width: 20 },
        ),
{
    let text = memory_text(m);
    reveal_strlit(" ");
    reveal_strlit("  ");
    reveal_strlit(" (");
    reveal_strlit("%) ");
    reveal_strlit(" / ");
    reveal_strlit("\n");
    reveal_strlit("Memory\n");
    let swap = m.swap_total.0 > 0;
    assert forall|k: int| 0 <= k < text.len() && !(text[k] is Letter) implies k == 20 || k == 35
        || k == 38 || k == 42 || k == 57 || (swap && (k == 72 || k == 76)) by {}
    assert(behind(text, 38, " ("@));
    assert(behind(text, 42, "%) "@));
    assert(text[41] == letter(' ') && text[40] == letter(')') && text[19] == letter(' ')
        && text[34] == letter(' ') && text[56] == letter(' '));
    assert(swap ==> text[71] == letter(' ') && text[75] == letter(' ') && text[74] == letter('/'));
    assert(text[18] == letter(padded("total"@, 10)[9]));
    assert(text[33] == letter(padded("used"@, 10)[9]));
    assert(text[55] == letter(padded("available"@, 10)[9]));
    assert(swap ==> text[70] == letter(padded("swap"@, 10)[9]));
    reveal_strlit("total");
    reveal_strlit("used");
    reveal_strlit("available");
    reveal_strlit("swap");
    assert forall|k: int| 0 <= k < text.len() && !(text[k] is Letter) && #[trigger] behind(
        text,
        k,
        " ("@,
    ) implies k == 38 by {
        assert(text[k - 1] == letter(" ("@[1]));
    }
    assert forall|k: int| 0 <= k < text.len() && !(text[k] is Letter) && #[trigger] behind(
        text,
        k,
        "%) "@,
    ) implies k == 42 by {
        assert(text[k - 2] == letter("%) "@[1]));
        assert(text[k - 1] == letter("%) "@[2]));
    }
}

/// The memory of a snapshot is shown.
pub proof fn memory_is_shown(s: SnapshotView, rates: Option<RatesView>, verbose: bool)
    requires
        snapshot_text(s, rates, verbose) is Ok,
        s.memory is Some,
    ensures
        holds(snapshot_text(s, rates, verbose)->Ok_0, memory_text(s.memory->0)),
{
    lemma_sections(s, rates, verbose);
}

// ---------------------------------------------------------------------------
// Processor
// ---------------------------------------------------------------------------
/// The three load averages stand in the order of their spans.
pub proof fn loads_are_read_in_order(l: LoadAvgView)
    ensures
        says(load_text(Some(l)), 0, "  load avg: "@),
        load_text(Some(l)).len() == 18,
        load_text(Some(l))[12] == figure(QuantityView::Numeral(l.one), 2, 0),
        load_text(Some(l))[13] == letter(' '),
        load_text(Some(l))[14] == figure(QuantityView::Numeral(l.five), 2, 0),
        load_text(Some(l))[15] == letter(' '),
        load_text(Some(l))[16] == figure(QuantityView::Numeral(l.fifteen), 2, 0),
        load_text(Some(l))[17] == letter('\n'),
{
    reveal_strlit("  load avg: ");
    reveal_strlit(" ");
    reveal_strlit("\n");
}

/// The share of all processors stands behind `busy`, and the bar shows it.
pub proof fn busy_is_read_by_its_label(p: (nat, nat))
    ensures
        reads(busy_text(Some(p)), " busy: "@, figure(QuantityView::Share(p), 1, 5)),
        reads(busy_text(Some(p)), "% "@, Glyph::Bar { share: p, width: 20 }),
{
    let text = busy_text(Some(p));
    reveal_strlit("  busy: ");
    reveal_strlit(" busy: ");
    reveal_strlit("% ");
    reveal_strlit("\n");
    assert(behind(text, 8, " busy: "@));
    assert(behind(text, 11, "% "@));
    assert(text[9] == letter('%') && text[6] == letter(':'));
    assert(!behind(text, 11, " busy: "@)) by {
        assert(" busy: "@[5] == ':');
    }
    assert(!behind(text, 8, "% "@)) by {
        assert("% "@[0] == '%');
    }
}

/// The line of a core begins with its number, shows its own share, and then its
/// frequency.
#[verifier::rlimit(40)]
pub proof fn cores_are_read_by_their_columns(i: int, freq: Option<KiloHertz>, r: RatesView)
    requires
        0 <= i,
    ensures
        column(core_text(i, freq, Some(r)), 4, "core"@ + decimal(i as nat), 7),
        i < r.cpu_per_core.len() && r.cpu_per_core[i] is Some ==> core_text(
            i,
            freq,
            Some(r),
        )[12] == figure(QuantityView::Share(r.cpu_per_core[i]->0), 1, 5),
        i >= r.cpu_per_core.len() || r.cpu_per_core[i] is None ==> says(
            core_text(i, freq, Some(r)),
            12,
            "  n/a "@,
        ),
        says(core_text(i, freq, None), 12, "  n/a "@),
        freq matches Some(f) ==> reads(
            core_text(i, freq, None),
            "n/a "@,
            figure(QuantityView::Gigahertz(f), 2, 0),
        ),
        i < r.cpu_per_core.len() && r.cpu_per_core[i] is Some ==> says(
            core_text(i, freq, Some(r)),
            13,
            "% "@,
        ),
        freq is Some && i < r.cpu_per_core.len() && r.cpu_per_core[i] is Some ==> core_text(
            i,
            freq,
            Some(r),
        )[15] == figure(QuantityView::Gigahertz(freq->0), 2, 0),
{
    reveal_strlit("    ");
    reveal_strlit(" ");
    reveal_strlit("  n/a");
    reveal_strlit("n/a ");
    reveal_strlit("  n/a ");
    reveal_strlit("n/a");
    reveal_strlit("%");
    reveal_strlit("% ");
    reveal_strlit(" GHz");
    reveal_strlit("\n");
    let bare = core_text(i, freq, None);
    if freq is Some {
        assert(behind(bare, 18, "n/a "@));
        assert(bare[18] == figure(QuantityView::Gigahertz(freq->0), 2, 0));
    }
}

proof fn lemma_core(freqs: Seq<Option<KiloHertz>>, rates: Option<RatesView>, i: int)
    requires
        0 <= i < freqs.len(),
    ensures
        holds(cores_text(freqs, rates), core_text(i, freqs[i], rates)),
    decreases freqs.len(),
{
    let rest = cores_text(freqs.drop_last(), rates);
    let last = core_text(freqs.len() - 1, freqs.last(), rates);
    lemma_holds_both(rest, last);
    if i < freqs.len() - 1 {
        lemma_core(freqs.drop_last(), rates, i);
        lemma_holds_through(cores_text(freqs, rates), rest, core_text(i, freqs[i], rates));
    }
}

proof fn lemma_processor(
    doc: Seq<Glyph>,
    a: Seq<Glyph>,
    b: Seq<Glyph>,
    c: Seq<Glyph>,
    d: Seq<Glyph>,
    e: Seq<Glyph>,
    f: Seq<Glyph>,
)
    requires
        holds(doc, a + b + c + (d + e) + f + chars("\n"@)),
    ensures
        holds(doc, a + b),
        holds(doc, c),
        holds(doc, d),
        holds(doc, e),
        holds(doc, f),
{
    let text = a + b + c + (d + e) + f + chars("\n"@);
    lemma_holds_both(a + b + c + (d + e) + f, chars("\n"@));
    lemma_holds_both(a + b + c + (d + e), f);
    lemma_holds_both(a + b + c, d + e);
    lemma_holds_both(a + b, c);
    lemma_holds_both(d, e);
    lemma_holds_through(doc, text, a + b + c + (d + e) + f);
    lemma_holds_through(doc, a + b + c + (d + e) + f, f);
    lemma_holds_through(doc, a + b + c + (d + e) + f, a + b + c + (d + e));
    lemma_holds_through(doc, a + b + c + (d + e), a + b + c);
    lemma_holds_through(doc, a + b + c + (d + e), d + e);
    lemma_holds_through(doc, d + e, d);
    lemma_holds_through(doc, d + e, e);
    lemma_holds_through(doc, a + b + c, a + b);
    lemma_holds_through(doc, a + b + c, c);
}

/// What a snapshot holds of the processor is shown: its model, how many cores
/// there are, the load, the share, and each core under its number.
#[verifier::rlimit(40)]
pub proof fn the_processor_is_shown(s: SnapshotView, rates: Option<RatesView>, verbose: bool)
    requires
        snapshot_text(s, rates, verbose) is Ok,
        s.cpu is Some,
    ensures
        ({
            let doc = snapshot_text(s, rates, verbose)->Ok_0;
            let cpu = s.cpu->0;
            &&& cpu.model matches Some(m) ==> holds(doc, chars("CPU\n  "@ + m + "\n"@))
            &&& holds(doc, chars("  cores: "@ + decimal(cpu.per_core.len()) + "\n"@))
            &&& cpu.load_avg is Some ==> holds(doc, load_text(cpu.load_avg))
            &&& rates matches Some(r) ==> r.cpu_total is Some ==> holds(doc, busy_text(r.cpu_total))
            &&& forall|i: int|
                0 <= i < cpu.freq_khz.len() ==> holds(
                    doc,
                    #[trigger] core_text(i, cpu.freq_khz[i], rates),
                )
        }),
{
    let doc = snapshot_text(s, rates, verbose)->Ok_0;
    let cpu = s.cpu->0;
    lemma_sections(s, rates, verbose);
    lemma_processor_parts(doc, cpu, rates);
    lemma_count_line(cpu.per_core.len());
    if let Some(m) = cpu.model {
        lemma_model_line(m);
    }
    assert forall|i: int| 0 <= i < cpu.freq_khz.len() implies holds(
        doc,
        #[trigger] core_text(i, cpu.freq_khz[i], rates),
    ) by {
        lemma_core(cpu.freq_khz, rates, i);
        lemma_holds_through(
            doc,
            cores_text(cpu.freq_khz, rates),
            core_text(i, cpu.freq_khz[i], rates),
        );
    }
}

proof fn lemma_processor_parts(doc: Seq<Glyph>, cpu: CpuSampleView, rates: Option<RatesView>)
    requires
        holds(doc, cpu_text(cpu, rates)),
    ensures
        holds(doc, chars("CPU\n"@) + model_text(cpu.model)),
        holds(doc, core_count_text(cpu.per_core.len())),
        holds(doc, load_text(cpu.load_avg)),
        holds(doc, busy_text(total_share(rates))),
        holds(doc, cores_text(cpu.freq_khz, rates)),
{
    lemma_processor(
        doc,
        chars("CPU\n"@),
        model_text(cpu.model),
        core_count_text(cpu.per_core.len()),
        load_text(cpu.load_avg),
        busy_text(total_share(rates)),
        cores_text(cpu.freq_khz, rates),
    );
}

proof fn lemma_count_line(n: nat)
    ensures
        core_count_text(n) == chars("  cores: "@ + decimal(n) + "\n"@),
{
    assert(core_count_text(n) =~= chars("  cores: "@ + decimal(n) + "\n"@));
}

proof fn lemma_model_line(m: Seq<char>)
    ensures
        chars("CPU\n"@) + model_text(Some(m)) == chars("CPU\n  "@ + m + "\n"@),
{
    reveal_strlit("CPU\n");
    reveal_strlit("  ");
    reveal_strlit("CPU\n  ");
    assert("CPU\n"@ + "  "@ =~= "CPU\n  "@);
    assert(chars("CPU\n"@) + model_text(Some(m)) =~= chars("CPU\n"@ + "  "@ + m + "\n"@));
}

// ---------------------------------------------------------------------------
// Temperatures and fans
// ---------------------------------------------------------------------------
/// The line of a sensor shows its label, its temperature, and a mark that says
/// how near it is to its limits.
#[verifier::rlimit(40)]
pub proof fn sensors_are_read_by_their_columns(t: TempSensorView)
    ensures
        column(temp_text(t), 4, t.label, 24),
        temp_text(t)[29] == figure(QuantityView::Celsius(t.value), 1, 6),
        says(temp_text(t), 30, " C "@),
        at_limit(t) ==> says(temp_text(t), 33, "!!\n"@),
        above_usual(t) ==> says(temp_text(t), 33, "! \n"@),
        !at_limit(t) && !above_usual(t) ==> says(temp_text(t), 33, "  \n"@),
        temp_text(t).len() == 36,
{
    reveal_strlit("    ");
    reveal_strlit(" ");
    reveal_strlit(" C ");
    reveal_strlit("!!");
    reveal_strlit("! ");
    reveal_strlit("  ");
    reveal_strlit("\n");
    reveal_strlit("!!\n");
    reveal_strlit("! \n");
    reveal_strlit("  \n");
    let m = marker(severity_of(t));
    assert(temp_text(t).skip(33) =~= chars(m + "\n"@));
    assert("!!"@ + "\n"@ =~= "!!\n"@);
    assert("! "@ + "\n"@ =~= "! \n"@);
    assert("  "@ + "\n"@ =~= "  \n"@);
    assert forall|j: int| 0 <= j < 3 implies temp_text(t)[33 + j] == letter(
        #[trigger] (m + "\n"@)[j],
    ) by {
        assert(temp_text(t).skip(33)[j] == chars(m + "\n"@)[j]);
    }
}

/// The line of a fan shows its label and its turns per minute.
pub proof fn fans_are_read_by_their_columns(f: FanSensorView)
    ensures
        column(fan_text(f), 4, f.label, 24),
        says(fan_text(f), 29, decimal(f.rpm.0 as nat) + " rpm\n"@),
{
    reveal_strlit("    ");
    reveal_strlit(" ");
    let tail = decimal(f.rpm.0 as nat) + " rpm\n"@;
    assert(fan_text(f).skip(29) =~= chars(tail));
    assert forall|j: int| 0 <= j < chars(tail).len() implies fan_text(f)[29 + j] == #[trigger] chars(
        tail,
    )[j] by {
        assert(fan_text(f).skip(29)[j] == chars(tail)[j]);
    }
}

proof fn lemma_temp(temps: Seq<TempSensorView>, i: int)
    requires
        0 <= i < temps.len(),
    ensures
        holds(temps_text(temps), temp_text(temps[i])),
    decreases temps.len(),
{
    let rest = temps_text(temps.drop_last());
    lemma_holds_both(rest, temp_text(temps.last()));
    if i < temps.len() - 1 {
        lemma_temp(temps.drop_last(), i);
        lemma_holds_through(temps_text(temps), rest, temp_text(temps[i]));
    }
}

proof fn lemma_fan(fans: Seq<FanSensorView>, i: int)
    requires
        0 <= i < fans.len(),
    ensures
        holds(fans_text(fans), fan_text(fans[i])),
    decreases fans.len(),
{
    let rest = fans_text(fans.drop_last());
    lemma_holds_both(rest, fan_text(fans.last()));
    if i < fans.len() - 1 {
        lemma_fan(fans.drop_last(), i);
        lemma_holds_through(fans_text(fans), rest, fan_text(fans[i]));
    }
}

proof fn lemma_chip(chips: Seq<HwmonChipView>, i: int)
    requires
        0 <= i < chips.len(),
    ensures
        holds(chips_text(chips), chip_text(chips[i])),
    decreases chips.len(),
{
    let rest = chips_text(chips.drop_last());
    lemma_holds_both(rest, chip_text(chips.last()));
    if i < chips.len() - 1 {
        lemma_chip(chips.drop_last(), i);
        lemma_holds_through(chips_text(chips), rest, chip_text(chips[i]));
    }
}

/// Under the name of a chip stand its own sensors and its own fans, all of them.
pub proof fn a_chip_lists_its_sensors(c: HwmonChipView)
    ensures
        says(chip_text(c), 0, "  "@ + c.name + "\n"@),
        forall|j: int|
            0 <= j < c.temps.len() ==> holds(chip_text(c), temp_text(#[trigger] c.temps[j])),
        forall|j: int|
            0 <= j < c.fans.len() ==> holds(chip_text(c), fan_text(#[trigger] c.fans[j])),
{
    let head = chars("  "@) + chars(c.name) + chars("\n"@);
    let (ts, fs) = (temps_text(c.temps), fans_text(c.fans));
    assert(head =~= chars("  "@ + c.name + "\n"@));
    lemma_holds_both(head + ts, fs);
    lemma_holds_both(head, ts);
    lemma_holds_through(chip_text(c), head + ts, ts);
    assert forall|j: int| 0 <= j < c.temps.len() implies holds(
        chip_text(c),
        temp_text(#[trigger] c.temps[j]),
    ) by {
        lemma_temp(c.temps, j);
        lemma_holds_through(chip_text(c), ts, temp_text(c.temps[j]));
    }
    assert forall|j: int| 0 <= j < c.fans.len() implies holds(
        chip_text(c),
        fan_text(#[trigger] c.fans[j]),
    ) by {
        lemma_fan(c.fans, j);
        lemma_holds_through(chip_text(c), fs, fan_text(c.fans[j]));
    }
}

/// Every chip of a snapshot is shown.
#[verifier::rlimit(40)]
pub proof fn every_chip_is_shown(
    s: SnapshotView,
    rates: Option<RatesView>,
    verbose: bool,
    i: int,
)
    requires
        snapshot_text(s, rates, verbose) is Ok,
        s.thermal is Some,
        0 <= i < s.thermal->0.chips.len(),
    ensures
        holds(snapshot_text(s, rates, verbose)->Ok_0, chip_text(s.thermal->0.chips[i])),
{
    let doc = snapshot_text(s, rates, verbose)->Ok_0;
    let chips = s.thermal->0.chips;
    lemma_sections(s, rates, verbose);
    lemma_holds(thermal_text(chips), chars("Thermal\n"@), chips_text(chips), chars("\n"@));
    lemma_chip(chips, i);
    lemma_holds_through(doc, thermal_text(chips), chips_text(chips));
    lemma_holds_through(doc, chips_text(chips), chip_text(chips[i]));
}

/// Chips are written one after the other, in their order.
pub proof fn chips_follow_each_other(a: Seq<HwmonChipView>, b: Seq<HwmonChipView>)
    ensures
        chips_text(a + b) == chips_text(a) + chips_text(b),
    decreases b.len(),
{
    if b.len() == 0 {
        assert(a + b == a);
    } else {
        chips_follow_each_other(a, b.drop_last());
        assert((a + b).drop_last() == a + b.drop_last());
    }
}

// ---------------------------------------------------------------------------
// Graphics cards
// ---------------------------------------------------------------------------
/// The line of a card begins with its name and its maker, and shows the share of
/// time that it worked behind `busy`.
#[verifier::rlimit(40)]
pub proof fn cards_are_named(g: GpuView)
    ensures
        ({
            let maker = match g.vendor {
                GpuVendor::Amd => "Amd"@,
                GpuVendor::Intel => "Intel"@,
                GpuVendor::Nvidia => "Nvidia"@,
                GpuVendor::Unknown => "Unknown"@,
            };
            let head = "  "@ + g.name + " "@ + maker + " busy "@;
            &&& says(gpu_line(g), 0, head)
            &&& g.busy matches Some(p) ==> gpu_line(g)[head.len() as int] == figure(
                QuantityView::Share(p),
                1,
                0,
            )
            &&& g.busy is None ==> says(gpu_line(g), head.len() as int, "n/a\n"@)
        }),
{
    reveal_strlit("n/a");
    reveal_strlit("n/a\n");
    reveal_strlit("\n");
    let head = chars("  "@) + chars(g.name) + chars(" "@) + chars(vendor_title(g.vendor)) + chars(
        " busy "@,
    );
    assert(head =~= chars("  "@ + g.name + " "@ + vendor_title(g.vendor) + " busy "@));
    let n = head.len() as int;
    assert(gpu_line(g).take(n) =~= head);
    assert forall|j: int| 0 <= j < n implies gpu_line(g)[j] == #[trigger] head[j] by {
        assert(gpu_line(g).take(n)[j] == head[j]);
    }
    if g.busy is None {
        assert(gpu_line(g).subrange(n, n + 4) =~= chars("n/a\n"@));
        assert forall|j: int| 0 <= j < 4 implies gpu_line(g)[n + j] == #[trigger] chars("n/a\n"@)[j] by {
            assert(gpu_line(g).subrange(n, n + 4)[j] == chars("n/a\n"@)[j]);
        }
    }
}

/// Behind `vram` stands what is used of it, and behind the stroke what there is;
/// the temperature and the frequency have lines of their own.
#[verifier::rlimit(40)]
pub proof fn card_figures_are_read_by_their_labels(g: GpuView)
    ensures
        g.vram_used is Some && g.vram_total is Some ==> shows(
            gpu_line(g),
            "\n    vram "@,
            Glyph::Size(g.vram_used->0),
        ) && shows(gpu_line(g), " / "@, Glyph::Size(g.vram_total->0)),
        g.temp matches Some(t) ==> shows(
            gpu_line(g),
            "\n    temp "@,
            figure(QuantityView::Celsius(t), 1, 0),
        ),
        g.freq_khz matches Some(f) ==> shows(
            gpu_line(g),
            "\n    freq "@,
            figure(QuantityView::Gigahertz(f), 2, 0),
        ),
{
    reveal_strlit("\n");
    reveal_strlit(" / ");
    reveal_strlit(" C\n");
    reveal_strlit(" GHz\n");
    reveal_strlit("    vram ");
    reveal_strlit("    temp ");
    reveal_strlit("    freq ");
    reveal_strlit("\n    vram ");
    reveal_strlit("\n    temp ");
    reveal_strlit("\n    freq ");
    let line = gpu_line(g);
    let head = chars("  "@) + chars(g.name) + chars(" "@) + chars(vendor_title(g.vendor)) + chars(
        " busy "@,
    ) + util_text(g.busy) + chars("\n"@);
    let n = head.len() as int;
    assert(line =~= head + vram_text(g) + gpu_temp_text(g) + gpu_freq_text(g));
    assert(line[n - 1] == letter('\n'));
    let v = vram_text(g).len() as int;
    let t = gpu_temp_text(g).len() as int;
    if g.vram_used is Some && g.vram_total is Some {
        assert(behind(line, n + 9, "\n    vram "@));
        assert(line[n + 9] == Glyph::Size(g.vram_used->0));
        assert(behind(line, n + 13, " / "@));
        assert(line[n + 13] == Glyph::Size(g.vram_total->0));
    }
    assert(line[n + v - 1] == letter('\n'));
    if g.temp is Some {
        assert(behind(line, n + v + 9, "\n    temp "@));
        assert(line[n + v + 9] == figure(QuantityView::Celsius(g.temp->0), 1, 0));
    }
    assert(line[n + v + t - 1] == letter('\n'));
    if g.freq_khz is Some {
        assert(behind(line, n + v + t + 9, "\n    freq "@));
        assert(line[n + v + t + 9] == figure(QuantityView::Gigahertz(g.freq_khz->0), 2, 0));
    }
}

proof fn lemma_card(gpus: Seq<GpuView>, i: int)
    requires
        0 <= i < gpus.len(),
    ensures
        holds(gpu_lines(gpus), gpu_line(gpus[i])),
    decreases gpus.len(),
{
    let rest = gpu_lines(gpus.drop_last());
    lemma_holds_both(rest, gpu_line(gpus.last()));
    if i < gpus.len() - 1 {
        lemma_card(gpus.drop_last(), i);
        lemma_holds_through(gpu_lines(gpus), rest, gpu_line(gpus[i]));
    }
}

/// Every card of a snapshot has its lines.
#[verifier::rlimit(40)]
pub proof fn every_card_is_shown(
    s: SnapshotView,
    rates: Option<RatesView>,
    verbose: bool,
    i: int,
)
    requires
        snapshot_text(s, rates, verbose) is Ok,
        s.gpus is Some,
        0 <= i < s.gpus->0.gpus.len(),
    ensures
        holds(snapshot_text(s, rates, verbose)->Ok_0, gpu_line(s.gpus->0.gpus[i])),
{
    let doc = snapshot_text(s, rates, verbose)->Ok_0;
    let gpus = s.gpus->0.gpus;
    lemma_sections(s, rates, verbose);
    lemma_holds(gpu_text(gpus), chars("GPU\n"@), gpu_lines(gpus), chars("\n"@));
    lemma_card(gpus, i);
    lemma_holds_through(doc, gpu_text(gpus), gpu_lines(gpus));
    lemma_holds_through(doc, gpu_lines(gpus), gpu_line(gpus[i]));
}

/// Cards are written one after the other, in their order.
pub proof fn cards_follow_each_other(a: Seq<GpuView>, b: Seq<GpuView>)
    ensures
        gpu_lines(a + b) == gpu_lines(a) + gpu_lines(b),
    decreases b.len(),
{
    if b.len() == 0 {
        assert(a + b == a);
    } else {
        cards_follow_each_other(a, b.drop_last());
        assert((a + b).drop_last() == a + b.drop_last());
    }
}

// ---------------------------------------------------------------------------
// Connections
// ---------------------------------------------------------------------------
/// An end of a connection.
pub open spec fn endpoint(address: IpAddr, port: u16) -> Seq<char> {
    address_text(address) + ":"@ + decimal(port as nat)
}

/// Who owns a connection: the program and its process, or the user where the two
/// are not known.
pub open spec fn owner(c: ConnectionView) -> Seq<char> {
    if c.program is Some && c.pid is Some {
        c.program->0 + "["@ + decimal(c.pid->0 as nat) + "]"@
    } else {
        "uid "@ + decimal(c.uid as nat)
    }
}

proof fn lemma_connection(connections: Seq<ConnectionView>, i: int)
    requires
        0 <= i < connections.len(),
    ensures
        holds(connection_lines(connections), connection_line(connections[i])),
    decreases connections.len(),
{
    let rest = connection_lines(connections.drop_last());
    lemma_holds_both(rest, connection_line(connections.last()));
    if i < connections.len() - 1 {
        lemma_connection(connections.drop_last(), i);
        lemma_holds_through(
            connection_lines(connections),
            rest,
            connection_line(connections[i]),
        );
    }
}

/// The line of a connection reads: its owner, its protocol, its own end, an
/// arrow, and the end of the peer.
#[verifier::rlimit(40)]
pub proof fn connections_point_to_their_peer(c: ConnectionView)
    ensures
        ({
            let protocol = match c.protocol {
                ConnProtocol::Tcp => " tcp "@,
                ConnProtocol::Udp => " udp "@,
            };
            says(
                connection_line(c),
                0,
                "  "@ + owner(c) + protocol + endpoint(c.local_addr, c.local_port) + " -> "@
                    + endpoint(c.remote_addr, c.remote_port),
            )
        }),
        c.state is None ==> connection_line(c).len() == 3 + owner(c).len() + 5 + endpoint(
            c.local_addr,
            c.local_port,
        ).len() + 4 + endpoint(c.remote_addr, c.remote_port).len(),
        c.state matches Some(s) ==> behind(
            connection_line(c),
            connection_line(c).len() as int,
            " ["@ + tcp_state_name(s) + "]\n"@,
        ),
{
    reveal_strlit(" ");
    reveal_strlit("  ");
    reveal_strlit("tcp");
    reveal_strlit("udp");
    reveal_strlit(" tcp ");
    reveal_strlit(" udp ");
    reveal_strlit(" -> ");
    reveal_strlit("]");
    reveal_strlit("\n");
    reveal_strlit("]\n");
    let protocol = match c.protocol {
        ConnProtocol::Tcp => " tcp "@,
        ConnProtocol::Udp => " udp "@,
    };
    assert(" "@ + protocol_name(c.protocol) + " "@ =~= protocol);
    let line = connection_line(c);
    let (x, y) = (endpoint(c.local_addr, c.local_port), endpoint(c.remote_addr, c.remote_port));
    let text = "  "@ + owner(c) + protocol + x + " -> "@ + y;
    assert(owner_text(c) =~= chars(owner(c)));
    assert(chars(" "@) + chars(protocol_name(c.protocol)) + chars(" "@) =~= chars(protocol));
    assert(endpoints_text(c) =~= chars(x + " -> "@ + y));
    let head = chars("  "@) + owner_text(c) + chars(" "@) + chars(protocol_name(c.protocol))
        + chars(" "@) + endpoints_text(c);
    assert(head =~= chars("  "@) + owner_text(c) + (chars(" "@) + chars(protocol_name(c.protocol))
        + chars(" "@)) + endpoints_text(c));
    assert(head =~= chars(text));
    assert(line =~= head + (state_text(c) + chars("\n"@)));
    if let Some(s) = c.state {
        let tail = " ["@ + tcp_state_name(s) + "]\n"@;
        assert("]"@ + "\n"@ =~= "]\n"@);
        assert(state_text(c) + chars("\n"@) =~= chars(
            " ["@ + tcp_state_name(s) + ("]"@ + "\n"@),
        ));
        assert(line =~= head + chars(tail));
    }
}

/// Every connection of a snapshot has its line.
#[verifier::rlimit(40)]
pub proof fn every_connection_is_shown(
    s: SnapshotView,
    rates: Option<RatesView>,
    verbose: bool,
    i: int,
)
    requires
        snapshot_text(s, rates, verbose) is Ok,
        s.connections is Some,
        0 <= i < s.connections->0.connections.len(),
    ensures
        holds(
            snapshot_text(s, rates, verbose)->Ok_0,
            connection_line(s.connections->0.connections[i]),
        ),
{
    let doc = snapshot_text(s, rates, verbose)->Ok_0;
    let all = s.connections->0.connections;
    lemma_sections(s, rates, verbose);
    lemma_holds(
        connections_text(all),
        chars("Connections\n"@),
        connection_lines(all),
        chars("\n"@),
    );
    lemma_connection(all, i);
    lemma_holds_through(doc, connections_text(all), connection_lines(all));
    lemma_holds_through(doc, connection_lines(all), connection_line(all[i]));
}

/// Connections are written one after the other, in their order.
pub proof fn connections_follow_each_other(a: Seq<ConnectionView>, b: Seq<ConnectionView>)
    ensures
        connection_lines(a + b) == connection_lines(a) + connection_lines(b),
    decreases b.len(),
{
    if b.len() == 0 {
        assert(a + b == a);
    } else {
        connections_follow_each_other(a, b.drop_last());
        assert((a + b).drop_last() == a + b.drop_last());
    }
}

// ---------------------------------------------------------------------------
// Errors
// ---------------------------------------------------------------------------
proof fn lemma_error(errors: Seq<CollectorErrorView>, i: int)
    requires
        0 <= i < errors.len(),
    ensures
        holds(
            error_lines(errors),
            chars("  "@ + errors[i].collector + ": "@ + errors[i].message + "\n"@),
        ),
    decreases errors.len(),
{
    let rest = error_lines(errors.drop_last());
    let e = errors.last();
    let last = chars("  "@) + chars(e.collector) + chars(": "@) + chars(e.message) + chars("\n"@);
    assert(last =~= chars("  "@ + e.collector + ": "@ + e.message + "\n"@));
    lemma_holds_both(rest, last);
    if i < errors.len() - 1 {
        lemma_error(errors.drop_last(), i);
        lemma_holds_through(
            error_lines(errors),
            rest,
            chars("  "@ + errors[i].collector + ": "@ + errors[i].message + "\n"@),
        );
    }
}

/// Every collector that failed is named with its reason, where that is asked for.
#[verifier::rlimit(40)]
pub proof fn every_error_is_shown(s: SnapshotView, rates: Option<RatesView>, i: int)
    requires
        snapshot_text(s, rates, true) is Ok,
        0 <= i < s.errors.len(),
    ensures
        holds(
            snapshot_text(s, rates, true)->Ok_0,
            chars("  "@ + s.errors[i].collector + ": "@ + s.errors[i].message + "\n"@),
        ),
{
    let doc = snapshot_text(s, rates, true)->Ok_0;
    lemma_sections(s, rates, true);
    lemma_holds(
        errors_text(s.errors, true),
        chars("Errors\n"@),
        error_lines(s.errors),
        chars("\n"@),
    );
    lemma_error(s.errors, i);
    lemma_holds_through(doc, errors_text(s.errors, true), error_lines(s.errors));
    lemma_holds_through(
        doc,
        error_lines(s.errors),
        chars("  "@ + s.errors[i].collector + ": "@ + s.errors[i].message + "\n"@),
    );
}

/// Where errors are not asked for, they change nothing in what is written.
pub proof fn errors_stay_hidden(
    s: SnapshotView,
    rates: Option<RatesView>,
    errors: Seq<CollectorErrorView>,
)
    ensures
        snapshot_text(s, rates, false) == snapshot_text(SnapshotView { errors, ..s }, rates, false),
{
}

// ---------------------------------------------------------------------------
// The order of the sections
// ---------------------------------------------------------------------------
proof fn lemma_says(head: Seq<char>, rest: Seq<Glyph>)
    ensures
        says(chars(head) + rest, 0, head),
{
}

/// The text begins with the program and the time of the snapshot.
pub proof fn the_text_begins_with_the_time(
    s: SnapshotView,
    rates: Option<RatesView>,
    verbose: bool,
)
    requires
        snapshot_text(s, rates, verbose) is Ok,
    ensures
        says(
            snapshot_text(s, rates, verbose)->Ok_0,
            0,
            "rustmon — "@ + rfc3339_of(s.taken_at)->Ok_0 + "\n\n"@,
        ),
{
    let time = rfc3339_of(s.taken_at)->Ok_0;
    let head = "rustmon — "@ + time + "\n\n"@;
    lemma_opening(time, sections(s, rates), errors_text(s.errors, verbose));
    lemma_says(head, sections(s, rates) + errors_text(s.errors, verbose));
}

proof fn lemma_opening(time: Seq<char>, a: Seq<Glyph>, b: Seq<Glyph>)
    ensures
        chars("rustmon — "@) + chars(time) + chars("\n\n"@) + a + b == chars(
            "rustmon — "@ + time + "\n\n"@,
        ) + (a + b),
{
    assert(chars("rustmon — "@) + chars(time) + chars("\n\n"@) =~= chars(
        "rustmon — "@ + time + "\n\n"@,
    ));
    lemma_regroup(chars("rustmon — "@ + time + "\n\n"@), a, b);
}

proof fn lemma_regroup(a: Seq<Glyph>, b: Seq<Glyph>, c: Seq<Glyph>)
    ensures
        a + b + c == a + (b + c),
{
    assert(a + b + c =~= a + (b + c));
}

/// The section of the processor has its heading.
pub proof fn the_processor_has_its_heading(cpu: CpuSampleView, rates: Option<RatesView>)
    ensures
        says(cpu_section(Some(cpu), rates), 0, "CPU\n"@),
{
    let (a, b, c, d, e, f) = (
        chars("CPU\n"@),
        model_text(cpu.model),
        core_count_text(cpu.per_core.len()),
        load_text(cpu.load_avg) + busy_text(total_share(rates)),
        cores_text(cpu.freq_khz, rates),
        chars("\n"@),
    );
    lemma_regroup(a + b + c + d, e, f);
    lemma_regroup(a + b + c, d, e + f);
    lemma_regroup(a + b, c, d + (e + f));
    lemma_regroup(a, b, c + (d + (e + f)));
    lemma_says("CPU\n"@, b + (c + (d + (e + f))));
}

/// The section of the memory has its heading.
pub proof fn the_memory_has_its_heading(m: MemorySample)
    ensures
        says(memory_section(Some(m)), 0, "Memory\n"@),
{
    let (a, b, c, d, e, f) = (
        chars("Memory\n"@),
        size_line("total"@, m.total),
        used_line(m),
        size_line("available"@, m.available),
        swap_text(m),
        chars("\n"@),
    );
    lemma_regroup(a + b + c + d, e, f);
    lemma_regroup(a + b + c, d, e + f);
    lemma_regroup(a + b, c, d + (e + f));
    lemma_regroup(a, b, c + (d + (e + f)));
    lemma_says("Memory\n"@, b + (c + (d + (e + f))));
}

/// The other sections have theirs.
pub proof fn lists_have_their_headings(
    thermal: ThermalSampleView,
    disks: DiskSampleView,
    net: NetSampleView,
    gpus: GpuSampleView,
    connections: ConnectionSampleView,
    rates: Option<RatesView>,
)
    ensures
        says(thermal_section(Some(thermal)), 0, "Thermal\n"@),
        says(disk_section(Some(disks), rates), 0, "Disk\n"@),
        says(net_section(Some(net), rates), 0, "Net\n"@),
        says(gpu_section(Some(gpus)), 0, "GPU\n"@),
        says(connections_section(Some(connections)), 0, "Connections\n"@),
{
    let end = chars("\n"@);
    let (t, n, g, c) = (
        chips_text(thermal.chips),
        interface_lines(net.interfaces, rates),
        gpu_lines(gpus.gpus),
        connection_lines(connections.connections),
    );
    let (d, m) = (disk_lines(disks.devices, rates), mount_lines(disks.mounts));
    lemma_regroup(chars("Thermal\n"@), t, end);
    lemma_says("Thermal\n"@, t + end);
    lemma_regroup(chars("Disk\n"@) + d, m, end);
    lemma_regroup(chars("Disk\n"@), d, m + end);
    lemma_says("Disk\n"@, d + (m + end));
    lemma_regroup(chars("Net\n"@), n, end);
    lemma_says("Net\n"@, n + end);
    lemma_regroup(chars("GPU\n"@), g, end);
    lemma_says("GPU\n"@, g + end);
    lemma_regroup(chars("Connections\n"@), c, end);
    lemma_says("Connections\n"@, c + end);
}

/// Sections stand in this order: processor, memory, temperatures, disks,
/// interfaces, cards, connections. Taking the later ones away leaves the text
/// before them as it was.
#[verifier::rlimit(40)]
pub proof fn sections_keep_their_order(s: SnapshotView, rates: Option<RatesView>)
    requires
        snapshot_text(s, rates, false) is Ok,
    ensures
        ({
            let doc = snapshot_text(s, rates, false)->Ok_0;
            let s6 = SnapshotView { connections: None, ..s };
            let s5 = SnapshotView { gpus: None, ..s6 };
            let s4 = SnapshotView { net: None, ..s5 };
            let s3 = SnapshotView { disks: None, ..s4 };
            let s2 = SnapshotView { thermal: None, ..s3 };
            let s1 = SnapshotView { memory: None, ..s2 };
            let s0 = SnapshotView { cpu: None, ..s1 };
            &&& stands_at(doc, snapshot_text(s6, rates, false)->Ok_0, 0)
            &&& stands_at(doc, snapshot_text(s5, rates, false)->Ok_0, 0)
            &&& stands_at(doc, snapshot_text(s4, rates, false)->Ok_0, 0)
            &&& stands_at(doc, snapshot_text(s3, rates, false)->Ok_0, 0)
            &&& stands_at(doc, snapshot_text(s2, rates, false)->Ok_0, 0)
            &&& stands_at(doc, snapshot_text(s1, rates, false)->Ok_0, 0)
            &&& stands_at(doc, snapshot_text(s0, rates, false)->Ok_0, 0)
            &&& snapshot_text(s0, rates, false)->Ok_0 == chars(
                "rustmon — "@ + rfc3339_of(s.taken_at)->Ok_0 + "\n\n"@,
            )
        }),
{
    let head = chars("rustmon — "@) + chars(rfc3339_of(s.taken_at)->Ok_0) + chars("\n\n"@);
    lemma_prefixes(
        head,
        cpu_section(s.cpu, rates),
        memory_section(s.memory),
        thermal_section(s.thermal),
        disk_section(s.disks, rates),
        net_section(s.net, rates),
        gpu_section(s.gpus),
        connections_section(s.connections),
    );
    let none = Seq::<Glyph>::empty();
    assert(cpu_section(None, rates) == none);
    assert(memory_section(None) == none);
    assert(thermal_section(None) == none);
    assert(disk_section(None, rates) == none);
    assert(net_section(None, rates) == none);
    assert(gpu_section(None) == none);
    assert(connections_section(None) == none);
    assert(errors_text(s.errors, false) == none);
    assert(head =~= chars("rustmon — "@ + rfc3339_of(s.taken_at)->Ok_0 + "\n\n"@));
}

spec fn assembled(
    head: Seq<Glyph>,
    a: Seq<Glyph>,
    b: Seq<Glyph>,
    c: Seq<Glyph>,
    d: Seq<Glyph>,
    e: Seq<Glyph>,
    f: Seq<Glyph>,
    g: Seq<Glyph>,
) -> Seq<Glyph> {
    head + ((a + b + c) + (d + e) + (f + g)) + Seq::<Glyph>::empty()
}

#[verifier::rlimit(40)]
proof fn lemma_prefixes(
    head: Seq<Glyph>,
    a: Seq<Glyph>,
    b: Seq<Glyph>,
    c: Seq<Glyph>,
    d: Seq<Glyph>,
    e: Seq<Glyph>,
    f: Seq<Glyph>,
    g: Seq<Glyph>,
)
    ensures
        ({
            let none = Seq::<Glyph>::empty();
            let doc = assembled(head, a, b, c, d, e, f, g);
            &&& stands_at(doc, assembled(head, a, b, c, d, e, f, none), 0)
            &&& stands_at(doc, assembled(head, a, b, c, d, e, none, none), 0)
            &&& stands_at(doc, assembled(head, a, b, c, d, none, none, none), 0)
            &&& stands_at(doc, assembled(head, a, b, c, none, none, none, none), 0)
            &&& stands_at(doc, assembled(head, a, b, none, none, none, none, none), 0)
            &&& stands_at(doc, assembled(head, a, none, none, none, none, none, none), 0)
            &&& stands_at(doc, assembled(head, none, none, none, none, none, none, none), 0)
            &&& assembled(head, none, none, none, none, none, none, none) == head
        }),
{
    let none = Seq::<Glyph>::empty();
    let p1 = head + a;
    let p2 = p1 + b;
    let p3 = p2 + c;
    let p4 = p3 + d;
    let p5 = p4 + e;
    let p6 = p5 + f;
    assert(assembled(head, none, none, none, none, none, none, none) =~= head);
    assert(assembled(head, a, none, none, none, none, none, none) =~= p1);
    assert(assembled(head, a, b, none, none, none, none, none) =~= p2);
    assert(assembled(head, a, b, c, none, none, none, none) =~= p3);
    assert(assembled(head, a, b, c, d, none, none, none) =~= p4);
    assert(assembled(head, a, b, c, d, e, none, none) =~= p5);
    assert(assembled(head, a, b, c, d, e, f, none) =~= p6);
    assert(assembled(head, a, b, c, d, e, f, g) =~= p6 + g);
}

} // verus!
