//! What every snapshot keeps: text that came from the kernel, or from a device,
//! is sanitised before it gets there.

use vstd::prelude::*;

use crate::collector::{all_collected, configured, fresh_collectors, Collector};
use crate::collectors::any::{AnyCollector, AnyState};
use crate::collectors::connections::{
    all_sockets_of, connection_of, connections_collected, connections_of, owner_among, owner_of,
    program_of, RawSocket, MAX_PROGRAM_NAME_LEN,
};
use crate::collectors::cpu::{
    cpu_collected, model_in, model_read, CpuState, MAX_MODEL_LEN, PROC_CPUINFO,
};
use crate::collectors::disk::{
    device_names, disk_collected, disk_lines, diskstats_of, interesting_devices, mount_lines,
    mounts_of, sized, unescaped, MAX_MOUNT_FIELD_LEN, PROC_DISKSTATS, PROC_MOUNTS,
};
use crate::collectors::gpu::{
    card_of, cards_of, cards_read, gpu_collected, identified, known_cards, CardView, SYS_CLASS_DRM,
};
use crate::collectors::messages::{
    clean_memory, clean_source, errors_are_clean, quotes_stay_clean,
};
use crate::collectors::net::{
    data_lines, linked, net_collected, net_dev_of, net_lines, operstate_of, PROC_NET_DEV,
};
use crate::collectors::thermal::{
    cached_chips_of, chip_of, chip_path, chips_in, fans_of, sensor_file, sensor_indices_of,
    sensor_label, temps_of, thermal_collected, thermal_zones_of, zones_of, MAX_LABEL_LEN,
    MAX_SENSORS_PER_CHIP, SYS_THERMAL,
};
use crate::config::{ConfigView, OutputFormat};
use crate::error::ErrorView;
use crate::number::{decimal, digit_of, lemma_decimal_digits};
use crate::render::calm::{
    calm, clean, clean_chip, clean_interface, clean_mount, clean_option, clean_snapshot,
    json_is_calm, text_is_calm,
};
use crate::sample::{
    empty_snapshot, ConnProtocol, DiskDeviceView, FanSensorView, HwmonChipView,
    MountPointView, NetInterfaceView, SnapshotView, TempSensorView,
};
use crate::sysfs::{
    control_char, joined, listings_are_safe_and_sorted, safe_char, safe_component, sanitized,
    sanitized_text_is_inert, NameFilter, SysfsReader, DEFAULT_MAX_LINES,
};
use crate::text::{cut_at, first_of, lines_of, trim_of, words_of};

verus! {

/// The kernel writes the state of a link in one of its own words.
pub open spec fn clean_links(reader: &SysfsReader) -> bool {
    forall|iface: Seq<char>| clean_option(#[trigger] operstate_of(reader, iface))
}

/// What a collector remembers holds no control character.
pub open spec fn clean_state(state: AnyState) -> bool {
    match state {
        AnyState::Cpu(s) => clean_option(s.model),
        AnyState::Gpu(cards) => clean_cards(cards),
        _ => true,
    }
}

pub open spec fn clean_cards(cards: Seq<CardView>) -> bool {
    forall|i: int| 0 <= i < cards.len() ==> clean((#[trigger] cards[i]).name)
}

pub proof fn lemma_safe_names(name: Seq<char>)
    requires
        safe_component(name),
    ensures
        clean(name),
{
    assert forall|i: int| 0 <= i < name.len() implies !control_char(#[trigger] name[i]) by {
        assert(safe_char(name[i]));
    }
}

pub proof fn lemma_clean_sum(a: Seq<char>, b: Seq<char>)
    requires
        clean(a),
        clean(b),
    ensures
        clean(a + b),
{
    assert forall|i: int| 0 <= i < (a + b).len() implies !control_char(#[trigger] (a + b)[i]) by {
        if i < a.len() {
            assert(!control_char(a[i]));
        } else {
            assert(!control_char(b[i - a.len()]));
        }
    }
}

proof fn lemma_sanitized(s: Seq<char>, max: nat)
    ensures
        clean(sanitized(s, max)),
{
    sanitized_text_is_inert(s, max);
}

// ---------------------------------------------------------------------------
// Processor
// ---------------------------------------------------------------------------
proof fn lemma_model(lines: Seq<Seq<char>>)
    ensures
        clean_option(model_in(lines)),
    decreases lines.len(),
{
    if lines.len() > 0 {
        lemma_model(lines.drop_first());
        if let Some((_, value)) = cut_at(lines[0], ':') {
            lemma_sanitized(trim_of(value), MAX_MODEL_LEN as nat);
        }
    }
}

proof fn lemma_cpu(state: CpuState, reader: &SysfsReader, before: SnapshotView)
    requires
        clean_option(state.model),
        clean_snapshot(before),
    ensures
        clean_snapshot(cpu_collected(state, reader, before).snapshot),
        clean_option(cpu_collected(state, reader, before).state.model),
{
    if let Ok(Ok(text)) = reader.text_at(PROC_CPUINFO@) {
        lemma_model(
            first_of(lines_of(text), DEFAULT_MAX_LINES as nat),
        );
    }
    assert(clean_option(model_read(reader).0));
}

// ---------------------------------------------------------------------------
// Temperatures
// ---------------------------------------------------------------------------
proof fn lemma_kinds()
    ensures
        clean(" "@),
        clean("temp"@),
        clean("fan"@),
        clean("thermal_zone"@),
{
    reveal_strlit(" ");
    reveal_strlit("temp");
    reveal_strlit("fan");
    reveal_strlit("thermal_zone");
}

proof fn lemma_decimal(n: nat)
    ensures
        clean(decimal(n)),
{
    lemma_decimal_digits(n);
    assert forall|i: int| 0 <= i < decimal(n).len() implies !control_char(
        #[trigger] decimal(n)[i],
    ) by {
        assert(digit_of(decimal(n)[i], 10) is Some);
    }
}

proof fn lemma_label(
    reader: &SysfsReader,
    dir: Seq<char>,
    chip_name: Seq<char>,
    kind: Seq<char>,
    index: u32,
)
    requires
        clean(chip_name),
        clean(kind),
    ensures
        clean(sensor_label(reader, dir, chip_name, kind, index)),
{
    lemma_kinds();
    lemma_decimal(index as nat);
    lemma_clean_sum(chip_name, " "@);
    lemma_clean_sum(chip_name + " "@, kind);
    lemma_clean_sum(chip_name + " "@ + kind, decimal(index as nat));
    let path = sensor_file(dir, kind, index, "_label"@);
    if let Ok(Ok(raw)) = reader.first_line_at(path) {
        lemma_sanitized(raw, MAX_LABEL_LEN as nat);
    }
}

pub open spec fn clean_temps(temps: Seq<TempSensorView>) -> bool {
    forall|i: int| 0 <= i < temps.len() ==> clean((#[trigger] temps[i]).label)
}

pub open spec fn clean_fans(fans: Seq<FanSensorView>) -> bool {
    forall|i: int| 0 <= i < fans.len() ==> clean((#[trigger] fans[i]).label)
}

proof fn lemma_temps(
    reader: &SysfsReader,
    dir: Seq<char>,
    chip_name: Seq<char>,
    indices: Seq<u32>,
)
    requires
        clean(chip_name),
    ensures
        clean_temps(temps_of(reader, dir, chip_name, indices)),
    decreases indices.len(),
{
    if indices.len() > 0 {
        lemma_temps(reader, dir, chip_name, indices.drop_last());
        lemma_kinds();
        lemma_label(reader, dir, chip_name, "temp"@, indices.last());
    }
}

proof fn lemma_fans(
    reader: &SysfsReader,
    dir: Seq<char>,
    chip_name: Seq<char>,
    indices: Seq<u32>,
)
    requires
        clean(chip_name),
    ensures
        clean_fans(fans_of(reader, dir, chip_name, indices)),
    decreases indices.len(),
{
    if indices.len() > 0 {
        lemma_fans(reader, dir, chip_name, indices.drop_last());
        lemma_kinds();
        lemma_label(reader, dir, chip_name, "fan"@, indices.last());
    }
}

proof fn lemma_chip(reader: &SysfsReader, dir: Seq<char>)
    ensures
        chip_of(reader, dir) matches Ok(Some(c)) ==> clean_chip(c),
{
    reveal(chip_of);
    if let Ok(Some(c)) = chip_of(reader, dir) {
        let raw = reader.first_line_at(joined(dir, "name"@))->Ok_0->Ok_0;
        let name = sanitized(raw, MAX_LABEL_LEN as nat);
        lemma_sanitized(raw, MAX_LABEL_LEN as nat);
        let temps =
            sensor_indices_of(reader, dir, "temp")->Ok_0;
        let fans = sensor_indices_of(reader, dir, "fan")->Ok_0;
        lemma_temps(reader, dir, name, temps);
        lemma_fans(reader, dir, name, fans);
        assert(c.temps == temps_of(reader, dir, name, temps));
        assert(c.fans == fans_of(reader, dir, name, fans));
    }
}

pub open spec fn clean_chips(chips: Seq<HwmonChipView>) -> bool {
    forall|i: int| 0 <= i < chips.len() ==> clean_chip(#[trigger] chips[i])
}

proof fn lemma_chips(reader: &SysfsReader, dirs: Seq<Seq<char>>)
    ensures
        chips_in(reader, dirs) matches Ok(chips) ==> clean_chips(chips),
    decreases dirs.len(),
{
    if dirs.len() > 0 {
        lemma_chips(reader, dirs.drop_first());
        lemma_chip(reader, chip_path(dirs[0]));
    }
}

proof fn lemma_zones(reader: &SysfsReader, names: Seq<Seq<char>>)
    requires
        forall|i: int| 0 <= i < names.len() ==> clean(#[trigger] names[i]),
    ensures
        clean_temps(zones_of(reader, names)),
    decreases names.len(),
{
    if names.len() > 0 {
        let front = names.drop_last();
        assert forall|i: int| 0 <= i < front.len() implies clean(#[trigger] front[i]) by {
            assert(front[i] == names[i]);
        }
        lemma_zones(reader, front);
        let name = names[names.len() - 1];
        assert(clean(name));
        let dir = SYS_THERMAL@ + "/"@ + name;
        if let Ok(Ok(raw)) = reader.first_line_at(joined(dir, "type"@)) {
            lemma_sanitized(raw, MAX_LABEL_LEN as nat);
        }
    }
}

proof fn lemma_thermal(dirs: Seq<Seq<char>>, reader: &SysfsReader, before: SnapshotView)
    requires
        clean_snapshot(before),
    ensures
        clean_snapshot(thermal_collected(dirs, reader, before).snapshot),
{
    let (known, found) = cached_chips_of(reader, dirs);
    lemma_chips(reader, known);
    lemma_kinds();
    let filter = NameFilter::Numbered { prefix: "thermal_zone" };
    if let Ok(Ok(names)) = reader.names_at(SYS_THERMAL@, filter) {
        listings_are_safe_and_sorted(reader, SYS_THERMAL@, filter);
        let kept = first_of(names, MAX_SENSORS_PER_CHIP as nat);
        assert forall|i: int| 0 <= i < kept.len() implies clean(#[trigger] kept[i]) by {
            assert(kept[i] == names[i]);
            lemma_safe_names(names[i]);
        }
        lemma_zones(reader, kept);
    }
    assert(thermal_zones_of(reader) matches Ok(chips) ==> clean_chips(chips));
}

// ---------------------------------------------------------------------------
// Disks
// ---------------------------------------------------------------------------
pub open spec fn clean_devices(devices: Seq<DiskDeviceView>) -> bool {
    forall|i: int| 0 <= i < devices.len() ==> clean((#[trigger] devices[i]).name)
}

pub open spec fn clean_mounts(mounts: Seq<MountPointView>) -> bool {
    forall|i: int| 0 <= i < mounts.len() ==> clean_mount(#[trigger] mounts[i])
}

proof fn lemma_disk_lines(path: Seq<char>, line_no: nat, lines: Seq<Seq<char>>)
    ensures
        disk_lines(path, line_no, lines) matches Ok(devices) ==> clean_devices(devices),
    decreases lines.len(),
{
    if lines.len() > 0 {
        lemma_disk_lines(path, line_no + 1, lines.drop_first());
        let fields = words_of(lines[0]);
        if fields.len() >= 3 && safe_component(fields[2]) {
            lemma_safe_names(fields[2]);
        }
    }
}

proof fn lemma_interesting(devices: Seq<DiskDeviceView>, names: Seq<Seq<char>>)
    requires
        clean_devices(devices),
    ensures
        clean_devices(interesting_devices(devices, names)),
    decreases devices.len(),
{
    if devices.len() > 0 {
        let front = devices.drop_last();
        assert forall|i: int| 0 <= i < front.len() implies clean((#[trigger] front[i]).name) by {
            assert(front[i] == devices[i]);
        }
        lemma_interesting(front, names);
        assert(clean(devices[devices.len() - 1].name));
    }
}

proof fn lemma_mount_lines(path: Seq<char>, line_no: nat, lines: Seq<Seq<char>>)
    ensures
        mount_lines(path, line_no, lines) matches Ok(mounts) ==> clean_mounts(mounts),
    decreases lines.len(),
{
    if lines.len() > 0 {
        lemma_mount_lines(path, line_no + 1, lines.drop_first());
        let fields = words_of(lines[0]);
        let max = MAX_MOUNT_FIELD_LEN as nat;
        lemma_sanitized(unescaped(fields[0]), max);
        lemma_sanitized(unescaped(fields[1]), max);
        lemma_sanitized(fields[2], max);
    }
}

proof fn lemma_disk(reader: &SysfsReader, before: SnapshotView)
    requires
        clean_snapshot(before),
    ensures
        clean_snapshot(disk_collected(reader, before).snapshot),
{
    if let Ok(Ok(text)) = reader.text_at(PROC_DISKSTATS@) {
        let lines = first_of(
            lines_of(text),
            DEFAULT_MAX_LINES as nat,
        );
        lemma_disk_lines(PROC_DISKSTATS@, 1, lines);
        if let Ok(all) = disk_lines(PROC_DISKSTATS@, 1, lines) {
            lemma_interesting(all, device_names(all));
        }
        assert(diskstats_of(PROC_DISKSTATS@, text) matches Ok(d) ==> clean_devices(d));
    }
    if let Ok(Ok(text)) = reader.text_at(PROC_MOUNTS@) {
        lemma_mount_lines(
            PROC_MOUNTS@,
            1,
            first_of(lines_of(text), DEFAULT_MAX_LINES as nat),
        );
        if let Ok(mounts) = mounts_of(PROC_MOUNTS@, text) {
            let shown = sized(reader, mounts);
            assert forall|i: int| 0 <= i < shown.len() implies clean_mount(#[trigger] shown[i]) by {
                assert(clean_mount(mounts[i]));
            }
        }
    }
}

// ---------------------------------------------------------------------------
// Network
// ---------------------------------------------------------------------------
proof fn lemma_net_lines(path: Seq<char>, line_no: nat, lines: Seq<Seq<char>>)
    ensures
        net_lines(path, line_no, lines) matches Ok(found) ==> forall|i: int|
            0 <= i < found.len() ==> clean((#[trigger] found[i]).name),
    decreases lines.len(),
{
    if lines.len() > 0 {
        lemma_net_lines(path, line_no + 1, lines.drop_first());
        if let Some((before, _)) = cut_at(lines[0], ':') {
            let name = trim_of(before);
            if safe_component(name) {
                lemma_safe_names(name);
            }
        }
    }
}

proof fn lemma_linked(reader: &SysfsReader, interfaces: Seq<NetInterfaceView>, show_all: bool)
    requires
        clean_links(reader),
        forall|i: int| 0 <= i < interfaces.len() ==> clean((#[trigger] interfaces[i]).name),
    ensures
        forall|i: int|
            0 <= i < linked(reader, interfaces, show_all).len() ==> clean_interface(
                #[trigger] linked(reader, interfaces, show_all)[i],
            ),
    decreases interfaces.len(),
{
    if interfaces.len() > 0 {
        let front = interfaces.drop_last();
        assert forall|i: int| 0 <= i < front.len() implies clean((#[trigger] front[i]).name) by {
            assert(front[i] == interfaces[i]);
        }
        lemma_linked(reader, front, show_all);
        let last = interfaces[interfaces.len() - 1];
        assert(clean(last.name));
        assert(clean_option(operstate_of(reader, last.name)));
        let before = linked(reader, front, show_all);
        let all = linked(reader, interfaces, show_all);
        assert forall|i: int| 0 <= i < all.len() implies clean_interface(#[trigger] all[i]) by {
            if i < before.len() {
                assert(all[i] == before[i]);
            }
        }
    }
}

proof fn lemma_net(show_all: bool, reader: &SysfsReader, before: SnapshotView)
    requires
        clean_snapshot(before),
        clean_links(reader),
    ensures
        clean_snapshot(net_collected(show_all, reader, before).snapshot),
{
    if let Ok(Ok(text)) = reader.text_at(PROC_NET_DEV@) {
        lemma_net_lines(PROC_NET_DEV@, 3, data_lines(text));
        if let Ok(found) = net_dev_of(PROC_NET_DEV@, text) {
            lemma_linked(reader, found, show_all);
        }
    }
    lemma_linked(reader, seq![], show_all);
}

// ---------------------------------------------------------------------------
// Graphics cards
// ---------------------------------------------------------------------------
pub proof fn lemma_known_cards(reader: &SysfsReader, cards: Seq<CardView>)
    requires
        clean_cards(cards),
    ensures
        known_cards(reader, cards) matches Ok(known) ==> clean_cards(known),
{
    let filter = NameFilter::Numbered { prefix: "card" };
    if let Ok(Ok(names)) = reader.names_at(SYS_CLASS_DRM@, filter) {
        listings_are_safe_and_sorted(reader, SYS_CLASS_DRM@, filter);
        let known = identified(reader, names);
        assert forall|i: int| 0 <= i < known.len() implies clean((#[trigger] known[i]).name) by {
            assert(known[i].name == names[i]);
            lemma_safe_names(names[i]);
        }
    }
    assert(cards_of(reader) == Ok::<Seq<Seq<char>>, ErrorView>(seq![]) ==> clean_cards(
        identified(reader, seq![]),
    ));
}

proof fn lemma_cards_read(reader: &SysfsReader, cards: Seq<CardView>)
    requires
        clean_cards(cards),
    ensures
        forall|i: int|
            0 <= i < cards_read(reader, cards).0.len() ==> clean(
                (#[trigger] cards_read(reader, cards).0[i]).name,
            ),
    decreases cards.len(),
{
    if cards.len() > 0 {
        let front = cards.drop_last();
        assert forall|i: int| 0 <= i < front.len() implies clean((#[trigger] front[i]).name) by {
            assert(front[i] == cards[i]);
        }
        lemma_cards_read(reader, front);
        let last = cards[cards.len() - 1];
        assert(clean(last.name));
        assert(card_of(reader, last.name, last.vendor) matches Ok(Some(g)) ==> g.name
            == last.name);
    }
}

proof fn lemma_gpu(cards: Seq<CardView>, reader: &SysfsReader, before: SnapshotView)
    requires
        clean_cards(cards),
        clean_snapshot(before),
    ensures
        clean_snapshot(gpu_collected(cards, reader, before).snapshot),
        clean_cards(gpu_collected(cards, reader, before).state),
{
    lemma_known_cards(reader, cards);
    if let Ok(known) = known_cards(reader, cards) {
        lemma_cards_read(reader, known);
    }
}

// ---------------------------------------------------------------------------
// Connections
// ---------------------------------------------------------------------------
proof fn lemma_owner(reader: &SysfsReader, pids: Seq<Seq<char>>, inode: u64)
    ensures
        owner_among(reader, pids, inode) matches Some(o) ==> clean_option(o.program),
    decreases pids.len(),
{
    if pids.len() > 0 {
        lemma_owner(reader, pids.drop_first(), inode);
        if let Ok(Ok(name)) = reader.first_line_at("proc/"@ + pids[0] + "/comm"@) {
            lemma_sanitized(name, MAX_PROGRAM_NAME_LEN as nat);
        }
        assert(clean_option(program_of(reader, pids[0])));
    }
}

proof fn lemma_connections(reader: &SysfsReader, before: SnapshotView)
    requires
        clean_snapshot(before),
    ensures
        clean_snapshot(connections_collected(reader, before).snapshot),
{
    if let Ok(raw) = all_sockets_of(reader) {
        let all = connections_of(reader, raw);
        assert forall|i: int| 0 <= i < all.len() implies clean_option(
            (#[trigger] all[i]).program,
        ) by {
            let s: (ConnProtocol, RawSocket) = raw[i];
            assert(all[i] == connection_of(reader, s.0, s.1));
            if let Ok(Ok(pids)) = reader.names_at("proc"@, NameFilter::Numbered { prefix: "" }) {
                lemma_owner(reader, pids, s.1.inode);
            }
            assert(owner_of(reader, s.1.inode) matches Some(o) ==> clean_option(o.program));
        }
    }
}

// ---------------------------------------------------------------------------
// All of them
// ---------------------------------------------------------------------------
/// A collector puts no control character into a snapshot, nor into what it
/// remembers, but for what errors say.
pub proof fn collected_text_is_clean(state: AnyState, reader: &SysfsReader, before: SnapshotView)
    requires
        clean_state(state),
        clean_snapshot(before),
        clean_links(reader),
    ensures
        clean_snapshot(AnyCollector::collected(state, reader, before).snapshot),
        clean_state(AnyCollector::collected(state, reader, before).state),
{
    match state {
        AnyState::Cpu(s) => lemma_cpu(s, reader, before),
        AnyState::Memory => {},
        AnyState::Thermal(dirs) => lemma_thermal(dirs, reader, before),
        AnyState::Disk => lemma_disk(reader, before),
        AnyState::Net(show_all) => lemma_net(show_all, reader, before),
        AnyState::Gpu(cards) => lemma_gpu(cards, reader, before),
        AnyState::Connections => lemma_connections(reader, before),
    }
}

/// Nor do all of them together, one after the other, however often.
pub proof fn snapshots_are_clean(states: Seq<AnyState>, reader: &SysfsReader, before: SnapshotView)
    requires
        forall|i: int| 0 <= i < states.len() ==> clean_state(#[trigger] states[i]),
        clean_snapshot(before),
        clean_links(reader),
    ensures
        clean_snapshot(all_collected::<AnyCollector>(states, reader, before).1),
        forall|i: int|
            0 <= i < all_collected::<AnyCollector>(states, reader, before).0.len() ==> clean_state(
                #[trigger] all_collected::<AnyCollector>(states, reader, before).0[i],
            ),
    decreases states.len(),
{
    if states.len() > 0 {
        let front = states.drop_last();
        assert forall|i: int| 0 <= i < front.len() implies clean_state(#[trigger] front[i]) by {
            assert(front[i] == states[i]);
        }
        snapshots_are_clean(front, reader, before);
        let sofar = all_collected::<AnyCollector>(front, reader, before).1;
        assert(clean_state(states[states.len() - 1]));
        collected_text_is_clean(states.last(), reader, sofar);
    }
}

proof fn lemma_configured(c: ConfigView, reader: &SysfsReader, all: Seq<AnyState>)
    requires
        forall|i: int| 0 <= i < all.len() ==> clean_memory(#[trigger] all[i]),
    ensures
        forall|i: int|
            0 <= i < configured(c, reader, all).len() ==> clean_memory(
                #[trigger] configured(c, reader, all)[i],
            ),
    decreases all.len(),
{
    if all.len() > 0 {
        let front = all.drop_last();
        assert forall|i: int| 0 <= i < front.len() implies clean_memory(#[trigger] front[i]) by {
            assert(front[i] == all[i]);
        }
        lemma_configured(c, reader, front);
        assert(clean_memory(all[all.len() - 1]));
        let before = configured(c, reader, front);
        let kept = configured(c, reader, all);
        assert forall|i: int| 0 <= i < kept.len() implies clean_memory(#[trigger] kept[i]) by {
            if i < before.len() {
                assert(kept[i] == before[i]);
            }
        }
    }
}

/// What a run with a single snapshot writes is safe to send anywhere: it holds
/// no control character but line ends, whatever the files hold. JSON escapes
/// everything; text shows the states of links as they are, and with `verbose`
/// the errors, which name paths and repeat what the system said of a failure.
pub proof fn output_is_calm(
    c: ConfigView,
    reader: &SysfsReader,
    taken_at: i64,
    taken_at_monotonic: u64,
)
    requires
        c.format == OutputFormat::Text ==> clean_links(reader),
        c.format == OutputFormat::Text && c.verbose ==> clean_source(reader)
            && quotes_stay_clean(),
    ensures
        crate::once(c, reader, taken_at, taken_at_monotonic) matches Ok((_, document)) ==> calm(
            document,
        ),
{
    let s = crate::snapshot_of(c, reader, taken_at, taken_at_monotonic);
    match c.format {
        OutputFormat::Text => {
            let kept = configured(c, reader, fresh_collectors());
            lemma_configured(c, reader, fresh_collectors());
            assert forall|i: int| 0 <= i < kept.len() implies clean_state(#[trigger] kept[i]) by {
                assert(clean_memory(kept[i]));
            }
            snapshots_are_clean(
                kept,
                reader,
                empty_snapshot(taken_at, taken_at_monotonic),
            );
            if c.verbose {
                errors_are_clean(
                    kept,
                    reader,
                    empty_snapshot(taken_at, taken_at_monotonic),
                );
            }
            if crate::render::text::snapshot_text(s, None, c.verbose) is Ok {
                text_is_calm(s, None, c.verbose);
            }
        },
        OutputFormat::Json => {
            if crate::render::json::snapshot_text(s, None, c.verbose) is Ok {
                json_is_calm(s, None, c.verbose);
            }
        },
    }
}

} // verus!
