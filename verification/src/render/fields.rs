//! What a reader of the JSON finds: each figure under its name, and each thing of
//! the snapshot at its place in its list.

use vstd::prelude::*;

use crate::addr::address_text;
use crate::delta::{DiskRateView, NetRate, RatesView};
use crate::render::document::QuantityView;
use crate::render::json::{first_members, snapshot_members, Json};
use crate::render::schema::{
    chip_json, chips_json, connection_json, connections_json, core_json, cores_json, cpu_json,
    disk_members, disks_json, error_json, errors_json, fan_json, fans_json, gpu_json, gpus_json,
    interfaces_json, memory_json, mount_json, mounts_json, net_members, temp_json, temps_json,
    Members,
};
use crate::sample::{
    tcp_state_name, CollectorErrorView, ConnProtocol, ConnectionView, CpuSampleView,
    DiskDeviceView, FanSensorView, GpuVendor, GpuView, HwmonChipView, MemorySample,
    MountPointView, NetInterfaceView, SnapshotView, TempSensorView,
};
use crate::units::KiloHertz;

verus! {

// ---------------------------------------------------------------------------
// Reading an object
// ---------------------------------------------------------------------------
/// Among the members there is one of that name with that value.
pub open spec fn listed(members: Members, name: Seq<char>, value: Json) -> bool {
    exists|i: int| 0 <= i < members.len() && #[trigger] members[i] == (name, value)
}

/// None of the members has that name.
pub open spec fn unlisted(members: Members, name: Seq<char>) -> bool {
    forall|i: int| 0 <= i < members.len() ==> (#[trigger] members[i]).0 != name
}

/// The object has that value under that name.
pub open spec fn has(j: Json, name: Seq<char>, value: Json) -> bool {
    j is Object && listed(j->Object_0, name, value)
}

/// The object has nothing under that name.
pub open spec fn lacks(j: Json, name: Seq<char>) -> bool {
    j is Object && unlisted(j->Object_0, name)
}

/// What is left of the one without the other, and never less than nothing.
pub open spec fn left(all: u64, without: u64) -> u64 {
    if without <= all {
        (all - without) as u64
    } else {
        0
    }
}

pub open spec fn numeral(s: Seq<char>) -> Json {
    Json::Measured(QuantityView::Numeral(s))
}

/// The share of the core of that number, where it is known.
pub open spec fn share_at(r: RatesView, i: int) -> Option<(nat, nat)> {
    if 0 <= i < r.cpu_per_core.len() {
        r.cpu_per_core[i]
    } else {
        None
    }
}

broadcast proof fn lemma_newest(members: Members, name: Seq<char>, value: Json)
    ensures
        #[trigger] listed(members.push((name, value)), name, value),
{
    let all = members.push((name, value));
    assert(all[all.len() - 1] == (name, value));
}

broadcast proof fn lemma_older(
    members: Members,
    other: (Seq<char>, Json),
    name: Seq<char>,
    value: Json,
)
    requires
        listed(members, name, value),
    ensures
        #[trigger] listed(members.push(other), name, value),
{
    let i = choose|i: int| 0 <= i < members.len() && #[trigger] members[i] == (name, value);
    assert(members.push(other)[i] == (name, value));
}

broadcast proof fn lemma_none_yet(name: Seq<char>)
    ensures
        #[trigger] unlisted(Members::empty(), name),
{
}

broadcast proof fn lemma_still_none(members: Members, other: (Seq<char>, Json), name: Seq<char>)
    requires
        unlisted(members, name),
        other.0 != name,
    ensures
        #[trigger] unlisted(members.push(other), name),
{
}

// ---------------------------------------------------------------------------
// The objects
// ---------------------------------------------------------------------------
/// Each figure of the memory stands under its name; what is used is what is not
/// available.
pub proof fn memory_fields_hold_their_figures(m: MemorySample)
    ensures
        has(memory_json(m), "total_bytes"@, Json::Number(m.total.0)),
        has(memory_json(m), "available_bytes"@, Json::Number(m.available.0)),
        has(memory_json(m), "used_bytes"@, Json::Number(left(m.total.0, m.available.0))),
        has(memory_json(m), "swap_total_bytes"@, Json::Number(m.swap_total.0)),
        has(memory_json(m), "swap_used_bytes"@, Json::Number(left(m.swap_total.0, m.swap_free.0))),
{
    broadcast use {lemma_newest, lemma_older, lemma_none_yet, lemma_still_none};

}

/// A sensor has its temperature, and each limit under its name where there is one.
pub proof fn sensor_fields_hold_their_figures(t: TempSensorView)
    ensures
        has(temp_json(t), "label"@, Json::Text(t.label)),
        has(temp_json(t), "celsius"@, Json::Measured(QuantityView::Celsius(t.value))),
        t.max is Some ==> has(temp_json(t), "max_celsius"@, Json::Measured(QuantityView::Celsius(t.max->0))),
        t.max is None ==> lacks(temp_json(t), "max_celsius"@),
        t.crit is Some ==> has(temp_json(t), "crit_celsius"@, Json::Measured(QuantityView::Celsius(t.crit->0))),
        t.crit is None ==> lacks(temp_json(t), "crit_celsius"@),
{
    broadcast use {lemma_newest, lemma_older, lemma_none_yet, lemma_still_none};

    reveal_strlit("label");
    reveal_strlit("celsius");
    reveal_strlit("max_celsius");
    reveal_strlit("crit_celsius");
    assert("label"@.len() == 5);
    assert("celsius"@.len() == 7);
    assert("max_celsius"@.len() == 11);
    assert("crit_celsius"@.len() == 12);
}

/// A fan has its label and its turns per minute.
pub proof fn fan_fields_hold_their_figures(f: FanSensorView)
    ensures
        has(fan_json(f), "label"@, Json::Text(f.label)),
        has(fan_json(f), "rpm"@, Json::Number(f.rpm.0)),
{
    broadcast use {lemma_newest, lemma_older, lemma_none_yet, lemma_still_none};

}

/// A disk has the rates of reading and writing under their names, in bytes and in
/// operations.
pub proof fn disk_fields_hold_their_rates(d: DiskDeviceView, r: DiskRateView)
    ensures
        has(Json::Object(disk_members(d, Some(r))), "name"@, Json::Text(d.name)),
        has(Json::Object(disk_members(d, Some(r))), "read_bytes_per_sec"@, Json::Measured(QuantityView::Rate(r.read))),
        has(Json::Object(disk_members(d, Some(r))), "write_bytes_per_sec"@, Json::Measured(QuantityView::Rate(r.write))),
        has(Json::Object(disk_members(d, Some(r))), "read_iops"@, Json::Measured(QuantityView::Rate(r.read_iops))),
        has(Json::Object(disk_members(d, Some(r))), "write_iops"@, Json::Measured(QuantityView::Rate(r.write_iops))),
        r.utilisation is Some ==> has(Json::Object(disk_members(d, Some(r))), "utilisation_percent"@, Json::Measured(QuantityView::Share(r.utilisation->0))),
        r.utilisation is None ==> lacks(Json::Object(disk_members(d, Some(r))), "utilisation_percent"@),
{
    broadcast use {lemma_newest, lemma_older, lemma_none_yet, lemma_still_none};

    reveal_strlit("name");
    reveal_strlit("read_bytes_per_sec");
    reveal_strlit("write_bytes_per_sec");
    reveal_strlit("read_iops");
    reveal_strlit("write_iops");
    reveal_strlit("utilisation_percent");
    assert("name"@.len() == 4);
    assert("read_bytes_per_sec"@.len() == 18);
    assert("write_bytes_per_sec"@.len() == 19);
    assert("read_iops"@.len() == 9);
    assert("write_iops"@.len() == 10);
    assert("utilisation_percent"@.len() == 19);
    assert("write_bytes_per_sec"@[0] != "utilisation_percent"@[0]);
}

/// A mount has its source, its place, its file system, and its sizes where they are
/// known.
pub proof fn mount_fields_hold_their_texts(m: MountPointView)
    ensures
        has(mount_json(m), "source"@, Json::Text(m.source)),
        has(mount_json(m), "mount_point"@, Json::Text(m.mount_point)),
        has(mount_json(m), "fs_type"@, Json::Text(m.fs_type)),
        m.total is Some ==> has(mount_json(m), "total_bytes"@, Json::Number((m.total->0).0)),
        m.total is None ==> lacks(mount_json(m), "total_bytes"@),
        m.available is Some ==> has(mount_json(m), "available_bytes"@, Json::Number((m.available->0).0)),
        m.available is None ==> lacks(mount_json(m), "available_bytes"@),
{
    broadcast use {lemma_newest, lemma_older, lemma_none_yet, lemma_still_none};

    reveal_strlit("source");
    reveal_strlit("mount_point");
    reveal_strlit("fs_type");
    reveal_strlit("total_bytes");
    reveal_strlit("available_bytes");
    assert("source"@.len() == 6);
    assert("mount_point"@.len() == 11);
    assert("fs_type"@.len() == 7);
    assert("total_bytes"@.len() == 11);
    assert("available_bytes"@.len() == 15);
    assert("mount_point"@[0] != "total_bytes"@[0]);
}

/// An interface has what it receives under `rx` and what it sends under `tx`, in
/// bytes and in packets.
pub proof fn interface_fields_hold_their_rates(i: NetInterfaceView, r: NetRate)
    ensures
        has(Json::Object(net_members(i, Some(r))), "name"@, Json::Text(i.name)),
        has(Json::Object(net_members(i, Some(r))), "rx_bytes_per_sec"@, Json::Measured(QuantityView::Rate(r.rx))),
        has(Json::Object(net_members(i, Some(r))), "tx_bytes_per_sec"@, Json::Measured(QuantityView::Rate(r.tx))),
        has(Json::Object(net_members(i, Some(r))), "rx_packets_per_sec"@, Json::Measured(QuantityView::Rate(r.rx_packets_per_sec))),
        has(Json::Object(net_members(i, Some(r))), "tx_packets_per_sec"@, Json::Measured(QuantityView::Rate(r.tx_packets_per_sec))),
        i.operstate is Some ==> has(Json::Object(net_members(i, Some(r))), "operstate"@, Json::Text(i.operstate->0)),
        i.operstate is None ==> lacks(Json::Object(net_members(i, Some(r))), "operstate"@),
        i.mtu is Some ==> has(Json::Object(net_members(i, Some(r))), "mtu"@, Json::Number(i.mtu->0)),
        i.mtu is None ==> lacks(Json::Object(net_members(i, Some(r))), "mtu"@),
{
    broadcast use {lemma_newest, lemma_older, lemma_none_yet, lemma_still_none};

    reveal_strlit("name");
    reveal_strlit("rx_bytes_per_sec");
    reveal_strlit("tx_bytes_per_sec");
    reveal_strlit("rx_packets_per_sec");
    reveal_strlit("tx_packets_per_sec");
    reveal_strlit("operstate");
    reveal_strlit("mtu");
    assert("name"@.len() == 4);
    assert("rx_bytes_per_sec"@.len() == 16);
    assert("tx_bytes_per_sec"@.len() == 16);
    assert("rx_packets_per_sec"@.len() == 18);
    assert("tx_packets_per_sec"@.len() == 18);
    assert("operstate"@.len() == 9);
    assert("mtu"@.len() == 3);
    assert("rx_bytes_per_sec"@[0] != "tx_bytes_per_sec"@[0]);
    assert("rx_packets_per_sec"@[0] != "tx_packets_per_sec"@[0]);
}

/// A card has each figure that is known under its name.
pub proof fn card_fields_hold_their_figures(g: GpuView)
    ensures
        has(gpu_json(g), "name"@, Json::Text(g.name)),
        g.busy is Some ==> has(gpu_json(g), "busy_percent"@, Json::Measured(QuantityView::Share(g.busy->0))),
        g.busy is None ==> lacks(gpu_json(g), "busy_percent"@),
        g.freq_khz is Some ==> has(gpu_json(g), "freq_khz"@, Json::Number((g.freq_khz->0).0)),
        g.freq_khz is None ==> lacks(gpu_json(g), "freq_khz"@),
        g.vram_total is Some ==> has(gpu_json(g), "vram_total_bytes"@, Json::Number((g.vram_total->0).0)),
        g.vram_total is None ==> lacks(gpu_json(g), "vram_total_bytes"@),
        g.vram_used is Some ==> has(gpu_json(g), "vram_used_bytes"@, Json::Number((g.vram_used->0).0)),
        g.vram_used is None ==> lacks(gpu_json(g), "vram_used_bytes"@),
        g.temp is Some ==> has(gpu_json(g), "celsius"@, Json::Measured(QuantityView::Celsius(g.temp->0))),
        g.temp is None ==> lacks(gpu_json(g), "celsius"@),
        g.power is Some ==> has(gpu_json(g), "watts"@, Json::Measured(QuantityView::Watts(g.power->0))),
        g.power is None ==> lacks(gpu_json(g), "watts"@),
        g.fan_rpm is Some ==> has(gpu_json(g), "fan_rpm"@, Json::Number((g.fan_rpm->0).0)),
        g.fan_rpm is None ==> lacks(gpu_json(g), "fan_rpm"@),
{
    broadcast use {lemma_newest, lemma_older, lemma_none_yet, lemma_still_none};

    reveal_strlit("name");
    reveal_strlit("busy_percent");
    reveal_strlit("freq_khz");
    reveal_strlit("vram_total_bytes");
    reveal_strlit("vram_used_bytes");
    reveal_strlit("celsius");
    reveal_strlit("watts");
    reveal_strlit("fan_rpm");
    reveal_strlit("vendor");
    assert("name"@.len() == 4);
    assert("busy_percent"@.len() == 12);
    assert("freq_khz"@.len() == 8);
    assert("vram_total_bytes"@.len() == 16);
    assert("vram_used_bytes"@.len() == 15);
    assert("celsius"@.len() == 7);
    assert("watts"@.len() == 5);
    assert("fan_rpm"@.len() == 7);
    assert("vendor"@.len() == 6);
    assert("celsius"@[0] != "fan_rpm"@[0]);
}

/// A connection has its own end under `local`, the peer's under `remote`, its user,
/// and what is known of its process.
pub proof fn connection_fields_hold_both_ends(c: ConnectionView)
    ensures
        has(connection_json(c), "local_addr"@, Json::Text(address_text(c.local_addr))),
        has(connection_json(c), "local_port"@, Json::Number(c.local_port as u64)),
        has(connection_json(c), "remote_addr"@, Json::Text(address_text(c.remote_addr))),
        has(connection_json(c), "remote_port"@, Json::Number(c.remote_port as u64)),
        has(connection_json(c), "uid"@, Json::Number(c.uid as u64)),
        c.state is Some ==> has(connection_json(c), "state"@, Json::Text(tcp_state_name(c.state->0))),
        c.state is None ==> lacks(connection_json(c), "state"@),
        c.pid is Some ==> has(connection_json(c), "pid"@, Json::Number(c.pid->0 as u64)),
        c.pid is None ==> lacks(connection_json(c), "pid"@),
        c.program is Some ==> has(connection_json(c), "program"@, Json::Text(c.program->0)),
        c.program is None ==> lacks(connection_json(c), "program"@),
{
    broadcast use {lemma_newest, lemma_older, lemma_none_yet, lemma_still_none};

    reveal_strlit("local_addr");
    reveal_strlit("local_port");
    reveal_strlit("remote_addr");
    reveal_strlit("remote_port");
    reveal_strlit("uid");
    reveal_strlit("state");
    reveal_strlit("pid");
    reveal_strlit("program");
    reveal_strlit("protocol");
    assert("local_addr"@.len() == 10);
    assert("local_port"@.len() == 10);
    assert("remote_addr"@.len() == 11);
    assert("remote_port"@.len() == 11);
    assert("uid"@.len() == 3);
    assert("state"@.len() == 5);
    assert("pid"@.len() == 3);
    assert("program"@.len() == 7);
    assert("protocol"@.len() == 8);
    assert("local_addr"@[6] != "local_port"@[6]);
    assert("remote_addr"@[7] != "remote_port"@[7]);
    assert("uid"@[0] != "pid"@[0]);
}

/// A failure has the name of its collector and its reason.
pub proof fn error_fields_hold_the_reason(e: CollectorErrorView)
    ensures
        has(error_json(e), "collector"@, Json::Text(e.collector)),
        has(error_json(e), "message"@, Json::Text(e.message)),
{
    broadcast use {lemma_newest, lemma_older, lemma_none_yet, lemma_still_none};

}

/// A core has its number, its own frequency, and its own share.
pub proof fn core_fields_are_its_own(i: int, freq: Option<KiloHertz>, r: RatesView)
    ensures
        has(core_json(i, freq, Some(r)), "core"@, Json::Number(i as u64)),
        freq is Some ==> has(core_json(i, freq, Some(r)), "freq_khz"@, Json::Number((freq->0).0)),
        freq is None ==> lacks(core_json(i, freq, Some(r)), "freq_khz"@),
        share_at(r, i) is Some ==> has(core_json(i, freq, Some(r)), "busy_percent"@, Json::Measured(QuantityView::Share(share_at(r, i)->0))),
        share_at(r, i) is None ==> lacks(core_json(i, freq, Some(r)), "busy_percent"@),
{
    broadcast use {lemma_newest, lemma_older, lemma_none_yet, lemma_still_none};

    reveal_strlit("core");
    reveal_strlit("freq_khz");
    reveal_strlit("busy_percent");
    assert("core"@.len() == 4);
    assert("freq_khz"@.len() == 8);
    assert("busy_percent"@.len() == 12);
}

/// The processor has its model, the number of its cores, and the share of all of
/// them together.
pub proof fn processor_fields_hold_their_figures(cpu: CpuSampleView, r: RatesView)
    ensures
        has(cpu_json(cpu, Some(r)), "cores"@, Json::Number(cpu.per_core.len() as u64)),
        cpu.model is Some ==> has(cpu_json(cpu, Some(r)), "model"@, Json::Text(cpu.model->0)),
        cpu.model is None ==> lacks(cpu_json(cpu, Some(r)), "model"@),
        r.cpu_total is Some ==> has(cpu_json(cpu, Some(r)), "busy_percent"@, Json::Measured(QuantityView::Share(r.cpu_total->0))),
        r.cpu_total is None ==> lacks(cpu_json(cpu, Some(r)), "busy_percent"@),
        cpu.load_avg is Some ==> has(cpu_json(cpu, Some(r)), "load_avg"@, Json::Array(seq![numeral(cpu.load_avg->0.one), numeral(cpu.load_avg->0.five), numeral(cpu.load_avg->0.fifteen)])),
        cpu.load_avg is None ==> lacks(cpu_json(cpu, Some(r)), "load_avg"@),
{
    broadcast use {lemma_newest, lemma_older, lemma_none_yet, lemma_still_none};

    reveal_strlit("cores");
    reveal_strlit("model");
    reveal_strlit("busy_percent");
    reveal_strlit("load_avg");
    reveal_strlit("per_core");
    assert("cores"@.len() == 5);
    assert("model"@.len() == 5);
    assert("busy_percent"@.len() == 12);
    assert("load_avg"@.len() == 8);
    assert("per_core"@.len() == 8);
    assert("cores"@[0] != "model"@[0]);
    assert("load_avg"@[0] != "per_core"@[0]);
}

/// The maker of a card is one of four words.
pub proof fn makers_are_told_apart(g: GpuView)
    ensures
        g.vendor == GpuVendor::Amd ==> has(gpu_json(g), "vendor"@, Json::Text("amd"@)),
        g.vendor == GpuVendor::Intel ==> has(gpu_json(g), "vendor"@, Json::Text("intel"@)),
        g.vendor == GpuVendor::Nvidia ==> has(gpu_json(g), "vendor"@, Json::Text("nvidia"@)),
        g.vendor == GpuVendor::Unknown ==> has(gpu_json(g), "vendor"@, Json::Text("unknown"@)),
{
    broadcast use {lemma_newest, lemma_older};

}

/// The protocol of a connection is one of two words.
pub proof fn protocols_are_told_apart(c: ConnectionView)
    ensures
        c.protocol == ConnProtocol::Tcp ==> has(
            connection_json(c),
            "protocol"@,
            Json::Text("tcp"@),
        ),
        c.protocol == ConnProtocol::Udp ==> has(
            connection_json(c),
            "protocol"@,
            Json::Text("udp"@),
        ),
{
    broadcast use {lemma_newest, lemma_older};

}

// ---------------------------------------------------------------------------
// The lists
// ---------------------------------------------------------------------------
/// An object with one list of objects under that name: as many, and at each place
/// the one that belongs there.
pub open spec fn lists(j: Json, name: Seq<char>, n: nat, at: spec_fn(int) -> Json) -> bool {
    exists|items: Seq<Json>| #[trigger]
        has(j, name, Json::Array(items)) && items.len() == n && forall|i: int|
            0 <= i < n ==> #[trigger] items[i] == at(i)
}

proof fn lemma_lists(j: Json, name: Seq<char>, items: Seq<Json>, at: spec_fn(int) -> Json)
    requires
        has(j, name, Json::Array(items)),
        forall|i: int| 0 <= i < items.len() ==> #[trigger] items[i] == at(i),
    ensures
        lists(j, name, items.len(), at),
{
}

/// A chip has its name, its own sensors and its own fans, each at its place.
pub proof fn a_chip_has_its_own_sensors(c: HwmonChipView)
    ensures
        has(chip_json(c), "name"@, Json::Text(c.name)),
        lists(chip_json(c), "temps"@, c.temps.len(), |i: int| temp_json(c.temps[i])),
        lists(chip_json(c), "fans"@, c.fans.len(), |i: int| fan_json(c.fans[i])),
{
    broadcast use {lemma_newest, lemma_older};

    lemma_lists(
        chip_json(c),
        "temps"@,
        temps_json(c.temps),
        |i: int| temp_json(c.temps[i]),
    );
    lemma_lists(chip_json(c), "fans"@, fans_json(c.fans), |i: int| fan_json(c.fans[i]));
}

/// The processor lists its cores, each with its own frequency.
pub proof fn the_processor_lists_its_cores(cpu: CpuSampleView, rates: Option<RatesView>)
    ensures
        lists(
            cpu_json(cpu, rates),
            "per_core"@,
            cpu.freq_khz.len(),
            |i: int| core_json(i, cpu.freq_khz[i], rates),
        ),
{
    broadcast use {lemma_newest, lemma_older};

    lemma_lists(
        cpu_json(cpu, rates),
        "per_core"@,
        cores_json(cpu.freq_khz, rates),
        |i: int| core_json(i, cpu.freq_khz[i], rates),
    );
}

/// The rates of a disk are those under its name, where there are some.
pub open spec fn disk_rated(d: DiskDeviceView, rates: Option<RatesView>) -> Option<DiskRateView> {
    if rates is Some && rates->0.disk.contains_key(d.name) {
        Some(rates->0.disk[d.name])
    } else {
        None
    }
}

/// The rates of an interface are those under its name, where there are some.
pub open spec fn net_rated(i: NetInterfaceView, rates: Option<RatesView>) -> Option<NetRate> {
    if rates is Some && rates->0.net.contains_key(i.name) {
        Some(rates->0.net[i.name])
    } else {
        None
    }
}

// ---------------------------------------------------------------------------
// The snapshot
// ---------------------------------------------------------------------------
pub open spec fn snapshot_json(
    s: SnapshotView,
    taken_at: Seq<char>,
    rates: Option<RatesView>,
    verbose: bool,
) -> Json {
    Json::Object(snapshot_members(s, taken_at, rates, verbose))
}

/// A snapshot has its time, the span of its rates, and the sections that were
/// collected.
pub proof fn snapshot_fields_hold_their_sections(
    s: SnapshotView,
    taken_at: Seq<char>,
    rates: Option<RatesView>,
    verbose: bool,
)
    ensures
        ({
            let j = snapshot_json(s, taken_at, rates, verbose);
            &&& has(j, "schema"@, Json::Number(1))
            &&& has(j, "taken_at"@, Json::Text(taken_at))
            &&& rates is Some ==> has(
                j,
                "interval_secs"@,
                Json::Measured(QuantityView::Seconds { nanos: rates->0.interval_nanos }),
            )
            &&& s.cpu is Some ==> has(j, "cpu"@, cpu_json(s.cpu->0, rates))
            &&& s.memory is Some ==> has(j, "memory"@, memory_json(s.memory->0))
        }),
{
    broadcast use {lemma_newest, lemma_older};

}

/// What was not collected is left out, and so are errors that were not asked for.
pub proof fn what_was_not_collected_is_left_out(
    s: SnapshotView,
    taken_at: Seq<char>,
    rates: Option<RatesView>,
    verbose: bool,
)
    ensures
        ({
            let j = snapshot_json(s, taken_at, rates, verbose);
            &&& rates is None ==> lacks(j, "interval_secs"@)
            &&& s.cpu is None ==> lacks(j, "cpu"@)
            &&& s.memory is None ==> lacks(j, "memory"@)
            &&& s.thermal is None ==> lacks(j, "thermal"@)
            &&& s.disks is None ==> lacks(j, "disk"@) && lacks(j, "mounts"@)
            &&& s.net is None ==> lacks(j, "net"@)
            &&& s.gpus is None ==> lacks(j, "gpu"@)
            &&& s.connections is None ==> lacks(j, "connections"@)
            &&& !verbose ==> lacks(j, "errors"@)
        }),
{
    reveal_strlit("schema");
    reveal_strlit("taken_at");
    reveal_strlit("interval_secs");
    reveal_strlit("cpu");
    reveal_strlit("memory");
    reveal_strlit("thermal");
    reveal_strlit("disk");
    reveal_strlit("mounts");
    reveal_strlit("net");
    reveal_strlit("gpu");
    reveal_strlit("connections");
    reveal_strlit("errors");
    assert("schema"@.len() == 6);
    assert("taken_at"@.len() == 8);
    assert("interval_secs"@.len() == 13);
    assert("cpu"@.len() == 3);
    assert("memory"@.len() == 6);
    assert("thermal"@.len() == 7);
    assert("disk"@.len() == 4);
    assert("mounts"@.len() == 6);
    assert("net"@.len() == 3);
    assert("gpu"@.len() == 3);
    assert("connections"@.len() == 11);
    assert("errors"@.len() == 6);
    assert("schema"@[0] != "memory"@[0]);
    assert("schema"@[0] != "mounts"@[0]);
    assert("schema"@[0] != "errors"@[0]);
    assert("cpu"@[0] != "net"@[0]);
    assert("cpu"@[0] != "gpu"@[0]);
    assert("memory"@[1] != "mounts"@[1]);
    assert("memory"@[0] != "errors"@[0]);
    assert("mounts"@[0] != "errors"@[0]);
    assert("net"@[0] != "gpu"@[0]);
    let all = snapshot_members(s, taken_at, rates, verbose);
    lemma_names(s, taken_at, rates, verbose);
    assert forall|i: int| 0 <= i < all.len() implies allowed(
        (#[trigger] all[i]).0,
        s,
        rates,
        verbose,
    ) by {}
}

/// The names that an object of a snapshot may have.
spec fn allowed(
    name: Seq<char>,
    s: SnapshotView,
    rates: Option<RatesView>,
    verbose: bool,
) -> bool {
    ||| name == "schema"@
    ||| name == "taken_at"@
    ||| name == "interval_secs"@ && rates is Some
    ||| name == "cpu"@ && s.cpu is Some
    ||| name == "memory"@ && s.memory is Some
    ||| name == "thermal"@ && s.thermal is Some
    ||| name == "disk"@ && s.disks is Some
    ||| name == "mounts"@ && s.disks is Some
    ||| name == "net"@ && s.net is Some
    ||| name == "gpu"@ && s.gpus is Some
    ||| name == "connections"@ && s.connections is Some
    ||| name == "errors"@ && verbose
}

proof fn lemma_names(
    s: SnapshotView,
    taken_at: Seq<char>,
    rates: Option<RatesView>,
    verbose: bool,
)
    ensures
        forall|i: int|
            0 <= i < snapshot_members(s, taken_at, rates, verbose).len() ==> allowed(
                (#[trigger] snapshot_members(s, taken_at, rates, verbose)[i]).0,
                s,
                rates,
                verbose,
            ),
{
}

/// Each list of a snapshot has every thing that was collected, at its place, with
/// the rates that belong to it.
pub proof fn snapshot_lists_are_complete(
    s: SnapshotView,
    taken_at: Seq<char>,
    rates: Option<RatesView>,
    verbose: bool,
)
    ensures
        ({
            let j = snapshot_json(s, taken_at, rates, verbose);
            &&& s.thermal matches Some(x) ==> lists(
                j,
                "thermal"@,
                x.chips.len(),
                |i: int| chip_json(x.chips[i]),
            )
            &&& s.disks matches Some(x) ==> lists(
                j,
                "disk"@,
                x.devices.len(),
                |i: int|
                    Json::Object(disk_members(x.devices[i], disk_rated(x.devices[i], rates))),
            ) && lists(j, "mounts"@, x.mounts.len(), |i: int| mount_json(x.mounts[i]))
            &&& s.net matches Some(x) ==> lists(
                j,
                "net"@,
                x.interfaces.len(),
                |i: int|
                    Json::Object(net_members(x.interfaces[i], net_rated(x.interfaces[i], rates))),
            )
            &&& s.gpus matches Some(x) ==> lists(
                j,
                "gpu"@,
                x.gpus.len(),
                |i: int| gpu_json(x.gpus[i]),
            )
            &&& s.connections matches Some(x) ==> lists(
                j,
                "connections"@,
                x.connections.len(),
                |i: int| connection_json(x.connections[i]),
            )
            &&& verbose ==> lists(j, "errors"@, s.errors.len(), |i: int| error_json(s.errors[i]))
        }),
{
    broadcast use {lemma_newest, lemma_older};

    let j = snapshot_json(s, taken_at, rates, verbose);
    if let Some(x) = s.thermal {
        assert(listed(
            first_members(s, taken_at, rates),
            "thermal"@,
            Json::Array(chips_json(x.chips)),
        ));
        lemma_lists(j, "thermal"@, chips_json(x.chips), |i: int| chip_json(x.chips[i]));
    }
    if let Some(x) = s.disks {
        lemma_lists(
            j,
            "disk"@,
            disks_json(x.devices, rates),
            |i: int| Json::Object(disk_members(x.devices[i], disk_rated(x.devices[i], rates))),
        );
        lemma_lists(j, "mounts"@, mounts_json(x.mounts), |i: int| mount_json(x.mounts[i]));
    }
    if let Some(x) = s.net {
        lemma_lists(
            j,
            "net"@,
            interfaces_json(x.interfaces, rates),
            |i: int| Json::Object(net_members(x.interfaces[i], net_rated(x.interfaces[i], rates))),
        );
    }
    if let Some(x) = s.gpus {
        lemma_lists(j, "gpu"@, gpus_json(x.gpus), |i: int| gpu_json(x.gpus[i]));
    }
    if let Some(x) = s.connections {
        lemma_lists(
            j,
            "connections"@,
            connections_json(x.connections),
            |i: int| connection_json(x.connections[i]),
        );
    }
    if verbose {
        lemma_lists(j, "errors"@, errors_json(s.errors), |i: int| error_json(s.errors[i]));
    }
}

} // verus!
