//! The JSON schema of a snapshot, section by section.

use vstd::prelude::*;

use crate::addr::address_text;
use crate::delta::{DiskRateView, NetRate, Rates, RatesView};
use crate::render::document::{Quantity, QuantityView};
use crate::render::json::{
    added, emitted, in_array, lemma_element, lemma_field, measured_json,
    number_json, text_json, written, Json, JsonWriter, };
use crate::sample::{
    tcp_state_name, views, CollectorError, CollectorErrorView, ConnProtocol, Connection,
    ConnectionSample, ConnectionView, CpuSample, CpuSampleView, DiskDevice, DiskDeviceView,
    DiskSample, FanSensor, FanSensorView, Gpu, GpuSample, GpuVendor, GpuView, HwmonChip,
    HwmonChipView, LoadAvg, LoadAvgView, MemorySample, MountPoint, MountPointView, NetInterface,
    NetInterfaceView, NetSample, TempSensor, TempSensorView,
    ThermalSample,
};
use crate::units::{
    percent_view, Bytes, KiloHertz, MicroWatts, MilliCelsius, PerSecond, Percent, Rpm,
};

verus! {

pub type Members = Seq<(Seq<char>, Json)>;

// ---------------------------------------------------------------------------
// Optional values
// ---------------------------------------------------------------------------
pub open spec fn opt_text(v: Option<Seq<char>>) -> Option<Json> {
    match v {
        Some(s) => Some(Json::Text(s)),
        None => None,
    }
}

pub open spec fn opt_share(v: Option<(nat, nat)>) -> Option<Json> {
    match v {
        Some(p) => Some(Json::Measured(QuantityView::Share(p))),
        None => None,
    }
}

pub open spec fn celsius(t: MilliCelsius) -> Json {
    Json::Measured(QuantityView::Celsius(t))
}

pub open spec fn opt_celsius(v: Option<MilliCelsius>) -> Option<Json> {
    match v {
        Some(t) => Some(celsius(t)),
        None => None,
    }
}

pub open spec fn opt_bytes(v: Option<Bytes>) -> Option<Json> {
    match v {
        Some(b) => Some(Json::Number(b.0)),
        None => None,
    }
}

pub open spec fn opt_khz(v: Option<KiloHertz>) -> Option<Json> {
    match v {
        Some(f) => Some(Json::Number(f.0)),
        None => None,
    }
}

pub open spec fn opt_watts(v: Option<MicroWatts>) -> Option<Json> {
    match v {
        Some(w) => Some(Json::Measured(QuantityView::Watts(w))),
        None => None,
    }
}

pub open spec fn opt_rpm(v: Option<Rpm>) -> Option<Json> {
    match v {
        Some(r) => Some(Json::Number(r.0)),
        None => None,
    }
}

pub open spec fn rate(r: PerSecond) -> Json {
    Json::Measured(QuantityView::Rate(r))
}

pub open spec fn rates_view(r: Option<&Rates>) -> Option<RatesView> {
    match r {
        Some(r) => Some(r@),
        None => None,
    }
}

/// The busy share of all processors together, where it is known.
pub open spec fn total_share(rates: Option<RatesView>) -> Option<(nat, nat)> {
    match rates {
        Some(r) => r.cpu_total,
        None => None,
    }
}

/// The busy share of one core, where it is known.
pub open spec fn core_share(rates: Option<RatesView>, i: int) -> Option<(nat, nat)> {
    match rates {
        Some(r) => if 0 <= i < r.cpu_per_core.len() {
            r.cpu_per_core[i]
        } else {
            None
        },
        None => None,
    }
}

/// The rates of a disk, where they are known.
pub open spec fn disk_rate(rates: Option<RatesView>, name: Seq<char>) -> Option<DiskRateView> {
    match rates {
        Some(r) => if r.disk.contains_key(name) {
            Some(r.disk[name])
        } else {
            None
        },
        None => None,
    }
}

/// The rates of an interface, where they are known.
pub open spec fn net_rate(rates: Option<RatesView>, name: Seq<char>) -> Option<NetRate> {
    match rates {
        Some(r) => if r.net.contains_key(name) {
            Some(r.net[name])
        } else {
            None
        },
        None => None,
    }
}

pub(crate) fn total_percent(rates: Option<&Rates>) -> (r: Option<Percent>)
    ensures
        percent_view(r) == total_share(rates_view(rates)),
{
    match rates {
        Some(r) => r.cpu_total,
        None => None,
    }
}

pub(crate) fn core_percent(rates: Option<&Rates>, i: usize) -> (r: Option<Percent>)
    ensures
        percent_view(r) == core_share(rates_view(rates), i as int),
{
    match rates {
        Some(r) => {
            if i < r.cpu_per_core.len() {
                assert(r@.cpu_per_core[i as int] == percent_view(r.cpu_per_core@[i as int]));
                r.cpu_per_core[i]
            } else {
                None
            }
        },
        None => None,
    }
}

fn share_quantity(p: Option<Percent>) -> (r: Option<Quantity>)
    ensures
        measured_json(r) == opt_share(percent_view(p)),
{
    match p {
        Some(p) => Some(Quantity::Share(p)),
        None => None,
    }
}

fn celsius_quantity(t: Option<MilliCelsius>) -> (r: Option<Quantity>)
    ensures
        measured_json(r) == opt_celsius(t),
{
    match t {
        Some(t) => Some(Quantity::Celsius(t)),
        None => None,
    }
}

fn byte_count(b: Option<Bytes>) -> (r: Option<u64>)
    ensures
        number_json(r) == opt_bytes(b),
{
    match b {
        Some(b) => Some(b.as_u64()),
        None => None,
    }
}

fn khz_count(f: Option<KiloHertz>) -> (r: Option<u64>)
    ensures
        number_json(r) == opt_khz(f),
{
    match f {
        Some(f) => Some(f.as_khz()),
        None => None,
    }
}

// ---------------------------------------------------------------------------
// Processor
// ---------------------------------------------------------------------------
pub open spec fn load_json(l: LoadAvgView) -> Json {
    Json::Array(
        seq![
            Json::Measured(QuantityView::Numeral(l.one)),
            Json::Measured(QuantityView::Numeral(l.five)),
            Json::Measured(QuantityView::Numeral(l.fifteen)),
        ],
    )
}

pub open spec fn opt_load(l: Option<LoadAvgView>) -> Option<Json> {
    match l {
        Some(l) => Some(load_json(l)),
        None => None,
    }
}

pub open spec fn core_json(i: int, freq: Option<KiloHertz>, rates: Option<RatesView>) -> Json {
    Json::Object(
        added(
            added(
                Members::empty().push(("core"@, Json::Number(i as u64))),
                "freq_khz"@,
                opt_khz(freq),
            ),
            "busy_percent"@,
            opt_share(core_share(rates, i)),
        ),
    )
}

pub open spec fn cores_json(freqs: Seq<Option<KiloHertz>>, rates: Option<RatesView>) -> Seq<Json> {
    Seq::new(freqs.len(), |i: int| core_json(i, freqs[i], rates))
}

pub open spec fn cpu_json(cpu: CpuSampleView, rates: Option<RatesView>) -> Json {
    Json::Object(
        added(
            added(
                added(Members::empty(), "model"@, opt_text(cpu.model)).push(
                    ("cores"@, Json::Number(cpu.per_core.len() as u64)),
                ),
                "load_avg"@,
                opt_load(cpu.load_avg),
            ),
            "busy_percent"@,
            opt_share(total_share(rates)),
        ).push(("per_core"@, Json::Array(cores_json(cpu.freq_khz, rates)))),
    )
}

fn write_load(w: &mut JsonWriter, l: &LoadAvg)
    ensures
        final(w)@ == emitted(old(w)@, written(load_json(l@))),
{
    let ghost base = w@;
    w.begin_array();
    proof {
        lemma_element(w@, Json::Measured(QuantityView::Numeral(l.one@)));
    }
    w.quantity_value(Quantity::Numeral(l.one.clone()));
    proof {
        lemma_element(w@, Json::Measured(QuantityView::Numeral(l.five@)));
    }
    w.quantity_value(Quantity::Numeral(l.five.clone()));
    proof {
        lemma_element(w@, Json::Measured(QuantityView::Numeral(l.fifteen@)));
    }
    w.quantity_value(Quantity::Numeral(l.fifteen.clone()));
    let ghost items = Seq::<Json>::empty().push(
        Json::Measured(QuantityView::Numeral(l.one@)),
    ).push(Json::Measured(QuantityView::Numeral(l.five@))).push(
        Json::Measured(QuantityView::Numeral(l.fifteen@)),
    );
    assert(in_array(base, w@, items));
    assert(items == load_json(l@)->Array_0);
    w.end_array();
}

fn write_core(w: &mut JsonWriter, i: usize, freq: Option<KiloHertz>, rates: Option<&Rates>)
    ensures
        final(w)@ == emitted(old(w)@, written(core_json(i as int, freq, rates_view(rates)))),
{
    w.begin_object();
    w.u64_field("core", i as u64);
    w.opt_u64_field("freq_khz", khz_count(freq));
    w.opt_quantity_field("busy_percent", share_quantity(core_percent(rates, i)));
    w.end_object();
}

fn write_cores(w: &mut JsonWriter, freqs: &Vec<Option<KiloHertz>>, rates: Option<&Rates>)
    ensures
        final(w)@ == emitted(
            old(w)@,
            written(Json::Array(cores_json(freqs@, rates_view(rates)))),
        ),
{
    let ghost base = w@;
    let ghost all = cores_json(freqs@, rates_view(rates));
    w.begin_array();
    let mut i: usize = 0;
    assert(all.take(0) == Seq::<Json>::empty());
    while i < freqs.len()
        invariant
            i <= freqs.len(),
            all == cores_json(freqs@, rates_view(rates)),
            in_array(base, w@, all.take(i as int)),
        decreases freqs.len() - i,
    {
        proof {
            lemma_element(w@, all[i as int]);
        }
        write_core(w, i, freqs[i], rates);
        assert(all.take(i + 1) == all.take(i as int).push(all[i as int]));
        i = i + 1;
    }
    assert(all.take(i as int) == all);
    w.end_array();
}

pub(crate) fn write_cpu(w: &mut JsonWriter, cpu: &CpuSample, rates: Option<&Rates>)
    ensures
        final(w)@ == emitted(old(w)@, written(cpu_json(cpu@, rates_view(rates)))),
{
    w.begin_object();
    w.opt_str_field("model", &cpu.model);
    assert(text_json(cpu.model) == opt_text(cpu@.model));
    w.u64_field("cores", cpu.per_core.len() as u64);
    if let Some(l) = &cpu.load_avg {
        proof {
            lemma_field(w@, "load_avg"@, load_json(l@));
        }
        w.key("load_avg");
        write_load(w, l);
    }
    w.opt_quantity_field("busy_percent", share_quantity(total_percent(rates)));
    proof {
        lemma_field(
            w@,
            "per_core"@,
            Json::Array(cores_json(cpu.freq_khz@, rates_view(rates))),
        );
    }
    w.key("per_core");
    write_cores(w, &cpu.freq_khz, rates);
    w.end_object();
}

// ---------------------------------------------------------------------------
// Memory
// ---------------------------------------------------------------------------
pub open spec fn memory_json(m: MemorySample) -> Json {
    Json::Object(
        Members::empty().push(("total_bytes"@, Json::Number(m.total.0))).push(
            ("available_bytes"@, Json::Number(m.available.0)),
        ).push(("used_bytes"@, Json::Number(m.spec_used().0))).push(
            ("swap_total_bytes"@, Json::Number(m.swap_total.0)),
        ).push(("swap_used_bytes"@, Json::Number(m.spec_swap_used().0))),
    )
}

pub(crate) fn write_memory(w: &mut JsonWriter, m: &MemorySample)
    ensures
        final(w)@ == emitted(old(w)@, written(memory_json(*m))),
{
    w.begin_object();
    w.u64_field("total_bytes", m.total.as_u64());
    w.u64_field("available_bytes", m.available.as_u64());
    w.u64_field("used_bytes", m.used().as_u64());
    w.u64_field("swap_total_bytes", m.swap_total.as_u64());
    w.u64_field("swap_used_bytes", m.swap_used().as_u64());
    w.end_object();
}

// ---------------------------------------------------------------------------
// Temperatures and fans
// ---------------------------------------------------------------------------
pub open spec fn temp_json(t: TempSensorView) -> Json {
    Json::Object(
        added(
            added(
                Members::empty().push(("label"@, Json::Text(t.label))).push(
                    ("celsius"@, celsius(t.value)),
                ),
                "max_celsius"@,
                opt_celsius(t.max),
            ),
            "crit_celsius"@,
            opt_celsius(t.crit),
        ),
    )
}

pub open spec fn fan_json(f: FanSensorView) -> Json {
    Json::Object(
        Members::empty().push(("label"@, Json::Text(f.label))).push(
            ("rpm"@, Json::Number(f.rpm.0)),
        ),
    )
}

pub open spec fn temps_json(temps: Seq<TempSensorView>) -> Seq<Json> {
    temps.map_values(|t: TempSensorView| temp_json(t))
}

pub open spec fn fans_json(fans: Seq<FanSensorView>) -> Seq<Json> {
    fans.map_values(|f: FanSensorView| fan_json(f))
}

pub open spec fn chip_json(c: HwmonChipView) -> Json {
    Json::Object(
        Members::empty().push(("name"@, Json::Text(c.name))).push(
            ("temps"@, Json::Array(temps_json(c.temps))),
        ).push(("fans"@, Json::Array(fans_json(c.fans)))),
    )
}

pub open spec fn chips_json(chips: Seq<HwmonChipView>) -> Seq<Json> {
    chips.map_values(|c: HwmonChipView| chip_json(c))
}

fn write_temp(w: &mut JsonWriter, t: &TempSensor)
    ensures
        final(w)@ == emitted(old(w)@, written(temp_json(t@))),
{
    w.begin_object();
    w.str_field("label", t.label.as_str());
    w.quantity_field("celsius", Quantity::Celsius(t.value));
    w.opt_quantity_field("max_celsius", celsius_quantity(t.max));
    w.opt_quantity_field("crit_celsius", celsius_quantity(t.crit));
    w.end_object();
}

fn write_temps(w: &mut JsonWriter, temps: &Vec<TempSensor>)
    ensures
        final(w)@ == emitted(old(w)@, written(Json::Array(temps_json(views(temps@))))),
{
    let ghost base = w@;
    let ghost all = temps_json(views(temps@));
    w.begin_array();
    let mut i: usize = 0;
    assert(all.take(0) == Seq::<Json>::empty());
    while i < temps.len()
        invariant
            i <= temps.len(),
            all == temps_json(views(temps@)),
            in_array(base, w@, all.take(i as int)),
        decreases temps.len() - i,
    {
        proof {
            lemma_element(w@, all[i as int]);
        }
        assert(all[i as int] == temp_json(temps@[i as int]@));
        write_temp(w, &temps[i]);
        assert(all.take(i + 1) == all.take(i as int).push(all[i as int]));
        i = i + 1;
    }
    assert(all.take(i as int) == all);
    w.end_array();
}

fn write_fan(w: &mut JsonWriter, f: &FanSensor)
    ensures
        final(w)@ == emitted(old(w)@, written(fan_json(f@))),
{
    w.begin_object();
    w.str_field("label", f.label.as_str());
    w.u64_field("rpm", f.rpm.as_u64());
    w.end_object();
}

fn write_fans(w: &mut JsonWriter, fans: &Vec<FanSensor>)
    ensures
        final(w)@ == emitted(old(w)@, written(Json::Array(fans_json(views(fans@))))),
{
    let ghost base = w@;
    let ghost all = fans_json(views(fans@));
    w.begin_array();
    let mut i: usize = 0;
    assert(all.take(0) == Seq::<Json>::empty());
    while i < fans.len()
        invariant
            i <= fans.len(),
            all == fans_json(views(fans@)),
            in_array(base, w@, all.take(i as int)),
        decreases fans.len() - i,
    {
        proof {
            lemma_element(w@, all[i as int]);
        }
        assert(all[i as int] == fan_json(fans@[i as int]@));
        write_fan(w, &fans[i]);
        assert(all.take(i + 1) == all.take(i as int).push(all[i as int]));
        i = i + 1;
    }
    assert(all.take(i as int) == all);
    w.end_array();
}

fn write_chip(w: &mut JsonWriter, c: &HwmonChip)
    ensures
        final(w)@ == emitted(old(w)@, written(chip_json(c@))),
{
    w.begin_object();
    w.str_field("name", c.name.as_str());
    proof {
        lemma_field(w@, "temps"@, Json::Array(temps_json(views(c.temps@))));
    }
    w.key("temps");
    write_temps(w, &c.temps);
    proof {
        lemma_field(w@, "fans"@, Json::Array(fans_json(views(c.fans@))));
    }
    w.key("fans");
    write_fans(w, &c.fans);
    w.end_object();
}

pub(crate) fn write_thermal(w: &mut JsonWriter, s: &ThermalSample)
    ensures
        final(w)@ == emitted(old(w)@, written(Json::Array(chips_json(s@.chips)))),
{
    let ghost base = w@;
    let ghost all = chips_json(s@.chips);
    w.begin_array();
    let mut i: usize = 0;
    assert(all.take(0) == Seq::<Json>::empty());
    while i < s.chips.len()
        invariant
            i <= s.chips@.len(),
            all == chips_json(s@.chips),
            in_array(base, w@, all.take(i as int)),
        decreases s.chips@.len() - i,
    {
        proof {
            lemma_element(w@, all[i as int]);
        }
        assert(all[i as int] == chip_json(s.chips@[i as int]@));
        write_chip(w, &s.chips[i]);
        assert(all.take(i + 1) == all.take(i as int).push(all[i as int]));
        i = i + 1;
    }
    assert(all.take(i as int) == all);
    w.end_array();
}

// ---------------------------------------------------------------------------
// Disks
// ---------------------------------------------------------------------------
pub open spec fn disk_members(d: DiskDeviceView, r: Option<DiskRateView>) -> Members {
    let name = Members::empty().push(("name"@, Json::Text(d.name)));
    match r {
        Some(r) => added(
            name.push(("read_bytes_per_sec"@, rate(r.read))).push(
                ("write_bytes_per_sec"@, rate(r.write)),
            ).push(("read_iops"@, rate(r.read_iops))).push(("write_iops"@, rate(r.write_iops))),
            "utilisation_percent"@,
            opt_share(r.utilisation),
        ),
        None => name,
    }
}

pub open spec fn disk_json(d: DiskDeviceView, rates: Option<RatesView>) -> Json {
    Json::Object(disk_members(d, disk_rate(rates, d.name)))
}

pub open spec fn disks_json(devices: Seq<DiskDeviceView>, rates: Option<RatesView>) -> Seq<Json> {
    devices.map_values(|d: DiskDeviceView| disk_json(d, rates))
}

pub open spec fn mount_json(m: MountPointView) -> Json {
    Json::Object(
        added(
            added(
                Members::empty().push(("source"@, Json::Text(m.source))).push(
                    ("mount_point"@, Json::Text(m.mount_point)),
                ).push(("fs_type"@, Json::Text(m.fs_type))),
                "total_bytes"@,
                opt_bytes(m.total),
            ),
            "available_bytes"@,
            opt_bytes(m.available),
        ),
    )
}

pub open spec fn mounts_json(mounts: Seq<MountPointView>) -> Seq<Json> {
    mounts.map_values(|m: MountPointView| mount_json(m))
}

fn write_disk(w: &mut JsonWriter, d: &DiskDevice, rates: Option<&Rates>)
    ensures
        final(w)@ == emitted(old(w)@, written(disk_json(d@, rates_view(rates)))),
{
    w.begin_object();
    w.str_field("name", d.name.as_str());
    if let Some(r) = rates {
        if let Some(r) = r.disk.get(d.name.as_str()) {
            w.quantity_field("read_bytes_per_sec", Quantity::Rate(r.read));
            w.quantity_field("write_bytes_per_sec", Quantity::Rate(r.write));
            w.quantity_field("read_iops", Quantity::Rate(r.read_iops));
            w.quantity_field("write_iops", Quantity::Rate(r.write_iops));
            w.opt_quantity_field("utilisation_percent", share_quantity(r.utilisation));
        }
    }
    w.end_object();
}

pub(crate) fn write_disks(w: &mut JsonWriter, s: &DiskSample, rates: Option<&Rates>)
    ensures
        final(w)@ == emitted(
            old(w)@,
            written(Json::Array(disks_json(s@.devices, rates_view(rates)))),
        ),
{
    let ghost base = w@;
    let ghost all = disks_json(s@.devices, rates_view(rates));
    w.begin_array();
    let mut i: usize = 0;
    assert(all.take(0) == Seq::<Json>::empty());
    while i < s.devices.len()
        invariant
            i <= s.devices@.len(),
            all == disks_json(s@.devices, rates_view(rates)),
            in_array(base, w@, all.take(i as int)),
        decreases s.devices@.len() - i,
    {
        proof {
            lemma_element(w@, all[i as int]);
        }
        assert(all[i as int] == disk_json(s.devices@[i as int]@, rates_view(rates)));
        write_disk(w, &s.devices[i], rates);
        assert(all.take(i + 1) == all.take(i as int).push(all[i as int]));
        i = i + 1;
    }
    assert(all.take(i as int) == all);
    w.end_array();
}

fn write_mount(w: &mut JsonWriter, m: &MountPoint)
    ensures
        final(w)@ == emitted(old(w)@, written(mount_json(m@))),
{
    w.begin_object();
    w.str_field("source", m.source.as_str());
    w.str_field("mount_point", m.mount_point.as_str());
    w.str_field("fs_type", m.fs_type.as_str());
    w.opt_u64_field("total_bytes", byte_count(m.total));
    w.opt_u64_field("available_bytes", byte_count(m.available));
    w.end_object();
}

pub(crate) fn write_mounts(w: &mut JsonWriter, s: &DiskSample)
    ensures
        final(w)@ == emitted(old(w)@, written(Json::Array(mounts_json(s@.mounts)))),
{
    let ghost base = w@;
    let ghost all = mounts_json(s@.mounts);
    w.begin_array();
    let mut i: usize = 0;
    assert(all.take(0) == Seq::<Json>::empty());
    while i < s.mounts.len()
        invariant
            i <= s.mounts@.len(),
            all == mounts_json(s@.mounts),
            in_array(base, w@, all.take(i as int)),
        decreases s.mounts@.len() - i,
    {
        proof {
            lemma_element(w@, all[i as int]);
        }
        assert(all[i as int] == mount_json(s.mounts@[i as int]@));
        write_mount(w, &s.mounts[i]);
        assert(all.take(i + 1) == all.take(i as int).push(all[i as int]));
        i = i + 1;
    }
    assert(all.take(i as int) == all);
    w.end_array();
}

// ---------------------------------------------------------------------------
// Network interfaces
// ---------------------------------------------------------------------------
pub open spec fn net_members(i: NetInterfaceView, r: Option<NetRate>) -> Members {
    let own = added(
        added(
            Members::empty().push(("name"@, Json::Text(i.name))),
            "operstate"@,
            opt_text(i.operstate),
        ),
        "mtu"@,
        number_json(i.mtu),
    );
    match r {
        Some(r) => own.push(("rx_bytes_per_sec"@, rate(r.rx))).push(
            ("tx_bytes_per_sec"@, rate(r.tx)),
        ).push(("rx_packets_per_sec"@, rate(r.rx_packets_per_sec))).push(
            ("tx_packets_per_sec"@, rate(r.tx_packets_per_sec)),
        ),
        None => own,
    }
}

pub open spec fn interface_json(i: NetInterfaceView, rates: Option<RatesView>) -> Json {
    Json::Object(net_members(i, net_rate(rates, i.name)))
}

pub open spec fn interfaces_json(interfaces: Seq<NetInterfaceView>, rates: Option<RatesView>) -> Seq<
    Json,
> {
    interfaces.map_values(|i: NetInterfaceView| interface_json(i, rates))
}

fn write_interface(w: &mut JsonWriter, i: &NetInterface, rates: Option<&Rates>)
    ensures
        final(w)@ == emitted(old(w)@, written(interface_json(i@, rates_view(rates)))),
{
    w.begin_object();
    w.str_field("name", i.name.as_str());
    w.opt_str_field("operstate", &i.operstate);
    assert(text_json(i.operstate) == opt_text(i@.operstate));
    w.opt_u64_field("mtu", i.mtu);
    if let Some(r) = rates {
        if let Some(r) = r.net.get(i.name.as_str()) {
            w.quantity_field("rx_bytes_per_sec", Quantity::Rate(r.rx));
            w.quantity_field("tx_bytes_per_sec", Quantity::Rate(r.tx));
            w.quantity_field("rx_packets_per_sec", Quantity::Rate(r.rx_packets_per_sec));
            w.quantity_field("tx_packets_per_sec", Quantity::Rate(r.tx_packets_per_sec));
        }
    }
    w.end_object();
}

pub(crate) fn write_net(w: &mut JsonWriter, s: &NetSample, rates: Option<&Rates>)
    ensures
        final(w)@ == emitted(
            old(w)@,
            written(Json::Array(interfaces_json(s@.interfaces, rates_view(rates)))),
        ),
{
    let ghost base = w@;
    let ghost all = interfaces_json(s@.interfaces, rates_view(rates));
    w.begin_array();
    let mut i: usize = 0;
    assert(all.take(0) == Seq::<Json>::empty());
    while i < s.interfaces.len()
        invariant
            i <= s.interfaces@.len(),
            all == interfaces_json(s@.interfaces, rates_view(rates)),
            in_array(base, w@, all.take(i as int)),
        decreases s.interfaces@.len() - i,
    {
        proof {
            lemma_element(w@, all[i as int]);
        }
        assert(all[i as int] == interface_json(s.interfaces@[i as int]@, rates_view(rates)));
        write_interface(w, &s.interfaces[i], rates);
        assert(all.take(i + 1) == all.take(i as int).push(all[i as int]));
        i = i + 1;
    }
    assert(all.take(i as int) == all);
    w.end_array();
}

// ---------------------------------------------------------------------------
// Graphics cards
// ---------------------------------------------------------------------------
pub open spec fn vendor_name(v: GpuVendor) -> Seq<char> {
    match v {
        GpuVendor::Unknown => "unknown"@,
        GpuVendor::Amd => "amd"@,
        GpuVendor::Intel => "intel"@,
        GpuVendor::Nvidia => "nvidia"@,
    }
}

pub open spec fn gpu_json(g: GpuView) -> Json {
    let a = Members::empty().push(("name"@, Json::Text(g.name))).push(
        ("vendor"@, Json::Text(vendor_name(g.vendor))),
    );
    let b = added(a, "busy_percent"@, opt_share(g.busy));
    let c = added(b, "freq_khz"@, opt_khz(g.freq_khz));
    let d = added(c, "vram_total_bytes"@, opt_bytes(g.vram_total));
    let e = added(d, "vram_used_bytes"@, opt_bytes(g.vram_used));
    let f = added(e, "celsius"@, opt_celsius(g.temp));
    let h = added(f, "watts"@, opt_watts(g.power));
    Json::Object(added(h, "fan_rpm"@, opt_rpm(g.fan_rpm)))
}

pub open spec fn gpus_json(gpus: Seq<GpuView>) -> Seq<Json> {
    gpus.map_values(|g: GpuView| gpu_json(g))
}

fn write_gpu(w: &mut JsonWriter, g: &Gpu)
    ensures
        final(w)@ == emitted(old(w)@, written(gpu_json(g@))),
{
    w.begin_object();
    w.str_field("name", g.name.as_str());
    let vendor = match g.vendor {
        GpuVendor::Unknown => "unknown",
        GpuVendor::Amd => "amd",
        GpuVendor::Intel => "intel",
        GpuVendor::Nvidia => "nvidia",
    };
    w.str_field("vendor", vendor);
    w.opt_quantity_field("busy_percent", share_quantity(g.busy));
    w.opt_u64_field("freq_khz", khz_count(g.freq_khz));
    w.opt_u64_field("vram_total_bytes", byte_count(g.vram_total));
    w.opt_u64_field("vram_used_bytes", byte_count(g.vram_used));
    w.opt_quantity_field("celsius", celsius_quantity(g.temp));
    let watts = match g.power {
        Some(p) => Some(Quantity::Watts(p)),
        None => None,
    };
    assert(measured_json(watts) == opt_watts(g.power));
    w.opt_quantity_field("watts", watts);
    let rpm = match g.fan_rpm {
        Some(f) => Some(f.as_u64()),
        None => None,
    };
    assert(number_json(rpm) == opt_rpm(g.fan_rpm));
    w.opt_u64_field("fan_rpm", rpm);
    w.end_object();
}

pub(crate) fn write_gpus(w: &mut JsonWriter, s: &GpuSample)
    ensures
        final(w)@ == emitted(old(w)@, written(Json::Array(gpus_json(s@.gpus)))),
{
    let ghost base = w@;
    let ghost all = gpus_json(s@.gpus);
    w.begin_array();
    let mut i: usize = 0;
    assert(all.take(0) == Seq::<Json>::empty());
    while i < s.gpus.len()
        invariant
            i <= s.gpus@.len(),
            all == gpus_json(s@.gpus),
            in_array(base, w@, all.take(i as int)),
        decreases s.gpus@.len() - i,
    {
        proof {
            lemma_element(w@, all[i as int]);
        }
        assert(all[i as int] == gpu_json(s.gpus@[i as int]@));
        write_gpu(w, &s.gpus[i]);
        assert(all.take(i + 1) == all.take(i as int).push(all[i as int]));
        i = i + 1;
    }
    assert(all.take(i as int) == all);
    w.end_array();
}

// ---------------------------------------------------------------------------
// Connections
// ---------------------------------------------------------------------------
pub open spec fn protocol_name(p: ConnProtocol) -> Seq<char> {
    match p {
        ConnProtocol::Tcp => "tcp"@,
        ConnProtocol::Udp => "udp"@,
    }
}

pub fn protocol_text(p: ConnProtocol) -> (r: &'static str)
    ensures
        r@ == protocol_name(p),
{
    match p {
        ConnProtocol::Tcp => "tcp",
        ConnProtocol::Udp => "udp",
    }
}

pub open spec fn opt_pid(v: Option<u32>) -> Option<Json> {
    match v {
        Some(n) => Some(Json::Number(n as u64)),
        None => None,
    }
}

pub open spec fn connection_json(c: ConnectionView) -> Json {
    let a = Members::empty().push(("protocol"@, Json::Text(protocol_name(c.protocol)))).push(
        ("local_addr"@, Json::Text(address_text(c.local_addr))),
    ).push(("local_port"@, Json::Number(c.local_port as u64))).push(
        ("remote_addr"@, Json::Text(address_text(c.remote_addr))),
    ).push(("remote_port"@, Json::Number(c.remote_port as u64)));
    let state = match c.state {
        Some(s) => Some(Json::Text(tcp_state_name(s))),
        None => None,
    };
    let b = added(a, "state"@, state).push(("uid"@, Json::Number(c.uid as u64)));
    Json::Object(
        added(added(b, "pid"@, opt_pid(c.pid)), "program"@, opt_text(c.program)),
    )
}

pub open spec fn connections_json(connections: Seq<ConnectionView>) -> Seq<Json> {
    connections.map_values(|c: ConnectionView| connection_json(c))
}

fn write_connection(w: &mut JsonWriter, c: &Connection)
    ensures
        final(w)@ == emitted(old(w)@, written(connection_json(c@))),
{
    w.begin_object();
    w.str_field("protocol", protocol_text(c.protocol));
    let local = c.local_addr.to_string();
    w.str_field("local_addr", local.as_str());
    w.u64_field("local_port", c.local_port as u64);
    let remote = c.remote_addr.to_string();
    w.str_field("remote_addr", remote.as_str());
    w.u64_field("remote_port", c.remote_port as u64);
    if let Some(state) = c.state {
        w.str_field("state", state.as_str());
    }
    w.u64_field("uid", c.uid as u64);
    let pid = match c.pid {
        Some(pid) => Some(pid as u64),
        None => None,
    };
    assert(number_json(pid) == opt_pid(c.pid));
    w.opt_u64_field("pid", pid);
    w.opt_str_field("program", &c.program);
    assert(text_json(c.program) == opt_text(c@.program));
    w.end_object();
}

pub(crate) fn write_connections(w: &mut JsonWriter, s: &ConnectionSample)
    ensures
        final(w)@ == emitted(old(w)@, written(Json::Array(connections_json(s@.connections)))),
{
    let ghost base = w@;
    let ghost all = connections_json(s@.connections);
    w.begin_array();
    let mut i: usize = 0;
    assert(all.take(0) == Seq::<Json>::empty());
    while i < s.connections.len()
        invariant
            i <= s.connections@.len(),
            all == connections_json(s@.connections),
            in_array(base, w@, all.take(i as int)),
        decreases s.connections@.len() - i,
    {
        proof {
            lemma_element(w@, all[i as int]);
        }
        assert(all[i as int] == connection_json(s.connections@[i as int]@));
        write_connection(w, &s.connections[i]);
        assert(all.take(i + 1) == all.take(i as int).push(all[i as int]));
        i = i + 1;
    }
    assert(all.take(i as int) == all);
    w.end_array();
}

// ---------------------------------------------------------------------------
// Errors
// ---------------------------------------------------------------------------
pub open spec fn error_json(e: CollectorErrorView) -> Json {
    Json::Object(
        Members::empty().push(("collector"@, Json::Text(e.collector))).push(
            ("message"@, Json::Text(e.message)),
        ),
    )
}

pub open spec fn errors_json(errors: Seq<CollectorErrorView>) -> Seq<Json> {
    errors.map_values(|e: CollectorErrorView| error_json(e))
}

fn write_error(w: &mut JsonWriter, e: &CollectorError)
    ensures
        final(w)@ == emitted(old(w)@, written(error_json(e@))),
{
    w.begin_object();
    w.str_field("collector", e.collector);
    w.str_field("message", e.message.as_str());
    w.end_object();
}

pub(crate) fn write_errors(w: &mut JsonWriter, errors: &Vec<CollectorError>)
    ensures
        final(w)@ == emitted(old(w)@, written(Json::Array(errors_json(views(errors@))))),
{
    let ghost base = w@;
    let ghost all = errors_json(views(errors@));
    w.begin_array();
    let mut i: usize = 0;
    assert(all.take(0) == Seq::<Json>::empty());
    while i < errors.len()
        invariant
            i <= errors.len(),
            all == errors_json(views(errors@)),
            in_array(base, w@, all.take(i as int)),
        decreases errors.len() - i,
    {
        proof {
            lemma_element(w@, all[i as int]);
        }
        assert(all[i as int] == error_json(errors@[i as int]@));
        write_error(w, &errors[i]);
        assert(all.take(i + 1) == all.take(i as int).push(all[i as int]));
        i = i + 1;
    }
    assert(all.take(i as int) == all);
    w.end_array();
}

} // verus!
