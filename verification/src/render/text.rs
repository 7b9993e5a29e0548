//! A snapshot as aligned text for people.

use vstd::prelude::*;

use crate::addr::address_text;
use crate::delta::{DiskRateView, NetRate, Rates, RatesView};
use crate::error::{Error, ErrorView};
use crate::number::{decimal, decimal_string};
use crate::render::document::{chars, Document, Glyph, Piece, Quantity, QuantityView};
use crate::render::json::{document_view, format_rfc3339, rfc3339_of};
use crate::render::schema::{
    core_percent, core_share, disk_rate, net_rate, protocol_name, protocol_text, rates_view,
    total_percent, total_share,
};
use crate::sample::{
    option_view, severity_of, tcp_state_name, views, CollectorError, CollectorErrorView,
    Connection, ConnectionSample, ConnectionSampleView, ConnectionView, CpuSample, CpuSampleView,
    DiskDevice, DiskDeviceView, DiskSample, DiskSampleView, FanSensor, FanSensorView, Gpu,
    GpuSample, GpuSampleView, GpuVendor, GpuView, HwmonChip, HwmonChipView, LoadAvg, LoadAvgView,
    MemorySample, MountPoint, MountPointView, NetInterface, NetInterfaceView, NetSample,
    NetSampleView, Snapshot, SnapshotView, TempSensor, TempSensorView, TempSeverity,
    ThermalSample, ThermalSampleView,
};
use crate::text::{chars_of, first_of, string_of, text2, text_option_view};
use crate::units::{percent_view, share, Bytes, KiloHertz, Percent};

verus! {

/// `s` cut to `width` characters, or filled with blanks up to it.
pub open spec fn padded(s: Seq<char>, width: nat) -> Seq<char> {
    let kept = first_of(s, width);
    kept + Seq::new((width - kept.len()) as nat, |i: int| ' ')
}

/// Fills a text with blanks to `width` characters, and cuts a longer one, so
/// that columns stay aligned.
pub fn pad(s: &str, width: usize) -> (r: String)
    ensures
        r@ == padded(s@, width as nat),
{
    let cs = chars_of(s);
    let n: usize = if cs.len() <= width {
        cs.len()
    } else {
        width
    };
    let kept: &[char] = &cs.as_slice()[0..n];
    assert(kept@ == first_of(s@, width as nat));
    let mut out: String = string_of(kept);
    let mut k: usize = n;
    while k < width
        invariant
            n <= k <= width,
            out@ == first_of(s@, width as nat) + Seq::new((k - n) as nat, |i: int| ' '),
        decreases width - k,
    {
        out.push(' ');
        k = k + 1;
        assert(out@ == first_of(s@, width as nat) + Seq::new((k - n) as nat, |i: int| ' '));
    }
    out
}

/// Fills or cuts exactly to the width.
pub proof fn padding_is_exact(s: Seq<char>, width: nat)
    ensures
        padded(s, width).len() == width,
{
}

pub open spec fn fixed(value: QuantityView, decimals: usize, width: usize) -> Seq<Glyph> {
    seq![Glyph::Fixed { value, decimals, width }]
}

pub open spec fn bar(share: (nat, nat)) -> Seq<Glyph> {
    seq![Glyph::Bar { share, width: 20 }]
}

pub open spec fn size(b: Bytes) -> Seq<Glyph> {
    seq![Glyph::Size(b)]
}

// ---------------------------------------------------------------------------
// Processor
// ---------------------------------------------------------------------------
pub open spec fn load_text(load: Option<LoadAvgView>) -> Seq<Glyph> {
    match load {
        Some(l) => chars("  load avg: "@) + fixed(QuantityView::Numeral(l.one), 2, 0) + chars(" "@)
            + fixed(QuantityView::Numeral(l.five), 2, 0) + chars(" "@) + fixed(
            QuantityView::Numeral(l.fifteen),
            2,
            0,
        ) + chars("\n"@),
        None => seq![],
    }
}

pub open spec fn busy_text(busy: Option<(nat, nat)>) -> Seq<Glyph> {
    match busy {
        Some(p) => chars("  busy: "@) + fixed(QuantityView::Share(p), 1, 5) + chars("% "@) + bar(p)
            + chars("\n"@),
        None => seq![],
    }
}

pub open spec fn core_busy_text(busy: Option<(nat, nat)>) -> Seq<Glyph> {
    match busy {
        Some(p) => fixed(QuantityView::Share(p), 1, 5) + chars("%"@),
        None => chars("  n/a"@),
    }
}

pub open spec fn freq_text(freq: Option<KiloHertz>) -> Seq<Glyph> {
    match freq {
        Some(f) => fixed(QuantityView::Gigahertz(f), 2, 0) + chars(" GHz"@),
        None => chars("n/a"@),
    }
}

pub open spec fn core_text(i: int, freq: Option<KiloHertz>, rates: Option<RatesView>) -> Seq<Glyph> {
    chars("    "@) + chars(padded("core"@ + decimal(i as nat), 7)) + chars(" "@) + core_busy_text(
        core_share(rates, i),
    ) + chars(" "@) + freq_text(freq) + chars("\n"@)
}

pub open spec fn cores_text(freqs: Seq<Option<KiloHertz>>, rates: Option<RatesView>) -> Seq<Glyph>
    decreases freqs.len(),
{
    if freqs.len() == 0 {
        seq![]
    } else {
        cores_text(freqs.drop_last(), rates) + core_text(freqs.len() - 1, freqs.last(), rates)
    }
}

pub open spec fn model_text(model: Option<Seq<char>>) -> Seq<Glyph> {
    match model {
        Some(m) => chars("  "@) + chars(m) + chars("\n"@),
        None => seq![],
    }
}

pub open spec fn cpu_text(cpu: CpuSampleView, rates: Option<RatesView>) -> Seq<Glyph> {
    chars("CPU\n"@) + model_text(cpu.model) + core_count_text(cpu.per_core.len()) + (load_text(
        cpu.load_avg,
    ) + busy_text(total_share(rates))) + cores_text(cpu.freq_khz, rates) + chars("\n"@)
}

pub open spec fn core_count_text(n: nat) -> Seq<Glyph> {
    chars("  cores: "@) + chars(decimal(n)) + chars("\n"@)
}

fn write_load(d: &mut Document, l: &LoadAvg)
    ensures
        final(d)@ == old(d)@ + load_text(Some(l@)),
{
    let ghost before = d@;
    d.text("  load avg: ");
    d.add(Piece::Fixed { value: Quantity::Numeral(l.one.clone()), decimals: 2, width: 0 });
    d.text(" ");
    d.add(Piece::Fixed { value: Quantity::Numeral(l.five.clone()), decimals: 2, width: 0 });
    d.text(" ");
    d.add(Piece::Fixed { value: Quantity::Numeral(l.fifteen.clone()), decimals: 2, width: 0 });
    d.text("\n");
    assert(d@ == before + load_text(Some(l@)));
}

fn write_busy(d: &mut Document, p: Percent)
    ensures
        final(d)@ == old(d)@ + busy_text(Some(p@)),
{
    let ghost before = d@;
    d.text("  busy: ");
    d.add(Piece::Fixed { value: Quantity::Share(p), decimals: 1, width: 5 });
    d.text("% ");
    d.add(Piece::Bar { share: p, width: 20 });
    d.text("\n");
    assert(d@ == before + busy_text(Some(p@)));
}

fn write_core_busy(d: &mut Document, busy: Option<Percent>)
    ensures
        final(d)@ == old(d)@ + core_busy_text(percent_view(busy)),
{
    let ghost before = d@;
    match busy {
        Some(p) => {
            d.add(Piece::Fixed { value: Quantity::Share(p), decimals: 1, width: 5 });
            d.text("%");
        },
        None => {
            d.text("  n/a");
        },
    }
    assert(d@ == before + core_busy_text(percent_view(busy)));
}

fn write_freq(d: &mut Document, freq: Option<KiloHertz>)
    ensures
        final(d)@ == old(d)@ + freq_text(freq),
{
    let ghost before = d@;
    match freq {
        Some(f) => {
            d.add(Piece::Fixed { value: Quantity::Gigahertz(f), decimals: 2, width: 0 });
            d.text(" GHz");
        },
        None => {
            d.text("n/a");
        },
    }
    assert(d@ == before + freq_text(freq));
}

fn write_core(d: &mut Document, i: usize, freq: Option<KiloHertz>, rates: Option<&Rates>)
    ensures
        final(d)@ == old(d)@ + core_text(i as int, freq, rates_view(rates)),
{
    let ghost before = d@;
    d.text("    ");
    let n = decimal_string(i as u64);
    let name = text2("core", n.as_str());
    let name = pad(name.as_str(), 7);
    d.text(name.as_str());
    d.text(" ");
    write_core_busy(d, core_percent(rates, i));
    d.text(" ");
    write_freq(d, freq);
    d.text("\n");
    assert(d@ == before + core_text(i as int, freq, rates_view(rates)));
}

fn write_cores(d: &mut Document, freqs: &Vec<Option<KiloHertz>>, rates: Option<&Rates>)
    ensures
        final(d)@ == old(d)@ + cores_text(freqs@, rates_view(rates)),
{
    let ghost before = d@;
    let ghost rv = rates_view(rates);
    let mut i: usize = 0;
    assert(d@ == before + cores_text(freqs@.take(0), rv));
    while i < freqs.len()
        invariant
            i <= freqs.len(),
            rv == rates_view(rates),
            d@ == before + cores_text(freqs@.take(i as int), rv),
        decreases freqs.len() - i,
    {
        write_core(d, i, freqs[i], rates);
        assert(freqs@.take(i + 1).drop_last() == freqs@.take(i as int));
        assert(d@ == before + cores_text(freqs@.take(i + 1), rv));
        i = i + 1;
    }
    assert(freqs@.take(i as int) == freqs@);
}

fn write_model(d: &mut Document, model: &Option<String>)
    ensures
        final(d)@ == old(d)@ + model_text(text_option_view(*model)),
{
    let ghost before = d@;
    if let Some(model) = model {
        d.text("  ");
        d.text(model.as_str());
        d.text("\n");
    }
    assert(d@ == before + model_text(text_option_view(*model)));
}

fn write_core_count(d: &mut Document, n: usize)
    ensures
        final(d)@ == old(d)@ + core_count_text(n as nat),
{
    let ghost before = d@;
    d.text("  cores: ");
    let text = decimal_string(n as u64);
    d.text(text.as_str());
    d.text("\n");
    assert(d@ == before + core_count_text(n as nat));
}

fn write_load_and_busy(d: &mut Document, load: &Option<LoadAvg>, rates: Option<&Rates>)
    ensures
        final(d)@ == old(d)@ + (load_text(option_view(*load)) + busy_text(
            total_share(rates_view(rates)),
        )),
{
    let ghost before = d@;
    if let Some(l) = load {
        write_load(d, l);
    }
    assert(d@ == before + load_text(option_view(*load)));
    let ghost a = d@;
    if let Some(p) = total_percent(rates) {
        write_busy(d, p);
    }
    assert(d@ == a + busy_text(total_share(rates_view(rates))));
    assert(d@ == before + (load_text(option_view(*load)) + busy_text(
        total_share(rates_view(rates)),
    )));
}

fn write_cpu(d: &mut Document, cpu: &CpuSample, rates: Option<&Rates>)
    ensures
        final(d)@ == old(d)@ + cpu_text(cpu@, rates_view(rates)),
{
    let ghost before = d@;
    d.text("CPU\n");
    write_model(d, &cpu.model);
    write_core_count(d, cpu.per_core.len());
    write_load_and_busy(d, &cpu.load_avg, rates);
    write_cores(d, &cpu.freq_khz, rates);
    d.text("\n");
    proof {
        let x = model_text(cpu@.model);
        let y = core_count_text(cpu.per_core@.len());
        let z = load_text(cpu@.load_avg) + busy_text(total_share(rates_view(rates)));
        let c = cores_text(cpu.freq_khz@, rates_view(rates));
        assert(before + chars("CPU\n"@) + x + y + z + c + chars("\n"@) == before + (chars(
            "CPU\n"@,
        ) + x + y + z + c + chars("\n"@)));
    }
}

// ---------------------------------------------------------------------------
// Memory
// ---------------------------------------------------------------------------
/// The share of the memory that is used; none of it on a machine that has
/// none.
pub open spec fn shown_share(m: MemorySample) -> (nat, nat) {
    match share(m.spec_used().0 as nat, m.total.0 as nat) {
        Some(p) => p,
        None => (0, 100),
    }
}

pub open spec fn labelled(label: Seq<char>) -> Seq<Glyph> {
    chars("  "@) + chars(padded(label, 10)) + chars(" "@)
}

pub open spec fn swap_text(m: MemorySample) -> Seq<Glyph> {
    if m.swap_total.0 > 0 {
        labelled("swap"@) + size(m.spec_swap_used()) + chars(" / "@) + size(m.swap_total) + chars(
            "\n"@,
        )
    } else {
        seq![]
    }
}

pub open spec fn size_line(label: Seq<char>, b: Bytes) -> Seq<Glyph> {
    labelled(label) + size(b) + chars("\n"@)
}

pub open spec fn used_line(m: MemorySample) -> Seq<Glyph> {
    labelled("used"@) + size(m.spec_used()) + chars(" ("@) + fixed(
        QuantityView::Share(shown_share(m)),
        1,
        0,
    ) + chars("%) "@) + bar(shown_share(m)) + chars("\n"@)
}

pub open spec fn memory_text(m: MemorySample) -> Seq<Glyph> {
    chars("Memory\n"@) + size_line("total"@, m.total) + used_line(m) + size_line(
        "available"@,
        m.available,
    ) + swap_text(m) + chars("\n"@)
}

fn write_label(d: &mut Document, label: &str)
    ensures
        final(d)@ == old(d)@ + labelled(label@),
{
    let ghost before = d@;
    d.text("  ");
    let text = pad(label, 10);
    d.text(text.as_str());
    d.text(" ");
    assert(d@ == before + labelled(label@));
}

fn write_size_line(d: &mut Document, label: &str, b: Bytes)
    ensures
        final(d)@ == old(d)@ + size_line(label@, b),
{
    let ghost before = d@;
    write_label(d, label);
    d.add(Piece::Size(b));
    d.text("\n");
    assert(d@ == before + size_line(label@, b));
}

fn write_used_line(d: &mut Document, m: &MemorySample)
    ensures
        final(d)@ == old(d)@ + used_line(*m),
{
    let ghost before = d@;
    let used = match m.used_percent() {
        Some(p) => p,
        None => Percent::whole_number(0),
    };
    assert(used@ == shown_share(*m));
    write_label(d, "used");
    d.add(Piece::Size(m.used()));
    d.text(" (");
    d.add(Piece::Fixed { value: Quantity::Share(used), decimals: 1, width: 0 });
    d.text("%) ");
    d.add(Piece::Bar { share: used, width: 20 });
    d.text("\n");
    assert(d@ == before + used_line(*m));
}

fn write_swap(d: &mut Document, m: &MemorySample)
    ensures
        final(d)@ == old(d)@ + swap_text(*m),
{
    let ghost before = d@;
    if m.swap_total.as_u64() > 0 {
        write_label(d, "swap");
        d.add(Piece::Size(m.swap_used()));
        d.text(" / ");
        d.add(Piece::Size(m.swap_total));
        d.text("\n");
    }
    assert(d@ == before + swap_text(*m));
}

fn write_memory(d: &mut Document, m: &MemorySample)
    ensures
        final(d)@ == old(d)@ + memory_text(*m),
{
    let ghost before = d@;
    d.text("Memory\n");
    write_size_line(d, "total", m.total);
    write_used_line(d, m);
    write_size_line(d, "available", m.available);
    write_swap(d, m);
    d.text("\n");
    proof {
        let t = size_line("total"@, m.total);
        let u = used_line(*m);
        let a = size_line("available"@, m.available);
        let w = swap_text(*m);
        assert(before + chars("Memory\n"@) + t + u + a + w + chars("\n"@) == before + (chars(
            "Memory\n"@,
        ) + t + u + a + w + chars("\n"@)));
    }
}

// ---------------------------------------------------------------------------
// Temperatures and fans
// ---------------------------------------------------------------------------
pub open spec fn marker(s: TempSeverity) -> Seq<char> {
    match s {
        TempSeverity::Critical => "!!"@,
        TempSeverity::Warning => "! "@,
        TempSeverity::Normal => "  "@,
        TempSeverity::Unknown => "  "@,
    }
}

pub open spec fn temp_text(t: TempSensorView) -> Seq<Glyph> {
    chars("    "@) + chars(padded(t.label, 24)) + chars(" "@) + fixed(
        QuantityView::Celsius(t.value),
        1,
        6,
    ) + chars(" C "@) + chars(marker(severity_of(t))) + chars("\n"@)
}

pub open spec fn fan_text(f: FanSensorView) -> Seq<Glyph> {
    chars("    "@) + chars(padded(f.label, 24)) + chars(" "@) + chars(decimal(f.rpm.0 as nat))
        + chars(" rpm\n"@)
}

pub open spec fn temps_text(temps: Seq<TempSensorView>) -> Seq<Glyph>
    decreases temps.len(),
{
    if temps.len() == 0 {
        seq![]
    } else {
        temps_text(temps.drop_last()) + temp_text(temps.last())
    }
}

pub open spec fn fans_text(fans: Seq<FanSensorView>) -> Seq<Glyph>
    decreases fans.len(),
{
    if fans.len() == 0 {
        seq![]
    } else {
        fans_text(fans.drop_last()) + fan_text(fans.last())
    }
}

pub open spec fn chip_text(c: HwmonChipView) -> Seq<Glyph> {
    chars("  "@) + chars(c.name) + chars("\n"@) + temps_text(c.temps) + fans_text(c.fans)
}

pub open spec fn chips_text(chips: Seq<HwmonChipView>) -> Seq<Glyph>
    decreases chips.len(),
{
    if chips.len() == 0 {
        seq![]
    } else {
        chips_text(chips.drop_last()) + chip_text(chips.last())
    }
}

pub open spec fn thermal_text(chips: Seq<HwmonChipView>) -> Seq<Glyph> {
    chars("Thermal\n"@) + chips_text(chips) + chars("\n"@)
}

fn write_temp(d: &mut Document, t: &TempSensor)
    ensures
        final(d)@ == old(d)@ + temp_text(t@),
{
    let ghost before = d@;
    d.text("    ");
    let label = pad(t.label.as_str(), 24);
    d.text(label.as_str());
    d.text(" ");
    d.add(Piece::Fixed { value: Quantity::Celsius(t.value), decimals: 1, width: 6 });
    d.text(" C ");
    let mark = match t.severity() {
        TempSeverity::Critical => "!!",
        TempSeverity::Warning => "! ",
        TempSeverity::Normal => "  ",
        TempSeverity::Unknown => "  ",
    };
    d.text(mark);
    d.text("\n");
    assert(d@ == before + temp_text(t@));
}

fn write_fan(d: &mut Document, f: &FanSensor)
    ensures
        final(d)@ == old(d)@ + fan_text(f@),
{
    let ghost before = d@;
    d.text("    ");
    let label = pad(f.label.as_str(), 24);
    d.text(label.as_str());
    d.text(" ");
    let n = decimal_string(f.rpm.as_u64());
    d.text(n.as_str());
    d.text(" rpm\n");
    assert(d@ == before + fan_text(f@));
}

fn write_chip(d: &mut Document, c: &HwmonChip)
    ensures
        final(d)@ == old(d)@ + chip_text(c@),
{
    let ghost before = d@;
    d.text("  ");
    d.text(c.name.as_str());
    d.text("\n");
    let ghost head = d@;
    let ghost ts = views(c.temps@);
    let mut i: usize = 0;
    assert(d@ == head + temps_text(ts.take(0)));
    while i < c.temps.len()
        invariant
            i <= c.temps@.len(),
            ts == views(c.temps@),
            d@ == head + temps_text(ts.take(i as int)),
        decreases c.temps@.len() - i,
    {
        write_temp(d, &c.temps[i]);
        assert(ts.take(i + 1).drop_last() == ts.take(i as int));
        assert(d@ == head + temps_text(ts.take(i + 1)));
        i = i + 1;
    }
    assert(ts.take(i as int) == ts);
    let ghost middle = d@;
    let ghost fs = views(c.fans@);
    let mut k: usize = 0;
    assert(d@ == middle + fans_text(fs.take(0)));
    while k < c.fans.len()
        invariant
            k <= c.fans@.len(),
            fs == views(c.fans@),
            d@ == middle + fans_text(fs.take(k as int)),
        decreases c.fans@.len() - k,
    {
        write_fan(d, &c.fans[k]);
        assert(fs.take(k + 1).drop_last() == fs.take(k as int));
        assert(d@ == middle + fans_text(fs.take(k + 1)));
        k = k + 1;
    }
    assert(fs.take(k as int) == fs);
    assert(d@ == before + chip_text(c@));
}

fn write_thermal(d: &mut Document, s: &ThermalSample)
    ensures
        final(d)@ == old(d)@ + thermal_text(s@.chips),
{
    let ghost before = d@;
    d.text("Thermal\n");
    let ghost head = d@;
    let ghost cs = s@.chips;
    let mut i: usize = 0;
    assert(d@ == head + chips_text(cs.take(0)));
    while i < s.chips.len()
        invariant
            i <= s.chips@.len(),
            cs == views(s.chips@),
            d@ == head + chips_text(cs.take(i as int)),
        decreases s.chips@.len() - i,
    {
        write_chip(d, &s.chips[i]);
        assert(cs.take(i + 1).drop_last() == cs.take(i as int));
        assert(d@ == head + chips_text(cs.take(i + 1)));
        i = i + 1;
    }
    assert(cs.take(i as int) == cs);
    d.text("\n");
    assert(d@ == before + thermal_text(s@.chips));
}

// ---------------------------------------------------------------------------
// Disks
// ---------------------------------------------------------------------------
pub open spec fn util_text(u: Option<(nat, nat)>) -> Seq<Glyph> {
    match u {
        Some(p) => fixed(QuantityView::Share(p), 1, 0) + chars("%"@),
        None => chars("n/a"@),
    }
}

pub open spec fn disk_line(d: DiskDeviceView, r: Option<DiskRateView>) -> Seq<Glyph> {
    match r {
        Some(r) => labelled(d.name) + chars("read "@) + seq![Glyph::Throughput(r.read)] + chars(
            " write "@,
        ) + seq![Glyph::Throughput(r.write)] + chars(" util "@) + util_text(r.utilisation) + chars(
            "\n"@,
        ),
        None => labelled(d.name) + chars("(no rate yet)\n"@),
    }
}

pub open spec fn disk_lines(devices: Seq<DiskDeviceView>, rates: Option<RatesView>) -> Seq<Glyph>
    decreases devices.len(),
{
    if devices.len() == 0 {
        seq![]
    } else {
        disk_lines(devices.drop_last(), rates) + disk_line(
            devices.last(),
            disk_rate(rates, devices.last().name),
        )
    }
}

pub open spec fn mount_line(m: MountPointView) -> Seq<Glyph> {
    chars("  "@) + chars(m.source) + chars(" -> "@) + chars(m.mount_point) + chars(" ("@) + chars(
        m.fs_type,
    ) + chars(")\n"@)
}

pub open spec fn mount_lines(mounts: Seq<MountPointView>) -> Seq<Glyph>
    decreases mounts.len(),
{
    if mounts.len() == 0 {
        seq![]
    } else {
        mount_lines(mounts.drop_last()) + mount_line(mounts.last())
    }
}

pub open spec fn disk_text(s: DiskSampleView, rates: Option<RatesView>) -> Seq<Glyph> {
    chars("Disk\n"@) + disk_lines(s.devices, rates) + mount_lines(s.mounts) + chars("\n"@)
}

fn write_disk_line(d: &mut Document, dev: &DiskDevice, rates: Option<&Rates>)
    ensures
        final(d)@ == old(d)@ + disk_line(dev@, disk_rate(rates_view(rates), dev@.name)),
{
    let ghost before = d@;
    let found = match rates {
        Some(r) => r.disk.get(dev.name.as_str()),
        None => None,
    };
    write_label(d, dev.name.as_str());
    match found {
        Some(r) => {
            d.text("read ");
            d.add(Piece::Throughput(r.read));
            d.text(" write ");
            d.add(Piece::Throughput(r.write));
            d.text(" util ");
            let ghost a = d@;
            match r.utilisation {
                Some(p) => {
                    d.add(Piece::Fixed { value: Quantity::Share(p), decimals: 1, width: 0 });
                    d.text("%");
                },
                None => {
                    d.text("n/a");
                },
            }
            assert(d@ == a + util_text(r@.utilisation));
            d.text("\n");
        },
        None => {
            d.text("(no rate yet)\n");
        },
    }
    assert(d@ == before + disk_line(dev@, disk_rate(rates_view(rates), dev@.name)));
}

fn write_mount_line(d: &mut Document, m: &MountPoint)
    ensures
        final(d)@ == old(d)@ + mount_line(m@),
{
    let ghost before = d@;
    d.text("  ");
    d.text(m.source.as_str());
    d.text(" -> ");
    d.text(m.mount_point.as_str());
    d.text(" (");
    d.text(m.fs_type.as_str());
    d.text(")\n");
    assert(d@ == before + mount_line(m@));
}

fn write_disk(d: &mut Document, s: &DiskSample, rates: Option<&Rates>)
    ensures
        final(d)@ == old(d)@ + disk_text(s@, rates_view(rates)),
{
    let ghost before = d@;
    let ghost rv = rates_view(rates);
    d.text("Disk\n");
    let ghost head = d@;
    let ghost ds = s@.devices;
    let mut i: usize = 0;
    assert(d@ == head + disk_lines(ds.take(0), rv));
    while i < s.devices.len()
        invariant
            i <= s.devices@.len(),
            ds == views(s.devices@),
            rv == rates_view(rates),
            d@ == head + disk_lines(ds.take(i as int), rv),
        decreases s.devices@.len() - i,
    {
        write_disk_line(d, &s.devices[i], rates);
        assert(ds.take(i + 1).drop_last() == ds.take(i as int));
        assert(d@ == head + disk_lines(ds.take(i + 1), rv));
        i = i + 1;
    }
    assert(ds.take(i as int) == ds);
    let ghost middle = d@;
    let ghost ms = s@.mounts;
    let mut k: usize = 0;
    assert(d@ == middle + mount_lines(ms.take(0)));
    while k < s.mounts.len()
        invariant
            k <= s.mounts@.len(),
            ms == views(s.mounts@),
            d@ == middle + mount_lines(ms.take(k as int)),
        decreases s.mounts@.len() - k,
    {
        write_mount_line(d, &s.mounts[k]);
        assert(ms.take(k + 1).drop_last() == ms.take(k as int));
        assert(d@ == middle + mount_lines(ms.take(k + 1)));
        k = k + 1;
    }
    assert(ms.take(k as int) == ms);
    d.text("\n");
    assert(d@ == before + disk_text(s@, rv));
}

// ---------------------------------------------------------------------------
// Network interfaces
// ---------------------------------------------------------------------------
pub open spec fn shown_state(state: Option<Seq<char>>) -> Seq<char> {
    match state {
        Some(s) => s,
        None => "?"@,
    }
}

pub open spec fn interface_line(i: NetInterfaceView, r: Option<NetRate>) -> Seq<Glyph> {
    chars("  "@) + chars(padded(i.name, 12)) + chars(" ["@) + chars(shown_state(i.operstate))
        + chars("] "@) + match r {
        Some(r) => chars("rx "@) + seq![Glyph::Throughput(r.rx)] + chars(" tx "@) + seq![
            Glyph::Throughput(r.tx),
        ] + chars("\n"@),
        None => chars("(no rate yet)\n"@),
    }
}

pub open spec fn interface_lines(interfaces: Seq<NetInterfaceView>, rates: Option<RatesView>) -> Seq<
    Glyph,
>
    decreases interfaces.len(),
{
    if interfaces.len() == 0 {
        seq![]
    } else {
        interface_lines(interfaces.drop_last(), rates) + interface_line(
            interfaces.last(),
            net_rate(rates, interfaces.last().name),
        )
    }
}

pub open spec fn net_text(interfaces: Seq<NetInterfaceView>, rates: Option<RatesView>) -> Seq<Glyph> {
    chars("Net\n"@) + interface_lines(interfaces, rates) + chars("\n"@)
}

fn write_interface_line(d: &mut Document, i: &NetInterface, rates: Option<&Rates>)
    ensures
        final(d)@ == old(d)@ + interface_line(i@, net_rate(rates_view(rates), i@.name)),
{
    let ghost before = d@;
    let found = match rates {
        Some(r) => r.net.get(i.name.as_str()),
        None => None,
    };
    d.text("  ");
    let name = pad(i.name.as_str(), 12);
    d.text(name.as_str());
    d.text(" [");
    match &i.operstate {
        Some(state) => {
            d.text(state.as_str());
        },
        None => {
            d.text("?");
        },
    }
    d.text("] ");
    match found {
        Some(r) => {
            d.text("rx ");
            d.add(Piece::Throughput(r.rx));
            d.text(" tx ");
            d.add(Piece::Throughput(r.tx));
            d.text("\n");
        },
        None => {
            d.text("(no rate yet)\n");
        },
    }
    assert(d@ == before + interface_line(i@, net_rate(rates_view(rates), i@.name)));
}

fn write_net(d: &mut Document, s: &NetSample, rates: Option<&Rates>)
    ensures
        final(d)@ == old(d)@ + net_text(s@.interfaces, rates_view(rates)),
{
    let ghost before = d@;
    let ghost rv = rates_view(rates);
    d.text("Net\n");
    let ghost head = d@;
    let ghost is = s@.interfaces;
    let mut i: usize = 0;
    assert(d@ == head + interface_lines(is.take(0), rv));
    while i < s.interfaces.len()
        invariant
            i <= s.interfaces@.len(),
            is == views(s.interfaces@),
            rv == rates_view(rates),
            d@ == head + interface_lines(is.take(i as int), rv),
        decreases s.interfaces@.len() - i,
    {
        write_interface_line(d, &s.interfaces[i], rates);
        assert(is.take(i + 1).drop_last() == is.take(i as int));
        assert(d@ == head + interface_lines(is.take(i + 1), rv));
        i = i + 1;
    }
    assert(is.take(i as int) == is);
    d.text("\n");
    assert(d@ == before + net_text(s@.interfaces, rv));
}

// ---------------------------------------------------------------------------
// Graphics cards
// ---------------------------------------------------------------------------
pub open spec fn vendor_title(v: GpuVendor) -> Seq<char> {
    match v {
        GpuVendor::Unknown => "Unknown"@,
        GpuVendor::Amd => "Amd"@,
        GpuVendor::Intel => "Intel"@,
        GpuVendor::Nvidia => "Nvidia"@,
    }
}

pub open spec fn vram_text(g: GpuView) -> Seq<Glyph> {
    match (g.vram_used, g.vram_total) {
        (Some(used), Some(total)) => chars("    vram "@) + size(used) + chars(" / "@) + size(total)
            + chars("\n"@),
        _ => seq![],
    }
}

pub open spec fn gpu_temp_text(g: GpuView) -> Seq<Glyph> {
    match g.temp {
        Some(t) => chars("    temp "@) + fixed(QuantityView::Celsius(t), 1, 0) + chars(" C\n"@),
        None => seq![],
    }
}

pub open spec fn gpu_freq_text(g: GpuView) -> Seq<Glyph> {
    match g.freq_khz {
        Some(f) => chars("    freq "@) + fixed(QuantityView::Gigahertz(f), 2, 0) + chars(" GHz\n"@),
        None => seq![],
    }
}

pub open spec fn gpu_line(g: GpuView) -> Seq<Glyph> {
    chars("  "@) + chars(g.name) + chars(" "@) + chars(vendor_title(g.vendor)) + chars(" busy "@)
        + util_text(g.busy) + chars("\n"@) + vram_text(g) + gpu_temp_text(g) + gpu_freq_text(g)
}

pub open spec fn gpu_lines(gpus: Seq<GpuView>) -> Seq<Glyph>
    decreases gpus.len(),
{
    if gpus.len() == 0 {
        seq![]
    } else {
        gpu_lines(gpus.drop_last()) + gpu_line(gpus.last())
    }
}

pub open spec fn gpu_text(gpus: Seq<GpuView>) -> Seq<Glyph> {
    chars("GPU\n"@) + gpu_lines(gpus) + chars("\n"@)
}

fn write_gpu_head(d: &mut Document, g: &Gpu)
    ensures
        final(d)@ == old(d)@ + (chars("  "@) + chars(g@.name) + chars(" "@) + chars(
            vendor_title(g@.vendor),
        ) + chars(" busy "@) + util_text(g@.busy) + chars("\n"@)),
{
    let ghost before = d@;
    d.text("  ");
    d.text(g.name.as_str());
    d.text(" ");
    let vendor = match g.vendor {
        GpuVendor::Unknown => "Unknown",
        GpuVendor::Amd => "Amd",
        GpuVendor::Intel => "Intel",
        GpuVendor::Nvidia => "Nvidia",
    };
    d.text(vendor);
    d.text(" busy ");
    let ghost a = d@;
    match g.busy {
        Some(p) => {
            d.add(Piece::Fixed { value: Quantity::Share(p), decimals: 1, width: 0 });
            d.text("%");
        },
        None => {
            d.text("n/a");
        },
    }
    assert(d@ == a + util_text(g@.busy));
    d.text("\n");
    assert(d@ == before + (chars("  "@) + chars(g@.name) + chars(" "@) + chars(
        vendor_title(g@.vendor),
    ) + chars(" busy "@) + util_text(g@.busy) + chars("\n"@)));
}

fn write_vram(d: &mut Document, g: &Gpu)
    ensures
        final(d)@ == old(d)@ + vram_text(g@),
{
    let ghost before = d@;
    if let (Some(used), Some(total)) = (g.vram_used, g.vram_total) {
        d.text("    vram ");
        d.add(Piece::Size(used));
        d.text(" / ");
        d.add(Piece::Size(total));
        d.text("\n");
    }
    assert(d@ == before + vram_text(g@));
}

fn write_gpu_temp(d: &mut Document, g: &Gpu)
    ensures
        final(d)@ == old(d)@ + gpu_temp_text(g@),
{
    let ghost before = d@;
    if let Some(t) = g.temp {
        d.text("    temp ");
        d.add(Piece::Fixed { value: Quantity::Celsius(t), decimals: 1, width: 0 });
        d.text(" C\n");
    }
    assert(d@ == before + gpu_temp_text(g@));
}

fn write_gpu_freq(d: &mut Document, g: &Gpu)
    ensures
        final(d)@ == old(d)@ + gpu_freq_text(g@),
{
    let ghost before = d@;
    if let Some(f) = g.freq_khz {
        d.text("    freq ");
        d.add(Piece::Fixed { value: Quantity::Gigahertz(f), decimals: 2, width: 0 });
        d.text(" GHz\n");
    }
    assert(d@ == before + gpu_freq_text(g@));
}

fn write_gpu_line(d: &mut Document, g: &Gpu)
    ensures
        final(d)@ == old(d)@ + gpu_line(g@),
{
    let ghost before = d@;
    write_gpu_head(d, g);
    write_vram(d, g);
    write_gpu_temp(d, g);
    write_gpu_freq(d, g);
    assert(d@ == before + gpu_line(g@));
}

fn write_gpu(d: &mut Document, s: &GpuSample)
    ensures
        final(d)@ == old(d)@ + gpu_text(s@.gpus),
{
    let ghost before = d@;
    d.text("GPU\n");
    let ghost head = d@;
    let ghost gs = s@.gpus;
    let mut i: usize = 0;
    assert(d@ == head + gpu_lines(gs.take(0)));
    while i < s.gpus.len()
        invariant
            i <= s.gpus@.len(),
            gs == views(s.gpus@),
            d@ == head + gpu_lines(gs.take(i as int)),
        decreases s.gpus@.len() - i,
    {
        write_gpu_line(d, &s.gpus[i]);
        assert(gs.take(i + 1).drop_last() == gs.take(i as int));
        assert(d@ == head + gpu_lines(gs.take(i + 1)));
        i = i + 1;
    }
    assert(gs.take(i as int) == gs);
    d.text("\n");
    assert(d@ == before + gpu_text(s@.gpus));
}

// ---------------------------------------------------------------------------
// Connections
// ---------------------------------------------------------------------------
pub open spec fn owner_text(c: ConnectionView) -> Seq<Glyph> {
    match (c.program, c.pid) {
        (Some(program), Some(pid)) => chars(program) + chars("["@) + chars(decimal(pid as nat))
            + chars("]"@),
        _ => chars("uid "@) + chars(decimal(c.uid as nat)),
    }
}

pub open spec fn state_text(c: ConnectionView) -> Seq<Glyph> {
    match c.state {
        Some(s) => chars(" ["@) + chars(tcp_state_name(s)) + chars("]"@),
        None => seq![],
    }
}

pub open spec fn endpoints_text(c: ConnectionView) -> Seq<Glyph> {
    chars(address_text(c.local_addr)) + chars(":"@) + chars(decimal(c.local_port as nat)) + chars(
        " -> "@,
    ) + chars(address_text(c.remote_addr)) + chars(":"@) + chars(decimal(c.remote_port as nat))
}

pub open spec fn connection_line(c: ConnectionView) -> Seq<Glyph> {
    chars("  "@) + owner_text(c) + chars(" "@) + chars(protocol_name(c.protocol)) + chars(" "@)
        + endpoints_text(c) + state_text(c) + chars("\n"@)
}

pub open spec fn connection_lines(connections: Seq<ConnectionView>) -> Seq<Glyph>
    decreases connections.len(),
{
    if connections.len() == 0 {
        seq![]
    } else {
        connection_lines(connections.drop_last()) + connection_line(connections.last())
    }
}

pub open spec fn connections_text(connections: Seq<ConnectionView>) -> Seq<Glyph> {
    chars("Connections\n"@) + connection_lines(connections) + chars("\n"@)
}

fn write_owner(d: &mut Document, c: &Connection)
    ensures
        final(d)@ == old(d)@ + owner_text(c@),
{
    let ghost before = d@;
    match (&c.program, c.pid) {
        (Some(program), Some(pid)) => {
            d.text(program.as_str());
            d.text("[");
            let n = decimal_string(pid as u64);
            d.text(n.as_str());
            d.text("]");
        },
        _ => {
            d.text("uid ");
            let n = decimal_string(c.uid as u64);
            d.text(n.as_str());
        },
    }
    assert(d@ == before + owner_text(c@));
}

fn write_endpoints(d: &mut Document, c: &Connection)
    ensures
        final(d)@ == old(d)@ + endpoints_text(c@),
{
    let ghost before = d@;
    let local = c.local_addr.to_string();
    d.text(local.as_str());
    d.text(":");
    let port = decimal_string(c.local_port as u64);
    d.text(port.as_str());
    d.text(" -> ");
    let remote = c.remote_addr.to_string();
    d.text(remote.as_str());
    d.text(":");
    let port = decimal_string(c.remote_port as u64);
    d.text(port.as_str());
    assert(d@ == before + endpoints_text(c@));
}

fn write_connection_line(d: &mut Document, c: &Connection)
    ensures
        final(d)@ == old(d)@ + connection_line(c@),
{
    let ghost before = d@;
    d.text("  ");
    write_owner(d, c);
    d.text(" ");
    d.text(protocol_text(c.protocol));
    d.text(" ");
    write_endpoints(d, c);
    let ghost a = d@;
    if let Some(state) = c.state {
        d.text(" [");
        d.text(state.as_str());
        d.text("]");
    }
    assert(d@ == a + state_text(c@));
    d.text("\n");
    assert(d@ == before + connection_line(c@));
}

fn write_connections(d: &mut Document, s: &ConnectionSample)
    ensures
        final(d)@ == old(d)@ + connections_text(s@.connections),
{
    let ghost before = d@;
    d.text("Connections\n");
    let ghost head = d@;
    let ghost cs = s@.connections;
    let mut i: usize = 0;
    assert(d@ == head + connection_lines(cs.take(0)));
    while i < s.connections.len()
        invariant
            i <= s.connections@.len(),
            cs == views(s.connections@),
            d@ == head + connection_lines(cs.take(i as int)),
        decreases s.connections@.len() - i,
    {
        write_connection_line(d, &s.connections[i]);
        assert(cs.take(i + 1).drop_last() == cs.take(i as int));
        assert(d@ == head + connection_lines(cs.take(i + 1)));
        i = i + 1;
    }
    assert(cs.take(i as int) == cs);
    d.text("\n");
    assert(d@ == before + connections_text(s@.connections));
}

// ---------------------------------------------------------------------------
// The whole snapshot
// ---------------------------------------------------------------------------
pub open spec fn error_lines(errors: Seq<CollectorErrorView>) -> Seq<Glyph>
    decreases errors.len(),
{
    if errors.len() == 0 {
        seq![]
    } else {
        error_lines(errors.drop_last()) + (chars("  "@) + chars(errors.last().collector) + chars(
            ": "@,
        ) + chars(errors.last().message) + chars("\n"@))
    }
}

pub open spec fn errors_text(errors: Seq<CollectorErrorView>, verbose: bool) -> Seq<Glyph> {
    if verbose && errors.len() > 0 {
        chars("Errors\n"@) + error_lines(errors) + chars("\n"@)
    } else {
        seq![]
    }
}

pub open spec fn cpu_section(cpu: Option<CpuSampleView>, rates: Option<RatesView>) -> Seq<Glyph> {
    match cpu {
        Some(c) => cpu_text(c, rates),
        None => seq![],
    }
}

pub open spec fn memory_section(m: Option<MemorySample>) -> Seq<Glyph> {
    match m {
        Some(m) => memory_text(m),
        None => seq![],
    }
}

pub open spec fn thermal_section(t: Option<ThermalSampleView>) -> Seq<Glyph> {
    match t {
        Some(t) => thermal_text(t.chips),
        None => seq![],
    }
}

pub open spec fn disk_section(d: Option<DiskSampleView>, rates: Option<RatesView>) -> Seq<Glyph> {
    match d {
        Some(d) => disk_text(d, rates),
        None => seq![],
    }
}

pub open spec fn net_section(n: Option<NetSampleView>, rates: Option<RatesView>) -> Seq<Glyph> {
    match n {
        Some(n) => net_text(n.interfaces, rates),
        None => seq![],
    }
}

pub open spec fn gpu_section(g: Option<GpuSampleView>) -> Seq<Glyph> {
    match g {
        Some(g) => gpu_text(g.gpus),
        None => seq![],
    }
}

pub open spec fn connections_section(c: Option<ConnectionSampleView>) -> Seq<Glyph> {
    match c {
        Some(c) => connections_text(c.connections),
        None => seq![],
    }
}

/// The sections that a snapshot has, in order; one that it has not leaves no
/// trace.
pub open spec fn sections(s: SnapshotView, rates: Option<RatesView>) -> Seq<Glyph> {
    (cpu_section(s.cpu, rates) + memory_section(s.memory) + thermal_section(s.thermal)) + (
    disk_section(s.disks, rates) + net_section(s.net, rates)) + (gpu_section(s.gpus)
        + connections_section(s.connections))
}

/// What is written of a snapshot: a headline, its sections, and its errors
/// when asked for.
pub open spec fn snapshot_text(s: SnapshotView, rates: Option<RatesView>, verbose: bool) -> Result<
    Seq<Glyph>,
    ErrorView,
> {
    match rfc3339_of(s.taken_at) {
        Err(e) => Err(e),
        Ok(taken_at) => Ok(
            chars("rustmon — "@) + chars(taken_at) + chars("\n\n"@) + sections(s, rates)
                + errors_text(s.errors, verbose),
        ),
    }
}

fn write_errors(d: &mut Document, errors: &Vec<CollectorError>, verbose: bool)
    ensures
        final(d)@ == old(d)@ + errors_text(views(errors@), verbose),
{
    let ghost before = d@;
    let ghost es = views(errors@);
    assert(es.len() == errors@.len());
    if !verbose || errors.len() == 0 {
        assert(before + Seq::<Glyph>::empty() == before);
        return;
    }
    d.text("Errors\n");
    let ghost head = d@;
    let mut i: usize = 0;
    assert(d@ == head + error_lines(es.take(0)));
    while i < errors.len()
        invariant
            i <= errors.len(),
            es == views(errors@),
            d@ == head + error_lines(es.take(i as int)),
        decreases errors.len() - i,
    {
        let ghost a = d@;
        let e = &errors[i];
        d.text("  ");
        d.text(e.collector);
        d.text(": ");
        d.text(e.message.as_str());
        d.text("\n");
        assert(es.take(i + 1).drop_last() == es.take(i as int));
        assert(es.take(i + 1).last() == e@);
        assert(d@ == a + (chars("  "@) + chars(e@.collector) + chars(": "@) + chars(e@.message)
            + chars("\n"@)));
        assert(d@ == head + error_lines(es.take(i + 1)));
        i = i + 1;
    }
    assert(es.take(i as int) == es);
    d.text("\n");
    assert(d@ == before + errors_text(es, verbose));
}

fn write_own_sections(d: &mut Document, s: &Snapshot, rates: Option<&Rates>)
    ensures
        final(d)@ == old(d)@ + (cpu_section(s@.cpu, rates_view(rates)) + memory_section(s@.memory)
            + thermal_section(s@.thermal)),
{
    let ghost before = d@;
    if let Some(c) = &s.cpu {
        write_cpu(d, c, rates);
    }
    assert(d@ == before + cpu_section(s@.cpu, rates_view(rates)));
    let ghost a = d@;
    if let Some(m) = &s.memory {
        write_memory(d, m);
    }
    assert(d@ == a + memory_section(s@.memory));
    let ghost b = d@;
    if let Some(t) = &s.thermal {
        write_thermal(d, t);
    }
    assert(d@ == b + thermal_section(s@.thermal));
    proof {
        let x = cpu_section(s@.cpu, rates_view(rates));
        let y = memory_section(s@.memory);
        let z = thermal_section(s@.thermal);
        assert(before + x + y + z == before + (x + y + z));
    }
}

fn write_rated_sections(d: &mut Document, s: &Snapshot, rates: Option<&Rates>)
    ensures
        final(d)@ == old(d)@ + (disk_section(s@.disks, rates_view(rates)) + net_section(
            s@.net,
            rates_view(rates),
        )),
{
    let ghost before = d@;
    if let Some(x) = &s.disks {
        write_disk(d, x, rates);
    }
    assert(d@ == before + disk_section(s@.disks, rates_view(rates)));
    let ghost a = d@;
    if let Some(n) = &s.net {
        write_net(d, n, rates);
    }
    assert(d@ == a + net_section(s@.net, rates_view(rates)));
    proof {
        let x = disk_section(s@.disks, rates_view(rates));
        let y = net_section(s@.net, rates_view(rates));
        assert(before + x + y == before + (x + y));
    }
}

fn write_last_sections(d: &mut Document, s: &Snapshot)
    ensures
        final(d)@ == old(d)@ + (gpu_section(s@.gpus) + connections_section(s@.connections)),
{
    let ghost before = d@;
    if let Some(g) = &s.gpus {
        write_gpu(d, g);
    }
    assert(d@ == before + gpu_section(s@.gpus));
    let ghost a = d@;
    if let Some(c) = &s.connections {
        write_connections(d, c);
    }
    assert(d@ == a + connections_section(s@.connections));
    proof {
        let x = gpu_section(s@.gpus);
        let y = connections_section(s@.connections);
        assert(before + x + y == before + (x + y));
    }
}

fn write_sections(d: &mut Document, s: &Snapshot, rates: Option<&Rates>)
    ensures
        final(d)@ == old(d)@ + sections(s@, rates_view(rates)),
{
    let ghost before = d@;
    write_own_sections(d, s, rates);
    write_rated_sections(d, s, rates);
    write_last_sections(d, s);
    proof {
        let rv = rates_view(rates);
        let x = cpu_section(s@.cpu, rv) + memory_section(s@.memory) + thermal_section(s@.thermal);
        let y = disk_section(s@.disks, rv) + net_section(s@.net, rv);
        let z = gpu_section(s@.gpus) + connections_section(s@.connections);
        assert(before + x + y + z == before + (x + y + z));
    }
}

/// Writes a snapshot as aligned sections.
pub fn write(snapshot: &Snapshot, rates: Option<&Rates>, verbose: bool) -> (r: Result<
    Document,
    Error,
>)
    ensures
        document_view(r) == snapshot_text(snapshot@, rates_view(rates), verbose),
{
    let taken_at = match format_rfc3339(snapshot.taken_at) {
        Err(e) => return Err(e),
        Ok(text) => text,
    };
    let mut d = Document::new();
    d.text("rustmon — ");
    d.text(taken_at.as_str());
    d.text("\n\n");
    let ghost head = chars("rustmon — "@) + chars(taken_at@) + chars("\n\n"@);
    assert(d@ == head);
    write_sections(&mut d, snapshot, rates);
    write_errors(&mut d, &snapshot.errors, verbose);
    Ok(d)
}

} // verus!
