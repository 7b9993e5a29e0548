//! What the renderers never emit: a character that a terminal would act on.

use vstd::prelude::*;

use crate::addr::{address_text, coloned, dotted, groups, hexadecimal, longest_zeros, IpAddr};
use crate::calendar::{digits, iso_text, moment};
use crate::delta::{DiskRateView, NetRate, RatesView};
use crate::number::{all_digits, decimal, digit_of, lemma_decimal_digits, zero_padded};
use crate::render::document::{chars, letter, Glyph};
use crate::render::json::{
    escaped_strings_are_inert, items_written, json_string, members_written, written, Json,
};
use crate::render::schema::{disk_rate, net_rate, protocol_name};
use crate::render::text::{
    chip_text, chips_text, connection_line, connection_lines, connections_section,
    connections_text, core_count_text, core_text, cores_text, cpu_section, cpu_text, disk_line,
    disk_lines, disk_section, disk_text, endpoints_text, error_lines, errors_text, fan_text,
    fans_text, freq_text, gpu_freq_text, gpu_line, gpu_lines, gpu_section, gpu_temp_text,
    gpu_text, interface_line, interface_lines, labelled, load_text, memory_section, memory_text,
    model_text, mount_line, mount_lines, net_section, net_text, owner_text, padded, sections,
    shown_state, size_line, state_text, swap_text, temp_text, temps_text, thermal_section,
    thermal_text, used_line, util_text, vendor_title, vram_text,
};
use crate::render::{json, text};
use crate::sample::{
    tcp_state_name, CollectorErrorView, ConnectionView, CpuSampleView, DiskDeviceView, FanSensorView,
    GpuView, HwmonChipView, MemorySample, MountPointView, NetInterfaceView, SnapshotView,
    TempSensorView,
};
use crate::sysfs::control_char;
use crate::text::first_of;
use crate::units::KiloHertz;

verus! {

// ---------------------------------------------------------------------------
// Calm text
// ---------------------------------------------------------------------------
/// The text holds no control character.
pub open spec fn clean(s: Seq<char>) -> bool {
    forall|i: int| 0 <= i < s.len() ==> !control_char(#[trigger] s[i])
}

pub open spec fn clean_option(s: Option<Seq<char>>) -> bool {
    s matches Some(s) ==> clean(s)
}

/// A line end, or no control character.
pub open spec fn even_char(c: char) -> bool {
    c == '\n' || !control_char(c)
}

/// The text holds no control character but line ends.
pub open spec fn even(s: Seq<char>) -> bool {
    forall|i: int| 0 <= i < s.len() ==> even_char(#[trigger] s[i])
}

pub open spec fn calm_glyph(g: Glyph) -> bool {
    match g {
        Glyph::Letter(c) => even_char(c),
        _ => true,
    }
}

/// The document holds no control character but line ends. Quantities are
/// numbers, whatever their form.
pub open spec fn calm(g: Seq<Glyph>) -> bool {
    forall|i: int| 0 <= i < g.len() ==> calm_glyph(#[trigger] g[i])
}

broadcast proof fn calm_sum(a: Seq<Glyph>, b: Seq<Glyph>)
    requires
        calm(a),
        calm(b),
    ensures
        #[trigger] calm(a + b),
{
    assert forall|i: int| 0 <= i < (a + b).len() implies calm_glyph(#[trigger] (a + b)[i]) by {
        if i < a.len() {
            assert(calm_glyph(a[i]));
        } else {
            assert(calm_glyph(b[i - a.len()]));
        }
    }
}

broadcast proof fn calm_chars(s: Seq<char>)
    requires
        even(s),
    ensures
        #[trigger] calm(chars(s)),
{
    assert forall|i: int| 0 <= i < chars(s).len() implies calm_glyph(#[trigger] chars(s)[i]) by {
        assert(chars(s)[i] == letter(s[i]));
        assert(even_char(s[i]));
    }
}

broadcast proof fn even_sum(a: Seq<char>, b: Seq<char>)
    requires
        even(a),
        even(b),
    ensures
        #[trigger] even(a + b),
{
    assert forall|i: int| 0 <= i < (a + b).len() implies even_char(#[trigger] (a + b)[i]) by {
        if i < a.len() {
            assert(even_char(a[i]));
        } else {
            assert(even_char(b[i - a.len()]));
        }
    }
}

broadcast proof fn clean_is_even(s: Seq<char>)
    requires
        clean(s),
    ensures
        #[trigger] even(s),
{
    assert forall|i: int| 0 <= i < s.len() implies even_char(#[trigger] s[i]) by {
        assert(!control_char(s[i]));
    }
}

broadcast proof fn even_padded(s: Seq<char>, width: nat)
    requires
        even(s),
    ensures
        #[trigger] even(padded(s, width)),
{
    let p = padded(s, width);
    let kept = first_of(s, width);
    assert forall|i: int| 0 <= i < p.len() implies even_char(#[trigger] p[i]) by {
        if i < kept.len() {
            assert(p[i] == s[i]);
        } else {
            assert(p[i] == ' ');
        }
    }
}

proof fn lemma_digits_are_even(s: Seq<char>, radix: nat)
    requires
        all_digits(s, radix),
        radix <= 36,
    ensures
        even(s),
{
    assert forall|i: int| 0 <= i < s.len() implies even_char(#[trigger] s[i]) by {
        assert(digit_of(s[i], radix) is Some);
    }
}

broadcast proof fn even_decimal(n: nat)
    ensures
        #[trigger] even(decimal(n)),
{
    lemma_decimal_digits(n);
    lemma_digits_are_even(decimal(n), 10);
}

broadcast proof fn even_hexadecimal(n: nat)
    ensures
        #[trigger] even(hexadecimal(n)),
    decreases n,
{
    if n >= 16 {
        even_hexadecimal(n / 16);
        let t = hexadecimal(n / 16);
        let s = hexadecimal(n);
        assert forall|i: int| 0 <= i < s.len() implies even_char(#[trigger] s[i]) by {
            if i < t.len() {
                assert(s[i] == t[i]);
            }
        }
    }
}

broadcast group calm_text {
    calm_sum,
    calm_chars,
    even_sum,
    clean_is_even,
    even_padded,
    even_decimal,
    even_hexadecimal,
}

// ---------------------------------------------------------------------------
// The words of the renderer
// ---------------------------------------------------------------------------
proof fn lemma_cpu_literals()
    ensures
        even("  load avg: "@),
        even(" "@),
        even("\n"@),
        even("  busy: "@),
        even("% "@),
        even("%"@),
        even("  n/a"@),
        even(" GHz"@),
        even("n/a"@),
        even("    "@),
        even("core"@),
        even("  "@),
        even("CPU\n"@),
        even("  cores: "@),
{
    reveal_strlit("  load avg: ");
    reveal_strlit(" ");
    reveal_strlit("\n");
    reveal_strlit("  busy: ");
    reveal_strlit("% ");
    reveal_strlit("%");
    reveal_strlit("  n/a");
    reveal_strlit(" GHz");
    reveal_strlit("n/a");
    reveal_strlit("    ");
    reveal_strlit("core");
    reveal_strlit("  ");
    reveal_strlit("CPU\n");
    reveal_strlit("  cores: ");
}

proof fn lemma_memory_literals()
    ensures
        even("swap"@),
        even(" / "@),
        even("\n"@),
        even("used"@),
        even(" ("@),
        even("%) "@),
        even("Memory\n"@),
        even("total"@),
        even("available"@),
        even("  "@),
        even(" "@),
{
    reveal_strlit("swap");
    reveal_strlit(" / ");
    reveal_strlit("\n");
    reveal_strlit("used");
    reveal_strlit(" (");
    reveal_strlit("%) ");
    reveal_strlit("Memory\n");
    reveal_strlit("total");
    reveal_strlit("available");
    reveal_strlit("  ");
    reveal_strlit(" ");
}

proof fn lemma_thermal_literals()
    ensures
        even("!!"@),
        even("! "@),
        even("  "@),
        even(" C "@),
        even("\n"@),
        even("    "@),
        even(" "@),
        even(" rpm\n"@),
        even("Thermal\n"@),
{
    reveal_strlit("!!");
    reveal_strlit("! ");
    reveal_strlit("  ");
    reveal_strlit(" C ");
    reveal_strlit("\n");
    reveal_strlit("    ");
    reveal_strlit(" ");
    reveal_strlit(" rpm\n");
    reveal_strlit("Thermal\n");
}

proof fn lemma_disk_literals()
    ensures
        even("%"@),
        even("n/a"@),
        even("read "@),
        even(" write "@),
        even(" util "@),
        even("\n"@),
        even("(no rate yet)\n"@),
        even("  "@),
        even(" -> "@),
        even(" ("@),
        even(")\n"@),
        even("Disk\n"@),
        even(" "@),
{
    reveal_strlit("%");
    reveal_strlit("n/a");
    reveal_strlit("read ");
    reveal_strlit(" write ");
    reveal_strlit(" util ");
    reveal_strlit("\n");
    reveal_strlit("(no rate yet)\n");
    reveal_strlit("  ");
    reveal_strlit(" -> ");
    reveal_strlit(" (");
    reveal_strlit(")\n");
    reveal_strlit("Disk\n");
    reveal_strlit(" ");
}

proof fn lemma_net_literals()
    ensures
        even("?"@),
        even("  "@),
        even(" ["@),
        even("] "@),
        even("rx "@),
        even(" tx "@),
        even("\n"@),
        even("(no rate yet)\n"@),
        even("Net\n"@),
{
    reveal_strlit("?");
    reveal_strlit("  ");
    reveal_strlit(" [");
    reveal_strlit("] ");
    reveal_strlit("rx ");
    reveal_strlit(" tx ");
    reveal_strlit("\n");
    reveal_strlit("(no rate yet)\n");
    reveal_strlit("Net\n");
}

proof fn lemma_gpu_literals()
    ensures
        even("Unknown"@),
        even("Amd"@),
        even("Intel"@),
        even("Nvidia"@),
        even("    vram "@),
        even(" / "@),
        even("\n"@),
        even("    temp "@),
        even(" C\n"@),
        even("    freq "@),
        even(" GHz\n"@),
        even("  "@),
        even(" "@),
        even(" busy "@),
        even("GPU\n"@),
        even("%"@),
        even("n/a"@),
{
    reveal_strlit("Unknown");
    reveal_strlit("Amd");
    reveal_strlit("Intel");
    reveal_strlit("Nvidia");
    reveal_strlit("    vram ");
    reveal_strlit(" / ");
    reveal_strlit("\n");
    reveal_strlit("    temp ");
    reveal_strlit(" C\n");
    reveal_strlit("    freq ");
    reveal_strlit(" GHz\n");
    reveal_strlit("  ");
    reveal_strlit(" ");
    reveal_strlit(" busy ");
    reveal_strlit("GPU\n");
    reveal_strlit("%");
    reveal_strlit("n/a");
}

proof fn lemma_states_literals()
    ensures
        even("established"@),
        even("syn_sent"@),
        even("syn_recv"@),
        even("fin_wait1"@),
        even("fin_wait2"@),
        even("time_wait"@),
        even("close"@),
        even("close_wait"@),
        even("last_ack"@),
        even("listen"@),
        even("closing"@),
        even("unknown"@),
{
    reveal_strlit("established");
    reveal_strlit("syn_sent");
    reveal_strlit("syn_recv");
    reveal_strlit("fin_wait1");
    reveal_strlit("fin_wait2");
    reveal_strlit("time_wait");
    reveal_strlit("close");
    reveal_strlit("close_wait");
    reveal_strlit("last_ack");
    reveal_strlit("listen");
    reveal_strlit("closing");
    reveal_strlit("unknown");
}

proof fn lemma_connections_literals()
    ensures
        even("["@),
        even("]"@),
        even("uid "@),
        even(" ["@),
        even(":"@),
        even(" -> "@),
        even("  "@),
        even(" "@),
        even("\n"@),
        even("Connections\n"@),
        even("tcp"@),
        even("udp"@),
{
    reveal_strlit("[");
    reveal_strlit("]");
    reveal_strlit("uid ");
    reveal_strlit(" [");
    reveal_strlit(":");
    reveal_strlit(" -> ");
    reveal_strlit("  ");
    reveal_strlit(" ");
    reveal_strlit("\n");
    reveal_strlit("Connections\n");
    reveal_strlit("tcp");
    reveal_strlit("udp");
}

proof fn lemma_frame_literals()
    ensures
        even("  "@),
        even(": "@),
        even("\n"@),
        even("Errors\n"@),
        even("rustmon — "@),
        even("\n\n"@),
{
    reveal_strlit("  ");
    reveal_strlit(": ");
    reveal_strlit("\n");
    reveal_strlit("Errors\n");
    reveal_strlit("rustmon — ");
    reveal_strlit("\n\n");
}

proof fn lemma_time_literals()
    ensures
        even("-"@),
        even("T"@),
        even(":"@),
        even("Z"@),
        even("::ffff:"@),
        even("::"@),
{
    reveal_strlit("-");
    reveal_strlit("T");
    reveal_strlit(":");
    reveal_strlit("Z");
    reveal_strlit("::ffff:");
    reveal_strlit("::");
}

// ---------------------------------------------------------------------------
// Addresses and times
// ---------------------------------------------------------------------------
proof fn lemma_dot()
    ensures
        even(seq!['.']),
        even(seq![':']),
{
}

proof fn lemma_coloned(g: Seq<nat>)
    ensures
        even(coloned(g)),
    decreases g.len(),
{
    broadcast use calm_text;

    lemma_dot();
    if g.len() > 1 {
        lemma_coloned(g.drop_last());
    }
}

proof fn lemma_address(a: IpAddr)
    ensures
        even(address_text(a)),
{
    broadcast use calm_text;

    lemma_dot();
    lemma_time_literals();
    match a {
        IpAddr::V4(bits) => {
            assert(even(dotted(bits as nat)));
        },
        IpAddr::V6(bits) => {
            let g = groups(bits as nat);
            let run = longest_zeros(g, 0);
            lemma_coloned(g);
            lemma_coloned(g.take(run.0));
            lemma_coloned(g.skip(run.0 + run.1));
            assert(even(dotted(bits as nat % 0x1_0000_0000)));
        },
    }
}

proof fn lemma_digits(n: int, width: nat)
    ensures
        even(digits(n, width)),
{
    even_decimal(n as nat);
    let d = decimal(n as nat);
    let s = zero_padded(d, width);
    assert forall|i: int| 0 <= i < s.len() implies even_char(#[trigger] s[i]) by {
        if i >= s.len() - d.len() {
            assert(s[i] == d[i - (s.len() - d.len())]);
        } else {
            assert(s[i] == '0');
        }
    }
}

proof fn lemma_time(secs: int)
    ensures
        even(iso_text(secs)),
{
    broadcast use calm_text;

    lemma_time_literals();
    let (y, m, d, h, min, s) = moment(secs);
    lemma_digits(y, 4);
    lemma_digits(m, 2);
    lemma_digits(d, 2);
    lemma_digits(h, 2);
    lemma_digits(min, 2);
    lemma_digits(s, 2);
}

// ---------------------------------------------------------------------------
// The sections of the text
// ---------------------------------------------------------------------------
proof fn lemma_cores(freqs: Seq<Option<KiloHertz>>, rates: Option<RatesView>)
    ensures
        calm(cores_text(freqs, rates)),
    decreases freqs.len(),
{
    broadcast use calm_text;

    lemma_cpu_literals();
    if freqs.len() > 0 {
        lemma_cores(freqs.drop_last(), rates);
        assert(calm(freq_text(freqs.last())));
        assert(calm(core_text(freqs.len() - 1, freqs.last(), rates)));
    }
}

proof fn lemma_cpu(cpu: CpuSampleView, rates: Option<RatesView>)
    requires
        clean_option(cpu.model),
    ensures
        calm(cpu_text(cpu, rates)),
{
    broadcast use calm_text;

    lemma_cpu_literals();
    lemma_cores(cpu.freq_khz, rates);
    assert(calm(model_text(cpu.model)));
    assert(calm(core_count_text(cpu.per_core.len())));
    assert(calm(load_text(cpu.load_avg)));
}

proof fn lemma_memory(m: MemorySample)
    ensures
        calm(memory_text(m)),
{
    broadcast use calm_text;

    lemma_memory_literals();
    assert(calm(labelled("total"@)) && calm(labelled("used"@)) && calm(labelled("available"@))
        && calm(labelled("swap"@)));
    assert(calm(used_line(m)));
    assert(calm(swap_text(m)));
    assert(calm(size_line("total"@, m.total)) && calm(size_line("available"@, m.available)));
}

pub open spec fn clean_chip(c: HwmonChipView) -> bool {
    &&& clean(c.name)
    &&& forall|i: int| 0 <= i < c.temps.len() ==> clean((#[trigger] c.temps[i]).label)
    &&& forall|i: int| 0 <= i < c.fans.len() ==> clean((#[trigger] c.fans[i]).label)
}

proof fn lemma_temps(temps: Seq<TempSensorView>)
    requires
        forall|i: int| 0 <= i < temps.len() ==> clean((#[trigger] temps[i]).label),
    ensures
        calm(temps_text(temps)),
    decreases temps.len(),
{
    broadcast use calm_text;

    lemma_thermal_literals();
    if temps.len() > 0 {
        let front = temps.drop_last();
        assert forall|i: int| 0 <= i < front.len() implies clean(
            (#[trigger] front[i]).label,
        ) by {
            assert(front[i] == temps[i]);
        }
        lemma_temps(front);
        assert(clean(temps[temps.len() - 1].label));
        assert(calm(temp_text(temps.last())));
    }
}

proof fn lemma_fans(fans: Seq<FanSensorView>)
    requires
        forall|i: int| 0 <= i < fans.len() ==> clean((#[trigger] fans[i]).label),
    ensures
        calm(fans_text(fans)),
    decreases fans.len(),
{
    broadcast use calm_text;

    lemma_thermal_literals();
    if fans.len() > 0 {
        let front = fans.drop_last();
        assert forall|i: int| 0 <= i < front.len() implies clean(
            (#[trigger] front[i]).label,
        ) by {
            assert(front[i] == fans[i]);
        }
        lemma_fans(front);
        assert(clean(fans[fans.len() - 1].label));
        assert(calm(fan_text(fans.last())));
    }
}

proof fn lemma_chips(chips: Seq<HwmonChipView>)
    requires
        forall|i: int| 0 <= i < chips.len() ==> clean_chip(#[trigger] chips[i]),
    ensures
        calm(chips_text(chips)),
    decreases chips.len(),
{
    broadcast use calm_text;

    lemma_thermal_literals();
    if chips.len() > 0 {
        let front = chips.drop_last();
        assert forall|i: int| 0 <= i < front.len() implies clean_chip(#[trigger] front[i]) by {
            assert(front[i] == chips[i]);
        }
        lemma_chips(front);
        let c = chips[chips.len() - 1];
        assert(clean_chip(c));
        lemma_temps(c.temps);
        lemma_fans(c.fans);
        assert(calm(chip_text(c)));
    }
}

proof fn lemma_devices(devices: Seq<DiskDeviceView>, rates: Option<RatesView>)
    requires
        forall|i: int| 0 <= i < devices.len() ==> clean((#[trigger] devices[i]).name),
    ensures
        calm(disk_lines(devices, rates)),
    decreases devices.len(),
{
    broadcast use calm_text;

    lemma_disk_literals();
    if devices.len() > 0 {
        let front = devices.drop_last();
        assert forall|i: int| 0 <= i < front.len() implies clean((#[trigger] front[i]).name) by {
            assert(front[i] == devices[i]);
        }
        lemma_devices(front, rates);
        let d = devices[devices.len() - 1];
        assert(clean(d.name));
        assert(calm(labelled(d.name)));
        lemma_device(d, disk_rate(rates, d.name));
    }
}

proof fn lemma_device(d: DiskDeviceView, r: Option<DiskRateView>)
    requires
        clean(d.name),
    ensures
        calm(disk_line(d, r)),
{
    broadcast use calm_text;

    lemma_disk_literals();
    assert(calm(labelled(d.name)));
    if let Some(r) = r {
        assert(calm(util_text(r.utilisation)));
    }
}

pub open spec fn clean_mount(m: MountPointView) -> bool {
    clean(m.source) && clean(m.mount_point) && clean(m.fs_type)
}

proof fn lemma_mounts(mounts: Seq<MountPointView>)
    requires
        forall|i: int| 0 <= i < mounts.len() ==> clean_mount(#[trigger] mounts[i]),
    ensures
        calm(mount_lines(mounts)),
    decreases mounts.len(),
{
    broadcast use calm_text;

    lemma_disk_literals();
    if mounts.len() > 0 {
        let front = mounts.drop_last();
        assert forall|i: int| 0 <= i < front.len() implies clean_mount(#[trigger] front[i]) by {
            assert(front[i] == mounts[i]);
        }
        lemma_mounts(front);
        assert(clean_mount(mounts[mounts.len() - 1]));
        assert(calm(mount_line(mounts.last())));
    }
}

pub open spec fn clean_interface(i: NetInterfaceView) -> bool {
    clean(i.name) && clean_option(i.operstate)
}

proof fn lemma_interface(i: NetInterfaceView, r: Option<NetRate>)
    requires
        clean_interface(i),
    ensures
        calm(interface_line(i, r)),
{
    broadcast use calm_text;

    lemma_net_literals();
    assert(even(shown_state(i.operstate)));
}

proof fn lemma_interfaces(interfaces: Seq<NetInterfaceView>, rates: Option<RatesView>)
    requires
        forall|i: int| 0 <= i < interfaces.len() ==> clean_interface(#[trigger] interfaces[i]),
    ensures
        calm(interface_lines(interfaces, rates)),
    decreases interfaces.len(),
{
    broadcast use calm_text;

    if interfaces.len() > 0 {
        let front = interfaces.drop_last();
        assert forall|i: int| 0 <= i < front.len() implies clean_interface(
            #[trigger] front[i],
        ) by {
            assert(front[i] == interfaces[i]);
        }
        lemma_interfaces(front, rates);
        let last = interfaces[interfaces.len() - 1];
        assert(clean_interface(last));
        lemma_interface(last, net_rate(rates, last.name));
    }
}

proof fn lemma_gpu(g: GpuView)
    requires
        clean(g.name),
    ensures
        calm(gpu_line(g)),
{
    broadcast use calm_text;

    lemma_gpu_literals();
    assert(even(vendor_title(g.vendor)));
    assert(calm(util_text(g.busy)));
    assert(calm(vram_text(g)));
    assert(calm(gpu_temp_text(g)));
    assert(calm(gpu_freq_text(g)));
}

proof fn lemma_gpus(gpus: Seq<GpuView>)
    requires
        forall|i: int| 0 <= i < gpus.len() ==> clean((#[trigger] gpus[i]).name),
    ensures
        calm(gpu_lines(gpus)),
    decreases gpus.len(),
{
    broadcast use calm_text;

    if gpus.len() > 0 {
        let front = gpus.drop_last();
        assert forall|i: int| 0 <= i < front.len() implies clean((#[trigger] front[i]).name) by {
            assert(front[i] == gpus[i]);
        }
        lemma_gpus(front);
        assert(clean(gpus[gpus.len() - 1].name));
        lemma_gpu(gpus.last());
    }
}

proof fn lemma_connection(c: ConnectionView)
    requires
        clean_option(c.program),
    ensures
        calm(connection_line(c)),
{
    broadcast use calm_text;

    lemma_connections_literals();
    lemma_states_literals();
    lemma_address(c.local_addr);
    lemma_address(c.remote_addr);
    assert(calm(owner_text(c)));
    assert(calm(endpoints_text(c)));
    if let Some(s) = c.state {
        assert(even(tcp_state_name(s)));
    }
    assert(calm(state_text(c)));
    assert(even(protocol_name(c.protocol)));
}

proof fn lemma_connections(connections: Seq<ConnectionView>)
    requires
        forall|i: int|
            0 <= i < connections.len() ==> clean_option((#[trigger] connections[i]).program),
    ensures
        calm(connection_lines(connections)),
    decreases connections.len(),
{
    broadcast use calm_text;

    if connections.len() > 0 {
        let front = connections.drop_last();
        assert forall|i: int| 0 <= i < front.len() implies clean_option(
            (#[trigger] front[i]).program,
        ) by {
            assert(front[i] == connections[i]);
        }
        lemma_connections(front);
        assert(clean_option(connections[connections.len() - 1].program));
        lemma_connection(connections.last());
    }
}

pub open spec fn clean_errors(errors: Seq<CollectorErrorView>) -> bool {
    forall|i: int|
        0 <= i < errors.len() ==> clean((#[trigger] errors[i]).collector) && clean(
            errors[i].message,
        )
}

proof fn lemma_errors(errors: Seq<CollectorErrorView>)
    requires
        clean_errors(errors),
    ensures
        calm(error_lines(errors)),
    decreases errors.len(),
{
    broadcast use calm_text;

    lemma_frame_literals();
    if errors.len() > 0 {
        let front = errors.drop_last();
        assert forall|i: int| 0 <= i < front.len() implies clean((#[trigger] front[i]).collector)
            && clean(front[i].message) by {
            assert(front[i] == errors[i]);
        }
        lemma_errors(front);
        let e = errors[errors.len() - 1];
        assert(clean(e.collector) && clean(e.message));
    }
}

// ---------------------------------------------------------------------------
// Whole documents
// ---------------------------------------------------------------------------
/// No text in the snapshot holds a control character, but for what its errors
/// say.
pub open spec fn clean_snapshot(s: SnapshotView) -> bool {
    &&& s.cpu matches Some(c) ==> clean_option(c.model)
    &&& s.thermal matches Some(t) ==> forall|i: int|
        0 <= i < t.chips.len() ==> clean_chip(#[trigger] t.chips[i])
    &&& s.disks matches Some(d) ==> {
        &&& forall|i: int| 0 <= i < d.devices.len() ==> clean((#[trigger] d.devices[i]).name)
        &&& forall|i: int| 0 <= i < d.mounts.len() ==> clean_mount(#[trigger] d.mounts[i])
    }
    &&& s.net matches Some(n) ==> forall|i: int|
        0 <= i < n.interfaces.len() ==> clean_interface(#[trigger] n.interfaces[i])
    &&& s.gpus matches Some(g) ==> forall|i: int|
        0 <= i < g.gpus.len() ==> clean((#[trigger] g.gpus[i]).name)
    &&& s.connections matches Some(c) ==> forall|i: int|
        0 <= i < c.connections.len() ==> clean_option((#[trigger] c.connections[i]).program)
}

proof fn lemma_sections(s: SnapshotView, rates: Option<RatesView>)
    requires
        clean_snapshot(s),
    ensures
        calm(sections(s, rates)),
{
    broadcast use calm_text;

    lemma_thermal_literals();
    lemma_disk_literals();
    lemma_net_literals();
    lemma_gpu_literals();
    lemma_connections_literals();
    if let Some(c) = s.cpu {
        lemma_cpu(c, rates);
    }
    if let Some(m) = s.memory {
        lemma_memory(m);
    }
    if let Some(t) = s.thermal {
        lemma_chips(t.chips);
        assert(calm(thermal_text(t.chips)));
    }
    if let Some(d) = s.disks {
        lemma_devices(d.devices, rates);
        lemma_mounts(d.mounts);
        assert(calm(disk_text(d, rates)));
    }
    if let Some(n) = s.net {
        lemma_interfaces(n.interfaces, rates);
        assert(calm(net_text(n.interfaces, rates)));
    }
    if let Some(g) = s.gpus {
        lemma_gpus(g.gpus);
        assert(calm(gpu_text(g.gpus)));
    }
    if let Some(c) = s.connections {
        lemma_connections(c.connections);
        assert(calm(connections_text(c.connections)));
    }
    assert(calm(cpu_section(s.cpu, rates)) && calm(memory_section(s.memory)) && calm(
        thermal_section(s.thermal),
    ) && calm(disk_section(s.disks, rates)) && calm(net_section(s.net, rates)) && calm(
        gpu_section(s.gpus),
    ) && calm(connections_section(s.connections)));
}

/// The text of a snapshot is safe to send anywhere: where none of the
/// snapshot's own text holds a control character, nor any error that is shown,
/// no character of the output is one, but for the line ends.
pub proof fn text_is_calm(s: SnapshotView, rates: Option<RatesView>, verbose: bool)
    requires
        clean_snapshot(s),
        verbose ==> clean_errors(s.errors),
        text::snapshot_text(s, rates, verbose) is Ok,
    ensures
        calm(text::snapshot_text(s, rates, verbose)->Ok_0),
{
    broadcast use calm_text;

    lemma_frame_literals();
    lemma_time(s.taken_at as int);
    lemma_sections(s, rates);
    if verbose {
        lemma_errors(s.errors);
    }
    assert(calm(errors_text(s.errors, verbose)));
}

proof fn lemma_json_literals()
    ensures
        even("null"@),
        even("true"@),
        even("false"@),
        even("["@),
        even("]"@),
        even("{"@),
        even("}"@),
        even(","@),
        even(":"@),
        even("\n"@),
{
    reveal_strlit("null");
    reveal_strlit("true");
    reveal_strlit("false");
    reveal_strlit("[");
    reveal_strlit("]");
    reveal_strlit("{");
    reveal_strlit("}");
    reveal_strlit(",");
    reveal_strlit(":");
    reveal_strlit("\n");
}

proof fn lemma_string(s: Seq<char>)
    ensures
        even(json_string(s)),
{
    escaped_strings_are_inert(s);
    assert(clean(json_string(s)));
    clean_is_even(json_string(s));
}

/// No control character stands in a JSON value, whatever its strings hold.
pub proof fn json_values_are_calm(j: Json)
    ensures
        calm(written(j)),
    decreases j,
{
    broadcast use calm_text;

    lemma_json_literals();
    match j {
        Json::Text(s) => {
            lemma_string(s);
        },
        Json::Array(items) => {
            lemma_items(items);
        },
        Json::Object(members) => {
            lemma_members(members);
        },
        _ => {},
    }
}

proof fn lemma_items(items: Seq<Json>)
    ensures
        calm(items_written(items)),
    decreases items,
{
    broadcast use calm_text;

    lemma_json_literals();
    if items.len() > 0 {
        json_values_are_calm(items[items.len() - 1]);
        if items.len() > 1 {
            lemma_items(items.drop_last());
        }
    }
}

proof fn lemma_members(members: Seq<(Seq<char>, Json)>)
    ensures
        calm(members_written(members)),
    decreases members,
{
    broadcast use calm_text;

    lemma_json_literals();
    if members.len() > 0 {
        let last = members[members.len() - 1];
        lemma_string(last.0);
        json_values_are_calm(last.1);
        if members.len() > 1 {
            lemma_members(members.drop_last());
        }
    }
}

/// Nor does a line of it, but for its end.
pub proof fn json_lines_are_calm(j: Json)
    ensures
        calm(written(j) + chars("\n"@)),
{
    broadcast use calm_text;

    lemma_json_literals();
    json_values_are_calm(j);
}

/// The JSON of a snapshot holds no control character but the line end behind
/// it, whatever the snapshot holds.
pub proof fn json_is_calm(s: SnapshotView, rates: Option<RatesView>, verbose: bool)
    requires
        json::snapshot_text(s, rates, verbose) is Ok,
    ensures
        calm(json::snapshot_text(s, rates, verbose)->Ok_0),
{
    let taken_at = json::rfc3339_of(s.taken_at)->Ok_0;
    json_lines_are_calm(Json::Object(json::snapshot_members(s, taken_at, rates, verbose)));
}

} // verus!
