//! What the sensor files come to: every sensor is read from its own files, and
//! every chip and every card that can be read is kept.

use vstd::prelude::*;

use crate::collectors::gpu::amd::{amd_card_of, lowest_node};
use crate::collectors::gpu::intel::intel_card_of;
use crate::collectors::gpu::{
    card_of, cards_of, cards_read, gpu_collected, identified, vendor_of, CardView,
};
use crate::collectors::thermal::{
    cached_chips_of, chip_dirs_of, chip_of, chip_path, chips_in, fan_sensor_of, fans_of, indices_in,
    sensor_index, temp_sensor_of, temps_of, thermal_collected, zone_of, zones_of, SYS_HWMON,
};
use crate::error::{Absence, ErrorView};
use crate::number::decimal;
use crate::order::{numbers_sorted, sorting_numbers_orders_and_keeps};
use crate::sample::{GpuVendor, GpuView, HwmonChipView, SnapshotView};
use crate::sysfs::{joined, sanitized, NameFilter, SysfsReader};
use crate::text::first_of;
use crate::units::MilliCelsius;

verus! {

/// The file holds that number.
pub open spec fn holds_number(reader: &SysfsReader, path: Seq<char>, n: u64) -> bool {
    reader.u64_at(path) == Ok::<Result<u64, Absence>, ErrorView>(Ok(n))
}

/// The file holds that number, which may be negative.
pub open spec fn holds_signed(reader: &SysfsReader, path: Seq<char>, n: i64) -> bool {
    reader.i64_at(path) == Ok::<Result<i64, Absence>, ErrorView>(Ok(n))
}

/// The figure is the number in the file, and there is none where the file holds
/// no number that can be read.
pub open spec fn is_in(reader: &SysfsReader, path: Seq<char>, n: Option<u64>) -> bool {
    match n {
        Some(n) => holds_number(reader, path, n),
        None => forall|m: u64| !#[trigger] holds_number(reader, path, m),
    }
}

/// The same of a temperature.
pub open spec fn is_temperature_in(
    reader: &SysfsReader,
    path: Seq<char>,
    t: Option<MilliCelsius>,
) -> bool {
    match t {
        Some(t) => holds_signed(reader, path, t.0),
        None => forall|m: i64| !#[trigger] holds_signed(reader, path, m),
    }
}

// ---------------------------------------------------------------------------
// Temperatures and fans
// ---------------------------------------------------------------------------
/// The value, the limits and the label of a sensor are those of the files with its
/// own number; one without a value is no sensor.
pub proof fn sensors_are_read_from_their_files(
    reader: &SysfsReader,
    dir: Seq<char>,
    chip: Seq<char>,
    n: u32,
)
    ensures
        ({
            let own = "temp"@ + decimal(n as nat);
            match temp_sensor_of(reader, dir, chip, n) {
                Some(t) => {
                    &&& holds_signed(reader, joined(dir, own + "_input"@), t.value.0)
                    &&& is_temperature_in(reader, joined(dir, own + "_max"@), t.max)
                    &&& is_temperature_in(reader, joined(dir, own + "_crit"@), t.crit)
                    &&& match reader.first_line_at(joined(dir, own + "_label"@)) {
                        Ok(Ok(label)) => t.label == sanitized(label, 64),
                        _ => t.label == chip + " "@ + own,
                    }
                },
                None => forall|m: i64|
                    !#[trigger] holds_signed(reader, joined(dir, own + "_input"@), m),
            }
        }),
{
    let own = "temp"@ + decimal(n as nat);
    assert(chip + " "@ + "temp"@ + decimal(n as nat) =~= chip + " "@ + own);
}

/// The same of a fan.
pub proof fn fans_are_read_from_their_files(
    reader: &SysfsReader,
    dir: Seq<char>,
    chip: Seq<char>,
    n: u32,
)
    ensures
        ({
            let own = "fan"@ + decimal(n as nat);
            match fan_sensor_of(reader, dir, chip, n) {
                Some(f) => {
                    &&& holds_number(reader, joined(dir, own + "_input"@), f.rpm.0)
                    &&& match reader.first_line_at(joined(dir, own + "_label"@)) {
                        Ok(Ok(label)) => f.label == sanitized(label, 64),
                        _ => f.label == chip + " "@ + own,
                    }
                },
                None => forall|m: u64|
                    !#[trigger] holds_number(reader, joined(dir, own + "_input"@), m),
            }
        }),
{
    let own = "fan"@ + decimal(n as nat);
    assert(chip + " "@ + "fan"@ + decimal(n as nat) =~= chip + " "@ + own);
}

proof fn lemma_temp(reader: &SysfsReader, dir: Seq<char>, chip: Seq<char>, items: Seq<u32>, k: int)
    requires
        0 <= k < items.len(),
        temp_sensor_of(reader, dir, chip, items[k]) is Some,
    ensures
        temps_of(reader, dir, chip, items).contains(temp_sensor_of(reader, dir, chip, items[k])->0),
    decreases items.len(),
{
    let front = items.drop_last();
    let before = temps_of(reader, dir, chip, front);
    let all = temps_of(reader, dir, chip, items);
    let found = temp_sensor_of(reader, dir, chip, items[k])->0;
    if k == items.len() - 1 {
        assert(all[all.len() - 1] == found);
    } else {
        assert(front[k] == items[k]);
        lemma_temp(reader, dir, chip, front, k);
        let j = choose|j: int| 0 <= j < before.len() && before[j] == found;
        assert(all[j] == found);
    }
}

proof fn lemma_temp_from(reader: &SysfsReader, dir: Seq<char>, chip: Seq<char>, items: Seq<u32>, j: int) -> (k: int)
    requires
        0 <= j < temps_of(reader, dir, chip, items).len(),
    ensures
        0 <= k < items.len(),
        temp_sensor_of(reader, dir, chip, items[k]) == Some(temps_of(reader, dir, chip, items)[j]),
    decreases items.len(),
{
    let front = items.drop_last();
    let before = temps_of(reader, dir, chip, front);
    if j < before.len() {
        let k = lemma_temp_from(reader, dir, chip, front, j);
        assert(temps_of(reader, dir, chip, items)[j] == before[j]);
        k
    } else {
        items.len() - 1
    }
}

proof fn lemma_fan(reader: &SysfsReader, dir: Seq<char>, chip: Seq<char>, items: Seq<u32>, k: int)
    requires
        0 <= k < items.len(),
        fan_sensor_of(reader, dir, chip, items[k]) is Some,
    ensures
        fans_of(reader, dir, chip, items).contains(fan_sensor_of(reader, dir, chip, items[k])->0),
    decreases items.len(),
{
    let front = items.drop_last();
    let before = fans_of(reader, dir, chip, front);
    let all = fans_of(reader, dir, chip, items);
    let found = fan_sensor_of(reader, dir, chip, items[k])->0;
    if k == items.len() - 1 {
        assert(all[all.len() - 1] == found);
    } else {
        assert(front[k] == items[k]);
        lemma_fan(reader, dir, chip, front, k);
        let j = choose|j: int| 0 <= j < before.len() && before[j] == found;
        assert(all[j] == found);
    }
}

proof fn lemma_fan_from(reader: &SysfsReader, dir: Seq<char>, chip: Seq<char>, items: Seq<u32>, j: int) -> (k: int)
    requires
        0 <= j < fans_of(reader, dir, chip, items).len(),
    ensures
        0 <= k < items.len(),
        fan_sensor_of(reader, dir, chip, items[k]) == Some(fans_of(reader, dir, chip, items)[j]),
    decreases items.len(),
{
    let front = items.drop_last();
    let before = fans_of(reader, dir, chip, front);
    if j < before.len() {
        let k = lemma_fan_from(reader, dir, chip, front, j);
        assert(fans_of(reader, dir, chip, items)[j] == before[j]);
        k
    } else {
        items.len() - 1
    }
}

proof fn lemma_zone(reader: &SysfsReader, items: Seq<Seq<char>>, k: int)
    requires
        0 <= k < items.len(),
        zone_of(reader, items[k]) is Some,
    ensures
        zones_of(reader, items).contains(zone_of(reader, items[k])->0),
    decreases items.len(),
{
    let front = items.drop_last();
    let before = zones_of(reader, front);
    let all = zones_of(reader, items);
    let found = zone_of(reader, items[k])->0;
    if k == items.len() - 1 {
        assert(all[all.len() - 1] == found);
    } else {
        assert(front[k] == items[k]);
        lemma_zone(reader, front, k);
        let j = choose|j: int| 0 <= j < before.len() && before[j] == found;
        assert(all[j] == found);
    }
}

proof fn lemma_zone_from(reader: &SysfsReader, items: Seq<Seq<char>>, j: int) -> (k: int)
    requires
        0 <= j < zones_of(reader, items).len(),
    ensures
        0 <= k < items.len(),
        zone_of(reader, items[k]) == Some(zones_of(reader, items)[j]),
    decreases items.len(),
{
    let front = items.drop_last();
    let before = zones_of(reader, front);
    if j < before.len() {
        let k = lemma_zone_from(reader, front, j);
        assert(zones_of(reader, items)[j] == before[j]);
        k
    } else {
        items.len() - 1
    }
}

proof fn lemma_index(names: Seq<Seq<char>>, prefix: Seq<char>, k: int)
    requires
        0 <= k < names.len(),
        sensor_index(names[k], prefix) is Some,
    ensures
        indices_in(names, prefix).contains(sensor_index(names[k], prefix)->0),
    decreases names.len(),
{
    let front = names.drop_last();
    let before = indices_in(front, prefix);
    let all = indices_in(names, prefix);
    let n = sensor_index(names[k], prefix)->0;
    if k == names.len() - 1 {
        assert(all[all.len() - 1] == n);
    } else {
        assert(front[k] == names[k]);
        lemma_index(front, prefix, k);
        let j = choose|j: int| 0 <= j < before.len() && before[j] == n;
        assert(all[j] == n);
    }
}

proof fn lemma_index_count(names: Seq<Seq<char>>, prefix: Seq<char>)
    ensures
        indices_in(names, prefix).len() <= names.len(),
    decreases names.len(),
{
    if names.len() > 0 {
        lemma_index_count(names.drop_last(), prefix);
    }
}

proof fn lemma_indices(names: Seq<Seq<char>>, prefix: Seq<char>, k: int)
    requires
        0 <= k < names.len(),
        names.len() <= 256,
        sensor_index(names[k], prefix) is Some,
    ensures
        first_of(numbers_sorted(indices_in(names, prefix)), 256).contains(
            sensor_index(names[k], prefix)->0,
        ),
{
    broadcast use vstd::seq_lib::group_to_multiset_ensures;

    let all = indices_in(names, prefix);
    let n = sensor_index(names[k], prefix)->0;
    lemma_index(names, prefix, k);
    lemma_index_count(names, prefix);
    sorting_numbers_orders_and_keeps(all);
    assert(all.to_multiset().count(n) > 0);
    assert(numbers_sorted(all).to_multiset().count(n) > 0);
    assert(numbers_sorted(all).to_multiset().len() == numbers_sorted(all).len());
    assert(all.to_multiset().len() == all.len());
}

/// A chip has every sensor whose value file its directory lists, where that can be
/// read: of temperatures and of fans alike.
pub proof fn a_chip_has_every_sensor(
    reader: &SysfsReader,
    dir: Seq<char>,
    temps: Seq<Seq<char>>,
    fans: Seq<Seq<char>>,
    k: int,
)
    requires
        reader.names_at(dir, NameFilter::Affixed { prefix: "temp", suffix: "_input" }) == Ok::<
            Result<Seq<Seq<char>>, Absence>,
            ErrorView,
        >(Ok(temps)),
        reader.names_at(dir, NameFilter::Affixed { prefix: "fan", suffix: "_input" }) == Ok::<
            Result<Seq<Seq<char>>, Absence>,
            ErrorView,
        >(Ok(fans)),
        temps.len() <= 256,
        fans.len() <= 256,
        0 <= k,
    ensures
        chip_of(reader, dir) matches Ok(Some(chip)) ==> ({
            &&& k < temps.len() && sensor_index(temps[k], "temp"@) is Some && temp_sensor_of(
                reader,
                dir,
                chip.name,
                sensor_index(temps[k], "temp"@)->0,
            ) is Some ==> chip.temps.contains(
                temp_sensor_of(reader, dir, chip.name, sensor_index(temps[k], "temp"@)->0)->0,
            )
            &&& k < fans.len() && sensor_index(fans[k], "fan"@) is Some && fan_sensor_of(
                reader,
                dir,
                chip.name,
                sensor_index(fans[k], "fan"@)->0,
            ) is Some ==> chip.fans.contains(
                fan_sensor_of(reader, dir, chip.name, sensor_index(fans[k], "fan"@)->0)->0,
            )
        }),
{
    reveal(chip_of);
    if let Ok(Some(chip)) = chip_of(reader, dir) {
        if k < temps.len() && sensor_index(temps[k], "temp"@) is Some {
            let n = sensor_index(temps[k], "temp"@)->0;
            let all = first_of(numbers_sorted(indices_in(temps, "temp"@)), 256);
            lemma_indices(temps, "temp"@, k);
            let i = choose|i: int| 0 <= i < all.len() && all[i] == n;
            if temp_sensor_of(reader, dir, chip.name, n) is Some {
                lemma_temp(reader, dir, chip.name, all, i);
            }
        }
        if k < fans.len() && sensor_index(fans[k], "fan"@) is Some {
            let n = sensor_index(fans[k], "fan"@)->0;
            let all = first_of(numbers_sorted(indices_in(fans, "fan"@)), 256);
            lemma_indices(fans, "fan"@, k);
            let i = choose|i: int| 0 <= i < all.len() && all[i] == n;
            if fan_sensor_of(reader, dir, chip.name, n) is Some {
                lemma_fan(reader, dir, chip.name, all, i);
            }
        }
    }
}

/// A chip has no sensor but those of its own directory, under its own name.
pub proof fn a_chip_has_no_other_sensor(reader: &SysfsReader, dir: Seq<char>, j: int)
    ensures
        chip_of(reader, dir) matches Ok(Some(chip)) ==> ({
            &&& reader.first_line_at(joined(dir, "name"@)) matches Ok(Ok(raw)) && chip.name
                == sanitized(raw, 64)
            &&& 0 <= j < chip.temps.len() ==> exists|n: u32|
                #[trigger] temp_sensor_of(reader, dir, chip.name, n) == Some(chip.temps[j])
            &&& 0 <= j < chip.fans.len() ==> exists|n: u32|
                #[trigger] fan_sensor_of(reader, dir, chip.name, n) == Some(chip.fans[j])
            &&& chip.temps.len() > 0 || chip.fans.len() > 0
        }),
{
    reveal(chip_of);
    if let Ok(Some(chip)) = chip_of(reader, dir) {
        let ts = crate::collectors::thermal::sensor_indices_of(reader, dir, "temp")->Ok_0;
        let fs = crate::collectors::thermal::sensor_indices_of(reader, dir, "fan")->Ok_0;
        if 0 <= j < chip.temps.len() {
            let k = lemma_temp_from(reader, dir, chip.name, ts, j);
            assert(temp_sensor_of(reader, dir, chip.name, ts[k]) == Some(chip.temps[j]));
        }
        if 0 <= j < chip.fans.len() {
            let k = lemma_fan_from(reader, dir, chip.name, fs, j);
            assert(fan_sensor_of(reader, dir, chip.name, fs[k]) == Some(chip.fans[j]));
        }
    }
}

/// The chip in the directory of that name.
pub open spec fn chip_named(reader: &SysfsReader, name: Seq<char>) -> Result<
    Option<HwmonChipView>,
    ErrorView,
> {
    chip_of(reader, "sys/class/hwmon"@ + "/"@ + name)
}

proof fn lemma_chip_in(reader: &SysfsReader, dirs: Seq<Seq<char>>, k: int)
    requires
        0 <= k < dirs.len(),
        chips_in(reader, dirs) is Ok,
    ensures
        chip_named(reader, dirs[k]) is Ok,
        chip_named(reader, dirs[k]) matches Ok(Some(chip)) ==> chips_in(
            reader,
            dirs,
        )->Ok_0.contains(chip),
    decreases dirs.len(),
{
    let all = chips_in(reader, dirs)->Ok_0;
    let rest = dirs.drop_first();
    let tail = chips_in(reader, rest)->Ok_0;
    let here = chip_named(reader, dirs[0])->Ok_0;
    if k == 0 {
        if here is Some {
            assert(all[0] == here->0);
        }
    } else {
        lemma_chip_in(reader, rest, k - 1);
        assert(rest[k - 1] == dirs[k]);
        if let Ok(Some(chip)) = chip_named(reader, dirs[k]) {
            let j = choose|j: int| 0 <= j < tail.len() && tail[j] == chip;
            if here is Some {
                assert(all[j + 1] == chip);
            } else {
                assert(all[j] == chip);
            }
        }
    }
}

proof fn lemma_chip_from(reader: &SysfsReader, dirs: Seq<Seq<char>>, i: int) -> (k: int)
    requires
        chips_in(reader, dirs) matches Ok(all) && 0 <= i < all.len(),
    ensures
        0 <= k < dirs.len(),
        chip_named(reader, dirs[k]) == Ok::<Option<HwmonChipView>, ErrorView>(
            Some(chips_in(reader, dirs)->Ok_0[i]),
        ),
    decreases dirs.len(),
{
    let rest = dirs.drop_first();
    let here = chip_named(reader, dirs[0])->Ok_0;
    if here is Some && i == 0 {
        0
    } else {
        let j = if here is Some {
            i - 1
        } else {
            i
        };
        let k = lemma_chip_from(reader, rest, j);
        assert(rest[k] == dirs[k + 1]);
        k + 1
    }
}

/// At a first collection that succeeds, every chip of `/sys/class/hwmon` that has
/// anything to say is in the snapshot, whichever of them it is.
pub proof fn every_chip_is_kept(
    reader: &SysfsReader,
    before: SnapshotView,
    names: Seq<Seq<char>>,
    k: int,
)
    requires
        thermal_collected(seq![], reader, before).outcome is Ok,
        reader.names_at("sys/class/hwmon"@, NameFilter::Numbered { prefix: "hwmon" }) == Ok::<
            Result<Seq<Seq<char>>, Absence>,
            ErrorView,
        >(Ok(names)),
        0 <= k < names.len(),
    ensures
        chip_named(reader, names[k]) is Ok,
        chip_named(reader, names[k]) matches Ok(Some(chip)) ==> (thermal_collected(
            seq![],
            reader,
            before,
        ).snapshot.thermal matches Some(sample) && sample.chips.contains(chip)),
{
    lemma_chip_in(reader, names, k);
}

/// At a first collection, every chip of the snapshot is one of those; where there
/// are none, it stands for the thermal zones.
pub proof fn every_chip_was_read(reader: &SysfsReader, before: SnapshotView, i: int)
    requires
        thermal_collected(seq![], reader, before).outcome is Ok,
        thermal_collected(seq![], reader, before).snapshot.thermal matches Some(sample) && 0 <= i
            < sample.chips.len(),
    ensures
        ({
            let chip = thermal_collected(seq![], reader, before).snapshot.thermal->0.chips[i];
            let dirs = chip_dirs_of(reader)->Ok_0;
            ||| exists|k: int|
                0 <= k < dirs.len() && chip_named(reader, #[trigger] dirs[k]) == Ok::<
                    Option<HwmonChipView>,
                    ErrorView,
                >(Some(chip))
            ||| chip.name == "thermal_zone"@ && chip.fans.len() == 0 && (forall|k: int|
                0 <= k < dirs.len() ==> chip_named(reader, #[trigger] dirs[k]) == Ok::<
                    Option<HwmonChipView>,
                    ErrorView,
                >(None))
        }),
{
    let dirs = chip_dirs_of(reader)->Ok_0;
    let all = chips_in(reader, dirs)->Ok_0;
    if all.len() > 0 {
        let k = lemma_chip_from(reader, dirs, i);
        assert(chip_named(reader, dirs[k]) == Ok::<Option<HwmonChipView>, ErrorView>(
            Some(all[i]),
        ));
    } else {
        assert forall|k: int| 0 <= k < dirs.len() implies chip_named(reader, #[trigger] dirs[k])
            == Ok::<Option<HwmonChipView>, ErrorView>(None) by {
            lemma_chip_in(reader, dirs, k);
        }
    }
}

/// The temperature of a zone is that of its own file, and it is called by its type,
/// or by its directory where it has none.
pub proof fn zones_are_read_from_their_files(reader: &SysfsReader, name: Seq<char>)
    ensures
        ({
            let dir = "sys/class/thermal"@ + "/"@ + name;
            match zone_of(reader, name) {
                Some(t) => {
                    &&& holds_signed(reader, joined(dir, "temp"@), t.value.0)
                    &&& t.max is None
                    &&& t.crit is None
                    &&& match reader.first_line_at(joined(dir, "type"@)) {
                        Ok(Ok(label)) => t.label == sanitized(label, 64),
                        _ => t.label == name,
                    }
                },
                None => forall|m: i64| !#[trigger] holds_signed(reader, joined(dir, "temp"@), m),
            }
        }),
{
}

/// Where no chip says anything, the snapshot has every thermal zone that can be
/// read, and no other.
pub proof fn every_zone_is_kept(
    reader: &SysfsReader,
    before: SnapshotView,
    names: Seq<Seq<char>>,
    k: int,
)
    requires
        thermal_collected(seq![], reader, before).outcome is Ok,
        chip_dirs_of(reader) == Ok::<Seq<Seq<char>>, ErrorView>(seq![]),
        reader.names_at(
            "sys/class/thermal"@,
            NameFilter::Numbered { prefix: "thermal_zone" },
        ) == Ok::<Result<Seq<Seq<char>>, Absence>, ErrorView>(Ok(names)),
        0 <= k < names.len() <= 256,
    ensures
        zone_of(reader, names[k]) matches Some(t) ==> (thermal_collected(
            seq![],
            reader,
            before,
        ).snapshot.thermal matches Some(sample) && sample.chips.len() == 1
            && sample.chips[0].temps.contains(t)),
        thermal_collected(seq![], reader, before).snapshot.thermal matches Some(sample) ==> forall|
            j: int,
        |
            0 <= j < sample.chips[0].temps.len() ==> exists|i: int|
                0 <= i < names.len() && zone_of(reader, #[trigger] names[i]) == Some(
                    #[trigger] sample.chips[0].temps[j],
                ),
{
    let temps = zones_of(reader, names);
    assert(chips_in(reader, seq![]) == Ok::<Seq<HwmonChipView>, ErrorView>(seq![]));
    if zone_of(reader, names[k]) is Some {
        lemma_zone(reader, names, k);
    }
    assert forall|j: int| 0 <= j < temps.len() implies exists|i: int|
        0 <= i < names.len() && zone_of(reader, #[trigger] names[i]) == Some(#[trigger] temps[j]) by {
        let i = lemma_zone_from(reader, names, j);
        assert(zone_of(reader, names[i]) == Some(temps[j]));
    }
}

// ---------------------------------------------------------------------------
// Graphics cards
// ---------------------------------------------------------------------------
/// The maker of a card is told by the number in its own `vendor` file.
pub proof fn makers_are_told_by_their_number(reader: &SysfsReader, card: Seq<char>)
    ensures
        ({
            let file = joined(joined(joined("sys/class/drm"@, card), "device"@), "vendor"@);
            match reader.first_line_at(file) {
                Ok(Ok(id)) => {
                    &&& vendor_of(reader, card) == GpuVendor::Amd <==> id == "0x1002"@
                    &&& vendor_of(reader, card) == GpuVendor::Intel <==> id == "0x8086"@
                    &&& vendor_of(reader, card) == GpuVendor::Nvidia <==> id == "0x10de"@
                },
                _ => vendor_of(reader, card) == GpuVendor::Unknown,
            }
        }),
{
    reveal_strlit("0x1002");
    reveal_strlit("0x8086");
    reveal_strlit("0x10de");
    assert("0x1002"@[2] != "0x8086"@[2]);
    assert("0x1002"@[4] != "0x10de"@[4]);
    assert("0x10de"@[2] != "0x8086"@[2]);
}

/// The sensor directory that a card has below its device.
pub open spec fn is_sensor_dir(reader: &SysfsReader, card: Seq<char>, h: Seq<char>) -> bool {
    let above = joined(joined(joined("sys/class/drm"@, card), "device"@), "hwmon"@);
    reader.names_at(above, NameFilter::Numbered { prefix: "hwmon" }) matches Ok(Ok(names))
        && names.len() > 0 && h == joined(above, lowest_node(names))
}

/// Each figure of an AMD card is that of its own file; the share is out of a
/// hundred, and the power is the average where there is one.
pub proof fn amd_cards_are_read_from_their_files(reader: &SysfsReader, card: Seq<char>)
    ensures
        amd_card_of(reader, card) matches Ok(found) ==> found matches Some(g) && ({
            let dir = joined(joined("sys/class/drm"@, card), "device"@);
            &&& g.name == card
            &&& g.vendor == GpuVendor::Amd
            &&& g.freq_khz is None
            &&& is_in(reader, joined(dir, "mem_info_vram_total"@), bytes_in(g.vram_total))
            &&& is_in(reader, joined(dir, "mem_info_vram_used"@), bytes_in(g.vram_used))
            &&& match g.busy {
                Some((part, whole)) => whole == 100 && part <= 100 && exists|n: u64| #[trigger]
                    holds_number(reader, joined(dir, "gpu_busy_percent"@), n) && (part == n || (n
                        > 100 && part == 100)),
                None => forall|n: u64|
                    !#[trigger] holds_number(reader, joined(dir, "gpu_busy_percent"@), n),
            }
            &&& forall|h: Seq<char>| #[trigger]
                is_sensor_dir(reader, card, h) ==> is_temperature_in(
                    reader,
                    joined(h, "temp1_input"@),
                    g.temp,
                ) && is_power_in(reader, h, g.power) && is_in(
                    reader,
                    joined(h, "fan1_input"@),
                    turns_in(g.fan_rpm),
                )
            &&& (forall|h: Seq<char>| !#[trigger] is_sensor_dir(reader, card, h)) ==> g.temp is None
                && g.power is None && g.fan_rpm is None
        }),
{
    if let Ok(Some(g)) = amd_card_of(reader, card) {
        let dir = joined(joined("sys/class/drm"@, card), "device"@);
        if g.busy is Some {
            let n = reader.u64_at(joined(dir, "gpu_busy_percent"@))->Ok_0->Ok_0;
            assert(holds_number(reader, joined(dir, "gpu_busy_percent"@), n));
        }
        let above = joined(dir, "hwmon"@);
        if let Ok(Ok(names)) = reader.names_at(above, NameFilter::Numbered { prefix: "hwmon" }) {
            if names.len() > 0 {
                assert(is_sensor_dir(reader, card, joined(above, lowest_node(names))));
            }
        }
    }
}

/// Each figure of an Intel card is that of its own file; what is used of its
/// memory is what is not available, and its clock is written in megahertz.
pub proof fn intel_cards_are_read_from_their_files(reader: &SysfsReader, card: Seq<char>)
    ensures
        intel_card_of(reader, card) matches Ok(found) ==> found matches Some(g) && ({
            let own = joined("sys/class/drm"@, card);
            let dir = joined(own, "device"@);
            let clock = joined(own, "gt_cur_freq_mhz"@);
            let other = joined(own, "gt/gt0/freq_cur"@);
            &&& g.name == card
            &&& g.vendor == GpuVendor::Intel
            &&& g.busy is None
            &&& g.fan_rpm is None
            &&& is_in(reader, joined(dir, "lmem_total_bytes"@), bytes_in(g.vram_total))
            &&& forall|t: u64, a: u64| #[trigger]
                holds_number(reader, joined(dir, "lmem_total_bytes"@), t) && #[trigger] holds_number(
                    reader,
                    joined(dir, "lmem_avail_bytes"@),
                    a,
                ) ==> (g.vram_used matches Some(u) && (u.0 + a == t || (a > t && u.0 == 0)))
            &&& forall|n: u64| #[trigger]
                holds_number(reader, clock, n) && n <= 18_446_744_073_709_551 ==> (
                g.freq_khz matches Some(f) && f.0 == n * 1000)
            &&& (forall|n: u64| !#[trigger] holds_number(reader, clock, n)) ==> forall|n: u64|
                #[trigger]
                holds_number(reader, other, n) && n <= 18_446_744_073_709_551 ==> (
                g.freq_khz matches Some(f) && f.0 == n * 1000)
            &&& (forall|n: u64| !#[trigger] holds_number(reader, clock, n)) && (forall|n: u64|
                !#[trigger] holds_number(reader, other, n)) ==> g.freq_khz is None
            &&& forall|h: Seq<char>| #[trigger]
                is_sensor_dir(reader, card, h) ==> is_temperature_in(
                    reader,
                    joined(h, "temp1_input"@),
                    g.temp,
                ) && is_power_in(reader, h, g.power)
            &&& (forall|h: Seq<char>| !#[trigger] is_sensor_dir(reader, card, h)) ==> g.temp is None
                && g.power is None
        }),
{
    if let Ok(Some(g)) = intel_card_of(reader, card) {
        let own = joined("sys/class/drm"@, card);
        let dir = joined(own, "device"@);
        let above = joined(dir, "hwmon"@);
        if let Ok(Ok(names)) = reader.names_at(above, NameFilter::Numbered { prefix: "hwmon" }) {
            if names.len() > 0 {
                assert(is_sensor_dir(reader, card, joined(above, lowest_node(names))));
            }
        }
        if let Ok(Ok(n)) = reader.u64_at(joined(own, "gt_cur_freq_mhz"@)) {
            assert(holds_number(reader, joined(own, "gt_cur_freq_mhz"@), n));
        }
        if let Ok(Ok(n)) = reader.u64_at(joined(own, "gt/gt0/freq_cur"@)) {
            assert(holds_number(reader, joined(own, "gt/gt0/freq_cur"@), n));
        }
    }
}

pub open spec fn bytes_in(b: Option<crate::units::Bytes>) -> Option<u64> {
    match b {
        Some(b) => Some(b.0),
        None => None,
    }
}

pub open spec fn turns_in(r: Option<crate::units::Rpm>) -> Option<u64> {
    match r {
        Some(r) => Some(r.0),
        None => None,
    }
}

/// The power is the average, or the momentary value where there is no average.
pub open spec fn is_power_in(
    reader: &SysfsReader,
    h: Seq<char>,
    p: Option<crate::units::MicroWatts>,
) -> bool {
    let average = joined(h, "power1_average"@);
    let momentary = joined(h, "power1_input"@);
    match p {
        Some(p) => holds_number(reader, average, p.0) || (holds_number(reader, momentary, p.0) && (
        forall|m: u64| !#[trigger] holds_number(reader, average, m))),
        None => (forall|m: u64| !#[trigger] holds_number(reader, average, m)) && (forall|m: u64|
            !#[trigger] holds_number(reader, momentary, m)),
    }
}

proof fn lemma_card_read(reader: &SysfsReader, cards: Seq<CardView>, k: int, gpu: GpuView)
    requires
        0 <= k < cards.len(),
        card_of(reader, cards[k].name, cards[k].vendor) == Ok::<Option<GpuView>, ErrorView>(
            Some(gpu),
        ),
    ensures
        cards_read(reader, cards).0.contains(gpu),
    decreases cards.len(),
{
    let front = cards.drop_last();
    let before = cards_read(reader, front).0;
    let all = cards_read(reader, cards).0;
    if k == cards.len() - 1 {
        assert(all == before.push(gpu));
        assert(all[all.len() - 1] == gpu);
    } else {
        assert(front[k] == cards[k]);
        lemma_card_read(reader, front, k, gpu);
        let j = choose|j: int| 0 <= j < before.len() && before[j] == gpu;
        assert(before.len() <= all.len() && all[j] == before[j]);
    }
}

proof fn lemma_card_from(reader: &SysfsReader, cards: Seq<CardView>, j: int) -> (k: int)
    requires
        0 <= j < cards_read(reader, cards).0.len(),
    ensures
        0 <= k < cards.len(),
        card_of(reader, cards[k].name, cards[k].vendor) == Ok::<Option<GpuView>, ErrorView>(
            Some(cards_read(reader, cards).0[j]),
        ),
    decreases cards.len(),
{
    let front = cards.drop_last();
    let before = cards_read(reader, front).0;
    if j < before.len() {
        let k = lemma_card_from(reader, front, j);
        assert(cards_read(reader, cards).0[j] == before[j]);
        k
    } else {
        cards.len() - 1
    }
}

/// At a first collection, every card that the machine lists is read as its own
/// maker's, and is in the snapshot where that succeeds; no other card is.
pub proof fn every_card_is_kept(
    reader: &SysfsReader,
    before: SnapshotView,
    names: Seq<Seq<char>>,
    k: int,
)
    requires
        reader.names_at("sys/class/drm"@, NameFilter::Numbered { prefix: "card" }) == Ok::<
            Result<Seq<Seq<char>>, Absence>,
            ErrorView,
        >(Ok(names)),
        0 <= k < names.len(),
    ensures
        ({
            let after = gpu_collected(seq![], reader, before).snapshot;
            &&& vendor_of(reader, names[k]) == GpuVendor::Amd ==> (amd_card_of(reader, names[k])
                matches Ok(Some(gpu)) ==> after.gpus is Some && after.gpus->0.gpus.contains(gpu))
            &&& vendor_of(reader, names[k]) == GpuVendor::Intel ==> (intel_card_of(
                reader,
                names[k],
            ) matches Ok(Some(gpu)) ==> after.gpus is Some && after.gpus->0.gpus.contains(gpu))
            &&& after.gpus matches Some(sample) ==> forall|j: int|
                0 <= j < sample.gpus.len() ==> card_was_read(
                    reader,
                    names,
                    #[trigger] sample.gpus[j],
                )
        }),
{
    let cards = identified(reader, names);
    let after = gpu_collected(seq![], reader, before).snapshot;
    assert(cards_of(reader) == Ok::<Seq<Seq<char>>, ErrorView>(names));
    if let Ok(Some(gpu)) = card_of(reader, cards[k].name, cards[k].vendor) {
        lemma_card_read(reader, cards, k, gpu);
    }
    if let Some(sample) = after.gpus {
        assert forall|j: int| 0 <= j < sample.gpus.len() implies card_was_read(
            reader,
            names,
            #[trigger] sample.gpus[j],
        ) by {
            let i = lemma_card_from(reader, cards, j);
            assert(cards[i].name == names[i]);
        }
    }
}

/// The card is one of those listed, read as its maker's.
pub open spec fn card_was_read(reader: &SysfsReader, names: Seq<Seq<char>>, gpu: GpuView) -> bool {
    exists|i: int|
        0 <= i < names.len() && ((vendor_of(reader, #[trigger] names[i]) == GpuVendor::Amd
            && amd_card_of(reader, names[i]) == Ok::<Option<GpuView>, ErrorView>(Some(gpu))) || (
        vendor_of(reader, names[i]) == GpuVendor::Intel && intel_card_of(reader, names[i]) == Ok::<
            Option<GpuView>,
            ErrorView,
        >(Some(gpu))))
}

/// Chips whose directories are all still there are read where they were. Where one is
/// gone, all are looked for anew.
pub proof fn remembered_chips_are_read(
    reader: &SysfsReader,
    dirs: Seq<Seq<char>>,
    before: SnapshotView,
    fresh: Seq<Seq<char>>,
)
    requires
        dirs.len() > 0,
    ensures
        (forall|i: int|
            0 <= i < dirs.len() ==> reader.present(
                "sys/class/hwmon/"@ + #[trigger] dirs[i],
            )) ==> thermal_collected(dirs, reader, before).state == dirs && cached_chips_of(
            reader,
            dirs,
        ).1 == chips_in(reader, dirs),
        (exists|i: int|
            0 <= i < dirs.len() && !reader.present(
                "sys/class/hwmon/"@ + #[trigger] dirs[i],
            )) && chip_dirs_of(reader) == Ok::<Seq<Seq<char>>, ErrorView>(fresh)
            ==> thermal_collected(dirs, reader, before).state == fresh && cached_chips_of(
            reader,
            dirs,
        ).1 == chips_in(reader, fresh),
{
    reveal_strlit("sys/class/hwmon");
    reveal_strlit("sys/class/hwmon/");
    reveal_strlit("/");
    assert(SYS_HWMON@ + "/"@ =~= "sys/class/hwmon/"@);
    assert forall|i: int| 0 <= i < dirs.len() implies chip_path(#[trigger] dirs[i])
        == "sys/class/hwmon/"@ + dirs[i] by {}
}

} // verus!
