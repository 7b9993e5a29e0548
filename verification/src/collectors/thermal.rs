//! Temperatures and fans from `/sys/class/hwmon`, with the poorer
//! `/sys/class/thermal` as a fallback.
//!
//! One bad sensor costs that sensor and nothing else: hwmon drivers answer
//! with errors routinely, for a probe that is not connected for example.

use vstd::prelude::*;

use crate::collector::{Collected, Collector};
use crate::error::{Error, ErrorView};
use crate::number::{decimal, decimal_string, parse, parse_of};
use crate::order::{insert_number, numbers_sorted};
use crate::sample::{
    option_view, views, FanSensor, FanSensorView, HwmonChip, HwmonChipView, Snapshot, SnapshotView,
    TempSensor, TempSensorView, ThermalSample, ThermalSampleView,
};
use crate::sysfs::{
    join, joined, sanitize_kernel_string, sanitized, NameFilter, SysfsReader,
};
use crate::text::{
    chars_of, first_of, strings, strip_prefix, strip_suffix, text3, text4,
    text_option_view, without_prefix, without_suffix,
};
use crate::units::{MilliCelsius, Rpm};

verus! {

pub const NAME: &'static str = "thermal";

pub const SYS_HWMON: &'static str = "sys/class/hwmon";

pub const SYS_THERMAL: &'static str = "sys/class/thermal";

/// Cap on the sensors of one chip.
pub const MAX_SENSORS_PER_CHIP: usize = 256;

/// Cap on a chip's name and on a sensor's label.
pub const MAX_LABEL_LEN: usize = 64;

// ---------------------------------------------------------------------------
// One sensor
// ---------------------------------------------------------------------------
/// The file of a sensor: `temp3_input`, `fan1_label`.
pub open spec fn sensor_file(dir: Seq<char>, kind: Seq<char>, index: u32, what: Seq<char>) -> Seq<char> {
    joined(dir, kind + decimal(index as nat) + what)
}

fn sensor_path(dir: &str, kind: &str, index: u32, what: &str) -> (r: String)
    ensures
        r@ == sensor_file(dir@, kind@, index, what@),
{
    let n = decimal_string(index as u64);
    let file = text3(kind, n.as_str(), what);
    join(dir, file.as_str())
}

pub open spec fn label_at(reader: &SysfsReader, path: Seq<char>) -> Option<Seq<char>> {
    match reader.first_line_at(path) {
        Ok(Ok(raw)) => Some(sanitized(raw, MAX_LABEL_LEN as nat)),
        _ => None,
    }
}

pub open spec fn limit_at(reader: &SysfsReader, path: Seq<char>) -> Option<MilliCelsius> {
    match reader.i64_at(path) {
        Ok(Ok(v)) => Some(MilliCelsius(v)),
        _ => None,
    }
}

/// A label decorates a reading: a bad one must not cost the reading.
fn read_optional_label(reader: &SysfsReader, path: &str) -> (r: Option<String>)
    ensures
        text_option_view(r) == label_at(reader, path@),
{
    match reader.read_first_line(path) {
        Ok(Ok(raw)) => Some(sanitize_kernel_string(raw.as_str(), MAX_LABEL_LEN)),
        _ => None,
    }
}

/// A limit decorates a reading too.
fn read_optional_millicelsius(reader: &SysfsReader, path: &str) -> (r: Option<MilliCelsius>)
    ensures
        r == limit_at(reader, path@),
{
    match reader.read_i64(path) {
        Ok(Ok(v)) => Some(MilliCelsius::from_millidegrees(v)),
        _ => None,
    }
}

/// The label of a sensor, or the chip's name and the sensor's number where it
/// has none.
pub open spec fn sensor_label(
    reader: &SysfsReader,
    dir: Seq<char>,
    chip_name: Seq<char>,
    kind: Seq<char>,
    index: u32,
) -> Seq<char> {
    match label_at(reader, sensor_file(dir, kind, index, "_label"@)) {
        Some(label) => label,
        None => chip_name + " "@ + kind + decimal(index as nat),
    }
}

fn read_label(reader: &SysfsReader, dir: &str, chip_name: &str, kind: &str, index: u32) -> (r: String)
    ensures
        r@ == sensor_label(reader, dir@, chip_name@, kind@, index),
{
    let path = sensor_path(dir, kind, index, "_label");
    match read_optional_label(reader, path.as_str()) {
        Some(label) => label,
        None => {
            let n = decimal_string(index as u64);
            text4(chip_name, " ", kind, n.as_str())
        },
    }
}

/// A temperature sensor, if it has a reading that makes sense.
pub open spec fn temp_sensor_of(
    reader: &SysfsReader,
    dir: Seq<char>,
    chip_name: Seq<char>,
    index: u32,
) -> Option<TempSensorView> {
    match reader.i64_at(sensor_file(dir, "temp"@, index, "_input"@)) {
        Ok(Ok(v)) => Some(
            TempSensorView {
                label: sensor_label(reader, dir, chip_name, "temp"@, index),
                value: MilliCelsius(v),
                max: limit_at(reader, sensor_file(dir, "temp"@, index, "_max"@)),
                crit: limit_at(reader, sensor_file(dir, "temp"@, index, "_crit"@)),
            },
        ),
        _ => None,
    }
}

/// A fan, if it has a reading that makes sense.
pub open spec fn fan_sensor_of(
    reader: &SysfsReader,
    dir: Seq<char>,
    chip_name: Seq<char>,
    index: u32,
) -> Option<FanSensorView> {
    match reader.u64_at(sensor_file(dir, "fan"@, index, "_input"@)) {
        Ok(Ok(v)) => Some(
            FanSensorView {
                label: sensor_label(reader, dir, chip_name, "fan"@, index),
                rpm: Rpm(v),
            },
        ),
        _ => None,
    }
}

/// Reads `tempN_input`, with label and limits where they are there.
pub fn read_temp_sensor(
    reader: &SysfsReader,
    chip_dir: &str,
    chip_name: &str,
    index: u32,
) -> (r: Result<Option<TempSensor>, Error>)
    ensures
        r is Ok,
        option_view(r->Ok_0) == temp_sensor_of(reader, chip_dir@, chip_name@, index),
{
    let path = sensor_path(chip_dir, "temp", index, "_input");
    let value = match reader.read_i64(path.as_str()) {
        Ok(Ok(v)) => MilliCelsius::from_millidegrees(v),
        _ => return Ok(None),
    };
    let label = read_label(reader, chip_dir, chip_name, "temp", index);
    let path = sensor_path(chip_dir, "temp", index, "_max");
    let max = read_optional_millicelsius(reader, path.as_str());
    let path = sensor_path(chip_dir, "temp", index, "_crit");
    let crit = read_optional_millicelsius(reader, path.as_str());
    Ok(Some(TempSensor { label, value, max, crit }))
}

/// Reads `fanN_input`, with its label where it is there.
pub fn read_fan_sensor(
    reader: &SysfsReader,
    chip_dir: &str,
    chip_name: &str,
    index: u32,
) -> (r: Result<Option<FanSensor>, Error>)
    ensures
        r is Ok,
        option_view(r->Ok_0) == fan_sensor_of(reader, chip_dir@, chip_name@, index),
{
    let path = sensor_path(chip_dir, "fan", index, "_input");
    let rpm = match reader.read_u64(path.as_str()) {
        Ok(Ok(v)) => Rpm::from_rpm(v),
        _ => return Ok(None),
    };
    let label = read_label(reader, chip_dir, chip_name, "fan", index);
    Ok(Some(FanSensor { label, rpm }))
}

// ---------------------------------------------------------------------------
// The sensors of a chip
// ---------------------------------------------------------------------------
/// The number between `prefix` and `_input` in a file's name.
pub open spec fn sensor_index(name: Seq<char>, prefix: Seq<char>) -> Option<u32> {
    match without_prefix(name, prefix) {
        Some(rest) => match without_suffix(rest, "_input"@) {
            Some(middle) => match parse_of(middle, 10, u32::MAX as nat) {
                Some(n) => Some(n as u32),
                None => None,
            },
            None => None,
        },
        None => None,
    }
}

pub open spec fn indices_in(names: Seq<Seq<char>>, prefix: Seq<char>) -> Seq<u32>
    decreases names.len(),
{
    if names.len() == 0 {
        seq![]
    } else {
        let before = indices_in(names.drop_last(), prefix);
        match sensor_index(names.last(), prefix) {
            Some(n) => before.push(n),
            None => before,
        }
    }
}

/// The numbers of the sensors that a chip has, in ascending order. They need
/// not be contiguous.
pub open spec fn sensor_indices_of(reader: &SysfsReader, dir: Seq<char>, prefix: &str) -> Result<
    Seq<u32>,
    ErrorView,
> {
    match reader.names_at(dir, NameFilter::Affixed { prefix, suffix: "_input" }) {
        Err(e) => Err(e),
        Ok(Err(_)) => Ok(seq![]),
        Ok(Ok(names)) => Ok(
            first_of(numbers_sorted(indices_in(names, prefix@)), MAX_SENSORS_PER_CHIP as nat),
        ),
    }
}

pub open spec fn indices_view(r: Result<Vec<u32>, Error>) -> Result<Seq<u32>, ErrorView> {
    match r {
        Ok(v) => Ok(v@),
        Err(e) => Err(e@),
    }
}

fn index_in(name: &str, prefix: &str) -> (r: Option<u32>)
    ensures
        r == sensor_index(name@, prefix@),
{
    let cs = chars_of(name);
    match strip_prefix(cs.as_slice(), prefix) {
        Some(rest) => match strip_suffix(rest, "_input") {
            Some(middle) => match parse(middle, 10, u32::MAX as u64) {
                Some(n) => Some(n as u32),
                None => None,
            },
            None => None,
        },
        None => None,
    }
}

/// The sensors that are there, found by listing: `prefix` is `temp` or `fan`.
/// Counting up from one would lose every sensor behind a gap.
pub fn sensor_indices(reader: &SysfsReader, chip_dir: &str, prefix: &str) -> (r: Result<
    Vec<u32>,
    Error,
>)
    ensures
        indices_view(r) == sensor_indices_of(reader, chip_dir@, prefix),
{
    let names = match reader.list_dir(chip_dir, NameFilter::Affixed { prefix, suffix: "_input" }) {
        Err(e) => return Err(e),
        Ok(Err(_)) => return Ok(Vec::new()),
        Ok(Ok(names)) => names,
    };
    let ghost ns = strings(names@);
    let mut indices: Vec<u32> = Vec::new();
    let mut i: usize = 0;
    while i < names.len()
        invariant
            i <= names.len(),
            ns == strings(names@),
            indices@ == numbers_sorted(indices_in(ns.take(i as int), prefix@)),
        decreases names.len() - i,
    {
        assert(ns.take(i + 1).drop_last() == ns.take(i as int));
        assert(ns.take(i + 1).last() == names@[i as int]@);
        if let Some(n) = index_in(names[i].as_str(), prefix) {
            let ghost before = indices_in(ns.take(i as int), prefix@);
            assert(before.push(n).drop_last() == before);
            insert_number(&mut indices, n);
        }
        i = i + 1;
    }
    assert(ns.take(i as int) == ns);
    let ghost all = indices@;
    indices.truncate(MAX_SENSORS_PER_CHIP);
    assert(indices@ == first_of(all, MAX_SENSORS_PER_CHIP as nat));
    Ok(indices)
}

pub open spec fn temps_of(
    reader: &SysfsReader,
    dir: Seq<char>,
    chip_name: Seq<char>,
    indices: Seq<u32>,
) -> Seq<TempSensorView>
    decreases indices.len(),
{
    if indices.len() == 0 {
        seq![]
    } else {
        let before = temps_of(reader, dir, chip_name, indices.drop_last());
        match temp_sensor_of(reader, dir, chip_name, indices.last()) {
            Some(t) => before.push(t),
            None => before,
        }
    }
}

pub open spec fn fans_of(
    reader: &SysfsReader,
    dir: Seq<char>,
    chip_name: Seq<char>,
    indices: Seq<u32>,
) -> Seq<FanSensorView>
    decreases indices.len(),
{
    if indices.len() == 0 {
        seq![]
    } else {
        let before = fans_of(reader, dir, chip_name, indices.drop_last());
        match fan_sensor_of(reader, dir, chip_name, indices.last()) {
            Some(f) => before.push(f),
            None => before,
        }
    }
}

/// What a chip's directory holds: nothing where it has no name, or no sensor
/// with a reading.
#[verifier::opaque]
pub open spec fn chip_of(reader: &SysfsReader, dir: Seq<char>) -> Result<
    Option<HwmonChipView>,
    ErrorView,
> {
    match reader.first_line_at(joined(dir, "name"@)) {
        Ok(Ok(raw)) => {
            let name = sanitized(raw, MAX_LABEL_LEN as nat);
            match sensor_indices_of(reader, dir, "temp") {
                Err(e) => Err(e),
                Ok(temp_indices) => match sensor_indices_of(reader, dir, "fan") {
                    Err(e) => Err(e),
                    Ok(fan_indices) => {
                        let temps = temps_of(reader, dir, name, temp_indices);
                        let fans = fans_of(reader, dir, name, fan_indices);
                        if temps.len() == 0 && fans.len() == 0 {
                            Ok(None)
                        } else {
                            Ok(Some(HwmonChipView { name, temps, fans }))
                        }
                    },
                },
            }
        },
        _ => Ok(None),
    }
}

pub open spec fn chip_view(r: Result<Option<HwmonChip>, Error>) -> Result<
    Option<HwmonChipView>,
    ErrorView,
> {
    match r {
        Ok(chip) => Ok(option_view(chip)),
        Err(e) => Err(e@),
    }
}

fn read_temps(reader: &SysfsReader, dir: &str, name: &str, indices: &Vec<u32>) -> (r: Result<
    Vec<TempSensor>,
    Error,
>)
    ensures
        r is Ok,
        views(r->Ok_0@) == temps_of(reader, dir@, name@, indices@),
{
    let mut out: Vec<TempSensor> = Vec::new();
    let mut i: usize = 0;
    assert(views(out@) == Seq::<TempSensorView>::empty());
    while i < indices.len()
        invariant
            i <= indices.len(),
            views(out@) == temps_of(reader, dir@, name@, indices@.take(i as int)),
        decreases indices.len() - i,
    {
        assert(indices@.take(i + 1).drop_last() == indices@.take(i as int));
        match read_temp_sensor(reader, dir, name, indices[i]) {
            Err(e) => return Err(e),
            Ok(None) => {},
            Ok(Some(t)) => {
                let ghost before = views(out@);
                out.push(t);
                assert(views(out@) == before.push(t@));
            },
        }
        i = i + 1;
    }
    assert(indices@.take(i as int) == indices@);
    Ok(out)
}

fn read_fans(reader: &SysfsReader, dir: &str, name: &str, indices: &Vec<u32>) -> (r: Result<
    Vec<FanSensor>,
    Error,
>)
    ensures
        r is Ok,
        views(r->Ok_0@) == fans_of(reader, dir@, name@, indices@),
{
    let mut out: Vec<FanSensor> = Vec::new();
    let mut i: usize = 0;
    assert(views(out@) == Seq::<FanSensorView>::empty());
    while i < indices.len()
        invariant
            i <= indices.len(),
            views(out@) == fans_of(reader, dir@, name@, indices@.take(i as int)),
        decreases indices.len() - i,
    {
        assert(indices@.take(i + 1).drop_last() == indices@.take(i as int));
        match read_fan_sensor(reader, dir, name, indices[i]) {
            Err(e) => return Err(e),
            Ok(None) => {},
            Ok(Some(f)) => {
                let ghost before = views(out@);
                out.push(f);
                assert(views(out@) == before.push(f@));
            },
        }
        i = i + 1;
    }
    assert(indices@.take(i as int) == indices@);
    Ok(out)
}

/// Reads one chip's directory.
pub fn read_chip(reader: &SysfsReader, chip_dir: &str) -> (r: Result<Option<HwmonChip>, Error>)
    ensures
        chip_view(r) == chip_of(reader, chip_dir@),
{
    reveal(chip_of);
    let path = join(chip_dir, "name");
    let name = match reader.read_first_line(path.as_str()) {
        Ok(Ok(raw)) => sanitize_kernel_string(raw.as_str(), MAX_LABEL_LEN),
        _ => return Ok(None),
    };
    let indices = match sensor_indices(reader, chip_dir, "temp") {
        Err(e) => return Err(e),
        Ok(indices) => indices,
    };
    let temps = match read_temps(reader, chip_dir, name.as_str(), &indices) {
        Err(e) => return Err(e),
        Ok(temps) => temps,
    };
    let indices = match sensor_indices(reader, chip_dir, "fan") {
        Err(e) => return Err(e),
        Ok(indices) => indices,
    };
    let fans = match read_fans(reader, chip_dir, name.as_str(), &indices) {
        Err(e) => return Err(e),
        Ok(fans) => fans,
    };
    assert(views(temps@).len() == temps@.len());
    assert(views(fans@).len() == fans@.len());
    if temps.len() == 0 && fans.len() == 0 {
        return Ok(None);
    }
    Ok(Some(HwmonChip { name, temps, fans }))
}

// ---------------------------------------------------------------------------
// All chips
// ---------------------------------------------------------------------------
pub open spec fn chip_path(name: Seq<char>) -> Seq<char> {
    SYS_HWMON@ + "/"@ + name
}

fn hwmon_chip_dir(name: &str) -> (r: String)
    ensures
        r@ == chip_path(name@),
{
    text3(SYS_HWMON, "/", name)
}

/// The directories of the chips, in order.
pub open spec fn chip_dirs_of(reader: &SysfsReader) -> Result<Seq<Seq<char>>, ErrorView> {
    match reader.names_at(SYS_HWMON@, NameFilter::Numbered { prefix: "hwmon" }) {
        Err(e) => Err(e),
        Ok(Err(_)) => Ok(seq![]),
        Ok(Ok(names)) => Ok(names),
    }
}

pub open spec fn names_view(r: Result<Vec<String>, Error>) -> Result<Seq<Seq<char>>, ErrorView> {
    match r {
        Ok(v) => Ok(strings(v@)),
        Err(e) => Err(e@),
    }
}

fn list_hwmon_chip_dirs(reader: &SysfsReader) -> (r: Result<Vec<String>, Error>)
    ensures
        names_view(r) == chip_dirs_of(reader),
{
    match reader.list_dir(SYS_HWMON, NameFilter::Numbered { prefix: "hwmon" }) {
        Err(e) => Err(e),
        Ok(Ok(names)) => Ok(names),
        Ok(Err(_)) => {
            let none: Vec<String> = Vec::new();
            assert(strings(none@) == Seq::<Seq<char>>::empty());
            Ok(none)
        },
    }
}

/// The chips in the directories, without those that hold nothing; the first
/// that fails is an error.
pub open spec fn chips_in(reader: &SysfsReader, dirs: Seq<Seq<char>>) -> Result<
    Seq<HwmonChipView>,
    ErrorView,
>
    decreases dirs.len(),
{
    if dirs.len() == 0 {
        Ok(seq![])
    } else {
        match chip_of(reader, chip_path(dirs[0])) {
            Err(e) => Err(e),
            Ok(found) => match chips_in(reader, dirs.drop_first()) {
                Err(e) => Err(e),
                Ok(rest) => match found {
                    Some(chip) => Ok(seq![chip] + rest),
                    None => Ok(rest),
                },
            },
        }
    }
}

pub open spec fn chips_view(r: Result<Vec<HwmonChip>, Error>) -> Result<
    Seq<HwmonChipView>,
    ErrorView,
> {
    match r {
        Ok(v) => Ok(views(v@)),
        Err(e) => Err(e@),
    }
}

fn read_dirs(reader: &SysfsReader, dirs: &Vec<String>) -> (r: Result<Vec<HwmonChip>, Error>)
    ensures
        chips_view(r) == chips_in(reader, strings(dirs@)),
{
    let ghost ds = strings(dirs@);
    let mut out: Vec<HwmonChip> = Vec::new();
    let mut i: usize = 0;
    assert(ds.skip(0) == ds);
    assert forall|rest: Seq<HwmonChipView>| #[trigger] (views(out@) + rest) == rest by {}
    while i < dirs.len()
        invariant
            i <= dirs.len(),
            ds == strings(dirs@),
            chips_in(reader, ds) == match chips_in(reader, ds.skip(i as int)) {
                Ok(rest) => Ok::<Seq<HwmonChipView>, ErrorView>(views(out@) + rest),
                Err(e) => Err(e),
            },
        decreases dirs.len() - i,
    {
        assert(ds.skip(i as int)[0] == dirs@[i as int]@);
        assert(ds.skip(i as int).drop_first() == ds.skip(i + 1));
        let dir = hwmon_chip_dir(dirs[i].as_str());
        match read_chip(reader, dir.as_str()) {
            Err(e) => return Err(e),
            Ok(None) => {},
            Ok(Some(chip)) => {
                let ghost before = views(out@);
                out.push(chip);
                assert(views(out@) == before.push(chip@));
                proof {
                    match chips_in(reader, ds.skip(i + 1)) {
                        Ok(more) => {
                            assert(before.push(chip@) + more == before + (seq![chip@] + more));
                        },
                        Err(_) => {},
                    }
                }
            },
        }
        i = i + 1;
    }
    assert(ds.skip(i as int) == Seq::<Seq<char>>::empty());
    assert(views(out@) + Seq::<HwmonChipView>::empty() == views(out@));
    Ok(out)
}

/// What all chips' directories hold.
pub open spec fn hwmon_chips_of(reader: &SysfsReader) -> Result<Seq<HwmonChipView>, ErrorView> {
    match chip_dirs_of(reader) {
        Err(e) => Err(e),
        Ok(dirs) => chips_in(reader, dirs),
    }
}

/// Enumerates and reads every chip.
pub fn read_hwmon_chips(reader: &SysfsReader) -> (r: Result<Vec<HwmonChip>, Error>)
    ensures
        chips_view(r) == hwmon_chips_of(reader),
{
    match list_hwmon_chip_dirs(reader) {
        Err(e) => Err(e),
        Ok(dirs) => read_dirs(reader, &dirs),
    }
}

// ---------------------------------------------------------------------------
// Thermal zones
// ---------------------------------------------------------------------------
/// The temperature of a zone, if it has one that makes sense. A zone is known
/// by its type, or by its directory where it has none.
pub open spec fn zone_of(reader: &SysfsReader, name: Seq<char>) -> Option<TempSensorView> {
    let dir = SYS_THERMAL@ + "/"@ + name;
    match reader.i64_at(joined(dir, "temp"@)) {
        Ok(Ok(v)) => Some(
            TempSensorView {
                label: match label_at(reader, joined(dir, "type"@)) {
                    Some(label) => label,
                    None => name,
                },
                value: MilliCelsius(v),
                max: None,
                crit: None,
            },
        ),
        _ => None,
    }
}

pub open spec fn zones_of(reader: &SysfsReader, names: Seq<Seq<char>>) -> Seq<TempSensorView>
    decreases names.len(),
{
    if names.len() == 0 {
        seq![]
    } else {
        let before = zones_of(reader, names.drop_last());
        match zone_of(reader, names.last()) {
            Some(t) => before.push(t),
            None => before,
        }
    }
}

/// The thermal zones as one chip, if any has a temperature.
pub open spec fn thermal_zones_of(reader: &SysfsReader) -> Result<Seq<HwmonChipView>, ErrorView> {
    match reader.names_at(SYS_THERMAL@, NameFilter::Numbered { prefix: "thermal_zone" }) {
        Err(e) => Err(e),
        Ok(Err(_)) => Ok(seq![]),
        Ok(Ok(names)) => {
            let temps = zones_of(reader, first_of(names, MAX_SENSORS_PER_CHIP as nat));
            if temps.len() == 0 {
                Ok(seq![])
            } else {
                Ok(seq![HwmonChipView { name: "thermal_zone"@, temps, fans: seq![] }])
            }
        },
    }
}

fn read_zone(reader: &SysfsReader, name: &str) -> (r: Option<TempSensor>)
    ensures
        option_view(r) == zone_of(reader, name@),
{
    let dir = text3(SYS_THERMAL, "/", name);
    let path = join(dir.as_str(), "temp");
    let value = match reader.read_i64(path.as_str()) {
        Ok(Ok(v)) => MilliCelsius::from_millidegrees(v),
        _ => return None,
    };
    let path = join(dir.as_str(), "type");
    let label = match read_optional_label(reader, path.as_str()) {
        Some(label) => label,
        None => name.to_owned(),
    };
    Some(TempSensor { label, value, max: None, crit: None })
}

/// The fallback for a machine without hwmon chips, shown as one chip named
/// `thermal_zone`. Its trip points are left alone.
pub fn read_thermal_zones(reader: &SysfsReader) -> (r: Result<Vec<HwmonChip>, Error>)
    ensures
        chips_view(r) == thermal_zones_of(reader),
{
    let mut out: Vec<HwmonChip> = Vec::new();
    assert(views(out@) == Seq::<HwmonChipView>::empty());
    let mut names = match reader.list_dir(
        SYS_THERMAL,
        NameFilter::Numbered { prefix: "thermal_zone" },
    ) {
        Err(e) => return Err(e),
        Ok(Err(_)) => return Ok(out),
        Ok(Ok(names)) => names,
    };
    let ghost all = strings(names@);
    names.truncate(MAX_SENSORS_PER_CHIP);
    let ghost ns = strings(names@);
    assert(ns == first_of(all, MAX_SENSORS_PER_CHIP as nat));
    let mut temps: Vec<TempSensor> = Vec::new();
    let mut i: usize = 0;
    assert(views(temps@) == Seq::<TempSensorView>::empty());
    while i < names.len()
        invariant
            i <= names.len(),
            ns == strings(names@),
            views(temps@) == zones_of(reader, ns.take(i as int)),
        decreases names.len() - i,
    {
        assert(ns.take(i + 1).drop_last() == ns.take(i as int));
        assert(ns.take(i + 1).last() == names@[i as int]@);
        if let Some(t) = read_zone(reader, names[i].as_str()) {
            let ghost before = views(temps@);
            temps.push(t);
            assert(views(temps@) == before.push(t@));
        }
        i = i + 1;
    }
    assert(ns.take(i as int) == ns);
    assert(views(temps@).len() == temps@.len());
    if temps.len() == 0 {
        return Ok(out);
    }
    let fans: Vec<FanSensor> = Vec::new();
    assert(views(fans@) == Seq::<FanSensorView>::empty());
    let chip = HwmonChip { name: "thermal_zone".to_owned(), temps, fans };
    out.push(chip);
    assert(views(out@) == seq![chip@]);
    Ok(out)
}

// ---------------------------------------------------------------------------
// The collector
// ---------------------------------------------------------------------------
/// The sample of some chips; none where there are none, as in a virtual
/// machine.
pub open spec fn thermal_sample_of(chips: Seq<HwmonChipView>) -> Option<ThermalSampleView> {
    if chips.len() == 0 {
        None
    } else {
        Some(ThermalSampleView { chips })
    }
}

pub fn build_sample(chips: Vec<HwmonChip>) -> (r: Option<ThermalSample>)
    ensures
        option_view(r) == thermal_sample_of(views(chips@)),
{
    assert(views(chips@).len() == chips@.len());
    if chips.len() == 0 {
        None
    } else {
        Some(ThermalSample { chips })
    }
}

#[derive(Debug)]
pub struct ThermalCollector {
    /// The chips' directories, listed again only when one has gone.
    chip_dirs: Vec<String>,
}

/// A directory that was known is not there any more.
pub open spec fn stale(reader: &SysfsReader, dirs: Seq<Seq<char>>) -> bool {
    exists|i: int| 0 <= i < dirs.len() && !reader.present(chip_path(#[trigger] dirs[i]))
}

/// The directories after a first look, when none were known.
pub open spec fn listed_dirs(reader: &SysfsReader, dirs: Seq<Seq<char>>) -> Result<
    Seq<Seq<char>>,
    ErrorView,
> {
    if dirs.len() == 0 {
        chip_dirs_of(reader)
    } else {
        Ok(dirs)
    }
}

/// The directories that are remembered, and the chips in them. A chip that
/// disappears is noticed at once; one that appears is not, unless another
/// disappears.
pub open spec fn cached_chips_of(reader: &SysfsReader, dirs: Seq<Seq<char>>) -> (
    Seq<Seq<char>>,
    Result<Seq<HwmonChipView>, ErrorView>,
) {
    match listed_dirs(reader, dirs) {
        Err(e) => (dirs, Err(e)),
        Ok(known) => if stale(reader, known) {
            match chip_dirs_of(reader) {
                Err(e) => (known, Err(e)),
                Ok(fresh) => (fresh, chips_in(reader, fresh)),
            }
        } else {
            (known, chips_in(reader, known))
        },
    }
}

/// What a collection does.
pub open spec fn thermal_collected(
    dirs: Seq<Seq<char>>,
    reader: &SysfsReader,
    before: SnapshotView,
) -> Collected<Seq<Seq<char>>> {
    let (known, found) = cached_chips_of(reader, dirs);
    let chips = match found {
        Err(e) => Err(e),
        Ok(chips) => if chips.len() == 0 {
            thermal_zones_of(reader)
        } else {
            Ok(chips)
        },
    };
    match chips {
        Err(e) => Collected { state: known, snapshot: before, outcome: Err(e) },
        Ok(chips) => Collected {
            state: known,
            snapshot: SnapshotView { thermal: thermal_sample_of(chips), ..before },
            outcome: Ok(()),
        },
    }
}

impl ThermalCollector {
    pub closed spec fn dirs(&self) -> Seq<Seq<char>> {
        strings(self.chip_dirs@)
    }

    pub fn new() -> (r: ThermalCollector)
        ensures
            r.dirs() == Seq::<Seq<char>>::empty(),
    {
        let r = ThermalCollector { chip_dirs: Vec::new() };
        assert(strings(r.chip_dirs@) == Seq::<Seq<char>>::empty());
        r
    }

    fn is_stale(&self, reader: &SysfsReader) -> (r: bool)
        ensures
            r == stale(reader, self.dirs()),
    {
        let ghost ds = self.dirs();
        let mut i: usize = 0;
        while i < self.chip_dirs.len()
            invariant
                i <= self.chip_dirs@.len(),
                ds == self.dirs(),
                forall|k: int| 0 <= k < i ==> reader.present(chip_path(#[trigger] ds[k])),
            decreases self.chip_dirs@.len() - i,
        {
            let dir = hwmon_chip_dir(self.chip_dirs[i].as_str());
            assert(ds[i as int] == self.chip_dirs@[i as int]@);
            if !reader.is_present(dir.as_str()) {
                return true;
            }
            i = i + 1;
        }
        false
    }

    /// Reads every chip that is known, and looks again where one has gone.
    fn read_cached_chips(&mut self, reader: &SysfsReader) -> (r: Result<Vec<HwmonChip>, Error>)
        ensures
            (final(self).dirs(), chips_view(r)) == cached_chips_of(reader, old(self).dirs()),
    {
        assert(self.dirs().len() == self.chip_dirs@.len());
        if self.chip_dirs.len() == 0 {
            match list_hwmon_chip_dirs(reader) {
                Err(e) => return Err(e),
                Ok(dirs) => self.chip_dirs = dirs,
            }
        }
        if self.is_stale(reader) {
            match list_hwmon_chip_dirs(reader) {
                Err(e) => return Err(e),
                Ok(dirs) => self.chip_dirs = dirs,
            }
        }
        read_dirs(reader, &self.chip_dirs)
    }
}

impl Collector for ThermalCollector {
    type Model = Seq<Seq<char>>;

    open spec fn model(&self) -> Seq<Seq<char>> {
        self.dirs()
    }

    open spec fn named(state: Seq<Seq<char>>) -> Seq<char> {
        NAME@
    }

    open spec fn usable(state: Seq<Seq<char>>, reader: &SysfsReader) -> bool {
        (chip_dirs_of(reader) matches Ok(names) && names.len() > 0) || reader.present(SYS_THERMAL@)
    }

    open spec fn collected(
        state: Seq<Seq<char>>,
        reader: &SysfsReader,
        before: SnapshotView,
    ) -> Collected<Seq<Seq<char>>> {
        thermal_collected(state, reader, before)
    }

    fn name(&self) -> (r: &'static str) {
        NAME
    }

    fn probe(&self, reader: &SysfsReader) -> (r: bool) {
        if let Ok(names) = list_hwmon_chip_dirs(reader) {
            assert(strings(names@).len() == names@.len());
            if names.len() > 0 {
                return true;
            }
        }
        reader.is_present(SYS_THERMAL)
    }

    fn collect(&mut self, reader: &SysfsReader, snapshot: &mut Snapshot) -> (r: Result<(), Error>) {
        let mut chips = match self.read_cached_chips(reader) {
            Err(e) => return Err(e),
            Ok(chips) => chips,
        };
        assert(views(chips@).len() == chips@.len());
        if chips.len() == 0 {
            match read_thermal_zones(reader) {
                Err(e) => return Err(e),
                Ok(zones) => chips = zones,
            }
        }
        snapshot.thermal = build_sample(chips);
        Ok(())
    }
}

} // verus!
