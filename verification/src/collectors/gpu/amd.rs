//! AMD cards: utilisation, memory, temperature, power and fan are all plain
//! files.

use vstd::prelude::*;

use crate::error::{Error, ErrorView};
use crate::number::{digits_value, is_smaller};
use crate::sample::{Gpu, GpuVendor, GpuView};
use crate::sysfs::{join, joined, listings_are_safe_and_sorted, NameFilter, SysfsReader};
use crate::text::{chars_of, strings, text_option_view};
use crate::units::{percent_view, share, Bytes, MicroWatts, MilliCelsius, Percent, Rpm};
use super::{card_view, device_dir, device_path, number_at, read_number, read_signed, signed_at};

verus! {

/// The number of a sensor directory, which stands behind `hwmon` in its name.
pub open spec fn node_number(name: Seq<char>) -> nat {
    digits_value(name.skip(5), 10)
}

/// The name with the lowest number; of several with the same, the first.
pub open spec fn lowest_node(names: Seq<Seq<char>>) -> Seq<char>
    recommends
        names.len() > 0,
    decreases names.len(),
{
    if names.len() <= 1 {
        names[0]
    } else {
        let before = lowest_node(names.drop_last());
        if node_number(names.last()) < node_number(before) {
            names.last()
        } else {
            before
        }
    }
}

/// The node that is taken is one of those that there are, and none of them has
/// a lower number.
pub proof fn the_lowest_node_is_taken(names: Seq<Seq<char>>)
    requires
        names.len() > 0,
    ensures
        names.contains(lowest_node(names)),
        forall|i: int|
            0 <= i < names.len() ==> node_number(lowest_node(names)) <= node_number(
                #[trigger] names[i],
            ),
    decreases names.len(),
{
    let n = names.len() as int;
    if n == 1 {
        assert(names[0] == lowest_node(names));
    } else {
        let front = names.drop_last();
        the_lowest_node_is_taken(front);
        let k = choose|k: int| 0 <= k < front.len() && front[k] == lowest_node(front);
        assert(names[k] == lowest_node(front));
        assert(names[n - 1] == names.last());
        assert forall|i: int| 0 <= i < n implies node_number(lowest_node(names)) <= node_number(
            #[trigger] names[i],
        ) by {
            if i < n - 1 {
                assert(front[i] == names[i]);
            }
        }
    }
}

fn find_lowest(names: &Vec<String>) -> (r: usize)
    requires
        names.len() > 0,
        forall|i: int| 0 <= i < names.len() ==> (#[trigger] strings(names@)[i]).len() > 5,
    ensures
        r < names.len(),
        strings(names@)[r as int] == lowest_node(strings(names@)),
{
    let ghost all = strings(names@);
    let mut best: usize = 0;
    let mut i: usize = 1;
    while i < names.len()
        invariant
            1 <= i <= names.len(),
            best < i,
            all == strings(names@),
            forall|i: int| 0 <= i < names.len() ==> (#[trigger] all[i]).len() > 5,
            all[best as int] == lowest_node(all.take(i as int)),
        decreases names.len() - i,
    {
        let a = chars_of(names[i].as_str());
        let b = chars_of(names[best].as_str());
        assert(a@ == all[i as int]);
        assert(b@ == all[best as int]);
        let a: &[char] = &a.as_slice()[5..a.len()];
        let b: &[char] = &b.as_slice()[5..b.len()];
        assert(a@ == all[i as int].skip(5));
        assert(b@ == all[best as int].skip(5));
        assert(all.take(i + 1).drop_last() == all.take(i as int));
        if is_smaller(a, b) {
            best = i;
        }
        i = i + 1;
    }
    assert(all.take(i as int) == all);
    best
}

/// The sensor directory of a card: the one with the lowest number of those
/// below its device.
pub open spec fn hwmon_dir_of(reader: &SysfsReader, device_dir: Seq<char>) -> Result<
    Option<Seq<char>>,
    ErrorView,
> {
    let above = joined(device_dir, "hwmon"@);
    match reader.names_at(above, NameFilter::Numbered { prefix: "hwmon" }) {
        Err(e) => Err(e),
        Ok(Err(_)) => Ok(None),
        Ok(Ok(names)) => if names.len() == 0 {
            Ok(None)
        } else {
            Ok(Some(joined(above, lowest_node(names))))
        },
    }
}

pub open spec fn dir_view(r: Result<Option<String>, Error>) -> Result<Option<Seq<char>>, ErrorView> {
    match r {
        Ok(dir) => Ok(text_option_view(dir)),
        Err(e) => Err(e@),
    }
}

/// Finds the sensor directory below a card's device. Some virtualised cards
/// have none. Intel's drivers nest it the same way.
pub fn find_hwmon_dir(reader: &SysfsReader, device_dir: &str) -> (r: Result<Option<String>, Error>)
    ensures
        dir_view(r) == hwmon_dir_of(reader, device_dir@),
{
    let above = join(device_dir, "hwmon");
    match reader.list_dir(above.as_str(), NameFilter::Numbered { prefix: "hwmon" }) {
        Err(e) => Err(e),
        Ok(Err(_)) => Ok(None),
        Ok(Ok(names)) => {
            assert(strings(names@).len() == names@.len());
            if names.len() == 0 {
                return Ok(None);
            }
            proof {
                let keep = NameFilter::Numbered { prefix: "hwmon" };
                listings_are_safe_and_sorted(reader, above@, keep);
                reveal_strlit("hwmon");
                assert forall|i: int| 0 <= i < names.len() implies (#[trigger] strings(
                    names@,
                )[i]).len() > 5 by {
                    assert(keep.keeps(strings(names@)[i]));
                }
            }
            let lowest: usize = find_lowest(&names);
            assert(strings(names@)[lowest as int] == names@[lowest as int]@);
            Ok(Some(join(above.as_str(), names[lowest].as_str())))
        },
    }
}

pub open spec fn busy_of(reader: &SysfsReader, device_dir: Seq<char>) -> Option<(nat, nat)> {
    match number_at(reader, joined(device_dir, "gpu_busy_percent"@)) {
        Some(n) => share(n as nat, 100),
        None => None,
    }
}

/// How busy the card is, in per cent.
pub fn read_busy(reader: &SysfsReader, device_dir: &str) -> (r: Result<Option<Percent>, Error>)
    ensures
        r is Ok,
        percent_view(r->Ok_0) == busy_of(reader, device_dir@),
{
    match read_number(reader, device_dir, "gpu_busy_percent") {
        Some(n) => Ok(Some(Percent::whole_number(n))),
        None => Ok(None),
    }
}

pub open spec fn size_of(n: Option<u64>) -> Option<Bytes> {
    match n {
        Some(n) => Some(Bytes(n)),
        None => None,
    }
}

/// Total and used memory, which the driver counts in bytes.
pub fn read_vram(reader: &SysfsReader, device_dir: &str) -> (r: Result<
    (Option<Bytes>, Option<Bytes>),
    Error,
>)
    ensures
        r is Ok,
        r->Ok_0.0 == size_of(number_at(reader, joined(device_dir@, "mem_info_vram_total"@))),
        r->Ok_0.1 == size_of(number_at(reader, joined(device_dir@, "mem_info_vram_used"@))),
{
    let total = match read_number(reader, device_dir, "mem_info_vram_total") {
        Some(n) => Some(Bytes::from_bytes(n)),
        None => None,
    };
    let used = match read_number(reader, device_dir, "mem_info_vram_used") {
        Some(n) => Some(Bytes::from_bytes(n)),
        None => None,
    };
    Ok((total, used))
}

pub open spec fn temp_of(reader: &SysfsReader, hwmon_dir: Seq<char>) -> Option<MilliCelsius> {
    match signed_at(reader, joined(hwmon_dir, "temp1_input"@)) {
        Some(n) => Some(MilliCelsius(n)),
        None => None,
    }
}

/// The power draw: the average, or the momentary value where there is none.
pub open spec fn power_of(reader: &SysfsReader, hwmon_dir: Seq<char>) -> Option<MicroWatts> {
    match number_at(reader, joined(hwmon_dir, "power1_average"@)) {
        Some(n) => Some(MicroWatts(n)),
        None => match number_at(reader, joined(hwmon_dir, "power1_input"@)) {
            Some(n) => Some(MicroWatts(n)),
            None => None,
        },
    }
}

pub open spec fn fan_of(reader: &SysfsReader, hwmon_dir: Seq<char>) -> Option<Rpm> {
    match number_at(reader, joined(hwmon_dir, "fan1_input"@)) {
        Some(n) => Some(Rpm(n)),
        None => None,
    }
}

pub(crate) fn read_temp(reader: &SysfsReader, hwmon_dir: &str) -> (r: Option<MilliCelsius>)
    ensures
        r == temp_of(reader, hwmon_dir@),
{
    match read_signed(reader, hwmon_dir, "temp1_input") {
        Some(n) => Some(MilliCelsius::from_millidegrees(n)),
        None => None,
    }
}

pub(crate) fn read_power(reader: &SysfsReader, hwmon_dir: &str) -> (r: Option<MicroWatts>)
    ensures
        r == power_of(reader, hwmon_dir@),
{
    match read_number(reader, hwmon_dir, "power1_average") {
        Some(n) => Some(MicroWatts::from_microwatts(n)),
        None => match read_number(reader, hwmon_dir, "power1_input") {
            Some(n) => Some(MicroWatts::from_microwatts(n)),
            None => None,
        },
    }
}

/// Temperature, power and fan.
pub fn read_hwmon_metrics(reader: &SysfsReader, hwmon_dir: &str) -> (r: Result<
    (Option<MilliCelsius>, Option<MicroWatts>, Option<Rpm>),
    Error,
>)
    ensures
        r is Ok,
        r->Ok_0.0 == temp_of(reader, hwmon_dir@),
        r->Ok_0.1 == power_of(reader, hwmon_dir@),
        r->Ok_0.2 == fan_of(reader, hwmon_dir@),
{
    let temp = read_temp(reader, hwmon_dir);
    let power = read_power(reader, hwmon_dir);
    let fan = match read_number(reader, hwmon_dir, "fan1_input") {
        Some(n) => Some(Rpm::from_rpm(n)),
        None => None,
    };
    Ok((temp, power, fan))
}

/// What is read of an AMD card. Every figure is optional: a card without a
/// fan is still a card.
pub open spec fn amd_card_of(reader: &SysfsReader, card: Seq<char>) -> Result<
    Option<GpuView>,
    ErrorView,
> {
    let dir = device_path(card);
    match hwmon_dir_of(reader, dir) {
        Err(e) => Err(e),
        Ok(hwmon) => Ok(
            Some(
                GpuView {
                    vendor: GpuVendor::Amd,
                    name: card,
                    busy: busy_of(reader, dir),
                    vram_total: size_of(number_at(reader, joined(dir, "mem_info_vram_total"@))),
                    vram_used: size_of(number_at(reader, joined(dir, "mem_info_vram_used"@))),
                    temp: match hwmon {
                        Some(h) => temp_of(reader, h),
                        None => None,
                    },
                    power: match hwmon {
                        Some(h) => power_of(reader, h),
                        None => None,
                    },
                    fan_rpm: match hwmon {
                        Some(h) => fan_of(reader, h),
                        None => None,
                    },
                    freq_khz: None,
                },
            ),
        ),
    }
}

/// Reads every figure that an AMD card offers.
pub fn read(reader: &SysfsReader, card: &str) -> (r: Result<Option<Gpu>, Error>)
    ensures
        card_view(r) == amd_card_of(reader, card@),
{
    let dir = device_dir(card);
    let busy = match read_busy(reader, dir.as_str()) {
        Err(e) => return Err(e),
        Ok(busy) => busy,
    };
    let (vram_total, vram_used) = match read_vram(reader, dir.as_str()) {
        Err(e) => return Err(e),
        Ok(vram) => vram,
    };
    let (temp, power, fan_rpm) = match find_hwmon_dir(reader, dir.as_str()) {
        Err(e) => return Err(e),
        Ok(None) => (None, None, None),
        Ok(Some(hwmon)) => match read_hwmon_metrics(reader, hwmon.as_str()) {
            Err(e) => return Err(e),
            Ok(metrics) => metrics,
        },
    };
    Ok(
        Some(
            Gpu {
                vendor: GpuVendor::Amd,
                name: card.to_owned(),
                busy,
                vram_total,
                vram_used,
                temp,
                power,
                fan_rpm,
                freq_khz: None,
            },
        ),
    )
}

} // verus!
