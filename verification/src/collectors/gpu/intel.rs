//! Intel cards: a frequency, and some memory, temperature and power. There is
//! no utilisation in files.

use vstd::prelude::*;

use crate::error::{Error, ErrorView};
use crate::sample::{at_most_max, minus, Gpu, GpuVendor, GpuView};
use crate::sysfs::{joined, SysfsReader};
use crate::units::{Bytes, KiloHertz, MicroWatts, MilliCelsius};
use super::amd::{
    find_hwmon_dir, hwmon_dir_of, power_of, read_power, read_temp, size_of, temp_of,
};
use super::{card_dir, card_path, card_view, device_dir, device_path, number_at, read_number};

verus! {

/// The core clock in MHz, by either driver's file.
pub open spec fn megahertz_of(reader: &SysfsReader, card_dir: Seq<char>) -> Option<u64> {
    match number_at(reader, joined(card_dir, "gt_cur_freq_mhz"@)) {
        Some(n) => Some(n),
        None => number_at(reader, joined(card_dir, "gt/gt0/freq_cur"@)),
    }
}

pub open spec fn frequency_of(reader: &SysfsReader, card_dir: Seq<char>) -> Option<KiloHertz> {
    match megahertz_of(reader, card_dir) {
        Some(mhz) => Some(KiloHertz(at_most_max(mhz * 1000))),
        None => None,
    }
}

/// The core clock, which the files give in MHz.
pub fn read_frequency(reader: &SysfsReader, card_dir: &str) -> (r: Result<
    Option<KiloHertz>,
    Error,
>)
    ensures
        r is Ok,
        r->Ok_0 == frequency_of(reader, card_dir@),
{
    let mhz = match read_number(reader, card_dir, "gt_cur_freq_mhz") {
        Some(n) => Some(n),
        None => read_number(reader, card_dir, "gt/gt0/freq_cur"),
    };
    match mhz {
        Some(n) => {
            let khz: u64 = match n.checked_mul(1000) {
                Some(khz) => khz,
                None => u64::MAX,
            };
            Ok(Some(KiloHertz::from_khz(khz)))
        },
        None => Ok(None),
    }
}

/// Used memory: what is not available. The driver says the one, and the
/// other is wanted.
pub open spec fn used_of(total: Option<u64>, available: Option<u64>) -> Option<Bytes> {
    match (total, available) {
        (Some(t), Some(a)) => Some(Bytes(minus(t, a))),
        _ => None,
    }
}

/// Total and used memory of a discrete card. Integrated graphics have none of
/// their own, and share what the memory collector reports.
pub fn read_vram(reader: &SysfsReader, device_dir: &str) -> (r: Result<
    (Option<Bytes>, Option<Bytes>),
    Error,
>)
    ensures
        r is Ok,
        r->Ok_0.0 == size_of(number_at(reader, joined(device_dir@, "lmem_total_bytes"@))),
        r->Ok_0.1 == used_of(
            number_at(reader, joined(device_dir@, "lmem_total_bytes"@)),
            number_at(reader, joined(device_dir@, "lmem_avail_bytes"@)),
        ),
{
    let total = read_number(reader, device_dir, "lmem_total_bytes");
    let available = read_number(reader, device_dir, "lmem_avail_bytes");
    let used = match (total, available) {
        (Some(t), Some(a)) => Some(Bytes::from_bytes(t.saturating_sub(a))),
        _ => None,
    };
    let total = match total {
        Some(t) => Some(Bytes::from_bytes(t)),
        None => None,
    };
    Ok((total, used))
}

/// Temperature and power, where the card has sensors.
pub open spec fn metrics_of(reader: &SysfsReader, device_dir: Seq<char>) -> Result<
    (Option<MilliCelsius>, Option<MicroWatts>),
    ErrorView,
> {
    match hwmon_dir_of(reader, device_dir) {
        Err(e) => Err(e),
        Ok(None) => Ok((None, None)),
        Ok(Some(h)) => Ok((temp_of(reader, h), power_of(reader, h))),
    }
}

pub fn read_hwmon_metrics(reader: &SysfsReader, device_dir: &str) -> (r: Result<
    (Option<MilliCelsius>, Option<MicroWatts>),
    Error,
>)
    ensures
        match r {
            Ok(m) => metrics_of(reader, device_dir@) == Ok::<
                (Option<MilliCelsius>, Option<MicroWatts>),
                ErrorView,
            >(m),
            Err(e) => metrics_of(reader, device_dir@) == Err::<
                (Option<MilliCelsius>, Option<MicroWatts>),
                ErrorView,
            >(e@),
        },
{
    match find_hwmon_dir(reader, device_dir) {
        Err(e) => Err(e),
        Ok(None) => Ok((None, None)),
        Ok(Some(h)) => Ok((read_temp(reader, h.as_str()), read_power(reader, h.as_str()))),
    }
}

/// What is read of an Intel card.
pub open spec fn intel_card_of(reader: &SysfsReader, card: Seq<char>) -> Result<
    Option<GpuView>,
    ErrorView,
> {
    let dir = device_path(card);
    match metrics_of(reader, dir) {
        Err(e) => Err(e),
        Ok((temp, power)) => Ok(
            Some(
                GpuView {
                    vendor: GpuVendor::Intel,
                    name: card,
                    busy: None,
                    vram_total: size_of(number_at(reader, joined(dir, "lmem_total_bytes"@))),
                    vram_used: used_of(
                        number_at(reader, joined(dir, "lmem_total_bytes"@)),
                        number_at(reader, joined(dir, "lmem_avail_bytes"@)),
                    ),
                    temp,
                    power,
                    fan_rpm: None,
                    freq_khz: frequency_of(reader, card_path(card)),
                },
            ),
        ),
    }
}

/// Reads every figure that an Intel card offers.
pub fn read(reader: &SysfsReader, card: &str) -> (r: Result<Option<Gpu>, Error>)
    ensures
        card_view(r) == intel_card_of(reader, card@),
{
    let own = card_dir(card);
    let dir = device_dir(card);
    let freq_khz = match read_frequency(reader, own.as_str()) {
        Err(e) => return Err(e),
        Ok(freq) => freq,
    };
    let (vram_total, vram_used) = match read_vram(reader, dir.as_str()) {
        Err(e) => return Err(e),
        Ok(vram) => vram,
    };
    let (temp, power) = match read_hwmon_metrics(reader, dir.as_str()) {
        Err(e) => return Err(e),
        Ok(metrics) => metrics,
    };
    Ok(
        Some(
            Gpu {
                vendor: GpuVendor::Intel,
                name: card.to_owned(),
                busy: None,
                vram_total,
                vram_used,
                temp,
                power,
                fan_rpm: None,
                freq_khz,
            },
        ),
    )
}

} // verus!
