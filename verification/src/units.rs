//! Physical quantities, each in the integer unit that the kernel counts in.

use vstd::prelude::*;

use crate::error::{Error, ErrorView};

verus! {

/// A size in bytes.
#[derive(Debug, Clone, Copy, PartialEq, Eq, Structural, Default)]
pub struct Bytes(pub u64);

/// A clock in kilohertz.
#[derive(Debug, Clone, Copy, PartialEq, Eq, Structural)]
pub struct KiloHertz(pub u64);

/// A power in millionths of a watt.
#[derive(Debug, Clone, Copy, PartialEq, Eq, Structural)]
pub struct MicroWatts(pub u64);

/// A temperature in thousandths of a degree Celsius.
#[derive(Debug, Clone, Copy, PartialEq, Eq, Structural)]
pub struct MilliCelsius(pub i64);

/// Revolutions per minute.
#[derive(Debug, Clone, Copy, PartialEq, Eq, Structural)]
pub struct Rpm(pub u64);

/// A share of a whole, kept exact: `part` out of `whole`, never more than all
/// of it, and never of nothing.
#[derive(Debug, Clone, Copy, PartialEq, Eq, Structural)]
pub struct Percent {
    part: u128,
    whole: u128,
}

/// A number of things counted over a time, in units of `scale` each.
#[derive(Debug, Clone, Copy, PartialEq, Eq, Structural)]
pub struct PerSecond {
    pub count: u64,
    pub scale: u64,
    pub nanos: u64,
}

/// `part` out of `whole`, cut to the whole; nothing where there is no whole.
pub open spec fn share(part: nat, whole: nat) -> Option<(nat, nat)> {
    if whole == 0 {
        None
    } else if part > whole {
        Some((whole, whole))
    } else {
        Some((part, whole))
    }
}

pub open spec fn percent_view(p: Option<Percent>) -> Option<(nat, nat)> {
    match p {
        Some(p) => Some(p@),
        None => None,
    }
}

impl View for Percent {
    type V = (nat, nat);

    closed spec fn view(&self) -> (nat, nat) {
        (self.part as nat, self.whole as nat)
    }
}

impl Percent {
    #[verifier::type_invariant]
    spec fn in_range(self) -> bool {
        self.part <= self.whole && self.whole > 0
    }

    /// `part` out of `whole`; `None` where the whole is nothing.
    pub fn from_ratio(part: u128, whole: u128) -> (r: Option<Percent>)
        ensures
            percent_view(r) == share(part as nat, whole as nat),
    {
        if whole == 0 {
            None
        } else if part > whole {
            Some(Percent { part: whole, whole })
        } else {
            Some(Percent { part, whole })
        }
    }

    /// `n` per cent, at most a hundred.
    pub fn whole_number(n: u64) -> (r: Percent)
        ensures
            Some(r@) == share(n as nat, 100),
    {
        if n > 100 {
            Percent { part: 100, whole: 100 }
        } else {
            Percent { part: n as u128, whole: 100 }
        }
    }

    /// What is counted, and what it is counted out of.
    pub fn ratio(&self) -> (r: (u128, u128))
        ensures
            (r.0 as nat, r.1 as nat) == self@,
            r.0 <= r.1,
            r.1 > 0,
    {
        proof {
            use_type_invariant(&*self);
        }
        (self.part, self.whole)
    }
}

/// What a KiB figure that is too large for bytes is reported as.
pub open spec fn kib_overflow() -> ErrorView {
    ErrorView::Arithmetic { what: "KiB value overflows a byte count"@ }
}

pub open spec fn bytes_view(r: Result<Bytes, Error>) -> Result<Bytes, ErrorView> {
    match r {
        Ok(b) => Ok(b),
        Err(e) => Err(e@),
    }
}

/// `kib` units of 1024 bytes.
pub open spec fn kib(kib: nat) -> Result<Bytes, ErrorView> {
    if kib * 1024 <= u64::MAX {
        Ok(Bytes((kib * 1024) as u64))
    } else {
        Err(kib_overflow())
    }
}

impl Bytes {
    pub fn from_bytes(n: u64) -> (r: Bytes)
        ensures
            r == Bytes(n),
    {
        Bytes(n)
    }

    /// From a figure in units of 1024 bytes, as `/proc/meminfo` writes them.
    pub fn from_kib(n: u64) -> (r: Result<Bytes, Error>)
        ensures
            bytes_view(r) == kib(n as nat),
    {
        match n.checked_mul(1024) {
            Some(bytes) => Ok(Bytes(bytes)),
            None => Err(Error::Arithmetic { what: "KiB value overflows a byte count" }),
        }
    }

    pub fn as_u64(&self) -> (r: u64)
        ensures
            r == self.0,
    {
        self.0
    }
}

impl KiloHertz {
    pub fn from_khz(n: u64) -> (r: KiloHertz)
        ensures
            r == KiloHertz(n),
    {
        KiloHertz(n)
    }

    pub fn as_khz(&self) -> (r: u64)
        ensures
            r == self.0,
    {
        self.0
    }
}

impl MicroWatts {
    pub fn from_microwatts(n: u64) -> (r: MicroWatts)
        ensures
            r == MicroWatts(n),
    {
        MicroWatts(n)
    }

    pub fn as_microwatts(&self) -> (r: u64)
        ensures
            r == self.0,
    {
        self.0
    }
}

impl MilliCelsius {
    pub fn from_millidegrees(n: i64) -> (r: MilliCelsius)
        ensures
            r == MilliCelsius(n),
    {
        MilliCelsius(n)
    }

    pub fn as_millidegrees(&self) -> (r: i64)
        ensures
            r == self.0,
    {
        self.0
    }

    pub fn at_or_above(&self, limit: MilliCelsius) -> (r: bool)
        ensures
            r == (self.0 >= limit.0),
    {
        self.0 >= limit.0
    }
}

impl Rpm {
    pub fn from_rpm(n: u64) -> (r: Rpm)
        ensures
            r == Rpm(n),
    {
        Rpm(n)
    }

    pub fn as_u64(&self) -> (r: u64)
        ensures
            r == self.0,
    {
        self.0
    }
}

} // verus!
