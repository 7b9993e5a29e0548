//! Rates, out of two readings of the kernel's counters.
//!
//! A counter that went backwards was reset or has wrapped. Which of the two
//! cannot be told, so the interval is dropped for that item and not guessed
//! at: an absent number beats a plausible wrong one.

use vstd::prelude::*;

use crate::sample::{
    elapsed, views, CpuTimes, DiskDevice, DiskDeviceView, NetInterface, NetInterfaceView,
    Snapshot, SnapshotView,
};
use crate::text::same_str;
use crate::units::{percent_view, share, PerSecond, Percent};

verus! {

// ---------------------------------------------------------------------------
// Counters
// ---------------------------------------------------------------------------
/// How far a counter went; nothing where it went backwards.
pub open spec fn advance(prev: u64, curr: u64) -> Option<u64> {
    if curr < prev {
        None
    } else {
        Some((curr - prev) as u64)
    }
}

pub fn counter_delta(prev: u64, curr: u64) -> (r: Option<u64>)
    ensures
        r == advance(prev, curr),
{
    curr.checked_sub(prev)
}

/// A count over an interval; nothing where there is no count or no interval.
pub fn per_second(delta: Option<u64>, interval_nanos: u64) -> (r: Option<PerSecond>)
    ensures
        r == (match delta {
            Some(count) => if interval_nanos == 0 {
                None
            } else {
                Some(PerSecond { count, scale: 1, nanos: interval_nanos })
            },
            None => None,
        }),
{
    match delta {
        Some(count) => if interval_nanos == 0 {
            None
        } else {
            Some(PerSecond { count, scale: 1, nanos: interval_nanos })
        },
        None => None,
    }
}

/// The share of the time between two readings that a processor was busy;
/// nothing where its clock did not advance, or where either counter went
/// backwards.
pub open spec fn busy_share(prev: CpuTimes, curr: CpuTimes) -> Option<(nat, nat)> {
    match (
        advance(prev.spec_total(), curr.spec_total()),
        advance(prev.spec_busy(), curr.spec_busy()),
    ) {
        (Some(total), Some(busy)) => share(busy as nat, total as nat),
        _ => None,
    }
}

pub fn cpu_busy_percent(prev: &CpuTimes, curr: &CpuTimes) -> (r: Option<Percent>)
    ensures
        percent_view(r) == busy_share(*prev, *curr),
{
    match (counter_delta(prev.total(), curr.total()), counter_delta(prev.busy(), curr.busy())) {
        (Some(total), Some(busy)) => Percent::from_ratio(busy as u128, total as u128),
        _ => None,
    }
}

// ---------------------------------------------------------------------------
// Rates by name
// ---------------------------------------------------------------------------
#[derive(Debug)]
pub struct Named<R> {
    pub name: String,
    pub rate: R,
}

/// Rates by the name of what they belong to; the latest of one name counts.
#[derive(Debug)]
pub struct RateTable<R> {
    entries: Vec<Named<R>>,
}

pub open spec fn entries_view<R: View>(entries: Seq<Named<R>>) -> Map<Seq<char>, R::V>
    decreases entries.len(),
{
    if entries.len() == 0 {
        Map::empty()
    } else {
        entries_view(entries.drop_last()).insert(entries.last().name@, entries.last().rate@)
    }
}

impl<R: View> View for RateTable<R> {
    type V = Map<Seq<char>, R::V>;

    closed spec fn view(&self) -> Map<Seq<char>, R::V> {
        entries_view(self.entries@)
    }
}

impl<R: View> RateTable<R> {
    pub fn new() -> (r: RateTable<R>)
        ensures
            r@ == Map::<Seq<char>, R::V>::empty(),
    {
        RateTable { entries: Vec::new() }
    }

    pub fn insert(&mut self, name: String, rate: R)
        ensures
            final(self)@ == old(self)@.insert(name@, rate@),
    {
        let ghost before = self.entries@;
        self.entries.push(Named { name, rate });
        assert(self.entries@.drop_last() == before);
    }

    pub fn get(&self, name: &str) -> (r: Option<&R>)
        ensures
            match r {
                Some(rate) => self@.contains_key(name@) && self@[name@] == rate@,
                None => !self@.contains_key(name@),
            },
    {
        let mut i: usize = self.entries.len();
        assert(self.entries@.take(i as int) == self.entries@);
        while i > 0
            invariant
                i <= self.entries@.len(),
                self@.contains_key(name@) == entries_view(self.entries@.take(i as int)).contains_key(
                    name@,
                ),
                self@.contains_key(name@) ==> self@[name@] == entries_view(
                    self.entries@.take(i as int),
                )[name@],
            decreases i,
        {
            let ghost upto = self.entries@.take(i as int);
            assert(upto.drop_last() == self.entries@.take(i - 1));
            assert(upto.last() == self.entries@[i - 1]);
            if same_str(self.entries[i - 1].name.as_str(), name) {
                return Some(&self.entries[i - 1].rate);
            }
            i = i - 1;
        }
        None
    }

    pub fn is_empty(&self) -> (r: bool)
        ensures
            r == (self@ == Map::<Seq<char>, R::V>::empty()),
    {
        proof {
            if self.entries@.len() > 0 {
                assert(self@.contains_key(self.entries@.last().name@));
            }
        }
        self.entries.len() == 0
    }
}

// ---------------------------------------------------------------------------
// Disks
// ---------------------------------------------------------------------------
#[derive(Debug)]
pub struct DiskRate {
    /// In sectors of 512 bytes.
    pub read: PerSecond,
    pub write: PerSecond,
    pub read_iops: PerSecond,
    pub write_iops: PerSecond,
    /// The share of the interval that the device was busy.
    pub utilisation: Option<Percent>,
}

pub struct DiskRateView {
    pub read: PerSecond,
    pub write: PerSecond,
    pub read_iops: PerSecond,
    pub write_iops: PerSecond,
    pub utilisation: Option<(nat, nat)>,
}

impl View for DiskRate {
    type V = DiskRateView;

    open spec fn view(&self) -> DiskRateView {
        DiskRateView {
            read: self.read,
            write: self.write,
            read_iops: self.read_iops,
            write_iops: self.write_iops,
            utilisation: percent_view(self.utilisation),
        }
    }
}

/// The rates of a device between two readings; nothing where any of its
/// traffic counters went backwards.
pub open spec fn disk_rate_of(p: DiskDeviceView, c: DiskDeviceView, nanos: u64) -> Option<
    DiskRateView,
> {
    match (
        advance(p.sectors_read, c.sectors_read),
        advance(p.sectors_written, c.sectors_written),
        advance(p.reads_completed, c.reads_completed),
        advance(p.writes_completed, c.writes_completed),
    ) {
        (Some(read), Some(written), Some(reads), Some(writes)) => Some(
            DiskRateView {
                read: PerSecond { count: read, scale: 512, nanos },
                write: PerSecond { count: written, scale: 512, nanos },
                read_iops: PerSecond { count: reads, scale: 1, nanos },
                write_iops: PerSecond { count: writes, scale: 1, nanos },
                utilisation: match advance(p.io_ticks_ms, c.io_ticks_ms) {
                    Some(ms) => share(ms as nat * 1_000_000, nanos as nat),
                    None => None,
                },
            },
        ),
        _ => None,
    }
}

/// The last of the devices with a name.
pub open spec fn disk_named(devices: Seq<DiskDeviceView>, name: Seq<char>) -> Option<DiskDeviceView>
    decreases devices.len(),
{
    if devices.len() == 0 {
        None
    } else if devices.last().name == name {
        Some(devices.last())
    } else {
        disk_named(devices.drop_last(), name)
    }
}

/// The rates of the devices that both readings know by name.
pub open spec fn disk_rates_of(
    prev: Seq<DiskDeviceView>,
    curr: Seq<DiskDeviceView>,
    nanos: u64,
) -> Map<Seq<char>, DiskRateView>
    decreases curr.len(),
{
    if curr.len() == 0 {
        Map::empty()
    } else {
        let before = disk_rates_of(prev, curr.drop_last(), nanos);
        let c = curr.last();
        match disk_named(prev, c.name) {
            Some(p) => match disk_rate_of(p, c, nanos) {
                Some(rate) => before.insert(c.name, rate),
                None => before,
            },
            None => before,
        }
    }
}

fn find_disk<'a>(devices: &'a Vec<DiskDevice>, name: &str) -> (r: Option<&'a DiskDevice>)
    ensures
        match r {
            Some(d) => disk_named(views(devices@), name@) == Some(d@),
            None => disk_named(views(devices@), name@) is None,
        },
{
    let ghost all = views(devices@);
    let mut i: usize = devices.len();
    assert(all.take(i as int) == all);
    while i > 0
        invariant
            i <= devices.len(),
            all == views(devices@),
            disk_named(all.take(i as int), name@) == disk_named(all, name@),
        decreases i,
    {
        assert(all.take(i as int).drop_last() == all.take(i - 1));
        assert(all.take(i as int).last() == devices@[i - 1]@);
        if same_str(devices[i - 1].name.as_str(), name) {
            return Some(&devices[i - 1]);
        }
        i = i - 1;
    }
    None
}

pub open spec fn disk_rate_view(r: Option<DiskRate>) -> Option<DiskRateView> {
    match r {
        Some(r) => Some(r@),
        None => None,
    }
}

fn disk_rate(p: &DiskDevice, c: &DiskDevice, nanos: u64) -> (r: Option<DiskRate>)
    ensures
        disk_rate_view(r) == disk_rate_of(p@, c@, nanos),
{
    let read = counter_delta(p.sectors_read, c.sectors_read);
    let written = counter_delta(p.sectors_written, c.sectors_written);
    let reads = counter_delta(p.reads_completed, c.reads_completed);
    let writes = counter_delta(p.writes_completed, c.writes_completed);
    match (read, written, reads, writes) {
        (Some(read), Some(written), Some(reads), Some(writes)) => {
            let utilisation = match counter_delta(p.io_ticks_ms, c.io_ticks_ms) {
                Some(ms) => Percent::from_ratio(ms as u128 * 1_000_000, nanos as u128),
                None => None,
            };
            Some(
                DiskRate {
                    read: PerSecond { count: read, scale: 512, nanos },
                    write: PerSecond { count: written, scale: 512, nanos },
                    read_iops: PerSecond { count: reads, scale: 1, nanos },
                    write_iops: PerSecond { count: writes, scale: 1, nanos },
                    utilisation,
                },
            )
        },
        _ => None,
    }
}

/// Matches devices by name, and drops one whose counters went backwards.
pub fn disk_rates(prev: &Vec<DiskDevice>, curr: &Vec<DiskDevice>, nanos: u64) -> (r: RateTable<
    DiskRate,
>)
    ensures
        r@ == disk_rates_of(views(prev@), views(curr@), nanos),
{
    let ghost cs = views(curr@);
    let ghost ps = views(prev@);
    let mut out: RateTable<DiskRate> = RateTable::new();
    let mut i: usize = 0;
    while i < curr.len()
        invariant
            i <= curr.len(),
            cs == views(curr@),
            ps == views(prev@),
            out@ == disk_rates_of(ps, cs.take(i as int), nanos),
        decreases curr.len() - i,
    {
        let c = &curr[i];
        assert(cs.take(i + 1).drop_last() == cs.take(i as int));
        assert(cs.take(i + 1).last() == c@);
        if let Some(p) = find_disk(prev, c.name.as_str()) {
            if let Some(rate) = disk_rate(p, c, nanos) {
                out.insert(c.name.clone(), rate);
            }
        }
        i = i + 1;
    }
    assert(cs.take(i as int) == cs);
    out
}

// ---------------------------------------------------------------------------
// Network interfaces
// ---------------------------------------------------------------------------
#[derive(Debug, Clone, Copy, PartialEq, Eq, Structural)]
pub struct NetRate {
    pub rx: PerSecond,
    pub tx: PerSecond,
    pub rx_packets_per_sec: PerSecond,
    pub tx_packets_per_sec: PerSecond,
}

impl View for NetRate {
    type V = NetRate;

    open spec fn view(&self) -> NetRate {
        *self
    }
}

/// The rates of an interface between two readings; nothing where any of its
/// traffic counters went backwards.
pub open spec fn net_rate_of(p: NetInterfaceView, c: NetInterfaceView, nanos: u64) -> Option<NetRate> {
    match (
        advance(p.rx_bytes, c.rx_bytes),
        advance(p.tx_bytes, c.tx_bytes),
        advance(p.rx_packets, c.rx_packets),
        advance(p.tx_packets, c.tx_packets),
    ) {
        (Some(rx), Some(tx), Some(rx_packets), Some(tx_packets)) => Some(
            NetRate {
                rx: PerSecond { count: rx, scale: 1, nanos },
                tx: PerSecond { count: tx, scale: 1, nanos },
                rx_packets_per_sec: PerSecond { count: rx_packets, scale: 1, nanos },
                tx_packets_per_sec: PerSecond { count: tx_packets, scale: 1, nanos },
            },
        ),
        _ => None,
    }
}

/// The last of the interfaces with a name.
pub open spec fn net_named(interfaces: Seq<NetInterfaceView>, name: Seq<char>) -> Option<
    NetInterfaceView,
>
    decreases interfaces.len(),
{
    if interfaces.len() == 0 {
        None
    } else if interfaces.last().name == name {
        Some(interfaces.last())
    } else {
        net_named(interfaces.drop_last(), name)
    }
}

/// The rates of the interfaces that both readings know by name.
pub open spec fn net_rates_of(
    prev: Seq<NetInterfaceView>,
    curr: Seq<NetInterfaceView>,
    nanos: u64,
) -> Map<Seq<char>, NetRate>
    decreases curr.len(),
{
    if curr.len() == 0 {
        Map::empty()
    } else {
        let before = net_rates_of(prev, curr.drop_last(), nanos);
        let c = curr.last();
        match net_named(prev, c.name) {
            Some(p) => match net_rate_of(p, c, nanos) {
                Some(rate) => before.insert(c.name, rate),
                None => before,
            },
            None => before,
        }
    }
}

fn find_net<'a>(interfaces: &'a Vec<NetInterface>, name: &str) -> (r: Option<&'a NetInterface>)
    ensures
        match r {
            Some(i) => net_named(views(interfaces@), name@) == Some(i@),
            None => net_named(views(interfaces@), name@) is None,
        },
{
    let ghost all = views(interfaces@);
    let mut i: usize = interfaces.len();
    assert(all.take(i as int) == all);
    while i > 0
        invariant
            i <= interfaces.len(),
            all == views(interfaces@),
            net_named(all.take(i as int), name@) == net_named(all, name@),
        decreases i,
    {
        assert(all.take(i as int).drop_last() == all.take(i - 1));
        assert(all.take(i as int).last() == interfaces@[i - 1]@);
        if same_str(interfaces[i - 1].name.as_str(), name) {
            return Some(&interfaces[i - 1]);
        }
        i = i - 1;
    }
    None
}

fn net_rate(p: &NetInterface, c: &NetInterface, nanos: u64) -> (r: Option<NetRate>)
    ensures
        r == net_rate_of(p@, c@, nanos),
{
    let rx = counter_delta(p.rx_bytes, c.rx_bytes);
    let tx = counter_delta(p.tx_bytes, c.tx_bytes);
    let rx_packets = counter_delta(p.rx_packets, c.rx_packets);
    let tx_packets = counter_delta(p.tx_packets, c.tx_packets);
    match (rx, tx, rx_packets, tx_packets) {
        (Some(rx), Some(tx), Some(rx_packets), Some(tx_packets)) => Some(
            NetRate {
                rx: PerSecond { count: rx, scale: 1, nanos },
                tx: PerSecond { count: tx, scale: 1, nanos },
                rx_packets_per_sec: PerSecond { count: rx_packets, scale: 1, nanos },
                tx_packets_per_sec: PerSecond { count: tx_packets, scale: 1, nanos },
            },
        ),
        _ => None,
    }
}

/// Matches interfaces by name, and drops one whose counters went backwards.
pub fn net_rates(prev: &Vec<NetInterface>, curr: &Vec<NetInterface>, nanos: u64) -> (r: RateTable<
    NetRate,
>)
    ensures
        r@ == net_rates_of(views(prev@), views(curr@), nanos),
{
    let ghost cs = views(curr@);
    let ghost ps = views(prev@);
    let mut out: RateTable<NetRate> = RateTable::new();
    let mut i: usize = 0;
    while i < curr.len()
        invariant
            i <= curr.len(),
            cs == views(curr@),
            ps == views(prev@),
            out@ == net_rates_of(ps, cs.take(i as int), nanos),
        decreases curr.len() - i,
    {
        let c = &curr[i];
        assert(cs.take(i + 1).drop_last() == cs.take(i as int));
        assert(cs.take(i + 1).last() == c@);
        if let Some(p) = find_net(prev, c.name.as_str()) {
            if let Some(rate) = net_rate(p, c, nanos) {
                out.insert(c.name.clone(), rate);
            }
        }
        i = i + 1;
    }
    assert(cs.take(i as int) == cs);
    out
}

// ---------------------------------------------------------------------------
// Two snapshots
// ---------------------------------------------------------------------------
/// Everything that comes out of two snapshots.
#[derive(Debug)]
pub struct Rates {
    /// Nanoseconds between the two.
    pub interval_nanos: u64,
    pub cpu_total: Option<Percent>,
    /// Of each core, at its number.
    pub cpu_per_core: Vec<Option<Percent>>,
    pub disk: RateTable<DiskRate>,
    pub net: RateTable<NetRate>,
}

pub struct RatesView {
    pub interval_nanos: u64,
    pub cpu_total: Option<(nat, nat)>,
    pub cpu_per_core: Seq<Option<(nat, nat)>>,
    pub disk: Map<Seq<char>, DiskRateView>,
    pub net: Map<Seq<char>, NetRate>,
}

pub open spec fn percents(s: Seq<Option<Percent>>) -> Seq<Option<(nat, nat)>> {
    s.map_values(|p: Option<Percent>| percent_view(p))
}

impl View for Rates {
    type V = RatesView;

    open spec fn view(&self) -> RatesView {
        RatesView {
            interval_nanos: self.interval_nanos,
            cpu_total: percent_view(self.cpu_total),
            cpu_per_core: percents(self.cpu_per_core@),
            disk: self.disk@,
            net: self.net@,
        }
    }
}

pub open spec fn rates_view(r: Option<Rates>) -> Option<RatesView> {
    match r {
        Some(r) => Some(r@),
        None => None,
    }
}

/// What a snapshot has to leave behind so that the next one can be compared
/// with it.
#[derive(Debug)]
pub struct Baseline {
    pub taken_at_monotonic: u64,
    pub cpu: Option<(CpuTimes, Vec<CpuTimes>)>,
    pub disks: Option<Vec<DiskDevice>>,
    pub net: Option<Vec<NetInterface>>,
}

pub struct BaselineView {
    pub taken_at_monotonic: u64,
    pub cpu: Option<(CpuTimes, Seq<CpuTimes>)>,
    pub disks: Option<Seq<DiskDeviceView>>,
    pub net: Option<Seq<NetInterfaceView>>,
}

impl View for Baseline {
    type V = BaselineView;

    open spec fn view(&self) -> BaselineView {
        BaselineView {
            taken_at_monotonic: self.taken_at_monotonic,
            cpu: match self.cpu {
                Some((total, cores)) => Some((total, cores@)),
                None => None,
            },
            disks: match self.disks {
                Some(d) => Some(views(d@)),
                None => None,
            },
            net: match self.net {
                Some(n) => Some(views(n@)),
                None => None,
            },
        }
    }
}

pub open spec fn baseline_of(s: SnapshotView) -> BaselineView {
    BaselineView {
        taken_at_monotonic: s.taken_at_monotonic,
        cpu: match s.cpu {
            Some(c) => Some((c.total, c.per_core)),
            None => None,
        },
        disks: match s.disks {
            Some(d) => Some(d.devices),
            None => None,
        },
        net: match s.net {
            Some(n) => Some(n.interfaces),
            None => None,
        },
    }
}

/// The busy share of the core at `i`; nothing for a core that was not there.
pub open spec fn core_share(prev: Seq<CpuTimes>, curr: Seq<CpuTimes>, i: int) -> Option<(nat, nat)> {
    if i < prev.len() {
        busy_share(prev[i], curr[i])
    } else {
        None
    }
}

pub open spec fn core_shares(prev: Seq<CpuTimes>, curr: Seq<CpuTimes>) -> Seq<Option<(nat, nat)>> {
    Seq::new(curr.len(), |i: int| core_share(prev, curr, i))
}

/// Every rate between two readings; none at all where no time passed. What
/// only one of them has is left out, and so is every item that cannot be
/// compared; the rest stays.
pub open spec fn rates_between(prev: BaselineView, curr: BaselineView) -> Option<RatesView> {
    match elapsed(prev.taken_at_monotonic, curr.taken_at_monotonic) {
        None => None,
        Some(nanos) => Some(
            RatesView {
                interval_nanos: nanos,
                cpu_total: match (prev.cpu, curr.cpu) {
                    (Some(p), Some(c)) => busy_share(p.0, c.0),
                    _ => None,
                },
                cpu_per_core: match (prev.cpu, curr.cpu) {
                    (Some(p), Some(c)) => core_shares(p.1, c.1),
                    _ => seq![],
                },
                disk: match (prev.disks, curr.disks) {
                    (Some(p), Some(c)) => disk_rates_of(p, c, nanos),
                    _ => Map::empty(),
                },
                net: match (prev.net, curr.net) {
                    (Some(p), Some(c)) => net_rates_of(p, c, nanos),
                    _ => Map::empty(),
                },
            },
        ),
    }
}

fn core_percents(prev: &Vec<CpuTimes>, curr: &Vec<CpuTimes>) -> (r: Vec<Option<Percent>>)
    ensures
        percents(r@) == core_shares(prev@, curr@),
{
    let mut out: Vec<Option<Percent>> = Vec::new();
    let mut i: usize = 0;
    while i < curr.len()
        invariant
            i <= curr.len(),
            out@.len() == i,
            forall|k: int|
                0 <= k < i ==> percent_view(#[trigger] out@[k]) == core_share(prev@, curr@, k),
        decreases curr.len() - i,
    {
        let p = if i < prev.len() {
            cpu_busy_percent(&prev[i], &curr[i])
        } else {
            None
        };
        out.push(p);
        i = i + 1;
    }
    assert(percents(out@) == core_shares(prev@, curr@));
    out
}

fn copy_times(v: &Vec<CpuTimes>) -> (r: Vec<CpuTimes>)
    ensures
        r@ == v@,
{
    let mut out: Vec<CpuTimes> = Vec::new();
    let mut i: usize = 0;
    while i < v.len()
        invariant
            i <= v.len(),
            out@ == v@.take(i as int),
        decreases v.len() - i,
    {
        out.push(v[i]);
        assert(v@.take(i + 1) == v@.take(i as int).push(v@[i as int]));
        i = i + 1;
    }
    assert(v@.take(i as int) == v@);
    out
}

fn copy_disks(v: &Vec<DiskDevice>) -> (r: Vec<DiskDevice>)
    ensures
        views(r@) == views(v@),
{
    let ghost all = views(v@);
    let mut out: Vec<DiskDevice> = Vec::new();
    let mut i: usize = 0;
    while i < v.len()
        invariant
            i <= v.len(),
            all == views(v@),
            views(out@) == all.take(i as int),
        decreases v.len() - i,
    {
        let ghost before = views(out@);
        let d = v[i].duplicate();
        out.push(d);
        assert(views(out@) == before.push(d@));
        assert(all.take(i + 1) == all.take(i as int).push(all[i as int]));
        i = i + 1;
    }
    assert(all.take(i as int) == all);
    out
}

fn copy_nets(v: &Vec<NetInterface>) -> (r: Vec<NetInterface>)
    ensures
        views(r@) == views(v@),
{
    let ghost all = views(v@);
    let mut out: Vec<NetInterface> = Vec::new();
    let mut i: usize = 0;
    while i < v.len()
        invariant
            i <= v.len(),
            all == views(v@),
            views(out@) == all.take(i as int),
        decreases v.len() - i,
    {
        let ghost before = views(out@);
        let n = v[i].duplicate();
        out.push(n);
        assert(views(out@) == before.push(n@));
        assert(all.take(i + 1) == all.take(i as int).push(all[i as int]));
        i = i + 1;
    }
    assert(all.take(i as int) == all);
    out
}

/// What has to be kept of a snapshot.
pub fn baseline(s: &Snapshot) -> (r: Baseline)
    ensures
        r@ == baseline_of(s@),
{
    Baseline {
        taken_at_monotonic: s.taken_at_monotonic,
        cpu: match &s.cpu {
            Some(c) => Some((c.total, copy_times(&c.per_core))),
            None => None,
        },
        disks: match &s.disks {
            Some(d) => Some(copy_disks(&d.devices)),
            None => None,
        },
        net: match &s.net {
            Some(n) => Some(copy_nets(&n.interfaces)),
            None => None,
        },
    }
}

/// Every rate between two readings.
pub fn build_rates(prev: &Baseline, curr: &Baseline) -> (r: Option<Rates>)
    ensures
        rates_view(r) == rates_between(prev@, curr@),
{
    if curr.taken_at_monotonic <= prev.taken_at_monotonic {
        return None;
    }
    let nanos: u64 = curr.taken_at_monotonic - prev.taken_at_monotonic;
    let (cpu_total, cpu_per_core) = match (&prev.cpu, &curr.cpu) {
        (Some(p), Some(c)) => (cpu_busy_percent(&p.0, &c.0), core_percents(&p.1, &c.1)),
        _ => (None, Vec::new()),
    };
    assert(cpu_per_core@.len() == 0 ==> percents(cpu_per_core@) == Seq::<
        Option<(nat, nat)>,
    >::empty());
    let disk = match (&prev.disks, &curr.disks) {
        (Some(p), Some(c)) => disk_rates(p, c, nanos),
        _ => RateTable::new(),
    };
    let net = match (&prev.net, &curr.net) {
        (Some(p), Some(c)) => net_rates(p, c, nanos),
        _ => RateTable::new(),
    };
    Some(Rates { interval_nanos: nanos, cpu_total, cpu_per_core, disk, net })
}

/// Remembers the last snapshot, so that the next one can become rates.
#[derive(Debug)]
pub struct RateTracker {
    previous: Option<Baseline>,
}

impl RateTracker {
    pub closed spec fn remembered(&self) -> Option<BaselineView> {
        match self.previous {
            Some(b) => Some(b@),
            None => None,
        }
    }

    pub fn new() -> (r: RateTracker)
        ensures
            r.remembered() is None,
    {
        RateTracker { previous: None }
    }

    /// The rates since the last snapshot, which this one replaces. The first
    /// has nothing to be compared with.
    pub fn update(&mut self, current: &Snapshot) -> (r: Option<Rates>)
        ensures
            final(self).remembered() == Some(baseline_of(current@)),
            rates_view(r) == (match old(self).remembered() {
                Some(prev) => rates_between(prev, baseline_of(current@)),
                None => None,
            }),
    {
        let now = baseline(current);
        let rates = match &self.previous {
            Some(prev) => build_rates(prev, &now),
            None => None,
        };
        self.previous = Some(now);
        rates
    }

    /// Forgets the last snapshot, so that the next refresh is not averaged
    /// over a gap.
    pub fn reset(&mut self)
        ensures
            final(self).remembered() is None,
    {
        self.previous = None;
    }
}

// ---------------------------------------------------------------------------
// What every rate keeps
// ---------------------------------------------------------------------------
/// A disk has a rate only where both readings know it by that name and none of
/// its traffic counters went backwards.
pub proof fn disk_rates_need_both_readings(
    prev: Seq<DiskDeviceView>,
    curr: Seq<DiskDeviceView>,
    nanos: u64,
    name: Seq<char>,
)
    requires
        disk_rates_of(prev, curr, nanos).contains_key(name),
    ensures
        exists|i: int|
            0 <= i < curr.len() && (#[trigger] curr[i]).name == name && (disk_named(
                prev,
                name,
            ) matches Some(p) && disk_rate_of(p, curr[i], nanos) == Some(
                disk_rates_of(prev, curr, nanos)[name],
            )),
    decreases curr.len(),
{
    let c = curr.last();
    let before = disk_rates_of(prev, curr.drop_last(), nanos);
    if c.name == name && disk_named(prev, name) is Some && disk_rate_of(
        disk_named(prev, name)->0,
        c,
        nanos,
    ) is Some {
        assert(curr[curr.len() - 1].name == name);
    } else {
        disk_rates_need_both_readings(prev, curr.drop_last(), nanos, name);
        let i = choose|i: int|
            0 <= i < curr.drop_last().len() && (#[trigger] curr.drop_last()[i]).name == name && (
            disk_named(prev, name) matches Some(p) && disk_rate_of(p, curr.drop_last()[i], nanos)
                == Some(before[name]));
        assert(curr[i] == curr.drop_last()[i]);
    }
}

/// An interface has a rate only where both readings know it by that name and
/// none of its traffic counters went backwards.
pub proof fn net_rates_need_both_readings(
    prev: Seq<NetInterfaceView>,
    curr: Seq<NetInterfaceView>,
    nanos: u64,
    name: Seq<char>,
)
    requires
        net_rates_of(prev, curr, nanos).contains_key(name),
    ensures
        exists|i: int|
            0 <= i < curr.len() && (#[trigger] curr[i]).name == name && (net_named(
                prev,
                name,
            ) matches Some(p) && net_rate_of(p, curr[i], nanos) == Some(
                net_rates_of(prev, curr, nanos)[name],
            )),
    decreases curr.len(),
{
    let c = curr.last();
    let before = net_rates_of(prev, curr.drop_last(), nanos);
    if c.name == name && net_named(prev, name) is Some && net_rate_of(
        net_named(prev, name)->0,
        c,
        nanos,
    ) is Some {
        assert(curr[curr.len() - 1].name == name);
    } else {
        net_rates_need_both_readings(prev, curr.drop_last(), nanos, name);
        let i = choose|i: int|
            0 <= i < curr.drop_last().len() && (#[trigger] curr.drop_last()[i]).name == name && (
            net_named(prev, name) matches Some(p) && net_rate_of(p, curr.drop_last()[i], nanos)
                == Some(before[name]));
        assert(curr[i] == curr.drop_last()[i]);
    }
}

/// No time, no rates.
pub proof fn no_interval_no_rates(prev: BaselineView, curr: BaselineView)
    requires
        curr.taken_at_monotonic <= prev.taken_at_monotonic,
    ensures
        rates_between(prev, curr) is None,
{
}

// ---------------------------------------------------------------------------
// What the figures are
// ---------------------------------------------------------------------------
/// The counters of each core in a reading that has them.
pub open spec fn cores(b: BaselineView) -> Seq<CpuTimes> {
    (b.cpu->0).1
}

/// Those of all cores together.
pub open spec fn processor(b: BaselineView) -> CpuTimes {
    (b.cpu->0).0
}

/// All the time that a processor counted.
pub open spec fn ticks(t: CpuTimes) -> int {
    t.idle + t.iowait + worked(t)
}

/// The time that it counted for work: neither idle nor waiting.
pub open spec fn worked(t: CpuTimes) -> int {
    t.user + t.nice + t.system + t.irq + t.softirq + t.steal
}

/// The share is that of the work between two readings in all the time between
/// them, and there is none where time stood still or a counter fell. Sums that
/// are too large to count are left aside.
pub open spec fn busy_measured(
    before: CpuTimes,
    after: CpuTimes,
    measured: Option<(nat, nat)>,
) -> bool {
    ticks(before) <= u64::MAX && ticks(after) <= u64::MAX ==> match measured {
        Some((part, whole)) => {
            &&& whole == ticks(after) - ticks(before)
            &&& whole > 0
            &&& worked(after) >= worked(before)
            &&& part == if worked(after) - worked(before) <= whole {
                worked(after) - worked(before)
            } else {
                whole as int
            }
        },
        None => ticks(after) <= ticks(before) || worked(after) < worked(before),
    }
}

proof fn lemma_busy(before: CpuTimes, after: CpuTimes)
    ensures
        busy_measured(before, after, busy_share(before, after)),
{
}

/// Each core has the share of its own counters, at its own number, and all
/// together that of the common ones. A core that was not there before has none.
pub proof fn shares_are_those_of_the_counters(prev: BaselineView, curr: BaselineView, i: int)
    requires
        rates_between(prev, curr) is Some,
        prev.cpu is Some,
        curr.cpu is Some,
        0 <= i < cores(curr).len(),
    ensures
        rates_between(prev, curr)->0.cpu_per_core.len() == cores(curr).len(),
        i < cores(prev).len() ==> busy_measured(
            cores(prev)[i],
            cores(curr)[i],
            rates_between(prev, curr)->0.cpu_per_core[i],
        ),
        i >= cores(prev).len() ==> rates_between(prev, curr)->0.cpu_per_core[i] is None,
        busy_measured(processor(prev), processor(curr), rates_between(prev, curr)->0.cpu_total),
{
    if i < cores(prev).len() {
        lemma_busy(cores(prev)[i], cores(curr)[i]);
    }
    lemma_busy(processor(prev), processor(curr));
}

/// What other cores count does not change the share of a core, nor does anything
/// else in either reading.
pub proof fn a_core_is_measured_alone(
    prev: BaselineView,
    curr: BaselineView,
    prev2: BaselineView,
    curr2: BaselineView,
    i: int,
)
    requires
        rates_between(prev, curr) is Some,
        rates_between(prev2, curr2) is Some,
        prev.cpu is Some && curr.cpu is Some && prev2.cpu is Some && curr2.cpu is Some,
        0 <= i < cores(curr).len(),
        i < cores(curr2).len(),
        i < cores(prev).len(),
        i < cores(prev2).len(),
        cores(prev)[i] == cores(prev2)[i],
        cores(curr)[i] == cores(curr2)[i],
    ensures
        rates_between(prev, curr)->0.cpu_per_core[i] == rates_between(
            prev2,
            curr2,
        )->0.cpu_per_core[i],
{
}

/// So much per time.
pub open spec fn rate_is(r: PerSecond, amount: int, nanos: int) -> bool {
    r.count * r.scale == amount && r.nanos == nanos
}

/// None of the traffic counters of a device fell.
pub open spec fn disk_went_on(p: DiskDeviceView, c: DiskDeviceView) -> bool {
    &&& p.sectors_read <= c.sectors_read
    &&& p.sectors_written <= c.sectors_written
    &&& p.reads_completed <= c.reads_completed
    &&& p.writes_completed <= c.writes_completed
}

/// The rate of a device: bytes read and written, of which a sector has 512, the
/// operations, and the share of the time that it was busy, unless that counter
/// fell.
pub open spec fn disk_measured(
    p: DiskDeviceView,
    c: DiskDeviceView,
    nanos: int,
    r: DiskRateView,
) -> bool {
    &&& rate_is(r.read, 512 * (c.sectors_read - p.sectors_read), nanos)
    &&& rate_is(r.write, 512 * (c.sectors_written - p.sectors_written), nanos)
    &&& rate_is(r.read_iops, c.reads_completed - p.reads_completed, nanos)
    &&& rate_is(r.write_iops, c.writes_completed - p.writes_completed, nanos)
    &&& match r.utilisation {
        Some((part, whole)) => c.io_ticks_ms >= p.io_ticks_ms && whole == nanos && part == if (
        c.io_ticks_ms - p.io_ticks_ms) * 1_000_000 <= nanos {
            (c.io_ticks_ms - p.io_ticks_ms) * 1_000_000
        } else {
            nanos
        },
        None => c.io_ticks_ms < p.io_ticks_ms,
    }
}

pub open spec fn disks_apart(devices: Seq<DiskDeviceView>) -> bool {
    forall|i: int, j: int|
        0 <= i < j < devices.len() ==> (#[trigger] devices[i]).name != (#[trigger] devices[j]).name
}

proof fn lemma_disk_named(devices: Seq<DiskDeviceView>, name: Seq<char>)
    ensures
        match disk_named(devices, name) {
            Some(d) => devices.contains(d) && d.name == name,
            None => forall|i: int| 0 <= i < devices.len() ==> (#[trigger] devices[i]).name != name,
        },
    decreases devices.len(),
{
    if devices.len() > 0 {
        let front = devices.drop_last();
        lemma_disk_named(front, name);
        if devices.last().name == name {
            assert(devices[devices.len() - 1] == devices.last());
        } else {
            match disk_named(front, name) {
                Some(d) => {
                    let i = choose|i: int| 0 <= i < front.len() && front[i] == d;
                    assert(devices[i] == d);
                },
                None => {
                    assert forall|i: int| 0 <= i < devices.len() implies (
                    #[trigger] devices[i]).name != name by {
                        if i < front.len() {
                            assert(front[i] == devices[i]);
                        }
                    }
                },
            }
        }
    }
}

proof fn lemma_disk_entry(
    prev: Seq<DiskDeviceView>,
    curr: Seq<DiskDeviceView>,
    nanos: u64,
    j: int,
)
    requires
        disks_apart(curr),
        0 <= j < curr.len(),
    ensures
        ({
            let rates = disk_rates_of(prev, curr, nanos);
            match disk_named(prev, curr[j].name) {
                Some(p) => match disk_rate_of(p, curr[j], nanos) {
                    Some(r) => rates.contains_key(curr[j].name) && rates[curr[j].name] == r,
                    None => !rates.contains_key(curr[j].name),
                },
                None => !rates.contains_key(curr[j].name),
            }
        }),
    decreases curr.len(),
{
    let front = curr.drop_last();
    let last = curr.len() - 1;
    assert(disks_apart(front)) by {
        assert forall|a: int, b: int| 0 <= a < b < front.len() implies (#[trigger] front[a]).name
            != (#[trigger] front[b]).name by {
            assert(front[a] == curr[a] && front[b] == curr[b]);
        }
    }
    if j < last {
        assert(front[j] == curr[j]);
        lemma_disk_entry(prev, front, nanos, j);
        assert(curr[j].name != curr[last].name);
    } else {
        lemma_no_disk_entry(prev, front, nanos, curr[last].name);
    }
}

proof fn lemma_no_disk_entry(
    prev: Seq<DiskDeviceView>,
    curr: Seq<DiskDeviceView>,
    nanos: u64,
    name: Seq<char>,
)
    ensures
        (forall|i: int| 0 <= i < curr.len() ==> (#[trigger] curr[i]).name != name)
            ==> !disk_rates_of(prev, curr, nanos).contains_key(name),
    decreases curr.len(),
{
    if disk_rates_of(prev, curr, nanos).contains_key(name) {
        disk_rates_need_both_readings(prev, curr, nanos, name);
    }
}

/// There is a rate for the device exactly where it was among those before and
/// went on, and it is the right one.
pub open spec fn disk_rated(
    before: Seq<DiskDeviceView>,
    c: DiskDeviceView,
    nanos: int,
    rates: Map<Seq<char>, DiskRateView>,
) -> bool {
    &&& forall|k: int|
        0 <= k < before.len() && (#[trigger] before[k]).name == c.name ==> (rates.contains_key(c.name)
            <==> disk_went_on(before[k], c)) && (rates.contains_key(c.name) ==> disk_measured(
            before[k],
            c,
            nanos,
            rates[c.name],
        ))
    &&& (forall|k: int| 0 <= k < before.len() ==> (#[trigger] before[k]).name != c.name)
        ==> !rates.contains_key(c.name)
}

/// Each device has the rate of its own counters between the two readings, found
/// by its name, and none where one of them fell or it was not there before.
pub proof fn disks_have_their_own_rates(prev: BaselineView, curr: BaselineView, j: int)
    requires
        rates_between(prev, curr) is Some,
        prev.disks is Some,
        curr.disks is Some,
        disks_apart(prev.disks->0),
        disks_apart(curr.disks->0),
        0 <= j < curr.disks->0.len(),
    ensures
        disk_rated(
            prev.disks->0,
            curr.disks->0[j],
            curr.taken_at_monotonic - prev.taken_at_monotonic,
            rates_between(prev, curr)->0.disk,
        ),
{
    let nanos = rates_between(prev, curr)->0.interval_nanos;
    let (ps, cs) = (prev.disks->0, curr.disks->0);
    let c = cs[j];
    let rates = rates_between(prev, curr)->0.disk;
    lemma_disk_entry(ps, cs, nanos, j);
    lemma_disk_named(ps, c.name);
    if let Some(p) = disk_named(ps, c.name) {
        let m = choose|m: int| 0 <= m < ps.len() && ps[m] == p;
        assert(ps[m].name == c.name);
    }
    assert forall|k: int| 0 <= k < ps.len() && (#[trigger] ps[k]).name == c.name implies (
    rates.contains_key(c.name) <==> disk_went_on(ps[k], c)) && (rates.contains_key(c.name)
        ==> disk_measured(
        ps[k],
        c,
        curr.taken_at_monotonic - prev.taken_at_monotonic,
        rates[c.name],
    )) by {
        let p = disk_named(ps, c.name)->0;
        let m = choose|m: int| 0 <= m < ps.len() && ps[m] == p;
        if m < k {
            assert(ps[m].name != ps[k].name);
        }
        if k < m {
            assert(ps[k].name != ps[m].name);
        }
        assert(p == ps[k]);
    }
}

/// None of the traffic counters of an interface fell.
pub open spec fn net_went_on(p: NetInterfaceView, c: NetInterfaceView) -> bool {
    &&& p.rx_bytes <= c.rx_bytes
    &&& p.tx_bytes <= c.tx_bytes
    &&& p.rx_packets <= c.rx_packets
    &&& p.tx_packets <= c.tx_packets
}

/// The rate of an interface: bytes and packets, received and sent.
pub open spec fn net_measured(
    p: NetInterfaceView,
    c: NetInterfaceView,
    nanos: int,
    r: NetRate,
) -> bool {
    &&& rate_is(r.rx, c.rx_bytes - p.rx_bytes, nanos)
    &&& rate_is(r.tx, c.tx_bytes - p.tx_bytes, nanos)
    &&& rate_is(r.rx_packets_per_sec, c.rx_packets - p.rx_packets, nanos)
    &&& rate_is(r.tx_packets_per_sec, c.tx_packets - p.tx_packets, nanos)
}

pub open spec fn nets_apart(devices: Seq<NetInterfaceView>) -> bool {
    forall|i: int, j: int|
        0 <= i < j < devices.len() ==> (#[trigger] devices[i]).name != (#[trigger] devices[j]).name
}

proof fn lemma_net_named(devices: Seq<NetInterfaceView>, name: Seq<char>)
    ensures
        match net_named(devices, name) {
            Some(d) => devices.contains(d) && d.name == name,
            None => forall|i: int| 0 <= i < devices.len() ==> (#[trigger] devices[i]).name != name,
        },
    decreases devices.len(),
{
    if devices.len() > 0 {
        let front = devices.drop_last();
        lemma_net_named(front, name);
        if devices.last().name == name {
            assert(devices[devices.len() - 1] == devices.last());
        } else {
            match net_named(front, name) {
                Some(d) => {
                    let i = choose|i: int| 0 <= i < front.len() && front[i] == d;
                    assert(devices[i] == d);
                },
                None => {
                    assert forall|i: int| 0 <= i < devices.len() implies (
                    #[trigger] devices[i]).name != name by {
                        if i < front.len() {
                            assert(front[i] == devices[i]);
                        }
                    }
                },
            }
        }
    }
}

proof fn lemma_net_entry(
    prev: Seq<NetInterfaceView>,
    curr: Seq<NetInterfaceView>,
    nanos: u64,
    j: int,
)
    requires
        nets_apart(curr),
        0 <= j < curr.len(),
    ensures
        ({
            let rates = net_rates_of(prev, curr, nanos);
            match net_named(prev, curr[j].name) {
                Some(p) => match net_rate_of(p, curr[j], nanos) {
                    Some(r) => rates.contains_key(curr[j].name) && rates[curr[j].name] == r,
                    None => !rates.contains_key(curr[j].name),
                },
                None => !rates.contains_key(curr[j].name),
            }
        }),
    decreases curr.len(),
{
    let front = curr.drop_last();
    let last = curr.len() - 1;
    assert(nets_apart(front)) by {
        assert forall|a: int, b: int| 0 <= a < b < front.len() implies (#[trigger] front[a]).name
            != (#[trigger] front[b]).name by {
            assert(front[a] == curr[a] && front[b] == curr[b]);
        }
    }
    if j < last {
        assert(front[j] == curr[j]);
        lemma_net_entry(prev, front, nanos, j);
        assert(curr[j].name != curr[last].name);
    } else {
        lemma_no_net_entry(prev, front, nanos, curr[last].name);
    }
}

proof fn lemma_no_net_entry(
    prev: Seq<NetInterfaceView>,
    curr: Seq<NetInterfaceView>,
    nanos: u64,
    name: Seq<char>,
)
    ensures
        (forall|i: int| 0 <= i < curr.len() ==> (#[trigger] curr[i]).name != name)
            ==> !net_rates_of(prev, curr, nanos).contains_key(name),
    decreases curr.len(),
{
    if net_rates_of(prev, curr, nanos).contains_key(name) {
        net_rates_need_both_readings(prev, curr, nanos, name);
    }
}

/// There is a rate for the interface exactly where it was among those before and
/// went on, and it is the right one.
pub open spec fn net_rated(
    before: Seq<NetInterfaceView>,
    c: NetInterfaceView,
    nanos: int,
    rates: Map<Seq<char>, NetRate>,
) -> bool {
    &&& forall|k: int|
        0 <= k < before.len() && (#[trigger] before[k]).name == c.name ==> (rates.contains_key(c.name)
            <==> net_went_on(before[k], c)) && (rates.contains_key(c.name) ==> net_measured(
            before[k],
            c,
            nanos,
            rates[c.name],
        ))
    &&& (forall|k: int| 0 <= k < before.len() ==> (#[trigger] before[k]).name != c.name)
        ==> !rates.contains_key(c.name)
}

/// Each interface has the rate of its own counters between the two readings, found
/// by its name, and none where one of them fell or it was not there before.
pub proof fn interfaces_have_their_own_rates(prev: BaselineView, curr: BaselineView, j: int)
    requires
        rates_between(prev, curr) is Some,
        prev.net is Some,
        curr.net is Some,
        nets_apart(prev.net->0),
        nets_apart(curr.net->0),
        0 <= j < curr.net->0.len(),
    ensures
        net_rated(
            prev.net->0,
            curr.net->0[j],
            curr.taken_at_monotonic - prev.taken_at_monotonic,
            rates_between(prev, curr)->0.net,
        ),
{
    let nanos = rates_between(prev, curr)->0.interval_nanos;
    let (ps, cs) = (prev.net->0, curr.net->0);
    let c = cs[j];
    let rates = rates_between(prev, curr)->0.net;
    lemma_net_entry(ps, cs, nanos, j);
    lemma_net_named(ps, c.name);
    if let Some(p) = net_named(ps, c.name) {
        let m = choose|m: int| 0 <= m < ps.len() && ps[m] == p;
        assert(ps[m].name == c.name);
    }
    assert forall|k: int| 0 <= k < ps.len() && (#[trigger] ps[k]).name == c.name implies (
    rates.contains_key(c.name) <==> net_went_on(ps[k], c)) && (rates.contains_key(c.name)
        ==> net_measured(
        ps[k],
        c,
        curr.taken_at_monotonic - prev.taken_at_monotonic,
        rates[c.name],
    )) by {
        let p = net_named(ps, c.name)->0;
        let m = choose|m: int| 0 <= m < ps.len() && ps[m] == p;
        if m < k {
            assert(ps[m].name != ps[k].name);
        }
        if k < m {
            assert(ps[k].name != ps[m].name);
        }
        assert(p == ps[k]);
    }
}

/// Each core of the later reading has the share of its own counters.
pub open spec fn cores_measured(
    before: Seq<CpuTimes>,
    after: Seq<CpuTimes>,
    measured: Seq<Option<(nat, nat)>>,
) -> bool {
    &&& measured.len() == after.len()
    &&& forall|i: int|
        0 <= i < after.len() ==> if i < before.len() {
            busy_measured(before[i], after[i], #[trigger] measured[i])
        } else {
            measured[i] is None
        }
}

/// Between two snapshots, the second later than the first, every figure is that
/// of the counters in the two of them.
pub proof fn snapshots_are_compared_by_their_counters(prev: SnapshotView, curr: SnapshotView)
    requires
        prev.taken_at_monotonic < curr.taken_at_monotonic,
    ensures
        rates_between(baseline_of(prev), baseline_of(curr)) matches Some(r) && {
            let nanos = curr.taken_at_monotonic - prev.taken_at_monotonic;
            &&& r.interval_nanos == nanos
            &&& match (prev.cpu, curr.cpu) {
                (Some(p), Some(c)) => busy_measured(p.total, c.total, r.cpu_total)
                    && cores_measured(p.per_core, c.per_core, r.cpu_per_core),
                _ => r.cpu_total is None && r.cpu_per_core.len() == 0,
            }
            &&& match (prev.disks, curr.disks) {
                (Some(p), Some(c)) => disks_apart(p.devices) && disks_apart(c.devices)
                    ==> forall|j: int|
                    0 <= j < c.devices.len() ==> disk_rated(
                        p.devices,
                        #[trigger] c.devices[j],
                        nanos,
                        r.disk,
                    ),
                _ => r.disk.is_empty(),
            }
            &&& match (prev.net, curr.net) {
                (Some(p), Some(c)) => nets_apart(p.interfaces) && nets_apart(c.interfaces)
                    ==> forall|j: int|
                    0 <= j < c.interfaces.len() ==> net_rated(
                        p.interfaces,
                        #[trigger] c.interfaces[j],
                        nanos,
                        r.net,
                    ),
                _ => r.net.is_empty(),
            }
        },
{
    let (p, c) = (baseline_of(prev), baseline_of(curr));
    let r = rates_between(p, c)->0;
    if prev.cpu is Some && curr.cpu is Some {
        lemma_busy(processor(p), processor(c));
        assert forall|i: int| 0 <= i < cores(c).len() implies if i < cores(p).len() {
            busy_measured(cores(p)[i], cores(c)[i], #[trigger] r.cpu_per_core[i])
        } else {
            r.cpu_per_core[i] is None
        } by {
            shares_are_those_of_the_counters(p, c, i);
        }
    }
    if prev.disks is Some && curr.disks is Some && disks_apart(p.disks->0) && disks_apart(
        c.disks->0,
    ) {
        assert forall|j: int| 0 <= j < (c.disks->0).len() implies disk_rated(
            p.disks->0,
            #[trigger] c.disks->0[j],
            curr.taken_at_monotonic - prev.taken_at_monotonic,
            r.disk,
        ) by {
            disks_have_their_own_rates(p, c, j);
        }
    }
    if prev.net is Some && curr.net is Some && nets_apart(p.net->0) && nets_apart(c.net->0) {
        assert forall|j: int| 0 <= j < (c.net->0).len() implies net_rated(
            p.net->0,
            #[trigger] c.net->0[j],
            curr.taken_at_monotonic - prev.taken_at_monotonic,
            r.net,
        ) by {
            interfaces_have_their_own_rates(p, c, j);
        }
    }
}

} // verus!
