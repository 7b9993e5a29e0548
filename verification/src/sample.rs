//! What one reading of the machine holds.
//!
//! A sample stores raw values. Throughput and busy shares are not here, for
//! the kernel only offers counters: turning those into rates needs two
//! snapshots, and is [`crate::delta`]'s job.

use vstd::prelude::*;

use crate::addr::IpAddr;
use crate::text::text_option_view;
use crate::units::{
    percent_view, share, Bytes, KiloHertz, MicroWatts, MilliCelsius, Percent, Rpm,
};

verus! {

/// The views of a list.
pub open spec fn views<T: View>(s: Seq<T>) -> Seq<T::V> {
    s.map_values(|x: T| x@)
}

/// The view of what an option holds.
pub open spec fn option_view<T: View>(x: Option<T>) -> Option<T::V> {
    match x {
        Some(x) => Some(x@),
        None => None,
    }
}

// ---------------------------------------------------------------------------
// Processor
// ---------------------------------------------------------------------------
/// Jiffy counters of one processor. They only grow; utilisation is a delta.
#[derive(Debug, Clone, Copy, PartialEq, Eq, Structural)]
pub struct CpuTimes {
    pub user: u64,
    pub nice: u64,
    pub system: u64,
    pub idle: u64,
    pub iowait: u64,
    pub irq: u64,
    pub softirq: u64,
    pub steal: u64,
    pub guest: u64,
    pub guest_nice: u64,
}

/// All counters at zero.
pub open spec fn no_times() -> CpuTimes {
    CpuTimes {
        user: 0,
        nice: 0,
        system: 0,
        idle: 0,
        iowait: 0,
        irq: 0,
        softirq: 0,
        steal: 0,
        guest: 0,
        guest_nice: 0,
    }
}

impl Default for CpuTimes {
    fn default() -> (r: CpuTimes)
        ensures
            r == no_times(),
    {
        CpuTimes {
            user: 0,
            nice: 0,
            system: 0,
            idle: 0,
            iowait: 0,
            irq: 0,
            softirq: 0,
            steal: 0,
            guest: 0,
            guest_nice: 0,
        }
    }
}

/// `n`, or the largest 64-bit number where `n` is larger.
pub open spec fn at_most_max(n: int) -> u64 {
    if n > u64::MAX {
        u64::MAX
    } else {
        n as u64
    }
}

/// `a - b`, or zero where that is negative.
pub open spec fn minus(a: u64, b: u64) -> u64 {
    if a < b {
        0
    } else {
        (a - b) as u64
    }
}

impl CpuTimes {
    /// Everything but the guest counters, which the kernel counts a second
    /// time inside `user` and `nice`.
    pub open spec fn spec_total(self) -> u64 {
        at_most_max(
            self.user + self.nice + self.system + self.idle + self.iowait + self.irq + self.softirq
                + self.steal,
        )
    }

    pub open spec fn spec_busy(self) -> u64 {
        minus(minus(self.spec_total(), self.idle), self.iowait)
    }

    /// The sum of the counters, or the largest number where it is larger.
    /// The guest counters are part of others and are left out.
    pub fn total(&self) -> (r: u64)
        ensures
            r == self.spec_total(),
    {
        self.user.saturating_add(self.nice).saturating_add(self.system).saturating_add(
            self.idle,
        ).saturating_add(self.iowait).saturating_add(self.irq).saturating_add(
            self.softirq,
        ).saturating_add(self.steal)
    }

    /// The time that was spent neither idle nor waiting.
    pub fn busy(&self) -> (r: u64)
        ensures
            r == self.spec_busy(),
    {
        self.total().saturating_sub(self.idle).saturating_sub(self.iowait)
    }
}

/// The three load averages, as the kernel writes them.
#[derive(Debug)]
pub struct LoadAvg {
    pub one: String,
    pub five: String,
    pub fifteen: String,
}

pub struct LoadAvgView {
    pub one: Seq<char>,
    pub five: Seq<char>,
    pub fifteen: Seq<char>,
}

impl View for LoadAvg {
    type V = LoadAvgView;

    open spec fn view(&self) -> LoadAvgView {
        LoadAvgView { one: self.one@, five: self.five@, fifteen: self.fifteen@ }
    }
}

/// From `/proc/stat`, `/proc/loadavg` and the frequency files.
#[derive(Debug)]
pub struct CpuSample {
    /// The counters of all processors together.
    pub total: CpuTimes,
    /// The counters of each core, at its number.
    pub per_core: Vec<CpuTimes>,
    /// The current frequency of each core, where its driver reports it.
    pub freq_khz: Vec<Option<KiloHertz>>,
    /// Over the last minute, five minutes and fifteen.
    pub load_avg: Option<LoadAvg>,
    /// The model name, sanitised.
    pub model: Option<String>,
    /// Context switches since boot.
    pub ctxt: Option<u64>,
    /// The time of boot.
    pub btime: Option<u64>,
}

pub struct CpuSampleView {
    pub total: CpuTimes,
    pub per_core: Seq<CpuTimes>,
    pub freq_khz: Seq<Option<KiloHertz>>,
    pub load_avg: Option<LoadAvgView>,
    pub model: Option<Seq<char>>,
    pub ctxt: Option<u64>,
    pub btime: Option<u64>,
}

impl View for CpuSample {
    type V = CpuSampleView;

    open spec fn view(&self) -> CpuSampleView {
        CpuSampleView {
            total: self.total,
            per_core: self.per_core@,
            freq_khz: self.freq_khz@,
            load_avg: option_view(self.load_avg),
            model: text_option_view(self.model),
            ctxt: self.ctxt,
            btime: self.btime,
        }
    }
}

// ---------------------------------------------------------------------------
// Memory
// ---------------------------------------------------------------------------
/// From `/proc/meminfo`, which counts in kB.
#[derive(Debug, Clone, Copy, PartialEq, Eq, Structural)]
pub struct MemorySample {
    pub total: Bytes,
    pub free: Bytes,
    /// What a new program could have: the figure to show as free.
    pub available: Bytes,
    pub buffers: Bytes,
    pub cached: Bytes,
    pub swap_total: Bytes,
    pub swap_free: Bytes,
}

pub open spec fn no_memory() -> MemorySample {
    MemorySample {
        total: Bytes(0),
        free: Bytes(0),
        available: Bytes(0),
        buffers: Bytes(0),
        cached: Bytes(0),
        swap_total: Bytes(0),
        swap_free: Bytes(0),
    }
}

impl Default for MemorySample {
    fn default() -> (r: MemorySample)
        ensures
            r == no_memory(),
    {
        MemorySample {
            total: Bytes(0),
            free: Bytes(0),
            available: Bytes(0),
            buffers: Bytes(0),
            cached: Bytes(0),
            swap_total: Bytes(0),
            swap_free: Bytes(0),
        }
    }
}

impl MemorySample {
    pub open spec fn spec_used(self) -> Bytes {
        Bytes(minus(self.total.0, self.available.0))
    }

    pub open spec fn spec_swap_used(self) -> Bytes {
        Bytes(minus(self.swap_total.0, self.swap_free.0))
    }

    /// What is not available: the number that people mean by used.
    pub fn used(&self) -> (r: Bytes)
        ensures
            r == self.spec_used(),
    {
        Bytes::from_bytes(self.total.as_u64().saturating_sub(self.available.as_u64()))
    }

    /// `None` where there is no memory at all: a machine that reports none is
    /// not one that uses none of it.
    pub fn used_percent(&self) -> (r: Option<Percent>)
        ensures
            percent_view(r) == share(self.spec_used().0 as nat, self.total.0 as nat),
    {
        Percent::from_ratio(self.used().as_u64() as u128, self.total.as_u64() as u128)
    }

    pub fn swap_used(&self) -> (r: Bytes)
        ensures
            r == self.spec_swap_used(),
    {
        Bytes::from_bytes(self.swap_total.as_u64().saturating_sub(self.swap_free.as_u64()))
    }
}

// ---------------------------------------------------------------------------
// Temperatures and fans
// ---------------------------------------------------------------------------
#[derive(Debug)]
pub struct ThermalSample {
    pub chips: Vec<HwmonChip>,
}

/// One chip of `/sys/class/hwmon`.
#[derive(Debug)]
pub struct HwmonChip {
    pub name: String,
    pub temps: Vec<TempSensor>,
    pub fans: Vec<FanSensor>,
}

#[derive(Debug)]
pub struct TempSensor {
    pub label: String,
    pub value: MilliCelsius,
    /// The sustained limit.
    pub max: Option<MilliCelsius>,
    /// The point at which the hardware shuts down.
    pub crit: Option<MilliCelsius>,
}

#[derive(Debug)]
pub struct FanSensor {
    pub label: String,
    pub rpm: Rpm,
}

#[derive(Debug, Clone, Copy, PartialEq, Eq, Structural)]
pub enum TempSeverity {
    Unknown,
    Normal,
    Warning,
    Critical,
}

pub struct ThermalSampleView {
    pub chips: Seq<HwmonChipView>,
}

pub struct HwmonChipView {
    pub name: Seq<char>,
    pub temps: Seq<TempSensorView>,
    pub fans: Seq<FanSensorView>,
}

pub struct TempSensorView {
    pub label: Seq<char>,
    pub value: MilliCelsius,
    pub max: Option<MilliCelsius>,
    pub crit: Option<MilliCelsius>,
}

pub struct FanSensorView {
    pub label: Seq<char>,
    pub rpm: Rpm,
}

impl View for ThermalSample {
    type V = ThermalSampleView;

    open spec fn view(&self) -> ThermalSampleView {
        ThermalSampleView { chips: views(self.chips@) }
    }
}

impl View for HwmonChip {
    type V = HwmonChipView;

    open spec fn view(&self) -> HwmonChipView {
        HwmonChipView { name: self.name@, temps: views(self.temps@), fans: views(self.fans@) }
    }
}

impl View for TempSensor {
    type V = TempSensorView;

    open spec fn view(&self) -> TempSensorView {
        TempSensorView { label: self.label@, value: self.value, max: self.max, crit: self.crit }
    }
}

impl View for FanSensor {
    type V = FanSensorView;

    open spec fn view(&self) -> FanSensorView {
        FanSensorView { label: self.label@, rpm: self.rpm }
    }
}

/// The limit is there, and the value has reached it.
pub open spec fn reached(value: MilliCelsius, limit: Option<MilliCelsius>) -> bool {
    limit matches Some(l) && value.0 >= l.0
}

/// The shutdown point outranks the sustained limit; without either nothing is
/// known.
pub open spec fn severity_of(t: TempSensorView) -> TempSeverity {
    if reached(t.value, t.crit) {
        TempSeverity::Critical
    } else if reached(t.value, t.max) {
        TempSeverity::Warning
    } else if t.crit is None && t.max is None {
        TempSeverity::Unknown
    } else {
        TempSeverity::Normal
    }
}

impl TempSensor {
    /// How close to critical the sensor is.
    pub fn severity(&self) -> (r: TempSeverity)
        ensures
            r == severity_of(self@),
    {
        if let Some(crit) = self.crit {
            if self.value.at_or_above(crit) {
                return TempSeverity::Critical;
            }
        }
        if let Some(max) = self.max {
            if self.value.at_or_above(max) {
                return TempSeverity::Warning;
            }
        }
        if self.crit.is_none() && self.max.is_none() {
            return TempSeverity::Unknown;
        }
        TempSeverity::Normal
    }
}

// ---------------------------------------------------------------------------
// Disks
// ---------------------------------------------------------------------------
#[derive(Debug)]
pub struct DiskSample {
    /// Whole devices from `/proc/diskstats`; partitions and virtual devices
    /// are left out.
    pub devices: Vec<DiskDevice>,
    /// Mounted filesystems.
    pub mounts: Vec<MountPoint>,
}

/// The counters of one block device. They only grow.
#[derive(Debug)]
pub struct DiskDevice {
    pub name: String,
    pub reads_completed: u64,
    pub writes_completed: u64,
    /// In sectors of 512 bytes, whatever the device's own sectors are.
    pub sectors_read: u64,
    pub sectors_written: u64,
    /// Milliseconds that the device was busy.
    pub io_ticks_ms: u64,
}

#[derive(Debug)]
pub struct MountPoint {
    pub source: String,
    pub mount_point: String,
    pub fs_type: String,
    pub total: Option<Bytes>,
    pub available: Option<Bytes>,
}

pub struct DiskSampleView {
    pub devices: Seq<DiskDeviceView>,
    pub mounts: Seq<MountPointView>,
}

pub struct DiskDeviceView {
    pub name: Seq<char>,
    pub reads_completed: u64,
    pub writes_completed: u64,
    pub sectors_read: u64,
    pub sectors_written: u64,
    pub io_ticks_ms: u64,
}

pub struct MountPointView {
    pub source: Seq<char>,
    pub mount_point: Seq<char>,
    pub fs_type: Seq<char>,
    pub total: Option<Bytes>,
    pub available: Option<Bytes>,
}

impl View for DiskSample {
    type V = DiskSampleView;

    open spec fn view(&self) -> DiskSampleView {
        DiskSampleView { devices: views(self.devices@), mounts: views(self.mounts@) }
    }
}

impl View for DiskDevice {
    type V = DiskDeviceView;

    open spec fn view(&self) -> DiskDeviceView {
        DiskDeviceView {
            name: self.name@,
            reads_completed: self.reads_completed,
            writes_completed: self.writes_completed,
            sectors_read: self.sectors_read,
            sectors_written: self.sectors_written,
            io_ticks_ms: self.io_ticks_ms,
        }
    }
}

impl View for MountPoint {
    type V = MountPointView;

    open spec fn view(&self) -> MountPointView {
        MountPointView {
            source: self.source@,
            mount_point: self.mount_point@,
            fs_type: self.fs_type@,
            total: self.total,
            available: self.available,
        }
    }
}

impl DiskDevice {
    pub fn duplicate(&self) -> (r: DiskDevice)
        ensures
            r@ == self@,
    {
        DiskDevice {
            name: self.name.clone(),
            reads_completed: self.reads_completed,
            writes_completed: self.writes_completed,
            sectors_read: self.sectors_read,
            sectors_written: self.sectors_written,
            io_ticks_ms: self.io_ticks_ms,
        }
    }
}

// ---------------------------------------------------------------------------
// Network interfaces
// ---------------------------------------------------------------------------
#[derive(Debug)]
pub struct NetSample {
    pub interfaces: Vec<NetInterface>,
}

/// Counters from `/proc/net/dev`, and the state from `/sys/class/net`.
#[derive(Debug)]
pub struct NetInterface {
    pub name: String,
    pub rx_bytes: u64,
    pub tx_bytes: u64,
    pub rx_packets: u64,
    pub tx_packets: u64,
    pub rx_errors: u64,
    pub tx_errors: u64,
    pub rx_dropped: u64,
    pub tx_dropped: u64,
    pub operstate: Option<String>,
    pub mtu: Option<u64>,
}

pub struct NetSampleView {
    pub interfaces: Seq<NetInterfaceView>,
}

pub struct NetInterfaceView {
    pub name: Seq<char>,
    pub rx_bytes: u64,
    pub tx_bytes: u64,
    pub rx_packets: u64,
    pub tx_packets: u64,
    pub rx_errors: u64,
    pub tx_errors: u64,
    pub rx_dropped: u64,
    pub tx_dropped: u64,
    pub operstate: Option<Seq<char>>,
    pub mtu: Option<u64>,
}

impl View for NetSample {
    type V = NetSampleView;

    open spec fn view(&self) -> NetSampleView {
        NetSampleView { interfaces: views(self.interfaces@) }
    }
}

impl View for NetInterface {
    type V = NetInterfaceView;

    open spec fn view(&self) -> NetInterfaceView {
        NetInterfaceView {
            name: self.name@,
            rx_bytes: self.rx_bytes,
            tx_bytes: self.tx_bytes,
            rx_packets: self.rx_packets,
            tx_packets: self.tx_packets,
            rx_errors: self.rx_errors,
            tx_errors: self.tx_errors,
            rx_dropped: self.rx_dropped,
            tx_dropped: self.tx_dropped,
            operstate: text_option_view(self.operstate),
            mtu: self.mtu,
        }
    }
}

impl NetInterface {
    pub fn duplicate(&self) -> (r: NetInterface)
        ensures
            r@ == self@,
    {
        let operstate: Option<String> = match &self.operstate {
            Some(state) => Some(state.clone()),
            None => None,
        };
        NetInterface {
            name: self.name.clone(),
            rx_bytes: self.rx_bytes,
            tx_bytes: self.tx_bytes,
            rx_packets: self.rx_packets,
            tx_packets: self.tx_packets,
            rx_errors: self.rx_errors,
            tx_errors: self.tx_errors,
            rx_dropped: self.rx_dropped,
            tx_dropped: self.tx_dropped,
            operstate,
            mtu: self.mtu,
        }
    }
}

// ---------------------------------------------------------------------------
// Graphics cards
// ---------------------------------------------------------------------------
#[derive(Debug)]
pub struct GpuSample {
    pub gpus: Vec<Gpu>,
}

#[derive(Debug)]
pub struct Gpu {
    pub vendor: GpuVendor,
    pub name: String,
    pub busy: Option<Percent>,
    pub vram_total: Option<Bytes>,
    pub vram_used: Option<Bytes>,
    pub temp: Option<MilliCelsius>,
    pub power: Option<MicroWatts>,
    pub fan_rpm: Option<Rpm>,
    /// The core clock: the best that a driver without utilisation offers.
    pub freq_khz: Option<KiloHertz>,
}

#[derive(Debug, Clone, Copy, PartialEq, Eq, Structural)]
pub enum GpuVendor {
    Unknown,
    Amd,
    Intel,
    Nvidia,
}

pub struct GpuSampleView {
    pub gpus: Seq<GpuView>,
}

pub struct GpuView {
    pub vendor: GpuVendor,
    pub name: Seq<char>,
    pub busy: Option<(nat, nat)>,
    pub vram_total: Option<Bytes>,
    pub vram_used: Option<Bytes>,
    pub temp: Option<MilliCelsius>,
    pub power: Option<MicroWatts>,
    pub fan_rpm: Option<Rpm>,
    pub freq_khz: Option<KiloHertz>,
}

impl Default for GpuVendor {
    fn default() -> (r: GpuVendor)
        ensures
            r == GpuVendor::Unknown,
    {
        GpuVendor::Unknown
    }
}

impl View for GpuSample {
    type V = GpuSampleView;

    open spec fn view(&self) -> GpuSampleView {
        GpuSampleView { gpus: views(self.gpus@) }
    }
}

impl View for Gpu {
    type V = GpuView;

    open spec fn view(&self) -> GpuView {
        GpuView {
            vendor: self.vendor,
            name: self.name@,
            busy: percent_view(self.busy),
            vram_total: self.vram_total,
            vram_used: self.vram_used,
            temp: self.temp,
            power: self.power,
            fan_rpm: self.fan_rpm,
            freq_khz: self.freq_khz,
        }
    }
}

// ---------------------------------------------------------------------------
// Connections
// ---------------------------------------------------------------------------
/// Every connection to the internet. Local and private peers, and sockets
/// without a peer, are left out.
#[derive(Debug)]
pub struct ConnectionSample {
    pub connections: Vec<Connection>,
}

#[derive(Debug)]
pub struct Connection {
    pub protocol: ConnProtocol,
    pub local_addr: IpAddr,
    pub local_port: u16,
    pub remote_addr: IpAddr,
    pub remote_port: u16,
    /// `None` for UDP, which has no connection state.
    pub state: Option<TcpState>,
    /// The user who owns the socket, which is always known.
    pub uid: u32,
    /// The process that owns the socket, where it could be found.
    pub pid: Option<u32>,
    /// The name of that process, sanitised.
    pub program: Option<String>,
    /// The parent of that process.
    pub ppid: Option<u32>,
}

#[derive(Debug, Clone, Copy, PartialEq, Eq, Structural)]
pub enum ConnProtocol {
    Tcp,
    Udp,
}

/// The kernel's connection states.
#[derive(Debug, Clone, Copy, PartialEq, Eq, Structural)]
pub enum TcpState {
    Established,
    SynSent,
    SynRecv,
    FinWait1,
    FinWait2,
    TimeWait,
    Close,
    CloseWait,
    LastAck,
    Listen,
    Closing,
    /// A value that is not in the list, kept as it is.
    Unknown(u8),
}

pub struct ConnectionSampleView {
    pub connections: Seq<ConnectionView>,
}

pub struct ConnectionView {
    pub protocol: ConnProtocol,
    pub local_addr: IpAddr,
    pub local_port: u16,
    pub remote_addr: IpAddr,
    pub remote_port: u16,
    pub state: Option<TcpState>,
    pub uid: u32,
    pub pid: Option<u32>,
    pub program: Option<Seq<char>>,
    pub ppid: Option<u32>,
}

impl View for ConnectionSample {
    type V = ConnectionSampleView;

    open spec fn view(&self) -> ConnectionSampleView {
        ConnectionSampleView { connections: views(self.connections@) }
    }
}

impl View for Connection {
    type V = ConnectionView;

    open spec fn view(&self) -> ConnectionView {
        ConnectionView {
            protocol: self.protocol,
            local_addr: self.local_addr,
            local_port: self.local_port,
            remote_addr: self.remote_addr,
            remote_port: self.remote_port,
            state: self.state,
            uid: self.uid,
            pid: self.pid,
            program: text_option_view(self.program),
            ppid: self.ppid,
        }
    }
}

/// The state that the kernel numbers `b`.
pub open spec fn tcp_state_of(b: u8) -> TcpState {
    if b == 1 {
        TcpState::Established
    } else if b == 2 {
        TcpState::SynSent
    } else if b == 3 {
        TcpState::SynRecv
    } else if b == 4 {
        TcpState::FinWait1
    } else if b == 5 {
        TcpState::FinWait2
    } else if b == 6 {
        TcpState::TimeWait
    } else if b == 7 {
        TcpState::Close
    } else if b == 8 {
        TcpState::CloseWait
    } else if b == 9 {
        TcpState::LastAck
    } else if b == 10 {
        TcpState::Listen
    } else if b == 11 {
        TcpState::Closing
    } else {
        TcpState::Unknown(b)
    }
}

pub open spec fn tcp_state_name(s: TcpState) -> Seq<char> {
    match s {
        TcpState::Established => "established"@,
        TcpState::SynSent => "syn_sent"@,
        TcpState::SynRecv => "syn_recv"@,
        TcpState::FinWait1 => "fin_wait1"@,
        TcpState::FinWait2 => "fin_wait2"@,
        TcpState::TimeWait => "time_wait"@,
        TcpState::Close => "close"@,
        TcpState::CloseWait => "close_wait"@,
        TcpState::LastAck => "last_ack"@,
        TcpState::Listen => "listen"@,
        TcpState::Closing => "closing"@,
        TcpState::Unknown(_) => "unknown"@,
    }
}

impl TcpState {
    /// Decodes the kernel's value.
    pub fn from_byte(b: u8) -> (r: TcpState)
        ensures
            r == tcp_state_of(b),
    {
        match b {
            0x01 => TcpState::Established,
            0x02 => TcpState::SynSent,
            0x03 => TcpState::SynRecv,
            0x04 => TcpState::FinWait1,
            0x05 => TcpState::FinWait2,
            0x06 => TcpState::TimeWait,
            0x07 => TcpState::Close,
            0x08 => TcpState::CloseWait,
            0x09 => TcpState::LastAck,
            0x0a => TcpState::Listen,
            0x0b => TcpState::Closing,
            other => TcpState::Unknown(other),
        }
    }

    /// Short, stable, lower case.
    pub fn as_str(self) -> (r: &'static str)
        ensures
            r@ == tcp_state_name(self),
    {
        match self {
            TcpState::Established => "established",
            TcpState::SynSent => "syn_sent",
            TcpState::SynRecv => "syn_recv",
            TcpState::FinWait1 => "fin_wait1",
            TcpState::FinWait2 => "fin_wait2",
            TcpState::TimeWait => "time_wait",
            TcpState::Close => "close",
            TcpState::CloseWait => "close_wait",
            TcpState::LastAck => "last_ack",
            TcpState::Listen => "listen",
            TcpState::Closing => "closing",
            TcpState::Unknown(_) => "unknown",
        }
    }
}

// ---------------------------------------------------------------------------
// The snapshot
// ---------------------------------------------------------------------------
/// A collector that failed, and how.
#[derive(Debug)]
pub struct CollectorError {
    pub collector: &'static str,
    pub message: String,
}

pub struct CollectorErrorView {
    pub collector: Seq<char>,
    pub message: Seq<char>,
}

impl View for CollectorError {
    type V = CollectorErrorView;

    open spec fn view(&self) -> CollectorErrorView {
        CollectorErrorView { collector: self.collector@, message: self.message@ }
    }
}

/// One complete reading of the machine.
#[derive(Debug)]
pub struct Snapshot {
    /// Wall-clock time in seconds from the epoch, for display alone.
    pub taken_at: i64,
    /// Monotonic time in nanoseconds, for intervals: a stepped wall clock
    /// would make a rate absurd.
    pub taken_at_monotonic: u64,
    pub cpu: Option<CpuSample>,
    pub memory: Option<MemorySample>,
    pub thermal: Option<ThermalSample>,
    pub disks: Option<DiskSample>,
    pub net: Option<NetSample>,
    pub gpus: Option<GpuSample>,
    pub connections: Option<ConnectionSample>,
    /// Collectors that failed, which does not make the rest invalid.
    pub errors: Vec<CollectorError>,
}

pub struct SnapshotView {
    pub taken_at: i64,
    pub taken_at_monotonic: u64,
    pub cpu: Option<CpuSampleView>,
    pub memory: Option<MemorySample>,
    pub thermal: Option<ThermalSampleView>,
    pub disks: Option<DiskSampleView>,
    pub net: Option<NetSampleView>,
    pub gpus: Option<GpuSampleView>,
    pub connections: Option<ConnectionSampleView>,
    pub errors: Seq<CollectorErrorView>,
}

impl View for Snapshot {
    type V = SnapshotView;

    open spec fn view(&self) -> SnapshotView {
        SnapshotView {
            taken_at: self.taken_at,
            taken_at_monotonic: self.taken_at_monotonic,
            cpu: option_view(self.cpu),
            memory: self.memory,
            thermal: option_view(self.thermal),
            disks: option_view(self.disks),
            net: option_view(self.net),
            gpus: option_view(self.gpus),
            connections: option_view(self.connections),
            errors: views(self.errors@),
        }
    }
}

/// A snapshot with nothing in it.
pub open spec fn empty_snapshot(taken_at: i64, taken_at_monotonic: u64) -> SnapshotView {
    SnapshotView {
        taken_at,
        taken_at_monotonic,
        cpu: None,
        memory: None,
        thermal: None,
        disks: None,
        net: None,
        gpus: None,
        connections: None,
        errors: Seq::empty(),
    }
}

/// The nanoseconds from one monotonic time to another that is later.
pub open spec fn elapsed(from: u64, to: u64) -> Option<u64> {
    if to > from {
        Some((to - from) as u64)
    } else {
        None
    }
}

impl Snapshot {
    /// An empty snapshot stamped with the two clocks' readings.
    pub fn now(taken_at: i64, taken_at_monotonic: u64) -> (r: Snapshot)
        ensures
            r@ == empty_snapshot(taken_at, taken_at_monotonic),
    {
        let r = Snapshot {
            taken_at,
            taken_at_monotonic,
            cpu: None,
            memory: None,
            thermal: None,
            disks: None,
            net: None,
            gpus: None,
            connections: None,
            errors: Vec::new(),
        };
        assert(views(r.errors@) == Seq::<CollectorErrorView>::empty());
        r
    }

    /// Nanoseconds since an earlier snapshot; `None` where this one is not
    /// strictly later, and the interval has to be dropped.
    pub fn elapsed_since(&self, earlier: &Snapshot) -> (r: Option<u64>)
        ensures
            r == elapsed(earlier.taken_at_monotonic, self.taken_at_monotonic),
    {
        if self.taken_at_monotonic > earlier.taken_at_monotonic {
            Some(self.taken_at_monotonic - earlier.taken_at_monotonic)
        } else {
            None
        }
    }
}

// ---------------------------------------------------------------------------
// What the figures mean
// ---------------------------------------------------------------------------
/// The total of a processor is the sum of its counters without those of guests,
/// which are part of others; what is neither idle nor waiting is busy. Where the
/// sum is too large to hold, the total is the largest number.
pub proof fn totals_leave_out_the_guests(t: CpuTimes)
    ensures
        ({
            let work = t.user + t.nice + t.system + t.irq + t.softirq + t.steal;
            let sum = work + t.idle + t.iowait;
            &&& sum <= u64::MAX ==> t.spec_total() == sum && t.spec_busy() == work
            &&& sum > u64::MAX ==> t.spec_total() == u64::MAX
        }),
        forall|guest: u64, guest_nice: u64| #[trigger]
            (CpuTimes { guest, guest_nice, ..t }).spec_total() == t.spec_total(),
{
}

/// What is used of the memory and what is available make up all of it, and the same
/// of the swap, where the figures make sense.
pub proof fn used_and_free_make_up_the_whole(m: MemorySample)
    ensures
        m.available.0 <= m.total.0 ==> m.spec_used().0 + m.available.0 == m.total.0,
        m.available.0 > m.total.0 ==> m.spec_used().0 == 0,
        m.swap_free.0 <= m.swap_total.0 ==> m.spec_swap_used().0 + m.swap_free.0
            == m.swap_total.0,
        m.swap_free.0 > m.swap_total.0 ==> m.spec_swap_used().0 == 0,
{
}

/// A share never exceeds the whole, is of the whole that it is given, and there is
/// none of nothing.
pub proof fn shares_are_of_their_whole(part: nat, whole: nat)
    ensures
        share(part, whole) is None <==> whole == 0,
        share(part, whole) matches Some((p, w)) ==> w == whole && p <= w && (part <= whole ==> p
            == part) && (part > whole ==> p == whole),
{
}

/// A sensor is critical at its shutdown point or above it, whatever its sustained
/// limit; it warns at the sustained limit or above; without any limit nothing is
/// known, and below all of them it is normal.
pub proof fn sensors_are_judged_by_their_limits(t: TempSensorView)
    ensures
        severity_of(t) == TempSeverity::Critical <==> (t.crit is Some && t.value.0
            >= (t.crit->0).0),
        severity_of(t) == TempSeverity::Warning <==> (t.max is Some && t.value.0 >= (t.max->0).0 && (
        t.crit is None || t.value.0 < (t.crit->0).0)),
        severity_of(t) == TempSeverity::Unknown <==> (t.max is None && t.crit is None),
{
}

/// The kernel's numbers of the connection states. Every other number is kept as it
/// is, so no two numbers mean the same.
pub proof fn states_are_told_apart(a: u8, b: u8)
    ensures
        tcp_state_of(a) == tcp_state_of(b) ==> a == b,
        tcp_state_of(1) == TcpState::Established,
        tcp_state_of(2) == TcpState::SynSent,
        tcp_state_of(3) == TcpState::SynRecv,
        tcp_state_of(4) == TcpState::FinWait1,
        tcp_state_of(5) == TcpState::FinWait2,
        tcp_state_of(6) == TcpState::TimeWait,
        tcp_state_of(7) == TcpState::Close,
        tcp_state_of(8) == TcpState::CloseWait,
        tcp_state_of(9) == TcpState::LastAck,
        tcp_state_of(10) == TcpState::Listen,
        tcp_state_of(11) == TcpState::Closing,
        a == 0 || a > 11 ==> tcp_state_of(a) == TcpState::Unknown(a),
{
}

/// Time between two snapshots is the difference of their monotonic readings, and
/// there is none where the later does not come after the earlier.
pub proof fn intervals_go_forward(from: u64, to: u64)
    ensures
        elapsed(from, to) matches Some(n) ==> n > 0 && from + n == to,
        elapsed(from, to) is None <==> to <= from,
{
}

} // verus!
