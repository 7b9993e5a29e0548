//! Any of the crate's collectors.

use vstd::prelude::*;

use crate::collector::{Collected, Collector};
use crate::collectors::connections::{connections_collected, ConnectionsCollector};
use crate::collectors::cpu::{cpu_collected, CpuCollector, CpuState};
use crate::collectors::disk::{disk_collected, DiskCollector};
use crate::collectors::gpu::{gpu_collected, CardView, GpuCollector};
use crate::collectors::memory::{memory_collected, MemoryCollector};
use crate::collectors::net::{net_collected, NetCollector};
use crate::collectors::thermal::{thermal_collected, ThermalCollector};
use crate::collectors::{connections, cpu, disk, gpu, memory, net, thermal};
use crate::error::Error;
use crate::sample::{Snapshot, SnapshotView};
use crate::sysfs::SysfsReader;

verus! {

#[derive(Debug)]
pub enum AnyCollector {
    Cpu(CpuCollector),
    Memory(MemoryCollector),
    Thermal(ThermalCollector),
    Disk(DiskCollector),
    Net(NetCollector),
    Gpu(GpuCollector),
    Connections(ConnectionsCollector),
}

pub enum AnyState {
    Cpu(CpuState),
    Memory,
    Thermal(Seq<Seq<char>>),
    Disk,
    Net(bool),
    Gpu(Seq<CardView>),
    Connections,
}

impl Collector for AnyCollector {
    type Model = AnyState;

    open spec fn model(&self) -> AnyState {
        match *self {
            AnyCollector::Cpu(c) => AnyState::Cpu(c.model()),
            AnyCollector::Memory(_) => AnyState::Memory,
            AnyCollector::Thermal(c) => AnyState::Thermal(c.model()),
            AnyCollector::Disk(_) => AnyState::Disk,
            AnyCollector::Net(c) => AnyState::Net(c.model()),
            AnyCollector::Gpu(c) => AnyState::Gpu(c.model()),
            AnyCollector::Connections(_) => AnyState::Connections,
        }
    }

    open spec fn named(state: AnyState) -> Seq<char> {
        match state {
            AnyState::Cpu(_) => cpu::NAME@,
            AnyState::Memory => memory::NAME@,
            AnyState::Thermal(_) => thermal::NAME@,
            AnyState::Disk => disk::NAME@,
            AnyState::Net(_) => net::NAME@,
            AnyState::Gpu(_) => gpu::NAME@,
            AnyState::Connections => connections::NAME@,
        }
    }

    open spec fn usable(state: AnyState, reader: &SysfsReader) -> bool {
        match state {
            AnyState::Cpu(s) => CpuCollector::usable(s, reader),
            AnyState::Memory => MemoryCollector::usable((), reader),
            AnyState::Thermal(s) => ThermalCollector::usable(s, reader),
            AnyState::Disk => DiskCollector::usable((), reader),
            AnyState::Net(s) => NetCollector::usable(s, reader),
            AnyState::Gpu(s) => GpuCollector::usable(s, reader),
            AnyState::Connections => ConnectionsCollector::usable((), reader),
        }
    }

    open spec fn collected(state: AnyState, reader: &SysfsReader, before: SnapshotView) -> Collected<
        AnyState,
    > {
        match state {
            AnyState::Cpu(s) => {
                let c = cpu_collected(s, reader, before);
                Collected {
                    state: AnyState::Cpu(c.state),
                    snapshot: c.snapshot,
                    outcome: c.outcome,
                }
            },
            AnyState::Memory => {
                let c = memory_collected(reader, before);
                Collected { state, snapshot: c.snapshot, outcome: c.outcome }
            },
            AnyState::Thermal(s) => {
                let c = thermal_collected(s, reader, before);
                Collected {
                    state: AnyState::Thermal(c.state),
                    snapshot: c.snapshot,
                    outcome: c.outcome,
                }
            },
            AnyState::Disk => {
                let c = disk_collected(reader, before);
                Collected { state, snapshot: c.snapshot, outcome: c.outcome }
            },
            AnyState::Net(s) => {
                let c = net_collected(s, reader, before);
                Collected {
                    state: AnyState::Net(c.state),
                    snapshot: c.snapshot,
                    outcome: c.outcome,
                }
            },
            AnyState::Gpu(s) => {
                let c = gpu_collected(s, reader, before);
                Collected {
                    state: AnyState::Gpu(c.state),
                    snapshot: c.snapshot,
                    outcome: c.outcome,
                }
            },
            AnyState::Connections => {
                let c = connections_collected(reader, before);
                Collected { state, snapshot: c.snapshot, outcome: c.outcome }
            },
        }
    }

    fn name(&self) -> (r: &'static str) {
        match self {
            AnyCollector::Cpu(c) => c.name(),
            AnyCollector::Memory(c) => c.name(),
            AnyCollector::Thermal(c) => c.name(),
            AnyCollector::Disk(c) => c.name(),
            AnyCollector::Net(c) => c.name(),
            AnyCollector::Gpu(c) => c.name(),
            AnyCollector::Connections(c) => c.name(),
        }
    }

    fn probe(&self, reader: &SysfsReader) -> (r: bool) {
        match self {
            AnyCollector::Cpu(c) => c.probe(reader),
            AnyCollector::Memory(c) => c.probe(reader),
            AnyCollector::Thermal(c) => c.probe(reader),
            AnyCollector::Disk(c) => c.probe(reader),
            AnyCollector::Net(c) => c.probe(reader),
            AnyCollector::Gpu(c) => c.probe(reader),
            AnyCollector::Connections(c) => c.probe(reader),
        }
    }

    fn collect(&mut self, reader: &SysfsReader, snapshot: &mut Snapshot) -> (r: Result<(), Error>) {
        match self {
            AnyCollector::Cpu(c) => c.collect(reader, snapshot),
            AnyCollector::Memory(c) => c.collect(reader, snapshot),
            AnyCollector::Thermal(c) => c.collect(reader, snapshot),
            AnyCollector::Disk(c) => c.collect(reader, snapshot),
            AnyCollector::Net(c) => c.collect(reader, snapshot),
            AnyCollector::Gpu(c) => c.collect(reader, snapshot),
            AnyCollector::Connections(c) => c.collect(reader, snapshot),
        }
    }
}

/// The same collection, whatever part of the snapshot a collector fills, and
/// whatever it notes.
pub open spec fn only_own_part(state: AnyState, before: SnapshotView, after: SnapshotView) -> bool {
    match state {
        AnyState::Cpu(_) => after == (SnapshotView {
            cpu: after.cpu,
            errors: after.errors,
            ..before
        }),
        AnyState::Memory => after == (SnapshotView { memory: after.memory, ..before }),
        AnyState::Thermal(_) => after == (SnapshotView { thermal: after.thermal, ..before }),
        AnyState::Disk => after == (SnapshotView { disks: after.disks, ..before }),
        AnyState::Net(_) => after == (SnapshotView { net: after.net, ..before }),
        AnyState::Gpu(_) => after == (SnapshotView {
            gpus: after.gpus,
            errors: after.errors,
            ..before
        }),
        AnyState::Connections => after == (SnapshotView {
            connections: after.connections,
            ..before
        }),
    }
}

/// A collector changes its own part of the snapshot, adds errors behind those
/// that are there, and touches nothing else. One that fails changes nothing.
pub proof fn collectors_keep_to_their_part(
    state: AnyState,
    reader: &SysfsReader,
    before: SnapshotView,
)
    ensures
        only_own_part(state, before, AnyCollector::collected(state, reader, before).snapshot),
        before.errors.len() <= AnyCollector::collected(state, reader, before).snapshot.errors.len(),
        AnyCollector::collected(state, reader, before).snapshot.errors.take(
            before.errors.len() as int,
        ) == before.errors,
        AnyCollector::collected(state, reader, before).outcome is Err
            ==> AnyCollector::collected(state, reader, before).snapshot == before,
{
    let after = AnyCollector::collected(state, reader, before).snapshot;
    assert(before.errors.take(before.errors.len() as int) == before.errors);
    assert(after.errors.take(before.errors.len() as int) == before.errors);
}

/// A collector keeps its name.
pub proof fn collectors_keep_their_name(state: AnyState, reader: &SysfsReader, before: SnapshotView)
    ensures
        AnyCollector::named(AnyCollector::collected(state, reader, before).state)
            == AnyCollector::named(state),
{
}

} // verus!
