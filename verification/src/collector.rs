//! What a collector is, and the set of collectors that run.

use vstd::prelude::*;

use crate::collectors::any::{collectors_keep_to_their_part, AnyCollector, AnyState};
use crate::collectors::connections::ConnectionsCollector;
use crate::collectors::cpu::{CpuCollector, CpuState};
use crate::collectors::disk::DiskCollector;
use crate::collectors::gpu::GpuCollector;
use crate::collectors::memory::MemoryCollector;
use crate::collectors::net::NetCollector;
use crate::collectors::thermal::ThermalCollector;
use crate::config::{names, wanted, Config, ConfigView};
use crate::error::{message_of, Error, ErrorView};
use crate::sample::{
    empty_snapshot, views, CollectorError, CollectorErrorView, Snapshot, SnapshotView,
};
use crate::sysfs::SysfsReader;

verus! {

pub open spec fn unit_view(r: Result<(), Error>) -> Result<(), ErrorView> {
    match r {
        Ok(()) => Ok(()),
        Err(e) => Err(e@),
    }
}

/// What a collection leaves behind: the collector's own state, the snapshot,
/// and whether it failed.
pub struct Collected<M> {
    pub state: M,
    pub snapshot: SnapshotView,
    pub outcome: Result<(), ErrorView>,
}

/// One subsystem's reader.
///
/// A collector fills in its own part of the snapshot. Where the machine does
/// not offer that part, the collector leaves it empty and succeeds; an error
/// means that something was there and made no sense.
pub trait Collector: Sized {
    /// What the collector remembers from one collection to the next.
    type Model;

    spec fn model(&self) -> Self::Model;

    spec fn named(state: Self::Model) -> Seq<char>;

    spec fn usable(state: Self::Model, reader: &SysfsReader) -> bool;

    spec fn collected(state: Self::Model, reader: &SysfsReader, before: SnapshotView) -> Collected<
        Self::Model,
    >;

    /// Stable and lower case: the name on the command line and in errors.
    fn name(&self) -> (r: &'static str)
        ensures
            r@ == Self::named(self.model()),
    ;

    /// Whether there is anything to collect on this machine.
    fn probe(&self, reader: &SysfsReader) -> (r: bool)
        ensures
            r == Self::usable(self.model(), reader),
    ;

    fn collect(&mut self, reader: &SysfsReader, snapshot: &mut Snapshot) -> (r: Result<(), Error>)
        ensures
            Self::collected(old(self).model(), reader, old(snapshot)@) == (Collected {
                state: final(self).model(),
                snapshot: final(snapshot)@,
                outcome: unit_view(r),
            }),
    ;
}

// ---------------------------------------------------------------------------
// The registry
// ---------------------------------------------------------------------------
/// What the collectors remember.
pub open spec fn models<C: Collector>(collectors: Seq<C>) -> Seq<C::Model> {
    collectors.map_values(|c: C| c.model())
}

/// `before` with the error of a collector.
pub open spec fn with_failure(before: SnapshotView, name: Seq<char>, e: ErrorView) -> SnapshotView {
    SnapshotView {
        errors: before.errors.push(
            CollectorErrorView { collector: name, message: message_of(e) },
        ),
        ..before
    }
}

/// What a collection leaves in the snapshot, its failure recorded.
pub open spec fn recorded<C: Collector>(c: Collected<C::Model>) -> SnapshotView {
    match c.outcome {
        Ok(()) => c.snapshot,
        Err(e) => with_failure(c.snapshot, C::named(c.state), e),
    }
}

/// What the collectors leave behind when they run one after the other. A
/// failure is recorded, and the next one runs all the same.
pub open spec fn all_collected<C: Collector>(
    states: Seq<C::Model>,
    reader: &SysfsReader,
    before: SnapshotView,
) -> (Seq<C::Model>, SnapshotView)
    decreases states.len(),
{
    if states.len() == 0 {
        (states, before)
    } else {
        let (done, sofar) = all_collected::<C>(states.drop_last(), reader, before);
        let c = C::collected(states.last(), reader, sofar);
        (done.push(c.state), recorded::<C>(c))
    }
}

/// How many of the collectors fail when they run one after the other.
pub open spec fn failures<C: Collector>(
    states: Seq<C::Model>,
    reader: &SysfsReader,
    before: SnapshotView,
) -> nat
    decreases states.len(),
{
    if states.len() == 0 {
        0
    } else {
        let sofar = all_collected::<C>(states.drop_last(), reader, before).1;
        failures::<C>(states.drop_last(), reader, before) + if C::collected(
            states.last(),
            reader,
            sofar,
        ).outcome is Err {
            1nat
        } else {
            0nat
        }
    }
}

/// The names of some collectors.
pub open spec fn names_of<C: Collector>(states: Seq<C::Model>) -> Seq<Seq<char>> {
    states.map_values(|s: C::Model| C::named(s))
}

/// The set of collectors that run, in order, and the reader that they share.
#[derive(Debug)]
pub struct Registry<C: Collector> {
    collectors: Vec<C>,
    reader: SysfsReader,
}

impl<C: Collector> Registry<C> {
    pub closed spec fn states(&self) -> Seq<C::Model> {
        models(self.collectors@)
    }

    pub closed spec fn source(&self) -> SysfsReader {
        self.reader
    }

    /// A registry of exactly these collectors.
    pub fn from_collectors(collectors: Vec<C>, reader: SysfsReader) -> (r: Registry<C>)
        ensures
            r.states() == models(collectors@),
            r.source() == reader,
    {
        Registry { collectors, reader }
    }

    /// The reader from now on.
    pub fn observe(&mut self, reader: SysfsReader)
        ensures
            final(self).source() == reader,
            final(self).states() == old(self).states(),
    {
        self.reader = reader;
    }

    /// The names of the collectors that run.
    pub fn active(&self) -> (r: Vec<&'static str>)
        ensures
            names(r@) == names_of::<C>(self.states()),
    {
        let ghost all = self.states();
        let mut out: Vec<&'static str> = Vec::new();
        let mut i: usize = 0;
        while i < self.collectors.len()
            invariant
                i <= self.collectors@.len(),
                all == models(self.collectors@),
                names(out@) == names_of::<C>(all.take(i as int)),
            decreases self.collectors@.len() - i,
        {
            let ghost before = names(out@);
            let name = self.collectors[i].name();
            out.push(name);
            assert(all[i as int] == self.collectors@[i as int].model());
            assert(names(out@) == before.push(name@));
            assert(names_of::<C>(all.take(i + 1)) == names_of::<C>(all.take(i as int)).push(
                C::named(all[i as int]),
            ));
            i = i + 1;
        }
        assert(all.take(i as int) == all);
        out
    }

    /// Runs every collector once, into a snapshot stamped with the two clocks'
    /// readings. A collector that fails is recorded in the snapshot and stops
    /// no other.
    pub fn collect_all(&mut self, taken_at: i64, taken_at_monotonic: u64) -> (r: Result<
        Snapshot,
        Error,
    >)
        ensures
            r is Ok,
            (final(self).states(), r->Ok_0@) == all_collected::<C>(
                old(self).states(),
                &old(self).source(),
                empty_snapshot(taken_at, taken_at_monotonic),
            ),
            final(self).source() == old(self).source(),
    {
        let ghost states = self.states();
        let ghost start = empty_snapshot(taken_at, taken_at_monotonic);
        let ghost reader = self.source();
        let mut snapshot = Snapshot::now(taken_at, taken_at_monotonic);
        let mut i: usize = 0;
        assert(models(self.collectors@).take(0) == Seq::<C::Model>::empty());
        while i < self.collectors.len()
            invariant
                i <= self.collectors@.len(),
                self.reader == reader,
                states.len() == self.collectors@.len(),
                models(self.collectors@.take(i as int)) == all_collected::<C>(
                    states.take(i as int),
                    &reader,
                    start,
                ).0,
                forall|k: int|
                    i <= k < states.len() ==> states[k] == (#[trigger] self.collectors@[k]).model(),
                snapshot@ == all_collected::<C>(states.take(i as int), &reader, start).1,
            decreases self.collectors@.len() - i,
        {
            let ghost before = self.collectors@;
            let ghost sofar = snapshot@;
            let ghost c = C::collected(states[i as int], &reader, sofar);
            assert(states[i as int] == self.collectors@[i as int].model());
            let result = self.collectors[i].collect(&self.reader, &mut snapshot);
            assert(self.collectors@[i as int].model() == c.state);
            assert(states.take(i + 1).drop_last() == states.take(i as int));
            assert(models(self.collectors@.take(i + 1)) == models(before.take(i as int)).push(
                c.state,
            ));
            if let Err(e) = result {
                let ghost errors = views(snapshot.errors@);
                let note = CollectorError {
                    collector: self.collectors[i].name(),
                    message: e.to_string(),
                };
                snapshot.errors.push(note);
                assert(views(snapshot.errors@) == errors.push(note@));
            }
            assert(snapshot@ == recorded::<C>(c));
            i = i + 1;
        }
        assert(states.take(i as int) == states);
        assert(self.collectors@.take(i as int) == self.collectors@);
        Ok(snapshot)
    }
}

/// Those of the collectors that are asked for and have something to read.
pub open spec fn configured(c: ConfigView, reader: &SysfsReader, all: Seq<AnyState>) -> Seq<AnyState>
    decreases all.len(),
{
    if all.len() == 0 {
        seq![]
    } else {
        let before = configured(c, reader, all.drop_last());
        if wanted(c, AnyCollector::named(all.last())) && AnyCollector::usable(all.last(), reader) {
            before.push(all.last())
        } else {
            before
        }
    }
}

/// Every collector, before it has collected anything.
pub open spec fn fresh_collectors() -> Seq<AnyState> {
    seq![
        AnyState::Cpu(CpuState { core_count: None, model: None }),
        AnyState::Memory,
        AnyState::Thermal(seq![]),
        AnyState::Disk,
        AnyState::Net(false),
        AnyState::Gpu(seq![]),
        AnyState::Connections,
    ]
}

fn fresh() -> (r: Vec<AnyCollector>)
    ensures
        models(r@) == fresh_collectors(),
{
    let r = vec![
        AnyCollector::Cpu(CpuCollector::new()),
        AnyCollector::Memory(MemoryCollector::new()),
        AnyCollector::Thermal(ThermalCollector::new()),
        AnyCollector::Disk(DiskCollector::new()),
        AnyCollector::Net(NetCollector::new()),
        AnyCollector::Gpu(GpuCollector::new()),
        AnyCollector::Connections(ConnectionsCollector::new()),
    ];
    assert(models(r@) == fresh_collectors());
    r
}

impl Registry<AnyCollector> {
    /// The collectors that the configuration asks for, without those that have
    /// nothing to read on this machine.
    pub fn from_config(config: &Config, reader: SysfsReader) -> (r: Result<
        Registry<AnyCollector>,
        Error,
    >)
        ensures
            r is Ok,
            r->Ok_0.states() == configured(config@, &reader, fresh_collectors()),
            r->Ok_0.source() == reader,
    {
        let mut rest = fresh();
        let ghost all = fresh_collectors();
        let mut collectors: Vec<AnyCollector> = Vec::new();
        assert(models(collectors@) == Seq::<AnyState>::empty());
        assert(all.take(0) == Seq::<AnyState>::empty());
        let ghost mut done: int = 0;
        while rest.len() > 0
            invariant
                0 <= done <= all.len(),
                models(rest@) == all.skip(done),
                models(collectors@) == configured(config@, &reader, all.take(done)),
            decreases rest.len(),
        {
            assert(models(rest@).len() == rest@.len());
            let ghost before = rest@;
            let c = rest.remove(0);
            assert(models(before)[0] == c.model());
            assert(c.model() == all[done]);
            assert(models(rest@) == all.skip(done + 1)) by {
                assert(rest@ == before.drop_first());
                assert(models(before.drop_first()) == models(before).drop_first());
                assert(all.skip(done).drop_first() == all.skip(done + 1));
            }
            assert(all.take(done + 1).drop_last() == all.take(done));
            if config.wants(c.name()) && c.probe(&reader) {
                let ghost sofar = models(collectors@);
                collectors.push(c);
                assert(models(collectors@) == sofar.push(c.model()));
            }
            proof {
                done = done + 1;
            }
        }
        assert(models(rest@).len() == 0);
        assert(all.take(done) == all);
        Ok(Registry { collectors, reader })
    }
}

/// Every collector runs, whichever of them fail, and every failure is recorded.
pub proof fn a_failure_stops_no_other(
    states: Seq<AnyState>,
    reader: &SysfsReader,
    before: SnapshotView,
)
    ensures
        all_collected::<AnyCollector>(states, reader, before).0.len() == states.len(),
        all_collected::<AnyCollector>(states, reader, before).1.errors.len() >= before.errors.len()
            + failures::<AnyCollector>(states, reader, before),
    decreases states.len(),
{
    if states.len() > 0 {
        a_failure_stops_no_other(states.drop_last(), reader, before);
        let sofar = all_collected::<AnyCollector>(states.drop_last(), reader, before).1;
        collectors_keep_to_their_part(states.last(), reader, sofar);
    }
}

} // verus!
