//! How a snapshot is put together: each part is what its own collector found, and
//! no collector has a say in another's.

use vstd::prelude::*;

use crate::collector::{
    all_collected, configured, fresh_collectors, recorded, Collected, Collector,
};
use crate::collectors::any::{
    collectors_keep_their_name, collectors_keep_to_their_part, AnyCollector, AnyState,
};
use crate::collectors::connections::connections_collected;
use crate::collectors::cpu::{cpu_collected, CpuState};
use crate::collectors::disk::disk_collected;
use crate::collectors::gpu::{cards_of, gpu_collected};
use crate::collectors::memory::memory_collected;
use crate::collectors::net::net_collected;
use crate::collectors::thermal::{chip_dirs_of, thermal_collected};
use crate::config::{wanted, ConfigView, OutputFormat};
use crate::error::{message_of, ErrorView};
use crate::render::document::Glyph;
use crate::sample::{empty_snapshot, CollectorErrorView, SnapshotView};
use crate::summary::{summary_collectors, summary_run};
use crate::sysfs::{joined, SysfsReader};
use crate::{outcome_of, snapshot_of};

verus! {

/// The place of a collector in the order in which they run.
pub open spec fn place(s: AnyState) -> int {
    match s {
        AnyState::Cpu(_) => 0,
        AnyState::Memory => 1,
        AnyState::Thermal(_) => 2,
        AnyState::Disk => 3,
        AnyState::Net(_) => 4,
        AnyState::Gpu(_) => 5,
        AnyState::Connections => 6,
    }
}

/// The two snapshots agree in the part of that collector.
pub open spec fn agree(k: int, a: SnapshotView, b: SnapshotView) -> bool {
    &&& k == 0 ==> a.cpu == b.cpu
    &&& k == 1 ==> a.memory == b.memory
    &&& k == 2 ==> a.thermal == b.thermal
    &&& k == 3 ==> a.disks == b.disks
    &&& k == 4 ==> a.net == b.net
    &&& k == 5 ==> a.gpus == b.gpus
    &&& k == 6 ==> a.connections == b.connections
}

/// What a collector finds does not depend on what others found before it.
pub proof fn collectors_look_at_the_machine_alone(
    s: AnyState,
    reader: &SysfsReader,
    a: SnapshotView,
    b: SnapshotView,
)
    requires
        agree(place(s), a, b),
    ensures
        agree(
            place(s),
            AnyCollector::collected(s, reader, a).snapshot,
            AnyCollector::collected(s, reader, b).snapshot,
        ),
        AnyCollector::collected(s, reader, a).outcome == AnyCollector::collected(
            s,
            reader,
            b,
        ).outcome,
        AnyCollector::collected(s, reader, a).state == AnyCollector::collected(s, reader, b).state,
{
}

proof fn lemma_other(s: AnyState, reader: &SysfsReader, before: SnapshotView, k: int)
    requires
        k != place(s),
    ensures
        agree(k, recorded::<AnyCollector>(AnyCollector::collected(s, reader, before)), before),
{
}

/// What holds of any collectors of which each keeps to a part of its own.
spec fn keeps_to_parts<C: Collector>(
    reader: &SysfsReader,
    place: spec_fn(C::Model) -> int,
    agree: spec_fn(int, SnapshotView, SnapshotView) -> bool,
) -> bool {
    &&& forall|s: C::Model, before: SnapshotView, k: int|
        k != place(s) ==> #[trigger] agree(
            k,
            recorded::<C>(C::collected(s, reader, before)),
            before,
        )
    &&& forall|s: C::Model, a: SnapshotView, b: SnapshotView|
        #![trigger C::collected(s, reader, a), C::collected(s, reader, b)]
        agree(place(s), a, b) ==> agree(
            place(s),
            recorded::<C>(C::collected(s, reader, a)),
            C::collected(s, reader, b).snapshot,
        )
    &&& forall|k: int, a: SnapshotView| #[trigger] agree(k, a, a)
    &&& forall|k: int, a: SnapshotView, b: SnapshotView, c: SnapshotView|
        #![trigger agree(k, a, b), agree(k, b, c)]
        agree(k, a, b) && agree(k, b, c) ==> agree(k, a, c)
}

proof fn lemma_untouched<C: Collector>(
    states: Seq<C::Model>,
    reader: &SysfsReader,
    before: SnapshotView,
    place: spec_fn(C::Model) -> int,
    agree: spec_fn(int, SnapshotView, SnapshotView) -> bool,
    k: int,
)
    requires
        keeps_to_parts::<C>(reader, place, agree),
        forall|i: int| 0 <= i < states.len() ==> place(#[trigger] states[i]) != k,
    ensures
        agree(k, all_collected::<C>(states, reader, before).1, before),
    decreases states.len(),
{
    if states.len() > 0 {
        let front = states.drop_last();
        let sofar = all_collected::<C>(front, reader, before).1;
        assert forall|i: int| 0 <= i < front.len() implies place(#[trigger] front[i]) != k by {
            assert(front[i] == states[i]);
        }
        lemma_untouched::<C>(front, reader, before, place, agree, k);
        assert(place(states[states.len() - 1]) != k);
        assert(agree(
            k,
            recorded::<C>(C::collected(states.last(), reader, sofar)),
            sofar,
        ));
    }
}

proof fn lemma_own<C: Collector>(
    states: Seq<C::Model>,
    reader: &SysfsReader,
    before: SnapshotView,
    place: spec_fn(C::Model) -> int,
    agree: spec_fn(int, SnapshotView, SnapshotView) -> bool,
    i: int,
)
    requires
        keeps_to_parts::<C>(reader, place, agree),
        forall|x: int, y: int|
            0 <= x < y < states.len() ==> place(#[trigger] states[x]) < place(#[trigger] states[y]),
        0 <= i < states.len(),
    ensures
        agree(
            place(states[i]),
            all_collected::<C>(states, reader, before).1,
            C::collected(states[i], reader, before).snapshot,
        ),
    decreases states.len(),
{
    let front = states.drop_last();
    let sofar = all_collected::<C>(front, reader, before).1;
    let last = states[states.len() - 1];
    let k = place(states[i]);
    assert forall|j: int| 0 <= j < front.len() implies place(#[trigger] front[j]) < place(last) by {
        assert(front[j] == states[j]);
    }
    if i == states.len() - 1 {
        lemma_untouched::<C>(front, reader, before, place, agree, k);
        let a = C::collected(last, reader, sofar);
        let b = C::collected(last, reader, before);
        assert(agree(k, recorded::<C>(a), b.snapshot));
    } else {
        assert forall|x: int, y: int| 0 <= x < y < front.len() implies place(#[trigger] front[x])
            < place(#[trigger] front[y]) by {
            assert(front[x] == states[x] && front[y] == states[y]);
        }
        assert(front[i] == states[i]);
        lemma_own::<C>(front, reader, before, place, agree, i);
        assert(agree(k, recorded::<C>(C::collected(last, reader, sofar)), sofar));
    }
}

proof fn lemma_keeps_to_parts(reader: &SysfsReader)
    ensures
        keeps_to_parts::<AnyCollector>(
            reader,
            |s: AnyState| place(s),
            |k: int, a: SnapshotView, b: SnapshotView| agree(k, a, b),
        ),
{
    let p = |s: AnyState| place(s);
    let q = |k: int, a: SnapshotView, b: SnapshotView| agree(k, a, b);
    assert forall|s: AnyState, before: SnapshotView, k: int| k != p(s) implies #[trigger] q(
        k,
        recorded::<AnyCollector>(AnyCollector::collected(s, reader, before)),
        before,
    ) by {
        lemma_other(s, reader, before, k);
    }
    assert forall|s: AnyState, a: SnapshotView, b: SnapshotView|
        #![trigger AnyCollector::collected(s, reader, a), AnyCollector::collected(s, reader, b)]
        q(p(s), a, b) implies q(
        p(s),
        recorded::<AnyCollector>(AnyCollector::collected(s, reader, a)),
        AnyCollector::collected(s, reader, b).snapshot,
    ) by {
        collectors_look_at_the_machine_alone(s, reader, a, b);
        lemma_recorded(AnyCollector::collected(s, reader, a), place(s));
    }
}

proof fn lemma_recorded(c: Collected<AnyState>, k: int)
    ensures
        agree(k, recorded::<AnyCollector>(c), c.snapshot),
{
}

/// What a collector finds, by itself.
#[verifier::opaque]
pub open spec fn found(s: AnyState, reader: &SysfsReader, before: SnapshotView) -> SnapshotView {
    AnyCollector::collected(s, reader, before).snapshot
}

proof fn lemma_own_part(states: Seq<AnyState>, reader: &SysfsReader, before: SnapshotView, i: int)
    requires
        in_places(states),
        0 <= i < states.len(),
    ensures
        agree(
            place(states[i]),
            all_collected::<AnyCollector>(states, reader, before).1,
            found(states[i], reader, before),
        ),
{
    reveal(found);
    let p = |s: AnyState| place(s);
    let q = |k: int, a: SnapshotView, b: SnapshotView| agree(k, a, b);
    lemma_keeps_to_parts(reader);
    assert forall|x: int, y: int| 0 <= x < y < states.len() implies p(#[trigger] states[x]) < p(
        #[trigger] states[y],
    ) by {}
    lemma_own::<AnyCollector>(states, reader, before, p, q, i);
    assert(q(
        p(states[i]),
        all_collected::<AnyCollector>(states, reader, before).1,
        AnyCollector::collected(states[i], reader, before).snapshot,
    ));
}

proof fn lemma_no_part(states: Seq<AnyState>, reader: &SysfsReader, before: SnapshotView, k: int)
    requires
        forall|i: int| 0 <= i < states.len() ==> place(#[trigger] states[i]) != k,
    ensures
        agree(k, all_collected::<AnyCollector>(states, reader, before).1, before),
{
    let p = |s: AnyState| place(s);
    let q = |k: int, a: SnapshotView, b: SnapshotView| agree(k, a, b);
    lemma_keeps_to_parts(reader);
    assert forall|i: int| 0 <= i < states.len() implies p(#[trigger] states[i]) != k by {}
    lemma_untouched::<AnyCollector>(states, reader, before, p, q, k);
    assert(q(k, all_collected::<AnyCollector>(states, reader, before).1, before));
}

spec fn in_places(states: Seq<AnyState>) -> bool {
    forall|i: int, j: int|
        0 <= i < j < states.len() ==> place(#[trigger] states[i]) < place(#[trigger] states[j])
}

/// The collector has something to read.
#[verifier::opaque]
pub open spec fn ready(s: AnyState, reader: &SysfsReader) -> bool {
    AnyCollector::usable(s, reader)
}

proof fn lemma_configured(c: ConfigView, reader: &SysfsReader, all: Seq<AnyState>)
    requires
        in_places(all),
    ensures
        in_places(configured(c, reader, all)),
        forall|k: int|
            0 <= k < all.len() ==> (configured(c, reader, all).contains(#[trigger] all[k]) <==> (
            wanted(c, AnyCollector::named(all[k])) && ready(all[k], reader))),
        forall|i: int|
            0 <= i < configured(c, reader, all).len() ==> all.contains(
                #[trigger] configured(c, reader, all)[i],
            ),
    decreases all.len(),
{
    reveal(ready);
    if all.len() > 0 {
        let front = all.drop_last();
        let last = all.last();
        assert(last == all[all.len() - 1]);
        assert(in_places(front)) by {
            assert forall|x: int, y: int| 0 <= x < y < front.len() implies place(
                #[trigger] front[x],
            ) < place(#[trigger] front[y]) by {
                assert(front[x] == all[x] && front[y] == all[y]);
            }
        }
        lemma_configured(c, reader, front);
        let before = configured(c, reader, front);
        let kept = configured(c, reader, all);
        let keep = wanted(c, AnyCollector::named(last)) && ready(last, reader);
        assert forall|i: int| 0 <= i < before.len() implies place(#[trigger] before[i]) < place(
            last,
        ) by {
            assert(front.contains(before[i]));
            let j = choose|j: int| 0 <= j < front.len() && front[j] == before[i];
            assert(all[j] == before[i]);
        }
        assert(in_places(kept)) by {
            assert forall|x: int, y: int| 0 <= x < y < kept.len() implies place(#[trigger] kept[x])
                < place(#[trigger] kept[y]) by {
                assert(kept[x] == before[x]);
                if y < before.len() {
                    assert(kept[y] == before[y]);
                }
            }
        }
        assert forall|i: int| 0 <= i < kept.len() implies all.contains(#[trigger] kept[i]) by {
            if i < before.len() {
                assert(front.contains(before[i]));
                let j = choose|j: int| 0 <= j < front.len() && front[j] == before[i];
                assert(all[j] == kept[i]);
            } else {
                assert(all[all.len() - 1] == kept[i]);
            }
        }
        assert forall|k: int| 0 <= k < all.len() implies (kept.contains(#[trigger] all[k]) <==> (
        wanted(c, AnyCollector::named(all[k])) && ready(all[k], reader))) by {
            if k < front.len() {
                assert(front[k] == all[k]);
                if before.contains(all[k]) {
                    let j = choose|j: int| 0 <= j < before.len() && before[j] == all[k];
                    assert(kept[j] == all[k]);
                }
                if kept.contains(all[k]) {
                    let j = choose|j: int| 0 <= j < kept.len() && kept[j] == all[k];
                    if j == before.len() {
                        assert(place(all[k]) < place(all[all.len() - 1]));
                    }
                    assert(before[j] == all[k]);
                }
            } else {
                if keep {
                    assert(kept[kept.len() - 1] == last);
                } else if kept.contains(last) {
                    let j = choose|j: int| 0 <= j < before.len() && before[j] == last;
                    assert(place(before[j]) < place(last));
                }
            }
        }
    }
}

proof fn lemma_part_of(
    all: Seq<AnyState>,
    run: Seq<AnyState>,
    reader: &SysfsReader,
    e: SnapshotView,
    k: int,
)
    requires
        in_places(run),
        forall|i: int| 0 <= i < all.len() ==> place(#[trigger] all[i]) == i,
        forall|i: int| 0 <= i < run.len() ==> all.contains(#[trigger] run[i]),
        0 <= k < all.len(),
    ensures
        run.contains(all[k]) ==> agree(
            k,
            all_collected::<AnyCollector>(run, reader, e).1,
            found(all[k], reader, e),
        ),
        !run.contains(all[k]) ==> agree(k, all_collected::<AnyCollector>(run, reader, e).1, e),
{
    assert(place(all[k]) == k);
    if run.contains(all[k]) {
        let i = choose|i: int| 0 <= i < run.len() && run[i] == all[k];
        lemma_own_part(run, reader, e, i);
    } else {
        assert forall|i: int| 0 <= i < run.len() implies place(#[trigger] run[i]) != k by {
            assert(all.contains(run[i]));
            let j = choose|j: int| 0 <= j < all.len() && all[j] == run[i];
            assert(place(all[j]) == j);
        }
        lemma_no_part(run, reader, e, k);
    }
}

/// The snapshot that the configured collectors take.
#[verifier::opaque]
pub open spec fn taken(
    c: ConfigView,
    reader: &SysfsReader,
    taken_at: i64,
    taken_at_monotonic: u64,
) -> SnapshotView {
    snapshot_of(c, reader, taken_at, taken_at_monotonic)
}

/// Each part of a snapshot is what its collector finds by itself, where it is asked
/// for and has something to read, and is missing otherwise.
pub proof fn every_wanted_part_is_collected(
    c: ConfigView,
    reader: &SysfsReader,
    taken_at: i64,
    taken_at_monotonic: u64,
    k: int,
)
    requires
        0 <= k < 7,
    ensures
        ({
            let s = taken(c, reader, taken_at, taken_at_monotonic);
            let e = empty_snapshot(taken_at, taken_at_monotonic);
            let one = fresh_collectors()[k];
            if wanted(c, AnyCollector::named(one)) && ready(one, reader) {
                agree(k, s, found(one, reader, e))
            } else {
                agree(k, s, e)
            }
        }),
{
    reveal(taken);
    let all = fresh_collectors();
    assert(forall|i: int| 0 <= i < 7 ==> place(#[trigger] all[i]) == i);
    lemma_configured(c, reader, all);
    lemma_part_of(
        all,
        configured(c, reader, all),
        reader,
        empty_snapshot(taken_at, taken_at_monotonic),
        k,
    );
}

/// Some card says who made it.
pub open spec fn some_card(reader: &SysfsReader) -> bool {
    cards_of(reader) matches Ok(cards) && exists|i: int|
        0 <= i < cards.len() && reader.present(
            joined(
                joined(joined("sys/class/drm"@, #[trigger] cards[i]), "device"@),
                "vendor"@,
            ),
        )
}

/// Some chip is there, or at least the directory of the thermal zones.
pub open spec fn some_sensor(reader: &SysfsReader) -> bool {
    (chip_dirs_of(reader) matches Ok(dirs) && dirs.len() > 0) || reader.present(
        "sys/class/thermal"@,
    )
}

/// The collector of the processor finds what the processor's files say, and has
/// something to read where `/proc/stat` is there.
pub proof fn the_processor_is_found(reader: &SysfsReader, e: SnapshotView)
    ensures
        found(AnyState::Cpu(CpuState { core_count: None, model: None }), reader, e).cpu == cpu_collected(CpuState { core_count: None, model: None }, reader, e).snapshot.cpu,
        ready(AnyState::Cpu(CpuState { core_count: None, model: None }), reader) == reader.present("proc/stat"@),
{
    reveal(found);
    reveal(ready);
}

/// The collector of the memory finds what `/proc/meminfo` says.
pub proof fn the_memory_is_found(reader: &SysfsReader, e: SnapshotView)
    ensures
        found(AnyState::Memory, reader, e).memory == memory_collected(reader, e).snapshot.memory,
        ready(AnyState::Memory, reader) == reader.present("proc/meminfo"@),
{
    reveal(found);
    reveal(ready);
}

/// The collector of the sensors finds what the chips say, and has something to read
/// where there is a chip or a thermal zone.
pub proof fn sensors_are_found(reader: &SysfsReader, e: SnapshotView)
    ensures
        found(AnyState::Thermal(seq![]), reader, e).thermal == thermal_collected(seq![], reader, e).snapshot.thermal,
        ready(AnyState::Thermal(seq![]), reader) == some_sensor(reader),
{
    reveal(found);
    reveal(ready);
}

/// The collector of the disks finds what `/proc/diskstats` and the mount table say.
pub proof fn disks_are_found(reader: &SysfsReader, e: SnapshotView)
    ensures
        found(AnyState::Disk, reader, e).disks == disk_collected(reader, e).snapshot.disks,
        ready(AnyState::Disk, reader) == reader.present("proc/diskstats"@),
{
    reveal(found);
    reveal(ready);
}

/// The collector of the interfaces finds what `/proc/net/dev` says, without
/// loopbacks.
pub proof fn interfaces_are_found(reader: &SysfsReader, e: SnapshotView)
    ensures
        found(AnyState::Net(false), reader, e).net == net_collected(false, reader, e).snapshot.net,
        ready(AnyState::Net(false), reader) == reader.present("proc/net/dev"@),
{
    reveal(found);
    reveal(ready);
}

/// The collector of the cards finds what the cards' files say, and has something to
/// read where some card says who made it.
pub proof fn cards_are_found(reader: &SysfsReader, e: SnapshotView)
    ensures
        found(AnyState::Gpu(seq![]), reader, e).gpus == gpu_collected(seq![], reader, e).snapshot.gpus,
        ready(AnyState::Gpu(seq![]), reader) == some_card(reader),
{
    reveal(found);
    reveal(ready);
}

/// The collector of the connections finds what the tables of sockets say.
pub proof fn connections_are_found(reader: &SysfsReader, e: SnapshotView)
    ensures
        found(AnyState::Connections, reader, e).connections == connections_collected(reader, e).snapshot.connections,
        ready(AnyState::Connections, reader) == reader.present("proc/net/tcp"@),
{
    reveal(found);
    reveal(ready);
}

proof fn lemma_times<C: Collector>(
    states: Seq<C::Model>,
    reader: &SysfsReader,
    before: SnapshotView,
)
    requires
        forall|s: C::Model, b: SnapshotView|
            (#[trigger] C::collected(s, reader, b)).snapshot.taken_at == b.taken_at && C::collected(
                s,
                reader,
                b,
            ).snapshot.taken_at_monotonic == b.taken_at_monotonic,
    ensures
        all_collected::<C>(states, reader, before).1.taken_at == before.taken_at,
        all_collected::<C>(states, reader, before).1.taken_at_monotonic
            == before.taken_at_monotonic,
    decreases states.len(),
{
    if states.len() > 0 {
        lemma_times::<C>(states.drop_last(), reader, before);
        let sofar = all_collected::<C>(states.drop_last(), reader, before).1;
        assert(C::collected(states.last(), reader, sofar).snapshot.taken_at == sofar.taken_at);
    }
}

/// The snapshot keeps the two readings of the clock that it was taken at.
pub proof fn the_times_are_kept(
    c: ConfigView,
    reader: &SysfsReader,
    taken_at: i64,
    taken_at_monotonic: u64,
)
    ensures
        taken(c, reader, taken_at, taken_at_monotonic).taken_at == taken_at,
        taken(c, reader, taken_at, taken_at_monotonic).taken_at_monotonic == taken_at_monotonic,
{
    reveal(taken);
    assert forall|s: AnyState, b: SnapshotView|
        (#[trigger] AnyCollector::collected(s, reader, b)).snapshot.taken_at == b.taken_at
            && AnyCollector::collected(s, reader, b).snapshot.taken_at_monotonic
            == b.taken_at_monotonic by {
        collectors_keep_to_their_part(s, reader, b);
    }
    lemma_times::<AnyCollector>(
        configured(c, reader, fresh_collectors()),
        reader,
        empty_snapshot(taken_at, taken_at_monotonic),
    );
}

proof fn lemma_failure<C: Collector>(
    states: Seq<C::Model>,
    reader: &SysfsReader,
    before: SnapshotView,
    i: int,
)
    requires
        0 <= i < states.len(),
        forall|s: C::Model, b: SnapshotView|
            #![trigger C::collected(s, reader, b)]
            C::named(C::collected(s, reader, b).state) == C::named(s) && b.errors.len()
                <= C::collected(s, reader, b).snapshot.errors.len() && C::collected(
                s,
                reader,
                b,
            ).snapshot.errors.take(b.errors.len() as int) == b.errors,
    ensures
        ({
            let sofar = all_collected::<C>(states.take(i), reader, before).1;
            let errors = all_collected::<C>(states, reader, before).1.errors;
            C::collected(states[i], reader, sofar).outcome matches Err(e) ==> exists|k: int|
                0 <= k < errors.len() && (#[trigger] errors[k]).collector == C::named(states[i])
                    && errors[k].message == message_of(e)
        }),
    decreases states.len(),
{
    let front = states.drop_last();
    let last = states.last();
    let sofar = all_collected::<C>(front, reader, before).1;
    let errors = all_collected::<C>(states, reader, before).1.errors;
    let c = C::collected(last, reader, sofar);
    let after = c.snapshot.errors;
    if i == states.len() - 1 {
        assert(states.take(i) == front);
        if let Err(e) = c.outcome {
            assert(errors[errors.len() - 1] == (CollectorErrorView {
                collector: C::named(last),
                message: message_of(e),
            }));
        }
    } else {
        lemma_failure::<C>(front, reader, before, i);
        assert(front.take(i) == states.take(i));
        assert(front[i] == states[i]);
        let at = all_collected::<C>(states.take(i), reader, before).1;
        if let Err(e) = C::collected(states[i], reader, at).outcome {
            let k = choose|k: int|
                0 <= k < sofar.errors.len() && (#[trigger] sofar.errors[k]).collector == C::named(
                    states[i],
                ) && sofar.errors[k].message == message_of(e);
            assert(after.take(sofar.errors.len() as int)[k] == sofar.errors[k]);
            assert(errors[k] == sofar.errors[k]);
        }
    }
}

/// A collector that fails is recorded under its name, with its reason.
pub proof fn failures_are_recorded(
    states: Seq<AnyState>,
    reader: &SysfsReader,
    before: SnapshotView,
    i: int,
)
    requires
        0 <= i < states.len(),
    ensures
        ({
            let sofar = all_collected::<AnyCollector>(states.take(i), reader, before).1;
            let errors = all_collected::<AnyCollector>(states, reader, before).1.errors;
            AnyCollector::collected(states[i], reader, sofar).outcome matches Err(e) ==> exists|
                k: int,
            |
                0 <= k < errors.len() && (#[trigger] errors[k]).collector == AnyCollector::named(
                    states[i],
                ) && errors[k].message == message_of(e)
        }),
{
    assert forall|s: AnyState, b: SnapshotView|
        #![trigger AnyCollector::collected(s, reader, b)]
        AnyCollector::named(AnyCollector::collected(s, reader, b).state) == AnyCollector::named(s)
            && b.errors.len() <= AnyCollector::collected(s, reader, b).snapshot.errors.len()
            && AnyCollector::collected(s, reader, b).snapshot.errors.take(b.errors.len() as int)
            == b.errors by {
        collectors_keep_to_their_part(s, reader, b);
        collectors_keep_their_name(s, reader, b);
    }
    lemma_failure::<AnyCollector>(states, reader, before, i);
}

/// A run writes the snapshot of the wanted collectors in the format that was asked
/// for; a summary is written of its own collectors, and goes before a snapshot.
pub proof fn a_run_writes_what_was_asked_for(
    c: ConfigView,
    reader: &SysfsReader,
    taken_at: i64,
    taken_at_monotonic: u64,
)
    ensures
        ({
            let s = snapshot_of(c, reader, taken_at, taken_at_monotonic);
            let out = outcome_of(c, reader, taken_at, taken_at_monotonic);
            &&& !c.summary && c.once && c.format == OutputFormat::Text ==> match (
                crate::render::text::snapshot_text(s, None, c.verbose)
            ) {
                Ok(doc) => out == Ok::<(i32, Seq<Glyph>), ErrorView>((0i32, doc)),
                Err(e) => out == Err::<(i32, Seq<Glyph>), ErrorView>(e),
            }
            &&& !c.summary && c.once && c.format == OutputFormat::Json ==> match (
                crate::render::json::snapshot_text(s, None, c.verbose)
            ) {
                Ok(doc) => out == Ok::<(i32, Seq<Glyph>), ErrorView>((0i32, doc)),
                Err(e) => out == Err::<(i32, Seq<Glyph>), ErrorView>(e),
            }
            &&& c.summary ==> out == Ok::<(i32, Seq<Glyph>), ErrorView>(
                summary_run(
                    all_collected::<AnyCollector>(
                        summary_collectors(),
                        reader,
                        empty_snapshot(taken_at, taken_at_monotonic),
                    ).1,
                ),
            )
            &&& !c.summary && !c.once ==> out is Err
        }),
{
}

} // verus!
