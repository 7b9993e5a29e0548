//! One line for a shell prompt: whether anything is too hot, or could not be
//! read.

use vstd::prelude::*;

use crate::collector::{all_collected, models, Collector, Registry};
use crate::collectors::any::{AnyCollector, AnyState};
use crate::collectors::cpu::{self, CpuCollector, CpuState};
use crate::collectors::memory::{self, MemoryCollector};
use crate::collectors::thermal::{self, ThermalCollector};
use crate::config::listed;
use crate::error::Error;
use crate::number::{decimal, decimal_string, lemma_decimal_digits};
use crate::render::calm::{calm, json_lines_are_calm};
use crate::render::document::{chars, letter, Document, Glyph};
use crate::render::json::{
    in_object, json_string, members_are_written_in_their_order, plain_texts_stand_as_they_are, written,
    Json, JsonWriter,
};
use crate::sample::{
    at_most_max, empty_snapshot, severity_of, views, HwmonChipView, Snapshot,
    SnapshotView, TempSensor, TempSensorView, TempSeverity,
};
use crate::sysfs::SysfsReader;
use crate::text::{push_str, same_str, text3, text4};

verus! {

#[derive(Debug, Clone, Copy, PartialEq, Eq, Structural)]
pub enum Status {
    Fine,
    Warning,
    Critical,
}

pub open spec fn status_name(s: Status) -> Seq<char> {
    match s {
        Status::Fine => "ok"@,
        Status::Warning => "warning"@,
        Status::Critical => "critical"@,
    }
}

impl Status {
    pub fn as_str(self) -> (r: &'static str)
        ensures
            r@ == status_name(self),
    {
        match self {
            Status::Fine => "ok",
            Status::Warning => "warning",
            Status::Critical => "critical",
        }
    }
}

/// How many of the sensors are in a state.
pub open spec fn count_temps(temps: Seq<TempSensorView>, s: TempSeverity) -> nat
    decreases temps.len(),
{
    if temps.len() == 0 {
        0
    } else {
        count_temps(temps.drop_last(), s) + if severity_of(temps.last()) == s {
            1nat
        } else {
            0nat
        }
    }
}

/// How many of the chips' sensors are in a state.
pub open spec fn count_chips(chips: Seq<HwmonChipView>, s: TempSeverity) -> nat
    decreases chips.len(),
{
    if chips.len() == 0 {
        0
    } else {
        count_chips(chips.drop_last(), s) + count_temps(chips.last().temps, s)
    }
}

/// How many sensors of a snapshot are in a state.
pub open spec fn sensors_in(s: SnapshotView, severity: TempSeverity) -> nat {
    match s.thermal {
        Some(t) => count_chips(t.chips, severity),
        None => 0,
    }
}

/// Critical outranks a warning, and a collector that failed is worth one.
pub open spec fn status_of(s: SnapshotView) -> Status {
    if sensors_in(s, TempSeverity::Critical) > 0 {
        Status::Critical
    } else if sensors_in(s, TempSeverity::Warning) > 0 || s.errors.len() > 0 {
        Status::Warning
    } else {
        Status::Fine
    }
}

pub open spec fn plural_of(n: nat, noun: Seq<char>) -> Seq<char> {
    if n == 1 {
        decimal(n) + " "@ + noun
    } else {
        decimal(n) + " "@ + noun + "s"@
    }
}

/// What is worth saying, the most important first.
pub open spec fn headline_parts(critical: nat, warning: nat, errors: nat) -> Seq<Seq<char>> {
    let a = if critical > 0 {
        Seq::<Seq<char>>::empty().push(decimal(critical) + " critical"@)
    } else {
        Seq::<Seq<char>>::empty()
    };
    let b = if warning > 0 {
        a.push(plural_of(warning, "warning"@))
    } else {
        a
    };
    if errors > 0 {
        b.push(plural_of(errors, "collector error"@))
    } else {
        b
    }
}

pub open spec fn headline_of(s: SnapshotView) -> Seq<char> {
    listed(
        headline_parts(
            at_most_max(sensors_in(s, TempSeverity::Critical) as int) as nat,
            at_most_max(sensors_in(s, TempSeverity::Warning) as int) as nat,
            s.errors.len(),
        ),
    )
}

pub fn plural(n: u64, noun: &str) -> (r: String)
    ensures
        r@ == plural_of(n as nat, noun@),
{
    let digits = decimal_string(n);
    if n == 1 {
        text3(digits.as_str(), " ", noun)
    } else {
        text4(digits.as_str(), " ", noun, "s")
    }
}

fn add_temps(temps: &Vec<TempSensor>, s: TempSeverity, Ghost(before): Ghost<nat>, count: u64) -> (r: u64)
    requires
        count == at_most_max(before as int),
    ensures
        r == at_most_max((before + count_temps(views(temps@), s)) as int),
{
    let ghost ts = views(temps@);
    let mut n: u64 = count;
    let mut i: usize = 0;
    while i < temps.len()
        invariant
            i <= temps.len(),
            ts == views(temps@),
            n == at_most_max((before + count_temps(ts.take(i as int), s)) as int),
        decreases temps.len() - i,
    {
        assert(ts.take(i + 1).drop_last() == ts.take(i as int));
        assert(ts.take(i + 1).last() == temps@[i as int]@);
        if temps[i].severity() == s {
            n = n.saturating_add(1);
        }
        i = i + 1;
    }
    assert(ts.take(i as int) == ts);
    n
}

fn count_sensors(snapshot: &Snapshot, s: TempSeverity) -> (r: u64)
    ensures
        r == at_most_max(sensors_in(snapshot@, s) as int),
{
    let mut n: u64 = 0;
    if let Some(t) = &snapshot.thermal {
        let ghost cs = views(t.chips@);
        let mut i: usize = 0;
        while i < t.chips.len()
            invariant
                i <= t.chips@.len(),
                cs == views(t.chips@),
                n == at_most_max(count_chips(cs.take(i as int), s) as int),
            decreases t.chips@.len() - i,
        {
            assert(cs.take(i + 1).drop_last() == cs.take(i as int));
            assert(cs.take(i + 1).last() == t.chips@[i as int]@);
            n = add_temps(&t.chips[i].temps, s, Ghost(count_chips(cs.take(i as int), s)), n);
            i = i + 1;
        }
        assert(cs.take(i as int) == cs);
    }
    n
}

/// The state of a snapshot and its headline.
pub fn summarise(snapshot: &Snapshot) -> (r: (Status, String))
    ensures
        r.0 == status_of(snapshot@),
        r.1@ == headline_of(snapshot@),
{
    let critical: u64 = count_sensors(snapshot, TempSeverity::Critical);
    let warning: u64 = count_sensors(snapshot, TempSeverity::Warning);
    let errors: usize = snapshot.errors.len();
    assert(snapshot@.errors.len() == errors);
    let status = if critical > 0 {
        Status::Critical
    } else if warning > 0 || errors > 0 {
        Status::Warning
    } else {
        Status::Fine
    };
    let mut headline: String = String::new();
    let ghost parts = headline_parts(critical as nat, warning as nat, errors as nat);
    let ghost mut done: Seq<Seq<char>> = Seq::empty();
    if critical > 0 {
        let n = decimal_string(critical);
        push_str(&mut headline, n.as_str());
        push_str(&mut headline, " critical");
        proof {
            done = done.push(decimal(critical as nat) + " critical"@);
            assert(headline@ == listed(done));
        }
    }
    if warning > 0 {
        let part = plural(warning, "warning");
        push_part(&mut headline, part.as_str(), critical > 0, Ghost(done));
        proof {
            done = done.push(part@);
        }
    }
    if errors > 0 {
        let part = plural(errors as u64, "collector error");
        push_part(&mut headline, part.as_str(), critical > 0 || warning > 0, Ghost(done));
        proof {
            done = done.push(part@);
        }
    }
    assert(done == parts);
    (status, headline)
}

fn push_part(out: &mut String, part: &str, more: bool, Ghost(done): Ghost<Seq<Seq<char>>>)
    requires
        old(out)@ == listed(done),
        more == (done.len() > 0),
    ensures
        final(out)@ == listed(done.push(part@)),
{
    if more {
        push_str(out, ", ");
    }
    push_str(out, part);
    assert(done.push(part@).drop_last() == done);
    assert(out@ == listed(done.push(part@)));
}

/// The line that is written.
pub open spec fn summary_text(status: Status, headline: Seq<char>) -> Seq<Glyph> {
    written(
        Json::Object(
            Seq::<(Seq<char>, Json)>::empty().push(("status"@, Json::Text(status_name(status)))).push(
                ("headline"@, Json::Text(headline)),
            ),
        ),
    ) + chars("\n"@)
}

pub fn write_summary(status: Status, headline: &str) -> (r: Document)
    ensures
        r@ == summary_text(status, headline@),
{
    let mut w = JsonWriter::new();
    let ghost base = w@;
    w.begin_object();
    w.str_field("status", status.as_str());
    w.str_field("headline", headline);
    let ghost members = Seq::<(Seq<char>, Json)>::empty().push(
        ("status"@, Json::Text(status_name(status))),
    ).push(("headline"@, Json::Text(headline@)));
    assert(in_object(base, w@, members));
    w.end_object();
    let mut out = w.into_document();
    assert(Seq::<Glyph>::empty() + written(Json::Object(members)) == written(
        Json::Object(members),
    ));
    out.text("\n");
    out
}

/// The collectors of a summary, before they have collected anything.
pub open spec fn summary_collectors() -> Seq<AnyState> {
    seq![
        AnyState::Cpu(CpuState { core_count: None, model: None }),
        AnyState::Memory,
        AnyState::Thermal(seq![]),
    ]
}

/// Is the collector of this name one of a summary's?
pub fn is_summarised(name: &str) -> (r: bool)
    ensures
        r == exists|i: int|
            0 <= i < summary_collectors().len() && AnyCollector::named(
                #[trigger] summary_collectors()[i],
            ) == name@,
{
    proof {
        let all = summary_collectors();
        assert(AnyCollector::named(all[0]) == cpu::NAME@);
        assert(AnyCollector::named(all[1]) == memory::NAME@);
        assert(AnyCollector::named(all[2]) == thermal::NAME@);
    }
    same_str(name, cpu::NAME) || same_str(name, memory::NAME) || same_str(name, thermal::NAME)
}

/// What a summary run writes, and its exit code: nothing and one where there
/// is nothing worth saying.
pub open spec fn summary_run(s: SnapshotView) -> (i32, Seq<Glyph>) {
    if status_of(s) == Status::Fine {
        (1, seq![])
    } else {
        (0, summary_text(status_of(s), headline_of(s)))
    }
}

/// Collects processor, memory and temperatures, and sums them up.
pub fn run(reader: SysfsReader, taken_at: i64, taken_at_monotonic: u64) -> (r: Result<
    (i32, Document),
    Error,
>)
    ensures
        r is Ok,
        (r->Ok_0.0, r->Ok_0.1@) == summary_run(
            all_collected::<AnyCollector>(
                summary_collectors(),
                &reader,
                empty_snapshot(taken_at, taken_at_monotonic),
            ).1,
        ),
{
    let collectors = vec![
        AnyCollector::Cpu(CpuCollector::new()),
        AnyCollector::Memory(MemoryCollector::new()),
        AnyCollector::Thermal(ThermalCollector::new()),
    ];
    assert(models(collectors@) == summary_collectors());
    let mut registry = Registry::from_collectors(collectors, reader);
    let snapshot = match registry.collect_all(taken_at, taken_at_monotonic) {
        Err(e) => return Err(e),
        Ok(snapshot) => snapshot,
    };
    let (status, headline) = summarise(&snapshot);
    if status == Status::Fine {
        return Ok((1, Document::new()));
    }
    Ok((0, write_summary(status, headline.as_str())))
}

/// Something is said exactly when something is wrong.
pub proof fn a_headline_means_trouble(s: SnapshotView)
    ensures
        status_of(s) == Status::Fine <==> sensors_in(s, TempSeverity::Critical) == 0 && sensors_in(
            s,
            TempSeverity::Warning,
        ) == 0 && s.errors.len() == 0,
        status_of(s) == Status::Fine ==> headline_of(s) == Seq::<char>::empty(),
        summary_run(s).0 == 1 <==> status_of(s) == Status::Fine,
{
}

/// A summary holds no control character but the end of its line.
pub proof fn summaries_are_calm(s: SnapshotView)
    ensures
        calm(summary_run(s).1),
{
    json_lines_are_calm(
        Json::Object(
            Seq::<(Seq<char>, Json)>::empty().push(
                ("status"@, Json::Text(status_name(status_of(s)))),
            ).push(("headline"@, Json::Text(headline_of(s)))),
        ),
    );
}

// ---------------------------------------------------------------------------
// What is counted
// ---------------------------------------------------------------------------
/// The sensor has reached the temperature at which its hardware shuts down.
pub open spec fn at_limit(t: TempSensorView) -> bool {
    t.crit matches Some(limit) && limit.0 <= t.value.0
}

/// It has not, but it has reached the highest that it should have.
pub open spec fn above_usual(t: TempSensorView) -> bool {
    !at_limit(t) && (t.max matches Some(limit) && limit.0 <= t.value.0)
}

pub open spec fn chips_in(s: SnapshotView) -> Seq<HwmonChipView> {
    match s.thermal {
        Some(t) => t.chips,
        None => seq![],
    }
}

/// There is a sensor at that place: the number of its chip, and its own.
pub open spec fn is_place(chips: Seq<HwmonChipView>, p: (int, int)) -> bool {
    0 <= p.0 < chips.len() && 0 <= p.1 < chips[p.0].temps.len()
}

/// Where the sensors are that have reached their limit.
pub open spec fn places_at_limit(s: SnapshotView) -> Set<(int, int)> {
    Set::new(
        |p: (int, int)| is_place(chips_in(s), p) && at_limit(chips_in(s)[p.0].temps[p.1]),
    )
}

/// Where those are that have reached only the highest usual temperature.
pub open spec fn places_above_usual(s: SnapshotView) -> Set<(int, int)> {
    Set::new(
        |p: (int, int)| is_place(chips_in(s), p) && above_usual(chips_in(s)[p.0].temps[p.1]),
    )
}

/// The sensors of the first `n` chips, and the first `m` of the next, that are in
/// a state.
spec fn places(chips: Seq<HwmonChipView>, n: int, m: int, s: TempSeverity) -> Set<(int, int)> {
    Set::new(
        |p: (int, int)|
            ((0 <= p.0 < n && 0 <= p.1 < chips[p.0].temps.len()) || (p.0 == n && 0 <= p.1 < m))
                && severity_of(chips[p.0].temps[p.1]) == s,
    )
}

proof fn lemma_places(chips: Seq<HwmonChipView>, n: int, m: int, s: TempSeverity)
    requires
        0 <= n <= chips.len(),
        m == 0 || (n < chips.len() && 0 <= m <= chips[n].temps.len()),
    ensures
        places(chips, n, m, s).finite(),
        places(chips, n, m, s).len() == count_chips(chips.take(n), s) + if m == 0 {
            0
        } else {
            count_temps(chips[n].temps.take(m), s)
        },
    decreases n, m,
{
    let all = places(chips, n, m, s);
    if m > 0 {
        let before = places(chips, n, m - 1, s);
        let temps = chips[n].temps;
        lemma_places(chips, n, m - 1, s);
        assert(temps.take(m).drop_last() == temps.take(m - 1));
        assert(temps.take(m).last() == temps[m - 1]);
        if m == 1 {
            assert(count_temps(temps.take(0), s) == 0);
        }
        if severity_of(temps[m - 1]) == s {
            assert(!before.contains((n, m - 1)));
            assert(all =~= before.insert((n, m - 1)));
        } else {
            assert(all =~= before);
        }
    } else if n > 0 {
        let temps = chips[n - 1].temps;
        lemma_places(chips, n - 1, temps.len() as int, s);
        assert(all =~= places(chips, n - 1, temps.len() as int, s));
        assert(chips.take(n).drop_last() == chips.take(n - 1));
        assert(chips.take(n).last() == chips[n - 1]);
        assert(temps.take(temps.len() as int) == temps);
        if temps.len() == 0 {
            assert(count_temps(temps, s) == 0);
        }
    } else {
        assert(all =~= Set::<(int, int)>::empty());
        assert(count_chips(chips.take(0), s) == 0);
    }
}

proof fn lemma_counted(s: SnapshotView)
    ensures
        places_at_limit(s).finite(),
        places_above_usual(s).finite(),
        sensors_in(s, TempSeverity::Critical) == places_at_limit(s).len(),
        sensors_in(s, TempSeverity::Warning) == places_above_usual(s).len(),
{
    let chips = chips_in(s);
    let n = chips.len() as int;
    lemma_places(chips, n, 0, TempSeverity::Critical);
    lemma_places(chips, n, 0, TempSeverity::Warning);
    assert(chips.take(n) == chips);
    assert(places_at_limit(s) =~= places(chips, n, 0, TempSeverity::Critical));
    assert(places_above_usual(s) =~= places(chips, n, 0, TempSeverity::Warning));
    if s.thermal is None {
        assert(count_chips(chips, TempSeverity::Critical) == 0);
        assert(count_chips(chips, TempSeverity::Warning) == 0);
    }
}

/// A summary is critical exactly where some sensor of some chip has reached its
/// limit; else it warns exactly where some sensor is above its usual range or
/// some collector failed.
pub proof fn any_sensor_decides(s: SnapshotView)
    ensures
        status_of(s) == Status::Critical <==> exists|i: int, j: int|
            is_place(chips_in(s), (i, j)) && at_limit(#[trigger] chips_in(s)[i].temps[j]),
        status_of(s) == Status::Fine <==> s.errors.len() == 0 && forall|i: int, j: int|
            is_place(chips_in(s), (i, j)) ==> !at_limit(#[trigger] chips_in(s)[i].temps[j])
                && !above_usual(chips_in(s)[i].temps[j]),
{
    lemma_counted(s);
    let hot = places_at_limit(s);
    let warm = places_above_usual(s);
    if hot.len() > 0 {
        assert(!(hot =~= Set::<(int, int)>::empty()));
        let p = choose|p: (int, int)| hot.contains(p);
        assert(at_limit(chips_in(s)[p.0].temps[p.1]));
        assert(is_place(chips_in(s), (p.0, p.1)));
    }
    if exists|i: int, j: int|
        is_place(chips_in(s), (i, j)) && at_limit(#[trigger] chips_in(s)[i].temps[j]) {
        let (i, j) = choose|i: int, j: int|
            is_place(chips_in(s), (i, j)) && at_limit(#[trigger] chips_in(s)[i].temps[j]);
        assert(hot.contains((i, j)));
        lemma_member(hot, (i, j));
    }
    if warm.len() > 0 {
        assert(!(warm =~= Set::<(int, int)>::empty()));
        let p = choose|p: (int, int)| warm.contains(p);
        assert(above_usual(chips_in(s)[p.0].temps[p.1]));
        assert(is_place(chips_in(s), (p.0, p.1)));
    }
    assert forall|i: int, j: int| is_place(chips_in(s), (i, j)) && warm.len() == 0 && hot.len()
        == 0 implies !at_limit(#[trigger] chips_in(s)[i].temps[j]) && !above_usual(
        chips_in(s)[i].temps[j],
    ) by {
        if at_limit(chips_in(s)[i].temps[j]) {
            assert(hot.contains((i, j)));
            lemma_member(hot, (i, j));
        }
        if above_usual(chips_in(s)[i].temps[j]) {
            assert(warm.contains((i, j)));
            lemma_member(warm, (i, j));
        }
    }
}

proof fn lemma_member(s: Set<(int, int)>, p: (int, int))
    requires
        s.finite(),
        s.contains(p),
    ensures
        s.len() > 0,
{
    if s.len() == 0 {
        s.lemma_len0_is_empty();
    }
}

/// The two pieces with a comma between them, where there are both.
pub open spec fn with_comma(a: Seq<char>, b: Seq<char>) -> Seq<char> {
    if a.len() == 0 {
        b
    } else if b.len() == 0 {
        a
    } else {
        a + ", "@ + b
    }
}

/// So many of something, or nothing where there are none.
pub open spec fn counted(n: nat, one: Seq<char>, more: Seq<char>) -> Seq<char> {
    if n == 0 {
        seq![]
    } else if n == 1 {
        decimal(1) + one
    } else {
        decimal(n) + more
    }
}

/// The headline says how many sensors of all chips have reached their limit, how
/// many are above their usual range, and how many errors there were, each only
/// where there are some.
pub proof fn the_headline_counts_every_sensor(s: SnapshotView)
    requires
        places_at_limit(s).len() <= u64::MAX,
        places_above_usual(s).len() <= u64::MAX,
    ensures
        headline_of(s) == with_comma(
            with_comma(
                counted(places_at_limit(s).len(), " critical"@, " critical"@),
                counted(places_above_usual(s).len(), " warning"@, " warnings"@),
            ),
            counted(s.errors.len(), " collector error"@, " collector errors"@),
        ),
{
    lemma_counted(s);
    let (c, w, e) = (places_at_limit(s).len(), places_above_usual(s).len(), s.errors.len());
    reveal_strlit(" ");
    reveal_strlit("s");
    reveal_strlit(" critical");
    reveal_strlit("warning");
    reveal_strlit(" warning");
    reveal_strlit(" warnings");
    reveal_strlit("collector error");
    reveal_strlit(" collector error");
    reveal_strlit(" collector errors");
    lemma_decimal_digits(c);
    lemma_decimal_digits(w);
    lemma_decimal_digits(e);
    assert(" "@ + "warning"@ == " warning"@);
    assert(" "@ + "warning"@ + "s"@ == " warnings"@);
    assert(" "@ + "collector error"@ == " collector error"@);
    assert(" "@ + "collector error"@ + "s"@ == " collector errors"@);
    assert(plural_of(w, "warning"@) == decimal(w) + if w == 1 {
        " warning"@
    } else {
        " warnings"@
    });
    assert(plural_of(e, "collector error"@) == decimal(e) + if e == 1 {
        " collector error"@
    } else {
        " collector errors"@
    });
    let parts = headline_parts(c, w, e);
    reveal_with_fuel(listed, 4);
    if parts.len() == 3 {
        assert(parts.drop_last().drop_last() == seq![parts[0]]);
        assert(parts.drop_last() == seq![parts[0], parts[1]]);
    } else if parts.len() == 2 {
        assert(parts.drop_last() == seq![parts[0]]);
    }
}

/// Nothing is written exactly where no sensor and no collector is worth a word,
/// and the exit code says which.
pub proof fn silence_means_all_is_well(s: SnapshotView)
    ensures
        summary_run(s).0 == 1 || summary_run(s).0 == 0,
        summary_run(s).0 == 1 <==> s.errors.len() == 0 && forall|i: int, j: int|
            is_place(chips_in(s), (i, j)) ==> !at_limit(#[trigger] chips_in(s)[i].temps[j])
                && !above_usual(chips_in(s)[i].temps[j]),
        summary_run(s).0 == 1 ==> summary_run(s).1.len() == 0,
{
    any_sensor_decides(s);
}

/// What stands before the headline.
spec fn line_head(state: Seq<char>) -> Seq<char> {
    seq!['{', '"'] + "status"@ + seq!['"', ':', '"'] + state + seq!['"', ',', '"'] + "headline"@
        + seq!['"', ':']
}

proof fn lemma_line(status: Status, headline: Seq<char>)
    ensures
        summary_text(status, headline) == chars(line_head(status_name(status))) + chars(
            json_string(headline),
        ) + chars("}\n"@),
{
    reveal_strlit("ok");
    reveal_strlit("critical");
    reveal_strlit("warning");
    reveal_strlit("status");
    reveal_strlit("headline");
    reveal_strlit("\n");
    reveal_strlit("}\n");
    reveal_strlit("{}");
    let none = Seq::<(Seq<char>, Json)>::empty();
    let state = status_name(status);
    let one = none.push(("status"@, Json::Text(state)));
    let tail = chars(json_string(headline));
    members_are_written_in_their_order(none, "status"@, Json::Text(state));
    members_are_written_in_their_order(one, "headline"@, Json::Text(headline));
    plain_texts_stand_as_they_are("status"@);
    plain_texts_stand_as_they_are("headline"@);
    plain_texts_stand_as_they_are(state);
    reveal_strlit("{");
    reveal_strlit("}");
    assert(written(Json::Object(none)) =~= chars("{}"@));
    assert(chars("{}"@).drop_last() =~= seq![letter('{')]);
    let a = seq![letter('{')] + seq![] + chars(json_string("status"@)) + seq![letter(':')] + chars(
        json_string(state),
    );
    assert(written(Json::Object(one)) == a + seq![letter('}')]);
    assert((a + seq![letter('}')]).drop_last() =~= a);
    let head = a + seq![letter(',')] + chars(json_string("headline"@)) + seq![letter(':')];
    assert(head =~= chars(line_head(state)));
    assert(seq![letter('}')] + chars("\n"@) =~= chars("}\n"@));
    assert(summary_text(status, headline) == head + tail + seq![letter('}')] + chars("\n"@));
    assert(head + tail + seq![letter('}')] + chars("\n"@) =~= head + tail + (seq![letter('}')]
        + chars("\n"@)));
}

/// The line is an object that gives the state, and behind it the headline.
pub proof fn the_line_gives_state_and_headline(s: SnapshotView)
    ensures
        status_of(s) == Status::Critical ==> summary_run(s).1 == chars(
            "{\"status\":\"critical\",\"headline\":"@,
        ) + chars(json_string(headline_of(s))) + chars("}\n"@),
        status_of(s) == Status::Warning ==> summary_run(s).1 == chars(
            "{\"status\":\"warning\",\"headline\":"@,
        ) + chars(json_string(headline_of(s))) + chars("}\n"@),
        status_of(s) == Status::Fine ==> summary_run(s).1 == Seq::<Glyph>::empty(),
{
    reveal_strlit("critical");
    reveal_strlit("warning");
    reveal_strlit("status");
    reveal_strlit("headline");
    reveal_strlit("{\"status\":\"critical\",\"headline\":");
    reveal_strlit("{\"status\":\"warning\",\"headline\":");
    lemma_line(status_of(s), headline_of(s));
    assert(line_head("critical"@) =~= "{\"status\":\"critical\",\"headline\":"@);
    assert(line_head("warning"@) =~= "{\"status\":\"warning\",\"headline\":"@);
}

/// A summary looks at the processor, the memory and the temperatures, one behind the
/// other, and at nothing else.
pub proof fn a_summary_looks_at_three_parts(name: Seq<char>)
    ensures
        (exists|i: int|
            0 <= i < summary_collectors().len() && AnyCollector::named(
                #[trigger] summary_collectors()[i],
            ) == name) <==> name == "cpu"@ || name == "memory"@ || name == "thermal"@,
        summary_collectors().len() == 3,
        AnyCollector::named(summary_collectors()[0]) == "cpu"@,
        AnyCollector::named(summary_collectors()[1]) == "memory"@,
        AnyCollector::named(summary_collectors()[2]) == "thermal"@,
{
    let all = summary_collectors();
    assert(AnyCollector::named(all[0]) == cpu::NAME@);
    assert(AnyCollector::named(all[1]) == memory::NAME@);
    assert(AnyCollector::named(all[2]) == thermal::NAME@);
}

} // verus!
