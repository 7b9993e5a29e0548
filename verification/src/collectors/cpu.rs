//! Processor time, frequencies and load, from `/proc/stat`, `/proc/loadavg`,
//! `/proc/cpuinfo` and `/sys/devices/system/cpu`.

use vstd::prelude::*;

use crate::collector::{Collected, Collector};
use crate::error::{message_of, Error, ErrorView};
use crate::number::{decimal, decimal_string, parse, parse_of, parse_u64};
use crate::numeral::{judge, numeral_of, Numeral};
use crate::sample::{
    no_times, views, CollectorError, CollectorErrorView, CpuSample, CpuSampleView, CpuTimes,
    LoadAvg, LoadAvgView, Snapshot, SnapshotView,
};
use crate::sysfs::{
    quoted, sanitize, sanitized, show, NameFilter, SysfsReader, DEFAULT_MAX_LINES,
};
use crate::text::{
    chars_of, cut_at, cut_at_space, first_lines, first_of, is_text, lines, lines_of, slices,
    split_once, split_once_space, string_of, strings, strip_prefix, text2, text3, text4, text5,
    text_option_view, trim, trim_of, without_prefix, words, words_of,
};
use crate::units::KiloHertz;

verus! {

pub const NAME: &'static str = "cpu";

pub const PROC_STAT: &'static str = "proc/stat";

pub const PROC_LOADAVG: &'static str = "proc/loadavg";

pub const PROC_CPUINFO: &'static str = "proc/cpuinfo";

pub const SYS_CPU_DIR: &'static str = "sys/devices/system/cpu";

/// Cap on the core number that is taken from `/proc/stat`, so that a line
/// `cpu4000000000` does not ask for four billion entries.
pub const MAX_CORES: usize = 4_096;

/// Every kernel reports user, nice, system and idle; later fields may be
/// missing on an old one.
pub const MIN_CPU_FIELDS: usize = 4;

/// Cap on the model name.
pub const MAX_MODEL_LEN: usize = 128;

// ---------------------------------------------------------------------------
// Counters
// ---------------------------------------------------------------------------
pub open spec fn bad_counter(path: Seq<char>, line_no: usize, idx: nat, field: Seq<char>) -> ErrorView {
    ErrorView::Parse {
        path,
        line: Some(line_no),
        reason: "field "@ + decimal(idx + 1) + " is not an unsigned integer: "@ + quoted(
            sanitized(field, 32),
        ),
    }
}

/// The numbers that `fields` write, of which the first stands at `idx` in its
/// line; the first that is none is an error.
pub open spec fn counters(
    path: Seq<char>,
    line_no: usize,
    idx: nat,
    fields: Seq<Seq<char>>,
) -> Result<Seq<u64>, ErrorView>
    decreases fields.len(),
{
    if fields.len() == 0 {
        Ok(seq![])
    } else {
        match parse_of(fields[0], 10, u64::MAX as nat) {
            None => Err(bad_counter(path, line_no, idx, fields[0])),
            Some(n) => match counters(path, line_no, idx + 1, fields.drop_first()) {
                Err(e) => Err(e),
                Ok(rest) => Ok(seq![n as u64] + rest),
            },
        }
    }
}

/// The counter at `i`, or zero where an old kernel does not report it.
pub open spec fn counter(values: Seq<u64>, i: int) -> u64 {
    if i < values.len() {
        values[i]
    } else {
        0
    }
}

/// The counters that a line of `/proc/stat` writes: ten fields at most, and
/// at least four.
pub open spec fn cpu_times_of(path: Seq<char>, line_no: usize, fields: Seq<char>) -> Result<
    CpuTimes,
    ErrorView,
> {
    match counters(path, line_no, 0, first_of(words_of(fields), 10)) {
        Err(e) => Err(e),
        Ok(v) => if v.len() < MIN_CPU_FIELDS {
            Err(
                ErrorView::Parse {
                    path,
                    line: Some(line_no),
                    reason: "expected at least "@ + decimal(MIN_CPU_FIELDS as nat)
                        + " fields, got "@ + decimal(v.len()),
                },
            )
        } else {
            Ok(
                CpuTimes {
                    user: counter(v, 0),
                    nice: counter(v, 1),
                    system: counter(v, 2),
                    idle: counter(v, 3),
                    iowait: counter(v, 4),
                    irq: counter(v, 5),
                    softirq: counter(v, 6),
                    steal: counter(v, 7),
                    guest: counter(v, 8),
                    guest_nice: counter(v, 9),
                },
            )
        },
    }
}

pub open spec fn times_view(r: Result<CpuTimes, Error>) -> Result<CpuTimes, ErrorView> {
    match r {
        Ok(t) => Ok(t),
        Err(e) => Err(e@),
    }
}

fn read_counters(path: &str, line_no: usize, fields: &[&[char]]) -> (r: Result<Vec<u64>, Error>)
    ensures
        match r {
            Ok(v) => counters(path@, line_no, 0, slices(fields@)) == Ok::<Seq<u64>, ErrorView>(v@),
            Err(e) => counters(path@, line_no, 0, slices(fields@)) == Err::<Seq<u64>, ErrorView>(
                e@,
            ),
        },
{
    let ghost all = slices(fields@);
    let mut values: Vec<u64> = Vec::new();
    let mut i: usize = 0;
    assert(all.skip(0) == all);
    while i < fields.len()
        invariant
            i <= fields.len(),
            all == slices(fields@),
            counters(path@, line_no, 0, all) == match counters(
                path@,
                line_no,
                i as nat,
                all.skip(i as int),
            ) {
                Ok(rest) => Ok::<Seq<u64>, ErrorView>(values@ + rest),
                Err(e) => Err(e),
            },
        decreases fields.len() - i,
    {
        let ghost rest = all.skip(i as int);
        assert(rest[0] == fields@[i as int]@);
        assert(rest.drop_first() == all.skip(i + 1));
        match parse_u64(fields[i]) {
            None => {
                let shown = show(fields[i], 32);
                let n = decimal_string(i as u64 + 1);
                return Err(
                    Error::parse(
                        path,
                        Some(line_no),
                        text4(
                            "field ",
                            n.as_str(),
                            " is not an unsigned integer: ",
                            shown.as_str(),
                        ),
                    ),
                );
            },
            Some(n) => {
                let ghost before = values@;
                values.push(n);
                proof {
                    match counters(path@, line_no, (i + 1) as nat, all.skip(i + 1)) {
                        Ok(more) => {
                            assert(before.push(n) + more == before + (seq![n] + more));
                        },
                        Err(_) => {},
                    }
                }
            },
        }
        i = i + 1;
    }
    assert(all.skip(i as int) == Seq::<Seq<char>>::empty());
    assert(values@ + Seq::<u64>::empty() == values@);
    Ok(values)
}

fn nth(values: &Vec<u64>, i: usize) -> (r: u64)
    ensures
        r == counter(values@, i as int),
{
    if i < values.len() {
        values[i]
    } else {
        0
    }
}

fn parse_times(path: &str, line_no: usize, fields: &[char]) -> (r: Result<CpuTimes, Error>)
    ensures
        times_view(r) == cpu_times_of(path@, line_no, fields@),
{
    let mut all = words(fields);
    let ghost before = all@;
    all.truncate(10);
    assert(slices(all@) == first_of(slices(before), 10));
    let v = match read_counters(path, line_no, all.as_slice()) {
        Err(e) => return Err(e),
        Ok(v) => v,
    };
    if v.len() < MIN_CPU_FIELDS {
        let want = decimal_string(MIN_CPU_FIELDS as u64);
        let got = decimal_string(v.len() as u64);
        return Err(
            Error::parse(
                path,
                Some(line_no),
                text4("expected at least ", want.as_str(), " fields, got ", got.as_str()),
            ),
        );
    }
    Ok(
        CpuTimes {
            user: nth(&v, 0),
            nice: nth(&v, 1),
            system: nth(&v, 2),
            idle: nth(&v, 3),
            iowait: nth(&v, 4),
            irq: nth(&v, 5),
            softirq: nth(&v, 6),
            steal: nth(&v, 7),
            guest: nth(&v, 8),
            guest_nice: nth(&v, 9),
        },
    )
}

/// The counters of one line.
pub fn parse_cpu_times(path: &str, line_no: usize, fields: &str) -> (r: Result<CpuTimes, Error>)
    ensures
        times_view(r) == cpu_times_of(path@, line_no, fields@),
{
    let cs = chars_of(fields);
    parse_times(path, line_no, cs.as_slice())
}

// ---------------------------------------------------------------------------
// /proc/stat
// ---------------------------------------------------------------------------
/// The lines of `/proc/stat` so far: the counters of all processors together,
/// and those of each core at its number.
pub struct StatSoFar {
    pub total: Option<CpuTimes>,
    pub cores: Seq<Option<CpuTimes>>,
}

/// `cores` with the counters of core `index` set, and gaps before it left open.
pub open spec fn with_core(cores: Seq<Option<CpuTimes>>, index: int, times: CpuTimes) -> Seq<
    Option<CpuTimes>,
> {
    Seq::new(
        if cores.len() <= index {
            (index + 1) as nat
        } else {
            cores.len()
        },
        |i: int|
            if i == index {
                Some(times)
            } else if i < cores.len() {
                cores[i]
            } else {
                None
            },
    )
}

/// What one line of `/proc/stat` adds.
pub open spec fn stat_line(path: Seq<char>, line_no: usize, line: Seq<char>, before: StatSoFar) -> Result<
    StatSoFar,
    ErrorView,
> {
    match without_prefix(line, "cpu"@) {
        None => Ok(before),
        Some(rest) => match without_prefix(rest, " "@) {
            Some(fields) => match cpu_times_of(path, line_no, fields) {
                Err(e) => Err(e),
                Ok(times) => Ok(StatSoFar { total: Some(times), cores: before.cores }),
            },
            None => match cut_at_space(rest) {
                None => Ok(before),
                Some((index, fields)) => match parse_of(index, 10, usize::MAX as nat) {
                    None => Err(
                        ErrorView::Parse {
                            path,
                            line: Some(line_no),
                            reason: "expected a cpu index, got "@ + quoted(sanitized(index, 16)),
                        },
                    ),
                    Some(n) => if n >= MAX_CORES {
                        Err(
                            ErrorView::Parse {
                                path,
                                line: Some(line_no),
                                reason: "cpu index "@ + decimal(n) + " exceeds the "@ + decimal(
                                    MAX_CORES as nat,
                                ) + "-core cap"@,
                            },
                        )
                    } else {
                        match cpu_times_of(path, line_no, fields) {
                            Err(e) => Err(e),
                            Ok(times) => Ok(
                                StatSoFar {
                                    total: before.total,
                                    cores: with_core(before.cores, n as int, times),
                                },
                            ),
                        }
                    },
                },
            },
        },
    }
}

/// What the lines add, of which the first has the number `line_no`.
pub open spec fn stat_lines(
    path: Seq<char>,
    line_no: nat,
    lines: Seq<Seq<char>>,
    before: StatSoFar,
) -> Result<StatSoFar, ErrorView>
    decreases lines.len(),
{
    if lines.len() == 0 {
        Ok(before)
    } else {
        match stat_line(path, line_no as usize, lines[0], before) {
            Err(e) => Err(e),
            Ok(after) => stat_lines(path, line_no + 1, lines.drop_first(), after),
        }
    }
}

/// The counters of a core, or zeros for one that is offline.
pub open spec fn core_times(core: Option<CpuTimes>) -> CpuTimes {
    match core {
        Some(times) => times,
        None => no_times(),
    }
}

/// What `/proc/stat` holds: the counters of all processors together, and of
/// each core.
pub open spec fn proc_stat_of(path: Seq<char>, contents: Seq<char>) -> Result<
    (CpuTimes, Seq<CpuTimes>),
    ErrorView,
> {
    match stat_lines(
        path,
        1,
        first_of(lines_of(contents), DEFAULT_MAX_LINES as nat),
        StatSoFar { total: None, cores: seq![] },
    ) {
        Err(e) => Err(e),
        Ok(stat) => match stat.total {
            None => Err(
                ErrorView::Parse { path, line: None, reason: "no aggregate `cpu ` line"@ },
            ),
            Some(total) => Ok(
                (total, stat.cores.map_values(|c: Option<CpuTimes>| core_times(c))),
            ),
        },
    }
}

fn set_core(cores: &mut Vec<Option<CpuTimes>>, index: usize, times: CpuTimes)
    requires
        index < MAX_CORES,
    ensures
        final(cores)@ == with_core(old(cores)@, index as int, times),
{
    let ghost before = cores@;
    while cores.len() <= index
        invariant
            index < MAX_CORES,
            cores@.len() >= before.len(),
            cores@.len() <= before.len() || cores@.len() <= index + 1,
            forall|i: int|
                0 <= i < cores@.len() ==> #[trigger] cores@[i] == (if i < before.len() {
                    before[i]
                } else {
                    None
                }),
        decreases index + 1 - cores.len(),
    {
        cores.push(None);
    }
    cores.set(index, Some(times));
    assert(cores@ == with_core(before, index as int, times));
}

/// Parses `/proc/stat` into the counters of all processors together, and
/// those of each core. A core's place is the number in its line: an offline
/// core leaves a gap, and moves no other.
pub fn parse_proc_stat(path: &str, contents: &str) -> (r: Result<(CpuTimes, Vec<CpuTimes>), Error>)
    ensures
        match r {
            Ok((total, cores)) => proc_stat_of(path@, contents@) == Ok::<
                (CpuTimes, Seq<CpuTimes>),
                ErrorView,
            >((total, cores@)),
            Err(e) => proc_stat_of(path@, contents@) == Err::<
                (CpuTimes, Seq<CpuTimes>),
                ErrorView,
            >(e@),
        },
{
    let cs = chars_of(contents);
    let all = first_lines(cs.as_slice(), DEFAULT_MAX_LINES);
    let ghost ls = slices(all@);
    let mut total: Option<CpuTimes> = None;
    let mut cores: Vec<Option<CpuTimes>> = Vec::new();
    let ghost start = StatSoFar { total: None, cores: seq![] };
    let mut i: usize = 0;
    assert(ls.skip(0) == ls);
    while i < all.len()
        invariant
            i <= all.len(),
            all.len() <= DEFAULT_MAX_LINES,
            ls == slices(all@),
            ls == first_of(lines_of(contents@), DEFAULT_MAX_LINES as nat),
            start == (StatSoFar { total: None, cores: seq![] }),
            stat_lines(
                path@,
                (i + 1) as nat,
                ls.skip(i as int),
                StatSoFar { total, cores: cores@ },
            ) == stat_lines(path@, 1, ls, start),
        decreases all.len() - i,
    {
        let line_no: usize = i + 1;
        let line: &[char] = all[i];
        let ghost rest = ls.skip(i as int);
        assert(rest[0] == line@);
        assert(rest.drop_first() == ls.skip(i + 1));
        if let Some(rest) = strip_prefix(line, "cpu") {
            if let Some(fields) = strip_prefix(rest, " ") {
                match parse_times(path, line_no, fields) {
                    Err(e) => return Err(e),
                    Ok(times) => total = Some(times),
                }
            } else if let Some((index, fields)) = split_once_space(rest) {
                let n: usize = match parse(index, 10, usize::MAX as u64) {
                    None => {
                        let shown = show(index, 16);
                        return Err(
                            Error::parse(
                                path,
                                Some(line_no),
                                text2("expected a cpu index, got ", shown.as_str()),
                            ),
                        );
                    },
                    Some(n) => n as usize,
                };
                if n >= MAX_CORES {
                    let got = decimal_string(n as u64);
                    let cap = decimal_string(MAX_CORES as u64);
                    return Err(
                        Error::parse(
                            path,
                            Some(line_no),
                            text5(
                                "cpu index ",
                                got.as_str(),
                                " exceeds the ",
                                cap.as_str(),
                                "-core cap",
                            ),
                        ),
                    );
                }
                match parse_times(path, line_no, fields) {
                    Err(e) => return Err(e),
                    Ok(times) => set_core(&mut cores, n, times),
                }
            }
        }
        i = i + 1;
    }
    assert(ls.skip(i as int) == Seq::<Seq<char>>::empty());
    let total = match total {
        None => return Err(Error::parse(path, None, "no aggregate `cpu ` line".to_owned())),
        Some(total) => total,
    };
    let ghost done = cores@;
    let mut per_core: Vec<CpuTimes> = Vec::new();
    let mut k: usize = 0;
    while k < cores.len()
        invariant
            k <= cores.len(),
            cores@ == done,
            per_core@ == done.take(k as int).map_values(|c: Option<CpuTimes>| core_times(c)),
        decreases cores.len() - k,
    {
        let times = match cores[k] {
            Some(times) => times,
            None => CpuTimes::default(),
        };
        per_core.push(times);
        assert(done.take(k + 1) == done.take(k as int).push(done[k as int]));
        assert(per_core@ == done.take(k + 1).map_values(|c: Option<CpuTimes>| core_times(c)));
        k = k + 1;
    }
    assert(done.take(k as int) == done);
    Ok((total, per_core))
}

/// The number behind the first line whose name is `key`, if it is one.
pub open spec fn scalar_in(lines: Seq<Seq<char>>, key: Seq<char>) -> Option<u64>
    decreases lines.len(),
{
    if lines.len() == 0 {
        None
    } else {
        match cut_at_space(lines[0]) {
            Some((name, value)) if name == key => match parse_of(
                trim_of(value),
                10,
                u64::MAX as nat,
            ) {
                Some(n) => Some(n as u64),
                None => None,
            },
            _ => scalar_in(lines.drop_first(), key),
        }
    }
}

/// A bare `key value` line of `/proc/stat`. Absent or unreadable is `None`:
/// a missing one is not worth failing a reading over.
pub fn parse_scalar_line(contents: &str, key: &str) -> (r: Option<u64>)
    ensures
        r == scalar_in(first_of(lines_of(contents@), DEFAULT_MAX_LINES as nat), key@),
{
    let cs = chars_of(contents);
    let all = first_lines(cs.as_slice(), DEFAULT_MAX_LINES);
    let ghost ls = slices(all@);
    let mut i: usize = 0;
    assert(ls.skip(0) == ls);
    while i < all.len()
        invariant
            i <= all.len(),
            ls == slices(all@),
            ls == first_of(lines_of(contents@), DEFAULT_MAX_LINES as nat),
            scalar_in(ls.skip(i as int), key@) == scalar_in(ls, key@),
        decreases all.len() - i,
    {
        assert(ls.skip(i as int)[0] == all@[i as int]@);
        assert(ls.skip(i as int).drop_first() == ls.skip(i + 1));
        if let Some((name, value)) = split_once_space(all[i]) {
            if is_text(name, key) {
                return parse_u64(trim(value));
            }
        }
        i = i + 1;
    }
    None
}

// ---------------------------------------------------------------------------
// Load and model
// ---------------------------------------------------------------------------
pub open spec fn load_error(path: Seq<char>, reason: Seq<char>) -> ErrorView {
    ErrorView::Parse { path, line: Some(1), reason }
}

/// Why the fields, of which the first stands at `idx`, are no load averages,
/// if so: the first that is no number, or not finite, decides.
pub open spec fn bad_load(path: Seq<char>, idx: nat, fields: Seq<Seq<char>>) -> Option<ErrorView>
    decreases fields.len(),
{
    if fields.len() == 0 {
        None
    } else {
        match numeral_of(fields[0]) {
            Numeral::Malformed => Some(
                load_error(
                    path,
                    "load average "@ + decimal(idx + 1) + " is not a number: "@ + quoted(
                        sanitized(fields[0], 16),
                    ),
                ),
            ),
            Numeral::NotFinite => Some(
                load_error(path, "load average "@ + decimal(idx + 1) + " is not finite"@),
            ),
            Numeral::Finite => bad_load(path, idx + 1, fields.drop_first()),
        }
    }
}

/// The first line of a text, or nothing where it has none.
pub open spec fn head_line(contents: Seq<char>) -> Seq<char> {
    let all = lines_of(contents);
    if all.len() == 0 {
        seq![]
    } else {
        all[0]
    }
}

/// What `/proc/loadavg` holds: three finite numbers at the start of its first
/// line.
pub open spec fn loadavg_of(path: Seq<char>, contents: Seq<char>) -> Result<
    LoadAvgView,
    ErrorView,
> {
    let fields = first_of(words_of(head_line(contents)), 3);
    match bad_load(path, 0, fields) {
        Some(e) => Err(e),
        None => if fields.len() < 3 {
            Err(
                load_error(
                    path,
                    "expected 3 load averages, got "@ + decimal(fields.len()),
                ),
            )
        } else {
            Ok(LoadAvgView { one: fields[0], five: fields[1], fifteen: fields[2] })
        },
    }
}

/// The three load averages of `/proc/loadavg`.
pub fn parse_loadavg(path: &str, contents: &str) -> (r: Result<LoadAvg, Error>)
    ensures
        match r {
            Ok(load) => loadavg_of(path@, contents@) == Ok::<LoadAvgView, ErrorView>(load@),
            Err(e) => loadavg_of(path@, contents@) == Err::<LoadAvgView, ErrorView>(e@),
        },
{
    let cs = chars_of(contents);
    let all = lines(cs.as_slice());
    let ghost ls = slices(all@);
    let empty: Vec<char> = Vec::new();
    let line: &[char] = if all.len() == 0 {
        empty.as_slice()
    } else {
        all[0]
    };
    assert(all.len() > 0 ==> ls[0] == all@[0]@);
    assert(line@ == head_line(contents@));
    let mut fields = words(line);
    let ghost before = fields@;
    fields.truncate(3);
    let ghost fs = slices(fields@);
    assert(fs == first_of(slices(before), 3));
    let mut i: usize = 0;
    assert(fs.skip(0) == fs);
    while i < fields.len()
        invariant
            i <= fields.len(),
            fields.len() <= 3,
            fs == slices(fields@),
            fs == first_of(words_of(head_line(contents@)), 3),
            bad_load(path@, i as nat, fs.skip(i as int)) == bad_load(path@, 0, fs),
        decreases fields.len() - i,
    {
        assert(fs.skip(i as int)[0] == fields@[i as int]@);
        assert(fs.skip(i as int).drop_first() == fs.skip(i + 1));
        match judge(fields[i]) {
            Numeral::Malformed => {
                let n = decimal_string(i as u64 + 1);
                let shown = show(fields[i], 16);
                return Err(
                    Error::parse(
                        path,
                        Some(1),
                        text4("load average ", n.as_str(), " is not a number: ", shown.as_str()),
                    ),
                );
            },
            Numeral::NotFinite => {
                let n = decimal_string(i as u64 + 1);
                return Err(
                    Error::parse(
                        path,
                        Some(1),
                        text3("load average ", n.as_str(), " is not finite"),
                    ),
                );
            },
            Numeral::Finite => {},
        }
        i = i + 1;
    }
    assert(fs.skip(i as int) == Seq::<Seq<char>>::empty());
    if fields.len() < 3 {
        let got = decimal_string(fields.len() as u64);
        return Err(
            Error::parse(path, Some(1), text2("expected 3 load averages, got ", got.as_str())),
        );
    }
    assert(fs[0] == fields@[0]@ && fs[1] == fields@[1]@ && fs[2] == fields@[2]@);
    Ok(
        LoadAvg {
            one: string_of(fields[0]),
            five: string_of(fields[1]),
            fifteen: string_of(fields[2]),
        },
    )
}

/// The model name in the lines of `/proc/cpuinfo`: what stands behind the
/// colon of the first line that names it.
pub open spec fn model_in(lines: Seq<Seq<char>>) -> Option<Seq<char>>
    decreases lines.len(),
{
    if lines.len() == 0 {
        None
    } else {
        match cut_at(lines[0], ':') {
            Some((key, value)) if trim_of(key) == "model name"@ => {
                let cleaned = sanitized(trim_of(value), MAX_MODEL_LEN as nat);
                if cleaned.len() == 0 {
                    None
                } else {
                    Some(cleaned)
                }
            },
            _ => model_in(lines.drop_first()),
        }
    }
}

/// The model name of `/proc/cpuinfo`, sanitised for display.
pub fn parse_model_name(contents: &str) -> (r: Option<String>)
    ensures
        text_option_view(r) == model_in(
            first_of(lines_of(contents@), DEFAULT_MAX_LINES as nat),
        ),
{
    let cs = chars_of(contents);
    let all = first_lines(cs.as_slice(), DEFAULT_MAX_LINES);
    let ghost ls = slices(all@);
    let mut i: usize = 0;
    assert(ls.skip(0) == ls);
    while i < all.len()
        invariant
            i <= all.len(),
            ls == slices(all@),
            ls == first_of(lines_of(contents@), DEFAULT_MAX_LINES as nat),
            model_in(ls.skip(i as int)) == model_in(ls),
        decreases all.len() - i,
    {
        assert(ls.skip(i as int)[0] == all@[i as int]@);
        assert(ls.skip(i as int).drop_first() == ls.skip(i + 1));
        if let Some((key, value)) = split_once(all[i], ':') {
            if is_text(trim(key), "model name") {
                let cleaned = sanitize(trim(value), MAX_MODEL_LEN);
                return if cleaned.as_str().is_empty() {
                    None
                } else {
                    Some(cleaned)
                };
            }
        }
        i = i + 1;
    }
    None
}

// ---------------------------------------------------------------------------
// Frequencies and cores
// ---------------------------------------------------------------------------
pub open spec fn freq_path(core: nat) -> Seq<char> {
    SYS_CPU_DIR@ + "/cpu"@ + decimal(core) + "/cpufreq/scaling_cur_freq"@
}

fn freq_file(core: usize) -> (r: String)
    ensures
        r@ == freq_path(core as nat),
{
    let n = decimal_string(core as u64);
    text4(SYS_CPU_DIR, "/cpu", n.as_str(), "/cpufreq/scaling_cur_freq")
}

/// The frequency of a core, where it can be read.
pub open spec fn frequency_of(reader: &SysfsReader, core: nat) -> Option<KiloHertz> {
    match reader.u64_at(freq_path(core)) {
        Ok(Ok(khz)) => Some(KiloHertz(khz)),
        _ => None,
    }
}

pub open spec fn at_most_cores(n: nat) -> nat {
    if n < MAX_CORES {
        n
    } else {
        MAX_CORES as nat
    }
}

pub open spec fn frequencies_of(reader: &SysfsReader, core_count: nat) -> Seq<Option<KiloHertz>> {
    Seq::new(at_most_cores(core_count), |i: int| frequency_of(reader, i as nat))
}

/// The current frequency of each core, at its number. A missing file is no
/// error: most virtual machines have none.
pub fn read_frequencies(reader: &SysfsReader, core_count: usize) -> (r: Result<
    Vec<Option<KiloHertz>>,
    Error,
>)
    ensures
        r is Ok,
        r->Ok_0@ == frequencies_of(reader, core_count as nat),
{
    let count: usize = if core_count < MAX_CORES {
        core_count
    } else {
        MAX_CORES
    };
    let mut freqs: Vec<Option<KiloHertz>> = Vec::new();
    let mut core: usize = 0;
    while core < count
        invariant
            core <= count,
            count == at_most_cores(core_count as nat),
            freqs@ == Seq::new(core as nat, |i: int| frequency_of(reader, i as nat)),
        decreases count - core,
    {
        let rel = freq_file(core);
        let freq = match reader.read_u64(rel.as_str()) {
            Ok(Ok(khz)) => Some(KiloHertz::from_khz(khz)),
            _ => None,
        };
        freqs.push(freq);
        core = core + 1;
        assert(freqs@ == Seq::new(core as nat, |i: int| frequency_of(reader, i as nat)));
    }
    Ok(freqs)
}

/// The line belongs to one core: a digit stands behind `cpu`.
pub open spec fn core_line(line: Seq<char>) -> bool {
    match without_prefix(line, "cpu"@) {
        Some(rest) => rest.len() > 0 && '0' <= rest[0] <= '9',
        None => false,
    }
}

pub open spec fn core_lines(lines: Seq<Seq<char>>) -> nat
    decreases lines.len(),
{
    if lines.len() == 0 {
        0
    } else {
        core_lines(lines.drop_last()) + if core_line(lines.last()) {
            1nat
        } else {
            0nat
        }
    }
}

pub open spec fn core_count_of(reader: &SysfsReader) -> Result<nat, ErrorView> {
    let by_stat = match reader.text_at(PROC_STAT@) {
        Err(e) => Err(e),
        Ok(Err(_)) => Ok(0nat),
        Ok(Ok(text)) => Ok(
            at_most_cores(core_lines(first_of(lines_of(text), DEFAULT_MAX_LINES as nat))),
        ),
    };
    match reader.names_at(SYS_CPU_DIR@, NameFilter::Numbered { prefix: "cpu" }) {
        Ok(Ok(names)) => if names.len() > 0 {
            Ok(at_most_cores(names.len()))
        } else {
            by_stat
        },
        _ => by_stat,
    }
}

/// Counts the cores by their directories, or by their lines in `/proc/stat`
/// where `/sys` is masked, as it is in some containers.
pub fn count_cores(reader: &SysfsReader) -> (r: Result<usize, Error>)
    ensures
        match r {
            Ok(n) => core_count_of(reader) == Ok::<nat, ErrorView>(n as nat),
            Err(e) => core_count_of(reader) == Err::<nat, ErrorView>(e@),
        },
{
    if let Ok(Ok(names)) = reader.list_dir(SYS_CPU_DIR, NameFilter::Numbered { prefix: "cpu" }) {
        assert(strings(names@).len() == names@.len());
        if names.len() > 0 {
            return Ok(
                if names.len() < MAX_CORES {
                    names.len()
                } else {
                    MAX_CORES
                },
            );
        }
    }
    let contents = match reader.read_to_string(PROC_STAT) {
        Err(e) => return Err(e),
        Ok(Err(_)) => return Ok(0),
        Ok(Ok(contents)) => contents,
    };
    let cs = chars_of(contents.as_str());
    let all = first_lines(cs.as_slice(), DEFAULT_MAX_LINES);
    let ghost ls = slices(all@);
    let mut counted: usize = 0;
    let mut i: usize = 0;
    while i < all.len()
        invariant
            i <= all.len(),
            counted <= i,
            ls == slices(all@),
            counted == core_lines(ls.take(i as int)),
        decreases all.len() - i,
    {
        assert(ls.take(i + 1).drop_last() == ls.take(i as int));
        assert(ls.take(i + 1).last() == all@[i as int]@);
        if let Some(rest) = strip_prefix(all[i], "cpu") {
            if rest.len() > 0 && '0' <= rest[0] && rest[0] <= '9' {
                counted = counted + 1;
            }
        }
        i = i + 1;
    }
    assert(ls.take(i as int) == ls);
    Ok(
        if counted < MAX_CORES {
            counted
        } else {
            MAX_CORES
        },
    )
}

// ---------------------------------------------------------------------------
// The collector
// ---------------------------------------------------------------------------
#[derive(Debug)]
pub struct CpuCollector {
    /// The number of cores, which is counted once.
    core_count: Option<usize>,
    /// The model name, which never changes.
    model: Option<String>,
}

pub struct CpuState {
    pub core_count: Option<usize>,
    pub model: Option<Seq<char>>,
}

/// `before` with one more error.
pub open spec fn with_note(before: SnapshotView, e: ErrorView) -> SnapshotView {
    SnapshotView {
        errors: before.errors.push(
            CollectorErrorView { collector: NAME@, message: message_of(e) },
        ),
        ..before
    }
}

/// The load averages, and the error that keeps them away, if any.
pub open spec fn load_read(reader: &SysfsReader) -> (Option<LoadAvgView>, Option<ErrorView>) {
    match reader.text_at(PROC_LOADAVG@) {
        Ok(Ok(text)) => match loadavg_of(PROC_LOADAVG@, text) {
            Ok(load) => (Some(load), None),
            Err(e) => (None, Some(e)),
        },
        Ok(Err(_)) => (None, None),
        Err(e) => (None, Some(e)),
    }
}

/// The model name, and the error that keeps it away, if any.
pub open spec fn model_read(reader: &SysfsReader) -> (Option<Seq<char>>, Option<ErrorView>) {
    match reader.text_at(PROC_CPUINFO@) {
        Ok(Ok(text)) => (model_in(first_of(lines_of(text), DEFAULT_MAX_LINES as nat)), None),
        Ok(Err(_)) => (None, None),
        Err(e) => (None, Some(e)),
    }
}

/// The errors that keep away the frequencies of the first `n` cores.
pub open spec fn frequency_notes(reader: &SysfsReader, n: nat) -> Seq<CollectorErrorView>
    decreases n,
{
    if n == 0 {
        seq![]
    } else {
        let before = frequency_notes(reader, (n - 1) as nat);
        match reader.u64_at(freq_path((n - 1) as nat)) {
            Err(e) => before.push(
                CollectorErrorView { collector: NAME@, message: message_of(e) },
            ),
            Ok(_) => before,
        }
    }
}

pub open spec fn noted(before: SnapshotView, e: Option<ErrorView>) -> SnapshotView {
    match e {
        Some(e) => with_note(before, e),
        None => before,
    }
}

/// What a collection does once `/proc/stat` is read and the cores are counted.
pub open spec fn cpu_filled(
    state: CpuState,
    reader: &SysfsReader,
    before: SnapshotView,
    stat: Seq<char>,
    total: CpuTimes,
    per_core: Seq<CpuTimes>,
    counted: nat,
) -> Collected<CpuState> {
    let core_count = if counted < per_core.len() {
        per_core.len()
    } else {
        counted
    };
    let frequencies_noted = SnapshotView {
        errors: before.errors + frequency_notes(reader, at_most_cores(core_count)),
        ..before
    };
    let (load_avg, load_error) = load_read(reader);
    let (model, model_error) = if state.model is Some {
        (state.model, None)
    } else {
        model_read(reader)
    };
    let lines = first_of(lines_of(stat), DEFAULT_MAX_LINES as nat);
    Collected {
        state: CpuState {
            core_count: if state.core_count is Some {
                state.core_count
            } else {
                Some(core_count as usize)
            },
            model,
        },
        snapshot: SnapshotView {
            cpu: Some(
                CpuSampleView {
                    total,
                    per_core,
                    freq_khz: frequencies_of(reader, core_count),
                    load_avg,
                    model,
                    ctxt: scalar_in(lines, "ctxt"@),
                    btime: scalar_in(lines, "btime"@),
                },
            ),
            ..noted(noted(frequencies_noted, load_error), model_error)
        },
        outcome: Ok(()),
    }
}

/// What a collection does. Without `/proc/stat` there is nothing to say;
/// frequencies, load and model are worth a note when they fail, and no more.
pub open spec fn cpu_collected(state: CpuState, reader: &SysfsReader, before: SnapshotView) -> Collected<
    CpuState,
> {
    match reader.text_at(PROC_STAT@) {
        Err(e) => Collected { state, snapshot: before, outcome: Err(e) },
        Ok(Err(_)) => Collected { state, snapshot: before, outcome: Ok(()) },
        Ok(Ok(stat)) => match proc_stat_of(PROC_STAT@, stat) {
            Err(e) => Collected { state, snapshot: before, outcome: Err(e) },
            Ok((total, per_core)) => match state.core_count {
                Some(n) => cpu_filled(state, reader, before, stat, total, per_core, n as nat),
                None => match core_count_of(reader) {
                    Err(e) => Collected { state, snapshot: before, outcome: Err(e) },
                    Ok(n) => cpu_filled(state, reader, before, stat, total, per_core, n),
                },
            },
        },
    }
}

impl CpuCollector {
    pub closed spec fn state(&self) -> CpuState {
        CpuState { core_count: self.core_count, model: text_option_view(self.model) }
    }

    pub fn new() -> (r: CpuCollector)
        ensures
            r.state() == (CpuState { core_count: None, model: None }),
    {
        CpuCollector { core_count: None, model: None }
    }

    /// Records a failure that does not stop the collection.
    fn note(snapshot: &mut Snapshot, e: Error)
        ensures
            final(snapshot)@ == with_note(old(snapshot)@, e@),
    {
        let ghost before = snapshot@.errors;
        snapshot.errors.push(CollectorError { collector: NAME, message: e.to_string() });
        assert(views(snapshot.errors@) == before.push(
            CollectorErrorView { collector: NAME@, message: message_of(e@) },
        ));
    }

    /// Records each failure that keeps the frequency of a core away.
    fn note_frequencies(reader: &SysfsReader, core_count: usize, snapshot: &mut Snapshot)
        ensures
            final(snapshot)@ == (SnapshotView {
                errors: old(snapshot)@.errors + frequency_notes(
                    reader,
                    at_most_cores(core_count as nat),
                ),
                ..old(snapshot)@
            }),
    {
        let ghost start = snapshot@;
        let count: usize = if core_count < MAX_CORES {
            core_count
        } else {
            MAX_CORES
        };
        let mut core: usize = 0;
        assert(start.errors + frequency_notes(reader, 0) == start.errors);
        while core < count
            invariant
                core <= count,
                count == at_most_cores(core_count as nat),
                snapshot@ == (SnapshotView {
                    errors: start.errors + frequency_notes(reader, core as nat),
                    ..start
                }),
            decreases count - core,
        {
            let rel = freq_file(core);
            if let Err(e) = reader.read_u64(rel.as_str()) {
                let ghost note = CollectorErrorView { collector: NAME@, message: message_of(e@) };
                Self::note(snapshot, e);
                assert((start.errors + frequency_notes(reader, core as nat)).push(note)
                    == start.errors + frequency_notes(reader, core as nat).push(note));
            }
            core = core + 1;
        }
    }
}

impl Collector for CpuCollector {
    type Model = CpuState;

    open spec fn model(&self) -> CpuState {
        self.state()
    }

    open spec fn named(state: CpuState) -> Seq<char> {
        NAME@
    }

    open spec fn usable(state: CpuState, reader: &SysfsReader) -> bool {
        reader.present(PROC_STAT@)
    }

    open spec fn collected(state: CpuState, reader: &SysfsReader, before: SnapshotView) -> Collected<
        CpuState,
    > {
        cpu_collected(state, reader, before)
    }

    fn name(&self) -> (r: &'static str) {
        NAME
    }

    fn probe(&self, reader: &SysfsReader) -> (r: bool) {
        reader.is_present(PROC_STAT)
    }

    fn collect(&mut self, reader: &SysfsReader, snapshot: &mut Snapshot) -> (r: Result<(), Error>) {
        let ghost state = self.state();
        let stat = match reader.read_to_string(PROC_STAT) {
            Err(e) => return Err(e),
            Ok(Err(_)) => return Ok(()),
            Ok(Ok(stat)) => stat,
        };
        let (total, per_core) = match parse_proc_stat(PROC_STAT, stat.as_str()) {
            Err(e) => return Err(e),
            Ok(parsed) => parsed,
        };
        let known: usize = match self.core_count {
            Some(n) => n,
            None => match count_cores(reader) {
                Err(e) => return Err(e),
                Ok(n) => n,
            },
        };
        let core_count: usize = if known < per_core.len() {
            per_core.len()
        } else {
            known
        };
        if self.core_count.is_none() {
            self.core_count = Some(core_count);
        }
        let freq_khz = match read_frequencies(reader, core_count) {
            Err(e) => return Err(e),
            Ok(freqs) => freqs,
        };
        Self::note_frequencies(reader, core_count, snapshot);
        let load_avg = match reader.read_to_string(PROC_LOADAVG) {
            Ok(Ok(contents)) => match parse_loadavg(PROC_LOADAVG, contents.as_str()) {
                Ok(load) => Some(load),
                Err(e) => {
                    Self::note(snapshot, e);
                    None
                },
            },
            Ok(Err(_)) => None,
            Err(e) => {
                Self::note(snapshot, e);
                None
            },
        };
        if self.model.is_none() {
            match reader.read_to_string(PROC_CPUINFO) {
                Ok(Ok(contents)) => {
                    self.model = parse_model_name(contents.as_str());
                },
                Ok(Err(_)) => {},
                Err(e) => {
                    Self::note(snapshot, e);
                },
            }
        }
        let model: Option<String> = match &self.model {
            Some(name) => Some(name.clone()),
            None => None,
        };
        snapshot.cpu = Some(
            CpuSample {
                total,
                per_core,
                freq_khz,
                load_avg,
                model,
                ctxt: parse_scalar_line(stat.as_str(), "ctxt"),
                btime: parse_scalar_line(stat.as_str(), "btime"),
            },
        );
        Ok(())
    }
}

/// Where the counters can be read they are reported, whatever became of the
/// load averages, the model name and the frequencies.
pub proof fn counters_survive_lost_decorations(
    state: CpuState,
    reader: &SysfsReader,
    before: SnapshotView,
)
    requires
        reader.text_at(PROC_STAT@) matches Ok(Ok(stat)) && proc_stat_of(PROC_STAT@, stat) is Ok,
    ensures
        cpu_collected(state, reader, before).outcome is Ok,
        cpu_collected(state, reader, before).snapshot.cpu matches Some(cpu) && (
        reader.text_at(PROC_STAT@) matches Ok(Ok(stat)) && proc_stat_of(PROC_STAT@, stat) == Ok::<
            (CpuTimes, Seq<CpuTimes>),
            ErrorView,
        >((cpu.total, cpu.per_core))),
{
}

} // verus!
