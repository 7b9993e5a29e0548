//! What `/proc/meminfo` and `/proc/stat` come to: each figure is that of the line
//! that names it.

use vstd::prelude::*;

use crate::collectors::cpu::{
    core_times, counters, cpu_collected, cpu_times_of, loadavg_of, model_in, proc_stat_of,
    scalar_in, stat_line, stat_lines, CpuState, StatSoFar,
};
use crate::collectors::memory::{
    meminfo_line_of, meminfo_lines, meminfo_of, with_entry, MeminfoSoFar,
};
use crate::collectors::tables::{holds_text, writes};
use crate::error::ErrorView;
use crate::number::{decimal, parse_of};
use crate::numeral::lowered;
use crate::sample::{no_memory, no_times, CpuTimes, SnapshotView};
use crate::sysfs::{sanitized, SysfsReader};
use crate::text::{
    begins, cut_at, cut_at_space, first_of, index_of, lemma_index_of, lines_of, trim_of, words_of,
};
use crate::units::Bytes;

verus! {

// ---------------------------------------------------------------------------
// Memory
// ---------------------------------------------------------------------------
/// A line of sizes: the name up to the first colon, and behind it a number of
/// units of 1024 bytes.
pub proof fn sizes_are_in_kib(path: Seq<char>, line_no: usize, line: Seq<char>)
    ensures
        meminfo_line_of(path, line_no, line) matches Ok(Some((key, bytes))) ==> exists|p: int|
            0 <= p < line.len() && #[trigger] line[p] == ':' && (forall|q: int|
                0 <= q < p ==> line[q] != ':') && key == trim_of(line.take(p)) && ({
                let w = words_of(line.skip(p + 1));
                &&& w.len() >= 2
                &&& lowered(w[1]) == "kb"@
                &&& bytes.0 % 1024 == 0
                &&& writes(w[0], (bytes.0 / 1024) as u64)
            }),
{
    if let Ok(Some((key, bytes))) = meminfo_line_of(path, line_no, line) {
        lemma_index_of(line, ':');
        let p = index_of(line, ':') as int;
        let w = words_of(line.skip(p + 1));
        let n = parse_of(w[0], 10, u64::MAX as nat)->0;
        assert(bytes.0 == n * 1024);
        assert(line[p] == ':');
        assert(writes(w[0], (bytes.0 / 1024) as u64));
    }
}

/// The line at `k` gives that size under that name; the first of the lines has
/// the number `line_no`.
pub open spec fn gives(
    path: Seq<char>,
    line_no: nat,
    lines: Seq<Seq<char>>,
    k: int,
    key: Seq<char>,
    bytes: Bytes,
) -> bool {
    &&& 0 <= k < lines.len()
    &&& trim_of(lines[k]).len() > 0
    &&& meminfo_line_of(path, (line_no + k) as usize, lines[k]) == Ok::<
        Option<(Seq<char>, Bytes)>,
        ErrorView,
    >(Some((key, bytes)))
}

/// The last line with that name gives that size.
pub open spec fn gives_last(
    path: Seq<char>,
    line_no: nat,
    lines: Seq<Seq<char>>,
    key: Seq<char>,
    bytes: Bytes,
) -> bool {
    exists|k: int| #[trigger]
        gives(path, line_no, lines, k, key, bytes) && forall|j: int, other: Bytes|
            k < j ==> !#[trigger] gives(path, line_no, lines, j, key, other)
}

/// No line has that name.
pub open spec fn gives_none(
    path: Seq<char>,
    line_no: nat,
    lines: Seq<Seq<char>>,
    key: Seq<char>,
) -> bool {
    forall|k: int, bytes: Bytes| !#[trigger] gives(path, line_no, lines, k, key, bytes)
}

spec fn slot(m: MeminfoSoFar, key: Seq<char>) -> Bytes {
    if key == "MemTotal"@ {
        m.sample.total
    } else if key == "MemFree"@ {
        m.sample.free
    } else if key == "MemAvailable"@ {
        match m.available {
            Some(bytes) => bytes,
            None => Bytes(0),
        }
    } else if key == "Buffers"@ {
        m.sample.buffers
    } else if key == "Cached"@ {
        m.sample.cached
    } else if key == "SwapTotal"@ {
        m.sample.swap_total
    } else {
        m.sample.swap_free
    }
}

spec fn known(key: Seq<char>) -> bool {
    ||| key == "MemTotal"@
    ||| key == "MemFree"@
    ||| key == "MemAvailable"@
    ||| key == "Buffers"@
    ||| key == "Cached"@
    ||| key == "SwapTotal"@
    ||| key == "SwapFree"@
}

proof fn lemma_keys_differ()
    ensures
        "MemTotal"@ != "MemFree"@,
        "MemTotal"@ != "MemAvailable"@,
        "MemTotal"@ != "Buffers"@,
        "MemTotal"@ != "Cached"@,
        "MemTotal"@ != "SwapTotal"@,
        "MemTotal"@ != "SwapFree"@,
        "MemFree"@ != "MemAvailable"@,
        "MemFree"@ != "Buffers"@,
        "MemFree"@ != "Cached"@,
        "MemFree"@ != "SwapTotal"@,
        "MemFree"@ != "SwapFree"@,
        "MemAvailable"@ != "Buffers"@,
        "MemAvailable"@ != "Cached"@,
        "MemAvailable"@ != "SwapTotal"@,
        "MemAvailable"@ != "SwapFree"@,
        "Buffers"@ != "Cached"@,
        "Buffers"@ != "SwapTotal"@,
        "Buffers"@ != "SwapFree"@,
        "Cached"@ != "SwapTotal"@,
        "Cached"@ != "SwapFree"@,
        "SwapTotal"@ != "SwapFree"@,
{
    reveal_strlit("MemTotal");
    reveal_strlit("MemFree");
    reveal_strlit("MemAvailable");
    reveal_strlit("Buffers");
    reveal_strlit("Cached");
    reveal_strlit("SwapTotal");
    reveal_strlit("SwapFree");
    assert("MemTotal"@.len() == 8);
    assert("MemFree"@.len() == 7);
    assert("MemAvailable"@.len() == 12);
    assert("Buffers"@.len() == 7);
    assert("Cached"@.len() == 6);
    assert("SwapTotal"@.len() == 9);
    assert("SwapFree"@.len() == 8);
    assert("MemFree"@[0] != "Buffers"@[0]);
    assert("MemTotal"@[0] != "SwapFree"@[0]);
}

proof fn lemma_slot(before: MeminfoSoFar, key: Seq<char>, other: Seq<char>, bytes: Bytes)
    requires
        known(key),
    ensures
        slot(with_entry(before, other, bytes), key) == (if other == key {
            bytes
        } else {
            slot(before, key)
        }),
{
    lemma_keys_differ();
}

proof fn lemma_next(
    path: Seq<char>,
    line_no: nat,
    lines: Seq<Seq<char>>,
    k: int,
    key: Seq<char>,
    bytes: Bytes,
)
    requires
        lines.len() > 0,
        1 <= k,
    ensures
        gives(path, line_no, lines, k, key, bytes) == gives(
            path,
            line_no + 1,
            lines.drop_first(),
            k - 1,
            key,
            bytes,
        ),
{
    if k < lines.len() {
        assert(lines.drop_first()[k - 1] == lines[k]);
    }
}

proof fn lemma_figure(
    path: Seq<char>,
    line_no: nat,
    lines: Seq<Seq<char>>,
    before: MeminfoSoFar,
    key: Seq<char>,
)
    requires
        known(key),
        meminfo_lines(path, line_no, lines, before) is Ok,
    ensures
        ({
            let m = meminfo_lines(path, line_no, lines, before)->Ok_0;
            ||| gives_last(path, line_no, lines, key, slot(m, key)) && (key == "MemAvailable"@
                ==> m.available is Some)
            ||| gives_none(path, line_no, lines, key) && slot(m, key) == slot(before, key) && (key
                == "MemAvailable"@ ==> m.available == before.available)
        }),
    decreases lines.len(),
{
    lemma_keys_differ();
    if lines.len() > 0 {
        let rest = lines.drop_first();
        let m = meminfo_lines(path, line_no, lines, before)->Ok_0;
        let v = slot(m, key);
        let here = meminfo_line_of(path, line_no as usize, lines[0]);
        let after = if trim_of(lines[0]).len() == 0 {
            before
        } else {
            match here->Ok_0 {
                None => before,
                Some((other, bytes)) => with_entry(before, other, bytes),
            }
        };
        lemma_figure(path, line_no + 1, rest, after, key);
        assert forall|k: int, b: Bytes| 1 <= k implies #[trigger] gives(
            path,
            line_no,
            lines,
            k,
            key,
            b,
        ) == gives(path, line_no + 1, rest, k - 1, key, b) by {
            lemma_next(path, line_no, lines, k, key, b);
        }
        if gives_last(path, line_no + 1, rest, key, v) {
            let k = choose|k: int| #[trigger]
                gives(path, line_no + 1, rest, k, key, v) && forall|j: int, other: Bytes|
                    k < j ==> !#[trigger] gives(path, line_no + 1, rest, j, key, other);
            assert(gives(path, line_no, lines, k + 1, key, v));
            assert forall|j: int, other: Bytes| k + 1 < j implies !#[trigger] gives(
                path,
                line_no,
                lines,
                j,
                key,
                other,
            ) by {
                assert(!gives(path, line_no + 1, rest, j - 1, key, other));
            }
        } else {
            assert(gives_none(path, line_no + 1, rest, key));
            assert forall|j: int, other: Bytes| 0 < j implies !#[trigger] gives(
                path,
                line_no,
                lines,
                j,
                key,
                other,
            ) by {
                assert(!gives(path, line_no + 1, rest, j - 1, key, other));
            }
            if trim_of(lines[0]).len() > 0 && here->Ok_0 is Some {
                let (other, bytes) = here->Ok_0->0;
                lemma_slot(before, key, other, bytes);
                if other == key {
                    assert(gives(path, line_no, lines, 0, key, v));
                    assert(gives_last(path, line_no, lines, key, v));
                } else {
                    assert(gives_none(path, line_no, lines, key));
                }
            } else {
                assert(gives_none(path, line_no, lines, key));
            }
        }
    } else {
        assert(gives_none(path, line_no, lines, key));
    }
}

/// The figure is that of the last line with its name, and nothing where there is
/// no such line.
pub open spec fn figures(path: Seq<char>, lines: Seq<Seq<char>>, key: Seq<char>, bytes: Bytes) -> bool {
    gives_last(path, 1, lines, key, bytes) || (gives_none(path, 1, lines, key) && bytes == Bytes(0))
}

/// Each figure of the memory is that of the line with its name. Where nothing is
/// said of what is available, that is what is free, buffered and cached.
pub proof fn memory_is_read_by_its_names(path: Seq<char>, contents: Seq<char>)
    ensures
        meminfo_of(path, contents) matches Ok(m) ==> ({
            let lines = first_of(lines_of(contents), 65_536);
            &&& exists|k: int, b: Bytes| #[trigger] gives(path, 1, lines, k, "MemTotal"@, b)
            &&& figures(path, lines, "MemTotal"@, m.total)
            &&& figures(path, lines, "MemFree"@, m.free)
            &&& figures(path, lines, "Buffers"@, m.buffers)
            &&& figures(path, lines, "Cached"@, m.cached)
            &&& figures(path, lines, "SwapTotal"@, m.swap_total)
            &&& figures(path, lines, "SwapFree"@, m.swap_free)
            &&& gives_last(path, 1, lines, "MemAvailable"@, m.available) || (gives_none(
                path,
                1,
                lines,
                "MemAvailable"@,
            ) && (m.available.0 == m.free.0 + m.buffers.0 + m.cached.0 || (m.available.0 == u64::MAX
                && m.free.0 + m.buffers.0 + m.cached.0 > u64::MAX)))
        }),
{
    let lines = first_of(lines_of(contents), 65_536);
    let start = MeminfoSoFar { sample: no_memory(), available: None, seen_total: false };
    if let Ok(m) = meminfo_of(path, contents) {
        lemma_keys_differ();
        lemma_figure(path, 1, lines, start, "MemTotal"@);
        lemma_figure(path, 1, lines, start, "MemFree"@);
        lemma_figure(path, 1, lines, start, "MemAvailable"@);
        lemma_figure(path, 1, lines, start, "Buffers"@);
        lemma_figure(path, 1, lines, start, "Cached"@);
        lemma_figure(path, 1, lines, start, "SwapTotal"@);
        lemma_figure(path, 1, lines, start, "SwapFree"@);
        lemma_total_seen(path, 1, lines, start);
    }
}

proof fn lemma_total_seen(
    path: Seq<char>,
    line_no: nat,
    lines: Seq<Seq<char>>,
    before: MeminfoSoFar,
)
    requires
        meminfo_lines(path, line_no, lines, before) matches Ok(m) && m.seen_total,
        !before.seen_total,
    ensures
        exists|k: int, b: Bytes| #[trigger] gives(path, line_no, lines, k, "MemTotal"@, b),
    decreases lines.len(),
{
    if lines.len() > 0 {
        let rest = lines.drop_first();
        let here = meminfo_line_of(path, line_no as usize, lines[0]);
        if trim_of(lines[0]).len() > 0 && here->Ok_0 is Some && (here->Ok_0->0).0 == "MemTotal"@ {
            assert(gives(path, line_no, lines, 0, "MemTotal"@, (here->Ok_0->0).1));
        } else {
            let after = if trim_of(lines[0]).len() == 0 || here->Ok_0 is None {
                before
            } else {
                with_entry(before, (here->Ok_0->0).0, (here->Ok_0->0).1)
            };
            lemma_total_seen(path, line_no + 1, rest, after);
            let (k, b) = choose|k: int, b: Bytes| #[trigger]
                gives(path, line_no + 1, rest, k, "MemTotal"@, b);
            lemma_next(path, line_no, lines, k + 1, "MemTotal"@, b);
        }
    }
}

// ---------------------------------------------------------------------------
// Processor
// ---------------------------------------------------------------------------
proof fn lemma_cpu_counters(path: Seq<char>, line_no: usize, idx: nat, fields: Seq<Seq<char>>)
    requires
        counters(path, line_no, idx, fields) is Ok,
    ensures
        counters(path, line_no, idx, fields)->Ok_0.len() == fields.len(),
        forall|k: int|
            0 <= k < fields.len() ==> writes(
                #[trigger] fields[k],
                counters(path, line_no, idx, fields)->Ok_0[k],
            ),
    decreases fields.len(),
{
    if fields.len() > 0 {
        let rest = fields.drop_first();
        lemma_cpu_counters(path, line_no, idx + 1, rest);
        let all = counters(path, line_no, idx, fields)->Ok_0;
        let tail = counters(path, line_no, idx + 1, rest)->Ok_0;
        assert forall|k: int| 0 <= k < fields.len() implies writes(#[trigger] fields[k], all[k]) by {
            if k > 0 {
                assert(rest[k - 1] == fields[k]);
                assert(all[k] == tail[k - 1]);
            }
        }
    }
}

/// The word at that place writes the counter, or there is no such word and the
/// counter is zero.
pub open spec fn column_of(w: Seq<Seq<char>>, k: int, n: u64) -> bool {
    if k < w.len() {
        writes(w[k], n)
    } else {
        n == 0
    }
}

/// Each counter of a processor is read from its own column.
pub proof fn times_are_read_by_their_columns(path: Seq<char>, line_no: usize, fields: Seq<char>)
    ensures
        cpu_times_of(path, line_no, fields) matches Ok(t) ==> ({
            let w = words_of(fields);
            &&& w.len() >= 4
            &&& column_of(w, 0, t.user)
            &&& column_of(w, 1, t.nice)
            &&& column_of(w, 2, t.system)
            &&& column_of(w, 3, t.idle)
            &&& column_of(w, 4, t.iowait)
            &&& column_of(w, 5, t.irq)
            &&& column_of(w, 6, t.softirq)
            &&& column_of(w, 7, t.steal)
            &&& column_of(w, 8, t.guest)
            &&& column_of(w, 9, t.guest_nice)
        }),
{
    let w = words_of(fields);
    let used = first_of(w, 10);
    if let Ok(t) = cpu_times_of(path, line_no, fields) {
        lemma_cpu_counters(path, line_no, 0, used);
        assert forall|k: int| 0 <= k < used.len() implies #[trigger] used[k] == w[k] by {}
        assert(used.len() == w.len() || used.len() == 10);
        assert(column_of(used, 0, t.user) && column_of(used, 1, t.nice) && column_of(
            used,
            2,
            t.system,
        ) && column_of(used, 3, t.idle) && column_of(used, 4, t.iowait) && column_of(
            used,
            5,
            t.irq,
        ) && column_of(used, 6, t.softirq) && column_of(used, 7, t.steal) && column_of(
            used,
            8,
            t.guest,
        ) && column_of(used, 9, t.guest_nice));
    }
}

/// The line at `k` has the counters of the core with that number: `cpu`, the
/// number, white space, and counters.
pub open spec fn counts_core(
    path: Seq<char>,
    line_no: nat,
    lines: Seq<Seq<char>>,
    k: int,
    n: int,
    times: CpuTimes,
) -> bool {
    &&& 0 <= k < lines.len()
    &&& begins(lines[k], "cpu"@)
    &&& !begins(lines[k].skip(3), " "@)
    &&& cut_at_space(lines[k].skip(3)) matches Some((index, fields)) && parse_of(
        index,
        10,
        usize::MAX as nat,
    ) == Some(n as nat) && cpu_times_of(path, (line_no + k) as usize, fields) == Ok::<
        CpuTimes,
        ErrorView,
    >(times)
}

/// The line at `k` has the counters of all processors together: `cpu`, a blank,
/// and counters.
pub open spec fn counts_all(
    path: Seq<char>,
    line_no: nat,
    lines: Seq<Seq<char>>,
    k: int,
    times: CpuTimes,
) -> bool {
    &&& 0 <= k < lines.len()
    &&& begins(lines[k], "cpu"@)
    &&& begins(lines[k].skip(3), " "@)
    &&& cpu_times_of(path, (line_no + k) as usize, lines[k].skip(3).skip(1)) == Ok::<
        CpuTimes,
        ErrorView,
    >(times)
}

spec fn core_at(stat: StatSoFar, n: int) -> Option<CpuTimes> {
    if 0 <= n < stat.cores.len() {
        stat.cores[n]
    } else {
        None
    }
}

proof fn lemma_stat_line(path: Seq<char>, line_no: nat, lines: Seq<Seq<char>>, before: StatSoFar, n: int)
    requires
        lines.len() > 0,
        n >= 0,
        stat_line(path, line_no as usize, lines[0], before) is Ok,
    ensures
        ({
            let after = stat_line(path, line_no as usize, lines[0], before)->Ok_0;
            &&& forall|t: CpuTimes| #[trigger]
                counts_core(path, line_no, lines, 0, n, t) ==> core_at(after, n) == Some(t)
            &&& (forall|t: CpuTimes| !#[trigger] counts_core(path, line_no, lines, 0, n, t))
                ==> core_at(after, n) == core_at(before, n)
            &&& forall|t: CpuTimes| #[trigger]
                counts_all(path, line_no, lines, 0, t) ==> after.total == Some(t)
            &&& (forall|t: CpuTimes| !#[trigger] counts_all(path, line_no, lines, 0, t))
                ==> after.total == before.total
        }),
{
    reveal_strlit("cpu");
    reveal_strlit(" ");
    let line = lines[0];
    let after = stat_line(path, line_no as usize, line, before)->Ok_0;
    if begins(line, "cpu"@) {
        let rest = line.skip(3);
        if begins(rest, " "@) {
            let t = cpu_times_of(path, line_no as usize, rest.skip(1))->Ok_0;
            assert(counts_all(path, line_no, lines, 0, t));
        } else if let Some((index, fields)) = cut_at_space(rest) {
            let m = parse_of(index, 10, usize::MAX as nat)->0;
            let t = cpu_times_of(path, line_no as usize, fields)->Ok_0;
            assert(counts_core(path, line_no, lines, 0, m as int, t));
        }
    }
}

proof fn lemma_stat_next(path: Seq<char>, line_no: nat, lines: Seq<Seq<char>>, k: int, n: int, t: CpuTimes)
    requires
        lines.len() > 0,
        1 <= k,
    ensures
        counts_core(path, line_no, lines, k, n, t) == counts_core(
            path,
            line_no + 1,
            lines.drop_first(),
            k - 1,
            n,
            t,
        ),
        counts_all(path, line_no, lines, k, t) == counts_all(
            path,
            line_no + 1,
            lines.drop_first(),
            k - 1,
            t,
        ),
{
    if k < lines.len() {
        assert(lines.drop_first()[k - 1] == lines[k]);
    }
}

/// Lines that do not speak of a core leave its counters alone.
proof fn lemma_other_lines(path: Seq<char>, line_no: nat, lines: Seq<Seq<char>>, before: StatSoFar, n: int)
    requires
        n >= 0,
        stat_lines(path, line_no, lines, before) is Ok,
    ensures
        (forall|k: int, t: CpuTimes| !#[trigger] counts_core(path, line_no, lines, k, n, t))
            ==> core_at(stat_lines(path, line_no, lines, before)->Ok_0, n) == core_at(before, n),
        (forall|k: int, t: CpuTimes| !#[trigger] counts_all(path, line_no, lines, k, t))
            ==> stat_lines(path, line_no, lines, before)->Ok_0.total == before.total,
    decreases lines.len(),
{
    if lines.len() > 0 {
        let rest = lines.drop_first();
        let after = stat_line(path, line_no as usize, lines[0], before)->Ok_0;
        lemma_stat_line(path, line_no, lines, before, n);
        lemma_other_lines(path, line_no + 1, rest, after, n);
        if forall|k: int, t: CpuTimes| !#[trigger] counts_core(path, line_no, lines, k, n, t) {
            assert forall|k: int, t: CpuTimes| !#[trigger] counts_core(
                path,
                line_no + 1,
                rest,
                k,
                n,
                t,
            ) by {
                if k >= 0 {
                    lemma_stat_next(path, line_no, lines, k + 1, n, t);
                }
            }
        }
        if forall|k: int, t: CpuTimes| !#[trigger] counts_all(path, line_no, lines, k, t) {
            assert forall|k: int, t: CpuTimes| !#[trigger] counts_all(
                path,
                line_no + 1,
                rest,
                k,
                t,
            ) by {
                if k >= 0 {
                    lemma_stat_next(path, line_no, lines, k + 1, n, t);
                }
            }
        }
    }
}

/// The last line that speaks of a core decides.
proof fn lemma_last_line(
    path: Seq<char>,
    line_no: nat,
    lines: Seq<Seq<char>>,
    before: StatSoFar,
    k: int,
    n: int,
    t: CpuTimes,
)
    requires
        n >= 0,
        stat_lines(path, line_no, lines, before) is Ok,
    ensures
        counts_core(path, line_no, lines, k, n, t) && (forall|j: int, other: CpuTimes|
            k < j ==> !#[trigger] counts_core(path, line_no, lines, j, n, other)) ==> core_at(
            stat_lines(path, line_no, lines, before)->Ok_0,
            n,
        ) == Some(t),
        counts_all(path, line_no, lines, k, t) && (forall|j: int, other: CpuTimes|
            k < j ==> !#[trigger] counts_all(path, line_no, lines, j, other)) ==> stat_lines(
            path,
            line_no,
            lines,
            before,
        )->Ok_0.total == Some(t),
    decreases lines.len(),
{
    if 0 <= k < lines.len() {
        let rest = lines.drop_first();
        let after = stat_line(path, line_no as usize, lines[0], before)->Ok_0;
        lemma_stat_line(path, line_no, lines, before, n);
        assert forall|j: int, other: CpuTimes| 1 <= j implies #[trigger] counts_core(
            path,
            line_no,
            lines,
            j,
            n,
            other,
        ) == counts_core(path, line_no + 1, rest, j - 1, n, other) by {
            lemma_stat_next(path, line_no, lines, j, n, other);
        }
        assert forall|j: int, other: CpuTimes| 1 <= j implies #[trigger] counts_all(
            path,
            line_no,
            lines,
            j,
            other,
        ) == counts_all(path, line_no + 1, rest, j - 1, other) by {
            lemma_stat_next(path, line_no, lines, j, n, other);
        }
        if forall|j: int, other: CpuTimes|
            k < j ==> !#[trigger] counts_core(path, line_no, lines, j, n, other) {
            assert forall|j: int, other: CpuTimes| k - 1 < j && 0 <= j implies !#[trigger] counts_core(
                path,
                line_no + 1,
                rest,
                j,
                n,
                other,
            ) by {
                assert(!counts_core(path, line_no, lines, j + 1, n, other));
            }
        }
        if forall|j: int, other: CpuTimes|
            k < j ==> !#[trigger] counts_all(path, line_no, lines, j, other) {
            assert forall|j: int, other: CpuTimes| k - 1 < j && 0 <= j implies !#[trigger] counts_all(
                path,
                line_no + 1,
                rest,
                j,
                other,
            ) by {
                assert(!counts_all(path, line_no, lines, j + 1, other));
            }
        }
        if k == 0 {
            lemma_other_lines(path, line_no + 1, rest, after, n);
        } else {
            lemma_last_line(path, line_no + 1, rest, after, k - 1, n, t);
        }
    }
}

/// The counters at a number are those of the last line with that number, and
/// those of all processors those of the last line without one.
pub proof fn cores_are_read_by_their_number(
    path: Seq<char>,
    contents: Seq<char>,
    k: int,
    n: int,
    t: CpuTimes,
)
    requires
        n >= 0,
    ensures
        proc_stat_of(path, contents) matches Ok((total, cores)) ==> ({
            let lines = first_of(lines_of(contents), 65_536);
            &&& counts_core(path, 1, lines, k, n, t) && (forall|j: int, other: CpuTimes|
                k < j ==> !#[trigger] counts_core(path, 1, lines, j, n, other)) ==> n < cores.len()
                && cores[n] == t
            &&& n < cores.len() && (forall|j: int, other: CpuTimes|
                !#[trigger] counts_core(path, 1, lines, j, n, other)) ==> cores[n] == no_times()
            &&& counts_all(path, 1, lines, k, t) && (forall|j: int, other: CpuTimes|
                k < j ==> !#[trigger] counts_all(path, 1, lines, j, other)) ==> total == t
        }),
{
    if let Ok((total, cores)) = proc_stat_of(path, contents) {
        let lines = first_of(lines_of(contents), 65_536);
        let start = StatSoFar { total: None, cores: seq![] };
        let stat = stat_lines(path, 1, lines, start)->Ok_0;
        lemma_other_lines(path, 1, lines, start, n);
        lemma_last_line(path, 1, lines, start, k, n, t);
        if n < cores.len() {
            assert(cores[n] == core_times(stat.cores[n]));
        }
    }
}

/// A figure of `/proc/stat` is the number behind the first line with its name.
pub proof fn scalars_are_read_by_their_name(lines: Seq<Seq<char>>, key: Seq<char>, k: int)
    requires
        0 <= k < lines.len(),
        cut_at_space(lines[k]) matches Some((name, _)) && name == key,
        forall|j: int|
            0 <= j < k ==> !(cut_at_space(#[trigger] lines[j]) matches Some((name, _)) && name
                == key),
    ensures
        match scalar_in(lines, key) {
            Some(n) => writes(trim_of((cut_at_space(lines[k])->0).1), n),
            None => parse_of(trim_of((cut_at_space(lines[k])->0).1), 10, u64::MAX as nat) is None,
        },
    decreases lines.len(),
{
    if k > 0 {
        let rest = lines.drop_first();
        assert(rest[k - 1] == lines[k]);
        assert(!(cut_at_space(lines[0]) matches Some((name, _)) && name == key));
        assert forall|j: int| 0 <= j < k - 1 implies !(cut_at_space(#[trigger] rest[j]) matches Some(
            (name, _),
        ) && name == key) by {
            assert(rest[j] == lines[j + 1]);
        }
        scalars_are_read_by_their_name(rest, key, k - 1);
    }
}

/// The load averages are the first three words of the first line.
pub proof fn loads_are_the_first_words(path: Seq<char>, contents: Seq<char>)
    ensures
        loadavg_of(path, contents) matches Ok(l) ==> ({
            let w = words_of(lines_of(contents)[0]);
            &&& lines_of(contents).len() > 0
            &&& w.len() >= 3
            &&& l.one == w[0]
            &&& l.five == w[1]
            &&& l.fifteen == w[2]
        }),
{
    if let Ok(l) = loadavg_of(path, contents) {
        if lines_of(contents).len() == 0 {
            assert(words_of(Seq::<char>::empty()).len() == 0);
        }
    }
}

/// The model is what stands behind the colon of the first line that names it.
pub proof fn the_model_is_read_by_its_name(lines: Seq<Seq<char>>, k: int)
    requires
        0 <= k < lines.len(),
        cut_at(lines[k], ':') matches Some((name, _)) && trim_of(name) == "model name"@,
        forall|j: int|
            0 <= j < k ==> !(cut_at(#[trigger] lines[j], ':') matches Some((name, _)) && trim_of(name)
                == "model name"@),
    ensures
        ({
            let text = sanitized(trim_of((cut_at(lines[k], ':')->0).1), 128);
            model_in(lines) == if text.len() == 0 {
                None
            } else {
                Some(text)
            }
        }),
    decreases lines.len(),
{
    if k > 0 {
        let rest = lines.drop_first();
        assert(rest[k - 1] == lines[k]);
        assert(!(cut_at(lines[0], ':') matches Some((name, _)) && trim_of(name) == "model name"@));
        assert forall|j: int| 0 <= j < k - 1 implies !(cut_at(#[trigger] rest[j], ':') matches Some(
            (name, _),
        ) && trim_of(name) == "model name"@) by {
            assert(rest[j] == lines[j + 1]);
        }
        the_model_is_read_by_its_name(rest, k - 1);
    }
}

/// After a collection that succeeds, the counters are those of `/proc/stat`, the
/// frequency at a number is that of the core's own file, and the load is that of
/// its file.
pub proof fn the_processor_is_read_from_its_files(
    state: CpuState,
    reader: &SysfsReader,
    before: SnapshotView,
    stat: Seq<char>,
    i: int,
)
    requires
        cpu_collected(state, reader, before).outcome is Ok,
        holds_text(reader, "proc/stat"@, stat),
    ensures
        cpu_collected(state, reader, before).snapshot.cpu matches Some(cpu) && proc_stat_of(
            "proc/stat"@,
            stat,
        ) == Ok::<(CpuTimes, Seq<CpuTimes>), ErrorView>((cpu.total, cpu.per_core)) && (0 <= i
            < cpu.freq_khz.len() ==> match reader.u64_at(
            "sys/devices/system/cpu"@ + "/cpu"@ + decimal(i as nat)
                + "/cpufreq/scaling_cur_freq"@,
        ) {
            Ok(Ok(khz)) => cpu.freq_khz[i] matches Some(f) && f.0 == khz,
            _ => cpu.freq_khz[i] is None,
        }) && (cpu.per_core.len() <= 4096 ==> cpu.per_core.len() <= cpu.freq_khz.len())
            && (cpu.load_avg matches Some(l) ==> exists|text: Seq<char>|
            #![trigger holds_text(reader, "proc/loadavg"@, text)]
            holds_text(reader, "proc/loadavg"@, text) && loadavg_of("proc/loadavg"@, text) == Ok::<
                crate::sample::LoadAvgView,
                ErrorView,
            >(l)) && cpu.ctxt == scalar_in(first_of(lines_of(stat), 65_536), "ctxt"@) && cpu.btime
            == scalar_in(first_of(lines_of(stat), 65_536), "btime"@),
{
    let cpu = cpu_collected(state, reader, before).snapshot.cpu->0;
    if cpu.load_avg is Some {
        let text = reader.text_at("proc/loadavg"@)->Ok_0->Ok_0;
        assert(holds_text(reader, "proc/loadavg"@, text));
    }
}

} // verus!
