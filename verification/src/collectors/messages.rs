//! What errors say. A message names a path and quotes what was found there, and
//! neither brings a control character to whoever reads it.

use vstd::prelude::*;

use crate::collector::{all_collected, with_failure, Collector};
use crate::collectors::any::{AnyCollector, AnyState};
use crate::collectors::clean::{clean_cards, clean_state, lemma_known_cards, lemma_safe_names};
use crate::collectors::connections::{
    self, all_sockets_of, column, connections_collected, shown_field, socket_line_of, socket_lines,
    sockets_of_table, table_lines, table_of, PROC_TCP, PROC_TCP6, PROC_UDP, PROC_UDP6,
};
use crate::collectors::counters::{counters_of, numbers};
use crate::collectors::cpu::{
    self, at_most_cores, bad_load, core_count_of, counters, cpu_collected, cpu_filled,
    cpu_times_of, freq_path, frequency_notes, head_line, load_read, loadavg_of, model_read,
    proc_stat_of, stat_line, stat_lines, CpuState, StatSoFar, PROC_CPUINFO, PROC_LOADAVG,
    PROC_STAT, SYS_CPU_DIR,
};
use crate::collectors::disk::{
    self, disk_collected, disk_line_of, disk_lines, diskstats_of, mount_line_of, mount_lines,
    mounts_of, DISKSTATS_FIELDS, PROC_DISKSTATS, PROC_MOUNTS,
};
use crate::collectors::gpu::amd::{amd_card_of, hwmon_dir_of};
use crate::collectors::gpu::intel::intel_card_of;
use crate::collectors::gpu::nvidia::note_of;
use crate::collectors::gpu::{
    self, card_of, cards_of, cards_read, device_path, gpu_collected, known_cards, CardView,
    SYS_CLASS_DRM,
};
use crate::collectors::memory::{
    self, meminfo_line_of, meminfo_lines, meminfo_of, memory_collected, MeminfoSoFar, PROC_MEMINFO,
};
use crate::collectors::net::{
    self, data_lines, net_collected, net_dev_of, net_line_of, net_lines, NET_DEV_FIELDS,
    PROC_NET_DEV,
};
use crate::collectors::thermal::{
    self, cached_chips_of, chip_dirs_of, chip_of, chip_path, chips_in, listed_dirs,
    sensor_indices_of, thermal_collected, thermal_zones_of, SYS_HWMON, SYS_THERMAL,
};
use crate::error::{message_of, ErrorView, IoFailure};
use crate::number::{decimal, digit_of, lemma_decimal_digits};
use crate::render::calm::{clean, clean_errors};
use crate::sample::{no_memory, CollectorErrorView, ConnProtocol, SnapshotView};
use crate::sysfs::{
    components_of, joined, listings_are_safe_and_sorted, path_error, quoted, recorded_of, refusal,
    sanitized, sanitized_text_is_inert, NameFilter, PathFacts, SysfsReader, DEFAULT_MAX_LINES,
};
use crate::text::{first_of, lines_of, words_of};

verus! {

// ---------------------------------------------------------------------------
// Where messages come from
// ---------------------------------------------------------------------------
/// Quoting text without control characters puts none into it.
pub open spec fn quotes_stay_clean() -> bool {
    forall|s: Seq<char>| clean(s) ==> clean(#[trigger] quoted(s))
}

/// The message of a failure, if it is one, holds no control character.
pub open spec fn clean_failure<T>(r: Result<T, IoFailure>) -> bool {
    r matches Err(source) ==> clean(source.message@)
}

/// Neither what a path resolves to nor what the system says of a failure holds
/// a control character.
pub open spec fn clean_facts(f: PathFacts) -> bool {
    &&& f.canonical matches Ok(path) ==> clean(path@)
    &&& clean_failure(f.canonical)
    &&& clean_failure(f.contents)
    &&& clean_failure(f.entries)
}

/// The root holds no control character, nor does any path or failure that was
/// recorded. Of what files hold nothing is said.
pub open spec fn clean_source(reader: &SysfsReader) -> bool {
    &&& clean(reader.root_path())
    &&& forall|i: int| 0 <= i < reader.facts().len() ==> clean_facts(#[trigger] reader.facts()[i])
}

/// Nothing that an error carries holds a control character.
pub open spec fn clean_error(e: ErrorView) -> bool {
    match e {
        ErrorView::Io { path, source } => clean(path) && clean(source.message),
        ErrorView::Parse { path, reason, .. } => clean(path) && clean(reason),
        ErrorView::PathRejected { path, reason } => clean(path) && clean(reason),
        ErrorView::Unsupported { what } => clean(what),
        ErrorView::Arithmetic { what } => clean(what),
    }
}

pub open spec fn clean_result<T>(r: Result<T, ErrorView>) -> bool {
    r matches Err(e) ==> clean_error(e)
}

broadcast proof fn clean_sum(a: Seq<char>, b: Seq<char>)
    requires
        clean(a),
        clean(b),
    ensures
        #[trigger] clean(a + b),
{
    crate::collectors::clean::lemma_clean_sum(a, b);
}

broadcast proof fn clean_decimal(n: nat)
    ensures
        #[trigger] clean(decimal(n)),
{
    lemma_decimal_digits(n);
    let s = decimal(n);
    assert forall|i: int| 0 <= i < s.len() implies !crate::sysfs::control_char(#[trigger] s[i]) by {
        assert(digit_of(s[i], 10) is Some);
    }
}

broadcast proof fn clean_sanitized(s: Seq<char>, max: nat)
    ensures
        #[trigger] clean(sanitized(s, max)),
{
    sanitized_text_is_inert(s, max);
}

broadcast proof fn clean_joined(base: Seq<char>, rel: Seq<char>)
    requires
        clean(base),
        clean(rel),
    ensures
        #[trigger] clean(joined(base, rel)),
{
    let slash = seq!['/'];
    assert(clean(slash));
    clean_sum(base, slash);
    clean_sum(base + slash, rel);
    clean_sum(base, rel);
}

broadcast group clean_parts {
    clean_sum,
    clean_decimal,
    clean_sanitized,
    clean_joined,
}

/// What an error prints holds no control character where none is in it.
pub proof fn messages_are_clean(e: ErrorView)
    requires
        clean_error(e),
    ensures
        clean(message_of(e)),
{
    broadcast use clean_parts;

    reveal_strlit("reading ");
    reveal_strlit("parsing ");
    reveal_strlit("refusing path ");
    reveal_strlit("not available on this system: ");
    reveal_strlit("arithmetic error: ");
    reveal_strlit(": ");
    reveal_strlit(":");
    assert(clean("reading "@) && clean("parsing "@) && clean("refusing path "@));
    assert(clean("not available on this system: "@) && clean("arithmetic error: "@));
    assert(clean(": "@) && clean(":"@));
}

proof fn lemma_pushed(errors: Seq<CollectorErrorView>, e: CollectorErrorView)
    requires
        clean_errors(errors),
        clean(e.collector),
        clean(e.message),
    ensures
        clean_errors(errors.push(e)),
{
    let all = errors.push(e);
    assert forall|i: int| 0 <= i < all.len() implies clean((#[trigger] all[i]).collector) && clean(
        all[i].message,
    ) by {
        if i < errors.len() {
            assert(all[i] == errors[i]);
        }
    }
}

proof fn lemma_joined_errors(a: Seq<CollectorErrorView>, b: Seq<CollectorErrorView>)
    requires
        clean_errors(a),
        clean_errors(b),
    ensures
        clean_errors(a + b),
{
    let all = a + b;
    assert forall|i: int| 0 <= i < all.len() implies clean((#[trigger] all[i]).collector) && clean(
        all[i].message,
    ) by {
        if i < a.len() {
            assert(all[i] == a[i]);
        } else {
            assert(all[i] == b[i - a.len()]);
        }
    }
}

// ---------------------------------------------------------------------------
// Reading
// ---------------------------------------------------------------------------
proof fn lemma_recorded(facts: Seq<PathFacts>, path: Seq<char>)
    requires
        forall|i: int| 0 <= i < facts.len() ==> clean_facts(#[trigger] facts[i]),
    ensures
        recorded_of(facts, path) matches Some(f) ==> clean_facts(f),
    decreases facts.len(),
{
    if facts.len() > 0 {
        let rest = facts.drop_first();
        assert forall|i: int| 0 <= i < rest.len() implies clean_facts(#[trigger] rest[i]) by {
            assert(rest[i] == facts[i + 1]);
        }
        lemma_recorded(rest, path);
        assert(clean_facts(facts[0]));
    }
}

proof fn lemma_refusal_text(names: Seq<Seq<char>>)
    requires
        quotes_stay_clean(),
    ensures
        refusal(names) matches Some(reason) ==> clean(reason),
    decreases names.len(),
{
    broadcast use clean_parts;

    if names.len() > 0 {
        lemma_refusal_text(names.drop_first());
        reveal_strlit("path may only contain plain names (no `/`, `.` or `..`)");
        reveal_strlit("unsafe path component ");
        assert(clean("path may only contain plain names (no `/`, `.` or `..`)"@));
        assert(clean("unsafe path component "@));
        assert(clean(quoted(sanitized(names[0], 64))));
    }
}

proof fn lemma_resolved(reader: &SysfsReader, rel: Seq<char>)
    requires
        clean(rel),
        clean_source(reader),
        quotes_stay_clean(),
    ensures
        clean_result(reader.resolved(rel)),
        reader.resolved(rel) matches Ok(Ok(path)) ==> clean(path),
        recorded_of(reader.facts(), rel) matches Some(f) ==> clean_facts(f),
{
    broadcast use clean_parts;

    lemma_recorded(reader.facts(), rel);
    lemma_refusal_text(components_of(rel));
    reveal_strlit("absolute path; every read is relative to the root");
    reveal_strlit("resolves outside the configured root");
    assert(clean("absolute path; every read is relative to the root"@));
    assert(clean("resolves outside the configured root"@));
    assert(path_error(rel) matches Some(e) ==> clean_error(e));
}

proof fn lemma_text(reader: &SysfsReader, rel: Seq<char>)
    requires
        clean(rel),
        clean_source(reader),
        quotes_stay_clean(),
    ensures
        clean_result(reader.text_at(rel)),
{
    lemma_resolved(reader, rel);
}

proof fn lemma_listing(reader: &SysfsReader, rel: Seq<char>, keep: NameFilter<'_>)
    requires
        clean(rel),
        clean_source(reader),
        quotes_stay_clean(),
    ensures
        clean_result(reader.names_at(rel, keep)),
        reader.names_at(rel, keep) matches Ok(Ok(names)) ==> clean_names(names),
{
    lemma_resolved(reader, rel);
    if let Ok(Ok(names)) = reader.names_at(rel, keep) {
        listings_are_safe_and_sorted(reader, rel, keep);
        assert forall|i: int| 0 <= i < names.len() implies clean(#[trigger] names[i]) by {
            lemma_safe_names(names[i]);
        }
    }
}

proof fn lemma_number(reader: &SysfsReader, rel: Seq<char>)
    requires
        clean(rel),
        clean_source(reader),
        quotes_stay_clean(),
    ensures
        clean_result(reader.u64_at(rel)),
{
    broadcast use clean_parts;

    lemma_text(reader, rel);
    reveal_strlit("expected ");
    reveal_strlit("unsigned integer");
    reveal_strlit(", got ");
    assert(clean("expected "@) && clean("unsigned integer"@) && clean(", got "@));
    if let Ok(Ok(line)) = reader.first_line_at(rel) {
        assert(clean(quoted(sanitized(line, 64))));
    }
}

pub open spec fn clean_names(names: Seq<Seq<char>>) -> bool {
    forall|i: int| 0 <= i < names.len() ==> clean(#[trigger] names[i])
}

// ---------------------------------------------------------------------------
// Processor
// ---------------------------------------------------------------------------
proof fn lemma_cpu_literals()
    ensures
        clean(cpu::NAME@),
        clean(PROC_STAT@),
        clean(PROC_LOADAVG@),
        clean(PROC_CPUINFO@),
        clean(SYS_CPU_DIR@),
        clean("/cpu"@),
        clean("/cpufreq/scaling_cur_freq"@),
        clean("field "@),
        clean(" is not an unsigned integer: "@),
        clean("expected at least "@),
        clean(" fields, got "@),
        clean("expected a cpu index, got "@),
        clean("cpu index "@),
        clean(" exceeds the "@),
        clean("-core cap"@),
        clean("no aggregate `cpu ` line"@),
        clean("load average "@),
        clean(" is not a number: "@),
        clean(" is not finite"@),
        clean("expected 3 load averages, got "@),
{
    reveal_strlit("cpu");
    reveal_strlit("proc/stat");
    reveal_strlit("proc/loadavg");
    reveal_strlit("proc/cpuinfo");
    reveal_strlit("sys/devices/system/cpu");
    reveal_strlit("/cpu");
    reveal_strlit("/cpufreq/scaling_cur_freq");
    reveal_strlit("field ");
    reveal_strlit(" is not an unsigned integer: ");
    reveal_strlit("expected at least ");
    reveal_strlit(" fields, got ");
    reveal_strlit("expected a cpu index, got ");
    reveal_strlit("cpu index ");
    reveal_strlit(" exceeds the ");
    reveal_strlit("-core cap");
    reveal_strlit("no aggregate `cpu ` line");
    reveal_strlit("load average ");
    reveal_strlit(" is not a number: ");
    reveal_strlit(" is not finite");
    reveal_strlit("expected 3 load averages, got ");
}

proof fn lemma_cpu_counters(path: Seq<char>, line_no: usize, idx: nat, fields: Seq<Seq<char>>)
    requires
        clean(path),
        quotes_stay_clean(),
    ensures
        clean_result(counters(path, line_no, idx, fields)),
    decreases fields.len(),
{
    broadcast use clean_parts;

    if fields.len() > 0 {
        lemma_cpu_literals();
        lemma_cpu_counters(path, line_no, idx + 1, fields.drop_first());
        assert(clean(quoted(sanitized(fields[0], 32))));
    }
}

proof fn lemma_cpu_times(path: Seq<char>, line_no: usize, fields: Seq<char>)
    requires
        clean(path),
        quotes_stay_clean(),
    ensures
        clean_result(cpu_times_of(path, line_no, fields)),
{
    broadcast use clean_parts;

    lemma_cpu_literals();
    lemma_cpu_counters(path, line_no, 0, first_of(words_of(fields), 10));
}

proof fn lemma_stat_line(path: Seq<char>, line_no: usize, line: Seq<char>, before: StatSoFar)
    requires
        clean(path),
        quotes_stay_clean(),
    ensures
        clean_result(stat_line(path, line_no, line, before)),
{
    broadcast use clean_parts;

    lemma_cpu_literals();
    assert forall|fields: Seq<char>| true implies clean_result(
        #[trigger] cpu_times_of(path, line_no, fields),
    ) by {
        lemma_cpu_times(path, line_no, fields);
    }
    assert forall|index: Seq<char>| true implies clean(#[trigger] quoted(sanitized(index, 16))) by {
        clean_sanitized(index, 16);
    }
}

proof fn lemma_stat_lines(path: Seq<char>, line_no: nat, lines: Seq<Seq<char>>, before: StatSoFar)
    requires
        clean(path),
        quotes_stay_clean(),
    ensures
        clean_result(stat_lines(path, line_no, lines, before)),
    decreases lines.len(),
{
    if lines.len() > 0 {
        lemma_stat_line(path, line_no as usize, lines[0], before);
        if let Ok(after) = stat_line(path, line_no as usize, lines[0], before) {
            lemma_stat_lines(path, line_no + 1, lines.drop_first(), after);
        }
    }
}

proof fn lemma_proc_stat(contents: Seq<char>)
    requires
        quotes_stay_clean(),
    ensures
        clean_result(proc_stat_of(PROC_STAT@, contents)),
{
    lemma_cpu_literals();
    lemma_stat_lines(
        PROC_STAT@,
        1,
        first_of(lines_of(contents), DEFAULT_MAX_LINES as nat),
        StatSoFar { total: None, cores: seq![] },
    );
}

proof fn lemma_bad_load(path: Seq<char>, idx: nat, fields: Seq<Seq<char>>)
    requires
        clean(path),
        quotes_stay_clean(),
    ensures
        bad_load(path, idx, fields) matches Some(e) ==> clean_error(e),
    decreases fields.len(),
{
    broadcast use clean_parts;

    if fields.len() > 0 {
        lemma_cpu_literals();
        lemma_bad_load(path, idx + 1, fields.drop_first());
        assert(clean(quoted(sanitized(fields[0], 16))));
    }
}

proof fn lemma_load(reader: &SysfsReader)
    requires
        clean_source(reader),
        quotes_stay_clean(),
    ensures
        load_read(reader).1 matches Some(e) ==> clean_error(e),
{
    broadcast use clean_parts;

    lemma_cpu_literals();
    lemma_text(reader, PROC_LOADAVG@);
    if let Ok(Ok(text)) = reader.text_at(PROC_LOADAVG@) {
        lemma_bad_load(PROC_LOADAVG@, 0, first_of(words_of(head_line(text)), 3));
        assert(clean_result(loadavg_of(PROC_LOADAVG@, text)));
    }
}

proof fn lemma_frequency_notes(reader: &SysfsReader, n: nat)
    requires
        clean_source(reader),
        quotes_stay_clean(),
    ensures
        clean_errors(frequency_notes(reader, n)),
    decreases n,
{
    broadcast use clean_parts;

    if n > 0 {
        lemma_cpu_literals();
        lemma_frequency_notes(reader, (n - 1) as nat);
        let path = freq_path((n - 1) as nat);
        assert(clean(path));
        lemma_number(reader, path);
        if let Err(e) = reader.u64_at(path) {
            messages_are_clean(e);
            lemma_pushed(
                frequency_notes(reader, (n - 1) as nat),
                CollectorErrorView { collector: cpu::NAME@, message: message_of(e) },
            );
        }
    }
}

proof fn lemma_noted(before: SnapshotView, e: Option<ErrorView>)
    requires
        clean_errors(before.errors),
        e matches Some(e) ==> clean_error(e),
    ensures
        clean_errors(cpu::noted(before, e).errors),
{
    lemma_cpu_literals();
    if let Some(e) = e {
        messages_are_clean(e);
        lemma_pushed(
            before.errors,
            CollectorErrorView { collector: cpu::NAME@, message: message_of(e) },
        );
    }
}

proof fn lemma_cpu(state: CpuState, reader: &SysfsReader, before: SnapshotView)
    requires
        clean_source(reader),
        quotes_stay_clean(),
        clean_errors(before.errors),
    ensures
        clean_result(cpu_collected(state, reader, before).outcome),
        clean_errors(cpu_collected(state, reader, before).snapshot.errors),
{
    lemma_cpu_literals();
    lemma_text(reader, PROC_STAT@);
    if let Ok(Ok(stat)) = reader.text_at(PROC_STAT@) {
        lemma_proc_stat(stat);
        if let Ok((total, per_core)) = proc_stat_of(PROC_STAT@, stat) {
            assert(clean_result(core_count_of(reader)));
            lemma_load(reader);
            lemma_text(reader, PROC_CPUINFO@);
            let counted = match state.core_count {
                Some(n) => n as nat,
                None => core_count_of(reader)->Ok_0,
            };
            let count = if counted < per_core.len() {
                per_core.len()
            } else {
                counted
            };
            let notes = frequency_notes(reader, at_most_cores(count));
            lemma_frequency_notes(reader, at_most_cores(count));
            lemma_joined_errors(before.errors, notes);
            let first = SnapshotView { errors: before.errors + notes, ..before };
            let load_error = load_read(reader).1;
            let model_error = if state.model is Some {
                None
            } else {
                model_read(reader).1
            };
            lemma_noted(first, load_error);
            lemma_noted(cpu::noted(first, load_error), model_error);
            let filled = cpu_filled(state, reader, before, stat, total, per_core, counted);
            assert(filled.snapshot.errors == cpu::noted(
                cpu::noted(first, load_error),
                model_error,
            ).errors);
        }
    }
}

// ---------------------------------------------------------------------------
// Memory
// ---------------------------------------------------------------------------
proof fn lemma_memory_literals()
    ensures
        clean(memory::NAME@),
        clean(PROC_MEMINFO@),
        clean("expected `Key: value kB`, got "@),
        clean("empty key"@),
        clean("key "@),
        clean(" has no value"@),
        clean("value "@),
        clean(" is not an unsigned integer"@),
        clean("no MemTotal line"@),
        clean("KiB value overflows a byte count"@),
{
    reveal_strlit("memory");
    reveal_strlit("proc/meminfo");
    reveal_strlit("expected `Key: value kB`, got ");
    reveal_strlit("empty key");
    reveal_strlit("key ");
    reveal_strlit(" has no value");
    reveal_strlit("value ");
    reveal_strlit(" is not an unsigned integer");
    reveal_strlit("no MemTotal line");
    reveal_strlit("KiB value overflows a byte count");
}

proof fn lemma_quoted(max: nat)
    requires
        quotes_stay_clean(),
    ensures
        forall|s: Seq<char>| clean(#[trigger] quoted(sanitized(s, max))),
{
    assert forall|s: Seq<char>| true implies clean(#[trigger] quoted(sanitized(s, max))) by {
        clean_sanitized(s, max);
    }
}

proof fn lemma_meminfo_line(path: Seq<char>, line_no: usize, line: Seq<char>)
    requires
        clean(path),
        quotes_stay_clean(),
    ensures
        clean_result(meminfo_line_of(path, line_no, line)),
{
    broadcast use clean_parts;

    lemma_memory_literals();
    lemma_quoted(64);
    lemma_quoted(32);
}

proof fn lemma_meminfo_lines(
    path: Seq<char>,
    line_no: nat,
    lines: Seq<Seq<char>>,
    before: MeminfoSoFar,
)
    requires
        clean(path),
        quotes_stay_clean(),
    ensures
        clean_result(meminfo_lines(path, line_no, lines, before)),
    decreases lines.len(),
{
    if lines.len() > 0 {
        let rest = lines.drop_first();
        lemma_meminfo_line(path, line_no as usize, lines[0]);
        lemma_meminfo_lines(path, line_no + 1, rest, before);
        if let Ok(Some((key, bytes))) = meminfo_line_of(path, line_no as usize, lines[0]) {
            lemma_meminfo_lines(
                path,
                line_no + 1,
                rest,
                memory::with_entry(before, key, bytes),
            );
        }
    }
}

proof fn lemma_memory(reader: &SysfsReader, before: SnapshotView)
    requires
        clean_source(reader),
        quotes_stay_clean(),
    ensures
        clean_result(memory_collected(reader, before).outcome),
{
    lemma_memory_literals();
    lemma_text(reader, PROC_MEMINFO@);
    if let Ok(Ok(text)) = reader.text_at(PROC_MEMINFO@) {
        lemma_meminfo_lines(
            PROC_MEMINFO@,
            1,
            first_of(lines_of(text), DEFAULT_MAX_LINES as nat),
            MeminfoSoFar { sample: no_memory(), available: None, seen_total: false },
        );
        assert(clean_result(meminfo_of(PROC_MEMINFO@, text)));
    }
}

// ---------------------------------------------------------------------------
// Temperatures
// ---------------------------------------------------------------------------
proof fn lemma_thermal_literals()
    ensures
        clean(thermal::NAME@),
        clean(SYS_HWMON@),
        clean(SYS_THERMAL@),
        clean("/"@),
{
    reveal_strlit("thermal");
    reveal_strlit("sys/class/hwmon");
    reveal_strlit("sys/class/thermal");
    reveal_strlit("/");
}

proof fn lemma_chips(reader: &SysfsReader, dirs: Seq<Seq<char>>)
    requires
        clean_names(dirs),
        clean_source(reader),
        quotes_stay_clean(),
    ensures
        clean_result(chips_in(reader, dirs)),
    decreases dirs.len(),
{
    broadcast use clean_parts;

    if dirs.len() > 0 {
        lemma_thermal_literals();
        let rest = dirs.drop_first();
        assert forall|i: int| 0 <= i < rest.len() implies clean(#[trigger] rest[i]) by {
            assert(rest[i] == dirs[i + 1]);
        }
        lemma_chips(reader, rest);
        assert(clean(dirs[0]));
        let dir = chip_path(dirs[0]);
        assert(clean(dir));
        lemma_listing(reader, dir, NameFilter::Affixed { prefix: "temp", suffix: "_input" });
        lemma_listing(reader, dir, NameFilter::Affixed { prefix: "fan", suffix: "_input" });
        assert(clean_result(sensor_indices_of(reader, dir, "temp")));
        assert(clean_result(sensor_indices_of(reader, dir, "fan")));
        reveal(chip_of);
        assert(clean_result(chip_of(reader, dir)));
    }
}

proof fn lemma_thermal(dirs: Seq<Seq<char>>, reader: &SysfsReader, before: SnapshotView)
    requires
        clean_names(dirs),
        clean_source(reader),
        quotes_stay_clean(),
    ensures
        clean_result(thermal_collected(dirs, reader, before).outcome),
        clean_names(thermal_collected(dirs, reader, before).state),
{
    lemma_thermal_literals();
    lemma_listing(reader, SYS_HWMON@, NameFilter::Numbered { prefix: "hwmon" });
    lemma_listing(reader, SYS_THERMAL@, NameFilter::Numbered { prefix: "thermal_zone" });
    assert(chip_dirs_of(reader) matches Ok(names) ==> clean_names(names));
    assert(listed_dirs(reader, dirs) matches Ok(names) ==> clean_names(names));
    if let Ok(known) = listed_dirs(reader, dirs) {
        lemma_chips(reader, known);
        if let Ok(fresh) = chip_dirs_of(reader) {
            lemma_chips(reader, fresh);
        }
    }
    assert(clean_result(cached_chips_of(reader, dirs).1));
    assert(clean_result(thermal_zones_of(reader)));
}

// ---------------------------------------------------------------------------
// Lines of counters, disks and interfaces
// ---------------------------------------------------------------------------
proof fn lemma_counter_literals()
    ensures
        clean("counter field "@),
        clean(" is not an unsigned integer: "@),
        clean("expected "@),
        clean(" counter fields, got "@),
{
    reveal_strlit("counter field ");
    reveal_strlit(" is not an unsigned integer: ");
    reveal_strlit("expected ");
    reveal_strlit(" counter fields, got ");
}

proof fn lemma_numbers(path: Seq<char>, line_no: usize, idx: nat, fields: Seq<Seq<char>>)
    requires
        clean(path),
        quotes_stay_clean(),
    ensures
        clean_result(numbers(path, line_no, idx, fields)),
    decreases fields.len(),
{
    broadcast use clean_parts;

    if fields.len() > 0 {
        lemma_counter_literals();
        lemma_numbers(path, line_no, idx + 1, fields.drop_first());
        assert(clean(quoted(sanitized(fields[0], 32))));
    }
}

proof fn lemma_counters(path: Seq<char>, line_no: usize, fields: Seq<Seq<char>>, want: nat)
    requires
        clean(path),
        quotes_stay_clean(),
    ensures
        clean_result(counters_of(path, line_no, fields, want)),
{
    broadcast use clean_parts;

    lemma_counter_literals();
    lemma_numbers(path, line_no, 0, first_of(fields, want));
}

proof fn lemma_disk_literals()
    ensures
        clean(disk::NAME@),
        clean(PROC_DISKSTATS@),
        clean(PROC_MOUNTS@),
        clean("line has no device name"@),
        clean("unsafe device name "@),
        clean("line has no source field"@),
        clean("line has no mount point field"@),
        clean("line has no filesystem type field"@),
{
    reveal_strlit("disk");
    reveal_strlit("proc/diskstats");
    reveal_strlit("proc/self/mounts");
    reveal_strlit("line has no device name");
    reveal_strlit("unsafe device name ");
    reveal_strlit("line has no source field");
    reveal_strlit("line has no mount point field");
    reveal_strlit("line has no filesystem type field");
}

proof fn lemma_disk_lines(path: Seq<char>, line_no: nat, lines: Seq<Seq<char>>)
    requires
        clean(path),
        quotes_stay_clean(),
    ensures
        clean_result(disk_lines(path, line_no, lines)),
    decreases lines.len(),
{
    broadcast use clean_parts;

    if lines.len() > 0 {
        lemma_disk_literals();
        lemma_disk_lines(path, line_no + 1, lines.drop_first());
        let fields = words_of(lines[0]);
        lemma_counters(path, line_no as usize, fields.skip(3), DISKSTATS_FIELDS as nat);
        assert(clean(quoted(sanitized(fields[2], 32))));
        assert(clean_result(disk_line_of(path, line_no as usize, lines[0])));
    }
}

proof fn lemma_mount_lines(path: Seq<char>, line_no: nat, lines: Seq<Seq<char>>)
    requires
        clean(path),
    ensures
        clean_result(mount_lines(path, line_no, lines)),
    decreases lines.len(),
{
    if lines.len() > 0 {
        lemma_disk_literals();
        lemma_mount_lines(path, line_no + 1, lines.drop_first());
        assert(clean_result(mount_line_of(path, line_no as usize, lines[0])));
    }
}

proof fn lemma_disk(reader: &SysfsReader, before: SnapshotView)
    requires
        clean_source(reader),
        quotes_stay_clean(),
    ensures
        clean_result(disk_collected(reader, before).outcome),
{
    lemma_disk_literals();
    lemma_text(reader, PROC_DISKSTATS@);
    lemma_text(reader, PROC_MOUNTS@);
    if let Ok(Ok(text)) = reader.text_at(PROC_DISKSTATS@) {
        lemma_disk_lines(PROC_DISKSTATS@, 1, first_of(lines_of(text), DEFAULT_MAX_LINES as nat));
        assert(clean_result(diskstats_of(PROC_DISKSTATS@, text)));
    }
    if let Ok(Ok(text)) = reader.text_at(PROC_MOUNTS@) {
        lemma_mount_lines(PROC_MOUNTS@, 1, first_of(lines_of(text), DEFAULT_MAX_LINES as nat));
        assert(clean_result(mounts_of(PROC_MOUNTS@, text)));
    }
}

proof fn lemma_net_literals()
    ensures
        clean(net::NAME@),
        clean(PROC_NET_DEV@),
        clean("line has no ':' separating name from counters"@),
        clean("unsafe interface name "@),
{
    reveal_strlit("net");
    reveal_strlit("proc/net/dev");
    reveal_strlit("line has no ':' separating name from counters");
    reveal_strlit("unsafe interface name ");
}

proof fn lemma_net_line(path: Seq<char>, line_no: usize, line: Seq<char>)
    requires
        clean(path),
        quotes_stay_clean(),
    ensures
        clean_result(net_line_of(path, line_no, line)),
{
    broadcast use clean_parts;

    lemma_net_literals();
    lemma_quoted(32);
    assert forall|rest: Seq<char>| true implies clean_result(
        #[trigger] counters_of(path, line_no, words_of(rest), NET_DEV_FIELDS as nat),
    ) by {
        lemma_counters(path, line_no, words_of(rest), NET_DEV_FIELDS as nat);
    }
}

proof fn lemma_net_lines(path: Seq<char>, line_no: nat, lines: Seq<Seq<char>>)
    requires
        clean(path),
        quotes_stay_clean(),
    ensures
        clean_result(net_lines(path, line_no, lines)),
    decreases lines.len(),
{
    if lines.len() > 0 {
        lemma_net_line(path, line_no as usize, lines[0]);
        lemma_net_lines(path, line_no + 1, lines.drop_first());
    }
}

proof fn lemma_net(show_all: bool, reader: &SysfsReader, before: SnapshotView)
    requires
        clean_source(reader),
        quotes_stay_clean(),
    ensures
        clean_result(net_collected(show_all, reader, before).outcome),
{
    lemma_net_literals();
    lemma_text(reader, PROC_NET_DEV@);
    if let Ok(Ok(text)) = reader.text_at(PROC_NET_DEV@) {
        lemma_net_lines(PROC_NET_DEV@, 3, data_lines(text));
        assert(clean_result(net_dev_of(PROC_NET_DEV@, text)));
    }
}

// ---------------------------------------------------------------------------
// Graphics cards
// ---------------------------------------------------------------------------
proof fn lemma_gpu_literals()
    ensures
        clean(gpu::NAME@),
        clean(SYS_CLASS_DRM@),
        clean("device"@),
        clean("hwmon"@),
        clean(": an NVIDIA card was seen, but the `gpu-nvidia` feature is off"@),
{
    reveal_strlit("gpu");
    reveal_strlit("sys/class/drm");
    reveal_strlit("device");
    reveal_strlit("hwmon");
    reveal_strlit(": an NVIDIA card was seen, but the `gpu-nvidia` feature is off");
}

proof fn lemma_card(reader: &SysfsReader, card: CardView)
    requires
        clean(card.name),
        clean_source(reader),
        quotes_stay_clean(),
    ensures
        clean_result(card_of(reader, card.name, card.vendor)),
        clean(note_of(card.name)),
{
    broadcast use clean_parts;

    lemma_gpu_literals();
    let dir = device_path(card.name);
    assert(clean(dir));
    lemma_listing(reader, joined(dir, "hwmon"@), NameFilter::Numbered { prefix: "hwmon" });
    assert(clean_result(hwmon_dir_of(reader, dir)));
    assert(clean_result(amd_card_of(reader, card.name)));
    assert(clean_result(intel_card_of(reader, card.name)));
}

proof fn lemma_cards(reader: &SysfsReader, cards: Seq<CardView>)
    requires
        clean_cards(cards),
        clean_source(reader),
        quotes_stay_clean(),
    ensures
        clean_errors(cards_read(reader, cards).1),
    decreases cards.len(),
{
    if cards.len() > 0 {
        let front = cards.drop_last();
        assert forall|i: int| 0 <= i < front.len() implies clean((#[trigger] front[i]).name) by {
            assert(front[i] == cards[i]);
        }
        lemma_cards(reader, front);
        let last = cards[cards.len() - 1];
        assert(clean(last.name));
        lemma_card(reader, last);
        lemma_gpu_literals();
        let errors = cards_read(reader, front).1;
        lemma_pushed(
            errors,
            CollectorErrorView { collector: gpu::NAME@, message: note_of(last.name) },
        );
        if let Err(e) = card_of(reader, last.name, last.vendor) {
            messages_are_clean(e);
            lemma_pushed(
                errors,
                CollectorErrorView { collector: gpu::NAME@, message: message_of(e) },
            );
        }
    }
}

proof fn lemma_gpu(cards: Seq<CardView>, reader: &SysfsReader, before: SnapshotView)
    requires
        clean_cards(cards),
        clean_source(reader),
        quotes_stay_clean(),
        clean_errors(before.errors),
    ensures
        clean_result(gpu_collected(cards, reader, before).outcome),
        clean_errors(gpu_collected(cards, reader, before).snapshot.errors),
        clean_cards(gpu_collected(cards, reader, before).state),
{
    lemma_gpu_literals();
    lemma_listing(reader, SYS_CLASS_DRM@, NameFilter::Numbered { prefix: "card" });
    assert(clean_result(cards_of(reader)));
    lemma_known_cards(reader, cards);
    if let Ok(known) = known_cards(reader, cards) {
        lemma_cards(reader, known);
        lemma_joined_errors(before.errors, cards_read(reader, known).1);
    }
}

// ---------------------------------------------------------------------------
// Connections
// ---------------------------------------------------------------------------
proof fn lemma_connection_literals()
    ensures
        clean(connections::NAME@),
        clean(PROC_TCP@),
        clean(PROC_TCP6@),
        clean(PROC_UDP@),
        clean(PROC_UDP6@),
        clean("line has no "@),
        clean(" field"@),
        clean("unparseable local address "@),
        clean("unparseable remote address "@),
        clean("state "@),
        clean(" is not hex"@),
        clean("uid "@),
        clean(" is not a number"@),
        clean("inode "@),
{
    reveal_strlit("connections");
    reveal_strlit("proc/net/tcp");
    reveal_strlit("proc/net/tcp6");
    reveal_strlit("proc/net/udp");
    reveal_strlit("proc/net/udp6");
    reveal_strlit("line has no ");
    reveal_strlit(" field");
    reveal_strlit("unparseable local address ");
    reveal_strlit("unparseable remote address ");
    reveal_strlit("state ");
    reveal_strlit(" is not hex");
    reveal_strlit("uid ");
    reveal_strlit(" is not a number");
    reveal_strlit("inode ");
}

proof fn lemma_column(i: nat)
    ensures
        clean(column(i)),
{
    reveal_strlit("sl");
    reveal_strlit("local_address");
    reveal_strlit("rem_address");
    reveal_strlit("st");
    reveal_strlit("tx_queue:rx_queue");
    reveal_strlit("tr:tm->when");
    reveal_strlit("retrnsmt");
    reveal_strlit("uid");
    reveal_strlit("timeout");
    reveal_strlit("inode");
}

proof fn lemma_socket_line(path: Seq<char>, line_no: usize, line: Seq<char>)
    requires
        clean(path),
        quotes_stay_clean(),
    ensures
        clean_result(socket_line_of(path, line_no, line)),
{
    broadcast use clean_parts;

    lemma_connection_literals();
    lemma_column(words_of(line).len());
    lemma_quoted(64);
    assert forall|field: Seq<char>| true implies clean(#[trigger] shown_field(field)) by {
        assert(clean(quoted(sanitized(field, 64))));
    }
}

proof fn lemma_socket_lines(path: Seq<char>, line_no: nat, lines: Seq<Seq<char>>)
    requires
        clean(path),
        quotes_stay_clean(),
    ensures
        clean_result(socket_lines(path, line_no, lines)),
    decreases lines.len(),
{
    if lines.len() > 0 {
        lemma_socket_line(path, line_no as usize, lines[0]);
        lemma_socket_lines(path, line_no + 1, lines.drop_first());
    }
}

proof fn lemma_table(reader: &SysfsReader, path: Seq<char>, protocol: ConnProtocol)
    requires
        clean(path),
        clean_source(reader),
        quotes_stay_clean(),
    ensures
        clean_result(table_of(reader, path, protocol)),
{
    lemma_text(reader, path);
    if let Ok(Ok(text)) = reader.text_at(path) {
        lemma_socket_lines(path, 2, table_lines(text));
        assert(clean_result(sockets_of_table(path, text)));
    }
}

proof fn lemma_connections(reader: &SysfsReader, before: SnapshotView)
    requires
        clean_source(reader),
        quotes_stay_clean(),
    ensures
        clean_result(connections_collected(reader, before).outcome),
{
    lemma_connection_literals();
    lemma_table(reader, PROC_TCP@, ConnProtocol::Tcp);
    lemma_table(reader, PROC_TCP6@, ConnProtocol::Tcp);
    lemma_table(reader, PROC_UDP@, ConnProtocol::Udp);
    lemma_table(reader, PROC_UDP6@, ConnProtocol::Udp);
    assert(clean_result(all_sockets_of(reader)));
}

// ---------------------------------------------------------------------------
// All of them
// ---------------------------------------------------------------------------
/// What a collector remembers holds no control character: no model, no card
/// and no directory.
pub open spec fn clean_memory(state: AnyState) -> bool {
    clean_state(state) && (state matches AnyState::Thermal(dirs) ==> clean_names(dirs))
}

/// A collector that fails, and one that notes something, says so without a
/// control character, whatever the files hold.
pub proof fn collected_errors_are_clean(state: AnyState, reader: &SysfsReader, before: SnapshotView)
    requires
        clean_memory(state),
        clean_source(reader),
        quotes_stay_clean(),
        clean_errors(before.errors),
    ensures
        clean_result(AnyCollector::collected(state, reader, before).outcome),
        clean_errors(AnyCollector::collected(state, reader, before).snapshot.errors),
        AnyCollector::collected(state, reader, before).state matches AnyState::Thermal(dirs)
            ==> clean_names(dirs),
{
    match state {
        AnyState::Cpu(s) => lemma_cpu(s, reader, before),
        AnyState::Memory => lemma_memory(reader, before),
        AnyState::Thermal(dirs) => lemma_thermal(dirs, reader, before),
        AnyState::Disk => lemma_disk(reader, before),
        AnyState::Net(show_all) => lemma_net(show_all, reader, before),
        AnyState::Gpu(cards) => lemma_gpu(cards, reader, before),
        AnyState::Connections => lemma_connections(reader, before),
    }
}

proof fn lemma_name(state: AnyState)
    ensures
        clean(AnyCollector::named(state)),
{
    lemma_cpu_literals();
    lemma_memory_literals();
    lemma_thermal_literals();
    lemma_disk_literals();
    lemma_net_literals();
    lemma_gpu_literals();
    lemma_connection_literals();
}

/// Nor do all of them together, one after the other.
pub proof fn errors_are_clean(states: Seq<AnyState>, reader: &SysfsReader, before: SnapshotView)
    requires
        forall|i: int| 0 <= i < states.len() ==> clean_memory(#[trigger] states[i]),
        clean_source(reader),
        quotes_stay_clean(),
        clean_errors(before.errors),
    ensures
        clean_errors(all_collected::<AnyCollector>(states, reader, before).1.errors),
    decreases states.len(),
{
    if states.len() > 0 {
        let front = states.drop_last();
        assert forall|i: int| 0 <= i < front.len() implies clean_memory(#[trigger] front[i]) by {
            assert(front[i] == states[i]);
        }
        errors_are_clean(front, reader, before);
        let sofar = all_collected::<AnyCollector>(front, reader, before).1;
        assert(clean_memory(states[states.len() - 1]));
        collected_errors_are_clean(states.last(), reader, sofar);
        let c = AnyCollector::collected(states.last(), reader, sofar);
        if let Err(e) = c.outcome {
            let name = AnyCollector::named(c.state);
            lemma_name(c.state);
            messages_are_clean(e);
            lemma_pushed(
                c.snapshot.errors,
                CollectorErrorView { collector: name, message: message_of(e) },
            );
            assert(all_collected::<AnyCollector>(states, reader, before).1 == with_failure(
                c.snapshot,
                name,
                e,
            ));
        }
    }
}

} // verus!
