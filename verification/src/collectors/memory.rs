//! Memory and swap, from `/proc/meminfo`, which counts in units of 1024 bytes.

use vstd::prelude::*;

use crate::collector::{Collected, Collector};
use crate::error::{Error, ErrorView};
use crate::number::{parse_of, parse_u64};
use crate::numeral::{lower_all, lowered};
use crate::sample::{at_most_max, no_memory, MemorySample, Snapshot, SnapshotView};
use crate::sysfs::{quoted, sanitized, show, SysfsReader, DEFAULT_MAX_LINES};
use crate::text::{
    chars_of, cut_at, first_lines, first_of, is_text, lines_of, slices, split_once, string_of,
    text2, text3, trim, trim_of, words, words_of,
};
use crate::units::{kib, Bytes};

verus! {

pub const NAME: &'static str = "memory";

pub const PROC_MEMINFO: &'static str = "proc/meminfo";

pub open spec fn parse_failure(path: Seq<char>, line_no: usize, reason: Seq<char>) -> ErrorView {
    ErrorView::Parse { path, line: Some(line_no), reason }
}

/// What one line `Key: value kB` says. A key without that unit is a count and
/// no size, and says nothing here.
pub open spec fn meminfo_line_of(path: Seq<char>, line_no: usize, line: Seq<char>) -> Result<
    Option<(Seq<char>, Bytes)>,
    ErrorView,
> {
    match cut_at(line, ':') {
        None => Err(
            parse_failure(
                path,
                line_no,
                "expected `Key: value kB`, got "@ + quoted(sanitized(line, 64)),
            ),
        ),
        Some((before, rest)) => {
            let key = trim_of(before);
            let fields = words_of(rest);
            if key.len() == 0 {
                Err(parse_failure(path, line_no, "empty key"@))
            } else if fields.len() == 0 {
                Err(
                    parse_failure(
                        path,
                        line_no,
                        "key "@ + quoted(sanitized(key, 32)) + " has no value"@,
                    ),
                )
            } else {
                match parse_of(fields[0], 10, u64::MAX as nat) {
                    None => Err(
                        parse_failure(
                            path,
                            line_no,
                            "value "@ + quoted(sanitized(fields[0], 32))
                                + " is not an unsigned integer"@,
                        ),
                    ),
                    Some(n) => if fields.len() > 1 && lowered(fields[1]) == "kb"@ {
                        match kib(n) {
                            Ok(bytes) => Ok(Some((key, bytes))),
                            Err(e) => Err(e),
                        }
                    } else {
                        Ok(None)
                    },
                }
            }
        },
    }
}

pub open spec fn entry_view(r: Result<Option<(String, Bytes)>, Error>) -> Result<
    Option<(Seq<char>, Bytes)>,
    ErrorView,
> {
    match r {
        Ok(Some((key, bytes))) => Ok(Some((key@, bytes))),
        Ok(None) => Ok(None),
        Err(e) => Err(e@),
    }
}

fn parse_line(path: &str, line_no: usize, line: &[char]) -> (r: Result<
    Option<(String, Bytes)>,
    Error,
>)
    ensures
        entry_view(r) == meminfo_line_of(path@, line_no, line@),
{
    let (before, rest) = match split_once(line, ':') {
        None => {
            let shown = show(line, 64);
            return Err(
                Error::parse(
                    path,
                    Some(line_no),
                    text2("expected `Key: value kB`, got ", shown.as_str()),
                ),
            );
        },
        Some(parts) => parts,
    };
    let key = trim(before);
    if key.len() == 0 {
        return Err(Error::parse(path, Some(line_no), "empty key".to_owned()));
    }
    let fields = words(rest);
    let ghost fs = slices(fields@);
    if fields.len() == 0 {
        let shown = show(key, 32);
        return Err(
            Error::parse(path, Some(line_no), text3("key ", shown.as_str(), " has no value")),
        );
    }
    assert(fs[0] == fields@[0]@);
    let value: u64 = match parse_u64(fields[0]) {
        None => {
            let shown = show(fields[0], 32);
            return Err(
                Error::parse(
                    path,
                    Some(line_no),
                    text3("value ", shown.as_str(), " is not an unsigned integer"),
                ),
            );
        },
        Some(value) => value,
    };
    if fields.len() < 2 {
        return Ok(None);
    }
    assert(fs[1] == fields@[1]@);
    let unit = lower_all(fields[1]);
    if !is_text(unit.as_slice(), "kb") {
        return Ok(None);
    }
    match Bytes::from_kib(value) {
        Ok(bytes) => Ok(Some((string_of(key), bytes))),
        Err(e) => Err(e),
    }
}

/// One line of `/proc/meminfo`.
pub fn parse_meminfo_line(path: &str, line_no: usize, line: &str) -> (r: Result<
    Option<(String, Bytes)>,
    Error,
>)
    ensures
        entry_view(r) == meminfo_line_of(path@, line_no, line@),
{
    let cs = chars_of(line);
    parse_line(path, line_no, cs.as_slice())
}

/// What the lines so far say.
pub struct MeminfoSoFar {
    pub sample: MemorySample,
    pub available: Option<Bytes>,
    pub seen_total: bool,
}

/// What one entry adds. Keys that are not asked for are left alone: the file
/// grows from kernel to kernel.
pub open spec fn with_entry(before: MeminfoSoFar, key: Seq<char>, bytes: Bytes) -> MeminfoSoFar {
    let s = before.sample;
    if key == "MemTotal"@ {
        MeminfoSoFar {
            sample: MemorySample { total: bytes, ..s },
            seen_total: true,
            ..before
        }
    } else if key == "MemFree"@ {
        MeminfoSoFar { sample: MemorySample { free: bytes, ..s }, ..before }
    } else if key == "MemAvailable"@ {
        MeminfoSoFar { available: Some(bytes), ..before }
    } else if key == "Buffers"@ {
        MeminfoSoFar { sample: MemorySample { buffers: bytes, ..s }, ..before }
    } else if key == "Cached"@ {
        MeminfoSoFar { sample: MemorySample { cached: bytes, ..s }, ..before }
    } else if key == "SwapTotal"@ {
        MeminfoSoFar { sample: MemorySample { swap_total: bytes, ..s }, ..before }
    } else if key == "SwapFree"@ {
        MeminfoSoFar { sample: MemorySample { swap_free: bytes, ..s }, ..before }
    } else {
        before
    }
}

/// What the lines add, of which the first has the number `line_no`.
pub open spec fn meminfo_lines(
    path: Seq<char>,
    line_no: nat,
    lines: Seq<Seq<char>>,
    before: MeminfoSoFar,
) -> Result<MeminfoSoFar, ErrorView>
    decreases lines.len(),
{
    if lines.len() == 0 {
        Ok(before)
    } else if trim_of(lines[0]).len() == 0 {
        meminfo_lines(path, line_no + 1, lines.drop_first(), before)
    } else {
        match meminfo_line_of(path, line_no as usize, lines[0]) {
            Err(e) => Err(e),
            Ok(None) => meminfo_lines(path, line_no + 1, lines.drop_first(), before),
            Ok(Some((key, bytes))) => meminfo_lines(
                path,
                line_no + 1,
                lines.drop_first(),
                with_entry(before, key, bytes),
            ),
        }
    }
}

/// What `/proc/meminfo` holds. A kernel that does not say what is available
/// is taken to mean what is free, buffered and cached.
pub open spec fn meminfo_of(path: Seq<char>, contents: Seq<char>) -> Result<
    MemorySample,
    ErrorView,
> {
    match meminfo_lines(
        path,
        1,
        first_of(lines_of(contents), DEFAULT_MAX_LINES as nat),
        MeminfoSoFar { sample: no_memory(), available: None, seen_total: false },
    ) {
        Err(e) => Err(e),
        Ok(m) => if !m.seen_total {
            Err(ErrorView::Parse { path, line: None, reason: "no MemTotal line"@ })
        } else {
            Ok(
                MemorySample {
                    available: match m.available {
                        Some(bytes) => bytes,
                        None => Bytes(
                            at_most_max(
                                m.sample.free.0 + m.sample.buffers.0 + m.sample.cached.0,
                            ),
                        ),
                    },
                    ..m.sample
                },
            )
        },
    }
}

pub open spec fn memory_view(r: Result<MemorySample, Error>) -> Result<MemorySample, ErrorView> {
    match r {
        Ok(s) => Ok(s),
        Err(e) => Err(e@),
    }
}

/// Parses `/proc/meminfo`.
pub fn parse_meminfo(path: &str, contents: &str) -> (r: Result<MemorySample, Error>)
    ensures
        memory_view(r) == meminfo_of(path@, contents@),
{
    let cs = chars_of(contents);
    let all = first_lines(cs.as_slice(), DEFAULT_MAX_LINES);
    let ghost ls = slices(all@);
    let mut sample = MemorySample::default();
    let mut available: Option<Bytes> = None;
    let mut seen_total: bool = false;
    let ghost start = MeminfoSoFar { sample: no_memory(), available: None, seen_total: false };
    let mut i: usize = 0;
    assert(ls.skip(0) == ls);
    while i < all.len()
        invariant
            i <= all.len(),
            all.len() <= DEFAULT_MAX_LINES,
            ls == slices(all@),
            ls == first_of(lines_of(contents@), DEFAULT_MAX_LINES as nat),
            start == (MeminfoSoFar { sample: no_memory(), available: None, seen_total: false }),
            meminfo_lines(
                path@,
                (i + 1) as nat,
                ls.skip(i as int),
                MeminfoSoFar { sample, available, seen_total },
            ) == meminfo_lines(path@, 1, ls, start),
        decreases all.len() - i,
    {
        let line: &[char] = all[i];
        assert(ls.skip(i as int)[0] == line@);
        assert(ls.skip(i as int).drop_first() == ls.skip(i + 1));
        if trim(line).len() > 0 {
            match parse_line(path, i + 1, line) {
                Err(e) => return Err(e),
                Ok(None) => {},
                Ok(Some((key, bytes))) => {
                    let key = chars_of(key.as_str());
                    let key = key.as_slice();
                    if is_text(key, "MemTotal") {
                        sample.total = bytes;
                        seen_total = true;
                    } else if is_text(key, "MemFree") {
                        sample.free = bytes;
                    } else if is_text(key, "MemAvailable") {
                        available = Some(bytes);
                    } else if is_text(key, "Buffers") {
                        sample.buffers = bytes;
                    } else if is_text(key, "Cached") {
                        sample.cached = bytes;
                    } else if is_text(key, "SwapTotal") {
                        sample.swap_total = bytes;
                    } else if is_text(key, "SwapFree") {
                        sample.swap_free = bytes;
                    }
                },
            }
        }
        i = i + 1;
    }
    assert(ls.skip(i as int) == Seq::<Seq<char>>::empty());
    if !seen_total {
        return Err(Error::parse(path, None, "no MemTotal line".to_owned()));
    }
    sample.available =
    match available {
        Some(bytes) => bytes,
        None => Bytes::from_bytes(
            sample.free.as_u64().saturating_add(sample.buffers.as_u64()).saturating_add(
                sample.cached.as_u64(),
            ),
        ),
    };
    Ok(sample)
}

#[derive(Debug)]
pub struct MemoryCollector {}

/// What a collection does.
pub open spec fn memory_collected(reader: &SysfsReader, before: SnapshotView) -> Collected<()> {
    match reader.text_at(PROC_MEMINFO@) {
        Err(e) => Collected { state: (), snapshot: before, outcome: Err(e) },
        Ok(Err(_)) => Collected { state: (), snapshot: before, outcome: Ok(()) },
        Ok(Ok(text)) => match meminfo_of(PROC_MEMINFO@, text) {
            Err(e) => Collected { state: (), snapshot: before, outcome: Err(e) },
            Ok(sample) => Collected {
                state: (),
                snapshot: SnapshotView { memory: Some(sample), ..before },
                outcome: Ok(()),
            },
        },
    }
}

impl MemoryCollector {
    pub fn new() -> (r: MemoryCollector)
        ensures
            r == (MemoryCollector {  }),
    {
        MemoryCollector {  }
    }
}

impl Collector for MemoryCollector {
    type Model = ();

    open spec fn model(&self) -> () {
        ()
    }

    open spec fn named(state: ()) -> Seq<char> {
        NAME@
    }

    open spec fn usable(state: (), reader: &SysfsReader) -> bool {
        reader.present(PROC_MEMINFO@)
    }

    open spec fn collected(state: (), reader: &SysfsReader, before: SnapshotView) -> Collected<()> {
        memory_collected(reader, before)
    }

    fn name(&self) -> (r: &'static str) {
        NAME
    }

    fn probe(&self, reader: &SysfsReader) -> (r: bool) {
        reader.is_present(PROC_MEMINFO)
    }

    fn collect(&mut self, reader: &SysfsReader, snapshot: &mut Snapshot) -> (r: Result<(), Error>) {
        match reader.read_to_string(PROC_MEMINFO) {
            Err(e) => Err(e),
            Ok(Err(_)) => Ok(()),
            Ok(Ok(contents)) => match parse_meminfo(PROC_MEMINFO, contents.as_str()) {
                Err(e) => Err(e),
                Ok(sample) => {
                    snapshot.memory = Some(sample);
                    Ok(())
                },
            },
        }
    }
}

} // verus!
