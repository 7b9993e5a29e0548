//! A read-only Linux hardware monitor, and a logger of terminal sessions.
//!
//! The library holds what the two programs decide: which paths may be read and
//! what they mean, how counters become rates, what is written and how, when a
//! session ends. It does no input or output itself. What the operating system
//! answered is recorded and handed in, and what is to be written comes out.

use vstd::prelude::*;

pub mod addr;
pub mod assembly;
pub mod calendar;
pub mod cli;
pub mod collector;
pub mod collectors;
pub mod config;
pub mod delta;
pub mod error;
pub mod logger;
pub mod net_probe;
pub mod number;
pub mod numeral;
pub mod order;
pub mod render;
pub mod sample;
pub mod spelling;
pub mod summary;
pub mod sysfs;
pub mod text;
pub mod units;

use crate::collector::{all_collected, configured, fresh_collectors, Collector, Registry};
use crate::collectors::any::AnyCollector;
use crate::config::{wanted, Config, ConfigView, OutputFormat};
use crate::error::{message_of, Error, ErrorView};
use crate::render::document::{Document, Glyph};
use crate::render::render;
use crate::sample::{empty_snapshot, SnapshotView};
use crate::summary::{summary_collectors, summary_run};
use crate::sysfs::SysfsReader;
use crate::text::{begins, ends, push_str};

verus! {

/// What rendering a snapshot without rates gives.
pub open spec fn rendered(s: SnapshotView, c: ConfigView) -> Result<Seq<Glyph>, ErrorView> {
    match c.format {
        OutputFormat::Text => render::text::snapshot_text(s, None, c.verbose),
        OutputFormat::Json => render::json::snapshot_text(s, None, c.verbose),
    }
}

/// The snapshot that the configured collectors take.
pub open spec fn snapshot_of(
    c: ConfigView,
    reader: &SysfsReader,
    taken_at: i64,
    taken_at_monotonic: u64,
) -> SnapshotView {
    all_collected::<AnyCollector>(
        configured(c, reader, fresh_collectors()),
        reader,
        empty_snapshot(taken_at, taken_at_monotonic),
    ).1
}

pub open spec fn run_view(r: Result<(i32, Document), Error>) -> Result<(i32, Seq<Glyph>), ErrorView> {
    match r {
        Ok((code, d)) => Ok((code, d@)),
        Err(e) => Err(e@),
    }
}

/// What a run with a single snapshot gives.
pub open spec fn once(
    c: ConfigView,
    reader: &SysfsReader,
    taken_at: i64,
    taken_at_monotonic: u64,
) -> Result<(i32, Seq<Glyph>), ErrorView> {
    match rendered(snapshot_of(c, reader, taken_at, taken_at_monotonic), c) {
        Ok(g) => Ok((0i32, g)),
        Err(e) => Err(e),
    }
}

/// Collects one snapshot and renders it. One reading has no rates: throughput
/// and utilisation need two.
pub fn run_once(config: &Config, reader: SysfsReader, taken_at: i64, taken_at_monotonic: u64) -> (r: Result<
    (i32, Document),
    Error,
>)
    ensures
        run_view(r) == once(config@, &reader, taken_at, taken_at_monotonic),
{
    let mut registry = match Registry::from_config(config, reader) {
        Err(e) => return Err(e),
        Ok(registry) => registry,
    };
    let snapshot = match registry.collect_all(taken_at, taken_at_monotonic) {
        Err(e) => return Err(e),
        Ok(snapshot) => snapshot,
    };
    match render(&snapshot, None, config) {
        Err(e) => Err(e),
        Ok(document) => Ok((0, document)),
    }
}

/// What a run gives: a summary before a single snapshot, and neither is an
/// error, for there is no live display.
pub open spec fn outcome_of(
    c: ConfigView,
    reader: &SysfsReader,
    taken_at: i64,
    taken_at_monotonic: u64,
) -> Result<(i32, Seq<Glyph>), ErrorView> {
    if c.summary {
        Ok(
            summary_run(
                all_collected::<AnyCollector>(
                    summary_collectors(),
                    reader,
                    empty_snapshot(taken_at, taken_at_monotonic),
                ).1,
            ),
        )
    } else if c.once {
        once(c, reader, taken_at, taken_at_monotonic)
    } else {
        Err(
            ErrorView::Unsupported {
                what: "the live TUI (built without the `tui` feature — pass --once for a single snapshot)"@,
            },
        )
    }
}

/// Runs with a settled configuration, and gives the exit code and what is to
/// be written to the standard output.
pub fn run(config: &Config, reader: SysfsReader, taken_at: i64, taken_at_monotonic: u64) -> (r: Result<
    (i32, Document),
    Error,
>)
    ensures
        run_view(r) == outcome_of(config@, &reader, taken_at, taken_at_monotonic),
{
    if config.summary {
        return summary::run(reader, taken_at, taken_at_monotonic);
    }
    if config.once {
        return run_once(config, reader, taken_at, taken_at_monotonic);
    }
    Err(
        Error::Unsupported {
            what: "the live TUI (built without the `tui` feature — pass --once for a single snapshot)",
        },
    )
}

/// A run collects with the collector of this name: with those of a summary
/// where one is asked for, with those that are wanted for a single snapshot, and
/// with none otherwise.
pub open spec fn collecting(c: ConfigView, name: Seq<char>) -> bool {
    if c.summary {
        exists|i: int|
            0 <= i < summary_collectors().len() && AnyCollector::named(
                #[trigger] summary_collectors()[i],
            ) == name
    } else {
        c.once && wanted(c, name)
    }
}

/// Does a run read what the collector of this name reads? What is not read need
/// not be recorded.
pub fn collects(config: &Config, name: &str) -> (r: bool)
    ensures
        r == collecting(config@, name@),
{
    if config.summary {
        return summary::is_summarised(name);
    }
    config.once && config.wants(name)
}

/// A summary is the same whatever else was asked for: which collectors to run,
/// in which format, and how much to say.
pub proof fn a_summary_is_fixed(
    c: ConfigView,
    d: ConfigView,
    reader: &SysfsReader,
    taken_at: i64,
    taken_at_monotonic: u64,
)
    requires
        c.summary,
        d.summary,
    ensures
        outcome_of(c, reader, taken_at, taken_at_monotonic) == outcome_of(
            d,
            reader,
            taken_at,
            taken_at_monotonic,
        ),
{
}

/// What is printed of an error: its message, and the cause where it has one.
pub open spec fn report_of(e: ErrorView) -> Seq<char> {
    "rustmon: error: "@ + message_of(e) + "\n"@ + match e {
        ErrorView::Io { source, .. } => "  caused by: "@ + source.message + "\n"@,
        _ => Seq::<char>::empty(),
    }
}

pub fn report_error(e: &Error) -> (r: String)
    ensures
        r@ == report_of(e@),
{
    let mut out: String = "rustmon: error: ".to_owned();
    let message = e.to_string();
    push_str(&mut out, message.as_str());
    push_str(&mut out, "\n");
    if let Some(source) = e.source() {
        push_str(&mut out, "  caused by: ");
        push_str(&mut out, source.message.as_str());
        push_str(&mut out, "\n");
    }
    assert(out@ == report_of(e@));
    out
}

/// An exit code as the operating system takes it: cut to a byte.
pub fn exit_code_from(code: i32) -> (r: u8)
    ensures
        r == (if code < 0 {
            0
        } else if code > 255 {
            255
        } else {
            code as int
        }),
{
    if code < 0 {
        0
    } else if code > 255 {
        255
    } else {
        code as u8
    }
}

/// A report gives the program, the message and the end of the line, and for a failure
/// of the system, on a line of its own, the system's words.
pub proof fn reports_give_the_message(e: ErrorView)
    ensures
        begins(report_of(e), "rustmon: error: "@ + message_of(e) + "\n"@),
        e is Io ==> ends(report_of(e), "\n  caused by: "@ + e->Io_source.message + "\n"@),
        !(e is Io) ==> report_of(e) == "rustmon: error: "@ + message_of(e) + "\n"@,
{
    reveal_strlit("\n");
    reveal_strlit("  caused by: ");
    reveal_strlit("\n  caused by: ");
    let front = "rustmon: error: "@ + message_of(e) + "\n"@;
    assert(report_of(e).take(front.len() as int) =~= front);
    if let ErrorView::Io { source, .. } = e {
        let back = "\n  caused by: "@ + source.message + "\n"@;
        assert(report_of(e).skip(report_of(e).len() - back.len()) =~= back);
    } else {
        assert(report_of(e) =~= front);
    }
}

} // verus!
