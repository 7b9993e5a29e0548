//! The command line.

use vstd::prelude::*;

use crate::collectors::{all_collectors, known_collectors};
use crate::config::{
    default_config, first_unknown, is_known, join_names, listed, names,
    unknown_collector, unknown_collector_error, validated, Config, ConfigView, OutputFormat,
};
use crate::error::{Error, ErrorView, IoFailure};
use crate::number::{
    decimal, decimal_round_trip, digit_of, lemma_decimal_digits, parse as parse_number, parse_of,
};
use crate::spelling::splitting_parts_at_every_separator;
use crate::sysfs::{quote, quoted};
use crate::text::{
    chars_of, ends, lemma_index_of_is, same_str, slices, split, split_of, string_of, strings,
    strip_suffix, text2, text4, trim, trim_of, without_suffix,
};

verus! {

/// The version that is printed.
pub const VERSION: &'static str = "0.1.0";

/// The usage text.
pub const HELP: &'static str =
    "rustmon — a read-only Linux hardware monitor

USAGE:
    rustmon [OPTIONS]

OPTIONS:
    -1, --once              One snapshot to stdout, then exit (no TUI)
        --summary           Shell-prompt one-liner, then exit — see
                             \"rustmon --summary\" in the man page
    -f, --format <FORMAT>   Output format for --once: \"text\" (default) or \"json\"
    -i, --interval <TIME>   Refresh interval: a bare number of milliseconds,
                             or a value like \"500ms\" / \"2s\" (default: 1s,
                             floor: 100ms)
        --only <LIST>       Run only these collectors, comma-separated
                             (e.g. \"cpu,memory\")
        --skip <LIST>       Never run these collectors, comma-separated;
                             applied after --only
        --sysfs-root <PATH> Root for all filesystem reads (default: /)
        --history <N>       Samples retained for sparklines (default: 120,
                             ceiling: 3600)
    -v, --verbose            Include the collector error list in output
    -h, --help               Print this help and exit
    -V, --version             Print the version and exit

Collectors: cpu, memory, thermal, disk, net, gpu, connections

The JSON schema (--format json) is documented in rustmon/README.md.

rustmon is read-only: it never writes to /proc or /sys, never spawns a
subprocess, and never requires root. Anything it can't read is reported as
absent rather than as an error.
";

/// What the process does after parsing.
#[derive(Debug)]
pub enum Invocation {
    /// Runs with this configuration.
    Run(Config),
    /// Prints the usage and stops.
    Help,
    /// Prints the version and stops.
    Version,
}

pub enum InvocationView {
    Run(ConfigView),
    Help,
    Version,
}

impl View for Invocation {
    type V = InvocationView;

    open spec fn view(&self) -> InvocationView {
        match *self {
            Invocation::Run(c) => InvocationView::Run(c@),
            Invocation::Help => InvocationView::Help,
            Invocation::Version => InvocationView::Version,
        }
    }
}

pub open spec fn invocation_view(r: Result<Invocation, Error>) -> Result<InvocationView, ErrorView> {
    match r {
        Ok(i) => Ok(i@),
        Err(e) => Err(e@),
    }
}

// ---------------------------------------------------------------------------
// Values
// ---------------------------------------------------------------------------
pub open spec fn bad_interval(raw: Seq<char>) -> ErrorView {
    ErrorView::Parse {
        path: "--interval"@,
        line: None,
        reason: "expected a number of milliseconds, or a value like \"500ms\"/\"2s\", got "@
            + quoted(raw),
    }
}

/// The number that `s` writes, times `scale`.
pub open spec fn scaled(raw: Seq<char>, s: Seq<char>, scale: nat) -> Result<u128, ErrorView> {
    match parse_of(s, 10, u64::MAX as nat) {
        Some(n) => Ok((n * scale) as u128),
        None => Err(bad_interval(raw)),
    }
}

/// An interval in milliseconds: `500ms`, `2s`, or a bare number of
/// milliseconds. The longer suffix is tried first, for it ends in the other.
pub open spec fn interval_of(raw: Seq<char>) -> Result<u128, ErrorView> {
    match without_suffix(raw, "ms"@) {
        Some(ms) => scaled(raw, ms, 1),
        None => match without_suffix(raw, "s"@) {
            Some(secs) => scaled(raw, secs, 1000),
            None => scaled(raw, raw, 1),
        },
    }
}

pub open spec fn millis_view(r: Result<u128, Error>) -> Result<u128, ErrorView> {
    match r {
        Ok(n) => Ok(n),
        Err(e) => Err(e@),
    }
}

fn scale_number(raw: &str, s: &[char], scale: u128) -> (r: Result<u128, Error>)
    requires
        scale <= 1000,
    ensures
        millis_view(r) == scaled(raw@, s@, scale as nat),
{
    match parse_number(s, 10, u64::MAX) {
        Some(n) => {
            assert(n * scale <= 0xffff_ffff_ffff_ffff * 1000) by (nonlinear_arith)
                requires
                    n <= 0xffff_ffff_ffff_ffff,
                    scale <= 1000,
            ;
            Ok(n as u128 * scale)
        },
        None => {
            let shown = quote(raw);
            Err(
                Error::parse(
                    "--interval",
                    None,
                    text2(
                        "expected a number of milliseconds, or a value like \"500ms\"/\"2s\", got ",
                        shown.as_str(),
                    ),
                ),
            )
        },
    }
}

/// Parses an interval into milliseconds.
pub fn parse_interval(raw: &str) -> (r: Result<u128, Error>)
    ensures
        millis_view(r) == interval_of(raw@),
{
    let cs = chars_of(raw);
    if let Some(ms) = strip_suffix(cs.as_slice(), "ms") {
        return scale_number(raw, ms, 1);
    }
    if let Some(secs) = strip_suffix(cs.as_slice(), "s") {
        return scale_number(raw, secs, 1000);
    }
    scale_number(raw, cs.as_slice(), 1)
}

/// The pieces, trimmed, without those that are empty.
pub open spec fn items_of(pieces: Seq<Seq<char>>) -> Seq<Seq<char>>
    decreases pieces.len(),
{
    if pieces.len() == 0 {
        seq![]
    } else {
        let before = items_of(pieces.drop_last());
        let item = trim_of(pieces.last());
        if item.len() == 0 {
            before
        } else {
            before.push(item)
        }
    }
}

/// The names in a comma-separated list, if all are known.
pub open spec fn collector_list_of(raw: Seq<char>, known: Seq<Seq<char>>) -> Result<
    Seq<Seq<char>>,
    ErrorView,
> {
    let items = items_of(split_of(raw, ','));
    match first_unknown(items, known) {
        Some(name) => Err(unknown_collector(name, known)),
        None => Ok(items),
    }
}

pub open spec fn list_view(r: Result<Vec<String>, Error>) -> Result<Seq<Seq<char>>, ErrorView> {
    match r {
        Ok(v) => Ok(strings(v@)),
        Err(e) => Err(e@),
    }
}

fn list_items(raw: &str) -> (r: Vec<String>)
    ensures
        strings(r@) == items_of(split_of(raw@, ',')),
{
    let cs = chars_of(raw);
    let pieces = split(cs.as_slice(), ',');
    let ghost ps = slices(pieces@);
    let mut out: Vec<String> = Vec::new();
    let mut i: usize = 0;
    assert(strings(out@) == Seq::<Seq<char>>::empty());
    while i < pieces.len()
        invariant
            i <= pieces.len(),
            ps == slices(pieces@),
            strings(out@) == items_of(ps.take(i as int)),
        decreases pieces.len() - i,
    {
        assert(ps.take(i + 1).drop_last() == ps.take(i as int));
        assert(ps.take(i + 1).last() == pieces@[i as int]@);
        let item = trim(pieces[i]);
        if item.len() > 0 {
            let ghost before = strings(out@);
            let text = string_of(item);
            out.push(text);
            assert(strings(out@) == before.push(text@));
        }
        i = i + 1;
    }
    assert(ps.take(i as int) == ps);
    out
}

/// Parses a comma-separated list of collectors. A name that none has is an
/// error, and never a flag without effect.
pub fn parse_collector_list(raw: &str, known: &[&str]) -> (r: Result<Vec<String>, Error>)
    ensures
        list_view(r) == collector_list_of(raw@, names(known@)),
{
    let items = list_items(raw);
    let ghost all = strings(items@);
    let mut i: usize = 0;
    assert(all.skip(0) == all);
    while i < items.len()
        invariant
            i <= items.len(),
            all == strings(items@),
            all == items_of(split_of(raw@, ',')),
            first_unknown(all.skip(i as int), names(known@)) == first_unknown(all, names(known@)),
        decreases items.len() - i,
    {
        assert(all.skip(i as int)[0] == items@[i as int]@);
        assert(all.skip(i as int).drop_first() == all.skip(i + 1));
        if !is_known(items[i].as_str(), known) {
            return Err(unknown_collector_error(items[i].as_str(), known));
        }
        i = i + 1;
    }
    Ok(items)
}

// ---------------------------------------------------------------------------
// Flags
// ---------------------------------------------------------------------------
/// The flags that take a value, by their long names.
#[derive(Debug, Clone, Copy, PartialEq, Eq, Structural)]
pub enum Valued {
    Interval,
    Format,
    Only,
    Skip,
    SysfsRoot,
    History,
}

/// What an argument is.
#[derive(Debug, Clone, Copy, PartialEq, Eq, Structural)]
pub enum Flag {
    Help,
    Version,
    Once,
    Summary,
    Verbose,
    Takes(Valued),
    Unknown,
}

pub open spec fn flag_of(arg: Seq<char>) -> Flag {
    if arg == "-h"@ || arg == "--help"@ {
        Flag::Help
    } else if arg == "-V"@ || arg == "--version"@ {
        Flag::Version
    } else if arg == "-1"@ || arg == "--once"@ {
        Flag::Once
    } else if arg == "--summary"@ {
        Flag::Summary
    } else if arg == "-v"@ || arg == "--verbose"@ {
        Flag::Verbose
    } else if arg == "-i"@ || arg == "--interval"@ {
        Flag::Takes(Valued::Interval)
    } else if arg == "-f"@ || arg == "--format"@ {
        Flag::Takes(Valued::Format)
    } else if arg == "--only"@ {
        Flag::Takes(Valued::Only)
    } else if arg == "--skip"@ {
        Flag::Takes(Valued::Skip)
    } else if arg == "--sysfs-root"@ {
        Flag::Takes(Valued::SysfsRoot)
    } else if arg == "--history"@ {
        Flag::Takes(Valued::History)
    } else {
        Flag::Unknown
    }
}

pub open spec fn long_name(flag: Valued) -> Seq<char> {
    match flag {
        Valued::Interval => "--interval"@,
        Valued::Format => "--format"@,
        Valued::Only => "--only"@,
        Valued::Skip => "--skip"@,
        Valued::SysfsRoot => "--sysfs-root"@,
        Valued::History => "--history"@,
    }
}

/// The error for a flag without its value.
pub open spec fn missing_value(flag: Valued) -> ErrorView {
    ErrorView::Parse { path: long_name(flag), line: None, reason: "missing value"@ }
}

/// `c` with the value of a flag.
pub open spec fn with_value(c: ConfigView, flag: Valued, value: Seq<char>) -> Result<
    ConfigView,
    ErrorView,
> {
    match flag {
        Valued::Interval => match interval_of(value) {
            Ok(interval) => Ok(ConfigView { interval, ..c }),
            Err(e) => Err(e),
        },
        Valued::Format => if value == "text"@ {
            Ok(ConfigView { format: OutputFormat::Text, ..c })
        } else if value == "json"@ {
            Ok(ConfigView { format: OutputFormat::Json, ..c })
        } else {
            Err(
                ErrorView::Parse {
                    path: "--format"@,
                    line: None,
                    reason: "expected \"text\" or \"json\", got "@ + quoted(value),
                },
            )
        },
        Valued::Only => match collector_list_of(value, all_collectors()) {
            Ok(only) => Ok(ConfigView { only, ..c }),
            Err(e) => Err(e),
        },
        Valued::Skip => match collector_list_of(value, all_collectors()) {
            Ok(skip) => Ok(ConfigView { skip, ..c }),
            Err(e) => Err(e),
        },
        Valued::SysfsRoot => Ok(ConfigView { sysfs_root: value, ..c }),
        Valued::History => match parse_of(value, 10, usize::MAX as nat) {
            Some(n) => Ok(ConfigView { history_len: n as usize, ..c }),
            None => Err(
                ErrorView::Parse {
                    path: "--history"@,
                    line: None,
                    reason: "expected a number, got "@ + quoted(value),
                },
            ),
        },
    }
}

/// The error for an argument that is no flag.
pub open spec fn unknown_flag(arg: Seq<char>) -> ErrorView {
    ErrorView::Parse { path: arg, line: None, reason: "unknown flag "@ + quoted(arg) }
}

/// What the arguments ask for, on top of what `c` says already. Help and
/// version end the parsing where they stand; else the last of several equal
/// flags counts, and the first error is the answer.
pub open spec fn parsed(c: ConfigView, args: Seq<Seq<char>>) -> Result<InvocationView, ErrorView>
    decreases args.len(),
{
    if args.len() == 0 {
        Ok(InvocationView::Run(c))
    } else {
        let rest = args.drop_first();
        match flag_of(args[0]) {
            Flag::Help => Ok(InvocationView::Help),
            Flag::Version => Ok(InvocationView::Version),
            Flag::Once => parsed(ConfigView { once: true, ..c }, rest),
            Flag::Summary => parsed(ConfigView { summary: true, ..c }, rest),
            Flag::Verbose => parsed(ConfigView { verbose: true, ..c }, rest),
            Flag::Takes(flag) => if rest.len() == 0 {
                Err(missing_value(flag))
            } else {
                match with_value(c, flag, rest[0]) {
                    Ok(next) => parsed(next, rest.drop_first()),
                    Err(e) => Err(e),
                }
            },
            Flag::Unknown => Err(unknown_flag(args[0])),
        }
    }
}

fn read_flag(arg: &str) -> (r: Flag)
    ensures
        r == flag_of(arg@),
{
    if same_str(arg, "-h") || same_str(arg, "--help") {
        Flag::Help
    } else if same_str(arg, "-V") || same_str(arg, "--version") {
        Flag::Version
    } else if same_str(arg, "-1") || same_str(arg, "--once") {
        Flag::Once
    } else if same_str(arg, "--summary") {
        Flag::Summary
    } else if same_str(arg, "-v") || same_str(arg, "--verbose") {
        Flag::Verbose
    } else if same_str(arg, "-i") || same_str(arg, "--interval") {
        Flag::Takes(Valued::Interval)
    } else if same_str(arg, "-f") || same_str(arg, "--format") {
        Flag::Takes(Valued::Format)
    } else if same_str(arg, "--only") {
        Flag::Takes(Valued::Only)
    } else if same_str(arg, "--skip") {
        Flag::Takes(Valued::Skip)
    } else if same_str(arg, "--sysfs-root") {
        Flag::Takes(Valued::SysfsRoot)
    } else if same_str(arg, "--history") {
        Flag::Takes(Valued::History)
    } else {
        Flag::Unknown
    }
}

fn missing_value_error(flag: Valued) -> (r: Error)
    ensures
        r@ == missing_value(flag),
{
    let name = match flag {
        Valued::Interval => "--interval",
        Valued::Format => "--format",
        Valued::Only => "--only",
        Valued::Skip => "--skip",
        Valued::SysfsRoot => "--sysfs-root",
        Valued::History => "--history",
    };
    Error::parse(name, None, "missing value".to_owned())
}

fn set_value(config: &mut Config, flag: Valued, value: &str) -> (r: Result<(), Error>)
    ensures
        match with_value(old(config)@, flag, value@) {
            Ok(next) => r is Ok && final(config)@ == next,
            Err(e) => r is Err && r->Err_0@ == e,
        },
{
    match flag {
        Valued::Interval => match parse_interval(value) {
            Ok(interval) => {
                config.interval = interval;
                Ok(())
            },
            Err(e) => Err(e),
        },
        Valued::Format => {
            if same_str(value, "text") {
                config.format = OutputFormat::Text;
                Ok(())
            } else if same_str(value, "json") {
                config.format = OutputFormat::Json;
                Ok(())
            } else {
                let shown = quote(value);
                Err(
                    Error::parse(
                        "--format",
                        None,
                        text2("expected \"text\" or \"json\", got ", shown.as_str()),
                    ),
                )
            }
        },
        Valued::Only => {
            let known = known_collectors();
            match parse_collector_list(value, known.as_slice()) {
                Ok(only) => {
                    config.only = only;
                    Ok(())
                },
                Err(e) => Err(e),
            }
        },
        Valued::Skip => {
            let known = known_collectors();
            match parse_collector_list(value, known.as_slice()) {
                Ok(skip) => {
                    config.skip = skip;
                    Ok(())
                },
                Err(e) => Err(e),
            }
        },
        Valued::SysfsRoot => {
            config.sysfs_root = value.to_owned();
            Ok(())
        },
        Valued::History => {
            let cs = chars_of(value);
            match parse_number(cs.as_slice(), 10, usize::MAX as u64) {
                Some(n) => {
                    config.history_len = n as usize;
                    Ok(())
                },
                None => {
                    let shown = quote(value);
                    Err(
                        Error::parse(
                            "--history",
                            None,
                            text2("expected a number, got ", shown.as_str()),
                        ),
                    )
                },
            }
        },
    }
}

/// Parses the arguments, without the program's name. The root that they name
/// is not looked at yet: [`settle`] does that.
pub fn parse(args: &[&str]) -> (r: Result<Invocation, Error>)
    ensures
        invocation_view(r) == parsed(default_config(), names(args@)),
{
    let ghost all = names(args@);
    let mut config = Config::new();
    let mut i: usize = 0;
    assert(all.skip(0) == all);
    while i < args.len()
        invariant
            i <= args.len(),
            all == names(args@),
            parsed(config@, all.skip(i as int)) == parsed(default_config(), all),
        decreases args.len() - i,
    {
        let arg = args[i];
        let ghost here = all.skip(i as int);
        assert(here[0] == arg@);
        assert(here.drop_first() == all.skip(i + 1));
        match read_flag(arg) {
            Flag::Help => return Ok(Invocation::Help),
            Flag::Version => return Ok(Invocation::Version),
            Flag::Once => {
                config.once = true;
            },
            Flag::Summary => {
                config.summary = true;
            },
            Flag::Verbose => {
                config.verbose = true;
            },
            Flag::Takes(flag) => {
                if i + 1 == args.len() {
                    return Err(missing_value_error(flag));
                }
                assert(here.drop_first()[0] == args@[i + 1]@);
                assert(here.drop_first().drop_first() == all.skip(i + 2));
                if let Err(e) = set_value(&mut config, flag, args[i + 1]) {
                    return Err(e);
                }
                i = i + 1;
            },
            Flag::Unknown => {
                let shown = quote(arg);
                return Err(Error::parse(arg, None, text2("unknown flag ", shown.as_str())));
            },
        }
        i = i + 1;
    }
    assert(all.skip(i as int) == Seq::<Seq<char>>::empty());
    Ok(Invocation::Run(config))
}

/// What is left of an invocation once its root is looked at.
pub open spec fn settled(
    i: InvocationView,
    canonical: Result<String, IoFailure>,
    is_dir: bool,
) -> Result<InvocationView, ErrorView> {
    match i {
        InvocationView::Run(c) => match validated(c, all_collectors(), canonical, is_dir) {
            (after, Ok(())) => Ok(InvocationView::Run(after)),
            (_, Err(e)) => Err(e),
        },
        other => Ok(other),
    }
}

/// Settles a parsed invocation: the limits are applied, and the root, of which
/// the caller says what it resolves to, has to be a directory.
pub fn settle(invocation: Invocation, canonical: Result<String, IoFailure>, is_dir: bool) -> (r: Result<
    Invocation,
    Error,
>)
    ensures
        invocation_view(r) == settled(invocation@, canonical, is_dir),
{
    match invocation {
        Invocation::Run(config) => {
            let mut config = config;
            let known = known_collectors();
            match config.validate(known.as_slice(), canonical, is_dir) {
                Ok(()) => Ok(Invocation::Run(config)),
                Err(e) => Err(e),
            }
        },
        Invocation::Help => Ok(Invocation::Help),
        Invocation::Version => Ok(Invocation::Version),
    }
}

/// The usage text.
pub fn help_text() -> (r: &'static str)
    ensures
        r@ == HELP@,
{
    HELP
}

/// What the version line says: the version, and which optional features are
/// built in.
pub open spec fn version_of(features: Seq<Seq<char>>) -> Seq<char> {
    "rustmon "@ + VERSION@ + "\nfeatures: "@ + if features.len() == 0 {
        "none"@
    } else {
        listed(features)
    }
}

pub fn version_text(features: &[&str]) -> (r: String)
    ensures
        r@ == version_of(names(features@)),
{
    let list = join_names(features);
    let shown = if features.len() == 0 {
        "none".to_owned()
    } else {
        list
    };
    text4("rustmon ", VERSION, "\nfeatures: ", shown.as_str())
}

/// Help and version are answered before anything behind them is looked at.
pub proof fn help_and_version_short_circuit(c: ConfigView, rest: Seq<Seq<char>>)
    ensures
        parsed(c, seq!["--help"@] + rest) == Ok::<InvocationView, ErrorView>(InvocationView::Help),
        parsed(c, seq!["--version"@] + rest) == Ok::<InvocationView, ErrorView>(
            InvocationView::Version,
        ),
{
    reveal_strlit("-h");
    reveal_strlit("--help");
    reveal_strlit("-V");
    reveal_strlit("--version");
    let a = seq!["--help"@] + rest;
    let b = seq!["--version"@] + rest;
    assert(a[0] == "--help"@);
    assert(b[0] == "--version"@);
    assert("--version"@[2] == 'v' && "--help"@[2] == 'h');
}

proof fn lemma_items_known(items: Seq<Seq<char>>, known: Seq<Seq<char>>)
    requires
        first_unknown(items, known) is None,
    ensures
        forall|i: int| 0 <= i < items.len() ==> known.contains(#[trigger] items[i]),
    decreases items.len(),
{
    if items.len() > 0 {
        let rest = items.drop_first();
        lemma_items_known(rest, known);
        assert forall|i: int| 0 <= i < items.len() implies known.contains(#[trigger] items[i]) by {
            if i > 0 {
                assert(items[i] == rest[i - 1]);
            }
        }
    }
}

/// Whatever parses names only collectors that exist.
pub proof fn parsed_names_are_known(c: ConfigView, args: Seq<Seq<char>>)
    requires
        forall|i: int| 0 <= i < c.only.len() ==> all_collectors().contains(#[trigger] c.only[i]),
        forall|i: int| 0 <= i < c.skip.len() ==> all_collectors().contains(#[trigger] c.skip[i]),
    ensures
        parsed(c, args) matches Ok(InvocationView::Run(after)) ==> {
            &&& forall|i: int|
                0 <= i < after.only.len() ==> all_collectors().contains(#[trigger] after.only[i])
            &&& forall|i: int|
                0 <= i < after.skip.len() ==> all_collectors().contains(#[trigger] after.skip[i])
        },
    decreases args.len(),
{
    if args.len() > 0 {
        let rest = args.drop_first();
        match flag_of(args[0]) {
            Flag::Once => parsed_names_are_known(ConfigView { once: true, ..c }, rest),
            Flag::Summary => parsed_names_are_known(ConfigView { summary: true, ..c }, rest),
            Flag::Verbose => parsed_names_are_known(ConfigView { verbose: true, ..c }, rest),
            Flag::Takes(flag) => {
                if rest.len() > 0 {
                    if let Ok(next) = with_value(c, flag, rest[0]) {
                        if flag == Valued::Only || flag == Valued::Skip {
                            lemma_items_known(items_of(split_of(rest[0], ',')), all_collectors());
                        }
                        parsed_names_are_known(next, rest.drop_first());
                    }
                }
            },
            _ => {},
        }
    }
}

// ---------------------------------------------------------------------------
// What each flag does
// ---------------------------------------------------------------------------
proof fn lemma_flags()
    ensures
        flag_of("-h"@) == Flag::Help,
        flag_of("--help"@) == Flag::Help,
        flag_of("-V"@) == Flag::Version,
        flag_of("--version"@) == Flag::Version,
        flag_of("-1"@) == Flag::Once,
        flag_of("--once"@) == Flag::Once,
        flag_of("--summary"@) == Flag::Summary,
        flag_of("-v"@) == Flag::Verbose,
        flag_of("--verbose"@) == Flag::Verbose,
        flag_of("-i"@) == Flag::Takes(Valued::Interval),
        flag_of("--interval"@) == Flag::Takes(Valued::Interval),
        flag_of("-f"@) == Flag::Takes(Valued::Format),
        flag_of("--format"@) == Flag::Takes(Valued::Format),
        flag_of("--only"@) == Flag::Takes(Valued::Only),
        flag_of("--skip"@) == Flag::Takes(Valued::Skip),
        flag_of("--sysfs-root"@) == Flag::Takes(Valued::SysfsRoot),
        flag_of("--history"@) == Flag::Takes(Valued::History),
{
    reveal_strlit("-h");
    reveal_strlit("--help");
    reveal_strlit("-V");
    reveal_strlit("--version");
    reveal_strlit("-1");
    reveal_strlit("--once");
    reveal_strlit("--summary");
    reveal_strlit("-v");
    reveal_strlit("--verbose");
    reveal_strlit("-i");
    reveal_strlit("--interval");
    reveal_strlit("-f");
    reveal_strlit("--format");
    reveal_strlit("--only");
    reveal_strlit("--skip");
    reveal_strlit("--sysfs-root");
    reveal_strlit("--history");
    assert("-h"@.len() == 2);
    assert("--help"@.len() == 6);
    assert("-V"@.len() == 2);
    assert("--version"@.len() == 9);
    assert("-1"@.len() == 2);
    assert("--once"@.len() == 6);
    assert("--summary"@.len() == 9);
    assert("-v"@.len() == 2);
    assert("--verbose"@.len() == 9);
    assert("-i"@.len() == 2);
    assert("--interval"@.len() == 10);
    assert("-f"@.len() == 2);
    assert("--format"@.len() == 8);
    assert("--only"@.len() == 6);
    assert("--skip"@.len() == 6);
    assert("--sysfs-root"@.len() == 12);
    assert("--history"@.len() == 9);
    assert("-h"@[1] != "-V"@[1]);
    assert("-h"@[1] != "-1"@[1]);
    assert("-h"@[1] != "-v"@[1]);
    assert("-h"@[1] != "-i"@[1]);
    assert("-h"@[1] != "-f"@[1]);
    assert("--help"@[2] != "--once"@[2]);
    assert("--help"@[2] != "--only"@[2]);
    assert("--help"@[2] != "--skip"@[2]);
    assert("-V"@[1] != "-1"@[1]);
    assert("-V"@[1] != "-v"@[1]);
    assert("-V"@[1] != "-i"@[1]);
    assert("-V"@[1] != "-f"@[1]);
    assert("--version"@[2] != "--summary"@[2]);
    assert("--version"@[5] != "--verbose"@[5]);
    assert("--version"@[2] != "--history"@[2]);
    assert("-1"@[1] != "-v"@[1]);
    assert("-1"@[1] != "-i"@[1]);
    assert("-1"@[1] != "-f"@[1]);
    assert("--once"@[4] != "--only"@[4]);
    assert("--once"@[2] != "--skip"@[2]);
    assert("--summary"@[2] != "--verbose"@[2]);
    assert("--summary"@[2] != "--history"@[2]);
    assert("-v"@[1] != "-i"@[1]);
    assert("-v"@[1] != "-f"@[1]);
    assert("--verbose"@[2] != "--history"@[2]);
    assert("-i"@[1] != "-f"@[1]);
    assert("--only"@[2] != "--skip"@[2]);
}

proof fn lemma_two(a: Seq<char>, v: Seq<char>, rest: Seq<Seq<char>>)
    ensures
        (seq![a, v] + rest)[0] == a,
        (seq![a, v] + rest).drop_first()[0] == v,
        (seq![a, v] + rest).drop_first().drop_first() == rest,
{
    let all = seq![a, v] + rest;
    assert(all.drop_first().drop_first() =~= rest);
}

/// A switch sets its own setting and no other, and the rest is read as before; its
/// short form does the same.
pub proof fn switches_set_their_own_setting(c: ConfigView, rest: Seq<Seq<char>>)
    ensures
        parsed(c, seq!["--once"@] + rest) == parsed(ConfigView { once: true, ..c }, rest),
        parsed(c, seq!["-1"@] + rest) == parsed(ConfigView { once: true, ..c }, rest),
        parsed(c, seq!["--summary"@] + rest) == parsed(ConfigView { summary: true, ..c }, rest),
        parsed(c, seq!["--verbose"@] + rest) == parsed(ConfigView { verbose: true, ..c }, rest),
        parsed(c, seq!["-v"@] + rest) == parsed(ConfigView { verbose: true, ..c }, rest),
        parsed(c, seq!["-h"@] + rest) == parsed(c, seq!["--help"@] + rest),
        parsed(c, seq!["-V"@] + rest) == parsed(c, seq!["--version"@] + rest),
{
    lemma_flags();
    assert((seq!["--once"@] + rest).drop_first() =~= rest);
    assert((seq!["-1"@] + rest).drop_first() =~= rest);
    assert((seq!["--summary"@] + rest).drop_first() =~= rest);
    assert((seq!["--verbose"@] + rest).drop_first() =~= rest);
    assert((seq!["-v"@] + rest).drop_first() =~= rest);
}

/// A flag with a value sets its own setting to that value and no other setting, or
/// its error is the answer; its short form does the same.
pub proof fn values_set_their_own_setting(c: ConfigView, v: Seq<char>, rest: Seq<Seq<char>>)
    ensures
        parsed(c, seq!["--interval"@, v] + rest) == (match interval_of(v) {
            Ok(interval) => parsed(ConfigView { interval, ..c }, rest),
            Err(e) => Err(e),
        }),
        parsed(c, seq!["-i"@, v] + rest) == parsed(c, seq!["--interval"@, v] + rest),
        parsed(c, seq!["--format"@, "json"@] + rest) == parsed(
            ConfigView { format: OutputFormat::Json, ..c },
            rest,
        ),
        parsed(c, seq!["--format"@, "text"@] + rest) == parsed(
            ConfigView { format: OutputFormat::Text, ..c },
            rest,
        ),
        v != "json"@ && v != "text"@ ==> parsed(c, seq!["--format"@, v] + rest) is Err,
        parsed(c, seq!["-f"@, v] + rest) == parsed(c, seq!["--format"@, v] + rest),
        parsed(c, seq!["--only"@, v] + rest) == (match collector_list_of(v, all_collectors()) {
            Ok(only) => parsed(ConfigView { only, ..c }, rest),
            Err(e) => Err(e),
        }),
        parsed(c, seq!["--skip"@, v] + rest) == (match collector_list_of(v, all_collectors()) {
            Ok(skip) => parsed(ConfigView { skip, ..c }, rest),
            Err(e) => Err(e),
        }),
        parsed(c, seq!["--sysfs-root"@, v] + rest) == parsed(
            ConfigView { sysfs_root: v, ..c },
            rest,
        ),
        parsed(c, seq!["--history"@, v] + rest) == (match parse_of(v, 10, usize::MAX as nat) {
            Some(n) => parsed(ConfigView { history_len: n as usize, ..c }, rest),
            None => parsed(c, seq!["--history"@, v] + rest),
        }),
        parse_of(v, 10, usize::MAX as nat) is None ==> parsed(
            c,
            seq!["--history"@, v] + rest,
        ) is Err,
{
    lemma_flags();
    lemma_two("--interval"@, v, rest);
    lemma_two("-i"@, v, rest);
    lemma_two("--format"@, v, rest);
    lemma_two("-f"@, v, rest);
    lemma_two("--format"@, "json"@, rest);
    lemma_two("--format"@, "text"@, rest);
    lemma_two("--only"@, v, rest);
    lemma_two("--skip"@, v, rest);
    lemma_two("--sysfs-root"@, v, rest);
    lemma_two("--history"@, v, rest);
    reveal_strlit("json");
    reveal_strlit("text");
    assert("json"@[0] != "text"@[0]);
}

/// A flag that takes a value and stands last is an error, and so is an argument that
/// is no flag.
pub proof fn bad_arguments_are_refused(c: ConfigView, arg: Seq<char>, rest: Seq<Seq<char>>)
    ensures
        flag_of(arg) == Flag::Unknown ==> parsed(c, seq![arg] + rest) is Err,
        parsed(c, seq!["--interval"@]) is Err,
        parsed(c, seq!["--format"@]) is Err,
        parsed(c, seq!["--only"@]) is Err,
        parsed(c, seq!["--skip"@]) is Err,
        parsed(c, seq!["--sysfs-root"@]) is Err,
        parsed(c, seq!["--history"@]) is Err,
        parsed(c, seq![]) == Ok::<InvocationView, ErrorView>(InvocationView::Run(c)),
{
    lemma_flags();
    assert((seq![arg] + rest)[0] == arg);
}

/// A number is taken as milliseconds, with or without their unit, and as seconds
/// with theirs.
pub proof fn intervals_are_in_milliseconds(n: u64)
    ensures
        interval_of(decimal(n as nat)) == Ok::<u128, ErrorView>(n as u128),
        interval_of(decimal(n as nat) + "ms"@) == Ok::<u128, ErrorView>(n as u128),
        interval_of(decimal(n as nat) + "s"@) == Ok::<u128, ErrorView>((n * 1000) as u128),
{
    reveal_strlit("ms");
    reveal_strlit("s");
    let d = decimal(n as nat);
    lemma_decimal_digits(n as nat);
    decimal_round_trip(n);
    let k = d.len() as int;
    assert(digit_of(d[k - 1], 10) is Some);
    assert(!ends(d, "s"@)) by {
        if ends(d, "s"@) {
            assert(d.skip(k - 1)[0] == 's');
        }
    }
    assert(!ends(d, "ms"@)) by {
        if ends(d, "ms"@) {
            assert(d.skip(k - 2)[1] == 's');
        }
    }
    let m = d + "ms"@;
    assert(m.skip(k) =~= "ms"@);
    assert(m.take(k) =~= d);
    let s = d + "s"@;
    assert(s.skip(k) =~= "s"@);
    assert(s.take(k) =~= d);
    assert(!ends(s, "ms"@)) by {
        if ends(s, "ms"@) {
            assert(s.skip(k - 1)[0] == 'm');
            assert(s[k - 1] == d[k - 1]);
        }
    }
}

proof fn lemma_items_sum(a: Seq<Seq<char>>, b: Seq<Seq<char>>)
    ensures
        items_of(a + b) == items_of(a) + items_of(b),
    decreases b.len(),
{
    if b.len() == 0 {
        assert(a + b == a);
    } else {
        lemma_items_sum(a, b.drop_last());
        assert((a + b).drop_last() == a + b.drop_last());
    }
}

/// The names of a list are those on either side of each comma, in their order.
pub proof fn lists_are_cut_at_their_commas(a: Seq<char>, b: Seq<char>)
    ensures
        items_of(split_of(a + seq![','] + b, ',')) == items_of(split_of(a, ',')) + items_of(
            split_of(b, ','),
        ),
{
    splitting_parts_at_every_separator(a, b, ',');
    lemma_items_sum(split_of(a, ','), split_of(b, ','));
}

/// A name without commas is itself, without the blanks around it, and nothing where
/// only blanks are left.
pub proof fn a_single_name_is_trimmed(a: Seq<char>)
    requires
        forall|i: int| 0 <= i < a.len() ==> a[i] != ',',
    ensures
        items_of(split_of(a, ',')) == (if trim_of(a).len() == 0 {
            Seq::<Seq<char>>::empty()
        } else {
            seq![trim_of(a)]
        }),
{
    lemma_index_of_is(a, ',', a.len() as int);
    assert(split_of(a, ',') == seq![a]);
    assert(seq![a].drop_last() =~= Seq::<Seq<char>>::empty());
    reveal_with_fuel(items_of, 2);
}

} // verus!
