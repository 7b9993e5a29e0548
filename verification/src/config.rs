//! What a run is asked to do.

use vstd::prelude::*;

use crate::error::{Error, ErrorView, IoFailure};
use crate::sysfs::{quote, quoted};
use crate::text::{push_str, same_str, strings, text4};

verus! {

/// The shortest refresh interval, in milliseconds: no interval at all would
/// load the processor that is being measured.
pub const MIN_INTERVAL: u128 = 100;

/// The usual refresh interval, in milliseconds.
pub const DEFAULT_INTERVAL: u128 = 1000;

/// The usual number of samples that are kept.
pub const DEFAULT_HISTORY_LEN: usize = 120;

/// The largest number of samples that are kept, whatever is asked for.
pub const MAX_HISTORY_LEN: usize = 3600;

#[derive(Debug, Clone, Copy, PartialEq, Eq, Structural)]
pub enum OutputFormat {
    /// Columns for people.
    Text,
    /// A fixed schema for scripts.
    Json,
}

impl Default for OutputFormat {
    fn default() -> (r: OutputFormat)
        ensures
            r == OutputFormat::Text,
    {
        OutputFormat::Text
    }
}

#[derive(Debug)]
pub struct Config {
    /// The refresh interval in milliseconds.
    pub interval: u128,
    /// Where all reads start: `/` in production.
    pub sysfs_root: String,
    /// If not empty, only these collectors run.
    pub only: Vec<String>,
    /// These collectors never run.
    pub skip: Vec<String>,
    /// One snapshot, and no more.
    pub once: bool,
    /// One line for a shell prompt, and no more.
    pub summary: bool,
    /// How a single snapshot is written.
    pub format: OutputFormat,
    /// Whether to show what could not be collected.
    pub verbose: bool,
    /// How many samples are kept.
    pub history_len: usize,
}

pub struct ConfigView {
    pub interval: u128,
    pub sysfs_root: Seq<char>,
    pub only: Seq<Seq<char>>,
    pub skip: Seq<Seq<char>>,
    pub once: bool,
    pub summary: bool,
    pub format: OutputFormat,
    pub verbose: bool,
    pub history_len: usize,
}

impl View for Config {
    type V = ConfigView;

    open spec fn view(&self) -> ConfigView {
        ConfigView {
            interval: self.interval,
            sysfs_root: self.sysfs_root@,
            only: strings(self.only@),
            skip: strings(self.skip@),
            once: self.once,
            summary: self.summary,
            format: self.format,
            verbose: self.verbose,
            history_len: self.history_len,
        }
    }
}

/// A second between refreshes, everything below `/`, and every collector.
pub open spec fn default_config() -> ConfigView {
    ConfigView {
        interval: DEFAULT_INTERVAL,
        sysfs_root: "/"@,
        only: seq![],
        skip: seq![],
        once: false,
        summary: false,
        format: OutputFormat::Text,
        verbose: false,
        history_len: DEFAULT_HISTORY_LEN,
    }
}

/// The views of a list of borrowed strings.
pub open spec fn names(v: Seq<&str>) -> Seq<Seq<char>> {
    v.map_values(|s: &str| s@)
}

/// Names with a comma and a space between each two.
pub open spec fn listed(names: Seq<Seq<char>>) -> Seq<char>
    decreases names.len(),
{
    if names.len() == 0 {
        seq![]
    } else if names.len() == 1 {
        names[0]
    } else {
        listed(names.drop_last()) + ", "@ + names.last()
    }
}

/// The error for a name that no collector has.
pub open spec fn unknown_collector(name: Seq<char>, known: Seq<Seq<char>>) -> ErrorView {
    ErrorView::Parse {
        path: "--only/--skip"@,
        line: None,
        reason: "unknown collector "@ + quoted(name) + " — known collectors: "@ + listed(known),
    }
}

/// The first of `names` that is not known.
pub open spec fn first_unknown(names: Seq<Seq<char>>, known: Seq<Seq<char>>) -> Option<Seq<char>>
    decreases names.len(),
{
    if names.len() == 0 {
        None
    } else if known.contains(names[0]) {
        first_unknown(names.drop_first(), known)
    } else {
        Some(names[0])
    }
}

/// `c` with interval and history within their limits.
pub open spec fn clamped(c: ConfigView) -> ConfigView {
    ConfigView {
        interval: if c.interval < MIN_INTERVAL {
            MIN_INTERVAL
        } else {
            c.interval
        },
        history_len: if c.history_len > MAX_HISTORY_LEN {
            MAX_HISTORY_LEN
        } else {
            c.history_len
        },
        ..c
    }
}

/// What validation leaves of a configuration, and what it says. `canonical` is
/// what the operating system resolves the root to.
pub open spec fn validated(
    c: ConfigView,
    known: Seq<Seq<char>>,
    canonical: Result<String, IoFailure>,
    is_dir: bool,
) -> (ConfigView, Result<(), ErrorView>) {
    let within = clamped(c);
    match canonical {
        Err(source) => (within, Err(ErrorView::Io { path: c.sysfs_root, source: source@ })),
        Ok(path) => if !is_dir {
            (
                within,
                Err(
                    ErrorView::PathRejected {
                        path: c.sysfs_root,
                        reason: "sysfs root is not a directory"@,
                    },
                ),
            )
        } else {
            let rooted = ConfigView { sysfs_root: path@, ..within };
            match first_unknown(c.only + c.skip, known) {
                Some(name) => (rooted, Err(unknown_collector(name, known))),
                None => (rooted, Ok(())),
            }
        },
    }
}

/// The collector runs: it is among those asked for, if any are, and not among
/// those left out.
pub open spec fn wanted(c: ConfigView, collector: Seq<char>) -> bool {
    (c.only.len() == 0 || c.only.contains(collector)) && !c.skip.contains(collector)
}

pub fn is_among(name: &str, list: &Vec<String>) -> (r: bool)
    ensures
        r == strings(list@).contains(name@),
{
    let ghost all = strings(list@);
    let mut i: usize = 0;
    while i < list.len()
        invariant
            i <= list.len(),
            all == strings(list@),
            forall|k: int| 0 <= k < i ==> all[k] != name@,
        decreases list.len() - i,
    {
        assert(all[i as int] == list@[i as int]@);
        if same_str(list[i].as_str(), name) {
            return true;
        }
        i = i + 1;
    }
    false
}

pub fn is_known(name: &str, known: &[&str]) -> (r: bool)
    ensures
        r == names(known@).contains(name@),
{
    let ghost all = names(known@);
    let mut i: usize = 0;
    while i < known.len()
        invariant
            i <= known.len(),
            all == names(known@),
            forall|k: int| 0 <= k < i ==> all[k] != name@,
        decreases known.len() - i,
    {
        assert(all[i as int] == known@[i as int]@);
        if same_str(known[i], name) {
            return true;
        }
        i = i + 1;
    }
    false
}

/// Names with a comma and a space between each two.
pub fn join_names(list: &[&str]) -> (r: String)
    ensures
        r@ == listed(names(list@)),
{
    let ghost all = names(list@);
    let mut out: String = String::new();
    let mut i: usize = 0;
    assert(all.take(0) == Seq::<Seq<char>>::empty());
    while i < list.len()
        invariant
            i <= list.len(),
            all == names(list@),
            out@ == listed(all.take(i as int)),
        decreases list.len() - i,
    {
        let ghost before = out@;
        if i > 0 {
            push_str(&mut out, ", ");
        }
        push_str(&mut out, list[i]);
        assert(all.take(i + 1).drop_last() == all.take(i as int));
        assert(all.take(i + 1).last() == list@[i as int]@);
        assert(out@ == listed(all.take(i + 1)));
        i = i + 1;
    }
    assert(all.take(i as int) == all);
    out
}

/// The error for a name that no collector has.
pub fn unknown_collector_error(name: &str, known: &[&str]) -> (r: Error)
    ensures
        r@ == unknown_collector(name@, names(known@)),
{
    let shown = quote(name);
    let list = join_names(known);
    Error::parse(
        "--only/--skip",
        None,
        text4("unknown collector ", shown.as_str(), " — known collectors: ", list.as_str()),
    )
}

fn find_unknown(list: &Vec<String>, known: &[&str]) -> (r: Option<usize>)
    ensures
        match r {
            Some(i) => i < list@.len() && first_unknown(strings(list@), names(known@)) == Some(
                list@[i as int]@,
            ),
            None => first_unknown(strings(list@), names(known@)) is None,
        },
{
    let ghost all = strings(list@);
    let mut i: usize = 0;
    assert(all.skip(0) == all);
    while i < list.len()
        invariant
            i <= list.len(),
            all == strings(list@),
            first_unknown(all.skip(i as int), names(known@)) == first_unknown(all, names(known@)),
        decreases list.len() - i,
    {
        assert(all.skip(i as int)[0] == list@[i as int]@);
        assert(all.skip(i as int).drop_first() == all.skip(i + 1));
        if !is_known(list[i].as_str(), known) {
            return Some(i);
        }
        i = i + 1;
    }
    None
}

/// An unknown name among the first list decides before the second.
proof fn lemma_first_unknown(a: Seq<Seq<char>>, b: Seq<Seq<char>>, known: Seq<Seq<char>>)
    ensures
        first_unknown(a + b, known) == (match first_unknown(a, known) {
            Some(name) => Some(name),
            None => first_unknown(b, known),
        }),
    decreases a.len(),
{
    if a.len() == 0 {
        assert(a + b == b);
    } else {
        lemma_first_unknown(a.drop_first(), b, known);
        assert((a + b).drop_first() == a.drop_first() + b);
    }
}

impl Config {
    pub fn new() -> (r: Config)
        ensures
            r@ == default_config(),
    {
        let r = Config {
            interval: DEFAULT_INTERVAL,
            sysfs_root: "/".to_owned(),
            only: Vec::new(),
            skip: Vec::new(),
            once: false,
            summary: false,
            format: OutputFormat::default(),
            verbose: false,
            history_len: DEFAULT_HISTORY_LEN,
        };
        assert(strings(r.only@) == Seq::<Seq<char>>::empty());
        assert(strings(r.skip@) == Seq::<Seq<char>>::empty());
        r
    }

    /// Applies the limits and checks the rest: the root is resolved and is a
    /// directory, and every collector that is named exists.
    pub fn validate(
        &mut self,
        known_collectors: &[&str],
        canonical: Result<String, IoFailure>,
        is_dir: bool,
    ) -> (r: Result<(), Error>)
        ensures
            (final(self)@, crate::collector::unit_view(r)) == validated(
                old(self)@,
                names(known_collectors@),
                canonical,
                is_dir,
            ),
    {
        if self.interval < MIN_INTERVAL {
            self.interval = MIN_INTERVAL;
        }
        if self.history_len > MAX_HISTORY_LEN {
            self.history_len = MAX_HISTORY_LEN;
        }
        let path = match canonical {
            Err(source) => return Err(Error::Io { path: self.sysfs_root.clone(), source }),
            Ok(path) => path,
        };
        if !is_dir {
            return Err(
                Error::rejected(self.sysfs_root.as_str(), "sysfs root is not a directory"),
            );
        }
        self.sysfs_root = path;
        proof {
            lemma_first_unknown(strings(self.only@), strings(self.skip@), names(known_collectors@));
        }
        if let Some(i) = find_unknown(&self.only, known_collectors) {
            return Err(unknown_collector_error(self.only[i].as_str(), known_collectors));
        }
        if let Some(i) = find_unknown(&self.skip, known_collectors) {
            return Err(unknown_collector_error(self.skip[i].as_str(), known_collectors));
        }
        Ok(())
    }

    /// Should this collector run? The more restrictive of the two lists wins.
    pub fn wants(&self, collector: &str) -> (r: bool)
        ensures
            r == wanted(self@, collector@),
    {
        assert(strings(self.only@).len() == self.only@.len());
        (self.only.len() == 0 || is_among(collector, &self.only)) && !is_among(
            collector,
            &self.skip,
        )
    }
}

impl Default for Config {
    fn default() -> (r: Config)
        ensures
            r@ == default_config(),
    {
        Config::new()
    }
}

/// A collector that is skipped does not run, whatever else is asked for.
pub proof fn skipping_wins(c: ConfigView, collector: Seq<char>)
    requires
        c.skip.contains(collector),
    ensures
        !wanted(c, collector),
{
}

/// What passes validation is within its limits, rooted where the operating
/// system says, and names only collectors that exist.
pub proof fn validation_settles_the_configuration(
    c: ConfigView,
    known: Seq<Seq<char>>,
    canonical: Result<String, IoFailure>,
    is_dir: bool,
)
    requires
        validated(c, known, canonical, is_dir).1 is Ok,
    ensures
        ({
            let after = validated(c, known, canonical, is_dir).0;
            &&& after.interval >= MIN_INTERVAL
            &&& after.history_len <= MAX_HISTORY_LEN
            &&& canonical matches Ok(path) && after.sysfs_root == path@
            &&& forall|i: int| 0 <= i < after.only.len() ==> known.contains(#[trigger] after.only[i])
            &&& forall|i: int| 0 <= i < after.skip.len() ==> known.contains(#[trigger] after.skip[i])
        }),
{
    lemma_all_known(c.only + c.skip, known);
    assert forall|i: int| 0 <= i < c.only.len() implies known.contains(#[trigger] c.only[i]) by {
        assert((c.only + c.skip)[i] == c.only[i]);
    }
    assert forall|i: int| 0 <= i < c.skip.len() implies known.contains(#[trigger] c.skip[i]) by {
        assert((c.only + c.skip)[c.only.len() + i] == c.skip[i]);
    }
}

proof fn lemma_all_known(list: Seq<Seq<char>>, known: Seq<Seq<char>>)
    requires
        first_unknown(list, known) is None,
    ensures
        forall|i: int| 0 <= i < list.len() ==> known.contains(#[trigger] list[i]),
    decreases list.len(),
{
    if list.len() > 0 {
        let rest = list.drop_first();
        lemma_all_known(rest, known);
        assert forall|i: int| 0 <= i < list.len() implies known.contains(#[trigger] list[i]) by {
            if i > 0 {
                assert(list[i] == rest[i - 1]);
            }
        }
    }
}

/// Without a list of those to run, every collector runs that is not left out. With
/// one, those on it run that are not left out, and no others.
pub proof fn the_lists_decide_what_runs(c: ConfigView, collector: Seq<char>)
    requires
        !c.skip.contains(collector),
    ensures
        c.only == Seq::<Seq<char>>::empty() ==> wanted(c, collector),
        forall|i: int| 0 <= i < c.only.len() && #[trigger] c.only[i] == collector ==> wanted(
            c,
            collector,
        ),
        c.only.len() > 0 && (forall|i: int|
            0 <= i < c.only.len() ==> #[trigger] c.only[i] != collector) ==> !wanted(c, collector),
{
}

/// Validation changes what is out of its limits, and the root. What is within its
/// limits stays, and so does all the rest.
pub proof fn validation_keeps_what_is_in_order(
    c: ConfigView,
    known: Seq<Seq<char>>,
    canonical: Result<String, IoFailure>,
    is_dir: bool,
)
    ensures
        ({
            let after = validated(c, known, canonical, is_dir).0;
            &&& c.interval >= 100 ==> after.interval == c.interval
            &&& c.interval < 100 ==> after.interval == 100
            &&& c.history_len <= 3600 ==> after.history_len == c.history_len
            &&& c.history_len > 3600 ==> after.history_len == 3600
            &&& after.only == c.only
            &&& after.skip == c.skip
            &&& after.once == c.once
            &&& after.summary == c.summary
            &&& after.format == c.format
            &&& after.verbose == c.verbose
            &&& canonical is Err || !is_dir ==> after.sysfs_root == c.sysfs_root
        }),
{
}

proof fn lemma_first_unknown_is(list: Seq<Seq<char>>, known: Seq<Seq<char>>, i: int)
    requires
        0 <= i < list.len(),
        !known.contains(list[i]),
        forall|k: int| 0 <= k < i ==> known.contains(#[trigger] list[k]),
    ensures
        first_unknown(list, known) == Some(list[i]),
    decreases list.len(),
{
    if i > 0 {
        let rest = list.drop_first();
        assert forall|k: int| 0 <= k < i - 1 implies known.contains(#[trigger] rest[k]) by {
            assert(rest[k] == list[k + 1]);
        }
        assert(known.contains(list[0]));
        lemma_first_unknown_is(rest, known, i - 1);
    }
}

proof fn lemma_none_unknown(list: Seq<Seq<char>>, known: Seq<Seq<char>>)
    requires
        forall|k: int| 0 <= k < list.len() ==> known.contains(#[trigger] list[k]),
    ensures
        first_unknown(list, known) is None,
    decreases list.len(),
{
    if list.len() > 0 {
        let rest = list.drop_first();
        assert forall|k: int| 0 <= k < rest.len() implies known.contains(#[trigger] rest[k]) by {
            assert(rest[k] == list[k + 1]);
        }
        assert(known.contains(list[0]));
        lemma_none_unknown(rest, known);
    }
}

/// Below a root that is a directory, names that all exist pass; else the first that
/// does not exist is refused by its name, those to run before those to leave out.
pub proof fn unknown_names_are_refused(
    c: ConfigView,
    known: Seq<Seq<char>>,
    root: String,
    i: int,
)
    ensures
        ({
            let named = c.only + c.skip;
            let said = validated(c, known, Ok(root), true).1;
            &&& (forall|k: int| 0 <= k < named.len() ==> known.contains(#[trigger] named[k]))
                ==> said is Ok
            &&& 0 <= i < named.len() && !known.contains(named[i]) && (forall|k: int|
                0 <= k < i ==> known.contains(#[trigger] named[k])) ==> said == Err::<(), ErrorView>(
                unknown_collector(named[i], known),
            )
        }),
{
    let named = c.only + c.skip;
    if forall|k: int| 0 <= k < named.len() ==> known.contains(#[trigger] named[k]) {
        lemma_none_unknown(named, known);
    }
    if 0 <= i < named.len() && !known.contains(named[i]) && (forall|k: int|
        0 <= k < i ==> known.contains(#[trigger] named[k])) {
        lemma_first_unknown_is(named, known, i);
    }
}

/// A root that the operating system cannot resolve is refused with its reason, and
/// one that is no directory as what it is, whatever collectors are named.
pub proof fn a_bad_root_is_refused(
    c: ConfigView,
    known: Seq<Seq<char>>,
    canonical: Result<String, IoFailure>,
)
    ensures
        canonical matches Err(e) ==> validated(c, known, canonical, true).1 == Err::<(), ErrorView>(
            ErrorView::Io { path: c.sysfs_root, source: e@ },
        ),
        canonical is Ok ==> (validated(c, known, canonical, false).1 matches Err(e) && e
            is PathRejected && e->PathRejected_path == c.sysfs_root),
{
}

} // verus!
