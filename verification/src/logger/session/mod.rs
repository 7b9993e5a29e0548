//! A session from its log file to its exit code.
//!
//! Each part that waits on the system is a machine: it says what to do next,
//! and takes in what came of it.

use vstd::prelude::*;

use crate::calendar::compact_text;
use crate::error::{IoErrorKind, IoFailure, IoFailureView};
use crate::logger::logfile::LogFile;
use crate::logger::signals::{StopSignal, StopSignalView};
use crate::logger::timestamp::{format_utc_compact, since_epoch};
use crate::number::{
    decimal, decimal_string, digits_value, lemma_decimal_digits, push_decimal,
};
use crate::sample::at_most_max;
use crate::sysfs::{join, joined, quote, quoted};
use crate::text::{begins, ends, push_str, text2, text3, text5, text_option_view};

pub mod unix;
pub mod windows;

verus! {

/// Why a session ends.
#[derive(Debug, PartialEq, Eq)]
pub enum StopReason {
    /// The phrase was typed. A command that runs by itself never ends so.
    StopPhrase,
    /// The wrapped shell or command is gone.
    ChildExited,
    /// The terminal that the logger itself runs in is closed.
    OuterClosed,
    /// The logger itself was told to stop.
    Signal(StopSignal),
}

pub enum StopReasonView {
    StopPhrase,
    ChildExited,
    OuterClosed,
    Signal(StopSignalView),
}

impl View for StopReason {
    type V = StopReasonView;

    open spec fn view(&self) -> StopReasonView {
        match self {
            StopReason::StopPhrase => StopReasonView::StopPhrase,
            StopReason::ChildExited => StopReasonView::ChildExited,
            StopReason::OuterClosed => StopReasonView::OuterClosed,
            StopReason::Signal(s) => StopReasonView::Signal(s@),
        }
    }
}

/// The reason as the footer gives it.
pub open spec fn reason_text(r: StopReasonView) -> Seq<char> {
    match r {
        StopReasonView::StopPhrase => "stoplogger command"@,
        StopReasonView::ChildExited => "process exited"@,
        StopReasonView::OuterClosed => "outer terminal input closed"@,
        StopReasonView::Signal(s) => "caught signal "@ + s.description,
    }
}

impl StopReason {
    pub fn to_string(&self) -> (r: String)
        ensures
            r@ == reason_text(self@),
    {
        match self {
            StopReason::StopPhrase => "stoplogger command".to_owned(),
            StopReason::ChildExited => "process exited".to_owned(),
            StopReason::OuterClosed => "outer terminal input closed".to_owned(),
            StopReason::Signal(s) => text2("caught signal ", s.description.as_str()),
        }
    }
}

// ---------------------------------------------------------------------------
// The log file
// ---------------------------------------------------------------------------
/// How many names are tried for the log.
pub const LOG_CREATE_ATTEMPTS: u32 = 16;

pub open spec fn log_name_stem(started_at: i64) -> Seq<char> {
    "rustlogger-"@ + compact_text(since_epoch(started_at))
}

/// The first name that is tried.
pub open spec fn log_name(started_at: i64) -> Seq<char> {
    log_name_stem(started_at) + ".log"@
}

/// The name that is tried at an attempt: behind the first, the process and the
/// attempt tell it apart.
pub open spec fn attempt_name(started_at: i64, pid: u32, attempt: u32) -> Seq<char> {
    if attempt == 0 {
        log_name(started_at)
    } else {
        log_name_stem(started_at) + "-"@ + decimal(pid as nat) + "-"@ + decimal(attempt as nat)
            + ".log"@
    }
}

/// The name of a log by the second in which its session starts.
pub fn log_filename(started_at: i64) -> (r: String)
    ensures
        r@ == log_name(started_at),
{
    let time = format_utc_compact(started_at);
    text3("rustlogger-", time.as_str(), ".log")
}

fn attempt_filename(started_at: i64, pid: u32, attempt: u32) -> (r: String)
    ensures
        r@ == attempt_name(started_at, pid, attempt),
{
    if attempt == 0 {
        return log_filename(started_at);
    }
    let time = format_utc_compact(started_at);
    let mut out: String = text3("rustlogger-", time.as_str(), "-");
    push_decimal(&mut out, pid as u64);
    push_str(&mut out, "-");
    push_decimal(&mut out, attempt as u64);
    push_str(&mut out, ".log");
    assert(out@ == attempt_name(started_at, pid, attempt));
    out
}

pub open spec fn in_dir(dir: Option<Seq<char>>, name: Seq<char>) -> Seq<char> {
    match dir {
        Some(d) => joined(d, name),
        None => name,
    }
}

/// What is to be done to get a log file.
pub enum LogAction {
    /// Make the directory and those above it, for the owner alone.
    MakeDir(String),
    /// Open a new file, for the owner alone. One that exists is not to be
    /// touched.
    Open(String),
    /// The file that was opened last is the log.
    Use(String),
    Fail(IoFailure),
}

pub enum LogStep {
    MakeDir(Seq<char>),
    Open(Seq<char>),
    Use(Seq<char>),
    Fail(IoFailureView),
}

impl View for LogAction {
    type V = LogStep;

    open spec fn view(&self) -> LogStep {
        match self {
            LogAction::MakeDir(d) => LogStep::MakeDir(d@),
            LogAction::Open(p) => LogStep::Open(p@),
            LogAction::Use(p) => LogStep::Use(p@),
            LogAction::Fail(e) => LogStep::Fail(e@),
        }
    }
}

/// How far the search for a log file has come.
#[derive(Debug, Clone, Copy, PartialEq, Eq, Structural)]
pub enum LogPhase {
    MakingDir,
    /// The name of this attempt is tried.
    Opening(u32),
}

/// The search for a log file that nobody else has.
pub struct LogCreation {
    dir: Option<String>,
    started_at: i64,
    pid: u32,
    phase: LogPhase,
}

pub struct LogCreationView {
    pub dir: Option<Seq<char>>,
    pub started_at: i64,
    pub pid: u32,
    pub phase: LogPhase,
}

impl View for LogCreation {
    type V = LogCreationView;

    closed spec fn view(&self) -> LogCreationView {
        LogCreationView {
            dir: text_option_view(self.dir),
            started_at: self.started_at,
            pid: self.pid,
            phase: self.phase,
        }
    }
}

/// The error where every name is taken.
pub open spec fn names_exhausted(started_at: i64, last: Seq<char>) -> IoFailureView {
    IoFailureView {
        kind: IoErrorKind::AlreadyExists,
        errno: None,
        message: "could not create a log file after "@ + decimal(LOG_CREATE_ATTEMPTS as nat)
            + " attempts (last tried a name based on "@ + quoted(log_name(started_at))
            + "); refusing to write to an existing path: "@ + last,
    }
}

impl LogCreationView {
    pub open spec fn wf(self) -> bool {
        self.phase matches LogPhase::Opening(n) ==> n < LOG_CREATE_ATTEMPTS
    }

    pub open spec fn path(self, attempt: u32) -> Seq<char> {
        in_dir(self.dir, attempt_name(self.started_at, self.pid, attempt))
    }

    /// What success or failure of the last action leads to. A name that is
    /// taken leads to the next one, and any other failure is final.
    pub open spec fn next(self, failure: Option<IoFailureView>) -> (LogCreationView, LogStep) {
        match (self.phase, failure) {
            (LogPhase::MakingDir, None) => (
                LogCreationView { phase: LogPhase::Opening(0), ..self },
                LogStep::Open(self.path(0)),
            ),
            (LogPhase::MakingDir, Some(e)) => (self, LogStep::Fail(e)),
            (LogPhase::Opening(n), None) => (self, LogStep::Use(self.path(n))),
            (LogPhase::Opening(n), Some(e)) => if e.kind != IoErrorKind::AlreadyExists {
                (self, LogStep::Fail(e))
            } else if n + 1 < LOG_CREATE_ATTEMPTS {
                (
                    LogCreationView { phase: LogPhase::Opening((n + 1) as u32), ..self },
                    LogStep::Open(self.path((n + 1) as u32)),
                )
            } else {
                (self, LogStep::Fail(names_exhausted(self.started_at, e.message)))
            },
        }
    }
}

impl LogCreation {
    /// Starts the search: in a directory that is made if it is missing, or in
    /// the present one.
    pub fn new(dir: Option<String>, started_at: i64, pid: u32) -> (r: (LogCreation, LogAction))
        ensures
            r.0@.wf(),
            r.0@.dir == text_option_view(dir),
            r.0@.started_at == started_at,
            r.0@.pid == pid,
            match dir {
                Some(d) => r.0@.phase == LogPhase::MakingDir && r.1@ == LogStep::MakeDir(d@),
                None => r.0@.phase == LogPhase::Opening(0) && r.1@ == LogStep::Open(r.0@.path(0)),
            },
    {
        match dir {
            Some(d) => {
                let action = LogAction::MakeDir(d.clone());
                (LogCreation { dir: Some(d), started_at, pid, phase: LogPhase::MakingDir }, action)
            },
            None => {
                let name = log_filename(started_at);
                (
                    LogCreation { dir: None, started_at, pid, phase: LogPhase::Opening(0) },
                    LogAction::Open(name),
                )
            },
        }
    }

    fn path_of(&self, attempt: u32) -> (r: String)
        ensures
            r@ == self@.path(attempt),
    {
        let name = attempt_filename(self.started_at, self.pid, attempt);
        match &self.dir {
            Some(d) => join(d.as_str(), name.as_str()),
            None => name,
        }
    }

    /// Takes in what came of the last action.
    pub fn advance(&mut self, failure: Option<IoFailure>) -> (r: LogAction)
        ensures
            old(self)@.wf() ==> final(self)@.wf(),
            (final(self)@, r@) == old(self)@.next(
                match failure {
                    Some(e) => Some(e@),
                    None => None,
                },
            ),
    {
        let n: u32 = match self.phase {
            LogPhase::MakingDir => {
                return match failure {
                    None => {
                        self.phase = LogPhase::Opening(0);
                        LogAction::Open(self.path_of(0))
                    },
                    Some(e) => LogAction::Fail(e),
                };
            },
            LogPhase::Opening(n) => n,
        };
        match failure {
            None => LogAction::Use(self.path_of(n)),
            Some(e) => {
                if !matches!(e.kind, IoErrorKind::AlreadyExists) {
                    return LogAction::Fail(e);
                }
                if n < LOG_CREATE_ATTEMPTS - 1 {
                    self.phase = LogPhase::Opening(n + 1);
                    return LogAction::Open(self.path_of(n + 1));
                }
                let tries = decimal_string(LOG_CREATE_ATTEMPTS as u64);
                let base = log_filename(self.started_at);
                let shown = quote(base.as_str());
                let mut message: String = text5(
                    "could not create a log file after ",
                    tries.as_str(),
                    " attempts (last tried a name based on ",
                    shown.as_str(),
                    "); refusing to write to an existing path: ",
                );
                push_str(&mut message, e.message.as_str());
                LogAction::Fail(
                    IoFailure { kind: IoErrorKind::AlreadyExists, errno: None, message },
                )
            },
        }
    }
}

/// Whichever attempt names the log, a search for `rustlogger-*.log` finds it.
pub proof fn log_names_keep_their_shape(started_at: i64, pid: u32, attempt: u32)
    ensures
        begins(attempt_name(started_at, pid, attempt), "rustlogger-"@),
        ends(attempt_name(started_at, pid, attempt), ".log"@),
{
    let name = attempt_name(started_at, pid, attempt);
    let p = "rustlogger-"@;
    let s = ".log"@;
    assert(name.take(p.len() as int) == p);
    assert(name.skip(name.len() - s.len()) == s);
}

/// No two attempts try the same name.
pub proof fn attempts_never_repeat(started_at: i64, pid: u32, a: u32, b: u32)
    requires
        a < b,
    ensures
        attempt_name(started_at, pid, a) != attempt_name(started_at, pid, b),
{
    reveal_strlit("-");
    reveal_strlit(".log");
    let stem = log_name_stem(started_at);
    let front = stem + "-"@ + decimal(pid as nat) + "-"@;
    let x = attempt_name(started_at, pid, a);
    let y = attempt_name(started_at, pid, b);
    lemma_decimal_digits(a as nat);
    lemma_decimal_digits(b as nat);
    if x == y {
        let n = front.len() as int;
        if a == 0 {
            assert(x.len() == stem.len() + 4);
            assert(y.len() > stem.len() + 5);
        } else {
            assert(x.subrange(n, x.len() - 4) == decimal(a as nat));
            assert(y.subrange(n, y.len() - 4) == decimal(b as nat));
            assert(digits_value(decimal(a as nat), 10) == digits_value(decimal(b as nat), 10));
        }
    }
}

/// How many steps a search may still take.
pub open spec fn steps_left(c: LogCreationView) -> int {
    match c.phase {
        LogPhase::MakingDir => LOG_CREATE_ATTEMPTS + 1,
        LogPhase::Opening(n) => LOG_CREATE_ATTEMPTS - n,
    }
}

/// What a search comes to where the paths that exist are those of `taken`, and
/// `refusal` is how the system refuses to open one of them as new.
pub open spec fn search(
    c: LogCreationView,
    taken: Set<Seq<char>>,
    refusal: spec_fn(Seq<char>) -> IoFailureView,
) -> LogStep
    decreases steps_left(c),
{
    match c.phase {
        LogPhase::MakingDir => search(c.next(None).0, taken, refusal),
        LogPhase::Opening(n) => {
            let failure = if taken.contains(c.path(n)) {
                Some(refusal(c.path(n)))
            } else {
                None
            };
            let (after, step) = c.next(failure);
            match step {
                LogStep::Open(_) => search(after, taken, refusal),
                _ => step,
            }
        },
    }
}

proof fn lemma_search(
    c: LogCreationView,
    n: u32,
    taken: Set<Seq<char>>,
    refusal: spec_fn(Seq<char>) -> IoFailureView,
)
    requires
        c.phase == LogPhase::Opening(n),
        n < LOG_CREATE_ATTEMPTS,
        forall|k: u32| k < n ==> taken.contains(#[trigger] c.path(k)),
        forall|path: Seq<char>| (#[trigger] refusal(path)).kind == IoErrorKind::AlreadyExists,
    ensures
        match search(c, taken, refusal) {
            LogStep::Use(path) => !taken.contains(path) && exists|m: u32|
                m < LOG_CREATE_ATTEMPTS && path == #[trigger] c.path(m) && forall|k: u32|
                    k < m ==> taken.contains(#[trigger] c.path(k)),
            LogStep::Fail(e) => e.kind == IoErrorKind::AlreadyExists && forall|k: u32|
                k < LOG_CREATE_ATTEMPTS ==> taken.contains(#[trigger] c.path(k)),
            _ => false,
        },
    decreases LOG_CREATE_ATTEMPTS - n,
{
    if taken.contains(c.path(n)) {
        let refused = refusal(c.path(n));
        assert(refused.kind == IoErrorKind::AlreadyExists);
        if n + 1 < LOG_CREATE_ATTEMPTS {
            let after = c.next(Some(refused)).0;
            assert forall|k: u32| true implies #[trigger] after.path(k) == c.path(k) by {}
            assert forall|k: u32| k < n + 1 implies taken.contains(#[trigger] after.path(k)) by {
                assert(after.path(k) == c.path(k));
                if k < n {
                    assert(taken.contains(c.path(k)));
                }
            }
            lemma_search(after, (n + 1) as u32, taken, refusal);
            assert(search(c, taken, refusal) == search(after, taken, refusal));
            match search(after, taken, refusal) {
                LogStep::Use(path) => {
                    let m = choose|m: u32|
                        m < LOG_CREATE_ATTEMPTS && path == #[trigger] after.path(m) && forall|k: u32|
                            k < m ==> taken.contains(#[trigger] after.path(k));
                    assert(path == c.path(m));
                    assert forall|k: u32| k < m implies taken.contains(#[trigger] c.path(k)) by {
                        assert(taken.contains(after.path(k)));
                    }
                },
                _ => {
                    assert forall|k: u32| k < LOG_CREATE_ATTEMPTS implies taken.contains(
                        #[trigger] c.path(k),
                    ) by {
                        assert(taken.contains(after.path(k)));
                    }
                },
            }
        } else {
            assert forall|k: u32| k < LOG_CREATE_ATTEMPTS implies taken.contains(
                #[trigger] c.path(k),
            ) by {
                if k < n {
                    assert(taken.contains(c.path(k)));
                } else {
                    assert(k == n);
                }
            }
        }
    }
}

/// Whatever exists already, a search uses the first name that is free, never
/// one that is taken, and fails exactly where every name that it may try is.
pub proof fn the_first_free_name_is_used(
    c: LogCreationView,
    taken: Set<Seq<char>>,
    refusal: spec_fn(Seq<char>) -> IoFailureView,
)
    requires
        c.phase == LogPhase::MakingDir || c.phase == LogPhase::Opening(0),
        forall|path: Seq<char>| (#[trigger] refusal(path)).kind == IoErrorKind::AlreadyExists,
    ensures
        match search(c, taken, refusal) {
            LogStep::Use(path) => !taken.contains(path) && exists|m: u32|
                m < LOG_CREATE_ATTEMPTS && path == #[trigger] c.path(m) && forall|k: u32|
                    k < m ==> taken.contains(#[trigger] c.path(k)),
            LogStep::Fail(e) => e.kind == IoErrorKind::AlreadyExists && forall|k: u32|
                k < LOG_CREATE_ATTEMPTS ==> taken.contains(#[trigger] c.path(k)),
            _ => false,
        },
{
    let opening = LogCreationView { phase: LogPhase::Opening(0), ..c };
    lemma_search(opening, 0, taken, refusal);
    assert(search(c, taken, refusal) == search(opening, taken, refusal));
    assert forall|k: u32| true implies #[trigger] opening.path(k) == c.path(k) by {}
    match search(opening, taken, refusal) {
        LogStep::Use(path) => {
            let m = choose|m: u32|
                m < LOG_CREATE_ATTEMPTS && path == #[trigger] opening.path(m) && forall|k: u32|
                    k < m ==> taken.contains(#[trigger] opening.path(k));
            assert(path == c.path(m));
            assert forall|k: u32| k < m implies taken.contains(#[trigger] c.path(k)) by {
                assert(taken.contains(opening.path(k)));
            }
        },
        _ => {
            assert forall|k: u32| k < LOG_CREATE_ATTEMPTS implies taken.contains(
                #[trigger] c.path(k),
            ) by {
                assert(taken.contains(opening.path(k)));
            }
        },
    }
}

/// Two sessions never share a log, though they start in the same second: what
/// one uses is taken for the next.
pub proof fn sessions_get_logs_of_their_own(
    c: LogCreationView,
    d: LogCreationView,
    taken: Set<Seq<char>>,
    refusal: spec_fn(Seq<char>) -> IoFailureView,
    path: Seq<char>,
)
    requires
        c.phase == LogPhase::MakingDir || c.phase == LogPhase::Opening(0),
        d.phase == LogPhase::MakingDir || d.phase == LogPhase::Opening(0),
        forall|p: Seq<char>| (#[trigger] refusal(p)).kind == IoErrorKind::AlreadyExists,
        search(c, taken, refusal) == LogStep::Use(path),
    ensures
        search(d, taken.insert(path), refusal) != LogStep::Use(path),
{
    the_first_free_name_is_used(d, taken.insert(path), refusal);
}

// ---------------------------------------------------------------------------
// The end of the child
// ---------------------------------------------------------------------------
/// How long the child has to exit after each signal, in milliseconds.
pub const SIGHUP_GRACE: u64 = 2000;

pub const SIGTERM_GRACE: u64 = 3000;

pub const SIGKILL_GRACE: u64 = 2000;

/// How long to wait before looking again whether the child has exited.
pub const REAP_POLL_INTERVAL: u64 = 25;

/// How hard the child is asked to stop.
#[derive(Debug, Clone, Copy, PartialEq, Eq, Structural)]
pub enum Force {
    /// What a terminal that hangs up sends.
    Hangup,
    Terminate,
    /// Nothing can refuse this.
    Kill,
}

pub open spec fn grace(f: Force) -> u64 {
    match f {
        Force::Hangup => SIGHUP_GRACE,
        Force::Terminate => SIGTERM_GRACE,
        Force::Kill => SIGKILL_GRACE,
    }
}

fn grace_of(f: Force) -> (r: u64)
    ensures
        r == grace(f),
{
    match f {
        Force::Hangup => SIGHUP_GRACE,
        Force::Terminate => SIGTERM_GRACE,
        Force::Kill => SIGKILL_GRACE,
    }
}

/// What is to be done to end the child.
#[derive(Debug, Clone, Copy, PartialEq, Eq, Structural)]
pub enum ReapAction {
    Send(Force),
    /// See whether the child has exited.
    Check,
    /// Sleep as many milliseconds.
    Sleep(u64),
    /// The child is gone, with its exit code if it has one; or it is not, and
    /// there is nothing left to try.
    Done(Option<Option<i32>>),
}

/// What came of it.
#[derive(Debug, Clone, Copy, PartialEq, Eq, Structural)]
pub enum ReapEvent {
    Sent,
    Running,
    Exited(Option<i32>),
    Slept,
}

/// The child's end in progress.
#[derive(Debug, Clone, Copy, PartialEq, Eq, Structural)]
pub struct Reaper {
    /// How hard the child was asked last.
    pub force: Force,
    /// When to ask harder.
    pub deadline: u64,
}

impl Reaper {
    /// The first request.
    pub fn new() -> (r: (Reaper, ReapAction))
        ensures
            r.0 == (Reaper { force: Force::Hangup, deadline: 0 }),
            r.1 == ReapAction::Send(Force::Hangup),
    {
        (Reaper { force: Force::Hangup, deadline: 0 }, ReapAction::Send(Force::Hangup))
    }

    /// What an event at the time `now` leads to: after a request the child is
    /// looked at until its time is up, and then asked harder.
    pub open spec fn next(self, event: ReapEvent, now: u64) -> (Reaper, ReapAction) {
        match event {
            ReapEvent::Sent => (
                Reaper { deadline: at_most_max(now + grace(self.force)), ..self },
                ReapAction::Check,
            ),
            ReapEvent::Exited(code) => (self, ReapAction::Done(Some(code))),
            ReapEvent::Slept => (self, ReapAction::Check),
            ReapEvent::Running => if now < self.deadline {
                (self, ReapAction::Sleep(REAP_POLL_INTERVAL))
            } else {
                match self.force {
                    Force::Hangup => (
                        Reaper { force: Force::Terminate, ..self },
                        ReapAction::Send(Force::Terminate),
                    ),
                    Force::Terminate => (
                        Reaper { force: Force::Kill, ..self },
                        ReapAction::Send(Force::Kill),
                    ),
                    Force::Kill => (self, ReapAction::Done(None)),
                }
            },
        }
    }

    pub fn advance(&mut self, event: ReapEvent, now: u64) -> (r: ReapAction)
        ensures
            (*final(self), r) == old(self).next(event, now),
    {
        match event {
            ReapEvent::Sent => {
                self.deadline = now.saturating_add(grace_of(self.force));
                ReapAction::Check
            },
            ReapEvent::Exited(code) => ReapAction::Done(Some(code)),
            ReapEvent::Slept => ReapAction::Check,
            ReapEvent::Running => {
                if now < self.deadline {
                    return ReapAction::Sleep(REAP_POLL_INTERVAL);
                }
                match self.force {
                    Force::Hangup => {
                        self.force = Force::Terminate;
                        ReapAction::Send(Force::Terminate)
                    },
                    Force::Terminate => {
                        self.force = Force::Kill;
                        ReapAction::Send(Force::Kill)
                    },
                    Force::Kill => ReapAction::Done(None),
                }
            },
        }
    }
}

/// A child that never exits is asked three times, harder each time, and then
/// given up: nothing waits for it forever.
pub proof fn a_stubborn_child_is_given_up(start: u64, t1: u64, t2: u64, t3: u64)
    requires
        start + SIGHUP_GRACE <= t1,
        t1 + SIGTERM_GRACE <= t2,
        t2 + SIGKILL_GRACE <= t3,
    ensures
        ({
            let asked = Reaper { force: Force::Hangup, deadline: 0 }.next(
                ReapEvent::Sent,
                start,
            ).0;
            let (harder, second) = asked.next(ReapEvent::Running, t1);
            let (hardest, third) = harder.next(ReapEvent::Sent, t1).0.next(ReapEvent::Running, t2);
            let (_, last) = hardest.next(ReapEvent::Sent, t2).0.next(ReapEvent::Running, t3);
            second == ReapAction::Send(Force::Terminate) && third == ReapAction::Send(Force::Kill)
                && last == ReapAction::Done(None)
        }),
{
}

/// A child that exits is reaped with its own code, whenever that happens.
pub proof fn an_exit_ends_the_wait(r: Reaper, code: Option<i32>, now: u64)
    ensures
        r.next(ReapEvent::Exited(code), now).1 == ReapAction::Done(Some(code)),
{
}

// ---------------------------------------------------------------------------
// The end of the session
// ---------------------------------------------------------------------------
/// Whether the child is to be asked to stop. One that exited by itself is only
/// waited for.
pub fn must_stop_child(reason: &StopReason) -> (r: bool)
    ensures
        r == !(reason@ is ChildExited),
{
    !matches!(reason, StopReason::ChildExited)
}

/// The exit code of the logger: that of a child that exited by itself, success
/// where the phrase was typed, the signal's where there was one, and failure
/// otherwise.
pub open spec fn session_exit(reason: StopReasonView, reaped: Option<Option<i32>>) -> i32 {
    match reason {
        StopReasonView::ChildExited => match reaped {
            Some(Some(code)) => code,
            _ => 1,
        },
        StopReasonView::StopPhrase => 0,
        StopReasonView::OuterClosed => 1,
        StopReasonView::Signal(s) => s.exit_code,
    }
}

/// The reason in the footer says so where the child may still be running.
pub open spec fn footer_reason(reason: StopReasonView, reaped: Option<Option<i32>>) -> Seq<char> {
    match reaped {
        Some(_) => reason_text(reason),
        None => reason_text(reason) + " (child did not exit; gave up after SIGKILL)"@,
    }
}

pub open spec fn child_code(reaped: Option<Option<i32>>) -> Option<i32> {
    match reaped {
        Some(code) => code,
        None => None,
    }
}

/// Writes the footer and gives the exit code, once the child was reaped or
/// given up.
pub fn finish_session(
    log: &mut LogFile,
    reason: &StopReason,
    reaped: Option<Option<i32>>,
    ended_at: i64,
) -> (r: i32)
    ensures
        r == session_exit(reason@, reaped),
        final(log)@ == old(log)@.finished(
            footer_reason(reason@, reaped),
            child_code(reaped),
            ended_at,
        ),
{
    let said = reason.to_string();
    let (text, code) = match reaped {
        Some(code) => (said, code),
        None => (
            text2(said.as_str(), " (child did not exit; gave up after SIGKILL)"),
            None,
        ),
    };
    log.finish(text.as_str(), code, ended_at);
    match reason {
        StopReason::ChildExited => match code {
            Some(code) => code,
            None => 1,
        },
        StopReason::StopPhrase => 0,
        StopReason::OuterClosed => 1,
        StopReason::Signal(s) => s.exit_code,
    }
}

/// A child that exited by itself gives its code to the logger. Typing the phrase is
/// a success, a closed terminal a failure, and a signal has its own code, whatever
/// the child did.
pub proof fn exits_follow_the_reason(reaped: Option<Option<i32>>, code: i32, s: StopSignalView)
    ensures
        session_exit(StopReasonView::ChildExited, Some(Some(code))) == code,
        session_exit(StopReasonView::ChildExited, Some(None)) == 1,
        session_exit(StopReasonView::ChildExited, None) == 1,
        session_exit(StopReasonView::StopPhrase, reaped) == 0,
        session_exit(StopReasonView::OuterClosed, reaped) == 1,
        session_exit(StopReasonView::Signal(s), reaped) == s.exit_code,
        child_code(Some(Some(code))) == Some(code),
        child_code(Some(None)) is None,
        child_code(None) is None,
{
}

/// A child has its whole time after each request before it is asked harder: two
/// seconds, three, and two.
pub proof fn children_have_their_time(r: Reaper, sent: u64, now: u64)
    requires
        sent <= u64::MAX - 3000,
    ensures
        ({
            let asked = r.next(ReapEvent::Sent, sent);
            let time = match r.force {
                Force::Hangup => 2000int,
                Force::Terminate => 3000,
                Force::Kill => 2000,
            };
            &&& asked.1 == ReapAction::Check
            &&& now < sent + time ==> asked.0.next(ReapEvent::Running, now) == (
                asked.0,
                ReapAction::Sleep(25),
            )
            &&& now >= sent + time ==> asked.0.next(ReapEvent::Running, now).1 == (match r.force {
                Force::Hangup => ReapAction::Send(Force::Terminate),
                Force::Terminate => ReapAction::Send(Force::Kill),
                Force::Kill => ReapAction::Done(None),
            })
        }),
{
}

/// Two reasons that differ read differently, and the name of a signal can be read.
pub proof fn reasons_are_told_apart(a: StopSignalView, b: StopSignalView)
    ensures
        reason_text(StopReasonView::StopPhrase) != reason_text(StopReasonView::ChildExited),
        reason_text(StopReasonView::StopPhrase) != reason_text(StopReasonView::OuterClosed),
        reason_text(StopReasonView::ChildExited) != reason_text(StopReasonView::OuterClosed),
        reason_text(StopReasonView::Signal(a)) != reason_text(StopReasonView::StopPhrase),
        reason_text(StopReasonView::Signal(a)) != reason_text(StopReasonView::ChildExited),
        reason_text(StopReasonView::Signal(a)) != reason_text(StopReasonView::OuterClosed),
        crate::text::ends(reason_text(StopReasonView::Signal(a)), a.description),
        reason_text(StopReasonView::Signal(a)) == reason_text(StopReasonView::Signal(b))
            ==> a.description == b.description,
{
    reveal_strlit("stoplogger command");
    reveal_strlit("process exited");
    reveal_strlit("outer terminal input closed");
    reveal_strlit("caught signal ");
    let phrase = "stoplogger command"@;
    let exited = "process exited"@;
    let closed = "outer terminal input closed"@;
    let front = "caught signal "@;
    assert(phrase[0] == 's' && exited[0] == 'p' && closed[0] == 'o' && front[0] == 'c');
    let (s, t) = (front + a.description, front + b.description);
    assert(s[0] == 'c');
    assert(s.skip(14) =~= a.description);
    assert(t.skip(14) =~= b.description);
}

/// The footer gives the reason, and says more where the child was given up.
pub proof fn footers_tell_of_a_child_given_up(reason: StopReasonView, code: Option<i32>)
    ensures
        footer_reason(reason, Some(code)) == reason_text(reason),
        crate::text::begins(footer_reason(reason, None), reason_text(reason)),
        footer_reason(reason, None) != reason_text(reason),
{
    reveal_strlit(" (child did not exit; gave up after SIGKILL)");
    let more = " (child did not exit; gave up after SIGKILL)"@;
    assert((reason_text(reason) + more).take(reason_text(reason).len() as int) =~= reason_text(reason));
    assert(more.len() > 0);
}

} // verus!
