//! The session's loop where one thread waits for whichever side has something
//! to say: the terminal outside, and the terminal of the wrapped shell.

use vstd::prelude::*;

use crate::error::{IoFailure, IoFailureView};
use crate::logger::logfile::{LogFile, LogView};
use crate::logger::session::{StopReason, StopReasonView};
use crate::logger::signals::{signal_view, StopSignal};
use crate::logger::stop_trigger::{StopTrigger, TriggerView};

verus! {

/// How many bytes are read at a time.
pub const BUF_SIZE: usize = 4096;

/// What reading from the shell's terminal gives on Linux once the shell has
/// closed its side.
pub const EIO: i32 = 5;

/// What is to be done next.
pub enum ProxyAction {
    /// Wait until a side has something to say.
    Poll,
    /// Read what was typed outside.
    ReadOuter,
    /// Hand what was typed to the shell.
    Forward(Vec<u8>),
    /// Read what the shell shows.
    ReadMaster,
    /// Show it outside.
    Show(Vec<u8>),
    /// The session ends.
    Stop(StopReason),
    Fail(IoFailure),
}

pub enum ProxyStep {
    Poll,
    ReadOuter,
    Forward(Seq<u8>),
    ReadMaster,
    Show(Seq<u8>),
    Stop(StopReasonView),
    Fail(IoFailureView),
}

impl View for ProxyAction {
    type V = ProxyStep;

    open spec fn view(&self) -> ProxyStep {
        match self {
            ProxyAction::Poll => ProxyStep::Poll,
            ProxyAction::ReadOuter => ProxyStep::ReadOuter,
            ProxyAction::Forward(b) => ProxyStep::Forward(b@),
            ProxyAction::ReadMaster => ProxyStep::ReadMaster,
            ProxyAction::Show(b) => ProxyStep::Show(b@),
            ProxyAction::Stop(r) => ProxyStep::Stop(r@),
            ProxyAction::Fail(e) => ProxyStep::Fail(e@),
        }
    }
}

/// What came of it.
pub enum ProxyEvent {
    /// The sides that have something to say.
    Polled { outer: bool, master: bool },
    /// Waiting was interrupted, by a signal that ends the session or by
    /// another.
    Interrupted(Option<StopSignal>),
    OuterRead(Vec<u8>),
    Forwarded(Vec<u8>),
    MasterRead(Vec<u8>),
    MasterFailed(IoFailure),
    Shown(Vec<u8>),
    /// Anything else failed.
    Failed(IoFailure),
}

/// The loop between two steps.
pub struct Proxy {
    trigger: StopTrigger,
    /// There is no terminal outside, only a command that runs by itself.
    headless: bool,
    /// The shell has something to say, once what was typed is dealt with.
    master_waits: bool,
}

#[verifier::ext_equal]
pub struct ProxyView {
    pub trigger: TriggerView,
    pub headless: bool,
    pub master_waits: bool,
}

impl View for Proxy {
    type V = ProxyView;

    closed spec fn view(&self) -> ProxyView {
        ProxyView {
            trigger: self.trigger@,
            headless: self.headless,
            master_waits: self.master_waits,
        }
    }
}

/// What reading from the shell's terminal comes to: its end where nothing was
/// read, or where the system reports it as an error.
pub open spec fn master_outcome(read: Result<Seq<u8>, IoFailureView>) -> Result<
    Option<Seq<u8>>,
    IoFailureView,
> {
    match read {
        Ok(bytes) => if bytes.len() == 0 {
            Ok(None)
        } else {
            Ok(Some(bytes))
        },
        Err(e) => if e.errno == Some(EIO) {
            Ok(None)
        } else {
            Err(e)
        },
    }
}

impl ProxyView {
    /// The shell's side, if it has something to say, and waiting otherwise.
    pub open spec fn turn_to_master(self) -> (ProxyView, ProxyStep) {
        (
            ProxyView { master_waits: false, ..self },
            if self.master_waits {
                ProxyStep::ReadMaster
            } else {
                ProxyStep::Poll
            },
        )
    }

    pub open spec fn master_read(self, read: Result<Seq<u8>, IoFailureView>) -> (
        ProxyView,
        ProxyStep,
    ) {
        (
            self,
            match master_outcome(read) {
                Ok(None) => ProxyStep::Stop(StopReasonView::ChildExited),
                Ok(Some(bytes)) => ProxyStep::Show(bytes),
                Err(e) => ProxyStep::Fail(e),
            },
        )
    }

    /// What an event leads to. What is typed goes to the shell before it is
    /// looked at, and what the shell shows is logged once it was shown.
    pub open spec fn next(self, event: ProxyEvent) -> (ProxyView, ProxyStep) {
        match event {
            ProxyEvent::Polled { outer, master } => if self.headless {
                (self, ProxyStep::ReadMaster)
            } else if outer {
                (ProxyView { master_waits: master, ..self }, ProxyStep::ReadOuter)
            } else {
                ProxyView { master_waits: master, ..self }.turn_to_master()
            },
            ProxyEvent::Interrupted(signal) => (
                self,
                match signal_view(signal) {
                    Some(s) => ProxyStep::Stop(StopReasonView::Signal(s)),
                    None => ProxyStep::Poll,
                },
            ),
            ProxyEvent::OuterRead(bytes) => (
                self,
                if bytes@.len() == 0 {
                    ProxyStep::Stop(StopReasonView::OuterClosed)
                } else {
                    ProxyStep::Forward(bytes@)
                },
            ),
            ProxyEvent::Forwarded(bytes) => {
                let (trigger, found) = self.trigger.fed(bytes@);
                let fed = ProxyView { trigger, ..self };
                if found {
                    (fed, ProxyStep::Stop(StopReasonView::StopPhrase))
                } else {
                    fed.turn_to_master()
                }
            },
            ProxyEvent::MasterRead(bytes) => self.master_read(Ok(bytes@)),
            ProxyEvent::MasterFailed(e) => self.master_read(Err(e@)),
            ProxyEvent::Shown(_) => (self, ProxyStep::Poll),
            ProxyEvent::Failed(e) => (self, ProxyStep::Fail(e@)),
        }
    }
}

/// What an event adds to the log: what was shown, and nothing else.
pub open spec fn logged(log: LogView, event: ProxyEvent, now: i64) -> LogView {
    match event {
        ProxyEvent::Shown(bytes) => log.with_output(bytes@, now),
        _ => log,
    }
}

/// What reading from the shell's terminal comes to.
fn read_master(read: Result<Vec<u8>, IoFailure>) -> (r: ProxyAction)
    ensures
        r@ == (match master_outcome(
            match read {
                Ok(b) => Ok(b@),
                Err(e) => Err(e@),
            },
        ) {
            Ok(None) => ProxyStep::Stop(StopReasonView::ChildExited),
            Ok(Some(bytes)) => ProxyStep::Show(bytes),
            Err(e) => ProxyStep::Fail(e),
        }),
{
    match read {
        Ok(bytes) => if bytes.len() == 0 {
            ProxyAction::Stop(StopReason::ChildExited)
        } else {
            ProxyAction::Show(bytes)
        },
        Err(e) => {
            let closed = match e.errno {
                Some(n) => n == EIO,
                None => false,
            };
            if closed {
                ProxyAction::Stop(StopReason::ChildExited)
            } else {
                ProxyAction::Fail(e)
            }
        },
    }
}

impl Proxy {
    /// A loop between a terminal outside and a shell. It starts by waiting.
    pub fn new() -> (r: (Proxy, ProxyAction))
        ensures
            r.0@.trigger == crate::logger::stop_trigger::fresh(),
            r.0@.trigger.bounded(),
            !r.0@.headless,
            !r.0@.master_waits,
            r.1@ == ProxyStep::Poll,
    {
        (
            Proxy { trigger: StopTrigger::new(), headless: false, master_waits: false },
            ProxyAction::Poll,
        )
    }

    /// A loop for a command that runs by itself.
    pub fn headless() -> (r: (Proxy, ProxyAction))
        ensures
            r.0@.trigger == crate::logger::stop_trigger::fresh(),
            r.0@.trigger.bounded(),
            r.0@.headless,
            !r.0@.master_waits,
            r.1@ == ProxyStep::Poll,
    {
        (
            Proxy { trigger: StopTrigger::new(), headless: true, master_waits: false },
            ProxyAction::Poll,
        )
    }

    fn turn_to_master(&mut self) -> (r: ProxyAction)
        ensures
            (final(self)@, r@) == old(self)@.turn_to_master(),
    {
        let waits = self.master_waits;
        self.master_waits = false;
        if waits {
            ProxyAction::ReadMaster
        } else {
            ProxyAction::Poll
        }
    }

    /// Takes in what came of the last action, at the time `now`, and says what
    /// to do next.
    pub fn advance(&mut self, log: &mut LogFile, event: ProxyEvent, now: i64) -> (r: ProxyAction)
        ensures
            old(self)@.trigger.bounded() ==> final(self)@.trigger.bounded(),
            (final(self)@, r@) == old(self)@.next(event),
            final(log)@ == logged(old(log)@, event, now),
    {
        match event {
            ProxyEvent::Polled { outer, master } => {
                if self.headless {
                    return ProxyAction::ReadMaster;
                }
                self.master_waits = master;
                if outer {
                    ProxyAction::ReadOuter
                } else {
                    self.turn_to_master()
                }
            },
            ProxyEvent::Interrupted(signal) => match signal {
                Some(s) => ProxyAction::Stop(StopReason::Signal(s)),
                None => ProxyAction::Poll,
            },
            ProxyEvent::OuterRead(bytes) => if bytes.len() == 0 {
                ProxyAction::Stop(StopReason::OuterClosed)
            } else {
                ProxyAction::Forward(bytes)
            },
            ProxyEvent::Forwarded(bytes) => {
                if self.trigger.feed(bytes.as_slice()) {
                    ProxyAction::Stop(StopReason::StopPhrase)
                } else {
                    self.turn_to_master()
                }
            },
            ProxyEvent::MasterRead(bytes) => read_master(Ok(bytes)),
            ProxyEvent::MasterFailed(e) => read_master(Err(e)),
            ProxyEvent::Shown(bytes) => {
                log.write_output(bytes.as_slice(), now);
                ProxyAction::Poll
            },
            ProxyEvent::Failed(e) => ProxyAction::Fail(e),
        }
    }
}

/// A command that runs by itself is ended by nothing that is typed, and by no
/// terminal that closes.
pub proof fn a_headless_session_reads_no_terminal(p: ProxyView, outer: bool, master: bool)
    requires
        p.headless,
    ensures
        p.next(ProxyEvent::Polled { outer, master }) == (p, ProxyStep::ReadMaster),
{
}

/// Before what was typed is looked at for the phrase, the shell gets all of
/// it.
pub proof fn typed_bytes_reach_the_shell(p: ProxyView, typed: Vec<u8>)
    requires
        typed@.len() > 0,
    ensures
        p.next(ProxyEvent::OuterRead(typed)) == (p, ProxyStep::Forward(typed@)),
{
}

/// What the shell writes is shown as it is, and then logged as it is; its end ends
/// the session.
pub proof fn output_is_shown_and_logged(p: ProxyView, log: LogView, bytes: Vec<u8>, now: i64)
    ensures
        bytes@.len() > 0 ==> p.next(ProxyEvent::MasterRead(bytes)) == (p, ProxyStep::Show(bytes@)),
        bytes@.len() == 0 ==> p.next(ProxyEvent::MasterRead(bytes)).1 == ProxyStep::Stop(
            StopReasonView::ChildExited,
        ),
        p.next(ProxyEvent::Shown(bytes)) == (p, ProxyStep::Poll),
        logged(log, ProxyEvent::Shown(bytes), now) == log.with_output(bytes@, now),
        logged(log, ProxyEvent::MasterRead(bytes), now) == log,
        logged(log, ProxyEvent::OuterRead(bytes), now) == log,
        logged(log, ProxyEvent::Forwarded(bytes), now) == log,
{
}

/// Where both sides have something to say, what is typed is read first, and the shell
/// has its turn directly after that, unless the phrase was typed.
pub proof fn both_sides_have_their_turn(p: ProxyView, typed: Vec<u8>)
    requires
        !p.headless,
        typed@.len() > 0,
    ensures
        ({
            let (waiting, first) = p.next(ProxyEvent::Polled { outer: true, master: true });
            let (same, second) = waiting.next(ProxyEvent::OuterRead(typed));
            let (after, third) = same.next(ProxyEvent::Forwarded(typed));
            &&& first == ProxyStep::ReadOuter
            &&& second == ProxyStep::Forward(typed@)
            &&& !p.trigger.fed(typed@).1 ==> third == ProxyStep::ReadMaster
            &&& p.trigger.fed(typed@).1 ==> third == ProxyStep::Stop(StopReasonView::StopPhrase)
            &&& after.trigger == p.trigger.fed(typed@).0
        }),
        p.next(ProxyEvent::Polled { outer: false, master: true }).1 == ProxyStep::ReadMaster,
        p.next(ProxyEvent::Polled { outer: false, master: false }).1 == ProxyStep::Poll,
{
}

} // verus!
