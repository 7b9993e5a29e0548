//! The session's loop where each side has a thread of its own, and what they
//! read comes over a channel.

use vstd::prelude::*;

use crate::error::{IoErrorKind, IoFailure, IoFailureView};
use crate::logger::logfile::{LogFile, LogView};
use crate::logger::session::{StopReason, StopReasonView};
use crate::logger::signals::{signal_view, StopSignal};
use crate::logger::stop_trigger::{StopTrigger, TriggerView};

verus! {

/// How long to wait for the channel before looking for a console-control event,
/// in milliseconds.
pub const SIGNAL_POLL_INTERVAL: u64 = 200;

/// What the channel brought.
pub enum ProxyEvent {
    /// The shell has this to show.
    FromChild(Vec<u8>),
    /// It was shown.
    Shown(Vec<u8>),
    /// This was typed, and handed to the shell already.
    FromOuter(Vec<u8>),
    ChildExited,
    OuterClosed,
    /// Reading or writing failed.
    Io(IoFailure),
    /// Nothing for a while, but for an event that was recorded meanwhile.
    Timeout(Option<StopSignal>),
    /// The threads are gone.
    Disconnected,
}

/// What is to be done next.
pub enum ProxyAction {
    /// Wait for the channel.
    Receive,
    /// Show this outside.
    Show(Vec<u8>),
    /// The session ends.
    Stop(StopReason),
    Fail(IoFailure),
}

pub enum ProxyStep {
    Receive,
    Show(Seq<u8>),
    Stop(StopReasonView),
    Fail(IoFailureView),
}

impl View for ProxyAction {
    type V = ProxyStep;

    open spec fn view(&self) -> ProxyStep {
        match self {
            ProxyAction::Receive => ProxyStep::Receive,
            ProxyAction::Show(b) => ProxyStep::Show(b@),
            ProxyAction::Stop(r) => ProxyStep::Stop(r@),
            ProxyAction::Fail(e) => ProxyStep::Fail(e@),
        }
    }
}

/// The loop between two steps.
pub struct Proxy {
    trigger: StopTrigger,
    headless: bool,
}

#[verifier::ext_equal]
pub struct ProxyView {
    pub trigger: TriggerView,
    /// There is no terminal outside, only a command that runs by itself.
    pub headless: bool,
}

impl View for Proxy {
    type V = ProxyView;

    closed spec fn view(&self) -> ProxyView {
        ProxyView { trigger: self.trigger@, headless: self.headless }
    }
}

/// The error where the threads left without a word.
pub open spec fn disconnected(headless: bool) -> IoFailureView {
    IoFailureView {
        kind: IoErrorKind::Other,
        errno: None,
        message: if headless {
            "the proxy reader thread exited without reporting a reason"@
        } else {
            "both proxy worker threads exited without reporting a reason"@
        },
    }
}

impl ProxyView {
    pub open spec fn next(self, event: ProxyEvent) -> (ProxyView, ProxyStep) {
        match event {
            ProxyEvent::FromChild(bytes) => (self, ProxyStep::Show(bytes@)),
            ProxyEvent::Shown(_) => (self, ProxyStep::Receive),
            ProxyEvent::FromOuter(bytes) => {
                let (trigger, found) = self.trigger.fed(bytes@);
                (
                    ProxyView { trigger, ..self },
                    if found {
                        ProxyStep::Stop(StopReasonView::StopPhrase)
                    } else {
                        ProxyStep::Receive
                    },
                )
            },
            ProxyEvent::ChildExited => (self, ProxyStep::Stop(StopReasonView::ChildExited)),
            ProxyEvent::OuterClosed => (self, ProxyStep::Stop(StopReasonView::OuterClosed)),
            ProxyEvent::Io(e) => (self, ProxyStep::Fail(e@)),
            ProxyEvent::Timeout(signal) => (
                self,
                match signal_view(signal) {
                    Some(s) => ProxyStep::Stop(StopReasonView::Signal(s)),
                    None => ProxyStep::Receive,
                },
            ),
            ProxyEvent::Disconnected => (self, ProxyStep::Fail(disconnected(self.headless))),
        }
    }
}

/// What an event adds to the log: what was shown, and nothing else.
pub open spec fn logged(log: LogView, event: ProxyEvent, now: i64) -> LogView {
    match event {
        ProxyEvent::Shown(bytes) => log.with_output(bytes@, now),
        _ => log,
    }
}

impl Proxy {
    /// A loop between a terminal outside and a shell, or for a command that
    /// runs by itself.
    pub fn new(headless: bool) -> (r: Proxy)
        ensures
            r@ == (ProxyView { trigger: crate::logger::stop_trigger::fresh(), headless }),
            r@.trigger.bounded(),
    {
        Proxy { trigger: StopTrigger::new(), headless }
    }

    /// Takes in what the channel brought, or what came of the last action, at
    /// the time `now`, and says what to do next. Where there is no terminal
    /// outside, nothing comes from it.
    pub fn advance(&mut self, log: &mut LogFile, event: ProxyEvent, now: i64) -> (r: ProxyAction)
        requires
            old(self)@.headless ==> !(event is FromOuter) && !(event is OuterClosed),
        ensures
            old(self)@.trigger.bounded() ==> final(self)@.trigger.bounded(),
            (final(self)@, r@) == old(self)@.next(event),
            final(log)@ == logged(old(log)@, event, now),
    {
        match event {
            ProxyEvent::FromChild(bytes) => ProxyAction::Show(bytes),
            ProxyEvent::Shown(bytes) => {
                log.write_output(bytes.as_slice(), now);
                ProxyAction::Receive
            },
            ProxyEvent::FromOuter(bytes) => {
                if self.trigger.feed(bytes.as_slice()) {
                    ProxyAction::Stop(StopReason::StopPhrase)
                } else {
                    ProxyAction::Receive
                }
            },
            ProxyEvent::ChildExited => ProxyAction::Stop(StopReason::ChildExited),
            ProxyEvent::OuterClosed => ProxyAction::Stop(StopReason::OuterClosed),
            ProxyEvent::Io(e) => ProxyAction::Fail(e),
            ProxyEvent::Timeout(signal) => match signal {
                Some(s) => ProxyAction::Stop(StopReason::Signal(s)),
                None => ProxyAction::Receive,
            },
            ProxyEvent::Disconnected => {
                let message = if self.headless {
                    "the proxy reader thread exited without reporting a reason"
                } else {
                    "both proxy worker threads exited without reporting a reason"
                };
                ProxyAction::Fail(
                    IoFailure {
                        kind: IoErrorKind::Other,
                        errno: None,
                        message: message.to_owned(),
                    },
                )
            },
        }
    }
}

/// What the shell writes is shown as it is, and logged as it is once it was shown;
/// nothing else is logged.
pub proof fn output_is_shown_and_logged(p: ProxyView, log: LogView, bytes: Vec<u8>, now: i64)
    ensures
        p.next(ProxyEvent::FromChild(bytes)) == (p, ProxyStep::Show(bytes@)),
        p.next(ProxyEvent::Shown(bytes)) == (p, ProxyStep::Receive),
        logged(log, ProxyEvent::Shown(bytes), now) == log.with_output(bytes@, now),
        logged(log, ProxyEvent::FromChild(bytes), now) == log,
        logged(log, ProxyEvent::FromOuter(bytes), now) == log,
{
}

/// The session goes on until the shell leaves, the terminal closes, the phrase is
/// typed or an event comes, and ends for that reason.
pub proof fn sessions_end_for_their_reason(p: ProxyView, typed: Vec<u8>, signal: StopSignal)
    ensures
        p.next(ProxyEvent::ChildExited).1 == ProxyStep::Stop(StopReasonView::ChildExited),
        p.next(ProxyEvent::OuterClosed).1 == ProxyStep::Stop(StopReasonView::OuterClosed),
        p.next(ProxyEvent::Timeout(Some(signal))).1 == ProxyStep::Stop(
            StopReasonView::Signal(signal@),
        ),
        p.next(ProxyEvent::Timeout(None)) == (p, ProxyStep::Receive),
        ({
            let (after, step) = p.next(ProxyEvent::FromOuter(typed));
            &&& after.trigger == p.trigger.fed(typed@).0
            &&& after.headless == p.headless
            &&& p.trigger.fed(typed@).1 ==> step == ProxyStep::Stop(StopReasonView::StopPhrase)
            &&& !p.trigger.fed(typed@).1 ==> step == ProxyStep::Receive
        }),
{
}

} // verus!
