//! Signals by their number.

use nix::sys::signal::Signal;
use vstd::prelude::*;

use crate::logger::signals::{signal_view, StopSignal, StopSignalView};

verus! {

/// The name of the signal with a number: `Signal::try_from` of the nix crate,
/// and `Signal::as_str` of what it gives.
///
/// The three signals that end a session have the same numbers on every system,
/// and no signal has a number below one. Which other numbers are signals, and
/// what those are called, differs between systems and is not said.
#[verifier::external_body]
fn signal_name(raw: i32) -> (r: Option<&'static str>)
    ensures
        raw == 1 ==> r is Some && r->0@ == "SIGHUP"@,
        raw == 2 ==> r is Some && r->0@ == "SIGINT"@,
        raw == 15 ==> r is Some && r->0@ == "SIGTERM"@,
        raw <= 0 ==> r is None,
{
    Signal::try_from(raw).ok().map(Signal::as_str)
}

/// The exit code of a process that a signal ended, as shells count it.
pub open spec fn signal_exit_code(raw: i32) -> i32 {
    if raw > i32::MAX - 128 {
        i32::MAX
    } else {
        (128 + raw) as i32
    }
}

/// What a signal comes to, by its number and its name.
pub fn stop_signal(raw: i32, name: &str) -> (r: StopSignal)
    ensures
        r@ == (StopSignalView { description: name@, exit_code: signal_exit_code(raw) }),
{
    let exit_code: i32 = if raw > i32::MAX - 128 {
        i32::MAX
    } else {
        128 + raw
    };
    StopSignal { description: name.to_owned(), exit_code }
}

/// What the number that a signal handler recorded stands for. Zero stands for
/// no signal.
pub fn received(raw: i32) -> (r: Option<StopSignal>)
    ensures
        raw <= 0 ==> r is None,
        raw == 1 ==> signal_view(r) == Some(
            StopSignalView { description: "SIGHUP"@, exit_code: 129 },
        ),
        raw == 2 ==> signal_view(r) == Some(
            StopSignalView { description: "SIGINT"@, exit_code: 130 },
        ),
        raw == 15 ==> signal_view(r) == Some(
            StopSignalView { description: "SIGTERM"@, exit_code: 143 },
        ),
        r is Some ==> r->0@.exit_code == signal_exit_code(raw),
{
    if raw == 0 {
        return None;
    }
    match signal_name(raw) {
        Some(name) => Some(stop_signal(raw, name)),
        None => None,
    }
}

/// A process that a signal ended exits with 128 and the number of the signal.
pub proof fn signals_exit_above_128(raw: i32)
    requires
        0 <= raw <= 127,
    ensures
        signal_exit_code(raw) == 128 + raw,
{
}

} // verus!
