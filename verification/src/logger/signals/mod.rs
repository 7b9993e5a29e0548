//! What makes the logger itself stop: a signal on Unix, a console-control event
//! on Windows, told in the same words.

use vstd::prelude::*;

pub mod unix;
pub mod windows;

verus! {

/// What was received, for the log's footer, and the exit code that goes with
/// it.
#[derive(Debug, PartialEq, Eq)]
pub struct StopSignal {
    pub description: String,
    pub exit_code: i32,
}

pub struct StopSignalView {
    pub description: Seq<char>,
    pub exit_code: i32,
}

impl View for StopSignal {
    type V = StopSignalView;

    open spec fn view(&self) -> StopSignalView {
        StopSignalView { description: self.description@, exit_code: self.exit_code }
    }
}

impl StopSignal {
    pub fn duplicate(&self) -> (r: StopSignal)
        ensures
            r@ == self@,
    {
        StopSignal { description: self.description.clone(), exit_code: self.exit_code }
    }
}

pub open spec fn signal_view(r: Option<StopSignal>) -> Option<StopSignalView> {
    match r {
        Some(s) => Some(s@),
        None => None,
    }
}

} // verus!
