//! Console-control events by their number.

use vstd::prelude::*;

use crate::logger::signals::{signal_view, StopSignal, StopSignalView};
use crate::number::{decimal, decimal_string};
use crate::text::text2;

verus! {

pub const CTRL_C_EVENT: u32 = 0;

pub const CTRL_BREAK_EVENT: u32 = 1;

pub const CTRL_CLOSE_EVENT: u32 = 2;

pub const CTRL_LOGOFF_EVENT: u32 = 5;

pub const CTRL_SHUTDOWN_EVENT: u32 = 6;

/// No event was received. Zero would not do: it is one.
pub const NONE_RECEIVED: u32 = 0xffff_ffff;

/// What an event comes to. An interrupt exits as one does elsewhere, and
/// everything else with one.
pub open spec fn event_signal(event: u32) -> Option<StopSignalView> {
    if event == NONE_RECEIVED {
        None
    } else if event == CTRL_C_EVENT {
        Some(StopSignalView { description: "CTRL_C_EVENT"@, exit_code: 130 })
    } else if event == CTRL_BREAK_EVENT {
        Some(StopSignalView { description: "CTRL_BREAK_EVENT"@, exit_code: 130 })
    } else if event == CTRL_CLOSE_EVENT {
        Some(StopSignalView { description: "CTRL_CLOSE_EVENT"@, exit_code: 1 })
    } else if event == CTRL_LOGOFF_EVENT {
        Some(StopSignalView { description: "CTRL_LOGOFF_EVENT"@, exit_code: 1 })
    } else if event == CTRL_SHUTDOWN_EVENT {
        Some(StopSignalView { description: "CTRL_SHUTDOWN_EVENT"@, exit_code: 1 })
    } else {
        Some(
            StopSignalView {
                description: "unknown console-control event "@ + decimal(event as nat),
                exit_code: 1,
            },
        )
    }
}

fn event(description: &str, exit_code: i32) -> (r: Option<StopSignal>)
    ensures
        signal_view(r) == Some(StopSignalView { description: description@, exit_code }),
{
    Some(StopSignal { description: description.to_owned(), exit_code })
}

/// What the number that the control handler recorded stands for.
pub fn received(recorded: u32) -> (r: Option<StopSignal>)
    ensures
        signal_view(r) == event_signal(recorded),
{
    if recorded == NONE_RECEIVED {
        None
    } else if recorded == CTRL_C_EVENT {
        event("CTRL_C_EVENT", 130)
    } else if recorded == CTRL_BREAK_EVENT {
        event("CTRL_BREAK_EVENT", 130)
    } else if recorded == CTRL_CLOSE_EVENT {
        event("CTRL_CLOSE_EVENT", 1)
    } else if recorded == CTRL_LOGOFF_EVENT {
        event("CTRL_LOGOFF_EVENT", 1)
    } else if recorded == CTRL_SHUTDOWN_EVENT {
        event("CTRL_SHUTDOWN_EVENT", 1)
    } else {
        let number = decimal_string(recorded as u64);
        let text = text2("unknown console-control event ", number.as_str());
        event(text.as_str(), 1)
    }
}

/// Every number but the one that stands for none is an event. The two that a key
/// brings exit with 130, and all others with one.
pub proof fn keys_exit_as_an_interrupt(event: u32)
    ensures
        event_signal(event) is None <==> event == u32::MAX,
        event_signal(event) matches Some(s) ==> (s.exit_code == 130 <==> event <= 1),
        event_signal(event) matches Some(s) ==> (s.exit_code == 1 <==> event > 1),
{
}

/// Two events that have a name have different ones.
pub proof fn events_are_told_apart(a: u32, b: u32)
    requires
        a != b,
        a <= 2 || a == 5 || a == 6,
        b <= 2 || b == 5 || b == 6,
    ensures
        event_signal(a)->0.description != event_signal(b)->0.description,
{
    reveal_strlit("CTRL_C_EVENT");
    reveal_strlit("CTRL_BREAK_EVENT");
    reveal_strlit("CTRL_CLOSE_EVENT");
    reveal_strlit("CTRL_LOGOFF_EVENT");
    reveal_strlit("CTRL_SHUTDOWN_EVENT");
    assert("CTRL_C_EVENT"@.len() == 12);
    assert("CTRL_BREAK_EVENT"@.len() == 16);
    assert("CTRL_CLOSE_EVENT"@.len() == 16);
    assert("CTRL_LOGOFF_EVENT"@.len() == 17);
    assert("CTRL_SHUTDOWN_EVENT"@.len() == 19);
    assert("CTRL_BREAK_EVENT"@[5] == 'B');
    assert("CTRL_CLOSE_EVENT"@[5] == 'C');
}

} // verus!
