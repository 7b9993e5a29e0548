//! Which bits of a console's input mode make it raw.

use vstd::prelude::*;

verus! {

/// Ctrl+C becomes a signal.
pub const ENABLE_PROCESSED_INPUT: u32 = 0x0001;

/// Input comes by whole lines.
pub const ENABLE_LINE_INPUT: u32 = 0x0002;

/// What is typed appears on the screen.
pub const ENABLE_ECHO_INPUT: u32 = 0x0004;

/// Special keys come as escape sequences.
pub const ENABLE_VIRTUAL_TERMINAL_INPUT: u32 = 0x0200;

/// The input mode in which every key comes at once and unchanged: no echo, no
/// lines, no signals, keys as escape sequences, and everything else as it was.
pub fn raw_console_mode(original: u32) -> (r: u32)
    ensures
        r & ENABLE_PROCESSED_INPUT == 0,
        r & ENABLE_LINE_INPUT == 0,
        r & ENABLE_ECHO_INPUT == 0,
        r & ENABLE_VIRTUAL_TERMINAL_INPUT == ENABLE_VIRTUAL_TERMINAL_INPUT,
        r & !0x0207u32 == original & !0x0207u32,
{
    let r: u32 = (original & !(ENABLE_ECHO_INPUT | ENABLE_LINE_INPUT | ENABLE_PROCESSED_INPUT))
        | ENABLE_VIRTUAL_TERMINAL_INPUT;
    assert(r & 1 == 0 && r & 2 == 0 && r & 4 == 0 && r & 0x200 == 0x200 && r & !0x0207u32 == original
        & !0x0207u32) by (bit_vector)
        requires
            r == (original & !(4u32 | 2u32 | 1u32)) | 0x200u32,
    ;
    r
}

} // verus!
