//! NVIDIA cards, whose driver shows nothing in files. They are recognised and
//! not shown, and a note says so.

use vstd::prelude::*;

use crate::error::Error;
use crate::sample::Gpu;
use crate::text::push_str;

verus! {

/// Nothing, whichever card it is.
pub fn read(card: &str) -> (r: Result<Option<Gpu>, Error>)
    ensures
        r == Ok::<Option<Gpu>, Error>(None),
{
    Ok(None)
}

/// What is noted of a card that was seen.
pub open spec fn note_of(card: Seq<char>) -> Seq<char> {
    card + ": an NVIDIA card was seen, but the `gpu-nvidia` feature is off"@
}

pub fn note(card: &str) -> (r: String)
    ensures
        r@ == note_of(card@),
{
    let mut out: String = card.to_owned();
    push_str(&mut out, ": an NVIDIA card was seen, but the `gpu-nvidia` feature is off");
    out
}

} // verus!
