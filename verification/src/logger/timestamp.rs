//! Points in time as text, in UTC. A point in time is a number of seconds since
//! the start of 1970.

use vstd::prelude::*;

use crate::calendar::{a_compact_name_has_one_second, compact, compact_text, iso, iso_text};

verus! {

/// A time before 1970 counts as its start.
pub open spec fn since_epoch(secs: i64) -> int {
    if secs < 0 {
        0
    } else {
        secs as int
    }
}

/// The time as `YYYY-MM-DDTHH:MM:SSZ`.
pub fn format_utc(secs: i64) -> (r: String)
    ensures
        r@ == iso_text(since_epoch(secs)),
{
    iso(if secs < 0 {
        0
    } else {
        secs as u64
    })
}

/// The time as `YYYYMMDD-HHMMSS`, for the name of a file.
pub fn format_utc_compact(secs: i64) -> (r: String)
    ensures
        r@ == compact_text(since_epoch(secs)),
{
    compact(if secs < 0 {
        0
    } else {
        secs as u64
    })
}

/// Two times have the same compact name exactly where they lie in the same
/// second, all those before 1970 counting as its start.
pub proof fn a_compact_name_is_shared_within_a_second(a: i64, b: i64)
    ensures
        compact_text(since_epoch(a)) == compact_text(since_epoch(b)) <==> since_epoch(a)
            == since_epoch(b),
{
    if compact_text(since_epoch(a)) == compact_text(since_epoch(b)) {
        a_compact_name_has_one_second(since_epoch(a), since_epoch(b));
    }
}

} // verus!
