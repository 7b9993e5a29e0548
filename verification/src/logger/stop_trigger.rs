//! The phrase that ends a session, recognised among what is typed.
//!
//! Bytes come as they are typed, with no line editing done, so a line is put
//! together here: a delete takes back one byte, an interrupt gives up the line,
//! and a line that grows too long can no longer be the phrase.

use vstd::prelude::*;
use vstd::utf8::{decode_utf8, valid_utf8};

use crate::text::{chars_of, is_text, trim, trim_of};

verus! {

pub const TRIGGER: &'static str = "stoplogger";

/// How many bytes of a line are kept at most.
pub const MAX_LINE_LEN: usize = 512;

pub const LINE_FEED: u8 = 0x0a;

pub const CARRIAGE_RETURN: u8 = 0x0d;

pub const BACKSPACE: u8 = 0x08;

pub const DELETE: u8 = 0x7f;

/// What Ctrl+C sends.
pub const INTERRUPT: u8 = 0x03;

/// What was typed of the present line.
pub struct StopTrigger {
    line: Vec<u8>,
    overflowed: bool,
}

#[verifier::ext_equal]
pub struct TriggerView {
    pub line: Seq<u8>,
    /// The line was too long, and what was typed of it since is gone.
    pub overflowed: bool,
}

impl View for StopTrigger {
    type V = TriggerView;

    closed spec fn view(&self) -> TriggerView {
        TriggerView { line: self.line@, overflowed: self.overflowed }
    }
}

/// Nothing was typed of the line yet.
pub open spec fn fresh() -> TriggerView {
    TriggerView { line: seq![], overflowed: false }
}

/// The byte ends a line.
pub open spec fn ends_line(b: u8) -> bool {
    b == CARRIAGE_RETURN || b == LINE_FEED
}

/// The byte takes back the last one.
pub open spec fn deletes(b: u8) -> bool {
    b == DELETE || b == BACKSPACE
}

/// The byte gives up the line.
pub open spec fn interrupts(b: u8) -> bool {
    b == INTERRUPT
}

/// The bytes are the phrase, with nothing but white space around it.
pub open spec fn is_phrase(line: Seq<u8>) -> bool {
    valid_utf8(line) && trim_of(decode_utf8(line)) == TRIGGER@
}

impl TriggerView {
    /// The buffer keeps to its bound.
    pub open spec fn bounded(self) -> bool {
        self.line.len() <= MAX_LINE_LEN
    }

    /// The next byte, and whether it completes the phrase.
    pub open spec fn typed(self, b: u8) -> (TriggerView, bool) {
        if ends_line(b) {
            (fresh(), !self.overflowed && is_phrase(self.line))
        } else if deletes(b) {
            (
                if self.line.len() > 0 {
                    TriggerView { line: self.line.drop_last(), ..self }
                } else {
                    self
                },
                false,
            )
        } else if interrupts(b) {
            (fresh(), false)
        } else if self.line.len() < MAX_LINE_LEN {
            (TriggerView { line: self.line.push(b), ..self }, false)
        } else {
            (TriggerView { overflowed: true, ..self }, false)
        }
    }

    /// Several bytes, and whether one of them completes the phrase.
    pub open spec fn fed(self, bytes: Seq<u8>) -> (TriggerView, bool)
        decreases bytes.len(),
    {
        if bytes.len() == 0 {
            (self, false)
        } else {
            let (before, found) = self.fed(bytes.drop_last());
            let (after, last) = before.typed(bytes.last());
            (after, found || last)
        }
    }
}

/// `std::str::from_utf8`: the text that the bytes encode, if they are valid
/// UTF-8, and nothing otherwise.
#[verifier::external_body]
fn decode(bytes: &[u8]) -> (r: Option<&str>)
    ensures
        match r {
            Some(s) => valid_utf8(bytes@) && s@ == decode_utf8(bytes@),
            None => !valid_utf8(bytes@),
        },
{
    std::str::from_utf8(bytes).ok()
}

impl StopTrigger {
    pub fn new() -> (r: StopTrigger)
        ensures
            r@ == fresh(),
    {
        StopTrigger { line: Vec::new(), overflowed: false }
    }

    fn current_line_is_trigger(&self) -> (r: bool)
        ensures
            r == (!self@.overflowed && is_phrase(self@.line)),
    {
        if self.overflowed {
            return false;
        }
        match decode(self.line.as_slice()) {
            Some(s) => {
                let cs = chars_of(s);
                is_text(trim(cs.as_slice()), TRIGGER)
            },
            None => false,
        }
    }

    fn reset_line(&mut self)
        ensures
            final(self)@ == fresh(),
    {
        self.line.clear();
        self.overflowed = false;
    }

    fn feed_byte(&mut self, b: u8) -> (r: bool)
        ensures
            old(self)@.bounded() ==> final(self)@.bounded(),
            (final(self)@, r) == old(self)@.typed(b),
    {
        if b == CARRIAGE_RETURN || b == LINE_FEED {
            let found = self.current_line_is_trigger();
            self.reset_line();
            return found;
        }
        if b == DELETE || b == BACKSPACE {
            let _ = self.line.pop();
        } else if b == INTERRUPT {
            self.reset_line();
        } else if self.line.len() < MAX_LINE_LEN {
            self.line.push(b);
        } else {
            self.overflowed = true;
        }
        false
    }

    /// Takes in a chunk of what was typed, and says whether a line of it was
    /// the phrase.
    pub fn feed(&mut self, bytes: &[u8]) -> (r: bool)
        ensures
            old(self)@.bounded() ==> final(self)@.bounded(),
            (final(self)@, r) == old(self)@.fed(bytes@),
    {
        let ghost start = self@;
        let mut triggered = false;
        let mut i: usize = 0;
        while i < bytes.len()
            invariant
                i <= bytes.len(),
                start.bounded() ==> self@.bounded(),
                (self@, triggered) == start.fed(bytes@.take(i as int)),
            decreases bytes.len() - i,
        {
            assert(bytes@.take(i + 1).drop_last() == bytes@.take(i as int));
            if self.feed_byte(bytes[i]) {
                triggered = true;
            }
            i = i + 1;
        }
        assert(bytes@.take(i as int) == bytes@);
        triggered
    }

    /// How many bytes of the present line are kept.
    pub fn buffered_len(&self) -> (r: usize)
        ensures
            r == self@.line.len(),
    {
        self.line.len()
    }
}

impl Default for StopTrigger {
    fn default() -> (r: StopTrigger)
        ensures
            r@ == fresh(),
    {
        StopTrigger::new()
    }
}

/// It does not matter into which chunks what is typed is cut.
pub proof fn chunks_are_fed_alike(t: TriggerView, a: Seq<u8>, b: Seq<u8>)
    ensures
        t.fed(a + b).0 == t.fed(a).0.fed(b).0,
        t.fed(a + b).1 == (t.fed(a).1 || t.fed(a).0.fed(b).1),
    decreases b.len(),
{
    if b.len() == 0 {
        assert(a + b == a);
    } else {
        chunks_are_fed_alike(t, a, b.drop_last());
        assert((a + b).drop_last() == a + b.drop_last());
    }
}

/// Whatever is typed, no more than the bound is kept of it.
pub proof fn the_buffer_stays_bounded(t: TriggerView, bytes: Seq<u8>)
    requires
        t.bounded(),
    ensures
        t.fed(bytes).0.bounded(),
    decreases bytes.len(),
{
    if bytes.len() > 0 {
        the_buffer_stays_bounded(t, bytes.drop_last());
    }
}

/// Ordinary bytes are kept as they come.
proof fn lemma_plain_bytes(bytes: Seq<u8>)
    requires
        bytes.len() <= MAX_LINE_LEN,
        forall|i: int|
            0 <= i < bytes.len() ==> !ends_line(#[trigger] bytes[i]) && !deletes(bytes[i])
                && !interrupts(bytes[i]),
    ensures
        fresh().fed(bytes) == (TriggerView { line: bytes, overflowed: false }, false),
    decreases bytes.len(),
{
    if bytes.len() > 0 {
        let front = bytes.drop_last();
        assert forall|i: int| 0 <= i < front.len() implies !ends_line(#[trigger] front[i])
            && !deletes(front[i]) && !interrupts(front[i]) by {
            assert(front[i] == bytes[i]);
        }
        lemma_plain_bytes(front);
        assert(front.push(bytes.last()) == bytes);
        assert(!ends_line(bytes[bytes.len() - 1]));
    }
}

/// A line that was typed without corrections ends the session exactly if it is
/// the phrase, and the next line starts afresh.
pub proof fn a_line_triggers_if_it_is_the_phrase(line: Seq<u8>, end: u8)
    requires
        line.len() <= MAX_LINE_LEN,
        forall|i: int|
            0 <= i < line.len() ==> !ends_line(#[trigger] line[i]) && !deletes(line[i])
                && !interrupts(line[i]),
        ends_line(end),
    ensures
        fresh().fed(line.push(end)) == (fresh(), is_phrase(line)),
{
    lemma_plain_bytes(line);
    assert(line.push(end).drop_last() == line);
}

/// Once a line was too long, nothing that is typed on it makes it the phrase.
pub proof fn an_overlong_line_never_triggers(t: TriggerView, bytes: Seq<u8>, end: u8)
    requires
        t.overflowed,
        forall|i: int|
            0 <= i < bytes.len() ==> !ends_line(#[trigger] bytes[i]) && !interrupts(bytes[i]),
        ends_line(end),
    ensures
        t.fed(bytes.push(end)) == (fresh(), false),
{
    lemma_still_overlong(t, bytes);
    assert(bytes.push(end).drop_last() == bytes);
}

proof fn lemma_still_overlong(t: TriggerView, bytes: Seq<u8>)
    requires
        t.overflowed,
        forall|i: int|
            0 <= i < bytes.len() ==> !ends_line(#[trigger] bytes[i]) && !interrupts(bytes[i]),
    ensures
        t.fed(bytes).0.overflowed,
        !t.fed(bytes).1,
    decreases bytes.len(),
{
    if bytes.len() > 0 {
        let front = bytes.drop_last();
        assert forall|i: int| 0 <= i < front.len() implies !ends_line(#[trigger] front[i])
            && !interrupts(front[i]) by {
            assert(front[i] == bytes[i]);
        }
        lemma_still_overlong(t, front);
        assert(!ends_line(bytes[bytes.len() - 1]));
    }
}

/// A byte that is taken back leaves no trace, by either of the keys that do so, and
/// an interrupt leaves an empty line.
pub proof fn corrections_are_followed(t: TriggerView, b: u8)
    requires
        t.line.len() < MAX_LINE_LEN,
        b != 13 && b != 10 && b != 127 && b != 8 && b != 3,
    ensures
        t.typed(b).0.line == t.line.push(b),
        !t.typed(b).1,
        t.typed(b).0.typed(127) == (t, false),
        t.typed(b).0.typed(8) == (t, false),
        t.typed(3) == (fresh(), false),
{
    assert(t.line.push(b).drop_last() =~= t.line);
}

} // verus!
