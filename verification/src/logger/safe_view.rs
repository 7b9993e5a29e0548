//! A log made safe to look at: what a terminal would act on becomes text that
//! it shows.
//!
//! The log itself is never changed by this.

use vstd::prelude::*;

verus! {

pub const LINE_FEED: u8 = 0x0a;

pub const TAB: u8 = 0x09;

pub const DELETE: u8 = 0x7f;

pub const CARET: u8 = 0x5e;

pub const QUESTION_MARK: u8 = 0x3f;

pub const LETTER_M: u8 = 0x4d;

pub const DASH: u8 = 0x2d;

/// A terminal shows the byte and does nothing else, or moves on to the next
/// line or tab stop.
pub open spec fn harmless(b: u8) -> bool {
    b == LINE_FEED || b == TAB || 0x20 <= b < DELETE
}

/// A byte below 0x80: a control byte behind a caret, everything else itself.
pub open spec fn visible_low(b: u8) -> Seq<u8> {
    if b == DELETE {
        seq![CARET, QUESTION_MARK]
    } else if b < 0x20 {
        seq![CARET, (b + 0x40) as u8]
    } else {
        seq![b]
    }
}

/// How a byte is shown: line ends and tabs pass, and a byte of the upper half
/// is `M-` and the byte 0x80 below it.
pub open spec fn visible_byte(b: u8) -> Seq<u8> {
    if b == LINE_FEED || b == TAB {
        seq![b]
    } else if b >= 0x80 {
        seq![LETTER_M, DASH] + visible_low((b - 0x80) as u8)
    } else {
        visible_low(b)
    }
}

/// How bytes are shown, each by itself and in their order.
pub open spec fn visible(bytes: Seq<u8>) -> Seq<u8>
    decreases bytes.len(),
{
    if bytes.len() == 0 {
        seq![]
    } else {
        visible(bytes.drop_last()) + visible_byte(bytes.last())
    }
}

fn push_visible_low(out: &mut Vec<u8>, b: u8)
    ensures
        final(out)@ == old(out)@ + visible_low(b),
{
    let ghost before = out@;
    if b == DELETE {
        out.push(CARET);
        out.push(QUESTION_MARK);
    } else if b < 0x20 {
        out.push(CARET);
        out.push(b + 0x40);
    } else {
        out.push(b);
    }
    assert(out@ == before + visible_low(b));
}

fn push_visible_byte(out: &mut Vec<u8>, b: u8)
    ensures
        final(out)@ == old(out)@ + visible_byte(b),
{
    let ghost before = out@;
    if b == LINE_FEED || b == TAB {
        out.push(b);
    } else if b >= 0x80 {
        out.push(LETTER_M);
        out.push(DASH);
        push_visible_low(out, b - 0x80);
    } else {
        push_visible_low(out, b);
    }
    assert(out@ == before + visible_byte(b));
}

/// Appends to `out` how `input` is shown.
pub fn write_visible(input: &[u8], out: &mut Vec<u8>)
    ensures
        final(out)@ == old(out)@ + visible(input@),
{
    let ghost before = out@;
    let mut i: usize = 0;
    while i < input.len()
        invariant
            i <= input.len(),
            out@ == before + visible(input@.take(i as int)),
        decreases input.len() - i,
    {
        assert(input@.take(i + 1).drop_last() == input@.take(i as int));
        push_visible_byte(out, input[i]);
        i = i + 1;
        assert(out@ == before + visible(input@.take(i as int)));
    }
    assert(input@.take(i as int) == input@);
}

/// Nothing that a terminal would act on is ever written.
pub proof fn shown_bytes_are_harmless(bytes: Seq<u8>)
    ensures
        forall|i: int| 0 <= i < visible(bytes).len() ==> harmless(#[trigger] visible(bytes)[i]),
    decreases bytes.len(),
{
    if bytes.len() > 0 {
        let front = visible(bytes.drop_last());
        shown_bytes_are_harmless(bytes.drop_last());
        assert forall|i: int| 0 <= i < visible(bytes).len() implies harmless(
            #[trigger] visible(bytes)[i],
        ) by {
            if i < front.len() {
                assert(visible(bytes)[i] == front[i]);
            } else {
                assert(visible(bytes)[i] == visible_byte(bytes.last())[i - front.len()]);
            }
        }
    }
}

/// What was harmless to begin with is shown as it is.
pub proof fn harmless_bytes_pass(bytes: Seq<u8>)
    requires
        forall|i: int| 0 <= i < bytes.len() ==> harmless(#[trigger] bytes[i]),
    ensures
        visible(bytes) == bytes,
    decreases bytes.len(),
{
    if bytes.len() > 0 {
        let front = bytes.drop_last();
        assert forall|i: int| 0 <= i < front.len() implies harmless(#[trigger] front[i]) by {
            assert(front[i] == bytes[i]);
        }
        harmless_bytes_pass(front);
        assert(harmless(bytes.last()));
        assert(front + seq![bytes.last()] == bytes);
    }
}

/// It does not matter into which chunks the bytes are cut.
pub proof fn chunks_are_shown_alike(a: Seq<u8>, b: Seq<u8>)
    ensures
        visible(a + b) == visible(a) + visible(b),
    decreases b.len(),
{
    if b.len() == 0 {
        assert(a + b == a);
    } else {
        chunks_are_shown_alike(a, b.drop_last());
        assert((a + b).drop_last() == a + b.drop_last());
    }
}

/// No two bytes are shown alike.
pub proof fn bytes_are_told_apart(a: u8, b: u8)
    requires
        visible_byte(a) == visible_byte(b),
    ensures
        a == b,
{
    let (x, y) = (visible_byte(a), visible_byte(b));
    assert(x.len() == y.len());
    assert(x[0] == y[0]);
    if x.len() >= 2 {
        assert(x[1] == y[1]);
    }
    if x.len() >= 3 {
        assert(x[2] == y[2]);
    }
    if x.len() >= 4 {
        assert(x[3] == y[3]);
    }
}

/// A control byte is a caret and the letter 64 above it, the last of the lower half
/// a caret and a question mark, and a byte of the upper half `M-` and what is 128
/// below it; what can be printed stays.
pub proof fn bytes_are_shown_by_their_range(b: u8)
    ensures
        b == 10 || b == 9 || 32 <= b < 127 ==> visible_byte(b) == seq![b],
        b < 32 && b != 10 && b != 9 ==> visible_byte(b) == seq![94u8, (b + 64) as u8],
        b == 127 ==> visible_byte(b) == seq![94u8, 63u8],
        160 <= b < 255 ==> visible_byte(b) == seq![77u8, 45u8, (b - 128) as u8],
        128 <= b < 160 ==> visible_byte(b) == seq![77u8, 45u8, 94u8, (b - 64) as u8],
        b == 255 ==> visible_byte(b) == seq![77u8, 45u8, 94u8, 63u8],
{
}

} // verus!
