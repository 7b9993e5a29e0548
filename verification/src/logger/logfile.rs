//! The log of a session: a header, what the session showed with the time in
//! front of every line, and a footer.
//!
//! Only what appears on the screen is logged. What is typed appears there
//! because the wrapped shell's terminal echoes it; a password that it does not
//! echo is never seen here.
//!
//! The log grows in memory. Whoever keeps the file takes out what was added
//! with [`LogFile::take_bytes`] and writes it there.

use vstd::prelude::*;
use vstd::utf8::{encode_scalar, encode_utf8};

use crate::calendar::{digits, iso_text, moment};
use crate::logger::safe_view::LINE_FEED;
use crate::logger::timestamp::{format_utc, since_epoch};
use crate::number::{
    decimal, digit_of, lemma_decimal_digits, lemma_padded_digits, parse_signed_of, push_signed,
    signed_decimal, signed_round_trip,
};
use crate::text::{
    affixes_are_taken_off, lemma_index_of_is, lines_are_cut_at_line_feeds, lines_of, push_str,
    text3, without_prefix,
};

verus! {

pub const SPACE: u8 = 0x20;

pub struct LogFile {
    writer: Vec<u8>,
    at_line_start: bool,
}

#[verifier::ext_equal]
pub struct LogView {
    pub bytes: Seq<u8>,
    /// Nothing of the present line was written yet.
    pub at_line_start: bool,
}

impl View for LogFile {
    type V = LogView;

    closed spec fn view(&self) -> LogView {
        LogView { bytes: self.writer@, at_line_start: self.at_line_start }
    }
}

pub open spec fn header_text(shell: Seq<char>, tty: Seq<char>, started_at: i64) -> Seq<char> {
    "=== rustlogger session started "@ + iso_text(since_epoch(started_at)) + " ===\nshell: "@
        + shell + "\ntty: "@ + tty + "\n"@
}

pub open spec fn exit_text(exit_code: Option<i32>) -> Seq<char> {
    match exit_code {
        Some(code) => signed_decimal(code as int),
        None => "(none)"@,
    }
}

pub open spec fn footer_text(reason: Seq<char>, exit_code: Option<i32>, ended_at: i64) -> Seq<
    char,
> {
    "=== rustlogger session ended "@ + iso_text(since_epoch(ended_at)) + " ===\nreason: "@ + reason
        + "\nexit code: "@ + exit_text(exit_code) + "\n"@
}

/// What stands in front of a line.
pub open spec fn stamp(now: i64) -> Seq<u8> {
    encode_utf8("["@ + iso_text(since_epoch(now)) + "] "@)
}

impl LogView {
    /// One more byte of output: the first of a line behind the time.
    pub open spec fn with_byte(self, b: u8, now: i64) -> LogView {
        LogView {
            bytes: if self.at_line_start {
                self.bytes + stamp(now)
            } else {
                self.bytes
            }.push(b),
            at_line_start: b == LINE_FEED,
        }
    }

    /// A chunk of output.
    pub open spec fn with_output(self, output: Seq<u8>, now: i64) -> LogView
        decreases output.len(),
    {
        if output.len() == 0 {
            self
        } else {
            self.with_output(output.drop_last(), now).with_byte(output.last(), now)
        }
    }

    /// The end of the log. A line that is not finished is ended first.
    pub open spec fn finished(self, reason: Seq<char>, exit_code: Option<i32>, ended_at: i64) -> LogView {
        LogView {
            bytes: if self.at_line_start {
                self.bytes
            } else {
                self.bytes.push(LINE_FEED)
            } + encode_utf8(footer_text(reason, exit_code, ended_at)),
            at_line_start: self.at_line_start,
        }
    }
}

fn push_text(out: &mut Vec<u8>, s: &str)
    ensures
        final(out)@ == old(out)@ + encode_utf8(s@),
{
    let ghost before = out@;
    let bytes = s.as_bytes();
    let mut i: usize = 0;
    while i < bytes.len()
        invariant
            i <= bytes.len(),
            out@ == before + bytes@.take(i as int),
        decreases bytes.len() - i,
    {
        out.push(bytes[i]);
        i = i + 1;
        assert(out@ == before + bytes@.take(i as int));
    }
    assert(bytes@.take(i as int) == bytes@);
}

impl LogFile {
    /// A log behind what `writer` already holds, with its header written.
    pub fn new(writer: Vec<u8>, shell: &str, tty: &str, started_at: i64) -> (r: LogFile)
        ensures
            r@ == (LogView {
                bytes: writer@ + encode_utf8(header_text(shell@, tty@, started_at)),
                at_line_start: true,
            }),
    {
        let mut writer = writer;
        let time = format_utc(started_at);
        let mut header: String = "=== rustlogger session started ".to_owned();
        push_str(&mut header, time.as_str());
        push_str(&mut header, " ===\nshell: ");
        push_str(&mut header, shell);
        push_str(&mut header, "\ntty: ");
        push_str(&mut header, tty);
        push_str(&mut header, "\n");
        assert(header@ == header_text(shell@, tty@, started_at));
        push_text(&mut writer, header.as_str());
        LogFile { writer, at_line_start: true }
    }

    /// Adds a chunk of what the session showed, at the time `now`.
    pub fn write_output(&mut self, bytes: &[u8], now: i64)
        ensures
            final(self)@ == old(self)@.with_output(bytes@, now),
    {
        let ghost start = self@;
        let time = format_utc(now);
        let prefix = text3("[", time.as_str(), "] ");
        let mut i: usize = 0;
        while i < bytes.len()
            invariant
                i <= bytes.len(),
                encode_utf8(prefix@) == stamp(now),
                self@ == start.with_output(bytes@.take(i as int), now),
            decreases bytes.len() - i,
        {
            assert(bytes@.take(i + 1).drop_last() == bytes@.take(i as int));
            let b: u8 = bytes[i];
            if self.at_line_start {
                push_text(&mut self.writer, prefix.as_str());
            }
            self.writer.push(b);
            self.at_line_start = b == LINE_FEED;
            i = i + 1;
        }
        assert(bytes@.take(i as int) == bytes@);
    }

    /// Ends the log.
    pub fn finish(&mut self, reason: &str, exit_code: Option<i32>, ended_at: i64)
        ensures
            final(self)@ == old(self)@.finished(reason@, exit_code, ended_at),
    {
        if !self.at_line_start {
            self.writer.push(LINE_FEED);
        }
        let time = format_utc(ended_at);
        let mut footer: String = "=== rustlogger session ended ".to_owned();
        push_str(&mut footer, time.as_str());
        push_str(&mut footer, " ===\nreason: ");
        push_str(&mut footer, reason);
        push_str(&mut footer, "\nexit code: ");
        match exit_code {
            Some(code) => {
                push_signed(&mut footer, code as i64);
            },
            None => {
                push_str(&mut footer, "(none)");
            },
        }
        push_str(&mut footer, "\n");
        assert(footer@ == footer_text(reason@, exit_code, ended_at));
        push_text(&mut self.writer, footer.as_str());
    }

    /// The whole log.
    pub fn into_writer(self) -> (r: Vec<u8>)
        ensures
            r@ == self@.bytes,
    {
        self.writer
    }

    /// Takes out what was written since the last time.
    pub fn take_bytes(&mut self) -> (r: Vec<u8>)
        ensures
            r@ == old(self)@.bytes,
            final(self)@ == (LogView { bytes: seq![], at_line_start: old(self)@.at_line_start }),
    {
        let mut bytes: Vec<u8> = Vec::new();
        std::mem::swap(&mut bytes, &mut self.writer);
        bytes
    }
}

/// What was logged stays logged: more output, and the footer, only come behind
/// it.
pub proof fn nothing_logged_is_lost(
    log: LogView,
    output: Seq<u8>,
    now: i64,
    reason: Seq<char>,
    exit_code: Option<i32>,
)
    ensures
        log.bytes.len() <= log.with_output(output, now).bytes.len(),
        log.with_output(output, now).bytes.take(log.bytes.len() as int) == log.bytes,
        log.bytes.len() <= log.finished(reason, exit_code, now).bytes.len(),
        log.finished(reason, exit_code, now).bytes.take(log.bytes.len() as int) == log.bytes,
    decreases output.len(),
{
    if output.len() > 0 {
        nothing_logged_is_lost(log, output.drop_last(), now, reason, exit_code);
        let before = log.with_output(output.drop_last(), now);
        let after = log.with_output(output, now);
        let n = log.bytes.len() as int;
        assert(after.bytes.take(n) == before.bytes.take(n));
    }
}

/// It does not matter into which chunks the output is cut.
pub proof fn chunks_are_logged_alike(log: LogView, a: Seq<u8>, b: Seq<u8>, now: i64)
    ensures
        log.with_output(a, now).with_output(b, now) == log.with_output(a + b, now),
    decreases b.len(),
{
    if b.len() == 0 {
        assert(a + b == a);
    } else {
        chunks_are_logged_alike(log, a, b.drop_last(), now);
        assert((a + b).drop_last() == a + b.drop_last());
    }
}

proof fn lemma_within_line(log: LogView, line: Seq<u8>, now: i64)
    requires
        log.at_line_start,
        line.len() > 0,
        forall|i: int| 0 <= i < line.len() ==> #[trigger] line[i] != LINE_FEED,
    ensures
        log.with_output(line, now) == (LogView {
            bytes: log.bytes + stamp(now) + line,
            at_line_start: false,
        }),
    decreases line.len(),
{
    let front = line.drop_last();
    assert(line[line.len() - 1] != LINE_FEED);
    if front.len() > 0 {
        assert forall|i: int| 0 <= i < front.len() implies #[trigger] front[i] != LINE_FEED by {
            assert(front[i] == line[i]);
        }
        lemma_within_line(log, front, now);
        assert((log.bytes + stamp(now) + front).push(line.last()) == log.bytes + stamp(now) + line);
    } else {
        assert(log.with_output(front, now) == log);
        assert((log.bytes + stamp(now)).push(line.last()) == log.bytes + stamp(now) + line);
    }
}

/// A line of output becomes a line of the log: the time, and the line as it
/// was, whatever it holds.
pub proof fn every_line_is_stamped(log: LogView, line: Seq<u8>, now: i64)
    requires
        log.at_line_start,
        forall|i: int| 0 <= i < line.len() ==> #[trigger] line[i] != LINE_FEED,
    ensures
        log.with_output(line.push(LINE_FEED), now) == (LogView {
            bytes: log.bytes + stamp(now) + line.push(LINE_FEED),
            at_line_start: true,
        }),
{
    assert(line.push(LINE_FEED).drop_last() == line);
    if line.len() > 0 {
        lemma_within_line(log, line, now);
        assert((log.bytes + stamp(now) + line).push(LINE_FEED) == log.bytes + stamp(now)
            + line.push(LINE_FEED));
    } else {
        assert(log.with_output(line, now) == log);
        assert((log.bytes + stamp(now)).push(LINE_FEED) == log.bytes + stamp(now) + line.push(
            LINE_FEED,
        ));
    }
}

// ---------------------------------------------------------------------------
// Any chunks at any times
// ---------------------------------------------------------------------------
impl LogView {
    /// Chunks of output, each at its time.
    pub open spec fn with_chunks(self, chunks: Seq<(Seq<u8>, i64)>) -> LogView
        decreases chunks.len(),
    {
        if chunks.len() == 0 {
            self
        } else {
            self.with_chunks(chunks.drop_last()).with_output(chunks.last().0, chunks.last().1)
        }
    }
}

/// All the output of some chunks.
pub open spec fn shown(chunks: Seq<(Seq<u8>, i64)>) -> Seq<u8>
    decreases chunks.len(),
{
    if chunks.len() == 0 {
        seq![]
    } else {
        shown(chunks.drop_last()) + chunks.last().0
    }
}

/// When each byte of that output came.
pub open spec fn times(chunks: Seq<(Seq<u8>, i64)>) -> Seq<i64>
    decreases chunks.len(),
{
    if chunks.len() == 0 {
        seq![]
    } else {
        times(chunks.drop_last()) + repeated(chunks.last().1, chunks.last().0.len())
    }
}

pub open spec fn repeated(now: i64, n: nat) -> Seq<i64> {
    Seq::new(n, |i: int| now)
}

/// The output with one stamp in front of each line: in front of its first byte,
/// and of each that follows a line feed. The stamp has the time of the byte
/// behind it.
pub open spec fn stamped(output: Seq<u8>, times: Seq<i64>, at_line_start: bool) -> Seq<u8>
    decreases output.len(),
{
    if output.len() == 0 {
        seq![]
    } else {
        (if at_line_start {
            stamp(times[0])
        } else {
            seq![]
        }) + seq![output[0]] + stamped(
            output.drop_first(),
            times.drop_first(),
            output[0] == LINE_FEED,
        )
    }
}

/// A line starts behind the output.
pub open spec fn line_starts_behind(output: Seq<u8>, at_line_start: bool) -> bool {
    if output.len() == 0 {
        at_line_start
    } else {
        output.last() == LINE_FEED
    }
}

proof fn lemma_stamped_sum(a: Seq<u8>, s: Seq<i64>, b: Seq<u8>, t: Seq<i64>, at_line_start: bool)
    requires
        a.len() == s.len(),
        b.len() == t.len(),
    ensures
        stamped(a + b, s + t, at_line_start) == stamped(a, s, at_line_start) + stamped(
            b,
            t,
            line_starts_behind(a, at_line_start),
        ),
    decreases a.len(),
{
    if a.len() == 0 {
        assert(a + b == b);
        assert(s + t == t);
        assert(stamped(a, s, at_line_start) + stamped(b, t, at_line_start) == stamped(
            b,
            t,
            at_line_start,
        ));
    } else {
        let rest = a.drop_first();
        assert((a + b).drop_first() == rest + b);
        assert((s + t).drop_first() == s.drop_first() + t);
        lemma_stamped_sum(rest, s.drop_first(), b, t, a[0] == LINE_FEED);
        assert(line_starts_behind(rest, a[0] == LINE_FEED) == line_starts_behind(a, at_line_start));
        assert((a + b)[0] == a[0]);
        assert((s + t)[0] == s[0]);
    }
}

proof fn lemma_output(log: LogView, output: Seq<u8>, now: i64)
    ensures
        log.with_output(output, now) == (LogView {
            bytes: log.bytes + stamped(output, repeated(now, output.len()), log.at_line_start),
            at_line_start: line_starts_behind(output, log.at_line_start),
        }),
    decreases output.len(),
{
    if output.len() == 0 {
        assert(log.bytes + Seq::<u8>::empty() == log.bytes);
    } else {
        let front = output.drop_last();
        let last = seq![output.last()];
        let start = line_starts_behind(front, log.at_line_start);
        lemma_output(log, front, now);
        lemma_stamped_sum(
            front,
            repeated(now, front.len()),
            last,
            repeated(now, 1),
            log.at_line_start,
        );
        assert(front + last == output);
        assert(repeated(now, front.len()) + repeated(now, 1) == repeated(now, output.len()));
        assert(stamped(last.drop_first(), repeated(now, 1).drop_first(), last[0] == LINE_FEED)
            == Seq::<u8>::empty());
        assert(stamped(last, repeated(now, 1), start) == (if start {
            stamp(now)
        } else {
            seq![]
        }) + last);
        assert(log.with_output(output, now).bytes == log.bytes + stamped(
            output,
            repeated(now, output.len()),
            log.at_line_start,
        ));
    }
}

/// However the output is cut into chunks, and whenever they come, the log is all
/// of it with one stamp in front of each line, and nothing behind the last line
/// feed.
pub proof fn every_chunk_is_logged(log: LogView, chunks: Seq<(Seq<u8>, i64)>)
    ensures
        times(chunks).len() == shown(chunks).len(),
        log.with_chunks(chunks) == (LogView {
            bytes: log.bytes + stamped(shown(chunks), times(chunks), log.at_line_start),
            at_line_start: line_starts_behind(shown(chunks), log.at_line_start),
        }),
    decreases chunks.len(),
{
    if chunks.len() == 0 {
        assert(log.bytes + Seq::<u8>::empty() == log.bytes);
    } else {
        let front = chunks.drop_last();
        let (output, now) = chunks.last();
        every_chunk_is_logged(log, front);
        lemma_output(log.with_chunks(front), output, now);
        lemma_stamped_sum(
            shown(front),
            times(front),
            output,
            repeated(now, output.len()),
            log.at_line_start,
        );
        assert(log.with_chunks(chunks).bytes == log.bytes + stamped(
            shown(chunks),
            times(chunks),
            log.at_line_start,
        ));
    }
}

/// What follows the first space.
pub open spec fn behind_space(s: Seq<u8>) -> Seq<u8>
    decreases s.len(),
{
    if s.len() == 0 {
        s
    } else if s[0] == SPACE {
        s.drop_first()
    } else {
        behind_space(s.drop_first())
    }
}

pub proof fn lemma_behind_space(s: Seq<u8>)
    ensures
        behind_space(s).len() <= s.len(),
        s.len() > 0 ==> behind_space(s).len() < s.len(),
    decreases s.len(),
{
    if s.len() > 0 && s[0] != SPACE {
        lemma_behind_space(s.drop_first());
    }
}

/// `s` without what stands in front of its lines, up to the first space.
pub open spec fn unstamped(s: Seq<u8>, at_line_start: bool) -> Seq<u8>
    decreases s.len(),
{
    if s.len() == 0 {
        s
    } else if at_line_start {
        proof {
            lemma_behind_space(s);
        }
        unstamped(behind_space(s), false)
    } else {
        seq![s[0]] + unstamped(s.drop_first(), s[0] == LINE_FEED)
    }
}

/// ASCII, and neither a space nor a control character below it.
spec fn plain_char(c: char) -> bool {
    0x20 < c as u32 <= 0x7f
}

spec fn plain(s: Seq<char>) -> bool {
    forall|i: int| 0 <= i < s.len() ==> plain_char(#[trigger] s[i])
}

proof fn lemma_plain_bytes(s: Seq<char>, rest: Seq<u8>)
    requires
        plain(s),
    ensures
        behind_space(encode_utf8(s) + rest) == behind_space(rest),
    decreases s.len(),
{
    if s.len() == 0 {
        assert(encode_utf8(s) + rest == rest);
    } else {
        let c = s[0] as u32;
        assert(plain_char(s[0]));
        assert(c & 0x7f == c) by (bit_vector)
            requires
                c <= 0x7f,
        ;
        let tail = s.drop_first();
        assert forall|i: int| 0 <= i < tail.len() implies plain_char(#[trigger] tail[i]) by {
            assert(tail[i] == s[i + 1]);
        }
        lemma_plain_bytes(tail, rest);
        let bytes = encode_utf8(s) + rest;
        assert(encode_scalar(c) == seq![c as u8]);
        assert(bytes.drop_first() == encode_utf8(tail) + rest);
        assert(bytes[0] == c as u8);
    }
}

proof fn lemma_encode_sum(a: Seq<char>, b: Seq<char>)
    ensures
        encode_utf8(a + b) == encode_utf8(a) + encode_utf8(b),
    decreases a.len(),
{
    if a.len() == 0 {
        assert(a + b == b);
        assert(encode_utf8(a) + encode_utf8(b) == encode_utf8(b));
    } else {
        assert((a + b).drop_first() == a.drop_first() + b);
        assert((a + b)[0] == a[0]);
        lemma_encode_sum(a.drop_first(), b);
    }
}

proof fn lemma_plain_digits(n: int, width: nat)
    ensures
        plain(digits(n, width)),
{
    lemma_padded_digits(n as nat, width);
    let s = digits(n, width);
    assert forall|i: int| 0 <= i < s.len() implies plain_char(#[trigger] s[i]) by {
        assert(digit_of(s[i], 10) is Some);
    }
}

proof fn lemma_plain_sum(a: Seq<char>, b: Seq<char>)
    requires
        plain(a),
        plain(b),
    ensures
        plain(a + b),
{
    let s = a + b;
    assert forall|i: int| 0 <= i < s.len() implies plain_char(#[trigger] s[i]) by {
        if i < a.len() {
            assert(s[i] == a[i]);
        } else {
            assert(s[i] == b[i - a.len()]);
        }
    }
}

proof fn lemma_plain_time(secs: int)
    ensures
        plain(iso_text(secs)),
{
    reveal_strlit("-");
    reveal_strlit("T");
    reveal_strlit(":");
    reveal_strlit("Z");
    let (y, m, d, h, min, s) = moment(secs);
    lemma_plain_digits(y, 4);
    lemma_plain_digits(m, 2);
    lemma_plain_digits(d, 2);
    lemma_plain_digits(h, 2);
    lemma_plain_digits(min, 2);
    lemma_plain_digits(s, 2);
    let t = digits(y, 4);
    lemma_plain_sum(t, "-"@);
    let t = t + "-"@;
    lemma_plain_sum(t, digits(m, 2));
    let t = t + digits(m, 2);
    lemma_plain_sum(t, "-"@);
    let t = t + "-"@;
    lemma_plain_sum(t, digits(d, 2));
    let t = t + digits(d, 2);
    lemma_plain_sum(t, "T"@);
    let t = t + "T"@;
    lemma_plain_sum(t, digits(h, 2));
    let t = t + digits(h, 2);
    lemma_plain_sum(t, ":"@);
    let t = t + ":"@;
    lemma_plain_sum(t, digits(min, 2));
    let t = t + digits(min, 2);
    lemma_plain_sum(t, ":"@);
    let t = t + ":"@;
    lemma_plain_sum(t, digits(s, 2));
    let t = t + digits(s, 2);
    lemma_plain_sum(t, "Z"@);
}

proof fn lemma_behind_stamp(now: i64, rest: Seq<u8>)
    ensures
        stamp(now).len() > 0,
        behind_space(stamp(now) + rest) == rest,
{
    reveal_strlit("[");
    reveal_strlit("] ");
    let time = iso_text(since_epoch(now));
    lemma_plain_time(since_epoch(now));
    lemma_plain_sum("["@, time);
    let bracket = seq![']'];
    let space = seq![' '];
    let front = "["@ + time + bracket;
    lemma_plain_sum("["@ + time, bracket);
    assert("["@ + time + "] "@ == front + space);
    lemma_encode_sum(front, space);
    assert(0x20u32 & 0x7f == 0x20) by (bit_vector);
    assert(encode_scalar(0x20) == seq![SPACE]);
    assert(space.drop_first() == Seq::<char>::empty());
    assert(encode_utf8(space) == seq![SPACE]) by {
        assert(encode_utf8(space.drop_first()) == Seq::<u8>::empty());
    }
    assert(stamp(now) + rest == encode_utf8(front) + (seq![SPACE] + rest));
    lemma_plain_bytes(front, seq![SPACE] + rest);
    assert((seq![SPACE] + rest).drop_first() == rest);
}

/// Without its stamps, what was logged is the output, byte for byte.
pub proof fn the_stamps_can_be_taken_out(output: Seq<u8>, times: Seq<i64>, at_line_start: bool)
    requires
        output.len() == times.len(),
    ensures
        unstamped(stamped(output, times, at_line_start), at_line_start) == output,
    decreases output.len(),
{
    if output.len() > 0 {
        let rest = stamped(output.drop_first(), times.drop_first(), output[0] == LINE_FEED);
        let line = seq![output[0]] + rest;
        the_stamps_can_be_taken_out(
            output.drop_first(),
            times.drop_first(),
            output[0] == LINE_FEED,
        );
        assert(line.drop_first() == rest);
        assert(unstamped(line, false) == seq![output[0]] + output.drop_first());
        assert(seq![output[0]] + output.drop_first() == output);
        if at_line_start {
            lemma_behind_stamp(times[0], line);
            assert(stamped(output, times, true) == stamp(times[0]) + line);
        } else {
            assert(stamped(output, times, false) == line);
        }
    }
}

/// Whatever chunks a fresh log is given, and whenever, what stands behind the
/// header is their bytes, once the stamps are taken out.
pub proof fn the_log_gives_back_the_output(log: LogView, chunks: Seq<(Seq<u8>, i64)>)
    ensures
        log.bytes.len() <= log.with_chunks(chunks).bytes.len(),
        unstamped(
            log.with_chunks(chunks).bytes.skip(log.bytes.len() as int),
            log.at_line_start,
        ) == shown(chunks),
{
    every_chunk_is_logged(log, chunks);
    the_stamps_can_be_taken_out(shown(chunks), times(chunks), log.at_line_start);
    assert(log.with_chunks(chunks).bytes.skip(log.bytes.len() as int) == stamped(
        shown(chunks),
        times(chunks),
        log.at_line_start,
    ));
}

// ---------------------------------------------------------------------------
// The lines around the output
// ---------------------------------------------------------------------------
proof fn lemma_line(a: Seq<char>, b: Seq<char>)
    requires
        forall|i: int| 0 <= i < a.len() ==> a[i] != '\n',
        a.len() > 0,
        a.last() != '\r',
    ensures
        lines_of(a + seq!['\n'] + b) == seq![a] + lines_of(b),
{
    lines_are_cut_at_line_feeds(a, b);
    let s = a + seq!['\n'] + b;
    lemma_index_of_is(s, '\n', a.len() as int);
    assert(s.take(a.len() as int) =~= a);
    assert(s.skip(a.len() as int + 1) =~= b);
    assert(lines_of(s) =~= seq![a] + lines_of(b));
}

/// The footer has three lines: the time, the reason behind `reason:`, and the code
/// behind `exit code:`, which reads back as the code.
pub proof fn the_footer_is_read_by_its_labels(reason: Seq<char>, exit_code: Option<i32>, ended_at: i64)
    requires
        forall|i: int| 0 <= i < reason.len() ==> reason[i] != '\n' && reason[i] != '\r',
    ensures
        ({
            let lines = lines_of(footer_text(reason, exit_code, ended_at));
            &&& lines.len() == 3
            &&& lines[0] == "=== rustlogger session ended "@ + iso_text(since_epoch(ended_at))
                + " ==="@
            &&& lines[1] == "reason: "@ + reason
            &&& match exit_code {
                Some(code) => without_prefix(lines[2], "exit code: "@) matches Some(text)
                    && parse_signed_of(text) == Some(code as int),
                None => lines[2] == "exit code: (none)"@,
            }
        }),
{
    reveal_strlit("=== rustlogger session ended ");
    reveal_strlit(" ===");
    reveal_strlit(" ===\nreason: ");
    reveal_strlit("reason: ");
    reveal_strlit("\nexit code: ");
    reveal_strlit("exit code: ");
    reveal_strlit("exit code: (none)");
    reveal_strlit("(none)");
    reveal_strlit("\n");
    let time = iso_text(since_epoch(ended_at));
    lemma_plain_time(since_epoch(ended_at));
    assert forall|i: int| 0 <= i < time.len() implies time[i] != '\n' by {
        assert(plain_char(time[i]));
    }
    let code = exit_text(exit_code);
    let a = "=== rustlogger session ended "@ + time + " ==="@;
    let b = "reason: "@ + reason;
    let c = "exit code: "@ + code;
    let none = Seq::<char>::empty();
    assert(" ===\nreason: "@ =~= " ==="@ + seq!['\n'] + "reason: "@);
    assert("\nexit code: "@ =~= seq!['\n'] + "exit code: "@);
    assert("\n"@ =~= seq!['\n']);
    assert(footer_text(reason, exit_code, ended_at) =~= a + seq!['\n'] + (b + seq!['\n'] + (c
        + seq!['\n'] + none)));
    assert("exit code: "@ + "(none)"@ =~= "exit code: (none)"@);
    lemma_code_plain(exit_code);
    lemma_line(c, none);
    lemma_line(b, c + seq!['\n'] + none);
    lemma_line(a, b + seq!['\n'] + (c + seq!['\n'] + none));
    assert(lines_of(none) == Seq::<Seq<char>>::empty());
    affixes_are_taken_off("exit code: "@, code);
    if let Some(n) = exit_code {
        signed_round_trip(n as i64);
    }
}

proof fn lemma_code_plain(exit_code: Option<i32>)
    ensures
        forall|i: int|
            0 <= i < exit_text(exit_code).len() ==> exit_text(exit_code)[i] != '\n' && exit_text(
                exit_code,
            )[i] != '\r',
{
    reveal_strlit("(none)");
    if let Some(code) = exit_code {
        let n: nat = (if code < 0 {
            -code as int
        } else {
            code as int
        }) as nat;
        lemma_decimal_digits(n);
        let s = exit_text(exit_code);
        assert forall|i: int| 0 <= i < s.len() implies s[i] != '\n' && s[i] != '\r' by {
            if code < 0 {
                if i > 0 {
                    assert(s[i] == decimal(n)[i - 1]);
                    assert(digit_of(decimal(n)[i - 1], 10) is Some);
                }
            } else {
                assert(digit_of(decimal(n)[i], 10) is Some);
            }
        }
    }
}

/// The header has three lines: the time, the shell behind `shell:`, and the terminal
/// behind `tty:`.
pub proof fn the_header_is_read_by_its_labels(shell: Seq<char>, tty: Seq<char>, started_at: i64)
    requires
        forall|i: int| 0 <= i < shell.len() ==> shell[i] != '\n' && shell[i] != '\r',
        forall|i: int| 0 <= i < tty.len() ==> tty[i] != '\n' && tty[i] != '\r',
    ensures
        ({
            let lines = lines_of(header_text(shell, tty, started_at));
            &&& lines.len() == 3
            &&& lines[0] == "=== rustlogger session started "@ + iso_text(since_epoch(started_at))
                + " ==="@
            &&& lines[1] == "shell: "@ + shell
            &&& lines[2] == "tty: "@ + tty
        }),
{
    reveal_strlit("=== rustlogger session started ");
    reveal_strlit(" ===");
    reveal_strlit(" ===\nshell: ");
    reveal_strlit("shell: ");
    reveal_strlit("\ntty: ");
    reveal_strlit("tty: ");
    reveal_strlit("\n");
    let time = iso_text(since_epoch(started_at));
    lemma_plain_time(since_epoch(started_at));
    assert forall|i: int| 0 <= i < time.len() implies time[i] != '\n' by {
        assert(plain_char(time[i]));
    }
    let a = "=== rustlogger session started "@ + time + " ==="@;
    let b = "shell: "@ + shell;
    let c = "tty: "@ + tty;
    let none = Seq::<char>::empty();
    assert(" ===\nshell: "@ =~= " ==="@ + seq!['\n'] + "shell: "@);
    assert("\ntty: "@ =~= seq!['\n'] + "tty: "@);
    assert("\n"@ =~= seq!['\n']);
    assert(header_text(shell, tty, started_at) =~= a + seq!['\n'] + (b + seq!['\n'] + (c
        + seq!['\n'] + none)));
    lemma_line(c, none);
    lemma_line(b, c + seq!['\n'] + none);
    lemma_line(a, b + seq!['\n'] + (c + seq!['\n'] + none));
    assert(lines_of(none) == Seq::<Seq<char>>::empty());
}

} // verus!
