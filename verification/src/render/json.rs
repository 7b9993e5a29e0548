//! A snapshot as one JSON object, with a fixed schema.

use vstd::prelude::*;

use crate::calendar::{iso, iso_text, moment, times_read_in_order};
use crate::order::at_most;
use crate::error::{Error, ErrorView};
use crate::number::{
    decimal, decimal_string, digit_char, digit_of, digits_value, hex_byte, push_hex_byte,
};
use crate::render::document::{
    chars, letter, Document, Glyph, Piece, Quantity, QuantityView,
};
use crate::delta::{Rates, RatesView};
use crate::render::schema::{
    chips_json, connections_json, cpu_json, disks_json, errors_json, gpus_json, interfaces_json,
    memory_json, mounts_json, rates_view, write_connections, write_cpu, write_disks, write_errors,
    write_gpus, write_memory, write_mounts, write_net, write_thermal,
};
use crate::sample::{views, Snapshot, SnapshotView};
use crate::sysfs::control_char;
use crate::text::{chars_of, first_of};

verus! {

/// Raised whenever a field changes its meaning or goes; a new field does not
/// raise it.
pub const SCHEMA_VERSION: u64 = 1;

/// Cap on a string.
pub const MAX_STRING_LEN: usize = 4096;

// ---------------------------------------------------------------------------
// Strings
// ---------------------------------------------------------------------------
/// How a character stands inside a JSON string. Beside what JSON demands, DEL
/// and the C1 controls are escaped, which a terminal would obey.
pub open spec fn escaped_char(c: char) -> Seq<char> {
    if c == '"' {
        seq!['\\', '"']
    } else if c == '\\' {
        seq!['\\', '\\']
    } else if c == '\n' {
        seq!['\\', 'n']
    } else if c == '\r' {
        seq!['\\', 'r']
    } else if c == '\t' {
        seq!['\\', 't']
    } else if c == '\u{8}' {
        seq!['\\', 'b']
    } else if c == '\u{c}' {
        seq!['\\', 'f']
    } else if (c as u32) < 0x20 || 0x7f <= c as u32 <= 0x9f {
        seq!['\\', 'u', '0', '0'] + hex_byte(c as nat)
    } else {
        seq![c]
    }
}

/// The inside of a JSON string.
pub open spec fn escaped_body(s: Seq<char>) -> Seq<char>
    decreases s.len(),
{
    if s.len() == 0 {
        seq![]
    } else {
        escaped_body(s.drop_last()) + escaped_char(s.last())
    }
}

/// A JSON string: at most so many characters of `s`, in quotes.
pub open spec fn json_string(s: Seq<char>) -> Seq<char> {
    seq!['"'] + escaped_body(first_of(s, MAX_STRING_LEN as nat)) + seq!['"']
}

fn push_escaped(out: &mut String, c: char)
    ensures
        final(out)@ == old(out)@ + escaped_char(c),
{
    let ghost before = out@;
    if c == '"' {
        out.push('\\');
        out.push('"');
    } else if c == '\\' {
        out.push('\\');
        out.push('\\');
    } else if c == '\n' {
        out.push('\\');
        out.push('n');
    } else if c == '\r' {
        out.push('\\');
        out.push('r');
    } else if c == '\t' {
        out.push('\\');
        out.push('t');
    } else if c == '\u{8}' {
        out.push('\\');
        out.push('b');
    } else if c == '\u{c}' {
        out.push('\\');
        out.push('f');
    } else if (c as u32) < 0x20 || (0x7f <= c as u32 && c as u32 <= 0x9f) {
        out.push('\\');
        out.push('u');
        out.push('0');
        out.push('0');
        push_hex_byte(out, c as u8);
    } else {
        out.push(c);
    }
    assert(out@ == before + escaped_char(c));
}

/// A string escaped for JSON, with its quotes.
pub fn escape_json_string(s: &str) -> (r: String)
    ensures
        r@ == json_string(s@),
{
    let cs = chars_of(s);
    let n: usize = if cs.len() <= MAX_STRING_LEN {
        cs.len()
    } else {
        MAX_STRING_LEN
    };
    let ghost kept = first_of(s@, MAX_STRING_LEN as nat);
    let mut out: String = String::new();
    out.push('"');
    let mut i: usize = 0;
    assert(out@ == seq!['"'] + escaped_body(kept.take(0)));
    while i < n
        invariant
            i <= n <= cs.len(),
            cs@ == s@,
            n == kept.len(),
            kept == first_of(s@, MAX_STRING_LEN as nat),
            out@ == seq!['"'] + escaped_body(kept.take(i as int)),
        decreases n - i,
    {
        push_escaped(&mut out, cs[i]);
        assert(kept.take(i + 1).drop_last() == kept.take(i as int));
        assert(kept.take(i + 1).last() == cs@[i as int]);
        assert(out@ == seq!['"'] + escaped_body(kept.take(i + 1)));
        i = i + 1;
    }
    assert(kept.take(i as int) == kept);
    out.push('"');
    assert(out@ == json_string(s@));
    out
}

/// The character that an escape at the head of `s` stands for, and how long
/// it is.
pub open spec fn decoded_head(s: Seq<char>) -> (char, int) {
    if s.len() < 2 || s[0] != '\\' {
        (s[0], 1)
    } else if s[1] == 'n' {
        ('\n', 2)
    } else if s[1] == 'r' {
        ('\r', 2)
    } else if s[1] == 't' {
        ('\t', 2)
    } else if s[1] == 'b' {
        ('\u{8}', 2)
    } else if s[1] == 'f' {
        ('\u{c}', 2)
    } else if s[1] == 'u' && s.len() >= 6 {
        (digits_value(s.subrange(2, 6), 16) as char, 6)
    } else {
        (s[1], 2)
    }
}

/// What a reader makes of the inside of a JSON string.
pub open spec fn decoded_body(s: Seq<char>) -> Seq<char>
    decreases s.len(),
{
    if s.len() == 0 {
        seq![]
    } else {
        let (c, n) = decoded_head(s);
        if 0 < n <= s.len() {
            seq![c] + decoded_body(s.skip(n))
        } else {
            seq![]
        }
    }
}

proof fn lemma_hex_value(n: nat)
    requires
        n < 256,
    ensures
        digits_value(seq!['0', '0'] + hex_byte(n), 16) == n,
{
    digit_char_value(n / 16);
    digit_char_value(n % 16);
    let s = seq!['0', '0'] + hex_byte(n);
    let t = s.drop_last();
    let u = t.drop_last();
    let v = u.drop_last();
    assert(v.drop_last() == Seq::<char>::empty());
    assert(s.last() == digit_char(n % 16));
    assert(t.last() == digit_char((n / 16) % 16));
    assert(u.last() == '0' && v.last() == '0');
    assert(digits_value(v.drop_last(), 16) == 0);
    assert(digit_of('0', 16) == Some(0nat));
    assert(digits_value(v, 16) == 0);
    assert(digits_value(u, 16) == 0);
    assert(digits_value(t, 16) == n / 16);
    assert(digits_value(s, 16) == n / 16 * 16 + n % 16);
}

/// A hexadecimal digit counts for itself.
proof fn digit_char_value(d: nat)
    requires
        d < 16,
    ensures
        digit_of(digit_char(d), 16) == Some(d),
{
}

proof fn lemma_decoded_char(c: char, rest: Seq<char>)
    ensures
        decoded_body(escaped_char(c) + rest) == seq![c] + decoded_body(rest),
{
    let e = escaped_char(c);
    let s = e + rest;
    assert(s.skip(e.len() as int) == rest);
    if e.len() == 6 {
        assert(s.subrange(2, 6) == seq!['0', '0'] + hex_byte(c as nat));
        lemma_hex_value(c as nat);
        assert(decoded_head(s) == (c, 6int));
    } else if e.len() == 2 {
        assert(s[0] == '\\' && s[1] == e[1]);
        assert(decoded_head(s) == (c, 2int));
    } else {
        assert(s[0] == c);
        assert(decoded_head(s) == (c, 1int));
    }
}

proof fn lemma_decoded(s: Seq<char>, rest: Seq<char>)
    ensures
        decoded_body(escaped_body(s) + rest) == s + decoded_body(rest),
    decreases s.len(),
{
    if s.len() == 0 {
        assert(escaped_body(s) + rest == rest);
        assert(s + decoded_body(rest) == decoded_body(rest));
    } else {
        let t = s.drop_last();
        lemma_decoded(t, escaped_char(s.last()) + rest);
        lemma_decoded_char(s.last(), rest);
        assert(escaped_body(s) + rest == escaped_body(t) + (escaped_char(s.last()) + rest));
        assert(t + (seq![s.last()] + decoded_body(rest)) == s + decoded_body(rest));
    }
}

/// A reader gets back the string that was written, up to the cap.
pub proof fn strings_read_back(s: Seq<char>)
    ensures
        decoded_body(json_string(s).subrange(1, json_string(s).len() - 1)) == first_of(
            s,
            MAX_STRING_LEN as nat,
        ),
{
    let kept = first_of(s, MAX_STRING_LEN as nat);
    lemma_decoded(kept, Seq::empty());
    assert(escaped_body(kept) + Seq::<char>::empty() == escaped_body(kept));
    assert(json_string(s).subrange(1, json_string(s).len() - 1) == escaped_body(kept));
    assert(kept + Seq::<char>::empty() == kept);
}

proof fn lemma_escaped_inert(s: Seq<char>)
    ensures
        forall|i: int|
            0 <= i < escaped_body(s).len() ==> !control_char(
                #[trigger] escaped_body(s)[i],
            ),
    decreases s.len(),
{
    if s.len() > 0 {
        lemma_escaped_inert(s.drop_last());
        let a = escaped_body(s.drop_last());
        let b = escaped_char(s.last());
        assert forall|i: int| 0 <= i < escaped_body(s).len() implies !control_char(
            #[trigger] escaped_body(s)[i],
        ) by {
            if i < a.len() {
                assert(escaped_body(s)[i] == a[i]);
            } else {
                assert(escaped_body(s)[i] == b[i - a.len()]);
            }
        }
    }
}

/// No control character stands in an escaped string, whatever went into it.
pub proof fn escaped_strings_are_inert(s: Seq<char>)
    ensures
        forall|i: int|
            0 <= i < json_string(s).len() ==> !control_char(
                #[trigger] json_string(s)[i],
            ),
{
    let kept = first_of(s, MAX_STRING_LEN as nat);
    lemma_escaped_inert(kept);
    let b = escaped_body(kept);
    assert forall|i: int| 0 <= i < json_string(s).len() implies !control_char(
        #[trigger] json_string(s)[i],
    ) by {
        if 0 < i < json_string(s).len() - 1 {
            assert(json_string(s)[i] == b[i - 1]);
        }
    }
}

/// A time before 1970 has no such form.
pub open spec fn rfc3339_of(secs: i64) -> Result<Seq<char>, ErrorView> {
    if secs < 0 {
        Err(
            ErrorView::Parse {
                path: "<timestamp>"@,
                line: None,
                reason: "system time predates the Unix epoch"@,
            },
        )
    } else {
        Ok(iso_text(secs as int))
    }
}

pub open spec fn string_view(r: Result<String, Error>) -> Result<Seq<char>, ErrorView> {
    match r {
        Ok(s) => Ok(s@),
        Err(e) => Err(e@),
    }
}

/// A time in seconds from the epoch as RFC 3339 writes it, in UTC.
pub fn format_rfc3339(secs: i64) -> (r: Result<String, Error>)
    ensures
        string_view(r) == rfc3339_of(secs),
{
    if secs < 0 {
        Err(
            Error::parse("<timestamp>", None, "system time predates the Unix epoch".to_owned()),
        )
    } else {
        Ok(iso(secs as u64))
    }
}

/// The text of a time is in the order of the times, from 1970 to the year 9999,
/// and there is one for each.
pub proof fn timestamps_sort_by_time(a: i64, b: i64)
    requires
        0 <= a <= b,
        moment(b as int).0 < 10_000,
    ensures
        rfc3339_of(a) matches Ok(s) && rfc3339_of(b) matches Ok(t) && at_most(s, t),
{
    times_read_in_order(a as int, b as int);
}

// ---------------------------------------------------------------------------
// Values
// ---------------------------------------------------------------------------
/// A JSON value.
pub enum Json {
    Null,
    Bool(bool),
    Number(u64),
    /// A number that is not a whole one.
    Measured(QuantityView),
    Text(Seq<char>),
    Array(Seq<Json>),
    Object(Seq<(Seq<char>, Json)>),
}

/// How a value is written.
pub open spec fn written(j: Json) -> Seq<Glyph>
    decreases j,
{
    match j {
        Json::Null => chars("null"@),
        Json::Bool(b) => if b {
            chars("true"@)
        } else {
            chars("false"@)
        },
        Json::Number(n) => chars(decimal(n as nat)),
        Json::Measured(q) => seq![Glyph::Number(q)],
        Json::Text(s) => chars(json_string(s)),
        Json::Array(items) => chars("["@) + items_written(items) + chars("]"@),
        Json::Object(members) => chars("{"@) + members_written(members) + chars("}"@),
    }
}

/// Values with a comma between each two.
pub open spec fn items_written(items: Seq<Json>) -> Seq<Glyph>
    decreases items,
{
    if items.len() == 0 {
        seq![]
    } else if items.len() == 1 {
        written(items[0])
    } else {
        items_written(items.drop_last()) + chars(","@) + written(items[items.len() - 1])
    }
}

/// Members with a comma between each two, each a name, a colon and a value.
pub open spec fn members_written(members: Seq<(Seq<char>, Json)>) -> Seq<Glyph>
    decreases members,
{
    if members.len() == 0 {
        seq![]
    } else {
        let last = members[members.len() - 1];
        let member = chars(json_string(last.0)) + chars(":"@) + written(last.1);
        if members.len() == 1 {
            member
        } else {
            members_written(members.drop_last()) + chars(","@) + member
        }
    }
}

// ---------------------------------------------------------------------------
// The writer
// ---------------------------------------------------------------------------
/// Where a writer is: what it has written, for each open container whether the
/// next member needs a comma, and whether a name waits for its value.
pub struct WriterState {
    pub out: Seq<Glyph>,
    pub stack: Seq<bool>,
    pub after_key: bool,
}

/// The state once a member has begun: its comma is written where it needs one,
/// and the next member will need one.
pub open spec fn begun(w: WriterState) -> WriterState {
    if w.after_key || w.stack.len() == 0 {
        WriterState { out: w.out, stack: w.stack, after_key: false }
    } else {
        WriterState {
            out: if w.stack.last() {
                w.out + chars(","@)
            } else {
                w.out
            },
            stack: w.stack.update(w.stack.len() - 1, true),
            after_key: false,
        }
    }
}

/// The state once something has been written as one value.
pub open spec fn emitted(w: WriterState, g: Seq<Glyph>) -> WriterState {
    let b = begun(w);
    WriterState { out: b.out + g, stack: b.stack, after_key: false }
}

/// The state once a container is open.
pub open spec fn opened(w: WriterState, bracket: Seq<char>) -> WriterState {
    let b = begun(w);
    WriterState { out: b.out + chars(bracket), stack: b.stack.push(false), after_key: false }
}

/// The state once a container is closed.
pub open spec fn closed_by(w: WriterState, bracket: Seq<char>) -> WriterState {
    WriterState {
        out: w.out + chars(bracket),
        stack: if w.stack.len() == 0 {
            w.stack
        } else {
            w.stack.drop_last()
        },
        after_key: w.after_key,
    }
}

/// The state once a name is written.
pub open spec fn keyed(w: WriterState, k: Seq<char>) -> WriterState {
    let b = begun(w);
    WriterState {
        out: b.out + chars(json_string(k)) + chars(":"@),
        stack: b.stack,
        after_key: true,
    }
}

/// `w` is `base` with an object begun that has these members so far.
#[verifier::opaque]
pub open spec fn in_object(base: WriterState, w: WriterState, members: Seq<(Seq<char>, Json)>) -> bool {
    &&& w.out == begun(base).out + chars("{"@) + members_written(members)
    &&& w.stack == begun(base).stack.push(members.len() > 0)
    &&& !w.after_key
}

/// `w` is `base` with an array begun that has these items so far.
#[verifier::opaque]
pub open spec fn in_array(base: WriterState, w: WriterState, items: Seq<Json>) -> bool {
    &&& w.out == begun(base).out + chars("["@) + items_written(items)
    &&& w.stack == begun(base).stack.push(items.len() > 0)
    &&& !w.after_key
}

proof fn lemma_object_opens(base: WriterState)
    ensures
        in_object(base, opened(base, "{"@), seq![]),
{
    reveal(in_object);
    let w = opened(base, "{"@);
    assert(members_written(seq![]) == Seq::<Glyph>::empty());
    assert(w.out == begun(base).out + chars("{"@) + members_written(seq![]));
}

proof fn lemma_array_opens(base: WriterState)
    ensures
        in_array(base, opened(base, "["@), seq![]),
{
    reveal(in_array);
    let w = opened(base, "["@);
    assert(items_written(seq![]) == Seq::<Glyph>::empty());
    assert(w.out == begun(base).out + chars("["@) + items_written(seq![]));
}

proof fn lemma_member(
    base: WriterState,
    w: WriterState,
    members: Seq<(Seq<char>, Json)>,
    k: Seq<char>,
    j: Json,
)
    requires
        in_object(base, w, members),
    ensures
        in_object(base, emitted(keyed(w, k), written(j)), members.push((k, j))),
{
    reveal(in_object);
    let after = emitted(keyed(w, k), written(j));
    let more = members.push((k, j));
    let member = chars(json_string(k)) + chars(":"@) + written(j);
    assert(more.drop_last() == members);
    assert(more[more.len() - 1] == (k, j));
    let head = begun(base).out + chars("{"@);
    if members.len() == 0 {
        assert(members_written(more) == member);
        assert(members_written(members) == Seq::<Glyph>::empty());
        assert(after.out == head + member);
    } else {
        assert(members_written(more) == members_written(members) + chars(","@) + member);
        assert(after.out == head + members_written(more));
    }
    assert(after.stack == begun(base).stack.push(true));
}

proof fn lemma_item(base: WriterState, w: WriterState, items: Seq<Json>, j: Json)
    requires
        in_array(base, w, items),
    ensures
        in_array(base, emitted(w, written(j)), items.push(j)),
{
    reveal(in_array);
    let after = emitted(w, written(j));
    let more = items.push(j);
    assert(more.drop_last() == items);
    assert(more[more.len() - 1] == j);
    let head = begun(base).out + chars("["@);
    if items.len() == 0 {
        assert(items_written(more) == written(j));
        assert(items_written(items) == Seq::<Glyph>::empty());
        assert(after.out == head + written(j));
    } else {
        assert(items_written(more) == items_written(items) + chars(","@) + written(j));
        assert(after.out == head + items_written(more));
    }
    assert(after.stack == begun(base).stack.push(true));
}

proof fn lemma_object_closes(base: WriterState, w: WriterState, members: Seq<(Seq<char>, Json)>)
    requires
        in_object(base, w, members),
    ensures
        closed_by(w, "}"@) == emitted(base, written(Json::Object(members))),
{
    reveal(in_object);
    assert(w.stack.drop_last() == begun(base).stack);
    assert(closed_by(w, "}"@).out == begun(base).out + (chars("{"@) + members_written(members)
        + chars("}"@)));
}

proof fn lemma_array_closes(base: WriterState, w: WriterState, items: Seq<Json>)
    requires
        in_array(base, w, items),
    ensures
        closed_by(w, "]"@) == emitted(base, written(Json::Array(items))),
{
    reveal(in_array);
    assert(w.stack.drop_last() == begun(base).stack);
    assert(closed_by(w, "]"@).out == begun(base).out + (chars("["@) + items_written(items) + chars(
        "]"@,
    )));
}

/// `members` with one more where there is a value for it.
pub open spec fn added(members: Seq<(Seq<char>, Json)>, k: Seq<char>, j: Option<Json>) -> Seq<
    (Seq<char>, Json),
> {
    match j {
        Some(j) => members.push((k, j)),
        None => members,
    }
}

/// Writes JSON, and keeps track of the nesting so that nobody else has to
/// think of commas.
#[derive(Debug)]
pub struct JsonWriter {
    out: Document,
    /// For each open container: has a member been written yet?
    needs_comma: Vec<bool>,
    /// A name has been written, and its value is next.
    after_key: bool,
}

impl View for JsonWriter {
    type V = WriterState;

    closed spec fn view(&self) -> WriterState {
        WriterState { out: self.out@, stack: self.needs_comma@, after_key: self.after_key }
    }
}

impl JsonWriter {
    pub fn new() -> (r: JsonWriter)
        ensures
            r@ == (WriterState { out: seq![], stack: seq![], after_key: false }),
    {
        JsonWriter { out: Document::new(), needs_comma: Vec::new(), after_key: false }
    }

    /// What has been written.
    pub fn into_document(self) -> (r: Document)
        ensures
            r@ == self@.out,
    {
        self.out
    }

    fn maybe_comma(&mut self)
        ensures
            final(self)@ == begun(old(self)@),
    {
        if self.after_key {
            self.after_key = false;
            return;
        }
        let n: usize = self.needs_comma.len();
        if n > 0 {
            if self.needs_comma[n - 1] {
                self.out.text(",");
            }
            self.needs_comma.set(n - 1, true);
        }
    }

    pub fn begin_object(&mut self)
        ensures
            final(self)@ == opened(old(self)@, "{"@),
            in_object(old(self)@, final(self)@, seq![]),
    {
        proof {
            lemma_object_opens(self@);
        }
        self.maybe_comma();
        self.out.text("{");
        self.needs_comma.push(false);
    }

    pub fn end_object(&mut self)
        ensures
            final(self)@ == closed_by(old(self)@, "}"@),
            forall|base: WriterState, members: Seq<(Seq<char>, Json)>| #[trigger]
                in_object(base, old(self)@, members) ==> final(self)@ == emitted(
                    base,
                    written(Json::Object(members)),
                ),
    {
        let ghost w = self@;
        self.needs_comma.pop();
        self.out.text("}");
        proof {
            assert forall|base: WriterState, members: Seq<(Seq<char>, Json)>| #[trigger]
                in_object(base, w, members) implies closed_by(w, "}"@) == emitted(
                base,
                written(Json::Object(members)),
            ) by {
                lemma_object_closes(base, w, members);
            }
        }
    }

    pub fn begin_array(&mut self)
        ensures
            final(self)@ == opened(old(self)@, "["@),
            in_array(old(self)@, final(self)@, seq![]),
    {
        proof {
            lemma_array_opens(self@);
        }
        self.maybe_comma();
        self.out.text("[");
        self.needs_comma.push(false);
    }

    pub fn end_array(&mut self)
        ensures
            final(self)@ == closed_by(old(self)@, "]"@),
            forall|base: WriterState, items: Seq<Json>| #[trigger]
                in_array(base, old(self)@, items) ==> final(self)@ == emitted(
                    base,
                    written(Json::Array(items)),
                ),
    {
        let ghost w = self@;
        self.needs_comma.pop();
        self.out.text("]");
        proof {
            assert forall|base: WriterState, items: Seq<Json>| #[trigger]
                in_array(base, w, items) implies closed_by(w, "]"@) == emitted(
                base,
                written(Json::Array(items)),
            ) by {
                lemma_array_closes(base, w, items);
            }
        }
    }

    pub fn key(&mut self, k: &str)
        ensures
            final(self)@ == keyed(old(self)@, k@),
    {
        self.maybe_comma();
        let text = escape_json_string(k);
        self.out.text(text.as_str());
        self.out.text(":");
        self.after_key = true;
    }

    pub fn str_value(&mut self, v: &str)
        ensures
            final(self)@ == emitted(old(self)@, written(Json::Text(v@))),
    {
        self.maybe_comma();
        let text = escape_json_string(v);
        self.out.text(text.as_str());
    }

    pub fn u64_value(&mut self, v: u64)
        ensures
            final(self)@ == emitted(old(self)@, written(Json::Number(v))),
    {
        self.maybe_comma();
        let text = decimal_string(v);
        self.out.text(text.as_str());
    }

    /// A number that is not a whole one.
    pub fn quantity_value(&mut self, v: Quantity)
        ensures
            final(self)@ == emitted(old(self)@, written(Json::Measured(v@))),
    {
        self.maybe_comma();
        self.out.add(Piece::Number(v));
    }

    pub fn null_value(&mut self)
        ensures
            final(self)@ == emitted(old(self)@, written(Json::Null)),
    {
        self.maybe_comma();
        self.out.text("null");
    }

    pub fn bool_value(&mut self, v: bool)
        ensures
            final(self)@ == emitted(old(self)@, written(Json::Bool(v))),
    {
        self.maybe_comma();
        if v {
            self.out.text("true");
        } else {
            self.out.text("false");
        }
    }
}

/// A value that was written behind a name is one more member of the object.
pub proof fn lemma_field(w: WriterState, k: Seq<char>, j: Json)
    ensures
        forall|base: WriterState, members: Seq<(Seq<char>, Json)>| #[trigger]
            in_object(base, w, members) ==> in_object(
                base,
                emitted(keyed(w, k), written(j)),
                members.push((k, j)),
            ),
{
    assert forall|base: WriterState, members: Seq<(Seq<char>, Json)>| #[trigger]
        in_object(base, w, members) implies in_object(
        base,
        emitted(keyed(w, k), written(j)),
        members.push((k, j)),
    ) by {
        lemma_member(base, w, members, k, j);
    }
}

/// A value that was written is one more item of the array.
pub proof fn lemma_element(w: WriterState, j: Json)
    ensures
        forall|base: WriterState, items: Seq<Json>| #[trigger]
            in_array(base, w, items) ==> in_array(base, emitted(w, written(j)), items.push(j)),
{
    assert forall|base: WriterState, items: Seq<Json>| #[trigger]
        in_array(base, w, items) implies in_array(
        base,
        emitted(w, written(j)),
        items.push(j),
    ) by {
        lemma_item(base, w, items, j);
    }
}

impl JsonWriter {
    /// One member with a string.
    pub(crate) fn str_field(&mut self, k: &str, v: &str)
        ensures
            forall|base: WriterState, members: Seq<(Seq<char>, Json)>| #[trigger]
                in_object(base, old(self)@, members) ==> in_object(
                    base,
                    final(self)@,
                    members.push((k@, Json::Text(v@))),
                ),
    {
        proof {
            lemma_field(self@, k@, Json::Text(v@));
        }
        self.key(k);
        self.str_value(v);
    }

    /// One member with a whole number.
    pub(crate) fn u64_field(&mut self, k: &str, v: u64)
        ensures
            forall|base: WriterState, members: Seq<(Seq<char>, Json)>| #[trigger]
                in_object(base, old(self)@, members) ==> in_object(
                    base,
                    final(self)@,
                    members.push((k@, Json::Number(v))),
                ),
    {
        proof {
            lemma_field(self@, k@, Json::Number(v));
        }
        self.key(k);
        self.u64_value(v);
    }

    /// One member with a quantity.
    pub(crate) fn quantity_field(&mut self, k: &str, v: Quantity)
        ensures
            forall|base: WriterState, members: Seq<(Seq<char>, Json)>| #[trigger]
                in_object(base, old(self)@, members) ==> in_object(
                    base,
                    final(self)@,
                    members.push((k@, Json::Measured(v@))),
                ),
    {
        proof {
            lemma_field(self@, k@, Json::Measured(v@));
        }
        self.key(k);
        self.quantity_value(v);
    }

    pub(crate) fn opt_str_field(&mut self, k: &str, v: &Option<String>)
        ensures
            forall|base: WriterState, members: Seq<(Seq<char>, Json)>| #[trigger]
                in_object(base, old(self)@, members) ==> in_object(
                    base,
                    final(self)@,
                    added(members, k@, text_json(*v)),
                ),
    {
        if let Some(v) = v {
            self.str_field(k, v.as_str());
        }
    }

    pub(crate) fn opt_u64_field(&mut self, k: &str, v: Option<u64>)
        ensures
            forall|base: WriterState, members: Seq<(Seq<char>, Json)>| #[trigger]
                in_object(base, old(self)@, members) ==> in_object(
                    base,
                    final(self)@,
                    added(members, k@, number_json(v)),
                ),
    {
        if let Some(v) = v {
            self.u64_field(k, v);
        }
    }

    pub(crate) fn opt_quantity_field(&mut self, k: &str, v: Option<Quantity>)
        ensures
            forall|base: WriterState, members: Seq<(Seq<char>, Json)>| #[trigger]
                in_object(base, old(self)@, members) ==> in_object(
                    base,
                    final(self)@,
                    added(members, k@, measured_json(v)),
                ),
    {
        if let Some(v) = v {
            self.quantity_field(k, v);
        }
    }
}

pub open spec fn text_json(v: Option<String>) -> Option<Json> {
    match v {
        Some(s) => Some(Json::Text(s@)),
        None => None,
    }
}

pub open spec fn number_json(v: Option<u64>) -> Option<Json> {
    match v {
        Some(n) => Some(Json::Number(n)),
        None => None,
    }
}

pub open spec fn measured_json(v: Option<Quantity>) -> Option<Json> {
    match v {
        Some(q) => Some(Json::Measured(q@)),
        None => None,
    }
}

// ---------------------------------------------------------------------------
// The whole snapshot
// ---------------------------------------------------------------------------
/// The members of a snapshot's object, up to the disks.
pub open spec fn first_members(s: SnapshotView, taken_at: Seq<char>, rates: Option<RatesView>) -> Seq<
    (Seq<char>, Json),
> {
    let a = Seq::<(Seq<char>, Json)>::empty().push(("schema"@, Json::Number(SCHEMA_VERSION))).push(
        ("taken_at"@, Json::Text(taken_at)),
    );
    let b = added(
        a,
        "interval_secs"@,
        match rates {
            Some(r) => Some(
                Json::Measured(QuantityView::Seconds { nanos: r.interval_nanos }),
            ),
            None => None,
        },
    );
    let c = added(
        b,
        "cpu"@,
        match s.cpu {
            Some(cpu) => Some(cpu_json(cpu, rates)),
            None => None,
        },
    );
    let d = added(
        c,
        "memory"@,
        match s.memory {
            Some(m) => Some(memory_json(m)),
            None => None,
        },
    );
    added(
        d,
        "thermal"@,
        match s.thermal {
            Some(t) => Some(Json::Array(chips_json(t.chips))),
            None => None,
        },
    )
}

/// The members of a snapshot's object. A section that the snapshot does not
/// have is left out, and errors are shown when asked for.
pub open spec fn snapshot_members(
    s: SnapshotView,
    taken_at: Seq<char>,
    rates: Option<RatesView>,
    verbose: bool,
) -> Seq<(Seq<char>, Json)> {
    let e = first_members(s, taken_at, rates);
    let f = match s.disks {
        Some(d) => e.push(("disk"@, Json::Array(disks_json(d.devices, rates)))).push(
            ("mounts"@, Json::Array(mounts_json(d.mounts))),
        ),
        None => e,
    };
    let g = added(
        f,
        "net"@,
        match s.net {
            Some(n) => Some(Json::Array(interfaces_json(n.interfaces, rates))),
            None => None,
        },
    );
    let h = added(
        g,
        "gpu"@,
        match s.gpus {
            Some(g) => Some(Json::Array(gpus_json(g.gpus))),
            None => None,
        },
    );
    let i = added(
        h,
        "connections"@,
        match s.connections {
            Some(c) => Some(Json::Array(connections_json(c.connections))),
            None => None,
        },
    );
    if verbose {
        i.push(("errors"@, Json::Array(errors_json(s.errors))))
    } else {
        i
    }
}

/// What is written of a snapshot: one object, and a line feed. A snapshot from
/// before 1970 cannot be stamped.
pub open spec fn snapshot_text(s: SnapshotView, rates: Option<RatesView>, verbose: bool) -> Result<
    Seq<Glyph>,
    ErrorView,
> {
    match rfc3339_of(s.taken_at) {
        Err(e) => Err(e),
        Ok(taken_at) => Ok(
            written(Json::Object(snapshot_members(s, taken_at, rates, verbose))) + chars("\n"@),
        ),
    }
}

pub open spec fn document_view(r: Result<Document, Error>) -> Result<Seq<Glyph>, ErrorView> {
    match r {
        Ok(d) => Ok(d@),
        Err(e) => Err(e@),
    }
}

fn write_first(w: &mut JsonWriter, s: &Snapshot, taken_at: &str, rates: Option<&Rates>)
    ensures
        forall|base: WriterState| #[trigger]
            in_object(base, old(w)@, seq![]) ==> in_object(
                base,
                final(w)@,
                first_members(s@, taken_at@, rates_view(rates)),
            ),
{
    w.u64_field("schema", SCHEMA_VERSION);
    w.str_field("taken_at", taken_at);
    if let Some(r) = rates {
        w.quantity_field("interval_secs", Quantity::Seconds { nanos: r.interval_nanos });
    }
    if let Some(cpu) = &s.cpu {
        proof {
            lemma_field(w@, "cpu"@, cpu_json(cpu@, rates_view(rates)));
        }
        w.key("cpu");
        write_cpu(w, cpu, rates);
    }
    if let Some(m) = &s.memory {
        proof {
            lemma_field(w@, "memory"@, memory_json(*m));
        }
        w.key("memory");
        write_memory(w, m);
    }
    if let Some(t) = &s.thermal {
        proof {
            lemma_field(w@, "thermal"@, Json::Array(chips_json(t@.chips)));
        }
        w.key("thermal");
        write_thermal(w, t);
    }
}

/// Writes a snapshot as one JSON object and a line feed.
pub fn write(snapshot: &Snapshot, rates: Option<&Rates>, verbose: bool) -> (r: Result<
    Document,
    Error,
>)
    ensures
        document_view(r) == snapshot_text(snapshot@, rates_view(rates), verbose),
{
    let taken_at = match format_rfc3339(snapshot.taken_at) {
        Err(e) => return Err(e),
        Ok(text) => text,
    };
    let mut w = JsonWriter::new();
    let ghost base = w@;
    w.begin_object();
    write_first(&mut w, snapshot, taken_at.as_str(), rates);
    if let Some(d) = &snapshot.disks {
        proof {
            lemma_field(w@, "disk"@, Json::Array(disks_json(d@.devices, rates_view(rates))));
        }
        w.key("disk");
        write_disks(&mut w, d, rates);
        proof {
            lemma_field(w@, "mounts"@, Json::Array(mounts_json(d@.mounts)));
        }
        w.key("mounts");
        write_mounts(&mut w, d);
    }
    if let Some(n) = &snapshot.net {
        proof {
            lemma_field(
                w@,
                "net"@,
                Json::Array(interfaces_json(n@.interfaces, rates_view(rates))),
            );
        }
        w.key("net");
        write_net(&mut w, n, rates);
    }
    if let Some(g) = &snapshot.gpus {
        proof {
            lemma_field(w@, "gpu"@, Json::Array(gpus_json(g@.gpus)));
        }
        w.key("gpu");
        write_gpus(&mut w, g);
    }
    if let Some(c) = &snapshot.connections {
        proof {
            lemma_field(w@, "connections"@, Json::Array(connections_json(c@.connections)));
        }
        w.key("connections");
        write_connections(&mut w, c);
    }
    if verbose {
        proof {
            lemma_field(w@, "errors"@, Json::Array(errors_json(views(snapshot.errors@))));
        }
        w.key("errors");
        write_errors(&mut w, &snapshot.errors);
    }
    assert(in_object(
        base,
        w@,
        snapshot_members(snapshot@, taken_at@, rates_view(rates), verbose),
    ));
    w.end_object();
    let mut out = w.into_document();
    let ghost g = written(
        Json::Object(snapshot_members(snapshot@, taken_at@, rates_view(rates), verbose)),
    );
    assert(Seq::<Glyph>::empty() + g == g);
    assert(out@ == g);
    out.text("\n");
    Ok(out)
}

/// A value is written by its kind, and two that differ in it read differently.
pub proof fn single_values_are_written_by_their_kind(n: u64, q: QuantityView, s: Seq<char>)
    ensures
        written(Json::Null) == chars("null"@),
        written(Json::Bool(true)) == chars("true"@),
        written(Json::Bool(false)) == chars("false"@),
        written(Json::Number(n)) == chars(decimal(n as nat)),
        written(Json::Measured(q)) == seq![Glyph::Number(q)],
        written(Json::Text(s)) == chars(json_string(s)),
        written(Json::Array(seq![])) == chars("[]"@),
        written(Json::Object(seq![])) == chars("{}"@),
{
    reveal_strlit("[");
    reveal_strlit("]");
    reveal_strlit("{");
    reveal_strlit("}");
    reveal_strlit("[]");
    reveal_strlit("{}");
    assert(chars("["@) + items_written(seq![]) + chars("]"@) =~= chars("[]"@));
    assert(chars("{"@) + members_written(seq![]) + chars("}"@) =~= chars("{}"@));
}

/// An item more stands before the closing bracket, behind a comma where it is not the
/// only one.
pub proof fn items_are_written_in_their_order(items: Seq<Json>, x: Json)
    ensures
        written(Json::Array(items.push(x))) == written(Json::Array(items)).drop_last() + (if items.len()
            == 0 {
            seq![]
        } else {
            seq![letter(',')]
        }) + written(x) + seq![letter(']')],
{
    reveal_strlit("[");
    reveal_strlit("]");
    reveal_strlit(",");
    let more = items.push(x);
    assert(more.drop_last() =~= items);
    assert(more[more.len() - 1] == x);
    assert(chars(","@) =~= seq![letter(',')]);
    assert(chars("]"@) =~= seq![letter(']')]);
    let before = chars("["@) + items_written(items);
    assert(written(Json::Array(items)) == before + chars("]"@));
    assert((before + chars("]"@)).drop_last() =~= before);
    if items.len() == 0 {
        assert(items_written(items) =~= seq![]);
        assert(items_written(more) == written(x));
    } else {
        assert(items_written(more) == items_written(items) + chars(","@) + written(x));
    }
}

/// A member more stands before the closing bracket, behind a comma where it is not the
/// only one: its name, a colon, and its value.
pub proof fn members_are_written_in_their_order(
    members: Seq<(Seq<char>, Json)>,
    name: Seq<char>,
    x: Json,
)
    ensures
        written(Json::Object(members.push((name, x)))) == written(Json::Object(members)).drop_last()
            + (if members.len() == 0 {
            seq![]
        } else {
            seq![letter(',')]
        }) + chars(json_string(name)) + seq![letter(':')] + written(x) + seq![letter('}')],
{
    reveal_strlit("{");
    reveal_strlit("}");
    reveal_strlit(",");
    reveal_strlit(":");
    let more = members.push((name, x));
    assert(more.drop_last() =~= members);
    assert(more[more.len() - 1] == (name, x));
    assert(chars(","@) =~= seq![letter(',')]);
    assert(chars(":"@) =~= seq![letter(':')]);
    assert(chars("}"@) =~= seq![letter('}')]);
    let before = chars("{"@) + members_written(members);
    assert(written(Json::Object(members)) == before + chars("}"@));
    assert((before + chars("}"@)).drop_last() =~= before);
    let member = chars(json_string(name)) + chars(":"@) + written(x);
    if members.len() == 0 {
        assert(members_written(members) =~= seq![]);
        assert(members_written(more) == member);
    } else {
        assert(members_written(more) == members_written(members) + chars(","@) + member);
    }
    assert(written(Json::Object(more)) == chars("{"@) + members_written(more) + chars("}"@));
}

/// Nothing in the character has to be escaped.
pub open spec fn plain_letter(c: char) -> bool {
    c != '"' && c != '\\' && 0x20 <= c as u32 && !(0x7f <= c as u32 <= 0x9f)
}

/// A text of plain letters stands between quotes as it is.
pub proof fn plain_texts_stand_as_they_are(s: Seq<char>)
    requires
        s.len() <= MAX_STRING_LEN,
        forall|i: int| 0 <= i < s.len() ==> plain_letter(#[trigger] s[i]),
    ensures
        json_string(s) == seq!['"'] + s + seq!['"'],
{
    assert(first_of(s, MAX_STRING_LEN as nat) =~= s);
    lemma_plain_body(s);
}

proof fn lemma_plain_body(s: Seq<char>)
    requires
        forall|i: int| 0 <= i < s.len() ==> plain_letter(#[trigger] s[i]),
    ensures
        escaped_body(s) == s,
    decreases s.len(),
{
    if s.len() > 0 {
        let front = s.drop_last();
        assert forall|i: int| 0 <= i < front.len() implies plain_letter(#[trigger] front[i]) by {
            assert(front[i] == s[i]);
        }
        lemma_plain_body(front);
        assert(plain_letter(s[s.len() - 1]));
        assert(front + seq![s.last()] =~= s);
    } else {
        assert(escaped_body(s) =~= s);
    }
}

} // verus!
