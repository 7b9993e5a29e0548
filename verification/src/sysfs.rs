//! Confined, bounded reading of the kernel's file trees.
//!
//! A [`SysfsReader`] answers every question about a path from the facts that
//! were recorded of it: what it resolves to, what the file holds, what the
//! directory lists, where the link points. Which paths may be asked for, what
//! an answer means and how much of it is taken is decided here.

use vstd::prelude::*;
use vstd::utf8::{decode_utf8, valid_utf8};

use crate::error::{classified, Absence, Error, ErrorView, IoErrorKind, IoFailure, IoFailureView};
use crate::number::{
    all_digits, decimal, decimal_round_trip, digit_of, lemma_decimal_digits, parse_i64, parse_of,
    parse_signed_of, parse_u64, signed_decimal, signed_round_trip,
};
use crate::order::{in_order, insert_sorted, sorted, sorting_orders_and_keeps};
use crate::text::{
    begins, chars_of, ends, ends_with, first_of, is_space, is_text, lines, lines_are_cut_at_line_feeds,
    lines_of, push_str, same, slices, split, split_of, starts_with, string_of, strings, strip_prefix,
    text_option_view, trim, trim_of, trimming_takes_off_the_blanks, without_prefix,
};

verus! {

/// Cap on the bytes taken from one file: 1 MiB.
pub const DEFAULT_MAX_READ_BYTES: usize = 1_048_576;

/// Cap on the lines parsed from one file.
pub const DEFAULT_MAX_LINES: usize = 65_536;

/// Cap on the entries enumerated from one directory.
pub const DEFAULT_MAX_ENTRIES: usize = 4_096;

// ---------------------------------------------------------------------------
// Names that come from the kernel
// ---------------------------------------------------------------------------
/// A character that may stand in a path component.
pub open spec fn safe_char(c: char) -> bool {
    ||| 'a' <= c <= 'z'
    ||| 'A' <= c <= 'Z'
    ||| '0' <= c <= '9'
    ||| c == '_'
    ||| c == '.'
    ||| c == ':'
    ||| c == '-'
}

/// A directory entry's name that is safe to use in a path: not empty, not
/// hidden, at most 255 long, and of letters, digits and `_ . : -` alone.
pub open spec fn safe_component(name: Seq<char>) -> bool {
    &&& 0 < name.len() <= 255
    &&& name[0] != '.'
    &&& forall|i: int| 0 <= i < name.len() ==> safe_char(#[trigger] name[i])
}

fn is_safe_chars(cs: &[char]) -> (r: bool)
    ensures
        r == safe_component(cs@),
{
    if cs.len() == 0 || cs.len() > 255 || cs[0] == '.' {
        return false;
    }
    let mut i: usize = 0;
    while i < cs.len()
        invariant
            i <= cs.len(),
            forall|k: int| 0 <= k < i ==> safe_char(#[trigger] cs@[k]),
        decreases cs.len() - i,
    {
        let c: char = cs[i];
        if !(('a' <= c && c <= 'z') || ('A' <= c && c <= 'Z') || ('0' <= c && c <= '9') || c == '_'
            || c == '.' || c == ':' || c == '-') {
            assert(!safe_char(cs@[i as int]));
            return false;
        }
        i = i + 1;
    }
    true
}

/// Is this directory entry's name safe to use as a path component?
pub fn is_safe_component(name: &str) -> (r: bool)
    ensures
        r == safe_component(name@),
{
    let cs = chars_of(name);
    is_safe_chars(cs.as_slice())
}

/// A character that must never reach a terminal: C0 controls, DEL, and the C1
/// block, whose 0x9b introduces a control sequence all by itself.
pub open spec fn control_char(c: char) -> bool {
    (c as u32) < 0x20 || c as u32 == 0x7f || 0x80 <= c as u32 <= 0x9f
}

pub fn is_control_char(c: char) -> (r: bool)
    ensures
        r == control_char(c),
{
    let code: u32 = c as u32;
    code < 0x20 || code == 0x7f || (0x80 <= code && code <= 0x9f)
}

/// What follows a control sequence whose introducer has been taken:
/// parameters are 0x20 to 0x3f, and the first character that is none of
/// them ends the sequence and goes with it.
pub open spec fn after_csi(s: Seq<char>) -> Seq<char>
    decreases s.len(),
{
    if s.len() == 0 {
        s
    } else if 0x20 <= s[0] as u32 <= 0x3f {
        after_csi(s.drop_first())
    } else {
        s.drop_first()
    }
}

/// What follows an operating system command whose introducer has been taken:
/// it ends with BEL, with 0x9c, or with ESC and a backslash behind it. One that
/// is left open takes everything.
pub open spec fn after_osc(s: Seq<char>) -> Seq<char>
    decreases s.len(),
{
    if s.len() == 0 {
        s
    } else if s[0] == '\u{7}' || s[0] == '\u{9c}' {
        s.drop_first()
    } else if s[0] == '\u{1b}' && s.len() > 1 && s[1] == '\\' {
        s.skip(2)
    } else {
        after_osc(s.drop_first())
    }
}

/// What follows the escape sequence, or the control character, that begins `s`.
pub open spec fn after_control(s: Seq<char>) -> Seq<char>
    recommends
        s.len() > 0,
        control_char(s[0]),
{
    let rest = s.drop_first();
    if s[0] == '\u{9b}' {
        after_csi(rest)
    } else if s[0] == '\u{9d}' {
        after_osc(rest)
    } else if s[0] == '\u{1b}' && rest.len() > 0 {
        if rest[0] == '[' {
            after_csi(rest.drop_first())
        } else if rest[0] == ']' {
            after_osc(rest.drop_first())
        } else {
            rest.drop_first()
        }
    } else {
        rest
    }
}

proof fn lemma_after_csi(s: Seq<char>)
    ensures
        after_csi(s).len() <= s.len(),
    decreases s.len(),
{
    if s.len() > 0 && 0x20 <= s[0] as u32 <= 0x3f {
        lemma_after_csi(s.drop_first());
    }
}

proof fn lemma_after_osc(s: Seq<char>)
    ensures
        after_osc(s).len() <= s.len(),
    decreases s.len(),
{
    if s.len() > 0 {
        lemma_after_osc(s.drop_first());
    }
}

pub proof fn lemma_after_control(s: Seq<char>)
    requires
        s.len() > 0,
    ensures
        after_control(s).len() < s.len(),
{
    let rest = s.drop_first();
    lemma_after_csi(rest);
    lemma_after_osc(rest);
    if rest.len() > 0 {
        lemma_after_csi(rest.drop_first());
        lemma_after_osc(rest.drop_first());
    }
}

/// `s` without control characters and escape sequences, and at most `max`
/// characters of it.
pub open spec fn sanitized(s: Seq<char>, max: nat) -> Seq<char>
    decreases s.len(),
{
    if max == 0 || s.len() == 0 {
        seq![]
    } else if control_char(s[0]) {
        proof {
            lemma_after_control(s);
        }
        sanitized(after_control(s), max)
    } else {
        seq![s[0]] + sanitized(s.drop_first(), (max - 1) as nat)
    }
}

fn consume_csi<'a>(s: &'a [char]) -> (r: &'a [char])
    ensures
        r@ == after_csi(s@),
{
    let mut rest: &'a [char] = s;
    while rest.len() > 0
        invariant_except_break
            after_csi(rest@) == after_csi(s@),
        ensures
            rest@ == after_csi(s@),
        decreases rest.len(),
    {
        let code: u32 = rest[0] as u32;
        let next: &'a [char] = &rest[1..rest.len()];
        assert(next@ == rest@.drop_first());
        rest = next;
        if !(0x20 <= code && code <= 0x3f) {
            break;
        }
    }
    rest
}

fn consume_osc<'a>(s: &'a [char]) -> (r: &'a [char])
    ensures
        r@ == after_osc(s@),
{
    let mut rest: &'a [char] = s;
    while rest.len() > 0
        invariant_except_break
            after_osc(rest@) == after_osc(s@),
        ensures
            rest@ == after_osc(s@),
        decreases rest.len(),
    {
        let c: char = rest[0];
        let next: &'a [char] = &rest[1..rest.len()];
        assert(next@ == rest@.drop_first());
        if c == '\u{1b}' && next.len() > 0 && next[0] == '\\' {
            let after: &'a [char] = &rest[2..rest.len()];
            assert(after@ == rest@.skip(2));
            rest = after;
            break;
        }
        rest = next;
        if c == '\u{7}' || c == '\u{9c}' {
            break;
        }
    }
    rest
}

/// `cs` without anything that could rewrite a terminal, cut to `max`
/// characters.
pub fn sanitize(cs: &[char], max: usize) -> (r: String)
    ensures
        r@ == sanitized(cs@, max as nat),
{
    let mut out: String = String::new();
    let mut rest: &[char] = cs;
    let mut left: usize = max;
    while left > 0 && rest.len() > 0
        invariant
            out@ + sanitized(rest@, left as nat) == sanitized(cs@, max as nat),
        decreases rest.len(),
    {
        let c: char = rest[0];
        let next: &[char] = &rest[1..rest.len()];
        assert(next@ == rest@.drop_first());
        proof {
            lemma_after_control(rest@);
        }
        if c == '\u{1b}' {
            if next.len() > 0 {
                let after: &[char] = &next[1..next.len()];
                assert(after@ == next@.drop_first());
                if next[0] == '[' {
                    rest = consume_csi(after);
                } else if next[0] == ']' {
                    rest = consume_osc(after);
                } else {
                    rest = after;
                }
            } else {
                rest = next;
            }
        } else if c == '\u{9b}' {
            rest = consume_csi(next);
        } else if c == '\u{9d}' {
            rest = consume_osc(next);
        } else if is_control_char(c) {
            rest = next;
        } else {
            let ghost before = out@;
            out.push(c);
            assert(before.push(c) + sanitized(next@, (left - 1) as nat) == before + sanitized(
                rest@,
                left as nat,
            ));
            left = left - 1;
            rest = next;
        }
    }
    out
}

/// A kernel-supplied string without anything that could rewrite the terminal
/// or break out of a JSON string: controls and escape sequences are removed,
/// and what is left is cut to `max_len` characters.
pub fn sanitize_kernel_string(s: &str, max_len: usize) -> (r: String)
    ensures
        r@ == sanitized(s@, max_len as nat),
{
    let cs = chars_of(s);
    sanitize(cs.as_slice(), max_len)
}

/// No control character survives sanitising, and the cap holds.
pub proof fn sanitized_text_is_inert(s: Seq<char>, max: nat)
    ensures
        sanitized(s, max).len() <= max,
        forall|i: int|
            0 <= i < sanitized(s, max).len() ==> !control_char(#[trigger] sanitized(s, max)[i]),
    decreases s.len(),
{
    if max > 0 && s.len() > 0 {
        if control_char(s[0]) {
            lemma_after_control(s);
            sanitized_text_is_inert(after_control(s), max);
        } else {
            let t = sanitized(s.drop_first(), (max - 1) as nat);
            sanitized_text_is_inert(s.drop_first(), (max - 1) as nat);
            assert forall|i: int| 0 <= i < sanitized(s, max).len() implies !control_char(
                #[trigger] sanitized(s, max)[i],
            ) by {
                if i > 0 {
                    assert(sanitized(s, max)[i] == t[i - 1]);
                }
            }
        }
    }
}

/// Text without control characters passes unchanged, but for the cap.
pub proof fn clean_text_is_kept(s: Seq<char>, max: nat)
    requires
        forall|i: int| 0 <= i < s.len() ==> !control_char(#[trigger] s[i]),
    ensures
        sanitized(s, max) == s.take(if s.len() < max {
            s.len() as int
        } else {
            max as int
        }),
    decreases s.len(),
{
    if max > 0 && s.len() > 0 {
        let t = s.drop_first();
        assert forall|i: int| 0 <= i < t.len() implies !control_char(#[trigger] t[i]) by {
            assert(t[i] == s[i + 1]);
        }
        clean_text_is_kept(t, (max - 1) as nat);
        assert(!control_char(s[0]));
    }
}

/// Sanitising twice is sanitising once.
pub proof fn sanitising_is_idempotent(s: Seq<char>, max: nat)
    ensures
        sanitized(sanitized(s, max), max) == sanitized(s, max),
{
    sanitized_text_is_inert(s, max);
    clean_text_is_kept(sanitized(s, max), max);
    let t = sanitized(s, max);
    assert(t.take(t.len() as int) == t);
    if t.len() >= max {
        assert(t.take(max as int) == t);
    }
}

// ---------------------------------------------------------------------------
// Text that the standard library makes
// ---------------------------------------------------------------------------
/// What `{:?}` prints of a string: quotes around it, and its quotes,
/// backslashes and unprintable characters escaped.
pub uninterp spec fn quoted(s: Seq<char>) -> Seq<char>;

/// The text that `String::from_utf8_lossy` makes of bytes that are no valid
/// UTF-8.
pub uninterp spec fn lossy(bytes: Seq<u8>) -> Seq<char>;

/// The text of bytes: what they encode, or a replacement for it.
pub open spec fn text_of_bytes(bytes: Seq<u8>) -> Seq<char> {
    if valid_utf8(bytes) {
        decode_utf8(bytes)
    } else {
        lossy(bytes)
    }
}

/// Formats a string by its `Debug` implementation. The result depends on the
/// string alone; which characters count as unprintable is left to the
/// standard library.
#[verifier::external_body]
pub(crate) fn quote(s: &str) -> (r: String)
    ensures
        r@ == quoted(s@),
{
    format!("{s:?}")
}

/// `String::from_utf8_lossy`: bytes that are valid UTF-8 are decoded as they
/// stand, and what is not valid is replaced. How many replacement characters
/// stand for a broken run is left to the standard library.
#[verifier::external_body]
pub(crate) fn decode_lossy(bytes: &[u8]) -> (r: String)
    ensures
        r@ == (if valid_utf8(bytes@) {
            decode_utf8(bytes@)
        } else {
            lossy(bytes@)
        }),
{
    String::from_utf8_lossy(bytes).into_owned()
}

// ---------------------------------------------------------------------------
// Paths
// ---------------------------------------------------------------------------
/// The pieces of a path between its slashes that name something: empty ones
/// say nothing, nor does `.` behind the first.
pub open spec fn named_pieces(pieces: Seq<Seq<char>>, first: bool) -> Seq<Seq<char>>
    decreases pieces.len(),
{
    if pieces.len() == 0 {
        seq![]
    } else {
        let rest = named_pieces(pieces.drop_first(), false);
        if pieces[0].len() == 0 || (!first && pieces[0] == "."@) {
            rest
        } else {
            seq![pieces[0]] + rest
        }
    }
}

/// The components of a path.
pub open spec fn components_of(path: Seq<char>) -> Seq<Seq<char>> {
    named_pieces(split_of(path, '/'), true)
}

pub open spec fn absolute(path: Seq<char>) -> bool {
    path.len() > 0 && path[0] == '/'
}

/// `path` is `root` or lies under it.
pub open spec fn within(root: Seq<char>, path: Seq<char>) -> bool {
    let r = components_of(root);
    let p = components_of(path);
    absolute(root) == absolute(path) && r.len() <= p.len() && p.take(r.len() as int) == r
}

/// `rel` under `base`.
pub open spec fn joined(base: Seq<char>, rel: Seq<char>) -> Seq<char> {
    if base.len() == 0 || base.last() == '/' {
        base + rel
    } else {
        base + seq!['/'] + rel
    }
}

/// Names with a slash between each two.
pub open spec fn slashed(names: Seq<Seq<char>>) -> Seq<char>
    decreases names.len(),
{
    if names.len() == 0 {
        seq![]
    } else if names.len() == 1 {
        names[0]
    } else {
        slashed(names.drop_last()) + seq!['/'] + names.last()
    }
}

/// The path that holds the last component of `path`.
pub open spec fn parent_of(path: Seq<char>) -> Seq<char> {
    let names = components_of(path);
    let above = if names.len() == 0 {
        names
    } else {
        names.drop_last()
    };
    if absolute(path) {
        seq!['/'] + slashed(above)
    } else {
        slashed(above)
    }
}

/// The last component of `path`, where it is a name.
pub open spec fn file_name_of(path: Seq<char>) -> Option<Seq<char>> {
    let names = components_of(path);
    if names.len() == 0 || names.last() == ".."@ || names.last() == "."@ {
        None
    } else {
        Some(names.last())
    }
}

fn components<'a>(path: &'a [char]) -> (r: Vec<&'a [char]>)
    ensures
        slices(r@) == components_of(path@),
{
    let pieces = split(path, '/');
    let ghost all = slices(pieces@);
    let mut out: Vec<&'a [char]> = Vec::new();
    let mut i: usize = 0;
    assert(all.skip(0) == all);
    while i < pieces.len()
        invariant
            i <= pieces.len(),
            all == slices(pieces@),
            slices(out@) + named_pieces(all.skip(i as int), i == 0) == named_pieces(all, true),
        decreases pieces.len() - i,
    {
        let piece: &'a [char] = pieces[i];
        let ghost before = slices(out@);
        assert(all.skip(i as int)[0] == piece@);
        assert(all.skip(i as int).drop_first() == all.skip(i + 1));
        if piece.len() == 0 || (i > 0 && is_text(piece, ".")) {
        } else {
            out.push(piece);
            assert(slices(out@) == before.push(piece@));
            assert(before.push(piece@) + named_pieces(all.skip(i + 1), false) == before
                + named_pieces(all.skip(i as int), i == 0));
        }
        i = i + 1;
    }
    assert(named_pieces(all.skip(i as int), i == 0) == Seq::<Seq<char>>::empty());
    assert(slices(out@) == named_pieces(all, true));
    out
}

fn is_absolute(path: &[char]) -> (r: bool)
    ensures
        r == absolute(path@),
{
    path.len() > 0 && path[0] == '/'
}

fn is_within(root: &[char], path: &[char]) -> (r: bool)
    ensures
        r == within(root@, path@),
{
    let above = components(root);
    let below = components(path);
    if is_absolute(root) != is_absolute(path) || above.len() > below.len() {
        return false;
    }
    let ghost a = slices(above@);
    let ghost b = slices(below@);
    let mut i: usize = 0;
    while i < above.len()
        invariant
            i <= above.len(),
            above.len() <= below.len(),
            a == slices(above@),
            b == slices(below@),
            a == components_of(root@),
            b == components_of(path@),
            forall|k: int| 0 <= k < i ==> #[trigger] a[k] == b[k],
        decreases above.len() - i,
    {
        if !same(above[i], below[i]) {
            assert(a[i as int] != b[i as int]);
            assert(b.take(a.len() as int)[i as int] == b[i as int]);
            return false;
        }
        assert(a[i as int] == b[i as int]);
        i = i + 1;
    }
    assert(b.take(a.len() as int) == a);
    true
}

/// `rel` under `base`.
pub fn join(base: &str, rel: &str) -> (r: String)
    ensures
        r@ == joined(base@, rel@),
{
    let cs = chars_of(base);
    let mut out: String = base.to_owned();
    if cs.len() > 0 && cs[cs.len() - 1] != '/' {
        out.push('/');
    }
    push_str(&mut out, rel);
    assert(out@ == joined(base@, rel@));
    out
}

fn join_slashed(names: &[&[char]], n: usize) -> (r: String)
    requires
        n <= names.len(),
    ensures
        r@ == slashed(slices(names@).take(n as int)),
{
    let ghost all = slices(names@);
    let mut out: String = String::new();
    let mut i: usize = 0;
    assert(all.take(0) == Seq::<Seq<char>>::empty());
    while i < n
        invariant
            i <= n <= names.len(),
            all == slices(names@),
            out@ == slashed(all.take(i as int)),
        decreases n - i,
    {
        let ghost before = out@;
        if i > 0 {
            out.push('/');
        }
        crate::text::push_chars(&mut out, names[i]);
        assert(all.take(i + 1).drop_last() == all.take(i as int));
        assert(all.take(i + 1).last() == names@[i as int]@);
        if i > 0 {
            assert(out@ == before + seq!['/'] + names@[i as int]@);
        } else {
            assert(out@ == names@[i as int]@);
        }
        i = i + 1;
    }
    out
}

/// Why a relative path with these components may not be read, if so: the
/// first component that is no plain name, or no safe one, decides.
pub open spec fn refusal(names: Seq<Seq<char>>) -> Option<Seq<char>>
    decreases names.len(),
{
    if names.len() == 0 {
        None
    } else if names[0] == "."@ || names[0] == ".."@ {
        Some("path may only contain plain names (no `/`, `.` or `..`)"@)
    } else if !safe_component(names[0]) {
        Some("unsafe path component "@ + quoted(sanitized(names[0], 64)))
    } else {
        refusal(names.drop_first())
    }
}

fn refuse(names: &[&[char]]) -> (r: Option<String>)
    ensures
        text_option_view(r) == refusal(slices(names@)),
{
    let ghost all = slices(names@);
    let mut i: usize = 0;
    assert(all.skip(0) == all);
    while i < names.len()
        invariant
            i <= names.len(),
            all == slices(names@),
            refusal(all.skip(i as int)) == refusal(all),
        decreases names.len() - i,
    {
        let name: &[char] = names[i];
        assert(all.skip(i as int)[0] == name@);
        assert(all.skip(i as int).drop_first() == all.skip(i + 1));
        if is_text(name, ".") || is_text(name, "..") {
            return Some("path may only contain plain names (no `/`, `.` or `..`)".to_owned());
        }
        if !is_safe_chars(name) {
            let mut reason: String = "unsafe path component ".to_owned();
            let shown = sanitize(name, 64);
            let shown = quote(shown.as_str());
            push_str(&mut reason, shown.as_str());
            return Some(reason);
        }
        i = i + 1;
    }
    None
}

// ---------------------------------------------------------------------------
// The reader
// ---------------------------------------------------------------------------
/// What the operating system answered about one path below the root: the path
/// that it resolves to, what the file there holds, what the directory there
/// lists (no name where an entry has none that can be shown), and where a
/// link there points.
#[derive(Debug)]
pub struct PathFacts {
    pub path: String,
    pub canonical: Result<String, IoFailure>,
    pub contents: Result<Vec<u8>, IoFailure>,
    pub entries: Result<Vec<Option<String>>, IoFailure>,
    pub target: Result<String, IoFailure>,
}

/// What the operating system answered about one mounted filesystem: the size
/// of its blocks, how many it has, and how many of them are available.
#[derive(Debug)]
pub struct MountFacts {
    pub mount_point: String,
    pub fragment_size: u64,
    pub blocks: u64,
    pub blocks_available: u64,
}

/// Which names a listing keeps.
#[derive(Debug, Clone, Copy)]
pub enum NameFilter<'a> {
    All,
    /// The prefix, and at least one digit and nothing but digits behind it.
    Numbered { prefix: &'a str },
    /// The prefix in front and the suffix at the end.
    Affixed { prefix: &'a str, suffix: &'a str },
}

/// `name` is `prefix` with a number behind it.
pub open spec fn numbered(name: Seq<char>, prefix: Seq<char>) -> bool {
    match without_prefix(name, prefix) {
        Some(rest) => rest.len() > 0 && all_digits(rest, 10),
        None => false,
    }
}

impl<'a> NameFilter<'a> {
    pub open spec fn keeps(self, name: Seq<char>) -> bool {
        match self {
            NameFilter::All => true,
            NameFilter::Numbered { prefix } => numbered(name, prefix@),
            NameFilter::Affixed { prefix, suffix } => begins(name, prefix@) && ends(name, suffix@),
        }
    }

    pub fn keep(&self, name: &str) -> (r: bool)
        ensures
            r == self.keeps(name@),
    {
        let cs = chars_of(name);
        match *self {
            NameFilter::All => true,
            NameFilter::Numbered { prefix } => is_numbered(cs.as_slice(), prefix),
            NameFilter::Affixed { prefix, suffix } => starts_with(cs.as_slice(), prefix)
                && ends_with(cs.as_slice(), suffix),
        }
    }
}

pub fn is_all_digits(cs: &[char]) -> (r: bool)
    ensures
        r == all_digits(cs@, 10),
{
    let mut i: usize = 0;
    while i < cs.len()
        invariant
            i <= cs.len(),
            forall|k: int| 0 <= k < i ==> digit_of(#[trigger] cs@[k], 10) is Some,
        decreases cs.len() - i,
    {
        if !('0' <= cs[i] && cs[i] <= '9') {
            assert(digit_of(cs@[i as int], 10) is None);
            return false;
        }
        i = i + 1;
    }
    true
}

pub fn is_numbered(name: &[char], prefix: &str) -> (r: bool)
    ensures
        r == numbered(name@, prefix@),
{
    match strip_prefix(name, prefix) {
        Some(rest) => rest.len() > 0 && is_all_digits(rest),
        None => false,
    }
}

/// A value, an expected absence, or an error.
pub type Outcome<T> = Result<Result<T, Absence>, ErrorView>;

pub type Reading<T> = Result<Result<T, Absence>, Error>;

pub open spec fn reading_view<T>(r: Reading<T>) -> Outcome<T> {
    match r {
        Ok(v) => Ok(v),
        Err(e) => Err(e@),
    }
}

pub open spec fn text_reading_view(r: Reading<String>) -> Outcome<Seq<char>> {
    match r {
        Ok(Ok(t)) => Ok(Ok(t@)),
        Ok(Err(absence)) => Ok(Err(absence)),
        Err(e) => Err(e@),
    }
}

pub open spec fn names_reading_view(r: Reading<Vec<String>>) -> Outcome<Seq<Seq<char>>> {
    match r {
        Ok(Ok(names)) => Ok(Ok(strings(names@))),
        Ok(Err(absence)) => Ok(Err(absence)),
        Err(e) => Err(e@),
    }
}

/// What was recorded of `path`, if anything was.
pub open spec fn recorded_of(facts: Seq<PathFacts>, path: Seq<char>) -> Option<PathFacts>
    decreases facts.len(),
{
    if facts.len() == 0 {
        None
    } else if facts[0].path@ == path {
        Some(facts[0])
    } else {
        recorded_of(facts.drop_first(), path)
    }
}

/// The blocks that were recorded of the filesystem at `mount_point`, if any.
pub open spec fn blocks_of(mounts: Seq<MountFacts>, mount_point: Seq<char>) -> Option<
    (u64, u64, u64),
>
    decreases mounts.len(),
{
    if mounts.len() == 0 {
        None
    } else if mounts[0].mount_point@ == mount_point {
        Some((mounts[0].fragment_size, mounts[0].blocks, mounts[0].blocks_available))
    } else {
        blocks_of(mounts.drop_first(), mount_point)
    }
}

pub open spec fn refused<T>(r: Result<T, IoFailure>) -> bool {
    r matches Err(source) && source.kind == IoErrorKind::PermissionDenied
}

/// The system does not let the caller read what is there.
pub open spec fn denied(facts: PathFacts) -> bool {
    refused(facts.contents) || refused(facts.entries)
}

fn is_refused<T>(r: &Result<T, IoFailure>) -> (refusal: bool)
    ensures
        refusal == refused(*r),
{
    match r {
        Err(source) => match source.kind {
            IoErrorKind::PermissionDenied => true,
            _ => false,
        },
        Ok(_) => false,
    }
}

fn is_denied(facts: &PathFacts) -> (r: bool)
    ensures
        r == denied(*facts),
{
    is_refused(&facts.contents) || is_refused(&facts.entries)
}

/// A system failure on `path`, as the outcome of a read.
pub open spec fn failed<T>(path: Seq<char>, source: IoFailureView) -> Outcome<T> {
    match classified(path, source) {
        Ok(absence) => Ok(Err(absence)),
        Err(e) => Err(e),
    }
}

/// The names among `entries` that are safe and kept by `filter`, in the order
/// of `entries`.
pub open spec fn listed(entries: Seq<Option<String>>, filter: NameFilter<'_>) -> Seq<Seq<char>>
    decreases entries.len(),
{
    if entries.len() == 0 {
        seq![]
    } else {
        let before = listed(entries.drop_last(), filter);
        match entries.last() {
            Some(name) => if safe_component(name@) && filter.keeps(name@) {
                before.push(name@)
            } else {
                before
            },
            None => before,
        }
    }
}

/// The error for a path that may not be read wherever it leads: one that is
/// absolute, or that holds anything but safe plain names.
pub open spec fn path_error(rel: Seq<char>) -> Option<ErrorView> {
    if absolute(rel) {
        Some(
            ErrorView::PathRejected {
                path: rel,
                reason: "absolute path; every read is relative to the root"@,
            },
        )
    } else {
        match refusal(components_of(rel)) {
            Some(reason) => Some(ErrorView::PathRejected { path: rel, reason }),
            None => None,
        }
    }
}

fn check_path(rel: &str) -> (r: Option<Error>)
    ensures
        match r {
            Some(e) => path_error(rel@) == Some(e@),
            None => path_error(rel@) is None,
        },
{
    let cs = chars_of(rel);
    if is_absolute(cs.as_slice()) {
        return Some(Error::rejected(rel, "absolute path; every read is relative to the root"));
    }
    let names = components(cs.as_slice());
    match refuse(names.as_slice()) {
        Some(reason) => Some(Error::PathRejected { path: rel.to_owned(), reason }),
        None => None,
    }
}

pub open spec fn canonical_view(r: Result<String, IoFailure>) -> Result<Seq<char>, IoFailureView> {
    match r {
        Ok(path) => Ok(path@),
        Err(source) => Err(source@),
    }
}

/// The first line of a file's text, trimmed; nothing reported where that is
/// empty.
pub open spec fn first_line_of(text: Seq<char>) -> Result<Seq<char>, Absence> {
    let all = lines_of(text);
    let line = if all.len() == 0 {
        Seq::<char>::empty()
    } else {
        trim_of(all[0])
    };
    if line.len() == 0 {
        Err(Absence::NotReported)
    } else {
        Ok(line)
    }
}

/// The error for a value that has not the expected shape.
pub open spec fn shape_error(path: Seq<char>, expected: Seq<char>, got: Seq<char>) -> ErrorView {
    ErrorView::Parse {
        path,
        line: Some(1),
        reason: "expected "@ + expected + ", got "@ + quoted(sanitized(got, 64)),
    }
}

/// A read-only reader confined to a root.
///
/// In production the root is `/`, so that `proc/stat` and `sys/class/hwmon`
/// are the relative paths used everywhere.
#[derive(Debug)]
pub struct SysfsReader {
    root: String,
    max_read_bytes: usize,
    max_lines: usize,
    max_entries: usize,
    facts: Vec<PathFacts>,
    mounts: Vec<MountFacts>,
}

impl SysfsReader {
    pub closed spec fn root_path(&self) -> Seq<char> {
        self.root@
    }

    pub closed spec fn read_cap(&self) -> nat {
        self.max_read_bytes as nat
    }

    pub closed spec fn line_cap(&self) -> nat {
        self.max_lines as nat
    }

    pub closed spec fn entry_cap(&self) -> nat {
        self.max_entries as nat
    }

    pub closed spec fn facts(&self) -> Seq<PathFacts> {
        self.facts@
    }

    pub closed spec fn mounts(&self) -> Seq<MountFacts> {
        self.mounts@
    }

    pub open spec fn blocks_at(&self, mount_point: Seq<char>) -> Option<(u64, u64, u64)> {
        blocks_of(self.mounts(), mount_point)
    }

    /// The two readers have the same root and the same limits.
    pub open spec fn same_limits(&self, other: &SysfsReader) -> bool {
        &&& self.root_path() == other.root_path()
        &&& self.read_cap() == other.read_cap()
        &&& self.line_cap() == other.line_cap()
        &&& self.entry_cap() == other.entry_cap()
    }

    /// What may be opened for `rel`, given what the system resolves it to. A
    /// path is refused where it is absolute, holds anything but safe plain
    /// names, or resolves outside the root.
    pub open spec fn allowed(
        &self,
        rel: Seq<char>,
        canonical: Result<Seq<char>, IoFailureView>,
    ) -> Outcome<Seq<char>> {
        match path_error(rel) {
            Some(e) => Err(e),
            None => match canonical {
                Err(source) => failed(joined(self.root_path(), rel), source),
                Ok(path) => if within(self.root_path(), path) {
                    Ok(Ok(path))
                } else {
                    Err(
                        ErrorView::PathRejected {
                            path: rel,
                            reason: "resolves outside the configured root"@,
                        },
                    )
                },
            },
        }
    }

    /// What `rel` resolves to. A path that was not recorded is not present.
    pub open spec fn resolved(&self, rel: Seq<char>) -> Outcome<Seq<char>> {
        match recorded_of(self.facts(), rel) {
            None => match path_error(rel) {
                Some(e) => Err(e),
                None => Ok(Err(Absence::NotPresent)),
            },
            Some(facts) => self.allowed(rel, canonical_view(facts.canonical)),
        }
    }

    /// The text of the file at `rel`: as many of its bytes as the cap admits.
    pub open spec fn text_at(&self, rel: Seq<char>) -> Outcome<Seq<char>> {
        match self.resolved(rel) {
            Err(e) => Err(e),
            Ok(Err(absence)) => Ok(Err(absence)),
            Ok(Ok(path)) => match recorded_of(self.facts(), rel)->0.contents {
                Ok(bytes) => Ok(Ok(text_of_bytes(first_of(bytes@, self.read_cap())))),
                Err(source) => failed(path, source@),
            },
        }
    }

    pub open spec fn first_line_at(&self, rel: Seq<char>) -> Outcome<Seq<char>> {
        match self.text_at(rel) {
            Err(e) => Err(e),
            Ok(Err(absence)) => Ok(Err(absence)),
            Ok(Ok(text)) => Ok(first_line_of(text)),
        }
    }

    pub open spec fn u64_at(&self, rel: Seq<char>) -> Outcome<u64> {
        match self.first_line_at(rel) {
            Err(e) => Err(e),
            Ok(Err(absence)) => Ok(Err(absence)),
            Ok(Ok(line)) => match parse_of(line, 10, u64::MAX as nat) {
                Some(n) => Ok(Ok(n as u64)),
                None => Err(shape_error(rel, "unsigned integer"@, line)),
            },
        }
    }

    pub open spec fn i64_at(&self, rel: Seq<char>) -> Outcome<i64> {
        match self.first_line_at(rel) {
            Err(e) => Err(e),
            Ok(Err(absence)) => Ok(Err(absence)),
            Ok(Ok(line)) => match parse_signed_of(line) {
                Some(n) => Ok(Ok(n as i64)),
                None => Err(shape_error(rel, "signed integer"@, line)),
            },
        }
    }

    /// The safe names in the directory at `rel` that `filter` keeps, in order,
    /// out of as many entries as the cap admits.
    pub open spec fn names_at(&self, rel: Seq<char>, filter: NameFilter<'_>) -> Outcome<
        Seq<Seq<char>>,
    > {
        match self.resolved(rel) {
            Err(e) => Err(e),
            Ok(Err(absence)) => Ok(Err(absence)),
            Ok(Ok(path)) => match recorded_of(self.facts(), rel)->0.entries {
                Ok(entries) => Ok(
                    Ok(sorted(listed(first_of(entries@, self.entry_cap()), filter))),
                ),
                Err(source) => failed(path, source@),
            },
        }
    }

    /// Where the link at `rel` points. Only the directory that holds the link
    /// is resolved, never the link itself.
    pub open spec fn target_at(&self, rel: Seq<char>) -> Outcome<Seq<char>> {
        match file_name_of(rel) {
            Some(name) if safe_component(name) => match self.resolved(parent_of(rel)) {
                Err(e) => Err(e),
                Ok(Err(absence)) => Ok(Err(absence)),
                Ok(Ok(path)) => match recorded_of(self.facts(), rel) {
                    None => Ok(Err(Absence::NotPresent)),
                    Some(facts) => match facts.target {
                        Ok(target) => Ok(Ok(target@)),
                        Err(source) => failed(joined(path, name), source@),
                    },
                },
            },
            _ => Err(
                ErrorView::PathRejected {
                    path: rel,
                    reason: "missing file name or unsafe final component"@,
                },
            ),
        }
    }

    /// There is something at `rel` that may be read.
    pub open spec fn present(&self, rel: Seq<char>) -> bool {
        self.resolved(rel) matches Ok(Ok(_)) && !denied(recorded_of(self.facts(), rel)->0)
    }

    /// Rooted at `/`, with the default limits, and nothing recorded yet.
    pub fn new() -> (r: SysfsReader)
        ensures
            r.root_path() == "/"@,
            r.read_cap() == DEFAULT_MAX_READ_BYTES,
            r.line_cap() == DEFAULT_MAX_LINES,
            r.entry_cap() == DEFAULT_MAX_ENTRIES,
            r.facts() == Seq::<PathFacts>::empty(),
            r.mounts() == Seq::<MountFacts>::empty(),
    {
        SysfsReader {
            root: "/".to_owned(),
            max_read_bytes: DEFAULT_MAX_READ_BYTES,
            max_lines: DEFAULT_MAX_LINES,
            max_entries: DEFAULT_MAX_ENTRIES,
            facts: Vec::new(),
            mounts: Vec::new(),
        }
    }

    /// Rooted at a directory of the caller's. `canonical` is what the
    /// operating system resolves `root` to, and `is_dir` whether that is a
    /// directory: later checks compare against a real path.
    pub fn with_root(root: &str, canonical: Result<String, IoFailure>, is_dir: bool) -> (r: Result<
        SysfsReader,
        Error,
    >)
        ensures
            match canonical {
                Err(source) => r is Err && r->Err_0@ == (ErrorView::Io {
                    path: root@,
                    source: source@,
                }),
                Ok(path) => if is_dir {
                    &&& r is Ok
                    &&& r->Ok_0.root_path() == path@
                    &&& r->Ok_0.read_cap() == DEFAULT_MAX_READ_BYTES
                    &&& r->Ok_0.line_cap() == DEFAULT_MAX_LINES
                    &&& r->Ok_0.entry_cap() == DEFAULT_MAX_ENTRIES
                    &&& r->Ok_0.facts() == Seq::<PathFacts>::empty()
                    &&& r->Ok_0.mounts() == Seq::<MountFacts>::empty()
                } else {
                    r is Err && r->Err_0@ == (ErrorView::PathRejected {
                        path: root@,
                        reason: "sysfs root is not a directory"@,
                    })
                },
            },
    {
        match canonical {
            Err(source) => Err(Error::Io { path: root.to_owned(), source }),
            Ok(path) => {
                if !is_dir {
                    return Err(Error::rejected(root, "sysfs root is not a directory"));
                }
                Ok(
                    SysfsReader {
                        root: path,
                        max_read_bytes: DEFAULT_MAX_READ_BYTES,
                        max_lines: DEFAULT_MAX_LINES,
                        max_entries: DEFAULT_MAX_ENTRIES,
                        facts: Vec::new(),
                        mounts: Vec::new(),
                    },
                )
            },
        }
    }

    pub fn with_max_read_bytes(self, max: usize) -> (r: SysfsReader)
        ensures
            r.read_cap() == max,
            r.root_path() == self.root_path(),
            r.line_cap() == self.line_cap(),
            r.entry_cap() == self.entry_cap(),
            r.facts() == self.facts(),
            r.mounts() == self.mounts(),
    {
        SysfsReader { max_read_bytes: max, ..self }
    }

    pub fn with_max_entries(self, max: usize) -> (r: SysfsReader)
        ensures
            r.entry_cap() == max,
            r.root_path() == self.root_path(),
            r.read_cap() == self.read_cap(),
            r.line_cap() == self.line_cap(),
            r.facts() == self.facts(),
            r.mounts() == self.mounts(),
    {
        SysfsReader { max_entries: max, ..self }
    }

    /// Records what is known of one more path.
    pub fn record(&mut self, facts: PathFacts)
        ensures
            final(self).same_limits(old(self)),
            final(self).facts() == old(self).facts().push(facts),
            final(self).mounts() == old(self).mounts(),
    {
        self.facts.push(facts);
    }

    /// Records what is known of one more filesystem.
    pub fn record_mount(&mut self, facts: MountFacts)
        ensures
            final(self).same_limits(old(self)),
            final(self).facts() == old(self).facts(),
            final(self).mounts() == old(self).mounts().push(facts),
    {
        self.mounts.push(facts);
    }

    /// The block size, the blocks and the available blocks of the filesystem
    /// at `mount_point`, where they were recorded.
    pub fn blocks(&self, mount_point: &str) -> (r: Option<(u64, u64, u64)>)
        ensures
            r == self.blocks_at(mount_point@),
    {
        let wanted: String = mount_point.to_owned();
        let mut i: usize = 0;
        assert(self.mounts@.skip(0) == self.mounts@);
        while i < self.mounts.len()
            invariant
                i <= self.mounts@.len(),
                wanted@ == mount_point@,
                blocks_of(self.mounts@.skip(i as int), mount_point@) == blocks_of(
                    self.mounts@,
                    mount_point@,
                ),
            decreases self.mounts@.len() - i,
        {
            let m = &self.mounts[i];
            assert(self.mounts@.skip(i as int)[0] == *m);
            assert(self.mounts@.skip(i as int).drop_first() == self.mounts@.skip(i + 1));
            if m.mount_point == wanted {
                return Some((m.fragment_size, m.blocks, m.blocks_available));
            }
            i = i + 1;
        }
        None
    }

    pub fn root(&self) -> (r: &String)
        ensures
            r@ == self.root_path(),
    {
        &self.root
    }

    /// Cap on the bytes taken from any single file.
    pub fn max_read_bytes(&self) -> (r: usize)
        ensures
            r == self.read_cap(),
    {
        self.max_read_bytes
    }

    /// Cap on the lines that a parser takes from one file.
    pub fn max_lines(&self) -> (r: usize)
        ensures
            r == self.line_cap(),
    {
        self.max_lines
    }

    /// Cap on the entries enumerated from one directory.
    pub fn max_entries(&self) -> (r: usize)
        ensures
            r == self.entry_cap(),
    {
        self.max_entries
    }

    fn lookup(&self, rel: &str) -> (r: Option<&PathFacts>)
        ensures
            match r {
                Some(f) => recorded_of(self.facts(), rel@) == Some(*f),
                None => recorded_of(self.facts(), rel@) is None,
            },
    {
        let wanted: String = rel.to_owned();
        let mut i: usize = 0;
        assert(self.facts@.skip(0) == self.facts@);
        while i < self.facts.len()
            invariant
                i <= self.facts@.len(),
                wanted@ == rel@,
                recorded_of(self.facts@.skip(i as int), rel@) == recorded_of(self.facts@, rel@),
            decreases self.facts@.len() - i,
        {
            assert(self.facts@.skip(i as int)[0] == self.facts@[i as int]);
            assert(self.facts@.skip(i as int).drop_first() == self.facts@.skip(i + 1));
            if self.facts[i].path == wanted {
                return Some(&self.facts[i]);
            }
            i = i + 1;
        }
        None
    }

    /// Decides what may be opened for `rel`, given what the system resolves it
    /// to under the root. "Not there" is no failure; an error means that the
    /// path was refused, and nothing is to be opened.
    pub fn allow(&self, rel: &str, canonical: &Result<String, IoFailure>) -> (r: Reading<String>)
        ensures
            text_reading_view(r) == self.allowed(rel@, canonical_view(*canonical)),
    {
        if let Some(e) = check_path(rel) {
            return Err(e);
        }
        match canonical {
            Err(source) => {
                let path = join(self.root.as_str(), rel);
                fail(path.as_str(), source)
            },
            Ok(path) => {
                let root = chars_of(self.root.as_str());
                let full = chars_of(path.as_str());
                if !is_within(root.as_slice(), full.as_slice()) {
                    return Err(Error::rejected(rel, "resolves outside the configured root"));
                }
                Ok(Ok(path.clone()))
            },
        }
    }

    /// Resolves `rel` against the root and proves that the result is still
    /// inside it.
    pub fn resolve(&self, rel: &str) -> (r: Reading<String>)
        ensures
            text_reading_view(r) == self.resolved(rel@),
    {
        match self.lookup(rel) {
            None => match check_path(rel) {
                Some(e) => Err(e),
                None => Ok(Err(Absence::NotPresent)),
            },
            Some(facts) => self.allow(rel, &facts.canonical),
        }
    }

    /// Reads a whole file, capped, as UTF-8. Lossy is correct here: a device
    /// names itself in any bytes it likes, and a monitor should show a
    /// replacement character rather than refuse to display the device.
    pub fn read_to_string(&self, rel: &str) -> (r: Reading<String>)
        ensures
            text_reading_view(r) == self.text_at(rel@),
    {
        let path = match self.resolve(rel) {
            Err(e) => return Err(e),
            Ok(Err(absence)) => return Ok(Err(absence)),
            Ok(Ok(path)) => path,
        };
        match self.lookup(rel) {
            None => Ok(Err(Absence::NotPresent)),
            Some(facts) => match &facts.contents {
                Ok(bytes) => {
                    let n: usize = if bytes.len() <= self.max_read_bytes {
                        bytes.len()
                    } else {
                        self.max_read_bytes
                    };
                    let taken: &[u8] = &bytes.as_slice()[0..n];
                    assert(taken@ == first_of(bytes@, self.read_cap()));
                    Ok(Ok(decode_lossy(taken)))
                },
                Err(source) => fail(path.as_str(), source),
            },
        }
    }

    /// The first line, trimmed: the shape of nearly every file under `/sys`.
    /// Where it is empty, nothing was reported.
    pub fn read_first_line(&self, rel: &str) -> (r: Reading<String>)
        ensures
            text_reading_view(r) == self.first_line_at(rel@),
    {
        let contents = match self.read_to_string(rel) {
            Err(e) => return Err(e),
            Ok(Err(absence)) => return Ok(Err(absence)),
            Ok(Ok(contents)) => contents,
        };
        let cs = chars_of(contents.as_str());
        let all = lines(cs.as_slice());
        if all.len() == 0 {
            return Ok(Err(Absence::NotReported));
        }
        let line = trim(all[0]);
        assert(slices(all@)[0] == all@[0]@);
        if line.len() == 0 {
            return Ok(Err(Absence::NotReported));
        }
        Ok(Ok(string_of(line)))
    }

    /// The first line as an unsigned number.
    pub fn read_u64(&self, rel: &str) -> (r: Reading<u64>)
        ensures
            reading_view(r) == self.u64_at(rel@),
    {
        let line = match self.read_first_line(rel) {
            Err(e) => return Err(e),
            Ok(Err(absence)) => return Ok(Err(absence)),
            Ok(Ok(line)) => line,
        };
        let cs = chars_of(line.as_str());
        match parse_u64(cs.as_slice()) {
            Some(value) => Ok(Ok(value)),
            None => Err(parse_error(rel, "unsigned integer", line.as_str())),
        }
    }

    /// The first line as a signed number: temperatures can be negative.
    pub fn read_i64(&self, rel: &str) -> (r: Reading<i64>)
        ensures
            reading_view(r) == self.i64_at(rel@),
    {
        let line = match self.read_first_line(rel) {
            Err(e) => return Err(e),
            Ok(Err(absence)) => return Ok(Err(absence)),
            Ok(Ok(line)) => line,
        };
        let cs = chars_of(line.as_str());
        match parse_i64(cs.as_slice()) {
            Some(value) => Ok(Ok(value)),
            None => Err(parse_error(rel, "signed integer", line.as_str())),
        }
    }

    /// The names in a directory, filtered, capped and sorted. Names and no
    /// paths: whoever wants to read one has to come back through the reader.
    pub fn list_dir(&self, rel: &str, keep: NameFilter<'_>) -> (r: Reading<Vec<String>>)
        ensures
            names_reading_view(r) == self.names_at(rel@, keep),
    {
        let path = match self.resolve(rel) {
            Err(e) => return Err(e),
            Ok(Err(absence)) => return Ok(Err(absence)),
            Ok(Ok(path)) => path,
        };
        match self.lookup(rel) {
            None => Ok(Err(Absence::NotPresent)),
            Some(facts) => match &facts.entries {
                Ok(entries) => {
                    let n: usize = if entries.len() <= self.max_entries {
                        entries.len()
                    } else {
                        self.max_entries
                    };
                    assert(entries@.take(n as int) == first_of(entries@, self.entry_cap()));
                    Ok(Ok(sorted_names(entries, n, keep)))
                },
                Err(source) => fail(path.as_str(), source),
            },
        }
    }

    /// Where a link points, without following it. The directory that holds
    /// the link is resolved like any other path; the link is not, for what it
    /// points to (`socket:[12345]`) need not be a path at all.
    pub fn read_link(&self, rel: &str) -> (r: Reading<String>)
        ensures
            text_reading_view(r) == self.target_at(rel@),
    {
        let cs = chars_of(rel);
        let names = components(cs.as_slice());
        let ghost all = slices(names@);
        if names.len() == 0 {
            return Err(Error::rejected(rel, "missing file name or unsafe final component"));
        }
        let last: usize = names.len() - 1;
        assert(all.last() == names@[last as int]@);
        if is_text(names[last], ".") || is_text(names[last], "..") || !is_safe_chars(names[last]) {
            return Err(Error::rejected(rel, "missing file name or unsafe final component"));
        }
        let above = join_slashed(names.as_slice(), last);
        assert(all.take(last as int) == all.drop_last());
        let parent = if is_absolute(cs.as_slice()) {
            let mut out: String = "/".to_owned();
            push_str(&mut out, above.as_str());
            proof {
                reveal_strlit("/");
                assert("/"@ == seq!['/']);
            }
            out
        } else {
            above
        };
        assert(parent@ == parent_of(rel@));
        let path = match self.resolve(parent.as_str()) {
            Err(e) => return Err(e),
            Ok(Err(absence)) => return Ok(Err(absence)),
            Ok(Ok(path)) => path,
        };
        match self.lookup(rel) {
            None => Ok(Err(Absence::NotPresent)),
            Some(facts) => match &facts.target {
                Ok(target) => Ok(Ok(target.clone())),
                Err(source) => {
                    let name = string_of(names[last]);
                    let full = join(path.as_str(), name.as_str());
                    fail(full.as_str(), source)
                },
            },
        }
    }

    /// The path exists and may be read. A refused path counts as absent:
    /// either way there is nothing to try.
    pub fn is_present(&self, rel: &str) -> (r: bool)
        ensures
            r == self.present(rel@),
    {
        match self.resolve(rel) {
            Ok(Ok(_)) => match self.lookup(rel) {
                Some(facts) => !is_denied(facts),
                None => false,
            },
            _ => false,
        }
    }
}

impl Default for SysfsReader {
    fn default() -> (r: SysfsReader)
        ensures
            r.root_path() == "/"@,
            r.read_cap() == DEFAULT_MAX_READ_BYTES,
            r.line_cap() == DEFAULT_MAX_LINES,
            r.entry_cap() == DEFAULT_MAX_ENTRIES,
            r.facts() == Seq::<PathFacts>::empty(),
            r.mounts() == Seq::<MountFacts>::empty(),
    {
        SysfsReader::new()
    }
}

fn fail<T>(path: &str, source: &IoFailure) -> (r: Reading<T>)
    ensures
        reading_view(r) == failed::<T>(path@, source@),
{
    match Error::classify_io(path, source.duplicate()) {
        Ok(absence) => Ok(Err(absence)),
        Err(e) => Err(e),
    }
}

fn sorted_names(entries: &Vec<Option<String>>, n: usize, keep: NameFilter<'_>) -> (r: Vec<String>)
    requires
        n <= entries.len(),
    ensures
        strings(r@) == sorted(listed(entries@.take(n as int), keep)),
{
    let mut names: Vec<String> = Vec::new();
    let mut i: usize = 0;
    assert(strings(names@) == Seq::<Seq<char>>::empty());
    while i < n
        invariant
            i <= n <= entries.len(),
            strings(names@) == sorted(listed(entries@.take(i as int), keep)),
        decreases n - i,
    {
        let ghost upto = entries@.take(i + 1);
        assert(upto.drop_last() == entries@.take(i as int));
        assert(upto.last() == entries@[i as int]);
        if let Some(name) = &entries[i] {
            if is_safe_component(name.as_str()) && keep.keep(name.as_str()) {
                let ghost before = listed(entries@.take(i as int), keep);
                insert_sorted(&mut names, name.clone());
                assert(before.push(name@).drop_last() == before);
                assert(listed(upto, keep) == before.push(name@));
            }
        }
        i = i + 1;
    }
    names
}

/// A piece of a file as an error message shows it.
pub(crate) fn show(cs: &[char], max: usize) -> (r: String)
    ensures
        r@ == quoted(sanitized(cs@, max as nat)),
{
    let shown = sanitize(cs, max);
    quote(shown.as_str())
}

/// The error for a value that has not the expected shape. The offending text
/// is sanitised: an error ends up on a terminal.
fn parse_error(rel: &str, expected: &str, got: &str) -> (r: Error)
    ensures
        r@ == shape_error(rel@, expected@, got@),
{
    let mut reason: String = "expected ".to_owned();
    push_str(&mut reason, expected);
    push_str(&mut reason, ", got ");
    let shown = sanitize_kernel_string(got, 64);
    let shown = quote(shown.as_str());
    push_str(&mut reason, shown.as_str());
    Error::parse(rel, Some(1), reason)
}

// ---------------------------------------------------------------------------
// What every read keeps
// ---------------------------------------------------------------------------
proof fn lemma_refusal(names: Seq<Seq<char>>)
    requires
        refusal(names) is None,
    ensures
        forall|i: int| 0 <= i < names.len() ==> safe_component(#[trigger] names[i]),
    decreases names.len(),
{
    if names.len() > 0 {
        let rest = names.drop_first();
        lemma_refusal(rest);
        assert forall|i: int| 0 <= i < names.len() implies safe_component(#[trigger] names[i]) by {
            if i > 0 {
                assert(names[i] == rest[i - 1]);
            }
        }
    }
}

/// Whatever may be opened is what the system resolved, and lies inside the
/// root, under a relative path made of safe names.
pub proof fn nothing_is_allowed_outside_the_root(
    reader: &SysfsReader,
    rel: Seq<char>,
    canonical: Result<Seq<char>, IoFailureView>,
)
    requires
        reader.allowed(rel, canonical) matches Ok(Ok(_)),
    ensures
        !absolute(rel),
        forall|i: int|
            0 <= i < components_of(rel).len() ==> safe_component(#[trigger] components_of(rel)[i]),
        reader.allowed(rel, canonical) matches Ok(Ok(path)) && canonical == Ok::<
            Seq<char>,
            IoFailureView,
        >(path) && within(reader.root_path(), path),
{
    lemma_refusal(components_of(rel));
}

/// Whatever is read, listed or reported present is relative, made of safe
/// names, and resolves to a place inside the root.
pub proof fn reads_stay_inside_the_root(reader: &SysfsReader, rel: Seq<char>, keep: NameFilter<'_>)
    requires
        (reader.text_at(rel) matches Ok(Ok(_))) || (reader.names_at(rel, keep) matches Ok(Ok(_)))
            || reader.present(rel),
    ensures
        !absolute(rel),
        forall|i: int|
            0 <= i < components_of(rel).len() ==> safe_component(#[trigger] components_of(rel)[i]),
        reader.resolved(rel) matches Ok(Ok(path)) && within(reader.root_path(), path),
{
    lemma_refusal(components_of(rel));
}

/// A link that is read lies in a directory inside the root, under a safe name.
pub proof fn links_are_read_inside_the_root(reader: &SysfsReader, rel: Seq<char>)
    requires
        reader.target_at(rel) matches Ok(Ok(_)),
    ensures
        file_name_of(rel) matches Some(name) && safe_component(name),
        reader.resolved(parent_of(rel)) matches Ok(Ok(path)) && within(reader.root_path(), path),
{
}

proof fn lemma_listed(entries: Seq<Option<String>>, filter: NameFilter<'_>)
    ensures
        listed(entries, filter).len() <= entries.len(),
        forall|i: int|
            0 <= i < listed(entries, filter).len() ==> safe_component(
                #[trigger] listed(entries, filter)[i],
            ) && filter.keeps(listed(entries, filter)[i]),
    decreases entries.len(),
{
    if entries.len() > 0 {
        lemma_listed(entries.drop_last(), filter);
        let before = listed(entries.drop_last(), filter);
        assert forall|i: int| 0 <= i < listed(entries, filter).len() implies safe_component(
            #[trigger] listed(entries, filter)[i],
        ) && filter.keeps(listed(entries, filter)[i]) by {
            if i < before.len() {
                assert(listed(entries, filter)[i] == before[i]);
            }
        }
    }
}

/// A listing is in order, no longer than the cap, and holds safe names that
/// the filter keeps and nothing else.
pub proof fn listings_are_safe_and_sorted(reader: &SysfsReader, rel: Seq<char>, keep: NameFilter<'_>)
    requires
        reader.names_at(rel, keep) matches Ok(Ok(_)),
    ensures
        reader.names_at(rel, keep) matches Ok(Ok(names)) && {
            &&& in_order(names)
            &&& names.len() <= reader.entry_cap()
            &&& forall|i: int|
                0 <= i < names.len() ==> safe_component(#[trigger] names[i]) && keep.keeps(names[i])
        },
{
    broadcast use vstd::seq_lib::group_to_multiset_ensures;

    let names = reader.names_at(rel, keep)->Ok_0->Ok_0;
    let entries = recorded_of(reader.facts(), rel)->0.entries->Ok_0@;
    let kept = listed(first_of(entries, reader.entry_cap()), keep);
    lemma_listed(first_of(entries, reader.entry_cap()), keep);
    sorting_orders_and_keeps(kept);
    assert(names == sorted(kept));
    assert(names.len() == names.to_multiset().len());
    assert(kept.len() == kept.to_multiset().len());
    assert forall|i: int| 0 <= i < names.len() implies safe_component(#[trigger] names[i])
        && keep.keeps(names[i]) by {
        assert(names.contains(names[i]));
        assert(names.to_multiset().count(names[i]) > 0);
        assert(kept.to_multiset().count(names[i]) > 0);
        assert(kept.contains(names[i]));
        let j = choose|j: int| 0 <= j < kept.len() && kept[j] == names[i];
        assert(safe_component(kept[j]));
    }
}

proof fn lemma_listed_all(entries: Seq<Option<String>>, filter: NameFilter<'_>, k: int)
    requires
        0 <= k < entries.len(),
        entries[k] matches Some(name) && safe_component(name@) && filter.keeps(name@),
    ensures
        listed(entries, filter).contains(entries[k]->0@),
    decreases entries.len(),
{
    let front = entries.drop_last();
    let before = listed(front, filter);
    let all = listed(entries, filter);
    let name = entries[k]->0@;
    if k == entries.len() - 1 {
        assert(all[all.len() - 1] == name);
    } else {
        assert(front[k] == entries[k]);
        lemma_listed_all(front, filter, k);
        let j = choose|j: int| 0 <= j < before.len() && before[j] == name;
        assert(all[j] == name);
    }
}

/// A listing misses no name that is safe and that the filter keeps, of as many
/// entries as the cap admits.
pub proof fn listings_are_complete(
    reader: &SysfsReader,
    rel: Seq<char>,
    keep: NameFilter<'_>,
    entries: Vec<Option<String>>,
    k: int,
)
    requires
        reader.names_at(rel, keep) matches Ok(Ok(_)),
        recorded_of(reader.facts(), rel)->0.entries == Ok::<Vec<Option<String>>, IoFailure>(entries),
        0 <= k < entries@.len(),
        k < reader.entry_cap(),
        entries@[k] matches Some(name) && safe_component(name@) && keep.keeps(name@),
    ensures
        reader.names_at(rel, keep) matches Ok(Ok(names)) && names.contains(entries@[k]->0@),
{
    broadcast use vstd::seq_lib::group_to_multiset_ensures;

    let used = first_of(entries@, reader.entry_cap());
    let kept = listed(used, keep);
    let names = reader.names_at(rel, keep)->Ok_0->Ok_0;
    assert(used[k] == entries@[k]);
    lemma_listed_all(used, keep, k);
    sorting_orders_and_keeps(kept);
    let name = entries@[k]->0@;
    assert(kept.to_multiset().count(name) > 0);
    assert(names.to_multiset().count(name) > 0);
}

/// What was recorded of a path is found, and the first record of it counts.
pub proof fn the_first_record_counts(facts: Seq<PathFacts>, path: Seq<char>, i: int)
    ensures
        0 <= i < facts.len() && facts[i].path@ == path && (forall|k: int|
            0 <= k < i ==> (#[trigger] facts[k]).path@ != path) ==> recorded_of(facts, path) == Some(
            facts[i],
        ),
        (forall|k: int| 0 <= k < facts.len() ==> (#[trigger] facts[k]).path@ != path) ==> recorded_of(
            facts,
            path,
        ) is None,
    decreases facts.len(),
{
    if facts.len() > 0 {
        let rest = facts.drop_first();
        assert(forall|k: int| 0 <= k < rest.len() ==> #[trigger] rest[k] == facts[k + 1]);
        the_first_record_counts(rest, path, i - 1);
        if 0 < i < facts.len() && (forall|k: int|
            0 <= k < i ==> (#[trigger] facts[k]).path@ != path) {
            assert(facts[0].path@ != path);
            assert forall|k: int| 0 <= k < i - 1 implies (#[trigger] rest[k]).path@ != path by {
                assert(rest[k] == facts[k + 1]);
            }
        }
        if forall|k: int| 0 <= k < facts.len() ==> (#[trigger] facts[k]).path@ != path {
            assert(facts[0].path@ != path);
            assert forall|k: int| 0 <= k < rest.len() implies (#[trigger] rest[k]).path@ != path by {
                assert(rest[k] == facts[k + 1]);
            }
        }
    }
}

proof fn lemma_plain_names(names: Seq<Seq<char>>)
    requires
        forall|i: int|
            0 <= i < names.len() ==> safe_component(#[trigger] names[i]) && names[i] != "."@ && names[i]
                != ".."@,
    ensures
        refusal(names) is None,
    decreases names.len(),
{
    if names.len() > 0 {
        let rest = names.drop_first();
        assert(safe_component(names[0]) && names[0] != "."@ && names[0] != ".."@);
        assert forall|i: int| 0 <= i < rest.len() implies safe_component(#[trigger] rest[i]) && rest[i]
            != "."@ && rest[i] != ".."@ by {
            assert(rest[i] == names[i + 1]);
        }
        lemma_plain_names(rest);
    }
}

/// A file below the root, at a relative path of safe plain names, is read as it is,
/// unless it has more bytes than are read.
pub proof fn files_are_read_as_they_are(
    reader: &SysfsReader,
    rel: Seq<char>,
    f: PathFacts,
    path: String,
    bytes: Vec<u8>,
)
    requires
        recorded_of(reader.facts(), rel) == Some(f),
        !absolute(rel),
        forall|i: int|
            0 <= i < components_of(rel).len() ==> safe_component(#[trigger] components_of(rel)[i])
                && components_of(rel)[i] != "."@ && components_of(rel)[i] != ".."@,
        f.canonical == Ok::<String, IoFailure>(path),
        within(reader.root_path(), path@),
        f.contents == Ok::<Vec<u8>, IoFailure>(bytes),
        bytes@.len() <= reader.read_cap(),
    ensures
        reader.text_at(rel) == Ok::<Result<Seq<char>, Absence>, ErrorView>(
            Ok(text_of_bytes(bytes@)),
        ),
{
    lemma_plain_names(components_of(rel));
    assert(first_of(bytes@, reader.read_cap()) =~= bytes@);
}

/// A file that holds a number on its first line is read as that number.
pub proof fn numbers_are_read_from_the_first_line(
    reader: &SysfsReader,
    rel: Seq<char>,
    n: u64,
    signed: i64,
    rest: Seq<char>,
)
    ensures
        reader.text_at(rel) == Ok::<Result<Seq<char>, Absence>, ErrorView>(
            Ok(decimal(n as nat) + seq!['\n'] + rest),
        ) ==> reader.u64_at(rel) == Ok::<Result<u64, Absence>, ErrorView>(Ok(n)),
        reader.text_at(rel) == Ok::<Result<Seq<char>, Absence>, ErrorView>(
            Ok(signed_decimal(signed as int) + seq!['\n'] + rest),
        ) ==> reader.i64_at(rel) == Ok::<Result<i64, Absence>, ErrorView>(Ok(signed)),
        reader.text_at(rel) == Ok::<Result<Seq<char>, Absence>, ErrorView>(
            Ok(Seq::<char>::empty()),
        ) ==> reader.u64_at(rel) == Ok::<Result<u64, Absence>, ErrorView>(
            Err(Absence::NotReported),
        ),
{
    let digits = decimal(n as nat);
    lemma_decimal_digits(n as nat);
    lemma_number_line(digits, rest);
    decimal_round_trip(n);
    let text = signed_decimal(signed as int);
    let size: nat = (if signed < 0 {
        -signed as int
    } else {
        signed as int
    }) as nat;
    lemma_decimal_digits(size);
    assert forall|i: int| 0 <= i < text.len() implies text[i] == '-' || digit_of(
        #[trigger] text[i],
        10,
    ) is Some by {
        if signed < 0 {
            if i > 0 {
                assert(text[i] == decimal(size)[i - 1]);
            }
        } else {
            assert(text[i] == decimal(size)[i]);
        }
    }
    lemma_number_line(text, rest);
    signed_round_trip(signed);
    lines_are_cut_at_line_feeds(digits, rest);
}

proof fn lemma_number_line(s: Seq<char>, rest: Seq<char>)
    requires
        s.len() > 0,
        forall|i: int| 0 <= i < s.len() ==> s[i] == '-' || digit_of(#[trigger] s[i], 10) is Some,
    ensures
        first_line_of(s + seq!['\n'] + rest) == Ok::<Seq<char>, Absence>(s),
{
    assert forall|i: int| 0 <= i < s.len() implies s[i] != '\n' && s[i] != '\r' && !is_space(s[i]) by {
        assert(s[i] == '-' || digit_of(s[i], 10) is Some);
    }
    lines_are_cut_at_line_feeds(s, rest);
    let none = Seq::<char>::empty();
    trimming_takes_off_the_blanks(none, s, none);
    assert(none + s + none =~= s);
    assert(lines_of(s + seq!['\n'] + rest).len() > 0) by {
        let t = s + seq!['\n'] + rest;
        assert(t.len() > 0);
    }
}

} // verus!
