//! Names behind addresses: one question for a pointer record to the first name
//! server that is configured, and what its reply says.
//!
//! A reply is bounded in every direction. A compressed name follows only
//! sixteen pointers, each to an earlier place, so no reply makes it loop.

use vstd::prelude::*;
use vstd::utf8::encode_utf8;

use crate::addr::{address_of, octet, octets, parse_address, IpAddr};
use crate::number::{
    all_digits, decimal, decimal_string, digit_char, digit_of, digits_value, lemma_decimal_digits,
    push_decimal, to_digit_char,
};
use crate::sysfs::{
    control_char, decode_lossy, sanitize_kernel_string, sanitized, sanitized_text_is_inert,
    text_of_bytes, SysfsReader,
};
use crate::text::{
    chars_of, first_of, index_of, is_text, lemma_index_of, lines, lines_of, push_str, slices, split,
    split_of, string_of, strings, words, words_of,
};

verus! {

pub const DNS_PORT: u16 = 53;

/// How long a reply may take, in milliseconds.
pub const QUERY_TIMEOUT: u64 = 2000;

pub const MAX_RESPONSE_BYTES: usize = 4096;

/// The longest name, both on the wire and in what is shown.
pub const MAX_NAME_LEN: usize = 253;

/// How many pointers one name may follow.
pub const MAX_LABEL_JUMPS: usize = 16;

pub const MAX_LABELS: usize = 128;

pub const QTYPE_PTR: u16 = 12;

pub const QCLASS_IN: u16 = 1;

// ---------------------------------------------------------------------------
// The name server
// ---------------------------------------------------------------------------
/// The address on a line that names a name server.
pub open spec fn nameserver_on(line: Seq<char>) -> Option<IpAddr> {
    let w = words_of(line);
    if w.len() >= 2 && w[0] == "nameserver"@ {
        address_of(w[1])
    } else {
        None
    }
}

/// The first address that the lines name.
pub open spec fn first_nameserver(lines: Seq<Seq<char>>) -> Option<IpAddr>
    decreases lines.len(),
{
    if lines.len() == 0 {
        None
    } else {
        match nameserver_on(lines[0]) {
            Some(a) => Some(a),
            None => first_nameserver(lines.drop_first()),
        }
    }
}

/// The name server that is configured under the reader's root.
pub open spec fn nameserver_of(reader: &SysfsReader) -> Option<IpAddr> {
    match reader.text_at("etc/resolv.conf"@) {
        Ok(Ok(text)) => first_nameserver(lines_of(text)),
        _ => None,
    }
}

fn parse_nameserver(line: &[char]) -> (r: Option<IpAddr>)
    ensures
        r == nameserver_on(line@),
{
    let w = words(line);
    let ghost ws = slices(w@);
    if w.len() < 2 {
        return None;
    }
    assert(ws[0] == w@[0]@ && ws[1] == w@[1]@);
    if is_text(w[0], "nameserver") {
        parse_address(w[1])
    } else {
        None
    }
}

/// The first address on a `nameserver` line of `etc/resolv.conf`.
pub fn read_nameserver(reader: &SysfsReader) -> (r: Option<IpAddr>)
    ensures
        r == nameserver_of(reader),
{
    let text = match reader.read_to_string("etc/resolv.conf") {
        Ok(Ok(text)) => text,
        _ => return None,
    };
    let cs = chars_of(text.as_str());
    let all = lines(cs.as_slice());
    let ghost ls = slices(all@);
    let mut i: usize = 0;
    assert(ls.skip(0) == ls);
    while i < all.len()
        invariant
            i <= all.len(),
            ls == slices(all@),
            nameserver_of(reader) == first_nameserver(ls.skip(i as int)),
        decreases all.len() - i,
    {
        assert(ls.skip(i as int)[0] == all@[i as int]@);
        assert(ls.skip(i as int).drop_first() == ls.skip(i + 1));
        if let Some(a) = parse_nameserver(all[i]) {
            return Some(a);
        }
        i = i + 1;
    }
    assert(ls.skip(i as int) == Seq::<Seq<char>>::empty());
    None
}

/// The number of a query, from the nanoseconds of the clock: their low 16
/// bits.
pub fn query_id(subsec_nanos: u32) -> (r: u16)
    ensures
        r == subsec_nanos % 65536,
{
    (subsec_nanos % 65536) as u16
}

// ---------------------------------------------------------------------------
// The question
// ---------------------------------------------------------------------------
/// The low `n` nibbles of `bits`, the lowest first, each with a dot behind it.
pub open spec fn nibbles(bits: nat, n: nat) -> Seq<char>
    decreases n,
{
    if n == 0 {
        seq![]
    } else {
        seq![digit_char(bits % 16), '.'] + nibbles(bits / 16, (n - 1) as nat)
    }
}

/// The name under which an address is looked up: its parts in reverse.
pub open spec fn ptr_name(addr: IpAddr) -> Seq<char> {
    match addr {
        IpAddr::V4(bits) => {
            let b = bits as nat;
            decimal(octet(b, 3)) + "."@ + decimal(octet(b, 2)) + "."@ + decimal(octet(b, 1)) + "."@
                + decimal(octet(b, 0)) + ".in-addr.arpa"@
        },
        IpAddr::V6(bits) => nibbles(bits as nat, 32) + "ip6.arpa"@,
    }
}

pub fn ptr_qname(addr: IpAddr) -> (r: String)
    ensures
        r@ == ptr_name(addr),
{
    match addr {
        IpAddr::V4(bits) => {
            let (a, b, c, d) = octets(bits);
            let mut name: String = decimal_string(d as u64);
            push_str(&mut name, ".");
            push_decimal(&mut name, c as u64);
            push_str(&mut name, ".");
            push_decimal(&mut name, b as u64);
            push_str(&mut name, ".");
            push_decimal(&mut name, a as u64);
            push_str(&mut name, ".in-addr.arpa");
            assert(name@ == ptr_name(addr));
            name
        },
        IpAddr::V6(bits) => {
            let mut name: String = String::new();
            let mut rest: u128 = bits;
            let mut n: usize = 32;
            assert(name@ + nibbles(rest as nat, 32) == nibbles(bits as nat, 32));
            while n > 0
                invariant
                    n <= 32,
                    name@ + nibbles(rest as nat, n as nat) == nibbles(bits as nat, 32),
                decreases n,
            {
                let ghost before = name@;
                let ghost tail = nibbles((rest / 16) as nat, (n - 1) as nat);
                name.push(to_digit_char((rest % 16) as u8));
                name.push('.');
                assert(before + (seq![digit_char((rest % 16) as nat), '.'] + tail) == name@ + tail);
                rest = rest / 16;
                n = n - 1;
            }
            assert(name@ == nibbles(bits as nat, 32));
            push_str(&mut name, "ip6.arpa");
            name
        },
    }
}

/// The bytes of a label, 63 of them at most.
pub open spec fn label_bytes(label: Seq<char>) -> Seq<u8> {
    first_of(encode_utf8(label), 63)
}

/// Labels on the wire, each behind its length.
pub open spec fn encoded_labels(labels: Seq<Seq<char>>) -> Seq<u8>
    decreases labels.len(),
{
    if labels.len() == 0 {
        seq![]
    } else {
        seq![label_bytes(labels[0]).len() as u8] + label_bytes(labels[0]) + encoded_labels(
            labels.drop_first(),
        )
    }
}

/// A dotted name on the wire: its labels, and the empty one that ends them.
pub open spec fn encoded_name(name: Seq<char>) -> Seq<u8> {
    encoded_labels(split_of(name, '.')).push(0)
}

fn push_bytes(out: &mut Vec<u8>, bytes: &[u8], n: usize)
    requires
        n <= bytes.len(),
    ensures
        final(out)@ == old(out)@ + bytes@.take(n as int),
{
    let ghost before = out@;
    let mut i: usize = 0;
    while i < n
        invariant
            i <= n <= bytes.len(),
            out@ == before + bytes@.take(i as int),
        decreases n - i,
    {
        out.push(bytes[i]);
        i = i + 1;
        assert(out@ == before + bytes@.take(i as int));
    }
}

pub fn encode_qname(name: &str) -> (r: Vec<u8>)
    ensures
        r@ == encoded_name(name@),
{
    let cs = chars_of(name);
    let labels = split(cs.as_slice(), '.');
    let ghost ls = slices(labels@);
    let mut out: Vec<u8> = Vec::new();
    let mut i: usize = 0;
    assert(ls.skip(0) == ls);
    assert(out@ + encoded_labels(ls) == encoded_labels(ls));
    while i < labels.len()
        invariant
            i <= labels.len(),
            ls == slices(labels@),
            out@ + encoded_labels(ls.skip(i as int)) == encoded_labels(ls),
        decreases labels.len() - i,
    {
        let ghost before = out@;
        let ghost rest = ls.skip(i + 1);
        assert(ls.skip(i as int)[0] == labels@[i as int]@);
        assert(ls.skip(i as int).drop_first() == rest);
        let label = string_of(labels[i]);
        let bytes = label.as_str().as_bytes();
        let len: usize = if bytes.len() < 63 {
            bytes.len()
        } else {
            63
        };
        out.push(len as u8);
        push_bytes(&mut out, bytes, len);
        assert(bytes@.take(len as int) == label_bytes(labels@[i as int]@));
        assert(before + (seq![len as u8] + label_bytes(labels@[i as int]@) + encoded_labels(rest))
            == out@ + encoded_labels(rest));
        i = i + 1;
    }
    assert(ls.skip(i as int) == Seq::<Seq<char>>::empty());
    assert(out@ == encoded_labels(ls));
    out.push(0);
    out
}

/// A 16-bit number on the wire.
pub open spec fn be16(n: u16) -> Seq<u8> {
    seq![(n / 256) as u8, (n % 256) as u8]
}

/// The 16-bit number that two bytes hold.
pub open spec fn from_be16(hi: u8, lo: u8) -> u16 {
    (hi * 256 + lo) as u16
}

/// A query with one question: the recursion flag, no answers, the name and
/// what is asked of it.
pub open spec fn query_bytes(id: u16, qname: Seq<char>) -> Seq<u8> {
    be16(id) + be16(0x0100) + be16(1) + be16(0) + be16(0) + be16(0) + encoded_name(qname) + be16(
        QTYPE_PTR,
    ) + be16(QCLASS_IN)
}

fn push16(out: &mut Vec<u8>, n: u16)
    ensures
        final(out)@ == old(out)@ + be16(n),
{
    let ghost before = out@;
    out.push((n / 256) as u8);
    out.push((n % 256) as u8);
    assert(out@ == before + be16(n));
}

pub fn build_query(id: u16, qname: &str) -> (r: Vec<u8>)
    ensures
        r@ == query_bytes(id, qname@),
{
    let name = encode_qname(qname);
    let mut out: Vec<u8> = Vec::new();
    push16(&mut out, id);
    push16(&mut out, 0x0100);
    push16(&mut out, 1);
    push16(&mut out, 0);
    push16(&mut out, 0);
    push16(&mut out, 0);
    push_bytes(&mut out, name.as_slice(), name.len());
    assert(name@.take(name@.len() as int) == name@);
    push16(&mut out, QTYPE_PTR);
    push16(&mut out, QCLASS_IN);
    assert(out@ == query_bytes(id, qname@));
    out
}

// ---------------------------------------------------------------------------
// The reply
// ---------------------------------------------------------------------------
pub struct Header {
    pub id: u16,
    pub flags: u16,
    pub qdcount: u16,
    pub ancount: u16,
}

/// The 16-bit number at `i`.
pub open spec fn number_at(msg: Seq<u8>, i: int) -> u16 {
    from_be16(msg[i], msg[i + 1])
}

pub open spec fn header_of(msg: Seq<u8>) -> Option<Header> {
    if msg.len() < 12 {
        None
    } else {
        Some(
            Header {
                id: number_at(msg, 0),
                flags: number_at(msg, 2),
                qdcount: number_at(msg, 4),
                ancount: number_at(msg, 6),
            },
        )
    }
}

fn join16(hi: u8, lo: u8) -> (r: u16)
    ensures
        r == from_be16(hi, lo),
{
    hi as u16 * 256 + lo as u16
}

pub fn parse_header(msg: &[u8]) -> (r: Option<Header>)
    ensures
        r == header_of(msg@),
{
    if msg.len() < 12 {
        return None;
    }
    Some(
        Header {
            id: join16(msg[0], msg[1]),
            flags: join16(msg[2], msg[3]),
            qdcount: join16(msg[4], msg[5]),
            ancount: join16(msg[6], msg[7]),
        },
    )
}

/// The labels of the name at `pos`, behind `jumps` pointers, `count` labels
/// and `len` bytes of the same name.
///
/// A length byte of zero ends the name. One with both top bits set is, with
/// the byte behind it, a pointer to an earlier place. One with a single top
/// bit set means nothing.
pub open spec fn labels_at(msg: Seq<u8>, pos: int, jumps: nat, count: nat, len: nat) -> Option<
    Seq<Seq<char>>,
>
    decreases MAX_LABEL_JUMPS - jumps, msg.len() - pos,
{
    if pos < 0 || pos >= msg.len() {
        None
    } else if msg[pos] == 0 {
        Some(seq![])
    } else if msg[pos] >= 0xc0 {
        if pos + 1 >= msg.len() {
            None
        } else {
            let target = (msg[pos] - 0xc0) * 256 + msg[pos + 1];
            if jumps >= MAX_LABEL_JUMPS || target >= pos {
                None
            } else {
                labels_at(msg, target, jumps + 1, count, len)
            }
        }
    } else if msg[pos] >= 0x40 {
        None
    } else {
        let n = msg[pos] as int;
        if pos + 1 + n > msg.len() || count + 1 > MAX_LABELS || len + n + 1 > MAX_NAME_LEN {
            None
        } else {
            match labels_at(msg, pos + 1 + n, jumps, count + 1, (len + n + 1) as nat) {
                Some(rest) => Some(
                    seq![text_of_bytes(msg.subrange(pos + 1, pos + 1 + n))] + rest,
                ),
                None => None,
            }
        }
    }
}

/// Where the name at `pos` ends in the message itself: behind its first
/// pointer, or behind its empty label.
pub open spec fn name_end(msg: Seq<u8>, pos: int) -> int
    decreases msg.len() - pos,
{
    if pos < 0 || pos >= msg.len() {
        pos
    } else if msg[pos] == 0 {
        pos + 1
    } else if msg[pos] >= 0x40 {
        pos + 2
    } else if pos + 1 + msg[pos] > msg.len() {
        msg.len() as int
    } else {
        name_end(msg, pos + 1 + msg[pos] as int)
    }
}

/// Labels with a dot between each two.
pub open spec fn dotted(labels: Seq<Seq<char>>) -> Seq<char>
    decreases labels.len(),
{
    if labels.len() == 0 {
        seq![]
    } else if labels.len() == 1 {
        labels[0]
    } else {
        dotted(labels.drop_last()) + "."@ + labels.last()
    }
}

/// The name at `pos` and where it ends.
pub open spec fn name_at(msg: Seq<u8>, pos: int) -> Option<(Seq<char>, int)> {
    match labels_at(msg, pos, 0, 0, 0) {
        Some(labels) => Some((dotted(labels), name_end(msg, pos))),
        None => None,
    }
}

fn join_labels(labels: &Vec<String>) -> (r: String)
    ensures
        r@ == dotted(strings(labels@)),
{
    let ghost all = strings(labels@);
    let mut out: String = String::new();
    let mut i: usize = 0;
    while i < labels.len()
        invariant
            i <= labels.len(),
            all == strings(labels@),
            out@ == dotted(all.take(i as int)),
        decreases labels.len() - i,
    {
        if i > 0 {
            push_str(&mut out, ".");
        }
        push_str(&mut out, labels[i].as_str());
        assert(all.take(i + 1).drop_last() == all.take(i as int));
        assert(all.take(i + 1).last() == labels@[i as int]@);
        assert(out@ == dotted(all.take(i + 1)));
        i = i + 1;
    }
    assert(all.take(i as int) == all);
    out
}

pub open spec fn name_view(r: Option<(String, usize)>) -> Option<(Seq<char>, int)> {
    match r {
        Some((name, end)) => Some((name@, end as int)),
        None => None,
    }
}

/// Where a name that can be read ends, and that it ends inside the message.
proof fn lemma_name_end(msg: Seq<u8>, pos: int, jumps: nat, count: nat, len: nat)
    requires
        labels_at(msg, pos, jumps, count, len) is Some,
    ensures
        pos < name_end(msg, pos) <= msg.len(),
    decreases msg.len() - pos,
{
    if 0 < msg[pos] < 0x40 {
        let n = msg[pos] as int;
        lemma_name_end(msg, pos + 1 + n, jumps, count + 1, (len + n + 1) as nat);
    }
}

/// Reads the name at `start`, following pointers, and says where the next field
/// of the message begins.
pub fn decode_name(msg: &[u8], start: usize) -> (r: Option<(String, usize)>)
    ensures
        name_view(r) == name_at(msg@, start as int),
        r matches Some(found) ==> start < found.1 <= msg.len(),
{
    let ghost whole = labels_at(msg@, start as int, 0, 0, 0);
    let mut labels: Vec<String> = Vec::new();
    let mut pos: usize = start;
    let mut jumps: usize = 0;
    let mut end_pos: Option<usize> = None;
    let mut name_len: usize = 0;
    assert(strings(labels@) == Seq::<Seq<char>>::empty());
    proof {
        if let Some(rest) = whole {
            assert(strings(labels@) + rest == rest);
            lemma_name_end(msg@, start as int, 0, 0, 0);
        }
    }
    while pos < msg.len() && msg[pos] != 0
        invariant
            jumps <= MAX_LABEL_JUMPS,
            labels@.len() <= MAX_LABELS,
            name_len <= MAX_NAME_LEN,
            whole == labels_at(msg@, start as int, 0, 0, 0),
            whole is Some ==> start < name_end(msg@, start as int) <= msg.len(),
            whole == (match labels_at(
                msg@,
                pos as int,
                jumps as nat,
                labels@.len(),
                name_len as nat,
            ) {
                Some(rest) => Some(strings(labels@) + rest),
                None => None,
            }),
            match end_pos {
                Some(e) => e == name_end(msg@, start as int),
                None => name_end(msg@, start as int) == name_end(msg@, pos as int),
            },
        decreases MAX_LABEL_JUMPS - jumps, msg.len() - pos,
    {
        let len_byte: u8 = msg[pos];
        if len_byte >= 0xc0 {
            if pos + 1 >= msg.len() {
                return None;
            }
            let target: usize = (len_byte - 0xc0) as usize * 256 + msg[pos + 1] as usize;
            if end_pos.is_none() {
                end_pos = Some(pos + 2);
            }
            if jumps >= MAX_LABEL_JUMPS || target >= pos {
                return None;
            }
            jumps = jumps + 1;
            pos = target;
        } else {
            if len_byte >= 0x40 {
                return None;
            }
            let n: usize = len_byte as usize;
            if n > msg.len() - (pos + 1) || labels.len() + 1 > MAX_LABELS || name_len + n + 1
                > MAX_NAME_LEN {
                return None;
            }
            let ghost before = strings(labels@);
            let bytes: &[u8] = &msg[pos + 1..pos + 1 + n];
            assert(bytes@ == msg@.subrange(pos + 1, pos + 1 + n));
            labels.push(decode_lossy(bytes));
            assert(strings(labels@) == before.push(text_of_bytes(bytes@)));
            proof {
                if let Some(rest) = labels_at(
                    msg@,
                    pos + 1 + n,
                    jumps as nat,
                    labels@.len(),
                    (name_len + n + 1) as nat,
                ) {
                    assert(before + (seq![text_of_bytes(bytes@)] + rest) == strings(labels@)
                        + rest);
                }
            }
            pos = pos + 1 + n;
            name_len = name_len + n + 1;
        }
    }
    if pos >= msg.len() {
        return None;
    }
    assert(strings(labels@) + Seq::<Seq<char>>::empty() == strings(labels@));
    let end: usize = match end_pos {
        Some(e) => e,
        None => pos + 1,
    };
    Some((join_labels(&labels), end))
}

/// Where the questions end: each is a name, and a type and a class behind it.
pub open spec fn questions_end(msg: Seq<u8>, pos: int, n: nat) -> Option<int>
    decreases n,
{
    if n == 0 {
        Some(pos)
    } else {
        match name_at(msg, pos) {
            Some((_, next)) => if next + 4 > usize::MAX {
                None
            } else {
                questions_end(msg, next + 4, (n - 1) as nat)
            },
            None => None,
        }
    }
}

/// The names in the answers from `pos` on. An answer is the name that it is
/// about, a type, a class, how long it may be kept, a length, and as many bytes:
/// those of a pointer record hold a name.
pub open spec fn answers_at(msg: Seq<u8>, pos: int, n: nat) -> Option<Seq<Seq<char>>>
    decreases n,
{
    if n == 0 {
        Some(seq![])
    } else {
        match name_at(msg, pos) {
            Some((_, next)) => if next + 10 > msg.len() {
                None
            } else {
                let data = next + 10;
                let end = data + number_at(msg, next + 8);
                let own = if number_at(msg, next) != QTYPE_PTR {
                    Some(Seq::<Seq<char>>::empty())
                } else {
                    match name_at(msg, data) {
                        Some((name, _)) => Some(seq![sanitized(name, MAX_NAME_LEN as nat)]),
                        None => None,
                    }
                };
                match own {
                    Some(own) => if end > msg.len() {
                        None
                    } else {
                        match answers_at(msg, end, (n - 1) as nat) {
                            Some(rest) => Some(own + rest),
                            None => None,
                        }
                    },
                    None => None,
                }
            },
            None => None,
        }
    }
}

/// What a reply to the query `id` says. One for another query, one that is no
/// reply, and a malformed one say nothing; one that reports an error says that
/// there is no name.
pub open spec fn reply_names(msg: Seq<u8>, id: u16) -> Option<Seq<Seq<char>>> {
    match header_of(msg) {
        Some(h) => if h.id != id || h.flags < 0x8000 {
            None
        } else if h.flags % 16 != 0 {
            Some(seq![])
        } else {
            match questions_end(msg, 12, h.qdcount as nat) {
                Some(pos) => answers_at(msg, pos, h.ancount as nat),
                None => None,
            }
        },
        None => None,
    }
}

pub open spec fn names_view(r: Option<Vec<String>>) -> Option<Seq<Seq<char>>> {
    match r {
        Some(names) => Some(strings(names@)),
        None => None,
    }
}

fn skip_questions(msg: &[u8], count: u16) -> (r: Option<usize>)
    ensures
        (match r {
            Some(pos) => Some(pos as int),
            None => None,
        }) == questions_end(msg@, 12, count as nat),
{
    let mut pos: usize = 12;
    let mut left: u16 = count;
    while left > 0
        invariant
            questions_end(msg@, 12, count as nat) == questions_end(
                msg@,
                pos as int,
                left as nat,
            ),
        decreases left,
    {
        match decode_name(msg, pos) {
            Some((_, next)) => {
                match next.checked_add(4) {
                    Some(p) => {
                        pos = p;
                    },
                    None => {
                        return None;
                    },
                }
            },
            None => {
                return None;
            },
        }
        left = left - 1;
    }
    Some(pos)
}

fn read_answers(msg: &[u8], start: usize, count: u16) -> (r: Option<Vec<String>>)
    ensures
        names_view(r) == answers_at(msg@, start as int, count as nat),
{
    let ghost whole = answers_at(msg@, start as int, count as nat);
    let mut names: Vec<String> = Vec::new();
    let mut pos: usize = start;
    let mut left: u16 = count;
    assert(strings(names@) == Seq::<Seq<char>>::empty());
    proof {
        if let Some(rest) = whole {
            assert(strings(names@) + rest == rest);
        }
    }
    while left > 0
        invariant
            whole == answers_at(msg@, start as int, count as nat),
            whole == (match answers_at(msg@, pos as int, left as nat) {
                Some(rest) => Some(strings(names@) + rest),
                None => None,
            }),
        decreases left,
    {
        let next: usize = match decode_name(msg, pos) {
            Some((_, next)) => next,
            None => return None,
        };
        if msg.len() - next < 10 {
            return None;
        }
        let ghost before = strings(names@);
        let ghost mut own: Seq<Seq<char>> = Seq::empty();
        let rtype: u16 = join16(msg[next], msg[next + 1]);
        let rdlength: usize = join16(msg[next + 8], msg[next + 9]) as usize;
        let data: usize = next + 10;
        if rtype == QTYPE_PTR {
            match decode_name(msg, data) {
                Some((name, _)) => {
                    names.push(sanitize_kernel_string(name.as_str(), MAX_NAME_LEN));
                    proof {
                        own = seq![sanitized(name@, MAX_NAME_LEN as nat)];
                    }
                    assert(strings(names@) == before + own);
                },
                None => {
                    return None;
                },
            }
        } else {
            assert(before + own == before);
        }
        if rdlength > msg.len() - data {
            return None;
        }
        pos = data + rdlength;
        left = left - 1;
        proof {
            if let Some(rest) = answers_at(msg@, pos as int, left as nat) {
                assert(before + (own + rest) == strings(names@) + rest);
            }
        }
    }
    assert(strings(names@) + Seq::<Seq<char>>::empty() == strings(names@));
    Some(names)
}

/// The names in a reply to the query `expected_id`.
pub fn parse_ptr_response(msg: &[u8], expected_id: u16) -> (r: Option<Vec<String>>)
    ensures
        names_view(r) == reply_names(msg@, expected_id),
{
    let header = match parse_header(msg) {
        Some(header) => header,
        None => return None,
    };
    if header.id != expected_id || header.flags < 0x8000 {
        return None;
    }
    if header.flags % 16 != 0 {
        let none: Vec<String> = Vec::new();
        assert(strings(none@) == Seq::<Seq<char>>::empty());
        return Some(none);
    }
    match skip_questions(msg, header.qdcount) {
        Some(pos) => read_answers(msg, pos, header.ancount),
        None => None,
    }
}

// ---------------------------------------------------------------------------
// One lookup
// ---------------------------------------------------------------------------
/// What a lookup sends, and to whom: nothing where no name server is
/// configured.
pub fn ptr_request(reader: &SysfsReader, addr: IpAddr, id: u16) -> (r: Option<(IpAddr, Vec<u8>)>)
    ensures
        (match r {
            Some((server, query)) => Some((server, query@)),
            None => None,
        }) == (match nameserver_of(reader) {
            Some(server) => Some((server, query_bytes(id, ptr_name(addr)))),
            None => None,
        }),
{
    match read_nameserver(reader) {
        Some(server) => {
            let name = ptr_qname(addr);
            Some((server, build_query(id, name.as_str())))
        },
        None => None,
    }
}

/// What a lookup comes to, given the reply that arrived, if one did. No name is
/// something else than no answer.
pub fn resolve_ptr(reader: &SysfsReader, id: u16, response: Option<&[u8]>) -> (r: Option<Vec<String>>)
    ensures
        names_view(r) == (match (nameserver_of(reader), response) {
            (Some(_), Some(bytes)) => reply_names(bytes@, id),
            _ => None,
        }),
{
    if read_nameserver(reader).is_none() {
        return None;
    }
    match response {
        Some(bytes) => parse_ptr_response(bytes, id),
        None => None,
    }
}

// ---------------------------------------------------------------------------
// Laws
// ---------------------------------------------------------------------------
/// Every label of the name takes from 1 to 63 bytes, and all of it no more than
/// a name may have.
pub open spec fn sendable(name: Seq<char>) -> bool {
    &&& forall|i: int|
        0 <= i < split_of(name, '.').len() ==> 1 <= encode_utf8(
            #[trigger] split_of(name, '.')[i],
        ).len() <= 63
    &&& encoded_name(name).len() <= MAX_NAME_LEN + 1
}

proof fn lemma_dotted_first(first: Seq<char>, rest: Seq<Seq<char>>)
    requires
        rest.len() > 0,
    ensures
        dotted(seq![first] + rest) == first + "."@ + dotted(rest),
    decreases rest.len(),
{
    let all = seq![first] + rest;
    assert(all.drop_last() == seq![first] + rest.drop_last());
    assert(all.last() == rest.last());
    if rest.len() > 1 {
        lemma_dotted_first(first, rest.drop_last());
        assert(first + "."@ + dotted(rest.drop_last()) + "."@ + rest.last() == first + "."@ + (
        dotted(rest.drop_last()) + "."@ + rest.last()));
    } else {
        assert(all.drop_last() == seq![first]);
        assert(dotted(seq![first]) == first);
        assert(rest[0] == rest.last());
    }
}

/// Splitting at dots and joining with dots gives the name back.
proof fn lemma_dotted_split(name: Seq<char>)
    ensures
        split_of(name, '.').len() > 0,
        dotted(split_of(name, '.')) == name,
    decreases name.len(),
{
    lemma_index_of(name, '.');
    reveal_strlit(".");
    let n = index_of(name, '.') as int;
    if n < name.len() {
        let rest = split_of(name.skip(n + 1), '.');
        lemma_dotted_split(name.skip(n + 1));
        lemma_dotted_first(name.take(n), rest);
        assert(name == name.take(n) + "."@ + name.skip(n + 1));
    }
}

proof fn lemma_labels_read_back(
    msg: Seq<u8>,
    pos: int,
    labels: Seq<Seq<char>>,
    jumps: nat,
    count: nat,
    len: nat,
)
    requires
        0 <= pos,
        pos + encoded_labels(labels).len() < msg.len(),
        msg.subrange(pos, pos + encoded_labels(labels).len()) == encoded_labels(labels),
        msg[pos + encoded_labels(labels).len()] == 0,
        forall|i: int|
            0 <= i < labels.len() ==> 1 <= encode_utf8(#[trigger] labels[i]).len() <= 63,
        2 * count <= len,
        len + encoded_labels(labels).len() <= MAX_NAME_LEN,
    ensures
        labels_at(msg, pos, jumps, count, len) == Some(labels),
        name_end(msg, pos) == pos + encoded_labels(labels).len() + 1,
    decreases labels.len(),
{
    if labels.len() > 0 {
        let bytes = label_bytes(labels[0]);
        let n = bytes.len() as int;
        let rest = labels.drop_first();
        let all = encoded_labels(labels);
        assert(1 <= encode_utf8(labels[0]).len() <= 63);
        assert(bytes == encode_utf8(labels[0]));
        assert(all == seq![n as u8] + bytes + encoded_labels(rest));
        assert(msg[pos] == all[0]) by {
            assert(msg.subrange(pos, pos + all.len())[0] == all[0]);
        }
        assert(all[0] == n as u8);
        assert(msg.subrange(pos + 1, pos + 1 + n) == bytes) by {
            assert forall|i: int| 0 <= i < n implies msg[pos + 1 + i] == bytes[i] by {
                assert(msg.subrange(pos, pos + all.len())[1 + i] == all[1 + i]);
            }
        }
        assert(msg.subrange(pos + 1 + n, pos + 1 + n + encoded_labels(rest).len())
            == encoded_labels(rest)) by {
            assert forall|i: int| 0 <= i < encoded_labels(rest).len() implies msg[pos + 1 + n + i]
                == encoded_labels(rest)[i] by {
                assert(msg.subrange(pos, pos + all.len())[1 + n + i] == all[1 + n + i]);
            }
        }
        assert forall|i: int| 0 <= i < rest.len() implies 1 <= encode_utf8(
            #[trigger] rest[i],
        ).len() <= 63 by {
            assert(rest[i] == labels[i + 1]);
        }
        lemma_labels_read_back(msg, pos + 1 + n, rest, jumps, count + 1, (len + n + 1) as nat);
        vstd::utf8::encode_utf8_valid_utf8(labels[0]);
        vstd::utf8::encode_utf8_decode_utf8(labels[0]);
        assert(text_of_bytes(bytes) == labels[0]);
        assert(seq![labels[0]] + rest == labels);
    }
}

/// A name that was written into a message is read back from it, wherever it
/// stands, and reading goes on behind it.
pub proof fn written_names_read_back(msg: Seq<u8>, pos: int, name: Seq<char>)
    requires
        sendable(name),
        0 <= pos <= pos + encoded_name(name).len() <= msg.len(),
        msg.subrange(pos, pos + encoded_name(name).len()) == encoded_name(name),
    ensures
        name_at(msg, pos) == Some((name, pos + encoded_name(name).len())),
{
    lemma_written(msg, pos, name, 0);
    lemma_dotted_split(name);
}

proof fn lemma_written(msg: Seq<u8>, pos: int, name: Seq<char>, jumps: nat)
    requires
        sendable(name),
        0 <= pos <= pos + encoded_name(name).len() <= msg.len(),
        msg.subrange(pos, pos + encoded_name(name).len()) == encoded_name(name),
    ensures
        labels_at(msg, pos, jumps, 0, 0) == Some(split_of(name, '.')),
        name_end(msg, pos) == pos + encoded_name(name).len(),
{
    let labels = split_of(name, '.');
    let bytes = encoded_labels(labels);
    let all = encoded_name(name);
    assert(msg.subrange(pos, pos + bytes.len()) == bytes) by {
        assert forall|i: int| 0 <= i < bytes.len() implies msg[pos + i] == bytes[i] by {
            assert(msg.subrange(pos, pos + all.len())[i] == all[i]);
        }
    }
    assert(msg[pos + bytes.len()] == msg.subrange(pos, pos + all.len())[bytes.len() as int]);
    lemma_labels_read_back(msg, pos, labels, jumps, 0, 0);
}

/// A pointer reads as the name that it points to, and reading goes on behind
/// the pointer.
pub proof fn pointers_read_as_their_target(msg: Seq<u8>, at: int, target: int, name: Seq<char>)
    requires
        sendable(name),
        0 <= target < at < at + 1 < msg.len(),
        target < 0x4000,
        target + encoded_name(name).len() <= msg.len(),
        msg.subrange(target, target + encoded_name(name).len()) == encoded_name(name),
        msg[at] == 0xc0 + target / 256,
        msg[at + 1] == target % 256,
    ensures
        name_at(msg, at) == Some((name, at + 2)),
{
    lemma_written(msg, target, name, 1);
    lemma_dotted_split(name);
    assert(labels_at(msg, at, 0, 0, 0) == labels_at(msg, target, 1, 0, 0));
}

/// A pointer to its own place or to a later one is refused, so no message
/// sends a reader round in circles.
pub proof fn pointers_lead_back(msg: Seq<u8>, at: int)
    requires
        0 <= at < at + 1 < msg.len(),
        msg[at] >= 0xc0,
        (msg[at] - 0xc0) * 256 + msg[at + 1] >= at,
    ensures
        name_at(msg, at) is None,
{
}

/// A query that comes back is not taken for an answer.
pub proof fn a_query_is_no_answer(id: u16, qname: Seq<char>, expected: u16)
    ensures
        reply_names(query_bytes(id, qname), expected) is None,
{
    let q = query_bytes(id, qname);
    assert(q[2] == be16(0x0100)[0] && q[3] == be16(0x0100)[1]);
}

/// Only a reply with the number of the query counts.
pub proof fn a_reply_belongs_to_its_query(msg: Seq<u8>, expected: u16)
    requires
        reply_names(msg, expected) is Some,
    ensures
        msg.len() >= 12,
        number_at(msg, 0) == expected,
{
}

/// No name of a reply holds a control character or is longer than a name may
/// be.
pub proof fn resolved_names_are_inert(msg: Seq<u8>, id: u16, k: int)
    requires
        reply_names(msg, id) is Some,
        0 <= k < reply_names(msg, id)->0.len(),
    ensures
        reply_names(msg, id)->0[k].len() <= MAX_NAME_LEN,
        forall|i: int|
            0 <= i < reply_names(msg, id)->0[k].len() ==> !control_char(
                #[trigger] reply_names(msg, id)->0[k][i],
            ),
{
    let h = header_of(msg)->0;
    lemma_answers_inert(msg, questions_end(msg, 12, h.qdcount as nat)->0, h.ancount as nat, k);
}

proof fn lemma_answers_inert(msg: Seq<u8>, pos: int, n: nat, k: int)
    requires
        answers_at(msg, pos, n) is Some,
        0 <= k < answers_at(msg, pos, n)->0.len(),
    ensures
        answers_at(msg, pos, n)->0[k].len() <= MAX_NAME_LEN,
        forall|i: int|
            0 <= i < answers_at(msg, pos, n)->0[k].len() ==> !control_char(
                #[trigger] answers_at(msg, pos, n)->0[k][i],
            ),
    decreases n,
{
    let next = (name_at(msg, pos)->0).1;
    let end = next + 10 + number_at(msg, next + 8);
    if number_at(msg, next) == QTYPE_PTR {
        sanitized_text_is_inert((name_at(msg, next + 10)->0).0, MAX_NAME_LEN as nat);
        if k > 0 {
            lemma_answers_inert(msg, end, (n - 1) as nat, k - 1);
        }
    } else {
        lemma_answers_inert(msg, end, (n - 1) as nat, k);
    }
}

// ---------------------------------------------------------------------------
// What a question asks for
// ---------------------------------------------------------------------------
spec fn sixteen_to(n: nat) -> nat
    decreases n,
{
    if n == 0 {
        1
    } else {
        16 * sixteen_to((n - 1) as nat)
    }
}

/// Every second character of the first `2 * n`, the last of them first.
pub open spec fn read_backwards(s: Seq<char>, n: nat) -> Seq<char> {
    Seq::new(n, |i: int| s[2 * (n - 1 - i)])
}

/// A digit in lower case with a dot behind it stands in the column `i`.
pub open spec fn dotted_digit(s: Seq<char>, i: int) -> bool {
    ('0' <= s[2 * i] <= '9' || 'a' <= s[2 * i] <= 'f') && s[2 * i + 1] == '.'
}

proof fn lemma_nibbles(bits: nat, n: nat)
    requires
        bits < sixteen_to(n),
    ensures
        nibbles(bits, n).len() == 2 * n,
        forall|i: int| 0 <= i < n ==> #[trigger] dotted_digit(nibbles(bits, n), i),
        digits_value(read_backwards(nibbles(bits, n), n), 16) == bits,
    decreases n,
{
    let s = nibbles(bits, n);
    if n == 0 {
        assert(read_backwards(s, 0).len() == 0);
    } else {
        let m = (n - 1) as nat;
        let t = nibbles(bits / 16, m);
        let d = digit_char(bits % 16);
        lemma_nibbles(bits / 16, m);
        assert(s == seq![d, '.'] + t);
        assert(digit_of(d, 16) == Some(bits % 16));
        assert forall|i: int| 0 <= i < n implies #[trigger] dotted_digit(s, i) by {
            if i > 0 {
                assert(dotted_digit(t, i - 1));
                assert(s[2 * i] == t[2 * (i - 1)]);
                assert(s[2 * i + 1] == t[2 * (i - 1) + 1]);
            }
        }
        let back = read_backwards(s, n);
        assert(back.drop_last() == read_backwards(t, m)) by {
            assert forall|i: int| 0 <= i < m implies #[trigger] back.drop_last()[i]
                == read_backwards(t, m)[i] by {
                assert(s[2 * (n - 1 - i)] == t[2 * (m - 1 - i)]);
            }
        }
        assert(back.last() == d);
    }
}

/// The name for an IPv6 address is 32 hexadecimal digits with a dot behind each,
/// in front of `ip6.arpa`; read from the last to the first, the digits write the
/// address.
pub proof fn v6_names_spell_the_address(bits: u128)
    ensures
        ({
            let name = ptr_name(IpAddr::V6(bits));
            &&& name.len() == 72
            &&& name.skip(64) == "ip6.arpa"@
            &&& forall|i: int| 0 <= i < 32 ==> #[trigger] dotted_digit(name, i)
            &&& digits_value(read_backwards(name, 32), 16) == bits
        }),
{
    reveal_strlit("ip6.arpa");
    reveal_with_fuel(sixteen_to, 33);
    let s = nibbles(bits as nat, 32);
    let name = ptr_name(IpAddr::V6(bits));
    lemma_nibbles(bits as nat, 32);
    assert(name.skip(64) == "ip6.arpa"@);
    assert forall|i: int| 0 <= i < 32 implies #[trigger] dotted_digit(name, i) by {
        assert(dotted_digit(s, i));
    }
    assert(read_backwards(name, 32) == read_backwards(s, 32));
}

/// The name for an IPv4 address is its four octets in decimal, the last first,
/// with dots between them, in front of `in-addr.arpa`.
pub proof fn v4_names_spell_the_address(bits: u32)
    ensures
        exists|a: nat, b: nat, c: nat, d: nat|
            a < 256 && b < 256 && c < 256 && d < 256 && bits == 0x100_0000 * a + 0x1_0000 * b
                + 0x100 * c + d && ptr_name(IpAddr::V4(bits)) == #[trigger] reversed_octets(
                a,
                b,
                c,
                d,
            ),
{
    reveal_with_fuel(octet, 4);
    let n = bits as nat;
    let (a, b, c, d) = (octet(n, 0), octet(n, 1), octet(n, 2), octet(n, 3));
    reveal_strlit(".");
    reveal_strlit(".in-addr.arpa");
    assert(ptr_name(IpAddr::V4(bits)) == reversed_octets(a, b, c, d));
}

/// Four numbers, the last first, as the name for an address has them.
pub open spec fn reversed_octets(a: nat, b: nat, c: nat, d: nat) -> Seq<char> {
    decimal(d) + (seq!['.'] + (decimal(c) + (seq!['.'] + (decimal(b) + (seq!['.'] + (decimal(a)
        + ".in-addr.arpa"@))))))
}

proof fn lemma_up_to_dot(a: Seq<char>, x: Seq<char>, b: Seq<char>, y: Seq<char>)
    requires
        all_digits(a, 10),
        all_digits(b, 10),
        x.len() > 0,
        y.len() > 0,
        x[0] == '.',
        y[0] == '.',
        a + x == b + y,
    ensures
        a == b,
        x == y,
{
    let s = a + x;
    if a.len() < b.len() {
        assert(s[a.len() as int] == '.');
        assert((b + y)[a.len() as int] == b[a.len() as int]);
        assert(digit_of(b[a.len() as int], 10) is Some);
    } else if b.len() < a.len() {
        assert((b + y)[b.len() as int] == '.');
        assert(s[b.len() as int] == a[b.len() as int]);
        assert(digit_of(a[b.len() as int], 10) is Some);
    }
    assert(s.take(a.len() as int) == a);
    assert((b + y).take(b.len() as int) == b);
    assert(s.skip(a.len() as int) == x);
    assert((b + y).skip(b.len() as int) == y);
}

proof fn lemma_same_octets(
    a: nat,
    b: nat,
    c: nat,
    d: nat,
    a2: nat,
    b2: nat,
    c2: nat,
    d2: nat,
)
    requires
        reversed_octets(a, b, c, d) == reversed_octets(a2, b2, c2, d2),
    ensures
        a == a2 && b == b2 && c == c2 && d == d2,
{
    reveal_strlit(".in-addr.arpa");
    lemma_decimal_digits(a);
    lemma_decimal_digits(b);
    lemma_decimal_digits(c);
    lemma_decimal_digits(d);
    lemma_decimal_digits(a2);
    lemma_decimal_digits(b2);
    lemma_decimal_digits(c2);
    lemma_decimal_digits(d2);
    let dot = seq!['.'];
    let end = ".in-addr.arpa"@;
    let (w, w2) = (decimal(a) + end, decimal(a2) + end);
    let (x, x2) = (decimal(b) + (dot + w), decimal(b2) + (dot + w2));
    let (y, y2) = (decimal(c) + (dot + x), decimal(c2) + (dot + x2));
    lemma_up_to_dot(decimal(d), dot + y, decimal(d2), dot + y2);
    assert((dot + y).drop_first() == y && (dot + y2).drop_first() == y2);
    lemma_up_to_dot(decimal(c), dot + x, decimal(c2), dot + x2);
    assert((dot + x).drop_first() == x && (dot + x2).drop_first() == x2);
    lemma_up_to_dot(decimal(b), dot + w, decimal(b2), dot + w2);
    assert((dot + w).drop_first() == w && (dot + w2).drop_first() == w2);
    lemma_up_to_dot(decimal(a), end, decimal(a2), end);
}

/// No two addresses are looked up under the same name.
pub proof fn addresses_never_share_a_name(x: IpAddr, y: IpAddr)
    requires
        ptr_name(x) == ptr_name(y),
    ensures
        x == y,
{
    reveal_strlit("ip6.arpa");
    reveal_strlit(".in-addr.arpa");
    match (x, y) {
        (IpAddr::V6(a), IpAddr::V6(b)) => {
            v6_names_spell_the_address(a);
            v6_names_spell_the_address(b);
        },
        (IpAddr::V4(m), IpAddr::V4(n)) => {
            v4_names_spell_the_address(m);
            v4_names_spell_the_address(n);
            let (a, b, c, d) = choose|a: nat, b: nat, c: nat, d: nat|
                a < 256 && b < 256 && c < 256 && d < 256 && m == 0x100_0000 * a + 0x1_0000 * b
                    + 0x100 * c + d && ptr_name(x) == #[trigger] reversed_octets(a, b, c, d);
            let (a2, b2, c2, d2) = choose|a: nat, b: nat, c: nat, d: nat|
                a < 256 && b < 256 && c < 256 && d < 256 && n == 0x100_0000 * a + 0x1_0000 * b
                    + 0x100 * c + d && ptr_name(y) == #[trigger] reversed_octets(a, b, c, d);
            lemma_same_octets(a, b, c, d, a2, b2, c2, d2);
        },
        (IpAddr::V6(a), IpAddr::V4(m)) => {
            lemma_ends_apart(a, m);
        },
        (IpAddr::V4(m), IpAddr::V6(a)) => {
            lemma_ends_apart(a, m);
        },
    }
}

proof fn lemma_ends_apart(a: u128, m: u32)
    ensures
        ptr_name(IpAddr::V6(a)) != ptr_name(IpAddr::V4(m)),
{
    reveal_strlit("ip6.arpa");
    reveal_strlit(".in-addr.arpa");
    let s = ptr_name(IpAddr::V6(a));
    let t = ptr_name(IpAddr::V4(m));
    assert(s[s.len() - 6] == '6');
    assert(t[t.len() - 6] == 'r');
}

// ---------------------------------------------------------------------------
// Queries and replies as a whole
// ---------------------------------------------------------------------------
/// A number that was written in two bytes is read back from them.
pub proof fn numbers_read_back(msg: Seq<u8>, i: int, n: u16)
    requires
        0 <= i < i + 1 < msg.len(),
        msg[i] == be16(n)[0],
        msg[i + 1] == be16(n)[1],
    ensures
        number_at(msg, i) == n,
{
}

/// A query has its number, asks for recursion, has one question and no answers, and
/// asks for the pointer of that name on the internet.
pub proof fn queries_ask_for_the_pointer_of_a_name(id: u16, qname: Seq<char>)
    requires
        sendable(qname),
    ensures
        ({
            let q = query_bytes(id, qname);
            let end = 12 + encoded_name(qname).len() as int;
            &&& q.len() == end + 4
            &&& number_at(q, 0) == id
            &&& number_at(q, 2) == 256
            &&& number_at(q, 4) == 1
            &&& number_at(q, 6) == 0
            &&& number_at(q, 8) == 0
            &&& number_at(q, 10) == 0
            &&& name_at(q, 12) == Some((qname, end))
            &&& number_at(q, end) == 12
            &&& number_at(q, end + 2) == 1
        }),
{
    let q = query_bytes(id, qname);
    let name = encoded_name(qname);
    let end = 12 + name.len() as int;
    assert(q.subrange(12, end) =~= name);
    written_names_read_back(q, 12, qname);
    assert(q[end] == be16(12)[0] && q[end + 1] == be16(12)[1]);
    assert(q[end + 2] == be16(1)[0] && q[end + 3] == be16(1)[1]);
}

/// A reply to the query `id` for one name: the question again, and one answer that
/// gives the name `target`.
pub open spec fn reply_bytes(
    id: u16,
    flags: u16,
    qname: Seq<char>,
    ttl: (u16, u16),
    target: Seq<char>,
) -> Seq<u8> {
    be16(id) + be16(flags) + be16(1) + be16(1) + be16(0) + be16(0) + (encoded_name(qname) + be16(12)
        + be16(1)) + (encoded_name(qname) + be16(12) + be16(1) + be16(ttl.0) + be16(ttl.1) + be16(
        encoded_name(target).len() as u16,
    )) + encoded_name(target)
}

/// From a reply to its query the resolver takes the name that the answer gives, and
/// no name where the reply reports an error; a reply to another query says nothing.
pub proof fn replies_give_their_name(
    id: u16,
    flags: u16,
    qname: Seq<char>,
    ttl: (u16, u16),
    target: Seq<char>,
    other: u16,
)
    requires
        sendable(qname),
        sendable(target),
        flags >= 0x8000,
    ensures
        flags % 16 == 0 ==> reply_names(reply_bytes(id, flags, qname, ttl, target), id) == Some(
            seq![sanitized(target, 253)],
        ),
        flags % 16 != 0 ==> reply_names(reply_bytes(id, flags, qname, ttl, target), id) == Some(
            Seq::<Seq<char>>::empty(),
        ),
        other != id ==> reply_names(reply_bytes(id, flags, qname, ttl, target), other) is None,
{
    lemma_reply_layout(id, flags, qname, ttl, target);
    let m = reply_bytes(id, flags, qname, ttl, target);
    lemma_reply_read(m, qname, target);
}

proof fn lemma_reply_read(m: Seq<u8>, qname: Seq<char>, target: Seq<char>)
    requires
        sendable(qname),
        sendable(target),
        ({
            let name = encoded_name(qname);
            let data = encoded_name(target);
            let n = name.len() as int;
            let b = 16 + n;
            let c = b + n;
            let d = c + 10;
            &&& m.len() == d + data.len()
            &&& number_at(m, 4) == 1
            &&& number_at(m, 6) == 1
            &&& number_at(m, c) == 12
            &&& number_at(m, c + 8) == data.len()
            &&& m.subrange(12, 12 + n) == name
            &&& m.subrange(b, c) == name
            &&& m.subrange(d, d + data.len()) == data
        }),
    ensures
        questions_end(m, 12, 1) is Some,
        answers_at(m, questions_end(m, 12, 1)->0, 1) == Some(seq![sanitized(target, 253)]),
{
    let n = encoded_name(qname).len() as int;
    let size = encoded_name(target).len() as int;
    let b = 16 + n;
    let d = b + n + 10;
    written_names_read_back(m, 12, qname);
    written_names_read_back(m, b, qname);
    written_names_read_back(m, d, target);
    assert(questions_end(m, b, 0) == Some(b));
    assert(questions_end(m, 12, 1) == Some(b));
    assert(answers_at(m, d + size, 0) == Some(Seq::<Seq<char>>::empty()));
    let own = seq![sanitized(target, 253)];
    assert(own + Seq::<Seq<char>>::empty() =~= own);
}

proof fn lemma_reply_layout(
    id: u16,
    flags: u16,
    qname: Seq<char>,
    ttl: (u16, u16),
    target: Seq<char>,
)
    requires
        sendable(target),
    ensures
        ({
            let m = reply_bytes(id, flags, qname, ttl, target);
            let name = encoded_name(qname);
            let data = encoded_name(target);
            let n = name.len() as int;
            let b = 16 + n;
            let c = b + n;
            let d = c + 10;
            &&& m.len() == d + data.len()
            &&& number_at(m, 0) == id
            &&& number_at(m, 2) == flags
            &&& number_at(m, 4) == 1
            &&& number_at(m, 6) == 1
            &&& number_at(m, c) == 12
            &&& number_at(m, c + 8) == data.len()
            &&& m.subrange(12, 12 + n) == name
            &&& m.subrange(b, c) == name
            &&& m.subrange(d, d + data.len()) == data
        }),
{
    let m = reply_bytes(id, flags, qname, ttl, target);
    let name = encoded_name(qname);
    let data = encoded_name(target);
    let n = name.len() as int;
    let b = 16 + n;
    let c = b + n;
    let d = c + 10;
    let size = be16(data.len() as u16);
    assert(m[c] == be16(12)[0] && m[c + 1] == be16(12)[1]);
    assert(m[c + 8] == size[0] && m[c + 9] == size[1]);
    assert(m.subrange(12, 12 + n) =~= name);
    assert(m.subrange(b, c) =~= name);
    assert(m.subrange(d, d + data.len()) =~= data);
}

/// An answer that is no pointer says nothing, and reading goes on behind it.
pub proof fn other_answers_say_nothing(msg: Seq<u8>, pos: int, n: nat, name: Seq<char>, next: int)
    requires
        n > 0,
        name_at(msg, pos) == Some((name, next)),
        0 <= next,
        next + 10 + number_at(msg, next + 8) <= msg.len(),
        number_at(msg, next) != 12,
    ensures
        answers_at(msg, pos, n) == answers_at(
            msg,
            next + 10 + number_at(msg, next + 8),
            (n - 1) as nat,
        ),
{
    let end = next + 10 + number_at(msg, next + 8);
    if let Some(rest) = answers_at(msg, end, (n - 1) as nat) {
        assert(Seq::<Seq<char>>::empty() + rest =~= rest);
    }
}

/// The name server is that of the first line that names one by its address.
pub proof fn the_first_name_server_is_taken(lines: Seq<Seq<char>>, k: int, a: IpAddr)
    requires
        0 <= k < lines.len(),
        words_of(lines[k]).len() >= 2,
        words_of(lines[k])[0] == "nameserver"@,
        address_of(words_of(lines[k])[1]) == Some(a),
        forall|j: int|
            0 <= j < k ==> words_of(#[trigger] lines[j]).len() < 2 || words_of(lines[j])[0]
                != "nameserver"@ || address_of(words_of(lines[j])[1]) is None,
    ensures
        first_nameserver(lines) == Some(a),
    decreases lines.len(),
{
    if k > 0 {
        let rest = lines.drop_first();
        assert(rest[k - 1] == lines[k]);
        assert(words_of(lines[0]).len() < 2 || words_of(lines[0])[0] != "nameserver"@ || address_of(
            words_of(lines[0])[1],
        ) is None);
        assert forall|j: int| 0 <= j < k - 1 implies words_of(#[trigger] rest[j]).len() < 2
            || words_of(rest[j])[0] != "nameserver"@ || address_of(words_of(rest[j])[1]) is None by {
            assert(rest[j] == lines[j + 1]);
        }
        the_first_name_server_is_taken(rest, k - 1, a);
    }
}

/// Where no line names a server by its address, there is none.
pub proof fn no_name_server_is_made_up(lines: Seq<Seq<char>>)
    ensures
        first_nameserver(lines) matches Some(a) ==> exists|k: int|
            0 <= k < lines.len() && words_of(#[trigger] lines[k]).len() >= 2 && words_of(
                lines[k],
            )[0] == "nameserver"@ && address_of(words_of(lines[k])[1]) == Some(a),
    decreases lines.len(),
{
    if lines.len() > 0 {
        let rest = lines.drop_first();
        no_name_server_is_made_up(rest);
        if nameserver_on(lines[0]) is None {
            if let Some(a) = first_nameserver(rest) {
                let k = choose|k: int|
                    0 <= k < rest.len() && words_of(#[trigger] rest[k]).len() >= 2 && words_of(
                        rest[k],
                    )[0] == "nameserver"@ && address_of(words_of(rest[k])[1]) == Some(a);
                assert(lines[k + 1] == rest[k]);
            }
        } else {
            assert(words_of(lines[0]).len() >= 2);
        }
    }
}

} // verus!
