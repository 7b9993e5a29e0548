//! Internet addresses as numbers, how they are written and how they are read.

use vstd::prelude::*;

use crate::number::{
    all_digits, decimal, digit_char, digits_value, parse_digits, push_decimal, to_digit_char,
};
use crate::text::{push_str, slices, split, split_of};

verus! {

/// An internet address, by its bits: 32 of them or 128, the first octet on
/// top.
#[derive(Debug, Clone, Copy, PartialEq, Eq, Structural)]
pub enum IpAddr {
    V4(u32),
    V6(u128),
}

/// The octet of `bits` at `i`, counted from the top.
pub open spec fn octet(bits: nat, i: nat) -> nat
    decreases 3 - i,
{
    if i >= 3 {
        bits % 256
    } else {
        octet(bits / 256, i + 1)
    }
}

/// The 16-bit group of `bits` at `i`, counted from the top.
pub open spec fn group(bits: nat, i: nat) -> nat
    decreases 7 - i,
{
    if i >= 7 {
        bits % 65536
    } else {
        group(bits / 65536, i + 1)
    }
}

/// All eight groups of `bits`.
pub open spec fn groups(bits: nat) -> Seq<nat> {
    Seq::new(8, |i: int| group(bits, i as nat))
}

/// Hexadecimal digits of `n`, without leading zeros.
pub open spec fn hexadecimal(n: nat) -> Seq<char>
    decreases n,
{
    if n < 16 {
        seq![digit_char(n)]
    } else {
        hexadecimal(n / 16).push(digit_char(n % 16))
    }
}

pub open spec fn dotted(bits: nat) -> Seq<char> {
    decimal(octet(bits, 0)) + seq!['.'] + decimal(octet(bits, 1)) + seq!['.'] + decimal(
        octet(bits, 2),
    ) + seq!['.'] + decimal(octet(bits, 3))
}

/// Groups in hexadecimal with a colon between each two.
pub open spec fn coloned(groups: Seq<nat>) -> Seq<char>
    decreases groups.len(),
{
    if groups.len() == 0 {
        seq![]
    } else if groups.len() == 1 {
        hexadecimal(groups[0])
    } else {
        coloned(groups.drop_last()) + seq![':'] + hexadecimal(groups.last())
    }
}

/// How many zeros stand in `s` from `i` on.
pub open spec fn zeros_at(s: Seq<nat>, i: int) -> nat
    decreases s.len() - i,
{
    if i < 0 || i >= s.len() || s[i] != 0 {
        0
    } else {
        1 + zeros_at(s, i + 1)
    }
}

/// Where the longest run of zeros at or behind `i` starts (the first of
/// several), and how long it is.
pub open spec fn longest_zeros(s: Seq<nat>, i: int) -> (int, nat)
    decreases s.len() - i,
{
    if i < 0 || i >= s.len() {
        (i, 0)
    } else {
        let later = longest_zeros(s, i + 1);
        if zeros_at(s, i) > 0 && zeros_at(s, i) >= later.1 {
            (i, zeros_at(s, i))
        } else {
            later
        }
    }
}

/// The address stands for an IPv4 one.
pub open spec fn maps_v4(bits: nat) -> bool {
    bits / 0x1_0000_0000 == 0xffff
}

/// An IPv6 address: the longest run of at least two zero groups is left out,
/// and an address that stands for an IPv4 one shows it.
pub open spec fn coloned_address(bits: nat) -> Seq<char> {
    let g = groups(bits);
    let run = longest_zeros(g, 0);
    if maps_v4(bits) {
        "::ffff:"@ + dotted(bits % 0x1_0000_0000)
    } else if run.1 > 1 {
        coloned(g.take(run.0)) + "::"@ + coloned(g.skip(run.0 + run.1))
    } else {
        coloned(g)
    }
}

/// How an address is written.
pub open spec fn address_text(addr: IpAddr) -> Seq<char> {
    match addr {
        IpAddr::V4(bits) => dotted(bits as nat),
        IpAddr::V6(bits) => coloned_address(bits as nat),
    }
}

proof fn lemma_longest_zeros(s: Seq<nat>, i: int)
    requires
        0 <= i <= s.len(),
    ensures
        i <= longest_zeros(s, i).0 <= s.len(),
        longest_zeros(s, i).0 + longest_zeros(s, i).1 <= s.len(),
    decreases s.len() - i,
{
    if i < s.len() {
        lemma_longest_zeros(s, i + 1);
        lemma_zeros_at(s, i);
    }
}

proof fn lemma_zeros_at(s: Seq<nat>, i: int)
    requires
        0 <= i <= s.len(),
    ensures
        i + zeros_at(s, i) <= s.len(),
    decreases s.len() - i,
{
    if i < s.len() {
        lemma_zeros_at(s, i + 1);
    }
}

pub(crate) fn octets(bits: u32) -> (r: (u8, u8, u8, u8))
    ensures
        r.0 == octet(bits as nat, 0),
        r.1 == octet(bits as nat, 1),
        r.2 == octet(bits as nat, 2),
        r.3 == octet(bits as nat, 3),
{
    proof {
        reveal_with_fuel(octet, 4);
    }
    (
        (bits / 256 / 256 / 256 % 256) as u8,
        (bits / 256 / 256 % 256) as u8,
        (bits / 256 % 256) as u8,
        (bits % 256) as u8,
    )
}

fn push_dotted(out: &mut String, bits: u32)
    ensures
        final(out)@ == old(out)@ + dotted(bits as nat),
{
    let ghost before = out@;
    let (a, b, c, d) = octets(bits);
    push_decimal(out, a as u64);
    out.push('.');
    push_decimal(out, b as u64);
    out.push('.');
    push_decimal(out, c as u64);
    out.push('.');
    push_decimal(out, d as u64);
    assert(out@ == before + dotted(bits as nat));
}

pub fn push_hexadecimal(out: &mut String, n: u64)
    ensures
        final(out)@ == old(out)@ + hexadecimal(n as nat),
    decreases n,
{
    let ghost before = out@;
    if n >= 16 {
        push_hexadecimal(out, n / 16);
        out.push(to_digit_char((n % 16) as u8));
    } else {
        out.push(to_digit_char(n as u8));
    }
    assert(out@ == before + hexadecimal(n as nat));
}

pub open spec fn nats(s: Seq<u16>) -> Seq<nat> {
    s.map_values(|x: u16| x as nat)
}

pub(crate) fn split_groups(bits: u128) -> (r: Vec<u16>)
    ensures
        nats(r@) == groups(bits as nat),
{
    proof {
        reveal_with_fuel(group, 8);
    }
    let h: u128 = bits;
    let g: u128 = h / 65536;
    let f: u128 = g / 65536;
    let e: u128 = f / 65536;
    let d: u128 = e / 65536;
    let c: u128 = d / 65536;
    let b: u128 = c / 65536;
    let a: u128 = b / 65536;
    let r: Vec<u16> = vec![
        (a % 65536) as u16,
        (b % 65536) as u16,
        (c % 65536) as u16,
        (d % 65536) as u16,
        (e % 65536) as u16,
        (f % 65536) as u16,
        (g % 65536) as u16,
        (h % 65536) as u16,
    ];
    assert(nats(r@) == groups(bits as nat));
    r
}

fn push_coloned(out: &mut String, g: &[u16])
    ensures
        final(out)@ == old(out)@ + coloned(nats(g@)),
{
    let ghost before = out@;
    let ghost all = nats(g@);
    let mut i: usize = 0;
    assert(out@ == before + coloned(all.take(0)));
    while i < g.len()
        invariant
            i <= g.len(),
            all == nats(g@),
            out@ == before + coloned(all.take(i as int)),
        decreases g.len() - i,
    {
        let ghost sofar = out@;
        if i > 0 {
            out.push(':');
        }
        push_hexadecimal(out, g[i] as u64);
        assert(all.take(i + 1).drop_last() == all.take(i as int));
        assert(all.take(i + 1).last() == g@[i as int] as nat);
        assert(out@ == before + coloned(all.take(i + 1)));
        i = i + 1;
    }
    assert(all.take(i as int) == all);
}

fn longest_run(g: &Vec<u16>) -> (r: (usize, usize))
    ensures
        (r.0 as int, r.1 as nat) == longest_zeros(nats(g@), 0),
{
    let ghost all = nats(g@);
    let mut start: usize = g.len();
    let mut len: usize = 0;
    let mut here: usize = 0;
    let mut i: usize = g.len();
    while i > 0
        invariant
            i <= g.len(),
            all == nats(g@),
            here == zeros_at(all, i as int),
            (start as int, len as nat) == longest_zeros(all, i as int),
            i + here <= g.len(),
        decreases i,
    {
        i = i - 1;
        assert(all[i as int] == g@[i as int] as nat);
        here = if g[i] == 0 {
            here + 1
        } else {
            0
        };
        if here > 0 && here >= len {
            start = i;
            len = here;
        }
    }
    (start, len)
}

impl IpAddr {
    /// The IPv4 address with these octets.
    pub fn v4(a: u8, b: u8, c: u8, d: u8) -> (r: IpAddr)
        ensures
            r == IpAddr::V4((((a * 256 + b) * 256 + c) * 256 + d) as u32),
    {
        IpAddr::V4(((a as u32 * 256 + b as u32) * 256 + c as u32) * 256 + d as u32)
    }

    /// The text of the address.
    pub fn to_string(&self) -> (r: String)
        ensures
            r@ == address_text(*self),
    {
        let mut out: String = String::new();
        match *self {
            IpAddr::V4(bits) => {
                push_dotted(&mut out, bits);
            },
            IpAddr::V6(bits) => {
                if bits / 0x1_0000_0000 == 0xffff {
                    push_str(&mut out, "::ffff:");
                    push_dotted(&mut out, (bits % 0x1_0000_0000) as u32);
                } else {
                    let g = split_groups(bits);
                    let ghost all = groups(bits as nat);
                    let (start, len) = longest_run(&g);
                    proof {
                        lemma_longest_zeros(all, 0);
                    }
                    if len > 1 {
                        push_coloned(&mut out, &g.as_slice()[0..start]);
                        push_str(&mut out, "::");
                        push_coloned(&mut out, &g.as_slice()[start + len..g.len()]);
                        assert(nats(g@.subrange(0, start as int)) == all.take(start as int));
                        assert(nats(g@.subrange(start + len, g@.len() as int)) == all.skip(
                            start + len,
                        ));
                    } else {
                        push_coloned(&mut out, g.as_slice());
                    }
                }
            },
        }
        assert(out@ == address_text(*self));
        out
    }
}

// ---------------------------------------------------------------------------
// Reading an address
// ---------------------------------------------------------------------------
/// The number of an octet in decimal: up to three digits, no zero in front of
/// others.
pub open spec fn octet_of(s: Seq<char>) -> Option<nat> {
    if 1 <= s.len() <= 3 && (s[0] != '0' || s.len() == 1) && all_digits(s, 10) && digits_value(
        s,
        10,
    ) <= 255 {
        Some(digits_value(s, 10))
    } else {
        None
    }
}

/// The bits that four octets with dots between them write.
pub open spec fn dotted_of(s: Seq<char>) -> Option<nat> {
    let p = split_of(s, '.');
    if p.len() == 4 && octet_of(p[0]) is Some && octet_of(p[1]) is Some && octet_of(p[2]) is Some
        && octet_of(p[3]) is Some {
        Some(
            ((octet_of(p[0])->0 * 256 + octet_of(p[1])->0) * 256 + octet_of(p[2])->0) * 256
                + octet_of(p[3])->0,
        )
    } else {
        None
    }
}

/// The number of a group: up to four hexadecimal digits.
pub open spec fn group_of(s: Seq<char>) -> Option<nat> {
    if 1 <= s.len() <= 4 && all_digits(s, 16) && digits_value(s, 16) <= 65535 {
        Some(digits_value(s, 16))
    } else {
        None
    }
}

/// The groups that the parts write, each by itself; the last part may be an
/// IPv4 address in place of two groups, where that is allowed.
pub open spec fn groups_of(parts: Seq<Seq<char>>, v4: bool) -> Option<Seq<nat>>
    decreases parts.len(),
{
    if parts.len() == 0 {
        Some(seq![])
    } else if parts.len() == 1 && v4 && dotted_of(parts[0]) is Some {
        let bits = dotted_of(parts[0])->0;
        Some(seq![bits / 65536, bits % 65536])
    } else {
        match (group_of(parts[0]), groups_of(parts.drop_first(), v4)) {
            (Some(g), Some(rest)) => Some(seq![g] + rest),
            _ => None,
        }
    }
}

/// Where the first two colons in a row stand; the length of `s` where there
/// are none.
pub open spec fn gap_at(s: Seq<char>) -> nat
    decreases s.len(),
{
    if s.len() == 0 {
        0
    } else if s.len() >= 2 && s[0] == ':' && s[1] == ':' {
        0
    } else {
        1 + gap_at(s.drop_first())
    }
}

/// The groups on one side of the gap.
pub open spec fn side_of(s: Seq<char>, v4: bool) -> Option<Seq<nat>> {
    if s.len() == 0 {
        Some(seq![])
    } else {
        groups_of(split_of(s, ':'), v4)
    }
}

/// The number whose eight groups are `g`.
pub open spec fn bits_of(g: Seq<nat>) -> nat {
    ((((((g[0] * 65536 + g[1]) * 65536 + g[2]) * 65536 + g[3]) * 65536 + g[4]) * 65536 + g[5])
        * 65536 + g[6]) * 65536 + g[7]
}

/// The bits of an IPv6 address: eight groups, or fewer around two colons that
/// stand for at least one group of zero.
pub open spec fn coloned_of(s: Seq<char>) -> Option<nat> {
    let gap = gap_at(s) as int;
    if gap >= s.len() {
        match side_of(s, true) {
            Some(g) => if g.len() == 8 {
                Some(bits_of(g))
            } else {
                None
            },
            None => None,
        }
    } else {
        match (side_of(s.take(gap), false), side_of(s.skip(gap + 2), true)) {
            (Some(head), Some(tail)) => if head.len() + tail.len() <= 7 {
                Some(
                    bits_of(
                        head + Seq::new((8 - head.len() - tail.len()) as nat, |i: int| 0nat) + tail,
                    ),
                )
            } else {
                None
            },
            _ => None,
        }
    }
}

/// The address that a text writes, if it writes one.
pub open spec fn address_of(s: Seq<char>) -> Option<IpAddr> {
    match dotted_of(s) {
        Some(bits) => Some(IpAddr::V4(bits as u32)),
        None => match coloned_of(s) {
            Some(bits) => Some(IpAddr::V6(bits as u128)),
            None => None,
        },
    }
}

fn parse_octet(s: &[char]) -> (r: Option<u32>)
    ensures
        r == (match octet_of(s@) {
            Some(n) => Some(n as u32),
            None => None,
        }),
        r is Some ==> r->0 <= 255 && octet_of(s@)->0 == r->0,
{
    if s.len() < 1 || s.len() > 3 || (s[0] == '0' && s.len() != 1) {
        return None;
    }
    match parse_digits(s, 10, 255) {
        Some(n) => Some(n as u32),
        None => None,
    }
}

fn parse_dotted(s: &[char]) -> (r: Option<u32>)
    ensures
        r == (match dotted_of(s@) {
            Some(n) => Some(n as u32),
            None => None,
        }),
        r is Some ==> dotted_of(s@)->0 == r->0,
{
    let p = split(s, '.');
    let ghost parts = slices(p@);
    if p.len() != 4 {
        return None;
    }
    assert(parts[0] == p@[0]@ && parts[1] == p@[1]@ && parts[2] == p@[2]@ && parts[3] == p@[3]@);
    match (parse_octet(p[0]), parse_octet(p[1]), parse_octet(p[2]), parse_octet(p[3])) {
        (Some(a), Some(b), Some(c), Some(d)) => Some(((a * 256 + b) * 256 + c) * 256 + d),
        _ => None,
    }
}

fn parse_group(s: &[char]) -> (r: Option<u16>)
    ensures
        r == (match group_of(s@) {
            Some(n) => Some(n as u16),
            None => None,
        }),
        r is Some ==> group_of(s@)->0 == r->0,
{
    if s.len() < 1 || s.len() > 4 {
        return None;
    }
    match parse_digits(s, 16, 65535) {
        Some(n) => Some(n as u16),
        None => None,
    }
}

pub open spec fn nats_option(r: Option<Vec<u16>>) -> Option<Seq<nat>> {
    match r {
        Some(v) => Some(nats(v@)),
        None => None,
    }
}

fn parse_groups(parts: &Vec<&[char]>, v4: bool) -> (r: Option<Vec<u16>>)
    ensures
        nats_option(r) == groups_of(slices(parts@), v4),
{
    let ghost all = slices(parts@);
    let mut out: Vec<u16> = Vec::new();
    let mut i: usize = 0;
    assert(all.skip(0) == all);
    while i < parts.len()
        invariant
            i <= parts.len(),
            all == slices(parts@),
            groups_of(all, v4) == (match groups_of(all.skip(i as int), v4) {
                Some(rest) => Some(nats(out@) + rest),
                None => None,
            }),
        decreases parts.len() - i,
    {
        let ghost here = all.skip(i as int);
        let ghost before = nats(out@);
        assert(here[0] == parts@[i as int]@);
        assert(here.drop_first() == all.skip(i + 1));
        if i + 1 == parts.len() && v4 {
            if let Some(bits) = parse_dotted(parts[i]) {
                out.push((bits / 65536) as u16);
                out.push((bits % 65536) as u16);
                assert(nats(out@) == before + seq![
                    (bits / 65536) as nat,
                    (bits % 65536) as nat,
                ]);
                return Some(out);
            }
        }
        match parse_group(parts[i]) {
            Some(g) => {
                out.push(g);
                assert(nats(out@) == before + seq![g as nat]);
                proof {
                    if let Some(rest) = groups_of(all.skip(i + 1), v4) {
                        assert(before + (seq![g as nat] + rest) == nats(out@) + rest);
                    }
                }
            },
            None => {
                return None;
            },
        }
        i = i + 1;
    }
    assert(all.skip(i as int) == Seq::<Seq<char>>::empty());
    assert(nats(out@) + Seq::<nat>::empty() == nats(out@));
    Some(out)
}

fn parse_side(s: &[char], v4: bool) -> (r: Option<Vec<u16>>)
    ensures
        nats_option(r) == side_of(s@, v4),
{
    if s.len() == 0 {
        let none: Vec<u16> = Vec::new();
        assert(nats(none@) == Seq::<nat>::empty());
        return Some(none);
    }
    parse_groups(&split(s, ':'), v4)
}

fn find_gap(s: &[char]) -> (r: usize)
    ensures
        r == gap_at(s@),
        r <= s.len(),
        r < s.len() ==> r + 2 <= s.len(),
{
    let mut i: usize = 0;
    assert(s@.skip(0) == s@);
    while i < s.len()
        invariant
            i <= s.len(),
            gap_at(s@) == i + gap_at(s@.skip(i as int)),
        decreases s.len() - i,
    {
        let ghost here = s@.skip(i as int);
        assert(here.drop_first() == s@.skip(i + 1));
        if s[i] == ':' && s.len() - i >= 2 && s[i + 1] == ':' {
            assert(here[0] == ':' && here[1] == ':');
            return i;
        }
        assert(here[0] == s@[i as int]);
        assert(here.len() >= 2 ==> here[1] == s@[i + 1]);
        i = i + 1;
    }
    i
}

fn join_groups(g: &Vec<u16>) -> (r: u128)
    requires
        g.len() == 8,
    ensures
        r == bits_of(nats(g@)),
{
    let ghost n = nats(g@);
    assert(n[0] == g@[0] && n[1] == g@[1] && n[2] == g@[2] && n[3] == g@[3] && n[4] == g@[4] && n[5]
        == g@[5] && n[6] == g@[6] && n[7] == g@[7]);
    ((((((g[0] as u128 * 65536 + g[1] as u128) * 65536 + g[2] as u128) * 65536 + g[3] as u128)
        * 65536 + g[4] as u128) * 65536 + g[5] as u128) * 65536 + g[6] as u128) * 65536
        + g[7] as u128
}

fn parse_coloned(s: &[char]) -> (r: Option<u128>)
    ensures
        r == (match coloned_of(s@) {
            Some(n) => Some(n as u128),
            None => None,
        }),
{
    let gap: usize = find_gap(s);
    if gap == s.len() {
        return match parse_side(s, true) {
            Some(g) => {
                assert(nats(g@).len() == g@.len());
                if g.len() == 8 {
                    Some(join_groups(&g))
                } else {
                    None
                }
            },
            None => None,
        };
    }
    let front: &[char] = &s[0..gap];
    let back: &[char] = &s[gap + 2..s.len()];
    assert(front@ == s@.take(gap as int));
    assert(back@ == s@.skip(gap + 2));
    match (parse_side(front, false), parse_side(back, true)) {
        (Some(head), Some(tail)) => {
            let ghost hs = nats(head@);
            let ghost ts = nats(tail@);
            assert(hs.len() == head@.len() && ts.len() == tail@.len());
            if head.len() > 7 || tail.len() > 7 - head.len() {
                return None;
            }
            let mut g: Vec<u16> = head;
            let zeros: usize = 8 - g.len() - tail.len();
            let ghost zs = Seq::new(zeros as nat, |i: int| 0nat);
            let mut i: usize = 0;
            while i < zeros
                invariant
                    i <= zeros,
                    zs == Seq::new(zeros as nat, |i: int| 0nat),
                    nats(g@) == hs + zs.take(i as int),
                decreases zeros - i,
            {
                let ghost before = nats(g@);
                g.push(0);
                i = i + 1;
                assert(nats(g@) == before.push(0nat));
                assert(zs.take(i as int) == zs.take(i - 1).push(0nat));
                assert(nats(g@) == hs + zs.take(i as int));
            }
            assert(zs.take(i as int) == zs);
            let mut k: usize = 0;
            while k < tail.len()
                invariant
                    k <= tail.len(),
                    ts == nats(tail@),
                    nats(g@) == hs + zs + ts.take(k as int),
                decreases tail.len() - k,
            {
                let ghost before = nats(g@);
                g.push(tail[k]);
                assert(ts[k as int] == tail@[k as int] as nat);
                assert(nats(g@) == before.push(ts[k as int]));
                k = k + 1;
                assert(ts.take(k as int) == ts.take(k - 1).push(ts[k - 1]));
                assert(nats(g@) == hs + zs + ts.take(k as int));
            }
            assert(ts.take(k as int) == ts);
            assert(nats(g@).len() == g@.len());
            Some(join_groups(&g))
        },
        _ => None,
    }
}

/// Reads an IPv4 or IPv6 address from its whole text.
pub fn parse_address(s: &[char]) -> (r: Option<IpAddr>)
    ensures
        r == address_of(s@),
{
    match parse_dotted(s) {
        Some(bits) => Some(IpAddr::V4(bits)),
        None => match parse_coloned(s) {
            Some(bits) => Some(IpAddr::V6(bits)),
            None => None,
        },
    }
}

} // verus!
