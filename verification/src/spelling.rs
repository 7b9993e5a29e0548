//! How addresses are spelled: what is written of an address reads back as that
//! address, and no other has the same spelling.

use vstd::prelude::*;

use crate::addr::{
    address_of, address_text, bits_of, coloned, coloned_address, coloned_of, dotted, dotted_of,
    gap_at, group, group_of, groups, groups_of, hexadecimal, longest_zeros, maps_v4, octet,
    octet_of, side_of, zeros_at, IpAddr,
};
use crate::collectors::connections::public_ip;
use crate::number::{all_digits, decimal, digit_char, digit_of, digits_value, lemma_decimal_digits};
use crate::text::{index_of, lemma_index_of, lemma_index_of_is, split_of};

verus! {

// ---------------------------------------------------------------------------
// Splitting
// ---------------------------------------------------------------------------
proof fn lemma_split_none(s: Seq<char>, c: char)
    requires
        forall|i: int| 0 <= i < s.len() ==> s[i] != c,
    ensures
        split_of(s, c) == seq![s],
{
    lemma_index_of_is(s, c, s.len() as int);
}

/// A text that is split is split on either side of each separator by itself.
pub proof fn splitting_parts_at_every_separator(a: Seq<char>, b: Seq<char>, c: char)
    ensures
        split_of(a + seq![c] + b, c) == split_of(a, c) + split_of(b, c),
    decreases a.len(),
{
    let s = a + seq![c] + b;
    lemma_index_of(a, c);
    let n = index_of(a, c) as int;
    if n < a.len() {
        assert forall|i: int| 0 <= i < n implies s[i] != c by {
            assert(s[i] == a[i]);
        }
        lemma_index_of_is(s, c, n);
        assert(s.take(n) =~= a.take(n));
        assert(s.skip(n + 1) =~= a.skip(n + 1) + seq![c] + b);
        splitting_parts_at_every_separator(a.skip(n + 1), b, c);
        assert(seq![a.take(n)] + (split_of(a.skip(n + 1), c) + split_of(b, c)) =~= split_of(a, c)
            + split_of(b, c));
    } else {
        assert forall|i: int| 0 <= i < a.len() implies s[i] != c by {
            assert(s[i] == a[i]);
        }
        lemma_index_of_is(s, c, a.len() as int);
        assert(s.take(a.len() as int) =~= a);
        assert(s.skip(a.len() as int + 1) =~= b);
    }
}

// ---------------------------------------------------------------------------
// IPv4
// ---------------------------------------------------------------------------
/// The four octets of an address make up the address.
pub proof fn octets_make_up_the_address(bits: nat)
    requires
        bits < 0x1_0000_0000,
    ensures
        bits == ((octet(bits, 0) * 256 + octet(bits, 1)) * 256 + octet(bits, 2)) * 256 + octet(
            bits,
            3,
        ),
        octet(bits, 0) < 256,
        octet(bits, 1) < 256,
        octet(bits, 2) < 256,
        octet(bits, 3) < 256,
{
    reveal_with_fuel(octet, 5);
}

proof fn lemma_octet(n: nat)
    requires
        n < 256,
    ensures
        octet_of(decimal(n)) == Some(n),
{
    lemma_decimal_digits(n);
    reveal_with_fuel(decimal, 4);
    if n >= 100 {
        assert(decimal(n)[0] == digit_char(n / 10 / 10));
    } else if n >= 10 {
        assert(decimal(n)[0] == digit_char(n / 10));
    }
}

proof fn lemma_no_mark(n: nat, c: char)
    requires
        c == '.' || c == ':',
    ensures
        forall|i: int| 0 <= i < decimal(n).len() ==> decimal(n)[i] != c,
{
    lemma_decimal_digits(n);
    assert forall|i: int| 0 <= i < decimal(n).len() implies decimal(n)[i] != c by {
        assert(digit_of(decimal(n)[i], 10) is Some);
    }
}

proof fn lemma_dotted_pieces(bits: nat)
    ensures
        split_of(dotted(bits), '.') == seq![
            decimal(octet(bits, 0)),
            decimal(octet(bits, 1)),
            decimal(octet(bits, 2)),
            decimal(octet(bits, 3)),
        ],
{
    let (a, b, c, d) = (
        decimal(octet(bits, 0)),
        decimal(octet(bits, 1)),
        decimal(octet(bits, 2)),
        decimal(octet(bits, 3)),
    );
    lemma_no_mark(octet(bits, 0), '.');
    lemma_no_mark(octet(bits, 1), '.');
    lemma_no_mark(octet(bits, 2), '.');
    lemma_no_mark(octet(bits, 3), '.');
    lemma_split_none(a, '.');
    lemma_split_none(b, '.');
    lemma_split_none(c, '.');
    lemma_split_none(d, '.');
    splitting_parts_at_every_separator(a, b, '.');
    splitting_parts_at_every_separator(a + seq!['.'] + b, c, '.');
    splitting_parts_at_every_separator(a + seq!['.'] + b + seq!['.'] + c, d, '.');
    assert(seq![a] + seq![b] + seq![c] + seq![d] =~= seq![a, b, c, d]);
}

proof fn lemma_dotted(bits: nat)
    requires
        bits < 0x1_0000_0000,
    ensures
        dotted_of(dotted(bits)) == Some(bits),
{
    lemma_dotted_pieces(bits);
    octets_make_up_the_address(bits);
    lemma_octet(octet(bits, 0));
    lemma_octet(octet(bits, 1));
    lemma_octet(octet(bits, 2));
    lemma_octet(octet(bits, 3));
}

// ---------------------------------------------------------------------------
// IPv6
// ---------------------------------------------------------------------------
/// The eight groups of an address make up the address.
pub proof fn groups_make_up_the_address(bits: nat)
    requires
        bits <= u128::MAX,
    ensures
        groups(bits).len() == 8,
        bits_of(groups(bits)) == bits,
        forall|i: int| 0 <= i < 8 ==> #[trigger] groups(bits)[i] < 65536,
{
    reveal_with_fuel(group, 9);
    let g = groups(bits);
    assert(g[0] == group(bits, 0) && g[1] == group(bits, 1) && g[2] == group(bits, 2) && g[3]
        == group(bits, 3) && g[4] == group(bits, 4) && g[5] == group(bits, 5) && g[6] == group(
        bits,
        6,
    ) && g[7] == group(bits, 7));
    let b1 = bits / 65536;
    let b2 = b1 / 65536;
    let b3 = b2 / 65536;
    let b4 = b3 / 65536;
    let b5 = b4 / 65536;
    let b6 = b5 / 65536;
    let b7 = b6 / 65536;
    assert(b7 < 65536);
    assert(group(bits, 7) == bits % 65536);
    assert(group(bits, 6) == b1 % 65536);
    assert(group(bits, 5) == b2 % 65536);
    assert(group(bits, 4) == b3 % 65536);
    assert(group(bits, 3) == b4 % 65536);
    assert(group(bits, 2) == b5 % 65536);
    assert(group(bits, 1) == b6 % 65536);
    assert(group(bits, 0) == b7 % 65536);
    assert forall|i: int| 0 <= i < 8 implies #[trigger] g[i] < 65536 by {
        assert(g[i] == group(bits, i as nat));
    }
}

/// The hexadecimal digits of a number write that number, without a zero in front.
pub proof fn hexadecimal_writes_the_number(n: nat)
    ensures
        hexadecimal(n).len() > 0,
        all_digits(hexadecimal(n), 16),
        digits_value(hexadecimal(n), 16) == n,
        hexadecimal(n)[0] == '0' ==> n == 0,
        n == 0 ==> hexadecimal(n).len() == 1,
    decreases n,
{
    let s = hexadecimal(n);
    if n >= 16 {
        hexadecimal_writes_the_number(n / 16);
        let t = hexadecimal(n / 16);
        assert(s.drop_last() == t);
        assert(digit_of(s.last(), 16) == Some(n % 16));
        assert forall|i: int| 0 <= i < s.len() implies digit_of(#[trigger] s[i], 16) is Some by {
            if i < t.len() {
                assert(s[i] == t[i]);
            }
        }
        assert(s[0] == t[0]);
    } else {
        assert(s.drop_last() == Seq::<char>::empty());
        assert(digit_of(s.last(), 16) == Some(n));
        assert(digits_value(Seq::<char>::empty(), 16) == 0);
    }
}

proof fn lemma_group(n: nat)
    requires
        n < 65536,
    ensures
        group_of(hexadecimal(n)) == Some(n),
        forall|i: int|
            0 <= i < hexadecimal(n).len() ==> hexadecimal(n)[i] != ':' && hexadecimal(n)[i] != '.',
{
    hexadecimal_writes_the_number(n);
    reveal_with_fuel(hexadecimal, 5);
    assert(hexadecimal(n).len() <= 4);
    assert forall|i: int| 0 <= i < hexadecimal(n).len() implies hexadecimal(n)[i] != ':'
        && hexadecimal(n)[i] != '.' by {
        assert(digit_of(hexadecimal(n)[i], 16) is Some);
    }
}

spec fn small(g: Seq<nat>) -> bool {
    forall|i: int| 0 <= i < g.len() ==> #[trigger] g[i] < 65536
}

spec fn hexed(g: Seq<nat>) -> Seq<Seq<char>> {
    g.map_values(|n: nat| hexadecimal(n))
}

proof fn lemma_coloned_pieces(g: Seq<nat>)
    requires
        g.len() > 0,
        small(g),
    ensures
        split_of(coloned(g), ':') == hexed(g),
    decreases g.len(),
{
    let last = g.last();
    assert(last == g[g.len() - 1]);
    lemma_group(last);
    lemma_split_none(hexadecimal(last), ':');
    if g.len() == 1 {
        assert(hexed(g) =~= seq![hexadecimal(g[0])]);
    } else {
        let front = g.drop_last();
        assert(small(front)) by {
            assert forall|i: int| 0 <= i < front.len() implies #[trigger] front[i] < 65536 by {
                assert(front[i] == g[i]);
            }
        }
        lemma_coloned_pieces(front);
        splitting_parts_at_every_separator(coloned(front), hexadecimal(last), ':');
        assert(hexed(g) =~= hexed(front) + seq![hexadecimal(last)]);
    }
}

spec fn doubled(s: Seq<char>, i: int) -> bool {
    0 <= i && i + 1 < s.len() && s[i] == ':' && s[i + 1] == ':'
}

/// No two colons in a row, none at either end, and no dot.
proof fn lemma_coloned_shape(g: Seq<nat>)
    requires
        g.len() > 0,
        small(g),
    ensures
        coloned(g).len() > 0,
        coloned(g)[0] != ':',
        coloned(g).last() != ':',
        forall|i: int| !#[trigger] doubled(coloned(g), i),
        forall|i: int| 0 <= i < coloned(g).len() ==> coloned(g)[i] != '.',
    decreases g.len(),
{
    let last = g.last();
    assert(last == g[g.len() - 1]);
    lemma_group(last);
    hexadecimal_writes_the_number(last);
    let h = hexadecimal(last);
    let s = coloned(g);
    if g.len() == 1 {
        assert(s == h);
    } else {
        let front = g.drop_last();
        assert(small(front)) by {
            assert forall|i: int| 0 <= i < front.len() implies #[trigger] front[i] < 65536 by {
                assert(front[i] == g[i]);
            }
        }
        lemma_coloned_shape(front);
        let f = coloned(front);
        let n = f.len() as int;
        assert(s == f + seq![':'] + h);
        assert forall|i: int| !#[trigger] doubled(s, i) by {
            if doubled(s, i) {
                if i + 1 < n {
                    assert(s[i] == f[i] && s[i + 1] == f[i + 1]);
                    assert(doubled(f, i));
                } else if i + 1 == n {
                    assert(s[i] == f[n - 1]);
                } else {
                    assert(s[i + 1] == h[i - n]);
                }
            }
        }
        assert forall|i: int| 0 <= i < s.len() implies s[i] != '.' by {
            if i < n {
                assert(s[i] == f[i]);
            } else if i > n {
                assert(s[i] == h[i - n - 1]);
            }
        }
        assert(s.last() == h.last());
        assert(s[0] == f[0]);
    }
}

proof fn lemma_gap(s: Seq<char>, n: int)
    requires
        0 <= n <= s.len(),
        forall|i: int| 0 <= i < n ==> !#[trigger] doubled(s, i),
        n < s.len() ==> doubled(s, n),
    ensures
        gap_at(s) == n,
    decreases s.len(),
{
    if s.len() > 0 {
        let t = s.drop_first();
        if n > 0 {
            assert(!doubled(s, 0));
            assert forall|i: int| 0 <= i < n - 1 implies !#[trigger] doubled(t, i) by {
                assert(!doubled(s, i + 1));
            }
            lemma_gap(t, n - 1);
        } else {
            assert(doubled(s, 0));
        }
    }
}

proof fn lemma_no_dots(s: Seq<char>)
    requires
        forall|i: int| 0 <= i < s.len() ==> s[i] != '.',
    ensures
        dotted_of(s) is None,
{
    lemma_split_none(s, '.');
}

proof fn lemma_groups_of(g: Seq<nat>, v4: bool)
    requires
        small(g),
    ensures
        groups_of(hexed(g), v4) == Some(g),
    decreases g.len(),
{
    let parts = hexed(g);
    if g.len() > 0 {
        assert(g[0] < 65536);
        lemma_group(g[0]);
        assert(parts[0] == hexadecimal(g[0]));
        lemma_no_dots(parts[0]);
        let rest = g.drop_first();
        assert(small(rest)) by {
            assert forall|i: int| 0 <= i < rest.len() implies #[trigger] rest[i] < 65536 by {
                assert(rest[i] == g[i + 1]);
            }
        }
        lemma_groups_of(rest, v4);
        assert(parts.drop_first() =~= hexed(rest));
        assert(seq![g[0]] + rest =~= g);
    } else {
        assert(groups_of(parts, v4) == Some(Seq::<nat>::empty()));
    }
}

proof fn lemma_side(g: Seq<nat>, v4: bool)
    requires
        small(g),
    ensures
        side_of(coloned(g), v4) == Some(g),
{
    if g.len() > 0 {
        lemma_coloned_shape(g);
        lemma_coloned_pieces(g);
        lemma_groups_of(g, v4);
    } else {
        assert(g =~= Seq::<nat>::empty());
    }
}

proof fn lemma_zeros(s: Seq<nat>, i: int)
    requires
        0 <= i <= s.len(),
    ensures
        i + zeros_at(s, i) <= s.len(),
        forall|k: int| i <= k < i + zeros_at(s, i) ==> s[k] == 0,
        i + zeros_at(s, i) < s.len() ==> s[i + zeros_at(s, i)] != 0,
    decreases s.len() - i,
{
    if i < s.len() && s[i] == 0 {
        lemma_zeros(s, i + 1);
    }
}

/// So many zeros stand in a row from there on.
pub open spec fn zeros_from(s: Seq<nat>, at: int, n: int) -> bool {
    0 <= at && 0 <= n && at + n <= s.len() && forall|k: int| at <= k < at + n ==> s[k] == 0
}

proof fn lemma_longest(s: Seq<nat>, i: int)
    requires
        0 <= i <= s.len(),
    ensures
        i <= longest_zeros(s, i).0,
        zeros_from(s, longest_zeros(s, i).0, longest_zeros(s, i).1 as int),
        forall|at: int, n: int| #[trigger]
            zeros_from(s, at, n) && i <= at ==> n <= longest_zeros(s, i).1 && (n > 0 && n
                == longest_zeros(s, i).1 ==> longest_zeros(s, i).0 <= at),
    decreases s.len() - i,
{
    lemma_zeros(s, i);
    if i < s.len() {
        lemma_longest(s, i + 1);
        assert forall|at: int, n: int| #[trigger] zeros_from(s, at, n) && i <= at implies n
            <= longest_zeros(s, i).1 && (n > 0 && n == longest_zeros(s, i).1 ==> longest_zeros(
            s,
            i,
        ).0 <= at) by {
            if at == i {
                if n > zeros_at(s, i) {
                    assert(s[i + zeros_at(s, i)] == 0);
                }
            }
        }
    }
}

/// What is left out of a written address is a run of zero groups; none is longer,
/// and of several the first is taken.
pub proof fn the_longest_zeros_are_left_out(s: Seq<nat>)
    ensures
        zeros_from(s, longest_zeros(s, 0).0, longest_zeros(s, 0).1 as int),
        forall|at: int, n: int| #[trigger]
            zeros_from(s, at, n) ==> n <= longest_zeros(s, 0).1 && (n > 0 && n == longest_zeros(
                s,
                0,
            ).1 ==> longest_zeros(s, 0).0 <= at),
{
    lemma_longest(s, 0);
}

proof fn lemma_compressed(g: Seq<nat>, at: int, n: int)
    requires
        g.len() == 8,
        small(g),
        zeros_from(g, at, n),
        n >= 2,
    ensures
        ({
            let s = coloned(g.take(at)) + "::"@ + coloned(g.skip(at + n));
            &&& coloned_of(s) == Some(bits_of(g))
            &&& dotted_of(s) is None
        }),
{
    reveal_strlit("::");
    let (a, b) = (g.take(at), g.skip(at + n));
    assert(small(a)) by {
        assert forall|i: int| 0 <= i < a.len() implies #[trigger] a[i] < 65536 by {
            assert(a[i] == g[i]);
        }
    }
    assert(small(b)) by {
        assert forall|i: int| 0 <= i < b.len() implies #[trigger] b[i] < 65536 by {
            assert(b[i] == g[i + at + n]);
        }
    }
    let (x, y) = (coloned(a), coloned(b));
    let s = x + "::"@ + y;
    let k = x.len() as int;
    if a.len() > 0 {
        lemma_coloned_shape(a);
    }
    if b.len() > 0 {
        lemma_coloned_shape(b);
    }
    assert(doubled(s, k));
    assert forall|i: int| 0 <= i < k implies !#[trigger] doubled(s, i) by {
        assert(s[i] == x[i]);
        if i + 1 < k {
            assert(s[i + 1] == x[i + 1]);
            assert(!doubled(x, i));
        }
    }
    lemma_gap(s, k);
    assert(s.take(k) =~= x);
    assert(s.skip(k + 2) =~= y);
    lemma_side(a, false);
    lemma_side(b, true);
    let filled = a + Seq::new((8 - a.len() - b.len()) as nat, |i: int| 0nat) + b;
    assert(filled =~= g);
    assert forall|i: int| 0 <= i < s.len() implies s[i] != '.' by {
        if i < k {
            assert(s[i] == x[i]);
        } else if i >= k + 2 {
            assert(s[i] == y[i - k - 2]);
        }
    }
    lemma_no_dots(s);
}

proof fn lemma_plain(g: Seq<nat>)
    requires
        g.len() == 8,
        small(g),
    ensures
        coloned_of(coloned(g)) == Some(bits_of(g)),
        dotted_of(coloned(g)) is None,
{
    lemma_coloned_shape(g);
    lemma_gap(coloned(g), coloned(g).len() as int);
    lemma_side(g, true);
    lemma_no_dots(coloned(g));
}

proof fn lemma_mapped(low: nat)
    requires
        low < 0x1_0000_0000,
    ensures
        ({
            let s = "::ffff:"@ + dotted(low);
            &&& coloned_of(s) == Some((0xffff_0000_0000 + low) as nat)
            &&& dotted_of(s) is None
        }),
{
    reveal_strlit("::ffff:");
    let d = dotted(low);
    let s = "::ffff:"@ + d;
    let f = seq!['f', 'f', 'f', 'f'];
    assert(doubled(s, 0));
    lemma_gap(s, 0);
    let tail = s.skip(2);
    assert(tail =~= f + seq![':'] + d);
    assert(s.take(0) =~= Seq::<char>::empty());
    lemma_split_none(f, ':');
    lemma_dotted_has_no_colon(low);
    lemma_split_none(d, ':');
    splitting_parts_at_every_separator(f, d, ':');
    let parts = split_of(tail, ':');
    assert(parts =~= seq![f, d]);
    lemma_dotted(low);
    assert(group_of(f) == Some(65535nat)) by {
        reveal_with_fuel(digits_value, 5);
        assert(f.drop_last() =~= seq!['f', 'f', 'f']);
        assert(f.drop_last().drop_last() =~= seq!['f', 'f']);
        assert(f.drop_last().drop_last().drop_last() =~= seq!['f']);
        assert(f.drop_last().drop_last().drop_last().drop_last() =~= Seq::<char>::empty());
        assert(digit_of('f', 16) == Some(15nat));
    }
    assert(parts.drop_first() =~= seq![d]);
    let (hi, lo) = (low / 65536, low % 65536);
    assert(groups_of(seq![d], true) == Some(seq![hi, lo]));
    assert(groups_of(parts, true) == Some(seq![65535nat] + seq![hi, lo]));
    let t = seq![65535nat] + seq![hi, lo];
    let filled = Seq::<nat>::empty() + Seq::new(5, |i: int| 0nat) + t;
    assert(side_of(s.take(0), false) == Some(Seq::<nat>::empty()));
    assert(filled.len() == 8 && filled[0] == 0 && filled[1] == 0 && filled[2] == 0 && filled[3] == 0
        && filled[4] == 0 && filled[5] == 65535 && filled[6] == hi && filled[7] == lo);
    assert(bits_of(filled) == 0xffff_0000_0000 + low);
    // The first piece between dots begins with a colon, which no octet does.
    lemma_index_of(s, '.');
    let n = index_of(s, '.') as int;
    if n < s.len() {
        if n == 0 {
            assert(s[0] == '.');
        }
        assert(s.take(n)[0] == ':');
        assert(split_of(s, '.')[0] == s.take(n));
        assert(digit_of(s.take(n)[0], 10) is None);
        assert(octet_of(s.take(n)) is None);
    }
}

proof fn lemma_dotted_has_no_colon(bits: nat)
    ensures
        forall|i: int| 0 <= i < dotted(bits).len() ==> dotted(bits)[i] != ':',
{
    lemma_no_mark(octet(bits, 0), ':');
    lemma_no_mark(octet(bits, 1), ':');
    lemma_no_mark(octet(bits, 2), ':');
    lemma_no_mark(octet(bits, 3), ':');
}

proof fn lemma_coloned_address(bits: nat)
    requires
        bits <= u128::MAX,
    ensures
        coloned_of(coloned_address(bits)) == Some(bits),
        dotted_of(coloned_address(bits)) is None,
{
    let g = groups(bits);
    groups_make_up_the_address(bits);
    if maps_v4(bits) {
        lemma_mapped(bits % 0x1_0000_0000);
    } else {
        lemma_longest(g, 0);
        let run = longest_zeros(g, 0);
        if run.1 > 1 {
            lemma_compressed(g, run.0, run.1 as int);
        } else {
            lemma_plain(g);
        }
    }
}

/// What is written of an address reads back as that address.
pub proof fn written_addresses_read_back(a: IpAddr)
    ensures
        address_of(address_text(a)) == Some(a),
{
    match a {
        IpAddr::V4(bits) => {
            lemma_dotted(bits as nat);
        },
        IpAddr::V6(bits) => {
            lemma_coloned_address(bits as nat);
        },
    }
}

/// No two addresses are written alike.
pub proof fn addresses_are_told_apart(a: IpAddr, b: IpAddr)
    requires
        address_text(a) == address_text(b),
    ensures
        a == b,
{
    written_addresses_read_back(a);
    written_addresses_read_back(b);
}

// ---------------------------------------------------------------------------
// Public addresses
// ---------------------------------------------------------------------------
/// An IPv4 address is public unless it lies in one of these blocks: three private
/// ones, the loopbacks, the link's own, the unspecified one, multicast, broadcast,
/// and three for documentation.
pub proof fn public_v4_lies_outside_these_blocks(bits: u32)
    ensures
        !public_ip(IpAddr::V4(bits)) <==> {
            ||| 0x0a00_0000 <= bits <= 0x0aff_ffff
            ||| 0xac10_0000 <= bits <= 0xac1f_ffff
            ||| 0xc0a8_0000 <= bits <= 0xc0a8_ffff
            ||| 0x7f00_0000 <= bits <= 0x7fff_ffff
            ||| 0xa9fe_0000 <= bits <= 0xa9fe_ffff
            ||| bits == 0
            ||| 0xe000_0000 <= bits <= 0xefff_ffff
            ||| bits == 0xffff_ffff
            ||| 0xc000_0200 <= bits <= 0xc000_02ff
            ||| 0xc633_6400 <= bits <= 0xc633_64ff
            ||| 0xcb00_7100 <= bits <= 0xcb00_71ff
        },
{
    octets_make_up_the_address(bits as nat);
}

/// An IPv6 address is public unless it is the unspecified one or the loopback,
/// multicast, the link's own, or a unique local one.
pub proof fn public_v6_lies_outside_these_blocks(bits: u128)
    ensures
        !public_ip(IpAddr::V6(bits)) <==> {
            ||| bits == 0
            ||| bits == 1
            ||| 0xff00_0000_0000_0000_0000_0000_0000_0000 <= bits
            ||| 0xfe80_0000_0000_0000_0000_0000_0000_0000 <= bits
                <= 0xfebf_ffff_ffff_ffff_ffff_ffff_ffff_ffff
            ||| 0xfc00_0000_0000_0000_0000_0000_0000_0000 <= bits
                <= 0xfdff_ffff_ffff_ffff_ffff_ffff_ffff_ffff
        },
{
    reveal_with_fuel(group, 9);
    let n = bits as nat;
    let top = group(n, 0);
    let b1 = n / 65536;
    let b2 = b1 / 65536;
    let b3 = b2 / 65536;
    let b4 = b3 / 65536;
    let b5 = b4 / 65536;
    let b6 = b5 / 65536;
    let b7 = b6 / 65536;
    assert(b7 < 65536);
    assert(top == b7);
    assert(b7 * 0x1_0000_0000_0000_0000_0000_0000_0000 <= n < (b7 + 1)
        * 0x1_0000_0000_0000_0000_0000_0000_0000);
}

} // verus!
