//! Numbers written as text, and read back from it.

use vstd::prelude::*;

use crate::text::push_str;

verus! {

/// The character of the digit `d`, in lower case above nine.
pub open spec fn digit_char(d: nat) -> char {
    if d < 10 {
        (48 + d) as char
    } else {
        (87 + d) as char
    }
}

/// What the character `c` counts for in base `radix`, if it is a digit there.
pub open spec fn digit_of(c: char, radix: nat) -> Option<nat> {
    let d: int = if '0' <= c <= '9' {
        c as int - 48
    } else if 'a' <= c <= 'z' {
        c as int - 87
    } else if 'A' <= c <= 'Z' {
        c as int - 55
    } else {
        1000
    };
    if d < radix {
        Some(d as nat)
    } else {
        None
    }
}

/// Every character of `s` is a digit in base `radix`.
pub open spec fn all_digits(s: Seq<char>, radix: nat) -> bool {
    forall|i: int| 0 <= i < s.len() ==> digit_of(#[trigger] s[i], radix) is Some
}

/// The number that the digits `s` write in base `radix`.
pub open spec fn digits_value(s: Seq<char>, radix: nat) -> nat
    decreases s.len(),
{
    if s.len() == 0 {
        0
    } else {
        digits_value(s.drop_last(), radix) * radix + digit_of(s.last(), radix).unwrap_or(0)
    }
}

/// `s` without one leading plus sign.
pub open spec fn unsigned_part(s: Seq<char>) -> Seq<char> {
    if s.len() > 0 && s[0] == '+' {
        s.drop_first()
    } else {
        s
    }
}

/// The number that `s` writes in base `radix`: digits, at least one, behind an
/// optional plus sign, and no number above `max`.
pub open spec fn parse_of(s: Seq<char>, radix: nat, max: nat) -> Option<nat> {
    let d = unsigned_part(s);
    if d.len() > 0 && all_digits(d, radix) && digits_value(d, radix) <= max {
        Some(digits_value(d, radix))
    } else {
        None
    }
}

/// The signed number that `s` writes in base ten.
pub open spec fn parse_signed_of(s: Seq<char>) -> Option<int> {
    if s.len() > 0 && s[0] == '-' {
        let d = s.drop_first();
        if d.len() > 0 && all_digits(d, 10) && digits_value(d, 10) <= 0x8000_0000_0000_0000 {
            Some(-(digits_value(d, 10) as int))
        } else {
            None
        }
    } else {
        match parse_of(s, 10, 0x7fff_ffff_ffff_ffff) {
            Some(n) => Some(n as int),
            None => None,
        }
    }
}

/// Decimal digits of `n`, without leading zeros.
pub open spec fn decimal(n: nat) -> Seq<char>
    decreases n,
{
    if n < 10 {
        seq![digit_char(n)]
    } else {
        decimal(n / 10).push(digit_char(n % 10))
    }
}

/// `n` in decimal, with a minus sign where it is negative.
pub open spec fn signed_decimal(n: int) -> Seq<char> {
    if n < 0 {
        seq!['-'] + decimal((-n) as nat)
    } else {
        decimal(n as nat)
    }
}

/// `s` behind as many zeros as bring it to `width` characters.
pub open spec fn zero_padded(s: Seq<char>, width: nat) -> Seq<char> {
    Seq::new((if s.len() < width { width - s.len() } else { 0 }) as nat, |i: int| '0') + s
}

/// The low byte of `n` as two hexadecimal digits.
pub open spec fn hex_byte(n: nat) -> Seq<char> {
    seq![digit_char((n / 16) % 16), digit_char(n % 16)]
}

pub fn to_digit_char(d: u8) -> (c: char)
    requires
        d < 36,
    ensures
        c == digit_char(d as nat),
{
    if d < 10 {
        (48 + d) as char
    } else {
        (87 + d) as char
    }
}

pub fn digit(c: char, radix: u64) -> (r: Option<u64>)
    requires
        radix <= 36,
    ensures
        r == (match digit_of(c, radix as nat) {
            Some(d) => Some(d as u64),
            None => None,
        }),
        r is Some ==> r->0 < radix,
{
    let d: u64 = if '0' <= c && c <= '9' {
        c as u64 - 48
    } else if 'a' <= c && c <= 'z' {
        c as u64 - 87
    } else if 'A' <= c && c <= 'Z' {
        c as u64 - 55
    } else {
        1000
    };
    if d < radix {
        Some(d)
    } else {
        None
    }
}

/// Digits in front only make a number larger.
proof fn lemma_value_grows(s: Seq<char>, radix: nat, i: int)
    requires
        0 <= i <= s.len(),
        radix >= 1,
    ensures
        digits_value(s.take(i), radix) <= digits_value(s, radix),
    decreases s.len(),
{
    if i == s.len() {
        assert(s.take(i) == s);
    } else {
        let t = s.drop_last();
        lemma_value_grows(t, radix, i);
        assert(t.take(i) == s.take(i));
        assert(digits_value(t, radix) * radix >= digits_value(t, radix)) by (nonlinear_arith)
            requires
                radix >= 1,
        ;
    }
}

/// The number that the digits `s` write, if they are digits and it is at
/// most `max`.
pub fn parse_digits(s: &[char], radix: u64, max: u64) -> (r: Option<u64>)
    requires
        1 <= radix <= 36,
    ensures
        r == (if s.len() > 0 && all_digits(s@, radix as nat) && digits_value(s@, radix as nat) <= max {
            Some(digits_value(s@, radix as nat) as u64)
        } else {
            None
        }),
{
    if s.len() == 0 {
        return None;
    }
    let mut n: u64 = 0;
    let mut i: usize = 0;
    while i < s.len()
        invariant
            1 <= radix <= 36,
            i <= s.len(),
            n == digits_value(s@.take(i as int), radix as nat),
            n <= max,
            all_digits(s@.take(i as int), radix as nat),
        decreases s.len() - i,
    {
        let ghost upto = s@.take(i + 1);
        assert(upto.drop_last() == s@.take(i as int));
        match digit(s[i], radix) {
            Some(d) => {
                proof {
                    lemma_value_grows(s@, radix as nat, i + 1);
                    assert(digits_value(upto, radix as nat) == n * radix + d);
                    assert(n * radix <= 0xffff_ffff_ffff_ffff * 36) by (nonlinear_arith)
                        requires
                            n <= 0xffff_ffff_ffff_ffff,
                            radix <= 36,
                    ;
                }
                let wide: u128 = n as u128 * radix as u128 + d as u128;
                if wide > max as u128 {
                    return None;
                }
                n = wide as u64;
                assert(all_digits(upto, radix as nat)) by {
                    assert forall|k: int| 0 <= k < upto.len() implies digit_of(
                        #[trigger] upto[k],
                        radix as nat,
                    ) is Some by {
                        if k < i {
                            assert(upto[k] == s@.take(i as int)[k]);
                        }
                    }
                }
            },
            None => {
                assert(digit_of(s@[i as int], radix as nat) is None);
                return None;
            },
        }
        i = i + 1;
    }
    assert(s@.take(i as int) == s@);
    Some(n)
}

/// The number that the first `i` of `width` columns write, where the digits `s`
/// stand at their end.
spec fn columns_value(s: Seq<char>, width: int, i: int) -> nat {
    digits_value(s.take(if i + s.len() > width { i + s.len() - width } else { 0 }), 10)
}

fn column(s: &[char], width: usize, i: usize) -> (r: u64)
    requires
        s.len() <= width,
        i < width,
    ensures
        r < 10,
        columns_value(s@, width as int, i + 1) == columns_value(s@, width as int, i as int) * 10
            + r,
{
    let skipped: usize = width - s.len();
    if i < skipped {
        assert(s@.take(0).len() == 0);
        return 0;
    }
    let k: usize = i - skipped;
    assert(s@.take(k + 1).drop_last() == s@.take(k as int));
    match digit(s[k], 10) {
        Some(d) => d,
        None => 0,
    }
}

/// Do the digits `a` write a smaller number than the digits `b`, however long
/// they are?
pub fn is_smaller(a: &[char], b: &[char]) -> (r: bool)
    ensures
        r == (digits_value(a@, 10) < digits_value(b@, 10)),
{
    let width: usize = if a.len() < b.len() {
        b.len()
    } else {
        a.len()
    };
    let mut i: usize = 0;
    let mut smaller: bool = false;
    let mut larger: bool = false;
    assert(a@.take(0).len() == 0 && b@.take(0).len() == 0);
    while i < width
        invariant
            i <= width,
            a.len() <= width,
            b.len() <= width,
            smaller == (columns_value(a@, width as int, i as int) < columns_value(
                b@,
                width as int,
                i as int,
            )),
            larger == (columns_value(a@, width as int, i as int) > columns_value(
                b@,
                width as int,
                i as int,
            )),
        decreases width - i,
    {
        let d: u64 = column(a, width, i);
        let e: u64 = column(b, width, i);
        if !smaller && !larger {
            smaller = d < e;
            larger = d > e;
        }
        i = i + 1;
    }
    assert(a@.take(a.len() as int) == a@);
    assert(b@.take(b.len() as int) == b@);
    smaller
}

pub fn parse(s: &[char], radix: u64, max: u64) -> (r: Option<u64>)
    requires
        1 <= radix <= 36,
    ensures
        r == (match parse_of(s@, radix as nat, max as nat) {
            Some(n) => Some(n as u64),
            None => None,
        }),
        r is Some ==> r->0 <= max,
{
    if s.len() > 0 && s[0] == '+' {
        let rest: &[char] = &s[1..s.len()];
        assert(rest@ == s@.drop_first());
        parse_digits(rest, radix, max)
    } else {
        parse_digits(s, radix, max)
    }
}

pub fn parse_u64(s: &[char]) -> (r: Option<u64>)
    ensures
        r == (match parse_of(s@, 10, u64::MAX as nat) {
            Some(n) => Some(n as u64),
            None => None,
        }),
{
    parse(s, 10, u64::MAX)
}

pub fn parse_i64(s: &[char]) -> (r: Option<i64>)
    ensures
        r == (match parse_signed_of(s@) {
            Some(n) => Some(n as i64),
            None => None,
        }),
{
    if s.len() > 0 && s[0] == '-' {
        let rest: &[char] = &s[1..s.len()];
        assert(rest@ == s@.drop_first());
        match parse_digits(rest, 10, 0x8000_0000_0000_0000) {
            Some(n) => Some((0 - n as i128) as i64),
            None => None,
        }
    } else {
        match parse(s, 10, 0x7fff_ffff_ffff_ffff) {
            Some(n) => Some(n as i64),
            None => None,
        }
    }
}

pub fn push_decimal(out: &mut String, n: u64)
    ensures
        final(out)@ == old(out)@ + decimal(n as nat),
    decreases n,
{
    let ghost before = out@;
    if n >= 10 {
        push_decimal(out, n / 10);
        out.push(to_digit_char((n % 10) as u8));
    } else {
        out.push(to_digit_char(n as u8));
    }
    assert(out@ == before + decimal(n as nat));
}

pub fn push_signed(out: &mut String, n: i64)
    ensures
        final(out)@ == old(out)@ + signed_decimal(n as int),
{
    let ghost before = out@;
    if n < 0 {
        out.push('-');
        push_decimal(out, (0 - n as i128) as u64);
        assert(out@ == before + (seq!['-'] + decimal((-n) as nat)));
    } else {
        push_decimal(out, n as u64);
    }
}

/// The decimal digits of `n`.
pub fn decimal_string(n: u64) -> (r: String)
    ensures
        r@ == decimal(n as nat),
{
    let mut out: String = String::new();
    push_decimal(&mut out, n);
    assert(out@ == decimal(n as nat));
    out
}

pub fn push_padded(out: &mut String, n: u64, width: usize)
    ensures
        final(out)@ == old(out)@ + zero_padded(decimal(n as nat), width as nat),
{
    let ghost before = out@;
    let digits: String = decimal_string(n);
    let have: usize = digits.as_str().unicode_len();
    let mut k: usize = have;
    while k < width
        invariant
            have <= k,
            k <= width || k == have,
            out@ == before + Seq::new((k - have) as nat, |i: int| '0'),
        decreases width - k,
    {
        out.push('0');
        k = k + 1;
        assert(out@ == before + Seq::new((k - have) as nat, |i: int| '0'));
    }
    push_str(out, digits.as_str());
    assert(out@ == before + zero_padded(decimal(n as nat), width as nat));
}

pub fn push_hex_byte(out: &mut String, n: u8)
    ensures
        final(out)@ == old(out)@ + hex_byte(n as nat),
{
    let ghost before = out@;
    out.push(to_digit_char(n / 16));
    out.push(to_digit_char(n % 16));
    assert(out@ == before + hex_byte(n as nat));
}

/// Decimal digits are digits, and there is at least one.
pub proof fn lemma_decimal_digits(n: nat)
    ensures
        decimal(n).len() > 0,
        all_digits(decimal(n), 10),
        digits_value(decimal(n), 10) == n,
    decreases n,
{
    let s = decimal(n);
    if n >= 10 {
        lemma_decimal_digits(n / 10);
        let t = decimal(n / 10);
        assert(s.drop_last() == t);
        assert(digit_of(s.last(), 10) == Some(n % 10));
        assert(digits_value(s, 10) == digits_value(t, 10) * 10 + n % 10);
        assert forall|i: int| 0 <= i < s.len() implies digit_of(#[trigger] s[i], 10) is Some by {
            if i < t.len() {
                assert(s[i] == t[i]);
            }
        }
    } else {
        assert(s.drop_last() == Seq::<char>::empty());
        assert(digit_of(s.last(), 10) == Some(n));
        assert(digits_value(s, 10) == digits_value(s.drop_last(), 10) * 10 + n);
    }
}

/// Reading back a number that was written in decimal gives the number.
pub proof fn decimal_round_trip(n: u64)
    ensures
        parse_of(decimal(n as nat), 10, u64::MAX as nat) == Some(n as nat),
{
    lemma_decimal_digits(n as nat);
    let s = decimal(n as nat);
    assert(digit_of(s[0], 10) is Some);
    assert(unsigned_part(s) == s);
}

/// Reading back a signed number that was written in decimal gives the number.
pub proof fn signed_round_trip(n: i64)
    ensures
        parse_signed_of(signed_decimal(n as int)) == Some(n as int),
{
    let s = signed_decimal(n as int);
    if n < 0 {
        lemma_decimal_digits((-n) as nat);
        assert(s.drop_first() == decimal((-n) as nat));
    } else {
        lemma_decimal_digits(n as nat);
        assert(digit_of(s[0], 10) is Some);
        assert(unsigned_part(s) == s);
    }
}

proof fn lemma_leading_zeros(k: nat, s: Seq<char>)
    ensures
        digits_value(Seq::new(k, |i: int| '0') + s, 10) == digits_value(s, 10),
    decreases k + s.len(),
{
    let zeros = Seq::new(k, |i: int| '0');
    if s.len() > 0 {
        assert((zeros + s).drop_last() == zeros + s.drop_last());
        lemma_leading_zeros(k, s.drop_last());
    } else if k > 0 {
        let fewer = Seq::new((k - 1) as nat, |i: int| '0');
        assert((zeros + s).drop_last() == fewer + s);
        lemma_leading_zeros((k - 1) as nat, s);
    } else {
        assert(zeros + s == s);
    }
}

/// Zeros in front change neither that a number is written in digits nor which
/// number it is.
pub proof fn lemma_padded_digits(n: nat, width: nat)
    ensures
        zero_padded(decimal(n), width).len() >= width,
        all_digits(zero_padded(decimal(n), width), 10),
        digits_value(zero_padded(decimal(n), width), 10) == n,
{
    lemma_decimal_digits(n);
    let s = decimal(n);
    let k: nat = (if s.len() < width {
        width - s.len()
    } else {
        0
    }) as nat;
    lemma_leading_zeros(k, s);
    let padded = zero_padded(s, width);
    assert forall|i: int| 0 <= i < padded.len() implies digit_of(#[trigger] padded[i], 10) is Some by {
        if i >= k {
            assert(padded[i] == s[i - k]);
        }
    }
}

/// Two numbers with equally many digits are the same only where the digits are.
pub proof fn lemma_same_value(a: Seq<char>, b: Seq<char>)
    requires
        a.len() == b.len(),
        all_digits(a, 10),
        all_digits(b, 10),
        digits_value(a, 10) == digits_value(b, 10),
    ensures
        a == b,
    decreases a.len(),
{
    if a.len() > 0 {
        let n = a.len() - 1;
        assert(digit_of(a[n], 10) is Some && digit_of(b[n], 10) is Some);
        lemma_front_digits(a);
        lemma_front_digits(b);
        lemma_same_value(a.drop_last(), b.drop_last());
        assert(a == a.drop_last().push(a[n]));
        assert(b == b.drop_last().push(b[n]));
    }
}

pub proof fn lemma_front_digits(s: Seq<char>)
    requires
        s.len() > 0,
        all_digits(s, 10),
    ensures
        all_digits(s.drop_last(), 10),
        digits_value(s, 10) == digits_value(s.drop_last(), 10) * 10 + (s.last() as int - 48),
        '0' <= s.last() <= '9',
{
    let t = s.drop_last();
    assert(digit_of(s[s.len() - 1], 10) is Some);
    assert forall|i: int| 0 <= i < t.len() implies digit_of(#[trigger] t[i], 10) is Some by {
        assert(t[i] == s[i]);
    }
}

/// A number has no zero in front, unless it is zero.
pub proof fn decimals_have_no_zero_in_front(n: nat)
    ensures
        decimal(n).len() > 0,
        decimal(n)[0] == '0' ==> n == 0,
        n == 0 ==> decimal(n) == seq!['0'],
    decreases n,
{
    if n >= 10 {
        decimals_have_no_zero_in_front(n / 10);
        assert(decimal(n)[0] == decimal(n / 10)[0]);
    }
}

/// A number is read back exactly where it is within the limit, with a plus sign or
/// without.
pub proof fn numbers_are_read_within_their_limit(n: nat, max: nat)
    ensures
        parse_of(decimal(n), 10, max) == (if n <= max {
            Some(n)
        } else {
            None
        }),
        parse_of(seq!['+'] + decimal(n), 10, max) == parse_of(decimal(n), 10, max),
        parse_of(Seq::<char>::empty(), 10, max) is None,
{
    lemma_decimal_digits(n);
    let s = decimal(n);
    assert(digit_of(s[0], 10) is Some);
    assert(unsigned_part(s) == s);
    assert(unsigned_part(seq!['+'] + s) =~= s);
}

/// Each digit further to the left counts for `radix` times as much.
pub proof fn digits_count_by_their_place(a: Seq<char>, c: char, d: nat, radix: nat)
    requires
        digit_of(c, radix) == Some(d),
    ensures
        digits_value(a.push(c), radix) == digits_value(a, radix) * radix + d,
        digits_value(seq![c], radix) == d,
{
    assert(a.push(c).drop_last() =~= a);
    assert(seq![c].drop_last() =~= Seq::<char>::empty());
    assert(digits_value(Seq::<char>::empty(), radix) == 0);
}

/// A text with anything but digits in it writes no number.
pub proof fn only_digits_write_a_number(s: Seq<char>, i: int, max: nat)
    requires
        0 < i < s.len(),
        !('0' <= s[i] <= '9'),
    ensures
        parse_of(s, 10, max) is None,
{
    let d = unsigned_part(s);
    if s[0] == '+' {
        assert(d[i - 1] == s[i]);
        assert(digit_of(d[i - 1], 10) is None);
    } else {
        assert(digit_of(d[i], 10) is None);
    }
}

} // verus!
