//! Numerals with a decimal point and an exponent, as far as they can be
//! judged without doing arithmetic on them: whether a text is one, and whether
//! a double-precision number can hold it.

use vstd::prelude::*;

use crate::number::{all_digits, decimal, digit_of, digits_value, lemma_decimal_digits};
use crate::order::{at_most, no_later};
use crate::sysfs::is_all_digits;
use crate::text::{chars_of, find, index_of, lemma_index_of, lemma_index_of_is};

verus! {

/// The least number that rounds beyond every finite double-precision number:
/// half a unit in the last place above the largest one.
pub const FIRST_INFINITE: &'static str = "179769313486231580793728971405303415079934132710037826936173778980444968292764750946649017977587207096330286416692887910946555547851940402630657488671505820681908902000708383676273854845817711531764475730270069855571366959622842914819860834936475292719074168444365510704342711559699508093042880177904174497792";

/// How a text reads as a numeral.
#[derive(Debug, Clone, Copy, PartialEq, Eq, Structural)]
pub enum Numeral {
    /// It is none.
    Malformed,
    /// An infinity, not a number at all, or too large to hold.
    NotFinite,
    Finite,
}

/// An ASCII capital as its small letter; any other character as it is.
pub open spec fn lower(c: char) -> char {
    if 'A' <= c <= 'Z' {
        (c as u32 + 32) as char
    } else {
        c
    }
}

/// `s` without one leading sign.
pub open spec fn without_sign(s: Seq<char>) -> Seq<char> {
    if s.len() > 0 && (s[0] == '+' || s[0] == '-') {
        s.drop_first()
    } else {
        s
    }
}

/// `s` with its capitals as small letters.
pub open spec fn lowered(s: Seq<char>) -> Seq<char> {
    s.map_values(|c: char| lower(c))
}

/// What stands before the exponent.
pub open spec fn mantissa(s: Seq<char>) -> Seq<char> {
    s.take(index_of(lowered(s), 'e') as int)
}

/// What stands behind the exponent's mark, if there is one.
pub open spec fn exponent_text(s: Seq<char>) -> Option<Seq<char>> {
    let n = index_of(lowered(s), 'e') as int;
    if n < s.len() {
        Some(s.skip(n + 1))
    } else {
        None
    }
}

/// The digits before the point, and those behind it.
pub open spec fn whole_digits(s: Seq<char>) -> Seq<char> {
    mantissa(s).take(index_of(mantissa(s), '.') as int)
}

pub open spec fn fraction_digits(s: Seq<char>) -> Seq<char> {
    let m = mantissa(s);
    let n = index_of(m, '.') as int;
    if n < m.len() {
        m.skip(n + 1)
    } else {
        seq![]
    }
}

/// The exponent.
pub open spec fn exponent(s: Seq<char>) -> int {
    match exponent_text(s) {
        Some(x) => {
            let n = digits_value(without_sign(x), 10) as int;
            if x.len() > 0 && x[0] == '-' {
                -n
            } else {
                n
            }
        },
        None => 0,
    }
}

/// Digits with at most one point among or beside them and at least one digit,
/// and optionally `e`, a sign and at least one digit behind.
pub open spec fn well_formed(s: Seq<char>) -> bool {
    &&& all_digits(whole_digits(s), 10)
    &&& all_digits(fraction_digits(s), 10)
    &&& whole_digits(s).len() + fraction_digits(s).len() > 0
    &&& match exponent_text(s) {
        Some(x) => without_sign(x).len() > 0 && all_digits(without_sign(x), 10),
        None => true,
    }
}

pub open spec fn without_zeros(s: Seq<char>) -> Seq<char>
    decreases s.len(),
{
    if s.len() > 0 && s[0] == '0' {
        without_zeros(s.drop_first())
    } else {
        s
    }
}

/// All digits of a numeral, from the first that counts.
pub open spec fn significant(s: Seq<char>) -> Seq<char> {
    without_zeros(whole_digits(s) + fraction_digits(s))
}

/// How many digits the number has before its point.
pub open spec fn magnitude(s: Seq<char>) -> int {
    significant(s).len() + exponent(s) - fraction_digits(s).len()
}

/// The number is below the first that is too large to hold.
pub open spec fn holdable(s: Seq<char>) -> bool {
    ||| significant(s).len() == 0
    ||| magnitude(s) < 309
    ||| magnitude(s) == 309 && !at_most(FIRST_INFINITE@, significant(s))
}

pub open spec fn numeral_of(text: Seq<char>) -> Numeral {
    let s = without_sign(text);
    let word = lowered(s);
    if word == "inf"@ || word == "infinity"@ || word == "nan"@ {
        Numeral::NotFinite
    } else if !well_formed(s) {
        Numeral::Malformed
    } else if holdable(s) {
        Numeral::Finite
    } else {
        Numeral::NotFinite
    }
}

fn to_lower(c: char) -> (r: char)
    ensures
        r == lower(c),
{
    if 'A' <= c && c <= 'Z' {
        (c as u8 + 32) as char
    } else {
        c
    }
}

pub fn lower_all(s: &[char]) -> (r: Vec<char>)
    ensures
        r@ == lowered(s@),
{
    let mut out: Vec<char> = Vec::new();
    let mut i: usize = 0;
    while i < s.len()
        invariant
            i <= s.len(),
            out@ == lowered(s@.take(i as int)),
        decreases s.len() - i,
    {
        out.push(to_lower(s[i]));
        assert(lowered(s@.take(i + 1)) == lowered(s@.take(i as int)).push(lower(s@[i as int])));
        i = i + 1;
    }
    assert(s@.take(i as int) == s@);
    out
}

fn skip_sign(s: &[char]) -> (r: &[char])
    ensures
        r@ == without_sign(s@),
{
    if s.len() > 0 && (s[0] == '+' || s[0] == '-') {
        let rest: &[char] = &s[1..s.len()];
        assert(rest@ == s@.drop_first());
        rest
    } else {
        s
    }
}

fn skip_zeros(s: &[char]) -> (r: &[char])
    ensures
        r@ == without_zeros(s@),
{
    let mut rest: &[char] = s;
    while rest.len() > 0 && rest[0] == '0'
        invariant
            without_zeros(rest@) == without_zeros(s@),
        decreases rest.len(),
    {
        let next: &[char] = &rest[1..rest.len()];
        assert(next@ == rest@.drop_first());
        rest = next;
    }
    rest
}

/// Large enough that adding the length of any text to it changes nothing that
/// matters.
const CAP: u128 = 0x1_0000_0000_0000_0000_0000_0000;

/// The number that the digits `s` write, or at least the cap where it is at
/// least the cap.
fn capped_value(s: &[char]) -> (n: u128)
    requires
        all_digits(s@, 10),
    ensures
        n <= CAP * 10 + 9,
        n == digits_value(s@, 10) || (n >= CAP && digits_value(s@, 10) >= CAP),
{
    let mut n: u128 = 0;
    let mut i: usize = 0;
    while i < s.len()
        invariant
            i <= s.len(),
            all_digits(s@, 10),
            n <= CAP * 10 + 9,
            n == digits_value(s@.take(i as int), 10) || (n >= CAP && digits_value(
                s@.take(i as int),
                10,
            ) >= CAP),
        decreases s.len() - i,
    {
        let c: char = s[i];
        assert(digit_of(s@[i as int], 10) is Some);
        let ghost upto = s@.take(i + 1);
        assert(upto.drop_last() == s@.take(i as int));
        assert(digits_value(upto, 10) == digits_value(s@.take(i as int), 10) * 10 + digit_of(
            c,
            10,
        )->0);
        if n < CAP {
            n = n * 10 + (c as u128 - 48);
        }
        i = i + 1;
    }
    assert(s@.take(i as int) == s@);
    n
}

/// Judges a text as a numeral.
pub fn judge(text: &[char]) -> (r: Numeral)
    ensures
        r == numeral_of(text@),
{
    let s = skip_sign(text);
    let word = lower_all(s);
    if crate::text::is_text(word.as_slice(), "inf") || crate::text::is_text(
        word.as_slice(),
        "infinity",
    ) || crate::text::is_text(word.as_slice(), "nan") {
        return Numeral::NotFinite;
    }
    let mark: usize = find(word.as_slice(), 'e');
    let m: &[char] = &s[0..mark];
    assert(m@ == mantissa(s@));
    let point: usize = find(m, '.');
    let whole: &[char] = &m[0..point];
    assert(whole@ == whole_digits(s@));
    let frac: &[char] = if point < m.len() {
        &m[point + 1..m.len()]
    } else {
        &m[point..m.len()]
    };
    assert(frac@ == fraction_digits(s@));
    if !is_all_digits(whole) || !is_all_digits(frac) || (whole.len() == 0 && frac.len() == 0) {
        return Numeral::Malformed;
    }
    let mut exp: i128 = 0;
    if mark < s.len() {
        let x: &[char] = &s[mark + 1..s.len()];
        assert(x@ == s@.skip(mark + 1));
        let digits = skip_sign(x);
        if digits.len() == 0 || !is_all_digits(digits) {
            return Numeral::Malformed;
        }
        let n: u128 = capped_value(digits);
        exp = if x[0] == '-' {
            0 - n as i128
        } else {
            n as i128
        };
    }
    assert(well_formed(s@));
    let mut all: Vec<char> = Vec::new();
    all.extend_from_slice(whole);
    all.extend_from_slice(frac);
    assert(all@ == whole@ + frac@);
    let digits = skip_zeros(all.as_slice());
    assert(digits@ == significant(s@));
    if digits.len() == 0 {
        return Numeral::Finite;
    }
    let size: i128 = digits.len() as i128 + exp - frac.len() as i128;
    assert(size == magnitude(s@) || (size > 309 && magnitude(s@) > 309) || (size < 309 && magnitude(
        s@,
    ) < 309));
    if size < 309 {
        Numeral::Finite
    } else if size == 309 {
        let limit = chars_of(FIRST_INFINITE);
        if no_later(limit.as_slice(), digits) {
            Numeral::NotFinite
        } else {
            Numeral::Finite
        }
    } else {
        Numeral::NotFinite
    }
}

// ---------------------------------------------------------------------------
// What is a numeral
// ---------------------------------------------------------------------------
proof fn lemma_digit(c: char)
    requires
        digit_of(c, 10) is Some,
    ensures
        '0' <= c <= '9',
        lower(c) == c,
{
}

proof fn lemma_few_digits(s: Seq<char>)
    ensures
        without_zeros(s).len() <= s.len(),
    decreases s.len(),
{
    if s.len() > 0 && s[0] == '0' {
        lemma_few_digits(s.drop_first());
    }
}

/// Where digits with or without a point among them are cut.
proof fn lemma_cut(whole: Seq<char>, point: bool, fraction: Seq<char>)
    requires
        all_digits(whole, 10),
        all_digits(fraction, 10),
        !point ==> fraction.len() == 0,
    ensures
        ({
            let s = if point {
                whole + seq!['.'] + fraction
            } else {
                whole
            };
            &&& mantissa(s) == s
            &&& exponent_text(s) is None
            &&& whole_digits(s) == whole
            &&& fraction_digits(s) == fraction
            &&& lowered(s) == s
            &&& without_sign(s) == s
        }),
{
    let s = if point {
        whole + seq!['.'] + fraction
    } else {
        whole
    };
    let n = whole.len() as int;
    assert forall|i: int| 0 <= i < s.len() implies lower(#[trigger] s[i]) == s[i] && s[i] != 'e'
        && (i != n ==> s[i] != '.') && s[i] != '+' && s[i] != '-' by {
        if i < n {
            assert(s[i] == whole[i]);
            assert(digit_of(whole[i], 10) is Some);
            lemma_digit(s[i]);
        } else if i > n {
            assert(s[i] == fraction[i - n - 1]);
            assert(digit_of(fraction[i - n - 1], 10) is Some);
            lemma_digit(s[i]);
        }
    }
    assert(lowered(s) =~= s);
    lemma_index_of_is(s, 'e', s.len() as int);
    assert(mantissa(s) =~= s);
    lemma_index_of_is(s, '.', n);
    assert(whole_digits(s) =~= whole);
    assert(fraction_digits(s) =~= fraction);
}

/// Digits, with or without a point among or beside them, are a numeral, with or
/// without a sign, and one that can be held where fewer than 309 stand before the
/// point.
pub proof fn digits_with_a_point_are_a_numeral(
    sign: Seq<char>,
    whole: Seq<char>,
    point: bool,
    fraction: Seq<char>,
)
    requires
        sign == Seq::<char>::empty() || sign == seq!['+'] || sign == seq!['-'],
        all_digits(whole, 10),
        all_digits(fraction, 10),
        !point ==> fraction.len() == 0,
        whole.len() + fraction.len() > 0,
    ensures
        ({
            let s = if point {
                whole + seq!['.'] + fraction
            } else {
                whole
            };
            &&& numeral_of(sign + s) != Numeral::Malformed
            &&& whole.len() < 309 ==> numeral_of(sign + s) == Numeral::Finite
        }),
{
    let s = if point {
        whole + seq!['.'] + fraction
    } else {
        whole
    };
    lemma_cut(whole, point, fraction);
    assert(without_sign(sign + s) =~= s) by {
        if sign.len() == 0 {
            assert(sign + s =~= s);
        } else {
            assert((sign + s).drop_first() =~= s);
        }
    }
    reveal_strlit("inf");
    reveal_strlit("infinity");
    reveal_strlit("nan");
    assert(s.len() > 0);
    assert(s[0] == '.' || digit_of(s[0], 10) is Some) by {
        if whole.len() > 0 {
            assert(s[0] == whole[0]);
        }
    }
    assert(s[0] != 'i' && s[0] != 'n');
    assert(s != "inf"@ && s != "infinity"@ && s != "nan"@);
    lemma_few_digits(whole + fraction);
}

/// What is empty but for a sign is no numeral, nor is what holds a character that has
/// no place in one.
pub proof fn other_characters_make_no_numeral(s: Seq<char>, i: int)
    ensures
        numeral_of(Seq::<char>::empty()) == Numeral::Malformed,
        0 <= i < s.len() && (s[i] == ' ' || s[i] == ',' || s[i] == '_' || s[i] == 's') ==> numeral_of(s)
            == Numeral::Malformed,
{
    reveal_strlit("inf");
    reveal_strlit("infinity");
    reveal_strlit("nan");
    let none = Seq::<char>::empty();
    lemma_cut(none, false, none);
    assert(lowered(none) =~= none);
    assert("inf"@.len() == 3 && "infinity"@.len() == 8 && "nan"@.len() == 3);
    if 0 <= i < s.len() && (s[i] == ' ' || s[i] == ',' || s[i] == '_' || s[i] == 's') {
        let t = without_sign(s);
        let k = if t == s {
            i
        } else {
            i - 1
        };
        assert(t[k] == s[i]);
        let c = t[k];
        let word = lowered(t);
        assert(word[k] == c);
        assert(word != "inf"@ && word != "infinity"@ && word != "nan"@) by {
            assert(forall|j: int| 0 <= j < 8 ==> #[trigger] "infinity"@[j] != c);
            assert(forall|j: int| 0 <= j < 3 ==> #[trigger] "inf"@[j] != c);
            assert(forall|j: int| 0 <= j < 3 ==> #[trigger] "nan"@[j] != c);
        }
        assert(digit_of(c, 10) is None);
        let n = index_of(word, 'e') as int;
        lemma_index_of(word, 'e');
        if k < n {
            let m = mantissa(t);
            assert(m[k] == c);
            let p = index_of(m, '.') as int;
            lemma_index_of(m, '.');
            if k < p {
                assert(whole_digits(t)[k] == c);
            } else {
                assert(k != p);
                assert(fraction_digits(t)[k - p - 1] == c);
            }
        } else {
            assert(word[n] == 'e');
            assert(k != n);
            let x = exponent_text(t)->0;
            assert(x[k - n - 1] == c);
            let y = without_sign(x);
            if y == x {
                assert(y[k - n - 1] == c);
            } else {
                assert(k - n - 1 > 0);
                assert(y[k - n - 2] == c);
            }
        }
    }
}

/// An exponent moves the point: with it, digits of which the first counts can be held
/// where fewer than 309 stand before the point then, and not where more do.
pub proof fn an_exponent_moves_the_point(whole: Seq<char>, mark: char, back: bool, n: nat)
    requires
        whole.len() > 0,
        all_digits(whole, 10),
        whole[0] != '0',
        mark == 'e' || mark == 'E',
    ensures
        ({
            let text = whole + seq![mark] + (if back {
                seq!['-'] + decimal(n)
            } else {
                decimal(n)
            });
            let before = if back {
                whole.len() - n
            } else {
                (whole.len() + n) as int
            };
            &&& before < 309 ==> numeral_of(text) == Numeral::Finite
            &&& before > 309 ==> numeral_of(text) == Numeral::NotFinite
        }),
{
    let x = if back {
        seq!['-'] + decimal(n)
    } else {
        decimal(n)
    };
    let s = whole + seq![mark] + x;
    let k = whole.len() as int;
    lemma_decimal_digits(n);
    lemma_cut(whole, false, Seq::<char>::empty());
    assert(digit_of(whole[0], 10) is Some);
    lemma_digit(whole[0]);
    assert(s[0] == whole[0]);
    assert(without_sign(s) == s);
    let word = lowered(s);
    reveal_strlit("inf");
    reveal_strlit("infinity");
    reveal_strlit("nan");
    assert(word[0] == s[0]);
    assert(word != "inf"@ && word != "infinity"@ && word != "nan"@);
    assert forall|i: int| 0 <= i < k implies word[i] != 'e' by {
        assert(s[i] == whole[i]);
        assert(digit_of(whole[i], 10) is Some);
        lemma_digit(s[i]);
    }
    assert(word[k] == 'e');
    lemma_index_of_is(word, 'e', k);
    assert(mantissa(s) =~= whole);
    assert(exponent_text(s) == Some(x)) by {
        assert(s.skip(k + 1) =~= x);
    }
    assert forall|i: int| 0 <= i < whole.len() implies whole[i] != '.' by {
        assert(digit_of(whole[i], 10) is Some);
        lemma_digit(whole[i]);
    }
    lemma_index_of_is(whole, '.', k);
    assert(whole_digits(s) =~= whole);
    assert(fraction_digits(s) =~= Seq::<char>::empty());
    assert(without_sign(x) =~= decimal(n)) by {
        assert(digit_of(decimal(n)[0], 10) is Some);
        lemma_digit(decimal(n)[0]);
        if back {
            assert(x.drop_first() =~= decimal(n));
        }
    }
    assert(digit_of(decimal(n)[0], 10) is Some);
    lemma_digit(decimal(n)[0]);
    assert(digits_value(decimal(n), 10) == n);
    assert(whole + Seq::<char>::empty() =~= whole);
    assert(significant(s) == whole);
    assert(exponent(s) == if back {
        -(n as int)
    } else {
        n as int
    });
}

} // verus!
