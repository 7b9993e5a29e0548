//! Sorting names.

use vstd::prelude::*;

use crate::number::{all_digits, digits_value, lemma_front_digits, lemma_same_value};
use crate::text::{chars_of, strings};

verus! {

/// `a` stands no later than `b` in the order of their characters.
pub open spec fn at_most(a: Seq<char>, b: Seq<char>) -> bool
    decreases a.len(),
{
    if a.len() == 0 {
        true
    } else if b.len() == 0 {
        false
    } else if a[0] == b[0] {
        at_most(a.drop_first(), b.drop_first())
    } else {
        a[0] < b[0]
    }
}

/// `s` with `x` put behind every name that is at most `x`, where `s` is sorted.
pub open spec fn inserted(s: Seq<Seq<char>>, x: Seq<char>) -> Seq<Seq<char>>
    decreases s.len(),
{
    if s.len() == 0 || at_most(s.last(), x) {
        s.push(x)
    } else {
        inserted(s.drop_last(), x).push(s.last())
    }
}

/// `s` in order.
pub open spec fn sorted(s: Seq<Seq<char>>) -> Seq<Seq<char>>
    decreases s.len(),
{
    if s.len() == 0 {
        s
    } else {
        inserted(sorted(s.drop_last()), s.last())
    }
}

/// No name stands before a smaller one.
pub open spec fn in_order(s: Seq<Seq<char>>) -> bool {
    forall|i: int, j: int| 0 <= i <= j < s.len() ==> at_most(#[trigger] s[i], #[trigger] s[j])
}

proof fn lemma_at_most_total(a: Seq<char>, b: Seq<char>)
    ensures
        at_most(a, b) || at_most(b, a),
    decreases a.len(),
{
    if a.len() > 0 && b.len() > 0 && a[0] == b[0] {
        lemma_at_most_total(a.drop_first(), b.drop_first());
    }
}

proof fn lemma_at_most_reflexive(a: Seq<char>)
    ensures
        at_most(a, a),
    decreases a.len(),
{
    if a.len() > 0 {
        lemma_at_most_reflexive(a.drop_first());
    }
}

proof fn lemma_at_most_transitive(a: Seq<char>, b: Seq<char>, c: Seq<char>)
    requires
        at_most(a, b),
        at_most(b, c),
    ensures
        at_most(a, c),
    decreases a.len(),
{
    if a.len() > 0 && b.len() > 0 && c.len() > 0 && a[0] == b[0] && b[0] == c[0] {
        lemma_at_most_transitive(a.drop_first(), b.drop_first(), c.drop_first());
    }
}

proof fn lemma_inserted(s: Seq<Seq<char>>, x: Seq<char>)
    requires
        in_order(s),
    ensures
        in_order(inserted(s, x)),
        inserted(s, x).to_multiset() == s.to_multiset().insert(x),
        forall|y: Seq<char>|
            (forall|i: int| 0 <= i < s.len() ==> at_most(#[trigger] s[i], y)) && at_most(x, y)
                ==> (forall|i: int|
                0 <= i < inserted(s, x).len() ==> at_most(#[trigger] inserted(s, x)[i], y)),
    decreases s.len(),
{
    broadcast use vstd::seq_lib::group_to_multiset_ensures;

    let r = inserted(s, x);
    if s.len() == 0 || at_most(s.last(), x) {
        assert forall|i: int, j: int| 0 <= i <= j < r.len() implies at_most(
            #[trigger] r[i],
            #[trigger] r[j],
        ) by {
            if i == s.len() {
                lemma_at_most_reflexive(x);
            } else if j == s.len() {
                assert(at_most(s[i], s.last()));
                lemma_at_most_transitive(s[i], s.last(), x);
            }
        }
        assert(r.to_multiset() == s.to_multiset().insert(x));
    } else {
        let t = s.drop_last();
        assert(in_order(t));
        lemma_inserted(t, x);
        lemma_at_most_total(x, s.last());
        let u = inserted(t, x);
        assert forall|i: int| 0 <= i < t.len() implies at_most(#[trigger] t[i], s.last()) by {
            assert(t[i] == s[i]);
        }
        assert forall|i: int, j: int| 0 <= i <= j < r.len() implies at_most(
            #[trigger] r[i],
            #[trigger] r[j],
        ) by {
            if j == u.len() {
                if i == u.len() {
                    lemma_at_most_reflexive(s.last());
                } else {
                    assert(at_most(u[i], s.last()));
                }
            } else {
                assert(r[i] == u[i] && r[j] == u[j]);
            }
        }
        assert(s == t.push(s.last()));
        assert(r.to_multiset() == s.to_multiset().insert(x));
        assert forall|y: Seq<char>|
            (forall|i: int| 0 <= i < s.len() ==> at_most(#[trigger] s[i], y)) && at_most(
                x,
                y,
            ) implies (forall|i: int| 0 <= i < r.len() ==> at_most(#[trigger] r[i], y)) by {
            assert forall|i: int| 0 <= i < t.len() implies at_most(#[trigger] t[i], y) by {
                assert(t[i] == s[i]);
            }
            assert forall|i: int| 0 <= i < r.len() implies at_most(#[trigger] r[i], y) by {
                if i < u.len() {
                    assert(r[i] == u[i]);
                } else {
                    assert(r[i] == s[s.len() - 1]);
                }
            }
        }
    }
}

/// Sorting puts names in order, and neither loses, adds nor repeats one.
pub proof fn sorting_orders_and_keeps(s: Seq<Seq<char>>)
    ensures
        in_order(sorted(s)),
        sorted(s).to_multiset() == s.to_multiset(),
    decreases s.len(),
{
    broadcast use vstd::seq_lib::group_to_multiset_ensures;

    if s.len() > 0 {
        sorting_orders_and_keeps(s.drop_last());
        lemma_inserted(sorted(s.drop_last()), s.last());
        assert(s == s.drop_last().push(s.last()));
    }
}

proof fn lemma_inserted_at(s: Seq<Seq<char>>, x: Seq<char>, at: int)
    requires
        0 <= at <= s.len(),
        forall|k: int| at <= k < s.len() ==> !at_most(#[trigger] s[k], x),
        at > 0 ==> at_most(s[at - 1], x),
    ensures
        inserted(s, x) == s.insert(at, x),
    decreases s.len() - at,
{
    if at == s.len() {
        assert(s.insert(at, x) == s.push(x));
    } else {
        assert(!at_most(s[s.len() - 1], x));
        lemma_inserted_at(s.drop_last(), x, at);
        assert(s.insert(at, x) == s.drop_last().insert(at, x).push(s.last()));
    }
}

pub fn no_later(a: &[char], b: &[char]) -> (r: bool)
    ensures
        r == at_most(a@, b@),
{
    let mut i: usize = 0;
    assert(a@.skip(0) == a@ && b@.skip(0) == b@);
    while i < a.len() && i < b.len() && a[i] == b[i]
        invariant
            i <= a.len(),
            i <= b.len(),
            at_most(a@, b@) == at_most(a@.skip(i as int), b@.skip(i as int)),
        decreases a.len() - i,
    {
        assert(a@.skip(i as int).drop_first() == a@.skip(i + 1));
        assert(b@.skip(i as int).drop_first() == b@.skip(i + 1));
        i = i + 1;
    }
    if i == a.len() {
        true
    } else if i == b.len() {
        false
    } else {
        a[i] < b[i]
    }
}

/// Puts `x` into its place among `names`.
pub fn insert_sorted(names: &mut Vec<String>, x: String)
    ensures
        strings(final(names)@) == inserted(strings(old(names)@), x@),
{
    let ghost before = strings(names@);
    let cs = chars_of(x.as_str());
    let mut at: usize = names.len();
    let mut seeking: bool = at > 0;
    while seeking
        invariant
            at <= names.len(),
            seeking ==> at > 0,
            !seeking && at > 0 ==> at_most(before[at - 1], x@),
            cs@ == x@,
            before == strings(names@),
            forall|k: int| at <= k < names.len() ==> !at_most(#[trigger] before[k], x@),
        decreases at, seeking as int,
    {
        let other = chars_of(names[at - 1].as_str());
        assert(before[at - 1] == names@[at - 1]@);
        if no_later(other.as_slice(), cs.as_slice()) {
            seeking = false;
        } else {
            at = at - 1;
            seeking = at > 0;
        }
    }
    proof {
        lemma_inserted_at(before, x@, at as int);
    }
    names.insert(at, x);
    assert(strings(names@) == before.insert(at as int, x@));
}

/// `s` with `x` put behind every number that is at most `x`, where `s` is
/// sorted.
pub open spec fn number_inserted(s: Seq<u32>, x: u32) -> Seq<u32>
    decreases s.len(),
{
    if s.len() == 0 || s.last() <= x {
        s.push(x)
    } else {
        number_inserted(s.drop_last(), x).push(s.last())
    }
}

/// Numbers in ascending order.
pub open spec fn numbers_sorted(s: Seq<u32>) -> Seq<u32>
    decreases s.len(),
{
    if s.len() == 0 {
        s
    } else {
        number_inserted(numbers_sorted(s.drop_last()), s.last())
    }
}

proof fn lemma_number_inserted(s: Seq<u32>, x: u32)
    requires
        forall|i: int, j: int| 0 <= i <= j < s.len() ==> s[i] <= s[j],
    ensures
        forall|i: int, j: int|
            0 <= i <= j < number_inserted(s, x).len() ==> number_inserted(s, x)[i]
                <= number_inserted(s, x)[j],
        number_inserted(s, x).to_multiset() == s.to_multiset().insert(x),
        forall|i: int|
            0 <= i < number_inserted(s, x).len() ==> number_inserted(s, x)[i] == x || (s.len() > 0
                && number_inserted(s, x)[i] <= s.last()),
    decreases s.len(),
{
    broadcast use vstd::seq_lib::group_to_multiset_ensures;

    let r = number_inserted(s, x);
    if s.len() == 0 || s.last() <= x {
        assert(r.to_multiset() == s.to_multiset().insert(x));
    } else {
        let t = s.drop_last();
        lemma_number_inserted(t, x);
        let u = number_inserted(t, x);
        assert forall|i: int, j: int| 0 <= i <= j < r.len() implies r[i] <= r[j] by {
            if j == u.len() && i < j {
                assert(r[i] == u[i]);
                if u[i] != x {
                    assert(t.last() == s[s.len() - 2]);
                }
            }
        }
        assert(s == t.push(s.last()));
        assert(r.to_multiset() == s.to_multiset().insert(x));
    }
}

/// Sorting puts numbers in order, and neither loses, adds nor repeats one.
pub proof fn sorting_numbers_orders_and_keeps(s: Seq<u32>)
    ensures
        forall|i: int, j: int|
            0 <= i <= j < numbers_sorted(s).len() ==> numbers_sorted(s)[i] <= numbers_sorted(s)[j],
        numbers_sorted(s).to_multiset() == s.to_multiset(),
    decreases s.len(),
{
    broadcast use vstd::seq_lib::group_to_multiset_ensures;

    if s.len() > 0 {
        sorting_numbers_orders_and_keeps(s.drop_last());
        lemma_number_inserted(numbers_sorted(s.drop_last()), s.last());
        assert(s == s.drop_last().push(s.last()));
    }
}

proof fn lemma_number_inserted_at(s: Seq<u32>, x: u32, at: int)
    requires
        0 <= at <= s.len(),
        forall|k: int| at <= k < s.len() ==> s[k] > x,
        at > 0 ==> s[at - 1] <= x,
    ensures
        number_inserted(s, x) == s.insert(at, x),
    decreases s.len() - at,
{
    if at == s.len() {
        assert(s.insert(at, x) == s.push(x));
    } else {
        lemma_number_inserted_at(s.drop_last(), x, at);
        assert(s.insert(at, x) == s.drop_last().insert(at, x).push(s.last()));
    }
}

/// Puts `x` into its place among `numbers`.
pub fn insert_number(numbers: &mut Vec<u32>, x: u32)
    ensures
        final(numbers)@ == number_inserted(old(numbers)@, x),
{
    let ghost before = numbers@;
    let mut at: usize = numbers.len();
    while at > 0 && numbers[at - 1] > x
        invariant
            at <= numbers.len(),
            before == numbers@,
            forall|k: int| at <= k < before.len() ==> before[k] > x,
        decreases at,
    {
        at = at - 1;
    }
    proof {
        lemma_number_inserted_at(before, x, at as int);
    }
    numbers.insert(at, x);
}

/// What both begin with does not matter.
pub proof fn lemma_at_most_prefix(front: Seq<char>, a: Seq<char>, b: Seq<char>)
    ensures
        at_most(front + a, front + b) == at_most(a, b),
    decreases front.len(),
{
    if front.len() == 0 {
        assert(front + a == a);
        assert(front + b == b);
    } else {
        assert((front + a).drop_first() == front.drop_first() + a);
        assert((front + b).drop_first() == front.drop_first() + b);
        lemma_at_most_prefix(front.drop_first(), a, b);
    }
}

/// Of two texts that begin with equally many digits, the one with the smaller
/// number stands first, whatever follows.
pub proof fn lemma_at_most_number(a: Seq<char>, b: Seq<char>, x: Seq<char>, y: Seq<char>)
    requires
        a.len() == b.len(),
        all_digits(a, 10),
        all_digits(b, 10),
        digits_value(a, 10) < digits_value(b, 10),
    ensures
        at_most(a + x, b + y),
    decreases a.len(),
{
    if a.len() > 0 {
        let (c, d) = (a.last(), b.last());
        lemma_front_digits(a);
        lemma_front_digits(b);
        let (s, t) = (seq![c] + x, seq![d] + y);
        assert(a + x == a.drop_last() + s);
        assert(b + y == b.drop_last() + t);
        if digits_value(a.drop_last(), 10) < digits_value(b.drop_last(), 10) {
            lemma_at_most_number(a.drop_last(), b.drop_last(), s, t);
        } else {
            lemma_same_value(a.drop_last(), b.drop_last());
            lemma_at_most_prefix(a.drop_last(), s, t);
            assert(s[0] == c && t[0] == d);
        }
    }
}

} // verus!
