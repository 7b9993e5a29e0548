//! Text as a sequence of characters: the splitting, trimming, number reading
//! and number writing that every parser and renderer of the crate is built
//! from.

use vstd::prelude::*;

verus! {

/// `String::push` of the standard library: the character becomes the last of
/// the string, and nothing before it changes.
pub assume_specification[ String::push ](s: &mut String, ch: char)
    ensures
        final(s)@ == old(s)@.push(ch),
;

/// Unicode white space.
pub open spec fn is_space(c: char) -> bool {
    ||| '\u{9}' <= c <= '\u{d}'
    ||| c == ' '
    ||| c == '\u{85}'
    ||| c == '\u{a0}'
    ||| c == '\u{1680}'
    ||| '\u{2000}' <= c <= '\u{200a}'
    ||| c == '\u{2028}'
    ||| c == '\u{2029}'
    ||| c == '\u{202f}'
    ||| c == '\u{205f}'
    ||| c == '\u{3000}'
}

pub fn space(c: char) -> (r: bool)
    ensures
        r == is_space(c),
{
    ('\u{9}' <= c && c <= '\u{d}') || c == ' ' || c == '\u{85}' || c == '\u{a0}' || c
        == '\u{1680}' || ('\u{2000}' <= c && c <= '\u{200a}') || c == '\u{2028}' || c == '\u{2029}'
        || c == '\u{202f}' || c == '\u{205f}' || c == '\u{3000}'
}

/// The characters of `s`, in order.
pub fn chars_of(s: &str) -> (r: Vec<char>)
    ensures
        r@ == s@,
{
    let mut out: Vec<char> = Vec::new();
    for c in it: s.chars()
        invariant
            it.seq() == s@,
            out@ == s@.take(it.index()),
    {
        out.push(c);
    }
    out
}

/// The string whose characters are `cs`.
pub fn string_of(cs: &[char]) -> (r: String)
    ensures
        r@ == cs@,
{
    let mut out: String = String::new();
    push_chars(&mut out, cs);
    out
}

pub fn push_chars(out: &mut String, cs: &[char])
    ensures
        final(out)@ == old(out)@ + cs@,
{
    let ghost before = out@;
    let mut i: usize = 0;
    while i < cs.len()
        invariant
            i <= cs.len(),
            out@ == before + cs@.take(i as int),
        decreases cs.len() - i,
    {
        out.push(cs[i]);
        i = i + 1;
    }
    assert(cs@.take(i as int) == cs@);
}

pub fn push_str(out: &mut String, s: &str)
    ensures
        final(out)@ == old(out)@ + s@,
{
    out.append(s);
}

/// Both texts hold the same characters.
pub fn same(a: &[char], b: &[char]) -> (r: bool)
    ensures
        r == (a@ == b@),
{
    if a.len() != b.len() {
        return false;
    }
    let mut i: usize = 0;
    while i < a.len()
        invariant
            i <= a.len(),
            a.len() == b.len(),
            a@.take(i as int) == b@.take(i as int),
        decreases a.len() - i,
    {
        if a[i] != b[i] {
            assert(a@[i as int] != b@[i as int]);
            return false;
        }
        assert(a@.take(i + 1) == a@.take(i as int).push(a@[i as int]));
        assert(b@.take(i + 1) == b@.take(i as int).push(b@[i as int]));
        i = i + 1;
    }
    assert(a@.take(i as int) == a@ && b@.take(i as int) == b@);
    true
}

pub fn is_text(a: &[char], b: &str) -> (r: bool)
    ensures
        r == (a@ == b@),
{
    let b = chars_of(b);
    same(a, b.as_slice())
}

pub fn same_str(a: &str, b: &str) -> (r: bool)
    ensures
        r == (a@ == b@),
{
    let a = chars_of(a);
    is_text(a.as_slice(), b)
}

/// `p` begins `s`.
pub open spec fn begins(s: Seq<char>, p: Seq<char>) -> bool {
    p.len() <= s.len() && s.take(p.len() as int) == p
}

/// `p` ends `s`.
pub open spec fn ends(s: Seq<char>, p: Seq<char>) -> bool {
    p.len() <= s.len() && s.skip(s.len() - p.len()) == p
}

pub fn starts_with(s: &[char], p: &str) -> (r: bool)
    ensures
        r == begins(s@, p@),
{
    let p = chars_of(p);
    if p.len() > s.len() {
        return false;
    }
    same(&s[0..p.len()], p.as_slice())
}

pub fn ends_with(s: &[char], p: &str) -> (r: bool)
    ensures
        r == ends(s@, p@),
{
    let p = chars_of(p);
    if p.len() > s.len() {
        return false;
    }
    same(&s[s.len() - p.len()..s.len()], p.as_slice())
}

/// What is left of `s` without the prefix `p`, if `s` begins with it.
pub open spec fn without_prefix(s: Seq<char>, p: Seq<char>) -> Option<Seq<char>> {
    if begins(s, p) {
        Some(s.skip(p.len() as int))
    } else {
        None
    }
}

/// What is left of `s` without the suffix `p`, if `s` ends with it.
pub open spec fn without_suffix(s: Seq<char>, p: Seq<char>) -> Option<Seq<char>> {
    if ends(s, p) {
        Some(s.take(s.len() - p.len()))
    } else {
        None
    }
}

pub open spec fn slice_view(r: Option<&[char]>) -> Option<Seq<char>> {
    match r {
        Some(t) => Some(t@),
        None => None,
    }
}

pub open spec fn text_option_view(r: Option<String>) -> Option<Seq<char>> {
    match r {
        Some(t) => Some(t@),
        None => None,
    }
}

pub fn strip_prefix<'a>(s: &'a [char], p: &str) -> (r: Option<&'a [char]>)
    ensures
        slice_view(r) == without_prefix(s@, p@),
{
    if starts_with(s, p) {
        let n: usize = p.unicode_len();
        Some(&s[n..s.len()])
    } else {
        None
    }
}

pub fn strip_suffix<'a>(s: &'a [char], p: &str) -> (r: Option<&'a [char]>)
    ensures
        slice_view(r) == without_suffix(s@, p@),
{
    if ends_with(s, p) {
        let n: usize = p.unicode_len();
        Some(&s[0..s.len() - n])
    } else {
        None
    }
}

/// Where `c` first stands in `s`; the length of `s` where it does not occur.
pub open spec fn index_of(s: Seq<char>, c: char) -> nat
    decreases s.len(),
{
    if s.len() == 0 || s[0] == c {
        0
    } else {
        1 + index_of(s.drop_first(), c)
    }
}

/// `index_of` is the least position that holds `c`.
pub proof fn lemma_index_of(s: Seq<char>, c: char)
    ensures
        index_of(s, c) <= s.len(),
        index_of(s, c) < s.len() ==> s[index_of(s, c) as int] == c,
        forall|i: int| 0 <= i < index_of(s, c) ==> s[i] != c,
    decreases s.len(),
{
    if s.len() > 0 && s[0] != c {
        let t = s.drop_first();
        lemma_index_of(t, c);
        assert forall|i: int| 0 <= i < index_of(s, c) implies s[i] != c by {
            if i > 0 {
                assert(s[i] == t[i - 1]);
            }
        }
    }
}

/// A position before which `c` does not occur, and at which it does (or the
/// text ends), is `index_of`.
pub proof fn lemma_index_of_is(s: Seq<char>, c: char, n: int)
    requires
        0 <= n <= s.len(),
        forall|i: int| 0 <= i < n ==> s[i] != c,
        n < s.len() ==> s[n] == c,
    ensures
        index_of(s, c) == n,
{
    lemma_index_of(s, c);
    let m = index_of(s, c) as int;
    if m < n {
        assert(s[m] != c);
    }
    if n < m {
        assert(s[n] != c);
    }
}

pub fn find(s: &[char], c: char) -> (n: usize)
    ensures
        n == index_of(s@, c),
        n <= s.len(),
{
    let mut n: usize = 0;
    while n < s.len() && s[n] != c
        invariant
            n <= s.len(),
            forall|i: int| 0 <= i < n ==> s@[i] != c,
        decreases s.len() - n,
    {
        n = n + 1;
    }
    proof {
        lemma_index_of_is(s@, c, n as int);
    }
    n
}

/// The views of a list of slices.
pub open spec fn slices(v: Seq<&[char]>) -> Seq<Seq<char>> {
    v.map_values(|s: &[char]| s@)
}

/// The views of a list of strings.
pub open spec fn strings(v: Seq<String>) -> Seq<Seq<char>> {
    v.map_values(|s: String| s@)
}

/// A line's text without the carriage return that belongs to its line feed.
pub open spec fn line_body(s: Seq<char>, ended: bool) -> Seq<char> {
    if ended && s.len() > 0 && s.last() == '\r' {
        s.drop_last()
    } else {
        s
    }
}

/// The lines of `s`. A line feed, or a carriage return followed by one, ends
/// a line; the last line needs no end.
pub open spec fn lines_of(s: Seq<char>) -> Seq<Seq<char>>
    decreases s.len(),
{
    if s.len() == 0 {
        seq![]
    } else {
        let n = index_of(s, '\n') as int;
        if n < s.len() {
            seq![line_body(s.take(n), true)] + lines_of(s.skip(n + 1))
        } else {
            seq![s]
        }
    }
}

pub fn lines<'a>(s: &'a [char]) -> (r: Vec<&'a [char]>)
    ensures
        slices(r@) == lines_of(s@),
{
    let mut out: Vec<&'a [char]> = Vec::new();
    let mut rest: &'a [char] = s;
    while rest.len() > 0
        invariant
            slices(out@) + lines_of(rest@) == lines_of(s@),
        decreases rest.len(),
    {
        let n: usize = find(rest, '\n');
        let ghost before = slices(out@);
        if n < rest.len() {
            let line: &'a [char] = &rest[0..n];
            let body: &'a [char] = if n > 0 && line[n - 1] == '\r' {
                &line[0..n - 1]
            } else {
                line
            };
            out.push(body);
            assert(body@ == line_body(rest@.take(n as int), true));
            assert(slices(out@) == before.push(body@));
            let next: &'a [char] = &rest[n + 1..rest.len()];
            assert(next@ == rest@.skip(n + 1));
            assert(before.push(body@) + lines_of(next@) == before + lines_of(rest@));
            rest = next;
        } else {
            out.push(rest);
            assert(slices(out@) == before.push(rest@));
            assert(before.push(rest@) == before + lines_of(rest@));
            rest = &rest[n..rest.len()];
        }
    }
    out
}

/// The length of the longest prefix of `s` without white space.
pub open spec fn word_len(s: Seq<char>) -> nat
    decreases s.len(),
{
    if s.len() == 0 || is_space(s[0]) {
        0
    } else {
        1 + word_len(s.drop_first())
    }
}

pub proof fn lemma_word_len(s: Seq<char>)
    ensures
        word_len(s) <= s.len(),
        word_len(s) < s.len() ==> is_space(s[word_len(s) as int]),
        forall|i: int| 0 <= i < word_len(s) ==> !is_space(s[i]),
    decreases s.len(),
{
    if s.len() > 0 && !is_space(s[0]) {
        let t = s.drop_first();
        lemma_word_len(t);
        assert forall|i: int| 0 <= i < word_len(s) implies !is_space(s[i]) by {
            if i > 0 {
                assert(s[i] == t[i - 1]);
            }
        }
    }
}

/// The maximal runs of characters of `s` that are not white space.
pub open spec fn words_of(s: Seq<char>) -> Seq<Seq<char>>
    decreases s.len(),
{
    if s.len() == 0 {
        seq![]
    } else if is_space(s[0]) {
        words_of(s.drop_first())
    } else {
        proof {
            lemma_word_len(s);
        }
        let n = word_len(s) as int;
        seq![s.take(n)] + words_of(s.skip(n))
    }
}

pub fn words<'a>(s: &'a [char]) -> (r: Vec<&'a [char]>)
    ensures
        slices(r@) == words_of(s@),
{
    let mut out: Vec<&'a [char]> = Vec::new();
    let mut rest: &'a [char] = s;
    while rest.len() > 0
        invariant
            slices(out@) + words_of(rest@) == words_of(s@),
        decreases rest.len(),
    {
        if space(rest[0]) {
            let next: &'a [char] = &rest[1..rest.len()];
            assert(next@ == rest@.drop_first());
            rest = next;
        } else {
            let ghost before = slices(out@);
            let mut n: usize = 0;
            while n < rest.len() && !space(rest[n])
                invariant
                    n <= rest.len(),
                    forall|i: int| 0 <= i < n ==> !is_space(rest@[i]),
                decreases rest.len() - n,
            {
                n = n + 1;
            }
            proof {
                lemma_word_len(rest@);
                let m = word_len(rest@) as int;
                if m < n {
                    assert(!is_space(rest@[m]));
                }
                if n < m {
                    assert(!is_space(rest@[n as int]));
                }
            }
            let word: &'a [char] = &rest[0..n];
            let next: &'a [char] = &rest[n..rest.len()];
            out.push(word);
            assert(word@ == rest@.take(n as int));
            assert(next@ == rest@.skip(n as int));
            assert(slices(out@) == before.push(word@));
            assert(before.push(word@) + words_of(next@) == before + words_of(rest@));
            rest = next;
        }
    }
    out
}

/// `s` without leading white space.
pub open spec fn trim_start_of(s: Seq<char>) -> Seq<char>
    decreases s.len(),
{
    if s.len() > 0 && is_space(s[0]) {
        trim_start_of(s.drop_first())
    } else {
        s
    }
}

/// `s` without trailing white space.
pub open spec fn trim_end_of(s: Seq<char>) -> Seq<char>
    decreases s.len(),
{
    if s.len() > 0 && is_space(s.last()) {
        trim_end_of(s.drop_last())
    } else {
        s
    }
}

/// `s` without leading and trailing white space.
pub open spec fn trim_of(s: Seq<char>) -> Seq<char> {
    trim_end_of(trim_start_of(s))
}

pub fn trim<'a>(s: &'a [char]) -> (r: &'a [char])
    ensures
        r@ == trim_of(s@),
{
    let mut a: &'a [char] = s;
    while a.len() > 0 && space(a[0])
        invariant
            trim_start_of(a@) == trim_start_of(s@),
        decreases a.len(),
    {
        let next: &'a [char] = &a[1..a.len()];
        assert(next@ == a@.drop_first());
        a = next;
    }
    trim_end(a)
}

pub fn trim_end<'a>(s: &'a [char]) -> (r: &'a [char])
    ensures
        r@ == trim_end_of(s@),
{
    let mut a: &'a [char] = s;
    while a.len() > 0 && space(a[a.len() - 1])
        invariant
            trim_end_of(a@) == trim_end_of(s@),
        decreases a.len(),
    {
        let next: &'a [char] = &a[0..a.len() - 1];
        assert(next@ == a@.drop_last());
        a = next;
    }
    a
}

/// The pieces of `s` between the occurrences of `c`: one more than there are
/// occurrences.
pub open spec fn split_of(s: Seq<char>, c: char) -> Seq<Seq<char>>
    decreases s.len(),
{
    let n = index_of(s, c) as int;
    if n < s.len() {
        seq![s.take(n)] + split_of(s.skip(n + 1), c)
    } else {
        seq![s]
    }
}

pub fn split<'a>(s: &'a [char], c: char) -> (r: Vec<&'a [char]>)
    ensures
        slices(r@) == split_of(s@, c),
{
    let mut out: Vec<&'a [char]> = Vec::new();
    let mut rest: &'a [char] = s;
    let mut n: usize = find(rest, c);
    while n < rest.len()
        invariant
            n == index_of(rest@, c),
            n <= rest.len(),
            slices(out@) + split_of(rest@, c) == split_of(s@, c),
        decreases rest.len(),
    {
        let ghost before = slices(out@);
        let piece: &'a [char] = &rest[0..n];
        let next: &'a [char] = &rest[n + 1..rest.len()];
        out.push(piece);
        assert(piece@ == rest@.take(n as int));
        assert(next@ == rest@.skip(n + 1));
        assert(slices(out@) == before.push(piece@));
        assert(before.push(piece@) + split_of(next@, c) == before + split_of(rest@, c));
        rest = next;
        n = find(rest, c);
    }
    let ghost before = slices(out@);
    out.push(rest);
    assert(slices(out@) == before.push(rest@));
    assert(before.push(rest@) == before + split_of(rest@, c));
    out
}

/// What stands before the first `c` of `s`, and what stands behind it.
pub open spec fn cut_at(s: Seq<char>, c: char) -> Option<(Seq<char>, Seq<char>)> {
    let n = index_of(s, c) as int;
    if n < s.len() {
        Some((s.take(n), s.skip(n + 1)))
    } else {
        None
    }
}

/// What stands before the first white space of `s`, and what stands behind it.
pub open spec fn cut_at_space(s: Seq<char>) -> Option<(Seq<char>, Seq<char>)> {
    let n = word_len(s) as int;
    if n < s.len() {
        Some((s.take(n), s.skip(n + 1)))
    } else {
        None
    }
}

pub open spec fn pair_view(r: Option<(&[char], &[char])>) -> Option<(Seq<char>, Seq<char>)> {
    match r {
        Some((a, b)) => Some((a@, b@)),
        None => None,
    }
}

pub fn split_once<'a>(s: &'a [char], c: char) -> (r: Option<(&'a [char], &'a [char])>)
    ensures
        pair_view(r) == cut_at(s@, c),
{
    let n: usize = find(s, c);
    if n < s.len() {
        Some((&s[0..n], &s[n + 1..s.len()]))
    } else {
        None
    }
}

pub fn split_once_space<'a>(s: &'a [char]) -> (r: Option<(&'a [char], &'a [char])>)
    ensures
        pair_view(r) == cut_at_space(s@),
{
    let mut n: usize = 0;
    while n < s.len() && !space(s[n])
        invariant
            n <= s.len(),
            forall|i: int| 0 <= i < n ==> !is_space(s@[i]),
        decreases s.len() - n,
    {
        n = n + 1;
    }
    proof {
        lemma_word_len(s@);
        let m = word_len(s@) as int;
        if m < n {
            assert(!is_space(s@[m]));
        }
        if n < m {
            assert(!is_space(s@[n as int]));
        }
    }
    if n < s.len() {
        Some((&s[0..n], &s[n + 1..s.len()]))
    } else {
        None
    }
}

/// At most the first `n` of `s`.
pub open spec fn first_of<T>(s: Seq<T>, n: nat) -> Seq<T> {
    if s.len() <= n {
        s
    } else {
        s.take(n as int)
    }
}

/// At most the first `n` lines.
pub fn first_lines<'a>(s: &'a [char], n: usize) -> (r: Vec<&'a [char]>)
    ensures
        slices(r@) == first_of(lines_of(s@), n as nat),
        r.len() <= n,
{
    let mut all = lines(s);
    let ghost before = all@;
    all.truncate(n);
    assert(slices(all@) == first_of(slices(before), n as nat));
    all
}

pub fn text2(a: &str, b: &str) -> (r: String)
    ensures
        r@ == a@ + b@,
{
    let mut out: String = a.to_owned();
    out.append(b);
    out
}

pub fn text3(a: &str, b: &str, c: &str) -> (r: String)
    ensures
        r@ == a@ + b@ + c@,
{
    let mut out: String = a.to_owned();
    out.append(b);
    out.append(c);
    out
}

pub fn text4(a: &str, b: &str, c: &str, d: &str) -> (r: String)
    ensures
        r@ == a@ + b@ + c@ + d@,
{
    let mut out: String = a.to_owned();
    out.append(b);
    out.append(c);
    out.append(d);
    out
}

pub fn text5(a: &str, b: &str, c: &str, d: &str, e: &str) -> (r: String)
    ensures
        r@ == a@ + b@ + c@ + d@ + e@,
{
    let mut out: String = a.to_owned();
    out.append(b);
    out.append(c);
    out.append(d);
    out.append(e);
    out
}

// ---------------------------------------------------------------------------
// How a text is taken apart
// ---------------------------------------------------------------------------
proof fn lemma_word_len_is(s: Seq<char>, n: int)
    requires
        0 <= n <= s.len(),
        forall|i: int| 0 <= i < n ==> !is_space(s[i]),
        n < s.len() ==> is_space(s[n]),
    ensures
        word_len(s) == n,
{
    lemma_word_len(s);
    if word_len(s) < n {
        assert(is_space(s[word_len(s) as int]));
    }
    if n < word_len(s) {
        assert(!is_space(s[n]));
    }
}

/// The words of a text are those on either side of a blank, in their order.
pub proof fn words_are_cut_at_blanks(a: Seq<char>, c: char, b: Seq<char>)
    requires
        is_space(c),
    ensures
        words_of(a + seq![c] + b) == words_of(a) + words_of(b),
    decreases a.len(),
{
    let s = a + seq![c] + b;
    if a.len() == 0 {
        assert(s[0] == c);
        assert(s.drop_first() =~= b);
        assert(words_of(a) + words_of(b) =~= words_of(b));
    } else if is_space(a[0]) {
        assert(s[0] == a[0]);
        assert(s.drop_first() =~= a.drop_first() + seq![c] + b);
        words_are_cut_at_blanks(a.drop_first(), c, b);
    } else {
        lemma_word_len(a);
        let n = word_len(a) as int;
        assert(s[0] == a[0]);
        assert forall|i: int| 0 <= i < n implies !is_space(s[i]) by {
            assert(s[i] == a[i]);
        }
        assert(is_space(s[n])) by {
            if n < a.len() {
                assert(s[n] == a[n]);
            } else {
                assert(s[n] == c);
            }
        }
        lemma_word_len_is(s, n);
        let rest = a.skip(n);
        assert(s.take(n) =~= a.take(n));
        assert(s.skip(n) =~= rest + seq![c] + b);
        words_are_cut_at_blanks(rest, c, b);
        assert(seq![a.take(n)] + (words_of(rest) + words_of(b)) =~= words_of(a) + words_of(b));
    }
}

/// A text without blanks is one word, and an empty one none.
pub proof fn a_word_is_itself(a: Seq<char>)
    requires
        forall|i: int| 0 <= i < a.len() ==> !is_space(a[i]),
    ensures
        words_of(a) == (if a.len() == 0 {
            Seq::<Seq<char>>::empty()
        } else {
            seq![a]
        }),
{
    if a.len() > 0 {
        lemma_word_len_is(a, a.len() as int);
        assert(a.take(a.len() as int) =~= a);
        assert(a.skip(a.len() as int) =~= Seq::<char>::empty());
        assert(words_of(Seq::<char>::empty()) == Seq::<Seq<char>>::empty());
        assert(seq![a] + Seq::<Seq<char>>::empty() =~= seq![a]);
    }
}

/// The first line ends at the first line feed, or at the carriage return before it,
/// and the others follow behind.
pub proof fn lines_are_cut_at_line_feeds(a: Seq<char>, b: Seq<char>)
    requires
        forall|i: int| 0 <= i < a.len() ==> a[i] != '\n',
    ensures
        lines_of(a + seq!['\n'] + b)[0] == (if a.len() > 0 && a.last() == '\r' {
            a.drop_last()
        } else {
            a
        }),
        lines_of(a + seq!['\n'] + b).skip(1) == lines_of(b),
        a.len() > 0 ==> lines_of(a) == seq![a],
        lines_of(Seq::<char>::empty()).len() == 0,
{
    let s = a + seq!['\n'] + b;
    let n = a.len() as int;
    assert forall|i: int| 0 <= i < n implies s[i] != '\n' by {
        assert(s[i] == a[i]);
    }
    lemma_index_of_is(s, '\n', n);
    assert(s.take(n) =~= a);
    assert(s.skip(n + 1) =~= b);
    assert(lines_of(s).skip(1) =~= lines_of(b));
    if a.len() > 0 {
        lemma_index_of_is(a, '\n', n);
    }
}

proof fn lemma_trim_start(a: Seq<char>, s: Seq<char>)
    requires
        forall|i: int| 0 <= i < a.len() ==> is_space(a[i]),
        s.len() > 0 ==> !is_space(s[0]),
    ensures
        trim_start_of(a + s) == s,
    decreases a.len(),
{
    if a.len() == 0 {
        assert(a + s =~= s);
    } else {
        assert((a + s)[0] == a[0]);
        assert((a + s).drop_first() =~= a.drop_first() + s);
        lemma_trim_start(a.drop_first(), s);
    }
}

proof fn lemma_trim_end(s: Seq<char>, b: Seq<char>)
    requires
        forall|i: int| 0 <= i < b.len() ==> is_space(b[i]),
        s.len() > 0 ==> !is_space(s.last()),
    ensures
        trim_end_of(s + b) == s,
    decreases b.len(),
{
    if b.len() == 0 {
        assert(s + b =~= s);
    } else {
        assert((s + b).last() == b.last());
        assert((s + b).drop_last() =~= s + b.drop_last());
        lemma_trim_end(s, b.drop_last());
    }
}

/// Trimming takes the blanks off both ends, and nothing else.
pub proof fn trimming_takes_off_the_blanks(a: Seq<char>, s: Seq<char>, b: Seq<char>)
    requires
        forall|i: int| 0 <= i < a.len() ==> is_space(a[i]),
        forall|i: int| 0 <= i < b.len() ==> is_space(b[i]),
        s.len() > 0,
        !is_space(s[0]),
        !is_space(s.last()),
    ensures
        trim_of(a + s + b) == s,
        trim_of(a) == Seq::<char>::empty(),
{
    assert((s + b)[0] == s[0]);
    lemma_trim_start(a, s + b);
    assert(a + s + b =~= a + (s + b));
    lemma_trim_end(s, b);
    lemma_trim_start(a, Seq::<char>::empty());
    assert(a + Seq::<char>::empty() =~= a);
    assert(trim_end_of(Seq::<char>::empty()) == Seq::<char>::empty());
}

/// A text is cut at the first of its marks, which neither part keeps, and not at all
/// where it has none.
pub proof fn texts_are_cut_at_the_first_mark(a: Seq<char>, c: char, b: Seq<char>)
    requires
        forall|i: int| 0 <= i < a.len() ==> a[i] != c,
    ensures
        cut_at(a + seq![c] + b, c) == Some((a, b)),
        cut_at(a, c) is None,
{
    let s = a + seq![c] + b;
    let n = a.len() as int;
    assert forall|i: int| 0 <= i < n implies s[i] != c by {
        assert(s[i] == a[i]);
    }
    lemma_index_of_is(s, c, n);
    lemma_index_of_is(a, c, n);
    assert(s.take(n) =~= a);
    assert(s.skip(n + 1) =~= b);
}

/// The same of the first white space.
pub proof fn texts_are_cut_at_the_first_blank(a: Seq<char>, c: char, b: Seq<char>)
    requires
        forall|i: int| 0 <= i < a.len() ==> !is_space(a[i]),
        is_space(c),
    ensures
        cut_at_space(a + seq![c] + b) == Some((a, b)),
        cut_at_space(a) is None,
{
    let s = a + seq![c] + b;
    let n = a.len() as int;
    assert forall|i: int| 0 <= i < n implies !is_space(s[i]) by {
        assert(s[i] == a[i]);
    }
    lemma_word_len_is(s, n);
    lemma_word_len_is(a, n);
    assert(s.take(n) =~= a);
    assert(s.skip(n + 1) =~= b);
}

/// What was put before a text, or behind it, is taken off again.
pub proof fn affixes_are_taken_off(p: Seq<char>, s: Seq<char>)
    ensures
        without_prefix(p + s, p) == Some(s),
        without_suffix(s + p, p) == Some(s),
{
    assert((p + s).take(p.len() as int) =~= p);
    assert((p + s).skip(p.len() as int) =~= s);
    assert((s + p).skip(s.len() as int) =~= p);
    assert((s + p).take(s.len() as int) =~= s);
}

} // verus!
