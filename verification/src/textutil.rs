//! Character-sequence utilities shared by the renderers: conversion
//! between `str` and character vectors, decimal rendering of ordinals,
//! and first-occurrence substring search and replacement.

use vstd::prelude::*;

verus! {

/// The characters of a string slice as a vector.
pub fn chars_of(s: &str) -> (r: Vec<char>)
    ensures
        r@ == s@,
{
    let n = s.unicode_len();
    let mut r: Vec<char> = Vec::new();
    let mut i: usize = 0;
    while i < n
        invariant
            n == s@.len(),
            0 <= i <= n,
            r@ == s@.subrange(0, i as int),
        decreases n - i,
    {
        r.push(s.get_char(i));
        i = i + 1;
        proof {
            assert(r@ =~= s@.subrange(0, i as int));
        }
    }
    proof {
        assert(r@ =~= s@);
    }
    r
}

/// Relies on `String`'s `FromIterator<char>` implementation: collecting
/// an iterator of characters yields the string of exactly those
/// characters in order.
#[verifier::external_body]
pub fn string_from_chars(v: &Vec<char>) -> (s: String)
    ensures
        s@ == v@,
{
    v.iter().collect()
}

/// Appends the characters of `src[from..to]` to `out`.
pub fn extend_sub(out: &mut Vec<char>, src: &Vec<char>, from: usize, to: usize)
    requires
        from <= to <= src@.len(),
    ensures
        final(out)@ == old(out)@ + src@.subrange(from as int, to as int),
{
    let mut i: usize = from;
    while i < to
        invariant
            from <= i <= to <= src@.len(),
            out@ == old(out)@ + src@.subrange(from as int, i as int),
        decreases to - i,
    {
        out.push(src[i]);
        i = i + 1;
        proof {
            assert(old(out)@ + src@.subrange(from as int, i as int) =~= out@);
        }
    }
}

/// Appends all characters of `src` to `out`.
pub fn extend_chars(out: &mut Vec<char>, src: &Vec<char>)
    ensures
        final(out)@ == old(out)@ + src@,
{
    let len = src.len();
    extend_sub(out, src, 0, len);
    proof {
        assert(src@.subrange(0, src@.len() as int) =~= src@);
    }
}

/// The character for one decimal digit.
pub open spec fn dec_digit(d: int) -> char {
    if d == 0 {
        '0'
    } else if d == 1 {
        '1'
    } else if d == 2 {
        '2'
    } else if d == 3 {
        '3'
    } else if d == 4 {
        '4'
    } else if d == 5 {
        '5'
    } else if d == 6 {
        '6'
    } else if d == 7 {
        '7'
    } else if d == 8 {
        '8'
    } else {
        '9'
    }
}

/// The decimal digits of a non-negative integer, most significant first.
pub open spec fn spec_decimal(n: int) -> Seq<char>
    decreases n,
{
    if n <= 9 {
        seq![dec_digit(n)]
    } else {
        spec_decimal(n / 10).push(dec_digit(n % 10))
    }
}

/// Renders a number as decimal digit characters.
pub fn decimal_chars(n: u128) -> (r: Vec<char>)
    ensures
        r@ == spec_decimal(n as int),
{
    let mut out: Vec<char> = Vec::new();
    let mut m: u128 = n;
    while m > 9
        invariant
            spec_decimal(n as int) == spec_decimal(m as int) + out@,
        decreases m,
    {
        out.insert(0, digit_char(m % 10));
        m = m / 10;
        proof {
            assert(spec_decimal(n as int) =~= spec_decimal(m as int) + out@);
        }
    }
    out.insert(0, digit_char(m));
    proof {
        assert(spec_decimal(n as int) =~= out@);
    }
    out
}

/// One digit value as its character.
fn digit_char(d: u128) -> (c: char)
    requires
        d <= 9,
    ensures
        c == dec_digit(d as int),
{
    if d == 0 {
        '0'
    } else if d == 1 {
        '1'
    } else if d == 2 {
        '2'
    } else if d == 3 {
        '3'
    } else if d == 4 {
        '4'
    } else if d == 5 {
        '5'
    } else if d == 6 {
        '6'
    } else if d == 7 {
        '7'
    } else if d == 8 {
        '8'
    } else {
        '9'
    }
}

/// The first position at or after `i` holding character `c`, or -1.
pub open spec fn find_char_from(s: Seq<char>, c: char, i: int) -> int
    decreases s.len() - i + 1,
{
    if i < 0 || i >= s.len() {
        -1
    } else if s[i] == c {
        i
    } else {
        find_char_from(s, c, i + 1)
    }
}

/// Where the first occurrence of `c` at or after `i` is: at the first
/// position `k >= i` with `s[k] == c`, or absent.
pub proof fn lemma_find_char_at(s: Seq<char>, c: char, i: int, k: int)
    requires
        0 <= i <= k <= s.len(),
        forall|j: int| i <= j < k ==> s[j] != c,
        k == s.len() || s[k] == c,
    ensures
        find_char_from(s, c, i) == if k == s.len() {
            -1int
        } else {
            k
        },
    decreases k - i,
{
    if i < k {
        lemma_find_char_at(s, c, i + 1, k);
    }
}

/// A found position is a real position: in bounds and holding `c`.
pub proof fn lemma_find_char_props(s: Seq<char>, c: char, i: int)
    requires
        0 <= i,
    ensures
        find_char_from(s, c, i) == -1 || (i <= find_char_from(s, c, i) < s.len() && s[find_char_from(
            s,
            c,
            i,
        )] == c),
    decreases s.len() - i + 1,
{
    if i < s.len() && s[i] != c {
        lemma_find_char_props(s, c, i + 1);
    }
}

/// The segments of `s` between occurrences of `c`. Always at least one
/// segment; no segment contains `c`.
pub open spec fn spec_split_char(s: Seq<char>, c: char) -> Seq<Seq<char>>
    decreases s.len(),
    via spec_split_char_decreases
{
    let i = find_char_from(s, c, 0);
    if i < 0 {
        seq![s]
    } else {
        seq![s.subrange(0, i)] + spec_split_char(s.subrange(i + 1, s.len() as int), c)
    }
}

#[via_fn]
proof fn spec_split_char_decreases(s: Seq<char>, c: char) {
    lemma_find_char_props(s, c, 0);
}

/// Splits `s` into the segments between occurrences of `c`.
pub fn split_char(s: &Vec<char>, c: char) -> (r: Vec<Vec<char>>)
    ensures
        r.deep_view() == spec_split_char(s@, c),
{
    let n = s.len();
    let mut out: Vec<Vec<char>> = Vec::new();
    let mut start: usize = 0;
    let mut i: usize = 0;
    proof {
        assert(s@.subrange(0, n as int) =~= s@);
        assert(out.deep_view() + spec_split_char(s@, c) =~= spec_split_char(s@, c));
    }
    while i < n
        invariant
            n == s@.len(),
            0 <= start <= i <= n,
            forall|j: int| start <= j < i ==> s@[j] != c,
            spec_split_char(s@, c) == out.deep_view() + spec_split_char(
                s@.subrange(start as int, n as int),
                c,
            ),
        decreases n - i,
    {
        if s[i] == c {
            let mut seg: Vec<char> = Vec::new();
            extend_sub(&mut seg, s, start, i);
            let ghost pre = out.deep_view();
            let ghost rest = s@.subrange(start as int, n as int);
            proof {
                assert(forall|j: int| 0 <= j < i - start ==> rest[j] == s@[start + j]);
                assert(rest[i - start] == c);
                lemma_find_char_at(rest, c, 0, i - start);
                assert(seg@ =~= rest.subrange(0, i - start));
                assert(rest.subrange(i - start + 1, rest.len() as int) =~= s@.subrange(
                    i + 1,
                    n as int,
                ));
                assert(spec_split_char(rest, c) == seq![seg@] + spec_split_char(
                    s@.subrange(i + 1, n as int),
                    c,
                ));
            }
            out.push(seg);
            start = i + 1;
            proof {
                assert(out.deep_view() =~~= pre.push(seg@));
                assert(pre.push(seg@) =~= pre + seq![seg@]);
                assert(pre + seq![seg@] + spec_split_char(
                    s@.subrange(start as int, n as int),
                    c,
                ) =~= pre + (seq![seg@] + spec_split_char(s@.subrange(start as int, n as int), c)));
            }
        }
        i = i + 1;
    }
    let mut seg: Vec<char> = Vec::new();
    extend_sub(&mut seg, s, start, n);
    let ghost pre = out.deep_view();
    let ghost rest = s@.subrange(start as int, n as int);
    proof {
        assert(forall|j: int| 0 <= j < rest.len() ==> rest[j] == s@[start + j]);
        lemma_find_char_at(rest, c, 0, rest.len() as int);
        assert(rest =~= seg@);
        assert(spec_split_char(rest, c) == seq![seg@]);
    }
    out.push(seg);
    proof {
        assert(out.deep_view() =~~= pre.push(seg@));
        assert(pre.push(seg@) =~= pre + seq![seg@]);
    }
    out
}

/// A line segment without its trailing carriage return, if it has one.
pub open spec fn spec_strip_cr(seg: Seq<char>) -> Seq<char> {
    if seg.len() > 0 && seg[seg.len() - 1] == '\r' {
        seg.drop_last()
    } else {
        seg
    }
}

/// The lines of `s`: the segments between line-feed characters, each
/// without a trailing carriage return, with no final empty segment for a
/// trailing line feed, and no lines at all for empty input.
pub open spec fn spec_lines(s: Seq<char>) -> Seq<Seq<char>> {
    if s.len() == 0 {
        seq![]
    } else {
        let segs = spec_split_char(s, '\n');
        let kept = if s[s.len() - 1] == '\n' {
            segs.drop_last()
        } else {
            segs
        };
        kept.map_values(|seg: Seq<char>| spec_strip_cr(seg))
    }
}

/// Splitting never yields zero segments.
pub proof fn lemma_split_nonempty(s: Seq<char>, c: char)
    ensures
        spec_split_char(s, c).len() >= 1,
    decreases s.len(),
{
    lemma_find_char_props(s, c, 0);
    let i = find_char_from(s, c, 0);
    if i >= 0 {
        lemma_split_nonempty(s.subrange(i + 1, s.len() as int), c);
    }
}

/// The lines of `s`, as `str::lines` yields them.
pub fn lines_of(s: &Vec<char>) -> (r: Vec<Vec<char>>)
    ensures
        r.deep_view() == spec_lines(s@),
{
    let n = s.len();
    if n == 0 {
        let r: Vec<Vec<char>> = Vec::new();
        proof {
            assert(r.deep_view() =~= spec_lines(s@));
        }
        return r;
    }
    let mut segs = split_char(s, '\n');
    let ghost all = spec_split_char(s@, '\n');
    proof {
        lemma_split_nonempty(s@, '\n');
    }
    if s[n - 1] == '\n' {
        segs.pop();
        proof {
            assert(segs.deep_view() =~~= all.drop_last());
        }
    }
    let ghost kept = segs.deep_view();
    let ghost target = spec_lines(s@);
    proof {
        assert(target =~= kept.map_values(|seg: Seq<char>| spec_strip_cr(seg)));
        assert(forall|j: int| 0 <= j < kept.len() ==> target[j] == spec_strip_cr(kept[j]));
    }
    let mut out: Vec<Vec<char>> = Vec::new();
    let mut k: usize = 0;
    while k < segs.len()
        invariant
            kept == segs.deep_view(),
            kept.len() == target.len(),
            forall|j: int| 0 <= j < kept.len() ==> target[j] == spec_strip_cr(kept[j]),
            0 <= k <= segs@.len(),
            out.deep_view() == target.subrange(0, k as int),
        decreases segs@.len() - k,
    {
        let seg = &segs[k];
        proof {
            assert(kept[k as int] =~= seg@);
        }
        let m = seg.len();
        let mut line: Vec<char> = Vec::new();
        if m > 0 && seg[m - 1] == '\r' {
            extend_sub(&mut line, seg, 0, m - 1);
            proof {
                assert(line@ =~= seg@.drop_last());
            }
        } else {
            extend_sub(&mut line, seg, 0, m);
            proof {
                assert(line@ =~= seg@);
            }
        }
        proof {
            assert(line.deep_view() =~= line@);
            assert(line@ == spec_strip_cr(kept[k as int]));
        }
        let ghost outpre = out.deep_view();
        let ghost lv = line.deep_view();
        proof {
            assert(target.subrange(0, k as int).len() == k as int);
            assert(out.deep_view().len() == out@.len());
            assert(out@.len() == k);
        }
        out.push(line);
        k = k + 1;
        proof {
            assert(out@.len() == k);
            assert forall|j: int| 0 <= j < k implies out.deep_view()[j] == target.subrange(
                0,
                k as int,
            )[j] by {
                if j < k - 1 {
                    assert(out@[j] == out@.drop_last()[j]);
                    assert(out.deep_view()[j] == outpre[j]);
                } else {
                    assert(out@[j] == out@.last());
                    assert(out.deep_view()[j] == lv);
                }
            }
            assert(out.deep_view() =~= target.subrange(0, k as int));
        }
    }
    proof {
        assert(target.subrange(0, target.len() as int) =~= target);
        assert(out.deep_view() =~= spec_lines(s@));
    }
    out
}

/// `s` with every occurrence of `c` removed.
pub open spec fn spec_remove_char(s: Seq<char>, c: char) -> Seq<char>
    decreases s.len(),
{
    if s.len() == 0 {
        seq![]
    } else if s[0] == c {
        spec_remove_char(s.subrange(1, s.len() as int), c)
    } else {
        seq![s[0]] + spec_remove_char(s.subrange(1, s.len() as int), c)
    }
}

/// Removal distributes over concatenation.
pub proof fn lemma_remove_char_concat(a: Seq<char>, b: Seq<char>, c: char)
    ensures
        spec_remove_char(a + b, c) == spec_remove_char(a, c) + spec_remove_char(b, c),
    decreases a.len(),
{
    if a.len() == 0 {
        assert(a + b =~= b);
        assert(spec_remove_char(a, c) + spec_remove_char(b, c) =~= spec_remove_char(b, c));
    } else {
        let t = a + b;
        assert(t[0] == a[0]);
        assert(t.subrange(1, t.len() as int) =~= a.subrange(1, a.len() as int) + b);
        lemma_remove_char_concat(a.subrange(1, a.len() as int), b, c);
        if a[0] == c {
        } else {
            assert(seq![a[0]] + (spec_remove_char(a.subrange(1, a.len() as int), c)
                + spec_remove_char(b, c)) =~= (seq![a[0]] + spec_remove_char(
                a.subrange(1, a.len() as int),
                c,
            )) + spec_remove_char(b, c));
        }
    }
}

/// The removed character does not occur in the result.
pub proof fn lemma_remove_char_gone(s: Seq<char>, c: char)
    ensures
        forall|k: int|
            0 <= k < spec_remove_char(s, c).len() ==> #[trigger] spec_remove_char(s, c)[k] != c,
    decreases s.len(),
{
    if s.len() > 0 {
        let tail = s.subrange(1, s.len() as int);
        lemma_remove_char_gone(tail, c);
        let r = spec_remove_char(s, c);
        let rt = spec_remove_char(tail, c);
        assert forall|k: int| 0 <= k < r.len() implies #[trigger] r[k] != c by {
            if s[0] == c {
                assert(r[k] == rt[k]);
            } else {
                if k == 0 {
                    assert(r[k] == s[0]);
                } else {
                    assert(r[k] == rt[k - 1]);
                }
            }
        }
    }
}

/// `s` with every occurrence of `c` removed.
pub fn remove_char(s: &Vec<char>, c: char) -> (r: Vec<char>)
    ensures
        r@ == spec_remove_char(s@, c),
{
    let n = s.len();
    let mut out: Vec<char> = Vec::new();
    let mut i: usize = 0;
    proof {
        assert(s@.subrange(0, n as int) =~= s@);
        assert(out@ + spec_remove_char(s@, c) =~= spec_remove_char(s@, c));
    }
    while i < n
        invariant
            n == s@.len(),
            0 <= i <= n,
            spec_remove_char(s@, c) == out@ + spec_remove_char(s@.subrange(i as int, n as int), c),
        decreases n - i,
    {
        let ghost suffix = s@.subrange(i as int, n as int);
        proof {
            assert(suffix[0] == s@[i as int]);
            assert(suffix.subrange(1, suffix.len() as int) =~= s@.subrange(i + 1, n as int));
        }
        if s[i] != c {
            out.push(s[i]);
        }
        i = i + 1;
        proof {
            assert(spec_remove_char(s@, c) =~= out@ + spec_remove_char(
                s@.subrange(i as int, n as int),
                c,
            ));
        }
    }
    proof {
        assert(s@.subrange(i as int, n as int).len() == 0);
        assert(spec_remove_char(s@, c) =~= out@);
    }
    out
}

/// Whether a character counts as trimmable whitespace: the characters of
/// the Unicode `White_Space` property.
pub open spec fn is_ws(c: char) -> bool {
    c == '\u{9}' || c == '\u{a}' || c == '\u{b}' || c == '\u{c}' || c == '\u{d}' || c == ' ' || c
        == '\u{85}' || c == '\u{a0}' || c == '\u{1680}' || c == '\u{2000}' || c == '\u{2001}' || c
        == '\u{2002}' || c == '\u{2003}' || c == '\u{2004}' || c == '\u{2005}' || c == '\u{2006}'
        || c == '\u{2007}' || c == '\u{2008}' || c == '\u{2009}' || c == '\u{200a}' || c
        == '\u{2028}' || c == '\u{2029}' || c == '\u{202f}' || c == '\u{205f}' || c == '\u{3000}'
}

/// Whether `c` is trimmable whitespace.
pub fn ws_char(c: char) -> (r: bool)
    ensures
        r == is_ws(c),
{
    c == '\u{9}' || c == '\u{a}' || c == '\u{b}' || c == '\u{c}' || c == '\u{d}' || c == ' ' || c
        == '\u{85}' || c == '\u{a0}' || c == '\u{1680}' || c == '\u{2000}' || c == '\u{2001}' || c
        == '\u{2002}' || c == '\u{2003}' || c == '\u{2004}' || c == '\u{2005}' || c == '\u{2006}'
        || c == '\u{2007}' || c == '\u{2008}' || c == '\u{2009}' || c == '\u{200a}' || c
        == '\u{2028}' || c == '\u{2029}' || c == '\u{202f}' || c == '\u{205f}' || c == '\u{3000}'
}

/// `s` without leading whitespace.
pub open spec fn spec_trim_start(s: Seq<char>) -> Seq<char>
    decreases s.len(),
{
    if s.len() > 0 && is_ws(s[0]) {
        spec_trim_start(s.subrange(1, s.len() as int))
    } else {
        s
    }
}

/// `s` without trailing whitespace.
pub open spec fn spec_trim_end(s: Seq<char>) -> Seq<char>
    decreases s.len(),
{
    if s.len() > 0 && is_ws(s[s.len() - 1]) {
        spec_trim_end(s.subrange(0, s.len() - 1))
    } else {
        s
    }
}

/// `s` without leading and trailing whitespace.
pub open spec fn spec_trim(s: Seq<char>) -> Seq<char> {
    spec_trim_end(spec_trim_start(s))
}

/// Trimming from the front stops exactly at the first non-blank position.
pub proof fn lemma_trim_start_at(s: Seq<char>, a: int)
    requires
        0 <= a <= s.len(),
        forall|j: int| 0 <= j < a ==> is_ws(s[j]),
        a == s.len() || !is_ws(s[a]),
    ensures
        spec_trim_start(s) == s.subrange(a, s.len() as int),
    decreases a,
{
    if a == 0 {
        assert(s.subrange(0, s.len() as int) =~= s);
    } else {
        let t = s.subrange(1, s.len() as int);
        lemma_trim_start_at(t, a - 1);
        assert(t.subrange(a - 1, t.len() as int) =~= s.subrange(a, s.len() as int));
    }
}

/// Trimming from the back stops exactly after the last non-blank position.
pub proof fn lemma_trim_end_at(s: Seq<char>, b: int)
    requires
        0 <= b <= s.len(),
        forall|j: int| b <= j < s.len() ==> is_ws(s[j]),
        b == 0 || !is_ws(s[b - 1]),
    ensures
        spec_trim_end(s) == s.subrange(0, b),
    decreases s.len(),
{
    if b == s.len() {
        assert(s.subrange(0, b) =~= s);
    } else {
        let t = s.subrange(0, s.len() - 1);
        lemma_trim_end_at(t, b);
        assert(t.subrange(0, b) =~= s.subrange(0, b));
    }
}

/// `s` with leading and trailing whitespace removed.
pub fn trim_chars(s: &Vec<char>) -> (r: Vec<char>)
    ensures
        r@ == spec_trim(s@),
{
    let n = s.len();
    let mut a: usize = 0;
    while a < n && ws_char(s[a])
        invariant
            n == s@.len(),
            0 <= a <= n,
            forall|j: int| 0 <= j < a ==> is_ws(s@[j]),
        decreases n - a,
    {
        a = a + 1;
    }
    proof {
        lemma_trim_start_at(s@, a as int);
    }
    let mut b: usize = n;
    while b > a && ws_char(s[b - 1])
        invariant
            n == s@.len(),
            a <= b <= n,
            forall|j: int| b <= j < n ==> is_ws(s@[j]),
        decreases b,
    {
        b = b - 1;
    }
    let mut r: Vec<char> = Vec::new();
    extend_sub(&mut r, s, a, b);
    proof {
        let t = s@.subrange(a as int, n as int);
        lemma_trim_end_at(t, b - a);
        assert(t.subrange(0, b - a) =~= s@.subrange(a as int, b as int));
        assert(r@ =~= spec_trim(s@));
    }
    r
}

/// Whether `s` is blank: nothing remains after trimming.
pub fn is_blank(s: &Vec<char>) -> (r: bool)
    ensures
        r == (spec_trim(s@).len() == 0),
{
    let n = s.len();
    let mut a: usize = 0;
    while a < n && ws_char(s[a])
        invariant
            n == s@.len(),
            0 <= a <= n,
            forall|j: int| 0 <= j < a ==> is_ws(s@[j]),
        decreases n - a,
    {
        a = a + 1;
    }
    proof {
        lemma_trim_start_at(s@, a as int);
        if a < n {
            assert(spec_trim_start(s@)[0] == s@[a as int]);
            assert(spec_trim(s@).len() > 0) by {
                lemma_trim_end_keeps_head(spec_trim_start(s@));
            }
        } else {
            assert(spec_trim_start(s@) =~= Seq::<char>::empty());
        }
    }
    a == n
}

/// Trimming the back of a sequence whose head is not blank keeps a
/// non-empty result.
pub proof fn lemma_trim_end_keeps_head(s: Seq<char>)
    requires
        s.len() > 0,
        !is_ws(s[0]),
    ensures
        spec_trim_end(s).len() > 0,
        spec_trim_end(s)[0] == s[0],
    decreases s.len(),
{
    if s.len() > 0 && is_ws(s[s.len() - 1]) {
        let t = s.subrange(0, s.len() - 1);
        lemma_trim_end_keeps_head(t);
    }
}

/// `s` without its leading occurrences of `c`.
pub open spec fn spec_strip_leading(s: Seq<char>, c: char) -> Seq<char>
    decreases s.len(),
{
    if s.len() > 0 && s[0] == c {
        spec_strip_leading(s.subrange(1, s.len() as int), c)
    } else {
        s
    }
}

/// Stripping stops exactly at the first position not holding `c`.
pub proof fn lemma_strip_leading_at(s: Seq<char>, c: char, a: int)
    requires
        0 <= a <= s.len(),
        forall|j: int| 0 <= j < a ==> s[j] == c,
        a == s.len() || s[a] != c,
    ensures
        spec_strip_leading(s, c) == s.subrange(a, s.len() as int),
    decreases a,
{
    if a == 0 {
        assert(s.subrange(0, s.len() as int) =~= s);
    } else {
        let t = s.subrange(1, s.len() as int);
        lemma_strip_leading_at(t, c, a - 1);
        assert(t.subrange(a - 1, t.len() as int) =~= s.subrange(a, s.len() as int));
    }
}

/// `s` with every leading occurrence of `c` removed.
pub fn strip_leading(s: &Vec<char>, c: char) -> (r: Vec<char>)
    ensures
        r@ == spec_strip_leading(s@, c),
{
    let n = s.len();
    let mut a: usize = 0;
    while a < n && s[a] == c
        invariant
            n == s@.len(),
            0 <= a <= n,
            forall|j: int| 0 <= j < a ==> s@[j] == c,
        decreases n - a,
    {
        a = a + 1;
    }
    let mut r: Vec<char> = Vec::new();
    extend_sub(&mut r, s, a, n);
    proof {
        lemma_strip_leading_at(s@, c, a as int);
        assert(r@ =~= spec_strip_leading(s@, c));
    }
    r
}

/// Whether `pat` occurs in `s` starting at position `i`.
pub open spec fn match_at(s: Seq<char>, pat: Seq<char>, i: int) -> bool {
    0 <= i && i + pat.len() <= s.len() && s.subrange(i, i + pat.len() as int) == pat
}

/// The first position at or after `i` where `pat` occurs in `s`, or -1.
pub open spec fn find_from(s: Seq<char>, pat: Seq<char>, i: int) -> int
    decreases s.len() - i + 1,
{
    if i < 0 || i + pat.len() > s.len() {
        -1
    } else if match_at(s, pat, i) {
        i
    } else {
        find_from(s, pat, i + 1)
    }
}

/// `s` with the first occurrence of `pat`, if any, replaced by `rep`.
pub open spec fn spec_replace_first(s: Seq<char>, pat: Seq<char>, rep: Seq<char>) -> Seq<char> {
    let i = find_from(s, pat, 0);
    if i < 0 {
        s
    } else {
        s.subrange(0, i) + rep + s.subrange(i + pat.len() as int, s.len() as int)
    }
}

/// Whether `pat` occurs in `s` at position `i`, tested by characters.
fn is_match_at(s: &Vec<char>, pat: &Vec<char>, i: usize) -> (r: bool)
    requires
        i + pat@.len() <= s@.len(),
    ensures
        r == match_at(s@, pat@, i as int),
{
    let n = s.len();
    let mut j: usize = 0;
    while j < pat.len()
        invariant
            n == s@.len(),
            i + pat@.len() <= s@.len(),
            0 <= j <= pat@.len(),
            forall|k: int| 0 <= k < j ==> s@[i + k] == pat@[k],
        decreases pat@.len() - j,
    {
        if s[i + j] != pat[j] {
            proof {
                assert(s@.subrange(i as int, i + pat@.len() as int)[j as int] == s@[i + j]);
            }
            return false;
        }
        j = j + 1;
    }
    proof {
        assert(s@.subrange(i as int, i + pat@.len() as int) =~= pat@);
    }
    true
}

/// `s` with the first occurrence of `pat` replaced by `rep`; `s` unchanged
/// when `pat` does not occur. An empty pattern occurs first at the very
/// beginning, so `rep` is then prepended.
pub fn replace_first(s: &Vec<char>, pat: &Vec<char>, rep: &Vec<char>) -> (r: Vec<char>)
    ensures
        r@ == spec_replace_first(s@, pat@, rep@),
{
    if pat.len() == 0 {
        let mut out: Vec<char> = Vec::new();
        extend_chars(&mut out, rep);
        extend_chars(&mut out, s);
        proof {
            assert(pat@ =~= s@.subrange(0, 0));
            assert(find_from(s@, pat@, 0) == 0);
            assert(out@ =~= spec_replace_first(s@, pat@, rep@));
        }
        return out;
    }
    if pat.len() > s.len() {
        let r = s.clone();
        proof {
            assert(find_from(s@, pat@, 0) == -1);
            assert(r@ =~= spec_replace_first(s@, pat@, rep@));
        }
        return r;
    }
    let bound = s.len() - pat.len();
    let mut i: usize = 0;
    while i <= bound
        invariant
            pat@.len() >= 1,
            pat@.len() <= s@.len(),
            bound == s@.len() - pat@.len(),
            bound < usize::MAX,
            0 <= i <= bound + 1,
            find_from(s@, pat@, 0) == find_from(s@, pat@, i as int),
        decreases bound + 1 - i,
    {
        if is_match_at(s, pat, i) {
            let mut out: Vec<char> = Vec::new();
            extend_sub(&mut out, s, 0, i);
            extend_chars(&mut out, rep);
            let slen = s.len();
            extend_sub(&mut out, s, i + pat.len(), slen);
            return out;
        }
        i = i + 1;
    }
    proof {
        assert(find_from(s@, pat@, i as int) == -1);
    }
    let r = s.clone();
    proof {
        assert(r@ =~= spec_replace_first(s@, pat@, rep@));
    }
    r
}

} // verus!
