//! Characters and strings: conversion between `str`, `String` and character
//! vectors, and ASCII case folding.

use vstd::prelude::*;

verus! {

/// `String::push` appends one character at the end of the string.
pub assume_specification[ String::push ](s: &mut String, ch: char)
    ensures
        final(s)@ == old(s)@.push(ch),
;

/// `String::pop` takes the last character off the string and returns it;
/// an empty string stays empty and gives `None`.
pub assume_specification[ String::pop ](s: &mut String) -> (last: Option<char>)
    ensures
        old(s)@.len() == 0 ==> last.is_none() && final(s)@ == old(s)@,
        old(s)@.len() > 0 ==> last == Some(old(s)@.last()) && final(s)@ == old(s)@.drop_last(),
;

/// The characters of `s`, in order.
pub fn to_chars(s: &str) -> (v: Vec<char>)
    ensures
        v@ == s@,
{
    let mut v: Vec<char> = Vec::new();
    for c in it: s.chars()
        invariant
            it.seq() == s@,
            v@ == it.seq().take(it.index()),
    {
        v.push(c);
        assert(v@ =~= it.seq().take(it.index() + 1));
    }
    assert(v@ =~= s@);
    v
}

/// The string made of `chars[from..to]`.
pub fn string_of(chars: &[char], from: usize, to: usize) -> (s: String)
    requires
        from <= to <= chars@.len(),
    ensures
        s@ == chars@.subrange(from as int, to as int),
{
    let mut s = String::new();
    let mut i: usize = from;
    while i < to
        invariant
            from <= i <= to <= chars@.len(),
            s@ == chars@.subrange(from as int, i as int),
        decreases to - i,
    {
        s.push(chars[i]);
        i += 1;
        assert(s@ =~= chars@.subrange(from as int, i as int));
    }
    s
}

/// The code of `c` with the ASCII capital letters folded onto the small ones.
pub open spec fn ascii_fold(c: char) -> int {
    if 'A' <= c <= 'Z' {
        c as int + 32
    } else {
        c as int
    }
}

/// Whether `a` and `b` are equal up to the case of ASCII letters.
pub open spec fn eq_ignore_ascii_case(a: Seq<char>, b: Seq<char>) -> bool {
    a.len() == b.len() && forall|i: int| 0 <= i < a.len() ==> ascii_fold(#[trigger] a[i])
        == ascii_fold(b[i])
}

/// The code of `c` with the ASCII capital letters folded onto the small ones.
pub fn fold_case(c: char) -> (r: u32)
    ensures
        r == ascii_fold(c),
{
    if 'A' <= c && c <= 'Z' {
        c as u32 + 32
    } else {
        c as u32
    }
}

/// Whether `a` and `b` are equal up to the case of ASCII letters.
pub fn same_ignoring_case(a: &str, b: &str) -> (r: bool)
    ensures
        r == eq_ignore_ascii_case(a@, b@),
{
    let x = to_chars(a);
    let y = to_chars(b);
    if x.len() != y.len() {
        return false;
    }
    let n = x.len();
    let mut i: usize = 0;
    while i < n
        invariant
            n == x@.len(),
            n == y@.len(),
            x@ == a@,
            y@ == b@,
            i <= n,
            forall|j: int| 0 <= j < i ==> ascii_fold(#[trigger] x@[j]) == ascii_fold(y@[j]),
        decreases n - i,
    {
        if fold_case(x[i]) != fold_case(y[i]) {
            assert(ascii_fold(x@[i as int]) != ascii_fold(y@[i as int]));
            return false;
        }
        i += 1;
    }
    true
}

/// Whether `a` and `b` hold the same characters.
pub fn same_text(a: &str, b: &str) -> (r: bool)
    ensures
        r == (a@ == b@),
{
    let x = to_chars(a);
    let y = to_chars(b);
    if x.len() != y.len() {
        return false;
    }
    let n = x.len();
    let mut i: usize = 0;
    while i < n
        invariant
            n == x@.len(),
            n == y@.len(),
            x@ == a@,
            y@ == b@,
            i <= n,
            forall|j: int| 0 <= j < i ==> x@[j] == y@[j],
        decreases n - i,
    {
        if x[i] != y[i] {
            return false;
        }
        i += 1;
    }
    assert(x@ =~= y@);
    true
}

/// Appends `chars[from..to]` to `s`.
pub fn push_chars(s: &mut String, chars: &[char], from: usize, to: usize)
    requires
        from <= to <= chars@.len(),
    ensures
        final(s)@ == old(s)@ + chars@.subrange(from as int, to as int),
{
    let mut i: usize = from;
    assert(s@ =~= old(s)@ + chars@.subrange(from as int, i as int));
    while i < to
        invariant
            from <= i <= to <= chars@.len(),
            s@ == old(s)@ + chars@.subrange(from as int, i as int),
        decreases to - i,
    {
        s.push(chars[i]);
        i += 1;
        assert(s@ =~= old(s)@ + chars@.subrange(from as int, i as int));
    }
}

/// The order of `a` and `b` from position `i` on, character by character:
/// -1 where `a` comes first, 1 where `b` does, 0 where they are equal. A
/// text comes before every text that it is a proper prefix of.
pub open spec fn lex_from(a: Seq<char>, b: Seq<char>, i: int) -> int
    decreases a.len() - i,
{
    if i < 0 || i >= a.len() {
        if i >= b.len() {
            0
        } else {
            -1
        }
    } else if i >= b.len() {
        1
    } else if a[i] < b[i] {
        -1
    } else if a[i] > b[i] {
        1
    } else {
        lex_from(a, b, i + 1)
    }
}

/// The lexicographic order of `a` and `b` by the codes of their characters.
pub open spec fn lex_compare(a: Seq<char>, b: Seq<char>) -> int {
    lex_from(a, b, 0)
}

/// The lexicographic order of `a` and `b`: -1, 0 or 1.
pub fn text_order(a: &str, b: &str) -> (r: i8)
    ensures
        r == lex_compare(a@, b@),
        -1 <= r <= 1,
{
    let x = to_chars(a);
    let y = to_chars(b);
    let n = x.len();
    let m = y.len();
    let mut i: usize = 0;
    while i < n && i < m
        invariant
            n == x@.len(),
            m == y@.len(),
            x@ == a@,
            y@ == b@,
            i <= n,
            i <= m,
            lex_compare(a@, b@) == lex_from(a@, b@, i as int),
        decreases n - i,
    {
        if x[i] < y[i] {
            return -1;
        }
        if x[i] > y[i] {
            return 1;
        }
        i += 1;
    }
    if i < m {
        -1
    } else if i < n {
        1
    } else {
        0
    }
}

/// Whether `needle` stands in `hay` at position `k`, up to the case of
/// ASCII letters.
pub open spec fn occurs_at(hay: Seq<char>, needle: Seq<char>, k: int) -> bool {
    0 <= k && k + needle.len() <= hay.len() && eq_ignore_ascii_case(
        hay.subrange(k, k + needle.len()),
        needle,
    )
}

/// Whether `needle` stands somewhere in `hay`, up to the case of ASCII
/// letters. The empty text stands in every text.
pub open spec fn contains_ignoring_case(hay: Seq<char>, needle: Seq<char>) -> bool {
    exists|k: int| occurs_at(hay, needle, k)
}

/// Whether `needle` stands in `hay` at position `k`, up to case.
fn found_at(hay: &Vec<char>, needle: &Vec<char>, k: usize) -> (r: bool)
    requires
        k + needle@.len() <= hay@.len(),
    ensures
        r == occurs_at(hay@, needle@, k as int),
{
    let m = needle.len();
    let total = hay.len();
    let ghost window = hay@.subrange(k as int, k + m);
    let mut j: usize = 0;
    while j < m
        invariant
            m == needle@.len(),
            total == hay@.len(),
            k + m <= total,
            j <= m,
            window == hay@.subrange(k as int, k + m),
            forall|i: int| 0 <= i < j ==> ascii_fold(#[trigger] window[i]) == ascii_fold(needle@[i]),
        decreases m - j,
    {
        assert(window[j as int] == hay@[k + j]);
        if fold_case(hay[k + j]) != fold_case(needle[j]) {
            return false;
        }
        j += 1;
    }
    true
}

/// Whether `needle` stands somewhere in `hay`, up to the case of ASCII
/// letters.
pub fn contains_text(hay: &str, needle: &str) -> (r: bool)
    ensures
        r == contains_ignoring_case(hay@, needle@),
{
    let h = to_chars(hay);
    let n = to_chars(needle);
    if n.len() > h.len() {
        return false;
    }
    let last = h.len() - n.len();
    let mut k: usize = 0;
    loop
        invariant
            h@ == hay@,
            n@ == needle@,
            last == h@.len() - n@.len(),
            k <= last,
            forall|i: int| 0 <= i < k ==> !occurs_at(hay@, needle@, i),
        decreases last - k,
    {
        if found_at(&h, &n, k) {
            return true;
        }
        if k == last {
            return false;
        }
        k += 1;
    }
}

/// The lexicographic order is a total order of the texts: every text is
/// level with itself, two texts compare one way as the opposite of the
/// other way, and what comes before something that comes before a third
/// comes before the third.
pub proof fn lemma_lex_order(a: Seq<char>, b: Seq<char>, c: Seq<char>)
    ensures
        lex_compare(a, a) == 0,
        lex_compare(a, b) == -lex_compare(b, a),
        -1 <= lex_compare(a, b) <= 1,
        lex_compare(a, b) == 0 ==> a == b,
        lex_compare(a, b) <= 0 && lex_compare(b, c) <= 0 ==> lex_compare(a, c) <= 0,
{
    lemma_lex_same(a, 0);
    lemma_lex_pair(a, b, 0);
    if lex_compare(a, b) <= 0 && lex_compare(b, c) <= 0 {
        lemma_lex_chain(a, b, c, 0);
    }
    if lex_compare(a, b) == 0 {
        assert(a =~= b);
    }
}

/// A text is level with itself from every position on.
proof fn lemma_lex_same(a: Seq<char>, i: int)
    requires
        0 <= i,
    ensures
        lex_from(a, a, i) == 0,
    decreases a.len() - i,
{
    if i < a.len() {
        lemma_lex_same(a, i + 1);
    }
}

/// Two texts compare one way as the opposite of the other way, and are
/// equal from the position on where they are level.
proof fn lemma_lex_pair(a: Seq<char>, b: Seq<char>, i: int)
    requires
        0 <= i <= a.len(),
        i <= b.len(),
    ensures
        lex_from(a, b, i) == -lex_from(b, a, i),
        -1 <= lex_from(a, b, i) <= 1,
        lex_from(a, b, i) == 0 ==> a.len() == b.len() && forall|j: int|
            i <= j < a.len() ==> a[j] == b[j],
    decreases a.len() - i,
{
    if i < a.len() && i < b.len() {
        lemma_lex_pair(a, b, i + 1);
    }
}

/// What comes before something that comes before a third comes before the
/// third.
proof fn lemma_lex_chain(a: Seq<char>, b: Seq<char>, c: Seq<char>, i: int)
    requires
        0 <= i,
        lex_from(a, b, i) <= 0,
        lex_from(b, c, i) <= 0,
    ensures
        lex_from(a, c, i) <= 0,
    decreases a.len() - i,
{
    if i < a.len() && i < b.len() && i < c.len() && a[i] == b[i] && b[i] == c[i] {
        lemma_lex_chain(a, b, c, i + 1);
    }
}

} // verus!
