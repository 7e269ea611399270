//! Character-level helpers shared by the scanner and the configuration
//! reader: conversion between strings and character vectors, Unicode
//! whitespace trimming, ASCII lower-casing and prefix tests.
use vstd::prelude::*;

verus! {

/// The characters of `s`, in order.
pub fn chars_of(s: &str) -> (v: Vec<char>)
    ensures
        v@ == s@,
{
    let mut v: Vec<char> = Vec::new();
    for c in it: s.chars()
        invariant
            v@ == it.seq().take(it.index() as int),
            it.seq() == s@,
    {
        v.push(c);
    }
    v
}

/// Appends one character to a string with `String::push`.
///
/// Claimed of the outside code: afterwards the string holds its old
/// characters followed by `c`.
#[verifier::external_body]
fn push_char(s: &mut String, c: char)
    ensures
        final(s)@ == old(s)@.push(c),
{
    s.push(c);
}

/// The string made of the characters of `v`, in order.
pub fn string_from_chars(v: &[char]) -> (s: String)
    ensures
        s@ == v@,
{
    let mut s = String::new();
    let n = v.len();
    for i in 0..n
        invariant
            n == v@.len(),
            s@ == v@.take(i as int),
    {
        push_char(&mut s, v[i]);
        assert(v@.take(i + 1) == v@.take(i as int).push(v@[i as int]));
    }
    assert(v@.take(n as int) == v@);
    s
}

/// A character with the Unicode `White_Space` property, the set that
/// `char::is_whitespace` tests and `str::trim` removes.
pub open spec fn is_unicode_whitespace(c: char) -> bool {
    let u = c as u32;
    ||| 0x09 <= u && u <= 0x0d
    ||| u == 0x20
    ||| u == 0x85
    ||| u == 0xa0
    ||| u == 0x1680
    ||| 0x2000 <= u && u <= 0x200a
    ||| u == 0x2028
    ||| u == 0x2029
    ||| u == 0x202f
    ||| u == 0x205f
    ||| u == 0x3000
}

/// `s` without its leading whitespace.
pub open spec fn trim_start(s: Seq<char>) -> Seq<char>
    decreases s.len(),
{
    if s.len() > 0 && is_unicode_whitespace(s[0]) {
        trim_start(s.drop_first())
    } else {
        s
    }
}

/// `s` without its trailing whitespace.
pub open spec fn trim_end(s: Seq<char>) -> Seq<char>
    decreases s.len(),
{
    if s.len() > 0 && is_unicode_whitespace(s.last()) {
        trim_end(s.drop_last())
    } else {
        s
    }
}

/// `s` without its leading and trailing whitespace.
pub open spec fn trim(s: Seq<char>) -> Seq<char> {
    trim_end(trim_start(s))
}

/// The ASCII lower-case form of `c`: `A..=Z` become `a..=z`, every other
/// character is kept.
pub open spec fn ascii_lower_char(c: char) -> char {
    if 'A' <= c && c <= 'Z' {
        ((c as u32) + 32) as char
    } else {
        c
    }
}

/// `s` with every ASCII upper-case letter lower-cased.
pub open spec fn ascii_lower(s: Seq<char>) -> Seq<char> {
    s.map_values(|c: char| ascii_lower_char(c))
}

/// `s` starts with `p`.
pub open spec fn has_prefix(s: Seq<char>, p: Seq<char>) -> bool {
    p.len() <= s.len() && s.subrange(0, p.len() as int) == p
}

/// Whether `c` is Unicode whitespace.
pub fn is_whitespace(c: char) -> (b: bool)
    ensures
        b == is_unicode_whitespace(c),
{
    let u = c as u32;
    (0x09 <= u && u <= 0x0d) || u == 0x20 || u == 0x85 || u == 0xa0 || u == 0x1680 || (0x2000
        <= u && u <= 0x200a) || u == 0x2028 || u == 0x2029 || u == 0x202f || u == 0x205f || u
        == 0x3000
}

proof fn lemma_trim_start_at(s: Seq<char>, i: int)
    requires
        0 <= i <= s.len(),
        forall|k: int| 0 <= k < i ==> is_unicode_whitespace(#[trigger] s[k]),
        i == s.len() || !is_unicode_whitespace(s[i]),
    ensures
        trim_start(s) == s.skip(i),
    decreases i,
{
    if i > 0 {
        let t = s.drop_first();
        assert forall|k: int| 0 <= k < i - 1 implies is_unicode_whitespace(#[trigger] t[k]) by {
            assert(t[k] == s[k + 1]);
        }
        if i - 1 < t.len() {
            assert(t[i - 1] == s[i]);
        }
        lemma_trim_start_at(t, i - 1);
        assert(t.skip(i - 1) == s.skip(i));
    } else {
        assert(s.skip(0) == s);
    }
}

proof fn lemma_trim_end_at(s: Seq<char>, j: int)
    requires
        0 <= j <= s.len(),
        forall|k: int| j <= k < s.len() ==> is_unicode_whitespace(#[trigger] s[k]),
        j == 0 || !is_unicode_whitespace(s[j - 1]),
    ensures
        trim_end(s) == s.take(j),
    decreases s.len() - j,
{
    if j < s.len() {
        let t = s.drop_last();
        assert forall|k: int| j <= k < t.len() implies is_unicode_whitespace(#[trigger] t[k]) by {
            assert(t[k] == s[k]);
        }
        if j > 0 {
            assert(t[j - 1] == s[j - 1]);
        }
        lemma_trim_end_at(t, j);
        assert(t.take(j) == s.take(j));
    } else {
        assert(s.take(j) == s);
    }
}

/// The characters of `v` from index `lo` up to (not including) `hi`.
fn copy_range(v: &Vec<char>, lo: usize, hi: usize) -> (out: Vec<char>)
    requires
        lo <= hi <= v@.len(),
    ensures
        out@ == v@.subrange(lo as int, hi as int),
{
    let mut out: Vec<char> = Vec::new();
    let mut i = lo;
    while i < hi
        invariant
            lo <= i <= hi <= v@.len(),
            out@ == v@.subrange(lo as int, i as int),
        decreases hi - i,
    {
        out.push(v[i]);
        assert(v@.subrange(lo as int, i + 1) == v@.subrange(lo as int, i as int).push(v@[i as int]));
        i = i + 1;
    }
    out
}

/// `v` without its leading whitespace (`str::trim_start`).
pub fn trim_start_chars(v: &Vec<char>) -> (out: Vec<char>)
    ensures
        out@ == trim_start(v@),
{
    let len = v.len();
    let mut i: usize = 0;
    while i < len && is_whitespace(v[i])
        invariant
            len == v@.len(),
            0 <= i <= len,
            forall|k: int| 0 <= k < i ==> is_unicode_whitespace(#[trigger] v@[k]),
        decreases len - i,
    {
        i = i + 1;
    }
    proof {
        lemma_trim_start_at(v@, i as int);
        assert(v@.skip(i as int) == v@.subrange(i as int, len as int));
    }
    copy_range(v, i, len)
}

/// `v` without its leading and trailing whitespace (`str::trim`).
pub fn trim_chars(v: &Vec<char>) -> (out: Vec<char>)
    ensures
        out@ == trim(v@),
{
    let front = trim_start_chars(v);
    let mut j: usize = front.len();
    while j > 0 && is_whitespace(front[j - 1])
        invariant
            0 <= j <= front@.len(),
            forall|k: int| j <= k < front@.len() ==> is_unicode_whitespace(#[trigger] front@[k]),
        decreases j,
    {
        j = j - 1;
    }
    proof {
        lemma_trim_end_at(front@, j as int);
        assert(front@.take(j as int) == front@.subrange(0, j as int));
    }
    copy_range(&front, 0, j)
}

/// `c` with an ASCII upper-case letter lower-cased.
pub fn to_ascii_lower_char(c: char) -> (d: char)
    ensures
        d == ascii_lower_char(c),
{
    if 'A' <= c && c <= 'Z' {
        let b: u8 = c as u8;
        (b + 32) as char
    } else {
        c
    }
}

/// `v` with every ASCII upper-case letter lower-cased
/// (`str::to_ascii_lowercase`).
pub fn to_ascii_lower_chars(v: &Vec<char>) -> (out: Vec<char>)
    ensures
        out@ == ascii_lower(v@),
{
    let mut out: Vec<char> = Vec::new();
    let n = v.len();
    for i in 0..n
        invariant
            n == v@.len(),
            out@ == ascii_lower(v@.take(i as int)),
    {
        out.push(to_ascii_lower_char(v[i]));
        assert(ascii_lower(v@.take(i + 1)) == ascii_lower(v@.take(i as int)).push(
            ascii_lower_char(v@[i as int]),
        ));
    }
    assert(v@.take(n as int) == v@);
    out
}

/// Whether `s` starts with `p` (`str::starts_with`).
pub fn starts_with_chars(s: &Vec<char>, p: &Vec<char>) -> (b: bool)
    ensures
        b == has_prefix(s@, p@),
{
    if p.len() > s.len() {
        return false;
    }
    let n = p.len();
    for i in 0..n
        invariant
            n == p@.len() <= s@.len(),
            forall|k: int| 0 <= k < i ==> s@[k] == p@[k],
    {
        if s[i] != p[i] {
            assert(s@.subrange(0, n as int)[i as int] != p@[i as int]);
            return false;
        }
    }
    assert(s@.subrange(0, n as int) == p@);
    true
}

/// Whether `a` and `b` hold the same characters.
pub fn chars_equal(a: &Vec<char>, b: &[char]) -> (r: bool)
    ensures
        r == (a@ == b@),
{
    if a.len() != b.len() {
        return false;
    }
    let n = a.len();
    for i in 0..n
        invariant
            n == a@.len() == b@.len(),
            forall|k: int| 0 <= k < i ==> a@[k] == b@[k],
    {
        if a[i] != b[i] {
            return false;
        }
    }
    assert(a@ == b@);
    true
}

/// Every character of `w` is whitespace.
pub open spec fn all_whitespace(w: Seq<char>) -> bool {
    forall|k: int| 0 <= k < w.len() ==> is_unicode_whitespace(#[trigger] w[k])
}

proof fn lemma_lower_char_keeps_whitespace(c: char)
    ensures
        is_unicode_whitespace(ascii_lower_char(c)) == is_unicode_whitespace(c),
{
}

proof fn lemma_trim_start_lower(s: Seq<char>)
    ensures
        trim_start(ascii_lower(s)) == ascii_lower(trim_start(s)),
    decreases s.len(),
{
    if s.len() > 0 {
        lemma_lower_char_keeps_whitespace(s[0]);
        assert(ascii_lower(s).drop_first() == ascii_lower(s.drop_first()));
        lemma_trim_start_lower(s.drop_first());
    }
}

proof fn lemma_trim_end_lower(s: Seq<char>)
    ensures
        trim_end(ascii_lower(s)) == ascii_lower(trim_end(s)),
    decreases s.len(),
{
    if s.len() > 0 {
        lemma_lower_char_keeps_whitespace(s.last());
        assert(ascii_lower(s).drop_last() == ascii_lower(s.drop_last()));
        lemma_trim_end_lower(s.drop_last());
    }
}

/// Trimming and ASCII lower-casing commute, and lower-casing twice changes
/// nothing more than lower-casing once.
pub proof fn lemma_trim_lower(s: Seq<char>)
    ensures
        trim(ascii_lower(s)) == ascii_lower(trim(s)),
        ascii_lower(ascii_lower(s)) == ascii_lower(s),
{
    lemma_trim_start_lower(s);
    lemma_trim_end_lower(trim_start(s));
    assert(ascii_lower(ascii_lower(s)) =~= ascii_lower(s));
}

proof fn lemma_trim_start_skips_whitespace(w: Seq<char>, x: Seq<char>)
    requires
        all_whitespace(w),
    ensures
        trim_start(w + x) == trim_start(x),
    decreases w.len(),
{
    if w.len() > 0 {
        assert((w + x)[0] == w[0]);
        assert((w + x).drop_first() == w.drop_first() + x);
        lemma_trim_start_skips_whitespace(w.drop_first(), x);
    } else {
        assert(w + x == x);
    }
}

proof fn lemma_trim_end_skips_whitespace(x: Seq<char>, w: Seq<char>)
    requires
        all_whitespace(w),
    ensures
        trim_end(x + w) == trim_end(x),
    decreases w.len(),
{
    if w.len() > 0 {
        assert((x + w).last() == w.last());
        assert((x + w).drop_last() == x + w.drop_last());
        lemma_trim_end_skips_whitespace(x, w.drop_last());
    } else {
        assert(x + w == x);
    }
}

proof fn lemma_trim_ignores_trailing(s: Seq<char>, w: Seq<char>)
    requires
        all_whitespace(w),
    ensures
        trim(s + w) == trim(s),
    decreases s.len(),
{
    if s.len() == 0 {
        assert(s + w == Seq::<char>::empty() + w);
        lemma_trim_start_skips_whitespace(w, Seq::<char>::empty());
        assert(w + Seq::<char>::empty() == w);
    } else if is_unicode_whitespace(s[0]) {
        assert((s + w)[0] == s[0]);
        assert((s + w).drop_first() == s.drop_first() + w);
        lemma_trim_ignores_trailing(s.drop_first(), w);
    } else {
        assert((s + w)[0] == s[0]);
        lemma_trim_end_skips_whitespace(s, w);
    }
}

/// Whitespace around `s` does not change what trimming leaves.
pub proof fn lemma_trim_ignores_padding(w1: Seq<char>, s: Seq<char>, w2: Seq<char>)
    requires
        all_whitespace(w1),
        all_whitespace(w2),
    ensures
        trim(w1 + s + w2) == trim(s),
{
    assert(w1 + s + w2 == w1 + (s + w2));
    lemma_trim_start_skips_whitespace(w1, s + w2);
    lemma_trim_ignores_trailing(s, w2);
}

/// What trimming the front leaves is empty or starts with a non-whitespace
/// character.
pub proof fn lemma_trim_start_head(s: Seq<char>)
    ensures
        trim_start(s).len() > 0 ==> !is_unicode_whitespace(trim_start(s)[0]),
        trim_start(s).len() <= s.len(),
    decreases s.len(),
{
    if s.len() > 0 && is_unicode_whitespace(s[0]) {
        lemma_trim_start_head(s.drop_first());
    }
}

/// Trimming the front leaves a suffix of `s`.
pub proof fn lemma_trim_start_suffix(s: Seq<char>)
    ensures
        exists|n: int| 0 <= n <= s.len() && trim_start(s) == #[trigger] s.skip(n),
    decreases s.len(),
{
    if s.len() > 0 && is_unicode_whitespace(s[0]) {
        lemma_trim_start_suffix(s.drop_first());
        let n = choose|n: int|
            0 <= n <= s.drop_first().len() && trim_start(s.drop_first()) == #[trigger] s.drop_first().skip(n);
        assert(s.drop_first().skip(n) == s.skip(n + 1));
    } else {
        assert(s.skip(0) == s);
    }
}

/// The ASCII upper-case form of `c`: `a..=z` become `A..=Z`, every other
/// character is kept.
pub open spec fn ascii_upper_char(c: char) -> char {
    if 'a' <= c && c <= 'z' {
        ((c as u32) - 32) as char
    } else {
        c
    }
}

/// `s` with every ASCII lower-case letter upper-cased.
pub open spec fn ascii_upper(s: Seq<char>) -> Seq<char> {
    s.map_values(|c: char| ascii_upper_char(c))
}

/// Lower-casing maps each upper-case ASCII letter to the letter 32 code
/// points above it, leaves no upper-case ASCII letter behind, keeps every
/// other character, and undoes upper-casing.
pub proof fn lemma_ascii_lower_char_law(c: char)
    ensures
        'A' <= c <= 'Z' ==> ascii_lower_char(c) as u32 == c as u32 + 32,
        !('A' <= ascii_lower_char(c) && ascii_lower_char(c) <= 'Z'),
        !('A' <= c && c <= 'Z') ==> ascii_lower_char(c) == c,
        ascii_lower_char(ascii_upper_char(c)) == ascii_lower_char(c),
{
}

proof fn lemma_trim_start_upper(s: Seq<char>)
    ensures
        trim_start(ascii_upper(s)) == ascii_upper(trim_start(s)),
    decreases s.len(),
{
    if s.len() > 0 {
        assert(ascii_upper(s).drop_first() == ascii_upper(s.drop_first()));
        lemma_trim_start_upper(s.drop_first());
    }
}

proof fn lemma_trim_end_upper(s: Seq<char>)
    ensures
        trim_end(ascii_upper(s)) == ascii_upper(trim_end(s)),
    decreases s.len(),
{
    if s.len() > 0 {
        assert(ascii_upper(s).drop_last() == ascii_upper(s.drop_last()));
        lemma_trim_end_upper(s.drop_last());
    }
}

/// Upper-casing ASCII letters changes nothing that trimming and lower-casing
/// leave: `ascii_lower(trim(ascii_upper(s))) == ascii_lower(trim(s))`.
pub proof fn lemma_upper_case_is_invisible(s: Seq<char>)
    ensures
        ascii_lower(trim(ascii_upper(s))) == ascii_lower(trim(s)),
{
    lemma_trim_start_upper(s);
    lemma_trim_end_upper(trim_start(s));
    let x = trim(s);
    assert forall|i: int| 0 <= i < x.len() implies ascii_lower(ascii_upper(x))[i] == ascii_lower(
        x,
    )[i] by {
        lemma_ascii_lower_char_law(x[i]);
    }
    assert(ascii_lower(ascii_upper(x)) =~= ascii_lower(x));
}

} // verus!
