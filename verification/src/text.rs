//! Character-level text handling: trimming, searching and the decimal
//! conversions that the configuration format and the sysfs files use.

use vstd::prelude::*;

verus! {

/// The Unicode `White_Space` property, which `char::is_whitespace` tests:
/// `\t`..=`\r`, space, U+0085, U+00A0, U+1680, U+2000..=U+200A, U+2028,
/// U+2029, U+202F, U+205F and U+3000.
pub open spec fn char_is_whitespace(c: char) -> bool {
    ||| c == ' '
    ||| ('\t' <= c && c <= '\r')
    ||| c == '\u{85}'
    ||| c == '\u{a0}'
    ||| c == '\u{1680}'
    ||| ('\u{2000}' <= c && c <= '\u{200a}')
    ||| c == '\u{2028}'
    ||| c == '\u{2029}'
    ||| c == '\u{202f}'
    ||| c == '\u{205f}'
    ||| c == '\u{3000}'
}

/// Whether `c` is whitespace, as `char::is_whitespace` answers.
pub fn is_whitespace(c: char) -> (r: bool)
    ensures
        r == char_is_whitespace(c),
{
    c == ' ' || ('\t' <= c && c <= '\r') || c == '\u{85}' || c == '\u{a0}' || c == '\u{1680}'
        || ('\u{2000}' <= c && c <= '\u{200a}') || c == '\u{2028}' || c == '\u{2029}' || c
        == '\u{202f}' || c == '\u{205f}' || c == '\u{3000}'
}

/// What `char::is_numeric` answers for `c` (the Unicode general categories for numbers).
pub uninterp spec fn char_is_numeric(c: char) -> bool;

/// Calls `char::is_numeric`. Claimed: the answer is `char_is_numeric(c)`, and on
/// ASCII characters it is true exactly for the digits `0`..=`9`, the only ASCII
/// characters in the number categories that the documentation names.
#[verifier::external_body]
pub(crate) fn is_numeric(c: char) -> (r: bool)
    ensures
        r == char_is_numeric(c),
        (c as u32) < 128 ==> (r <==> ('0' <= c && c <= '9')),
{
    c.is_numeric()
}

/// Calls `String::push`. Claimed: the character is appended at the end.
#[verifier::external_body]
pub(crate) fn string_push(s: &mut String, c: char)
    ensures
        final(s)@ == old(s)@.push(c),
{
    s.push(c)
}

/// `s` without its leading whitespace.
pub open spec fn trim_start_spec(s: Seq<char>) -> Seq<char>
    decreases s.len(),
{
    if s.len() > 0 && char_is_whitespace(s[0]) {
        trim_start_spec(s.drop_first())
    } else {
        s
    }
}

/// `s` without its trailing whitespace.
pub open spec fn trim_end_spec(s: Seq<char>) -> Seq<char>
    decreases s.len(),
{
    if s.len() > 0 && char_is_whitespace(s.last()) {
        trim_end_spec(s.drop_last())
    } else {
        s
    }
}

/// `s` without leading and trailing whitespace, as `str::trim` gives it.
pub open spec fn trim_spec(s: Seq<char>) -> Seq<char> {
    trim_end_spec(trim_start_spec(s))
}

/// The characters of `s`, in order.
pub fn chars_of(s: &str) -> (v: Vec<char>)
    ensures
        v@ == s@,
{
    let n = s.unicode_len();
    let mut v: Vec<char> = Vec::new();
    let mut i: usize = 0;
    while i < n
        invariant
            n == s@.len(),
            i <= n,
            v@ == s@.subrange(0, i as int),
        decreases n - i,
    {
        let c = s.get_char(i);
        v.push(c);
        i = i + 1;
        assert(v@ =~= s@.subrange(0, i as int));
    }
    assert(v@ =~= s@);
    v
}

/// A `String` holding the characters `v@[from..to]`.
pub fn string_of_range(v: &Vec<char>, from: usize, to: usize) -> (s: String)
    requires
        from <= to <= v@.len(),
    ensures
        s@ == v@.subrange(from as int, to as int),
{
    let mut s = String::new();
    let mut i = from;
    while i < to
        invariant
            from <= i <= to,
            to <= v@.len(),
            s@ == v@.subrange(from as int, i as int),
        decreases to - i,
    {
        string_push(&mut s, v[i]);
        i = i + 1;
        assert(s@ =~= v@.subrange(from as int, i as int));
    }
    s
}

/// A `String` holding the characters of `v`.
pub fn string_of(v: &Vec<char>) -> (s: String)
    ensures
        s@ == v@,
{
    let s = string_of_range(v, 0, v.len());
    assert(v@.subrange(0, v@.len() as int) =~= v@);
    s
}

proof fn lemma_trim_start_skip(s: Seq<char>, i: int)
    requires
        0 <= i < s.len(),
        char_is_whitespace(s[i]),
    ensures
        trim_start_spec(s.skip(i)) == trim_start_spec(s.skip(i + 1)),
{
    assert(s.skip(i).drop_first() =~= s.skip(i + 1));
}

proof fn lemma_trim_end_take(s: Seq<char>, i: int, j: int)
    requires
        0 <= i < j <= s.len(),
        char_is_whitespace(s[j - 1]),
    ensures
        trim_end_spec(s.subrange(i, j)) == trim_end_spec(s.subrange(i, j - 1)),
{
    assert(s.subrange(i, j).drop_last() =~= s.subrange(i, j - 1));
}

/// The bounds `(start, end)` of `v@` with surrounding whitespace removed.
pub fn trim_bounds(v: &Vec<char>) -> (r: (usize, usize))
    ensures
        r.0 <= r.1 <= v@.len(),
        v@.subrange(r.0 as int, r.1 as int) == trim_spec(v@),
{
    let n = v.len();
    let mut start: usize = 0;
    assert(v@.skip(0) =~= v@);
    while start < n && is_whitespace(v[start])
        invariant
            n == v@.len(),
            start <= n,
            trim_start_spec(v@) == trim_start_spec(v@.skip(start as int)),
        decreases n - start,
    {
        proof {
            lemma_trim_start_skip(v@, start as int);
        }
        start = start + 1;
    }
    assert(trim_start_spec(v@.skip(start as int)) == v@.skip(start as int));
    assert(v@.skip(start as int) =~= v@.subrange(start as int, n as int));
    let mut end: usize = n;
    while end > start && is_whitespace(v[end - 1])
        invariant
            n == v@.len(),
            start <= end <= n,
            trim_spec(v@) == trim_end_spec(v@.subrange(start as int, end as int)),
        decreases end,
    {
        proof {
            lemma_trim_end_take(v@, start as int, end as int);
        }
        end = end - 1;
    }
    (start, end)
}

/// `s` with leading and trailing whitespace removed, like `str::trim`.
pub fn trim(s: &str) -> (r: String)
    ensures
        r@ == trim_spec(s@),
{
    let v = chars_of(s);
    let (a, b) = trim_bounds(&v);
    string_of_range(&v, a, b)
}


/// `p` occurs in `s` starting at index `i`.
pub open spec fn match_at(s: Seq<char>, p: Seq<char>, i: int) -> bool {
    0 <= i && i + p.len() <= s.len() && s.subrange(i, i + p.len()) == p
}

/// `s` starts with `p`.
pub open spec fn has_prefix(s: Seq<char>, p: Seq<char>) -> bool {
    match_at(s, p, 0)
}

/// `s` ends with `p`.
pub open spec fn has_suffix(s: Seq<char>, p: Seq<char>) -> bool {
    p.len() <= s.len() && match_at(s, p, s.len() - p.len())
}

/// The first index, not before `i`, at which `p` occurs in `s`.
pub open spec fn find_from(s: Seq<char>, p: Seq<char>, i: int) -> Option<int>
    decreases s.len() + 1 - i,
{
    if i < 0 || i + p.len() > s.len() {
        None
    } else if match_at(s, p, i) {
        Some(i)
    } else {
        find_from(s, p, i + 1)
    }
}

/// The first index at which `p` occurs in `s`, as `str::find` gives it (in characters).
pub open spec fn find_spec(s: Seq<char>, p: Seq<char>) -> Option<int> {
    find_from(s, p, 0)
}

/// `p` occurs somewhere in `s`.
pub open spec fn contains_spec(s: Seq<char>, p: Seq<char>) -> bool {
    find_spec(s, p) is Some
}

/// Whether `p` occurs in `s` at index `i`.
pub fn matches_at(s: &Vec<char>, p: &Vec<char>, i: usize) -> (r: bool)
    ensures
        r == match_at(s@, p@, i as int),
{
    if i > s.len() || p.len() > s.len() - i {
        return false;
    }
    let n = s.len();
    let mut j: usize = 0;
    while j < p.len()
        invariant
            n == s@.len(),
            i + p@.len() <= s@.len(),
            i <= s@.len(),
            p@.len() <= s@.len(),
            j <= p@.len(),
            forall|k: int| 0 <= k < j ==> s@[i + k] == p@[k],
        decreases p@.len() - j,
    {
        assert(i + j < s@.len());
        if s[i + j] != p[j] {
            assert(s@.subrange(i as int, i + p@.len())[j as int] != p@[j as int]);
            return false;
        }
        j = j + 1;
    }
    assert(s@.subrange(i as int, i + p@.len()) =~= p@);
    true
}

/// The first index at which `p` occurs in `s`.
pub fn find(s: &Vec<char>, p: &Vec<char>) -> (r: Option<usize>)
    ensures
        r matches Some(i) ==> find_spec(s@, p@) == Some(i as int),
        r is None ==> find_spec(s@, p@) is None,
{
    let mut i: usize = 0;
    while i <= s.len()
        invariant
            i <= s@.len() + 1,
            find_spec(s@, p@) == find_from(s@, p@, i as int),
        decreases s@.len() + 1 - i,
    {
        if p.len() > s.len() - i {
            return None;
        }
        if p.len() == 0 {
            assert(s@.subrange(i as int, i as int) =~= p@);
        }
        if matches_at(s, p, i) {
            return Some(i);
        }
        i = i + 1;
    }
    None
}

/// Whether `p` occurs in `s`.
pub fn contains(s: &Vec<char>, p: &Vec<char>) -> (r: bool)
    ensures
        r == contains_spec(s@, p@),
{
    find(s, p).is_some()
}

/// Whether `s` starts with `p`.
pub fn starts_with(s: &Vec<char>, p: &Vec<char>) -> (r: bool)
    ensures
        r == has_prefix(s@, p@),
{
    matches_at(s, p, 0)
}

/// Whether `s` ends with `p`.
pub fn ends_with(s: &Vec<char>, p: &Vec<char>) -> (r: bool)
    ensures
        r == has_suffix(s@, p@),
{
    if p.len() > s.len() {
        false
    } else {
        matches_at(s, p, s.len() - p.len())
    }
}

/// Whether `v@` and `w@` are the same characters.
pub fn same_chars(v: &Vec<char>, w: &Vec<char>) -> (r: bool)
    ensures
        r == (v@ == w@),
{
    if v.len() != w.len() {
        return false;
    }
    let r = matches_at(v, w, 0);
    assert(v@.subrange(0, w@.len() as int) =~= v@);
    r
}


/// How many times `c` occurs in `s`.
pub open spec fn count_char(s: Seq<char>, c: char) -> nat
    decreases s.len(),
{
    if s.len() == 0 {
        0
    } else {
        count_char(s.drop_last(), c) + if s.last() == c { 1nat } else { 0nat }
    }
}

/// How many times `c` occurs in `s`.
pub fn count_of(s: &Vec<char>, c: char) -> (r: usize)
    ensures
        r == count_char(s@, c),
{
    let n = s.len();
    let mut k: usize = 0;
    let mut i: usize = 0;
    while i < n
        invariant
            n == s@.len(),
            i <= n,
            k <= i,
            k == count_char(s@.subrange(0, i as int), c),
        decreases n - i,
    {
        assert(s@.subrange(0, i + 1).drop_last() =~= s@.subrange(0, i as int));
        if s[i] == c {
            k = k + 1;
        }
        i = i + 1;
    }
    assert(s@.subrange(0, n as int) =~= s@);
    k
}

/// The longest prefix of `s` whose characters are all numeric.
pub open spec fn numeric_prefix(s: Seq<char>) -> Seq<char>
    decreases s.len(),
{
    if s.len() > 0 && char_is_numeric(s[0]) {
        seq![s[0]] + numeric_prefix(s.drop_first())
    } else {
        Seq::empty()
    }
}

/// The characters of `s` from index `from` on, up to the first that is not numeric.
pub fn numeric_prefix_from(s: &Vec<char>, from: usize) -> (r: Vec<char>)
    requires
        from <= s@.len(),
    ensures
        r@ == numeric_prefix(s@.skip(from as int)),
{
    let n = s.len();
    let mut i = from;
    assert(s@.skip(from as int).subrange(0, 0) =~= Seq::<char>::empty());
    while i < n && is_numeric(s[i])
        invariant
            n == s@.len(),
            from <= i <= n,
            numeric_prefix(s@.skip(from as int)) == s@.subrange(from as int, i as int)
                + numeric_prefix(s@.skip(i as int)),
        decreases n - i,
    {
        assert(s@.skip(i as int).drop_first() =~= s@.skip(i + 1));
        assert(s@.subrange(from as int, i as int) + seq![s@[i as int]] =~= s@.subrange(
            from as int,
            i + 1,
        ));
        i = i + 1;
    }
    proof {
        if i < n {
            assert(s@.skip(i as int)[0] == s@[i as int]);
        }
    }
    assert(s@.subrange(from as int, i as int) + numeric_prefix(s@.skip(i as int))
        =~= s@.subrange(from as int, i as int));
    let mut r: Vec<char> = Vec::new();
    let mut j = from;
    while j < i
        invariant
            from <= j <= i <= n,
            n == s@.len(),
            r@ == s@.subrange(from as int, j as int),
        decreases i - j,
    {
        r.push(s[j]);
        j = j + 1;
        assert(r@ =~= s@.subrange(from as int, j as int));
    }
    r
}

/// The characters `v@[from..to]` as a vector.
pub fn slice_chars(v: &Vec<char>, from: usize, to: usize) -> (r: Vec<char>)
    requires
        from <= to <= v@.len(),
    ensures
        r@ == v@.subrange(from as int, to as int),
{
    let mut r: Vec<char> = Vec::new();
    let mut j = from;
    while j < to
        invariant
            from <= j <= to <= v@.len(),
            r@ == v@.subrange(from as int, j as int),
        decreases to - j,
    {
        r.push(v[j]);
        j = j + 1;
        assert(r@ =~= v@.subrange(from as int, j as int));
    }
    r
}

/// The characters of `v@[from..to]` with surrounding whitespace removed.
pub fn trimmed_range(v: &Vec<char>, from: usize, to: usize) -> (r: Vec<char>)
    requires
        from <= to <= v@.len(),
    ensures
        r@ == trim_spec(v@.subrange(from as int, to as int)),
{
    let part = slice_chars(v, from, to);
    let (a, b) = trim_bounds(&part);
    slice_chars(&part, a, b)
}


proof fn lemma_trim_start_char(s: Seq<char>)
    ensures
        exists|a: int|
            0 <= a <= s.len() && trim_start_spec(s) == s.subrange(a, s.len() as int) && (forall|i: int|
                0 <= i < a ==> char_is_whitespace(#[trigger] s[i])) && (a < s.len()
                ==> !char_is_whitespace(s[a])),
    decreases s.len(),
{
    if s.len() > 0 && char_is_whitespace(s[0]) {
        let t = s.drop_first();
        lemma_trim_start_char(t);
        let a = choose|a: int|
            0 <= a <= t.len() && trim_start_spec(t) == t.subrange(a, t.len() as int) && (forall|i: int|
                0 <= i < a ==> char_is_whitespace(#[trigger] t[i])) && (a < t.len()
                ==> !char_is_whitespace(t[a]));
        assert(t.subrange(a, t.len() as int) =~= s.subrange(a + 1, s.len() as int));
        assert forall|i: int| 0 <= i < a + 1 implies char_is_whitespace(#[trigger] s[i]) by {
            if i > 0 {
                assert(s[i] == t[i - 1]);
            }
        }
        assert(a + 1 < s.len() ==> s[a + 1] == t[a]);
    } else {
        assert(s.subrange(0, s.len() as int) =~= s);
    }
}

proof fn lemma_trim_end_char(s: Seq<char>)
    ensures
        exists|b: int|
            0 <= b <= s.len() && trim_end_spec(s) == s.subrange(0, b) && (forall|i: int|
                b <= i < s.len() ==> char_is_whitespace(#[trigger] s[i])) && (b > 0
                ==> !char_is_whitespace(s[b - 1])),
    decreases s.len(),
{
    if s.len() > 0 && char_is_whitespace(s.last()) {
        let t = s.drop_last();
        lemma_trim_end_char(t);
        let b = choose|b: int|
            0 <= b <= t.len() && trim_end_spec(t) == t.subrange(0, b) && (forall|i: int|
                b <= i < t.len() ==> char_is_whitespace(#[trigger] t[i])) && (b > 0
                ==> !char_is_whitespace(t[b - 1]));
        assert(t.subrange(0, b) =~= s.subrange(0, b));
        assert forall|i: int| b <= i < s.len() implies char_is_whitespace(#[trigger] s[i]) by {
            if i < s.len() - 1 {
                assert(s[i] == t[i]);
            }
        }
        assert(b > 0 ==> s[b - 1] == t[b - 1]);
    } else {
        assert(s.subrange(0, s.len() as int) =~= s);
    }
}

/// Trimming removes whitespace from both ends and nothing else: the result is
/// the part of `s` between a run of leading whitespace and a run of trailing
/// whitespace, and it neither starts nor ends with whitespace.
pub proof fn law_trim_removes_only_surrounding_whitespace(s: Seq<char>)
    ensures
        exists|a: int, b: int|
            0 <= a <= b <= s.len() && trim_spec(s) == s.subrange(a, b) && (forall|i: int|
                0 <= i < a ==> char_is_whitespace(#[trigger] s[i])) && (forall|i: int|
                b <= i < s.len() ==> char_is_whitespace(#[trigger] s[i])),
        trim_spec(s).len() > 0 ==> !char_is_whitespace(trim_spec(s)[0]) && !char_is_whitespace(
            trim_spec(s).last(),
        ),
{
    lemma_trim_start_char(s);
    let a = choose|a: int|
        0 <= a <= s.len() && trim_start_spec(s) == s.subrange(a, s.len() as int) && (forall|i: int|
            0 <= i < a ==> char_is_whitespace(#[trigger] s[i])) && (a < s.len()
            ==> !char_is_whitespace(s[a]));
    let u = trim_start_spec(s);
    lemma_trim_end_char(u);
    let b = choose|b: int|
        0 <= b <= u.len() && trim_end_spec(u) == u.subrange(0, b) && (forall|i: int|
            b <= i < u.len() ==> char_is_whitespace(#[trigger] u[i])) && (b > 0
            ==> !char_is_whitespace(u[b - 1]));
    assert(trim_spec(s) =~= s.subrange(a, a + b));
    assert forall|i: int| a + b <= i < s.len() implies char_is_whitespace(#[trigger] s[i]) by {
        assert(s[i] == u[i - a]);
    }
    if trim_spec(s).len() > 0 {
        assert(trim_spec(s)[0] == s[a]);
        assert(trim_spec(s).last() == u[b - 1]);
    }
}

proof fn lemma_find_from_char(s: Seq<char>, p: Seq<char>, i: int)
    requires
        0 <= i,
    ensures
        find_from(s, p, i) matches Some(k) ==> i <= k && match_at(s, p, k) && forall|j: int|
            i <= j < k ==> !match_at(s, p, j),
        find_from(s, p, i) is None ==> forall|j: int| i <= j ==> !match_at(s, p, j),
    decreases s.len() + 1 - i,
{
    if !(i + p.len() > s.len()) && !match_at(s, p, i) {
        lemma_find_from_char(s, p, i + 1);
        assert forall|j: int| i <= j && find_from(s, p, i) is None implies !match_at(s, p, j) by {
            if j > i {
            }
        }
    }
}

/// Searching finds the first occurrence: where an index is found, `p`
/// occurs there and nowhere before; where none is, `p` occurs nowhere in `s`.
pub proof fn law_find_gives_first_occurrence(s: Seq<char>, p: Seq<char>)
    ensures
        find_spec(s, p) matches Some(k) ==> match_at(s, p, k) && forall|j: int| 0 <= j < k ==> !match_at(s, p, j),
        find_spec(s, p) is None ==> forall|j: int| !match_at(s, p, j),
{
    lemma_find_from_char(s, p, 0);
}

} // verus!
