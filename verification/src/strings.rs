//! Verified helpers for working with `&str` values character by character.
//!
//! All specifications are stated over the `Seq<char>` view of a string.

use vstd::prelude::*;

verus! {

/// The views of a sequence of owned strings.
pub open spec fn views_of(s: Seq<String>) -> Seq<Seq<char>> {
    s.map_values(|x: String| x@)
}

/// The ASCII whitespace characters that [`trim_str`] removes.
pub open spec fn is_space(c: char) -> bool {
    c == ' ' || c == '\t' || c == '\r' || c == '\n'
}

/// Number of leading whitespace characters of `s`.
pub open spec fn lead_spaces(s: Seq<char>) -> int
    decreases s.len(),
{
    if s.len() == 0 || !is_space(s[0]) {
        0
    } else {
        1 + lead_spaces(s.drop_first())
    }
}

/// Number of trailing whitespace characters of `s`.
pub open spec fn trail_spaces(s: Seq<char>) -> int
    decreases s.len(),
{
    if s.len() == 0 || !is_space(s[s.len() - 1]) {
        0
    } else {
        1 + trail_spaces(s.drop_last())
    }
}

/// `s` with leading and trailing ASCII whitespace removed.
pub open spec fn trim_spec(s: Seq<char>) -> Seq<char> {
    let t = s.skip(lead_spaces(s));
    t.take(t.len() - trail_spaces(t))
}

pub proof fn lemma_lead_spaces(s: Seq<char>)
    ensures
        0 <= lead_spaces(s) <= s.len(),
        forall|j: int| 0 <= j < lead_spaces(s) ==> is_space(s[j]),
        lead_spaces(s) < s.len() ==> !is_space(s[lead_spaces(s)]),
    decreases s.len(),
{
    if s.len() > 0 && is_space(s[0]) {
        lemma_lead_spaces(s.drop_first());
        assert forall|j: int| 0 <= j < lead_spaces(s) implies is_space(s[j]) by {
            if j > 0 {
                assert(s.drop_first()[j - 1] == s[j]);
            }
        }
    }
}

pub proof fn lemma_trail_spaces(s: Seq<char>)
    ensures
        0 <= trail_spaces(s) <= s.len(),
        forall|j: int| s.len() - trail_spaces(s) <= j < s.len() ==> is_space(s[j]),
        trail_spaces(s) < s.len() ==> !is_space(s[s.len() - trail_spaces(s) - 1]),
    decreases s.len(),
{
    if s.len() > 0 && is_space(s[s.len() - 1]) {
        lemma_trail_spaces(s.drop_last());
        assert forall|j: int| s.len() - trail_spaces(s) <= j < s.len() implies is_space(s[j]) by {
            if j < s.len() - 1 {
                assert(s.drop_last()[j] == s[j]);
            }
        }
    }
}

/// Whether `pat` occurs in `s` starting at position `i`.
pub open spec fn matches_at(s: Seq<char>, pat: Seq<char>, i: int) -> bool {
    0 <= i && i + pat.len() <= s.len() && s.subrange(i, i + pat.len()) == pat
}

/// Whether `pat` occurs anywhere in `s`.
pub open spec fn contains_seq(s: Seq<char>, pat: Seq<char>) -> bool {
    exists|i: int| matches_at(s, pat, i)
}

/// ASCII lowercase of one character; other characters are unchanged.
pub open spec fn lower_char(c: char) -> char {
    if 'A' <= c && c <= 'Z' {
        (((c as u8) + 32) as char)
    } else {
        c
    }
}

/// ASCII lowercase of a whole character sequence.
pub open spec fn lower_seq(s: Seq<char>) -> Seq<char> {
    s.map_values(|c: char| lower_char(c))
}

/// ASCII lowercase of one character, computed.
pub fn lower_char_exec(c: char) -> (r: char)
    ensures
        r == lower_char(c),
{
    if 'A' <= c && c <= 'Z' {
        ((c as u8) + 32) as char
    } else {
        c
    }
}

/// Whether the views of two strings are equal, character by character.
pub fn str_eq(a: &str, b: &str) -> (r: bool)
    ensures
        r == (a@ == b@),
{
    let na = a.unicode_len();
    let nb = b.unicode_len();
    if na != nb {
        assert(a@ != b@);
        return false;
    }
    let mut i: usize = 0;
    while i < na
        invariant
            0 <= i <= na,
            na == a@.len(),
            na == b@.len(),
            forall|j: int| 0 <= j < i ==> a@[j] == b@[j],
        decreases na - i,
    {
        if a.get_char(i) != b.get_char(i) {
            assert(a@ != b@);
            return false;
        }
        i += 1;
    }
    assert(a@ =~= b@);
    true
}

/// Whether `pat` occurs in `s` at position `i`, computed.
pub fn matches_at_exec(s: &str, pat: &str, i: usize) -> (r: bool)
    ensures
        r == matches_at(s@, pat@, i as int),
{
    let n = s.unicode_len();
    let m = pat.unicode_len();
    if m > n || i > n - m {
        assert(!matches_at(s@, pat@, i as int));
        return false;
    }
    let mut j: usize = 0;
    while j < m
        invariant
            0 <= j <= m,
            m == pat@.len(),
            n == s@.len(),
            i + m <= n,
            forall|k: int| 0 <= k < j ==> s@[i + k] == pat@[k],
        decreases m - j,
    {
        if s.get_char(i + j) != pat.get_char(j) {
            assert(s@.subrange(i as int, i + pat@.len())[j as int] != pat@[j as int]);
            return false;
        }
        j += 1;
    }
    assert(s@.subrange(i as int, i + pat@.len()) =~= pat@);
    true
}

/// Whether `s` starts with `pat`.
pub fn starts_with(s: &str, pat: &str) -> (r: bool)
    ensures
        r == matches_at(s@, pat@, 0),
{
    matches_at_exec(s, pat, 0)
}

/// Whether `pat` occurs anywhere in `s`.
pub fn contains_str(s: &str, pat: &str) -> (r: bool)
    ensures
        r == contains_seq(s@, pat@),
{
    let m = pat.unicode_len();
    if m == 0 {
        assert(s@.subrange(0, 0) =~= pat@);
        assert(matches_at(s@, pat@, 0));
        return true;
    }
    let n = s.unicode_len();
    let mut i: usize = 0;
    while i < n
        invariant
            0 <= i <= n,
            n == s@.len(),
            forall|k: int| 0 <= k < i ==> !matches_at(s@, pat@, k),
        decreases n - i,
    {
        if matches_at_exec(s, pat, i) {
            return true;
        }
        i += 1;
    }
    assert(forall|k: int| matches_at(s@, pat@, k) ==> 0 <= k && k + pat@.len() <= s@.len());
    false
}

/// First position of `c` in `s` at or after `from`, if any.
pub fn find_char_from(s: &str, c: char, from: usize) -> (r: Option<usize>)
    requires
        from <= s@.len(),
    ensures
        match r {
            Some(i) => from <= i < s@.len() && s@[i as int] == c && forall|j: int|
                from <= j < i ==> s@[j] != c,
            None => forall|j: int| from <= j < s@.len() ==> s@[j] != c,
        },
{
    let n = s.unicode_len();
    let mut i: usize = from;
    while i < n
        invariant
            from <= i <= n,
            n == s@.len(),
            forall|j: int| from <= j < i ==> s@[j] != c,
        decreases n - i,
    {
        if s.get_char(i) == c {
            return Some(i);
        }
        i += 1;
    }
    None
}

/// Last position of `c` in `s`, if any.
pub fn rfind_char(s: &str, c: char) -> (r: Option<usize>)
    ensures
        match r {
            Some(i) => i < s@.len() && s@[i as int] == c && forall|j: int|
                i < j < s@.len() ==> s@[j] != c,
            None => forall|j: int| 0 <= j < s@.len() ==> s@[j] != c,
        },
{
    let n = s.unicode_len();
    let mut i: usize = n;
    while i > 0
        invariant
            0 <= i <= n,
            n == s@.len(),
            forall|j: int| i <= j < n ==> s@[j] != c,
        decreases i,
    {
        i -= 1;
        if s.get_char(i) == c {
            return Some(i);
        }
    }
    None
}

/// `s` with leading and trailing ASCII whitespace removed.
pub fn trim_str<'a>(s: &'a str) -> (r: &'a str)
    ensures
        r@ == trim_spec(s@),
{
    let n = s.unicode_len();
    let mut a: usize = 0;
    while a < n && is_space_exec(s.get_char(a))
        invariant
            0 <= a <= n,
            n == s@.len(),
            forall|j: int| 0 <= j < a ==> is_space(s@[j]),
        decreases n - a,
    {
        a += 1;
    }
    proof {
        lemma_lead_spaces(s@);
        // `a` stops at the first non-space character, which pins it exactly.
        if a < lead_spaces(s@) {
            assert(is_space(s@[a as int]));
        }
        if a > lead_spaces(s@) {
            assert(is_space(s@[lead_spaces(s@)]));
        }
        assert(a == lead_spaces(s@));
    }
    let mut b: usize = n;
    while b > a && is_space_exec(s.get_char(b - 1))
        invariant
            a <= b <= n,
            n == s@.len(),
            forall|j: int| b <= j < n ==> is_space(s@[j]),
        decreases b,
    {
        b -= 1;
    }
    proof {
        let t = s@.skip(a as int);
        lemma_trail_spaces(t);
        let stop = t.len() - trail_spaces(t);
        // relate indices of t and s
        assert(forall|j: int| 0 <= j < t.len() ==> t[j] == s@[j + a]);
        if b - a < stop {
            // then t[stop - 1] lies in the all-space suffix [b, n) of s
            assert(t[stop - 1] == s@[stop - 1 + a]);
            assert(is_space(t[stop - 1]));
            assert(false);
        }
        if b - a > stop {
            // the loop stopped on a non-space s[b - 1], yet b - 1 - a >= stop
            assert(b > a);
            assert(t[b - a - 1] == s@[b - 1]);
            assert(is_space(t[b - a - 1]));
            assert(false);
        }
        assert(b - a == stop);
        assert(s@.subrange(a as int, b as int) =~= trim_spec(s@));
    }
    s.substring_char(a, b)
}

/// The first position of `c` in `s`, or -1 when `c` does not occur.
pub open spec fn char_index_of(s: Seq<char>, c: char) -> int
    decreases s.len(),
{
    if s.len() == 0 {
        -1
    } else if s.first() == c {
        0
    } else {
        let r = char_index_of(s.drop_first(), c);
        if r == -1 {
            -1
        } else {
            r + 1
        }
    }
}

pub proof fn lemma_char_index_of(s: Seq<char>, c: char)
    ensures
        char_index_of(s, c) == -1 ==> forall|i: int| 0 <= i < s.len() ==> s[i] != c,
        char_index_of(s, c) != -1 ==> 0 <= char_index_of(s, c) < s.len() && s[char_index_of(s, c)]
            == c && forall|i: int| 0 <= i < char_index_of(s, c) ==> s[i] != c,
    decreases s.len(),
{
    if s.len() > 0 {
        lemma_char_index_of(s.drop_first(), c);
        assert(forall|i: int| 0 <= i < s.drop_first().len() ==> s.drop_first()[i] == s[i + 1]);
        if s.first() != c {
            let r0 = char_index_of(s.drop_first(), c);
            if r0 == -1 {
                assert forall|i: int| 0 <= i < s.len() implies s[i] != c by {
                    if i > 0 {
                        assert(s.drop_first()[i - 1] == s[i]);
                    }
                }
            } else {
                assert(s[r0 + 1] == s.drop_first()[r0]);
                assert forall|i: int| 0 <= i < r0 + 1 implies s[i] != c by {
                    if i > 0 {
                        assert(s.drop_first()[i - 1] == s[i]);
                    }
                }
            }
        }
    }
}

/// The first position of `c` in `s` at or after `from`, as
/// [`char_index_of`] sees it, when one exists.
pub fn find_char_spec(s: &str, c: char, from: usize) -> (r: Option<usize>)
    requires
        from <= s@.len(),
    ensures
        match r {
            Some(i) => from <= i < s@.len() && char_index_of(s@.skip(from as int), c) == i - from,
            None => char_index_of(s@.skip(from as int), c) == -1,
        },
{
    let r = find_char_from(s, c, from);
    proof {
        let t = s@.skip(from as int);
        lemma_char_index_of(t, c);
        assert(forall|j: int| 0 <= j < t.len() ==> t[j] == s@[j + from]);
        let ci = char_index_of(t, c);
        match r {
            Some(i) => {
                assert(t[i - from] == c);
                if ci == -1 {
                    assert(t[i - from] != c);
                }
                if ci < i - from {
                    assert(s@[ci + from] != c);
                    assert(t[ci] == c);
                }
                if ci > i - from {
                    assert(t[i - from] != c);
                }
            },
            None => {
                if ci != -1 {
                    assert(t[ci] == c);
                    assert(s@[ci + from] != c);
                }
            },
        }
    }
    r
}

/// Whether `pat` occurs at position `i` of `s` compared ASCII
/// case-insensitively (with `pat` already lowercase).
pub open spec fn ci_matches_at(s: Seq<char>, pat: Seq<char>, i: int) -> bool {
    matches_at(lower_seq(s), pat, i)
}

/// Whether `pat` occurs anywhere in `s` compared ASCII case-insensitively
/// (with `pat` already lowercase).
pub open spec fn contains_ci(s: Seq<char>, pat: Seq<char>) -> bool {
    contains_seq(lower_seq(s), pat)
}

/// Whether `pat` occurs at position `i` of `s`, ASCII case-insensitively,
/// computed.
pub fn ci_matches_at_exec(s: &str, pat: &str, i: usize) -> (r: bool)
    ensures
        r == ci_matches_at(s@, pat@, i as int),
{
    let n = s.unicode_len();
    let m = pat.unicode_len();
    if m > n || i > n - m {
        assert(!matches_at(lower_seq(s@), pat@, i as int));
        return false;
    }
    let mut j: usize = 0;
    while j < m
        invariant
            0 <= j <= m,
            m == pat@.len(),
            n == s@.len(),
            i + m <= n,
            forall|k: int| 0 <= k < j ==> lower_seq(s@)[i + k] == pat@[k],
        decreases m - j,
    {
        if lower_char_exec(s.get_char(i + j)) != pat.get_char(j) {
            assert(lower_seq(s@)[i + j] != pat@[j as int]);
            assert(lower_seq(s@).subrange(i as int, i + pat@.len())[j as int] != pat@[j as int]);
            return false;
        }
        j += 1;
    }
    assert(lower_seq(s@).subrange(i as int, i + pat@.len()) =~= pat@);
    true
}

/// Whether `pat` occurs anywhere in `s`, ASCII case-insensitively, computed.
pub fn contains_ci_exec(s: &str, pat: &str) -> (r: bool)
    ensures
        r == contains_ci(s@, pat@),
{
    let m = pat.unicode_len();
    if m == 0 {
        assert(lower_seq(s@).subrange(0, 0) =~= pat@);
        assert(matches_at(lower_seq(s@), pat@, 0));
        return true;
    }
    let n = s.unicode_len();
    let mut i: usize = 0;
    while i < n
        invariant
            0 <= i <= n,
            n == s@.len(),
            forall|k: int| 0 <= k < i ==> !matches_at(lower_seq(s@), pat@, k),
        decreases n - i,
    {
        if ci_matches_at_exec(s, pat, i) {
            return true;
        }
        i += 1;
    }
    assert(forall|k: int|
        matches_at(lower_seq(s@), pat@, k) ==> 0 <= k && k + pat@.len() <= lower_seq(s@).len());
    false
}

/// Whether `c` is ASCII whitespace, computed.
pub fn is_space_exec(c: char) -> (r: bool)
    ensures
        r == is_space(c),
{
    c == ' ' || c == '\t' || c == '\r' || c == '\n'
}

} // verus!
