//! Parsing human-readable size strings such as `100MB` or `1gb` to bytes.

use vstd::prelude::*;

use crate::error::Error;
use crate::strings::{matches_at, trim_spec};

verus! {

/// ASCII uppercase of one character; other characters are unchanged.
pub open spec fn upper_char(c: char) -> char {
    if 'a' <= c && c <= 'z' {
        (((c as u8) - 32) as char)
    } else {
        c
    }
}

/// ASCII uppercase of a whole character sequence.
pub open spec fn upper_seq(s: Seq<char>) -> Seq<char> {
    s.map_values(|c: char| upper_char(c))
}

/// ASCII uppercase of one character, computed.
pub fn upper_char_exec(c: char) -> (r: char)
    ensures
        r == upper_char(c),
{
    if 'a' <= c && c <= 'z' {
        ((c as u8) - 32) as char
    } else {
        c
    }
}

/// Whether `s` ends with `suf`.
pub open spec fn ends_with(s: Seq<char>, suf: Seq<char>) -> bool {
    matches_at(s, suf, s.len() - suf.len())
}

/// `s` with every trailing repetition of `suf` removed.
pub open spec fn strip_reps(s: Seq<char>, suf: Seq<char>) -> Seq<char>
    decreases s.len(),
{
    if suf.len() >= 1 && ends_with(s, suf) {
        strip_reps(s.take(s.len() - suf.len()), suf)
    } else {
        s
    }
}

/// The numeric part and byte multiplier of an uppercased size string: a
/// trailing `KB`, `MB`, `GB` or `TB` names its power of 1024, a trailing
/// `B` alone means bytes, anything else is taken as a bare byte count. The
/// chosen suffix is stripped even when repeated.
pub open spec fn split_unit(u: Seq<char>) -> (Seq<char>, int) {
    if ends_with(u, "KB"@) {
        (strip_reps(u, "KB"@), 1024)
    } else if ends_with(u, "MB"@) {
        (strip_reps(u, "MB"@), 1048576)
    } else if ends_with(u, "GB"@) {
        (strip_reps(u, "GB"@), 1073741824)
    } else if ends_with(u, "TB"@) {
        (strip_reps(u, "TB"@), 1099511627776)
    } else if ends_with(u, "B"@) {
        (strip_reps(u, "B"@), 1)
    } else {
        (u, 1)
    }
}

/// Whether `c` is an ASCII digit.
pub open spec fn is_digit(c: char) -> bool {
    '0' <= c && c <= '9'
}

/// Whether every character of `s` is an ASCII digit.
pub open spec fn all_digits(s: Seq<char>) -> bool {
    forall|i: int| 0 <= i < s.len() ==> is_digit(#[trigger] s[i])
}

/// The number a digit string denotes.
pub open spec fn digits_value(s: Seq<char>) -> int
    decreases s.len(),
{
    if s.len() == 0 {
        0
    } else {
        digits_value(s.drop_last()) * 10 + ((s.last() as u32) - 48)
    }
}

/// The numeric text without an optional leading plus sign.
pub open spec fn num_body(s: Seq<char>) -> Seq<char> {
    if s.len() > 0 && s[0] == '+' {
        s.skip(1)
    } else {
        s
    }
}

/// The bytes a size string denotes, when it is well-formed: trimmed and
/// uppercased, its unit suffix stripped, its numeric part (optionally
/// plus-signed) read as a decimal number and scaled by the unit — provided
/// both the number and the scaled result fit in a `u64`.
pub open spec fn size_spec(s: Seq<char>) -> Option<int> {
    let u = upper_seq(trim_spec(s));
    let body = num_body(split_unit(u).0);
    if body.len() > 0 && all_digits(body) && digits_value(body) <= u64::MAX && digits_value(body)
        * split_unit(u).1 <= u64::MAX {
        Some(digits_value(body) * split_unit(u).1)
    } else {
        None
    }
}

pub proof fn lemma_digits_nonneg(s: Seq<char>)
    requires
        all_digits(s),
    ensures
        digits_value(s) >= 0,
    decreases s.len(),
{
    if s.len() > 0 {
        assert(forall|i: int| 0 <= i < s.drop_last().len() ==> s.drop_last()[i] == s[i]);
        lemma_digits_nonneg(s.drop_last());
        assert(is_digit(s[s.len() - 1]));
    }
}

/// A digit string's prefixes denote no more than the whole string.
pub proof fn lemma_digits_prefix(s: Seq<char>, k: int)
    requires
        all_digits(s),
        0 <= k <= s.len(),
    ensures
        digits_value(s.take(k)) <= digits_value(s),
    decreases s.len() - k,
{
    if k < s.len() {
        lemma_digits_prefix(s, k + 1);
        assert(s.take(k + 1).drop_last() =~= s.take(k));
        assert(forall|i: int| 0 <= i < s.take(k).len() ==> s.take(k)[i] == s[i]);
        assert(all_digits(s.take(k)));
        lemma_digits_nonneg(s.take(k));
        assert(is_digit(s[k]));
        assert(digits_value(s.take(k + 1)) == digits_value(s.take(k)) * 10 + ((s[k] as u32)
            - 48));
        assert(digits_value(s.take(k)) * 10 >= digits_value(s.take(k))) by (nonlinear_arith)
            requires
                digits_value(s.take(k)) >= 0,
        ;
    } else {
        assert(s.take(k) =~= s);
    }
}

/// Whether `suf` occurs at position `i` of the uppercased `t`, computed.
fn upper_matches_at(t: &str, suf: &str, i: usize) -> (r: bool)
    ensures
        r == matches_at(upper_seq(t@), suf@, i as int),
{
    let n = t.unicode_len();
    let m = suf.unicode_len();
    if m > n || i > n - m {
        assert(!matches_at(upper_seq(t@), suf@, i as int));
        return false;
    }
    let mut j: usize = 0;
    while j < m
        invariant
            0 <= j <= m,
            m == suf@.len(),
            n == t@.len(),
            i + m <= n,
            forall|k: int| 0 <= k < j ==> upper_seq(t@)[i + k] == suf@[k],
        decreases m - j,
    {
        if upper_char_exec(t.get_char(i + j)) != suf.get_char(j) {
            assert(upper_seq(t@)[i + j] != suf@[j as int]);
            assert(upper_seq(t@).subrange(i as int, i + suf@.len())[j as int] != suf@[j as int]);
            return false;
        }
        j += 1;
    }
    assert(upper_seq(t@).subrange(i as int, i + suf@.len()) =~= suf@);
    true
}

/// Whether the uppercased `t`, cut to its first `end` characters, ends with
/// `suf`, computed.
fn upper_take_ends_with(t: &str, suf: &str, end: usize) -> (r: bool)
    requires
        end <= t@.len(),
    ensures
        r == ends_with(upper_seq(t@).take(end as int), suf@),
{
    let m = suf.unicode_len();
    if m > end {
        assert(!ends_with(upper_seq(t@).take(end as int), suf@));
        return false;
    }
    let r = upper_matches_at(t, suf, end - m);
    proof {
        let u = upper_seq(t@);
        if matches_at(u, suf@, end - m as int) {
            assert(u.take(end as int).subrange(end - m as int, end as int) =~= u.subrange(
                end - m as int,
                end as int,
            ));
        }
        if matches_at(u.take(end as int), suf@, end - m as int) {
            assert(u.take(end as int).subrange(end - m as int, end as int) =~= u.subrange(
                end - m as int,
                end as int,
            ));
        }
    }
    r
}

/// How many characters remain once every trailing repetition of `suf` is
/// stripped from the uppercased `t`.
fn strip_reps_len(t: &str, suf: &str) -> (end: usize)
    requires
        suf@.len() >= 1,
    ensures
        end <= t@.len(),
        strip_reps(upper_seq(t@), suf@) == upper_seq(t@).take(end as int),
{
    let n = t.unicode_len();
    let m = suf.unicode_len();
    let mut end: usize = n;
    proof {
        assert(upper_seq(t@).take(n as int) =~= upper_seq(t@));
    }
    while end >= m && upper_take_ends_with(t, suf, end)
        invariant
            0 <= end <= n,
            n == t@.len(),
            m == suf@.len(),
            m >= 1,
            strip_reps(upper_seq(t@), suf@) == strip_reps(upper_seq(t@).take(end as int), suf@),
        decreases end,
    {
        proof {
            let u = upper_seq(t@);
            assert(u.take(end as int).take(end - m as int) =~= u.take(end - m as int));
        }
        end = end - m;
    }
    proof {
        let u = upper_seq(t@);
        if end < m {
            assert(!ends_with(u.take(end as int), suf@));
        }
        assert(strip_reps(u.take(end as int), suf@) == u.take(end as int));
    }
    end
}

/// Parse a size string such as `100`, `100B`, `100KB`, `1gb` or `2TB` into
/// bytes. Fails with `InvalidInput` exactly when the numeric part is
/// missing, holds a non-digit, or the value does not fit in a `u64`.
pub fn parse_size(size_str: &str) -> (r: Result<u64, Error>)
    ensures
        match r {
            Ok(v) => size_spec(size_str@) == Some(v as int),
            Err(e) => size_spec(size_str@) is None && e is InvalidInput,
        },
{
    proof {
        reveal_strlit("KB");
        reveal_strlit("MB");
        reveal_strlit("GB");
        reveal_strlit("TB");
        reveal_strlit("B");
    }
    let t = crate::strings::trim_str(size_str);
    let ghost u = upper_seq(t@);
    let n = t.unicode_len();
    // Pick the unit from the suffix of the whole (trimmed) string.
    let (end, unit): (usize, u64) = if upper_take_ends_with(t, "KB", n) {
        (strip_reps_len(t, "KB"), 1024)
    } else if upper_take_ends_with(t, "MB", n) {
        (strip_reps_len(t, "MB"), 1048576)
    } else if upper_take_ends_with(t, "GB", n) {
        (strip_reps_len(t, "GB"), 1073741824)
    } else if upper_take_ends_with(t, "TB", n) {
        (strip_reps_len(t, "TB"), 1099511627776)
    } else if upper_take_ends_with(t, "B", n) {
        (strip_reps_len(t, "B"), 1)
    } else {
        (n, 1)
    };
    proof {
        assert(u.take(n as int) =~= u);
        assert(split_unit(u).0 == u.take(end as int) && split_unit(u).1 == unit);
    }
    let ghost numstr = u.take(end as int);
    // Skip an optional leading plus sign.
    let start: usize = if end > 0 && t.get_char(0) == '+' {
        proof {
            assert(u[0] == upper_char(t@[0]));
        }
        1
    } else {
        0
    };
    let ghost body = num_body(numstr);
    proof {
        if start == 1 {
            assert(body =~= numstr.skip(1));
        } else {
            assert(body == numstr);
        }
        assert(body.len() == end - start);
        assert(forall|k: int|
            0 <= k < body.len() ==> body[k] == u[k + start]);
    }
    if start >= end {
        proof {
            assert(body.len() == 0);
            assert(trim_spec(size_str@) == t@);
            assert(num_body(split_unit(upper_seq(trim_spec(size_str@))).0) == body);
            assert(size_spec(size_str@) is None);
        }
        return Err(Error::InvalidInput(invalid_size_message(size_str)));
    }
    // Read the decimal digits.
    let mut acc: u64 = 0;
    let mut i: usize = start;
    proof {
        assert(body.take(0) =~= Seq::<char>::empty());
    }
    while i < end
        invariant
            start <= i <= end,
            end <= t@.len(),
            t@ == trim_spec(size_str@),
            u == upper_seq(t@),
            numstr == u.take(end as int),
            numstr == split_unit(u).0,
            body == num_body(numstr),
            body.len() == end - start,
            forall|k: int| 0 <= k < body.len() ==> body[k] == u[k + start],
            all_digits(body.take(i - start)),
            acc == digits_value(body.take(i - start)),
        decreases end - i,
    {
        let c = t.get_char(i);
        proof {
            assert(u[i as int] == upper_char(t@[i as int]));
            assert(body[i - start] == upper_char(c));
            assert(body.take(i - start + 1).drop_last() =~= body.take(i - start));
            assert(body.take(i - start + 1).last() == body[i - start]);
        }
        if !('0' <= c && c <= '9') {
            proof {
                // a non-digit stays a non-digit under uppercasing
                assert(!is_digit(upper_char(c)));
                assert(!all_digits(body)) by {
                    assert(!is_digit(body[i - start]));
                }
            }
            return Err(Error::InvalidInput(invalid_size_message(size_str)));
        }
        proof {
            assert(upper_char(c) == c);
            assert(is_digit(body[i - start]));
            assert(all_digits(body.take(i - start + 1))) by {
                assert(forall|k: int|
                    0 <= k < i - start ==> body.take(i - start + 1)[k] == #[trigger] body.take(
                        i - start,
                    )[k]);
            }
        }
        let d: u64 = (c as u8 - 48) as u64;
        proof {
            assert(d == (body[i - start] as u32) - 48);
        }
        let shifted = match acc.checked_mul(10) {
            Some(x) => x,
            None => {
                proof {
                    assert(digits_value(body.take(i - start + 1)) > u64::MAX);
                    overflow_means_invalid(body, i - start as int);
                }
                return Err(Error::InvalidInput(invalid_size_message(size_str)));
            },
        };
        let next = match shifted.checked_add(d) {
            Some(x) => x,
            None => {
                proof {
                    assert(digits_value(body.take(i - start + 1)) > u64::MAX);
                    overflow_means_invalid(body, i - start as int);
                }
                return Err(Error::InvalidInput(invalid_size_message(size_str)));
            },
        };
        acc = next;
        i += 1;
    }
    proof {
        assert(body.take(end - start) =~= body);
    }
    match acc.checked_mul(unit) {
        Some(v) => Ok(v),
        None => Err(Error::InvalidInput(invalid_size_message(size_str))),
    }
}

/// When the running digit value exceeds `u64::MAX` at some prefix, the whole
/// size string is invalid: either a later character is not a digit, or the
/// full value is larger still.
proof fn overflow_means_invalid(body: Seq<char>, upto: int)
    requires
        0 <= upto < body.len(),
        digits_value(body.take(upto + 1)) > u64::MAX,
    ensures
        all_digits(body) ==> digits_value(body) > u64::MAX,
{
    if all_digits(body) {
        lemma_digits_prefix(body, upto + 1);
    }
}

/// The error text a malformed size string produces.
fn invalid_size_message(size_str: &str) -> (r: String)
    ensures
        true,
{
    let mut msg = "Invalid size format: ".to_owned();
    msg.append(size_str);
    msg
}

} // verus!
