//! Error-tracking configuration logic: backend detection from a DSN,
//! masking a DSN for logs, and reading a DSN out of a config file.
//!
//! Only the pure decision logic lives here; wiring a tracking SDK is the
//! surrounding program's concern.

use vstd::prelude::*;

use crate::strings::{char_index_of, contains_ci, find_char_spec, matches_at, trim_spec};

verus! {

/// Which error-tracking backend a DSN points at.
#[derive(Clone, Copy, PartialEq, Eq, Structural, Debug)]
pub enum ErrorTrackingBackend {
    /// The hosted service.
    Sentry,
    /// A self-hosted, API-compatible service.
    GlitchTip,
    /// Decide from the DSN when it is first used.
    Auto,
}

impl Default for ErrorTrackingBackend {
    /// Without configuration the backend is auto-detected.
    fn default() -> (r: Self)
        ensures
            r == ErrorTrackingBackend::Auto,
    {
        ErrorTrackingBackend::Auto
    }
}

/// The backend a DSN is detected as: known hosted domains mean `Sentry`,
/// known self-hosted markers mean `GlitchTip`, anything else stays `Auto`.
/// All matching is ASCII case-insensitive.
pub open spec fn backend_of_dsn(d: Seq<char>) -> ErrorTrackingBackend {
    if contains_ci(d, "sentry.io"@) || contains_ci(d, "ingest.sentry.io"@) {
        ErrorTrackingBackend::Sentry
    } else if contains_ci(d, "glitchtip"@) || contains_ci(d, "localhost:8000"@) || contains_ci(
        d,
        "127.0.0.1:8000"@,
    ) || contains_ci(d, "glitchtip.com"@) || (contains_ci(d, "localhost"@) && contains_ci(
        d,
        ":8000"@,
    )) {
        ErrorTrackingBackend::GlitchTip
    } else {
        ErrorTrackingBackend::Auto
    }
}

/// What [`mask_dsn`] renders: the key before the `@` replaced by `***`,
/// keeping the host up to and including the first `/` after the `@`; a DSN
/// without an `@` masks entirely.
pub open spec fn mask_dsn_spec(d: Seq<char>) -> Seq<char> {
    let a = char_index_of(d, '@');
    if a == -1 {
        "***"@
    } else {
        let rel = char_index_of(d.skip(a), '/');
        if rel == -1 {
            "***@"@ + d.skip(a + 1)
        } else {
            "***@"@ + d.subrange(a + 1, a + rel + 1)
        }
    }
}

impl ErrorTrackingBackend {
    /// Detect the backend a DSN points at.
    pub fn from_dsn(dsn: &str) -> (r: Self)
        ensures
            r == backend_of_dsn(dsn@),
    {
        if crate::strings::contains_ci_exec(dsn, "sentry.io") || crate::strings::contains_ci_exec(
            dsn,
            "ingest.sentry.io",
        ) {
            ErrorTrackingBackend::Sentry
        } else if crate::strings::contains_ci_exec(dsn, "glitchtip")
            || crate::strings::contains_ci_exec(dsn, "localhost:8000")
            || crate::strings::contains_ci_exec(dsn, "127.0.0.1:8000")
            || crate::strings::contains_ci_exec(dsn, "glitchtip.com") || (
        crate::strings::contains_ci_exec(dsn, "localhost") && crate::strings::contains_ci_exec(
            dsn,
            ":8000",
        )) {
            ErrorTrackingBackend::GlitchTip
        } else {
            ErrorTrackingBackend::Auto
        }
    }

    /// The backend's display name.
    pub fn display_name(&self) -> (r: &'static str)
        ensures
            *self is Sentry ==> r@ == "Sentry.io"@,
            *self is GlitchTip ==> r@ == "GlitchTip"@,
            *self is Auto ==> r@ == "Auto-detected"@,
    {
        match self {
            ErrorTrackingBackend::Sentry => "Sentry.io",
            ErrorTrackingBackend::GlitchTip => "GlitchTip",
            ErrorTrackingBackend::Auto => "Auto-detected",
        }
    }
}

/// Mask the secret part of a DSN for logging: only the host (after the `@`,
/// up to and including the first `/`) is kept.
pub fn mask_dsn(dsn: &str) -> (r: String)
    ensures
        r@ == mask_dsn_spec(dsn@),
{
    let n = dsn.unicode_len();
    match crate::strings::find_char_spec(dsn, '@', 0) {
        None => {
            proof {
                assert(dsn@.skip(0) =~= dsn@);
            }
            "***".to_owned()
        },
        Some(a) => {
            proof {
                assert(dsn@.skip(0) =~= dsn@);
            }
            let rel = crate::strings::find_char_spec(dsn, '/', a);
            let mut s = "***@".to_owned();
            match rel {
                None => {
                    s.append(dsn.substring_char(a + 1, n));
                    proof {
                        assert(dsn@.subrange(a + 1, n as int) =~= dsn@.skip(a + 1));
                        assert(char_index_of(dsn@.skip(a as int), '/') == -1);
                    }
                    s
                },
                Some(sl) => {
                    s.append(dsn.substring_char(a + 1, sl + 1));
                    proof {
                        assert(char_index_of(dsn@.skip(a as int), '/') == sl - a);
                    }
                    s
                },
            }
        },
    }
}

/// What one config line offers as a DSN: after trimming, a
/// `defaults.url=` or `dsn=` prefix whose trimmed remainder is an
/// `https://` or `http://` URL.
pub open spec fn line_dsn(line: Seq<char>) -> Option<Seq<char>> {
    let l = trim_spec(line);
    if matches_at(l, "defaults.url="@, 0) {
        url_check(trim_spec(l.skip(13)))
    } else if matches_at(l, "dsn="@, 0) {
        url_check(trim_spec(l.skip(4)))
    } else {
        None
    }
}

/// A URL is accepted when it starts with `https://` or `http://`.
pub open spec fn url_check(u: Seq<char>) -> Option<Seq<char>> {
    if matches_at(u, "https://"@, 0) || matches_at(u, "http://"@, 0) {
        Some(u)
    } else {
        None
    }
}

/// The lines of a text, split on `\n`.
pub open spec fn split_lines(s: Seq<char>) -> Seq<Seq<char>>
    decreases s.len(),
{
    let i = char_index_of(s, '\n');
    if i < 0 || i >= s.len() {
        seq![s]
    } else {
        seq![s.take(i)] + split_lines(s.skip(i + 1))
    }
}

/// The first DSN any line offers, in line order.
pub open spec fn first_line_dsn(ls: Seq<Seq<char>>) -> Option<Seq<char>>
    decreases ls.len(),
{
    if ls.len() == 0 {
        None
    } else {
        match line_dsn(ls.first()) {
            Some(u) => Some(u),
            None => first_line_dsn(ls.drop_first()),
        }
    }
}

/// The DSN a whole config file offers: the first line that carries one.
pub open spec fn extract_dsn_spec(content: Seq<char>) -> Option<Seq<char>> {
    first_line_dsn(split_lines(content))
}

/// What one line offers as a DSN, computed.
fn line_dsn_exec(line: &str) -> (r: Option<String>)
    ensures
        match r {
            Some(u) => line_dsn(line@) == Some(u@),
            None => line_dsn(line@) is None,
        },
{
    proof {
        reveal_strlit("defaults.url=");
        reveal_strlit("dsn=");
        reveal_strlit("https://");
        reveal_strlit("http://");
    }
    let l = crate::strings::trim_str(line);
    let ln = l.unicode_len();
    if crate::strings::starts_with(l, "defaults.url=") {
        let u = crate::strings::trim_str(l.substring_char(13, ln));
        proof {
            assert(l@.subrange(13, ln as int) =~= l@.skip(13));
        }
        if crate::strings::starts_with(u, "https://") || crate::strings::starts_with(
            u,
            "http://",
        ) {
            Some(u.to_owned())
        } else {
            None
        }
    } else if crate::strings::starts_with(l, "dsn=") {
        let u = crate::strings::trim_str(l.substring_char(4, ln));
        proof {
            assert(l@.subrange(4, ln as int) =~= l@.skip(4));
        }
        if crate::strings::starts_with(u, "https://") || crate::strings::starts_with(
            u,
            "http://",
        ) {
            Some(u.to_owned())
        } else {
            None
        }
    } else {
        None
    }
}

/// Read a DSN out of config file text: the first line that, after trimming,
/// carries `defaults.url=` or `dsn=` followed by an `http://` or `https://`
/// URL.
pub fn extract_dsn_from_config(content: &str) -> (r: Option<String>)
    ensures
        match r {
            Some(u) => extract_dsn_spec(content@) == Some(u@),
            None => extract_dsn_spec(content@) is None,
        },
{
    let n = content.unicode_len();
    let mut p: usize = 0;
    let mut more: bool = true;
    proof {
        assert(content@.skip(0) =~= content@);
    }
    while more
        invariant
            0 <= p <= n,
            n == content@.len(),
            more ==> extract_dsn_spec(content@) == first_line_dsn(
                split_lines(content@.skip(p as int)),
            ),
            !more ==> extract_dsn_spec(content@) is None,
        decreases n - p + if more {
            1int
        } else {
            0int
        },
    {
        let ghost rest = content@.skip(p as int);
        let (line_end, next_p, last) = match crate::strings::find_char_spec(content, '\n', p) {
            Some(q) => (q, q + 1, false),
            None => (n, n, true),
        };
        let line = content.substring_char(p, line_end);
        proof {
            let i = char_index_of(rest, '\n');
            if last {
                assert(i == -1);
                assert(split_lines(rest) == seq![rest]);
                assert(line@ =~= rest);
            } else {
                assert(i == line_end - p);
                assert(0 <= i < rest.len());
                assert(split_lines(rest) == seq![rest.take(i)] + split_lines(rest.skip(i + 1)));
                assert(line@ =~= rest.take(i));
                assert(rest.skip(i + 1) =~= content@.skip(line_end + 1));
            }
            assert(split_lines(rest).first() == line@);
        }
        match line_dsn_exec(line) {
            Some(u) => {
                proof {
                    assert(first_line_dsn(split_lines(rest)) == Some(u@));
                }
                return Some(u);
            },
            None => {
                proof {
                    assert(line_dsn(split_lines(rest).first()) is None);
                    if last {
                        assert(split_lines(rest).len() == 1);
                        assert(split_lines(rest).drop_first() =~= Seq::<Seq<char>>::empty());
                        assert(first_line_dsn(Seq::<Seq<char>>::empty()) is None);
                        assert(first_line_dsn(split_lines(rest)) is None);
                    } else {
                        assert(split_lines(rest).drop_first() =~= split_lines(
                            content@.skip(line_end + 1),
                        ));
                    }
                }
                if last {
                    more = false;
                } else {
                    p = next_p;
                }
            },
        }
    }
    None
}

} // verus!
