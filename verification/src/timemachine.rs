//! Time Machine snapshot bookkeeping.
//!
//! Snapshots are created and deleted by the system's own tooling; this
//! module holds the decisions around them — reading snapshot listings,
//! extracting dates from snapshot ids, and picking which snapshots are old
//! enough to delete. Running the system tooling is the surrounding
//! program's concern.

use vstd::prelude::*;

use crate::error::Error;
use crate::strings::{contains_seq, trim_spec};
use crate::timefmt::parsed_secs_of;
use crate::tracking::split_lines;

verus! {

/// One local snapshot: its id, its extracted date text, and its size when
/// known.
#[derive(Debug)]
pub struct Snapshot {
    /// The snapshot's full id.
    pub id: String,
    /// The date rendered out of the id, or `unknown`.
    pub date: String,
    /// The snapshot's size in bytes, when the system reports one.
    pub size: Option<u64>,
}

/// The last position of `c` in `s`, or -1 when `c` does not occur.
pub open spec fn char_rindex_of(s: Seq<char>, c: char) -> int
    decreases s.len(),
{
    if s.len() == 0 {
        -1
    } else if s.last() == c {
        s.len() - 1
    } else {
        char_rindex_of(s.drop_last(), c)
    }
}

pub proof fn lemma_char_rindex_of(s: Seq<char>, c: char)
    ensures
        char_rindex_of(s, c) == -1 ==> forall|i: int| 0 <= i < s.len() ==> s[i] != c,
        char_rindex_of(s, c) != -1 ==> 0 <= char_rindex_of(s, c) < s.len() && s[char_rindex_of(
            s,
            c,
        )] == c && forall|i: int| char_rindex_of(s, c) < i < s.len() ==> s[i] != c,
    decreases s.len(),
{
    if s.len() > 0 {
        lemma_char_rindex_of(s.drop_last(), c);
        assert(forall|i: int| 0 <= i < s.drop_last().len() ==> s.drop_last()[i] == s[i]);
        assert(s[s.len() - 1] == s.last());
    }
}

/// The date text a snapshot id renders to: the id's last dot-separated
/// segment gives `YYYY-MM-DD` and, when long enough, five clock characters;
/// a segment shorter than a date gives nothing.
pub open spec fn extract_date_spec(s: Seq<char>) -> Option<Seq<char>> {
    let dot = char_rindex_of(s, '.');
    let seg = if dot == -1 {
        s
    } else {
        s.skip(dot + 1)
    };
    if seg.len() >= 10 {
        let time = if seg.len() >= 16 {
            seg.subrange(11, 16)
        } else {
            Seq::empty()
        };
        Some(seg.take(10) + " "@ + time)
    } else {
        None
    }
}

/// Manages local Time Machine snapshots.
#[derive(Clone, Copy, Debug)]
pub struct TimeMachineManager;

impl TimeMachineManager {
    /// The date text a snapshot id renders to, when the id carries one.
    pub fn extract_date(snapshot_id: &str) -> (r: Option<String>)
        ensures
            match r {
                Some(d) => extract_date_spec(snapshot_id@) == Some(d@),
                None => extract_date_spec(snapshot_id@) is None,
            },
    {
        let n = snapshot_id.unicode_len();
        let (seg_start, ghost_dot) = match crate::strings::rfind_char(snapshot_id, '.') {
            Some(d) => {
                proof {
                    lemma_char_rindex_of(snapshot_id@, '.');
                    let ri = char_rindex_of(snapshot_id@, '.');
                    if ri == -1 {
                        assert(snapshot_id@[d as int] != '.');
                    }
                    if ri < d as int {
                        assert(snapshot_id@[ri] == '.');
                    }
                    if ri > d as int {
                        assert(snapshot_id@[ri] != '.');
                    }
                }
                (d + 1, Ghost(d as int))
            },
            None => {
                proof {
                    lemma_char_rindex_of(snapshot_id@, '.');
                    let ri = char_rindex_of(snapshot_id@, '.');
                    if ri != -1 {
                        assert(snapshot_id@[ri] == '.');
                    }
                }
                (0, Ghost(-1))
            },
        };
        let seg = snapshot_id.substring_char(seg_start, n);
        proof {
            if ghost_dot@ == -1 {
                assert(seg@ =~= snapshot_id@);
            } else {
                assert(seg@ =~= snapshot_id@.skip(ghost_dot@ + 1));
            }
        }
        let seg_len = seg.unicode_len();
        if seg_len >= 10 {
            let date = seg.substring_char(0, 10);
            let mut out = date.to_owned();
            out.append(" ");
            if seg_len >= 16 {
                let time = seg.substring_char(11, 16);
                out.append(time);
            }
            proof {
                assert(seg@.subrange(0, 10) =~= seg@.take(10));
                if seg_len < 16 {
                    assert(out@ =~= seg@.take(10) + " "@ + Seq::<char>::empty());
                }
            }
            Some(out)
        } else {
            None
        }
    }

    /// Per-snapshot sizes; not available without elevated system access, so
    /// the listing is empty.
    pub fn get_snapshot_sizes() -> (r: Result<Vec<(String, u64)>, Error>)
        ensures
            r matches Ok(v) && v@.len() == 0,
    {
        Ok(Vec::new())
    }

    /// The total size of all snapshots; not available without elevated
    /// system access, so the total reads as zero.
    pub fn total_snapshot_size() -> (r: Result<u64, Error>)
        ensures
            r matches Ok(v) && v == 0,
    {
        Ok(0u64)
    }

    /// Read the epoch seconds out of a snapshot date text, trying the
    /// accepted calendar formats in order. Fails with `InvalidInput`
    /// exactly when none fits.
    pub fn parse_snapshot_date(date_str: &str) -> (r: Result<i64, Error>)
        ensures
            match r {
                Ok(v) => parse_date_spec(date_str@) == Some(v as int),
                Err(e) => parse_date_spec(date_str@) is None && e is InvalidInput,
            },
    {
        match crate::timefmt::parse_datetime_secs(date_str, "%Y-%m-%d %H%M%S") {
            Some(v) => Ok(v),
            None => match crate::timefmt::parse_datetime_secs(date_str, "%Y-%m-%d") {
                Some(v) => Ok(v),
                None => match crate::timefmt::parse_datetime_secs(date_str, "%Y-%m-%d-%H%M%S") {
                    Some(v) => Ok(v),
                    None => {
                        let mut msg = "Invalid date format: ".to_owned();
                        msg.append(date_str);
                        Err(Error::InvalidInput(msg))
                    },
                },
            },
        }
    }

    /// The ids of the snapshots whose date parses and lies strictly before
    /// `cutoff_secs`, in listing order — the ones a prune may delete.
    pub fn snapshots_to_delete(snapshots: &Vec<Snapshot>, cutoff_secs: i64) -> (r: Vec<String>)
        ensures
            crate::strings::views_of(r@) == expired_snapshot_ids(snapshots@, cutoff_secs as int),
    {
        let n = snapshots.len();
        let mut out: Vec<String> = Vec::new();
        let mut i: usize = 0;
        proof {
            assert(snapshots@.take(0) =~= Seq::<Snapshot>::empty());
            assert(crate::strings::views_of(out@) =~= expired_snapshot_ids(
                snapshots@.take(0),
                cutoff_secs as int,
            ));
        }
        while i < n
            invariant
                0 <= i <= n,
                n == snapshots@.len(),
                crate::strings::views_of(out@) == expired_snapshot_ids(
                    snapshots@.take(i as int),
                    cutoff_secs as int,
                ),
            decreases n - i,
        {
            proof {
                assert(snapshots@.take(i + 1).drop_last() =~= snapshots@.take(i as int));
                assert(snapshots@.take(i + 1).last() == snapshots@[i as int]);
            }
            match Self::parse_snapshot_date(snapshots[i].date.as_str()) {
                Ok(secs) => {
                    if secs < cutoff_secs {
                        let ghost preout = out@;
                        out.push(snapshots[i].id.clone());
                        proof {
                            assert(crate::strings::views_of(out@) =~= crate::strings::views_of(
                                preout,
                            ).push(snapshots@[i as int].id@));
                        }
                    }
                },
                Err(_) => {},
            }
            i += 1;
        }
        proof {
            assert(snapshots@.take(n as int) =~= snapshots@);
        }
        out
    }

    /// Read a snapshot listing: each line holding the Time Machine marker
    /// becomes a snapshot, its id trimmed and its date extracted.
    pub fn parse_snapshot_list(listing: &str) -> (r: Vec<Snapshot>)
        ensures
            snapshots_match(r@, snapshot_lines(split_lines(listing@))),
    {
        let n = listing.unicode_len();
        let mut out: Vec<Snapshot> = Vec::new();
        let mut p: usize = 0;
        let mut more: bool = true;
        proof {
            assert(listing@.skip(0) =~= listing@);
            assert(snapshot_ids_of(out@) =~= Seq::<Seq<char>>::empty());
            assert(snapshot_ids_of(out@) + snapshot_lines(split_lines(listing@)) =~= snapshot_lines(
                split_lines(listing@),
            ));
        }
        while more
            invariant
                0 <= p <= n,
                n == listing@.len(),
                more ==> snapshot_lines(split_lines(listing@)) == snapshot_ids_of(out@)
                    + snapshot_lines(split_lines(listing@.skip(p as int))),
                !more ==> snapshot_lines(split_lines(listing@)) == snapshot_ids_of(out@),
                forall|i: int|
                    0 <= i < out@.len() ==> (#[trigger] out@[i]).size is None && (match
                        extract_date_spec(out@[i].id@) {
                        Some(d) => out@[i].date@ == d,
                        None => out@[i].date@ == "unknown"@,
                    }),
            decreases n - p + if more {
                1int
            } else {
                0int
            },
        {
            let ghost rest = listing@.skip(p as int);
            let (line_end, next_p, last) = match crate::strings::find_char_spec(listing, '\n', p) {
                Some(q) => (q, q + 1, false),
                None => (n, n, true),
            };
            let line = listing.substring_char(p, line_end);
            proof {
                let i = crate::strings::char_index_of(rest, '\n');
                if last {
                    assert(i == -1);
                    assert(split_lines(rest) == seq![rest]);
                    assert(line@ =~= rest);
                    assert(split_lines(rest).drop_first() =~= Seq::<Seq<char>>::empty());
                    assert(snapshot_lines(Seq::<Seq<char>>::empty()) =~= Seq::<Seq<char>>::empty());
                } else {
                    assert(i == line_end - p);
                    assert(0 <= i < rest.len());
                    assert(split_lines(rest) == seq![rest.take(i)] + split_lines(rest.skip(i + 1)));
                    assert(line@ =~= rest.take(i));
                    assert(rest.skip(i + 1) =~= listing@.skip(line_end + 1));
                    assert(split_lines(rest).drop_first() =~= split_lines(
                        listing@.skip(line_end + 1),
                    ));
                }
                assert(split_lines(rest).first() == line@);
            }
            let ghost tail_lines = snapshot_lines(split_lines(rest).drop_first());
            if crate::strings::contains_str(line, "com.apple.TimeMachine") {
                let id = crate::strings::trim_str(line).to_owned();
                let date = match Self::extract_date(id.as_str()) {
                    Some(d) => d,
                    None => "unknown".to_owned(),
                };
                let ghost preout = out@;
                out.push(Snapshot { id, date, size: None });
                proof {
                    assert(snapshot_lines(split_lines(rest)) == seq![trim_spec(line@)]
                        + tail_lines);
                    assert(snapshot_ids_of(out@) =~= snapshot_ids_of(preout).push(
                        trim_spec(line@),
                    ));
                    assert(snapshot_ids_of(preout) + (seq![trim_spec(line@)] + tail_lines)
                        =~= snapshot_ids_of(out@) + tail_lines);
                }
            } else {
                proof {
                    assert(snapshot_lines(split_lines(rest)) == tail_lines);
                }
            }
            if last {
                more = false;
            } else {
                p = next_p;
            }
        }
        proof {
            assert(snapshots_match(out@, snapshot_lines(split_lines(listing@)))) by {
                assert(snapshot_lines(split_lines(listing@)) == snapshot_ids_of(out@));
                assert(forall|i: int|
                    0 <= i < out@.len() ==> snapshot_ids_of(out@)[i] == (#[trigger] out@[i]).id@);
            }
        }
        out
    }
}

/// The ids of expired snapshots: those whose date parses strictly before
/// the cutoff.
pub open spec fn expired_snapshot_ids(ss: Seq<Snapshot>, cutoff: int) -> Seq<Seq<char>>
    decreases ss.len(),
{
    if ss.len() == 0 {
        Seq::empty()
    } else {
        let r = expired_snapshot_ids(ss.drop_last(), cutoff);
        match parse_date_spec(ss.last().date@) {
            Some(v) => if v < cutoff {
                r.push(ss.last().id@)
            } else {
                r
            },
            None => r,
        }
    }
}

/// The epoch seconds a snapshot date text parses to under the first
/// accepted format that fits.
pub open spec fn parse_date_spec(s: Seq<char>) -> Option<int> {
    if parsed_secs_of(s, "%Y-%m-%d %H%M%S"@) is Some {
        parsed_secs_of(s, "%Y-%m-%d %H%M%S"@)
    } else if parsed_secs_of(s, "%Y-%m-%d"@) is Some {
        parsed_secs_of(s, "%Y-%m-%d"@)
    } else {
        parsed_secs_of(s, "%Y-%m-%d-%H%M%S"@)
    }
}

/// The trimmed snapshot lines of a listing: the lines that hold the Time
/// Machine marker.
pub open spec fn snapshot_lines(ls: Seq<Seq<char>>) -> Seq<Seq<char>>
    decreases ls.len(),
{
    if ls.len() == 0 {
        Seq::empty()
    } else {
        let r = snapshot_lines(ls.drop_first());
        if contains_seq(ls.first(), "com.apple.TimeMachine"@) {
            seq![trim_spec(ls.first())] + r
        } else {
            r
        }
    }
}

/// The ids of a snapshot listing, in order.
pub open spec fn snapshot_ids_of(ss: Seq<Snapshot>) -> Seq<Seq<char>> {
    ss.map_values(|s: Snapshot| s.id@)
}

/// Whether parsed snapshots carry exactly the given trimmed ids, each date
/// extracted from its id (or `unknown`), and no sizes.
pub open spec fn snapshots_match(ss: Seq<Snapshot>, ids: Seq<Seq<char>>) -> bool {
    &&& ss.len() == ids.len()
    &&& forall|i: int|
        0 <= i < ss.len() ==> (#[trigger] ss[i]).id@ == ids[i] && ss[i].size is None && (match
            extract_date_spec(ids[i]) {
            Some(d) => ss[i].date@ == d,
            None => ss[i].date@ == "unknown"@,
        })
}

} // verus!
