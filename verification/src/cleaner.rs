//! The cleanup orchestrator.
//!
//! A cleanup resolves a target to a list of scan roots, expands
//! home-relative roots, and walks each existing root. A dry run only
//! enumerates and sums sizes. A live run routes every discovered file
//! through the recovery store's archive — moved, not deleted — before
//! counting it as cleaned, so each destructive action stays reversible
//! until retention expiry.

use vstd::prelude::*;

use crate::duplicates::candidates;
use crate::recovery::{archive_path_of, save_index_model, RecoveryManager};
use crate::strings::{matches_at, views_of};
use crate::timefmt::{manifest_id_of, MAX_RENDERED_SECS};
use crate::vfs::{
    lemma_content_of, lemma_total_bytes_nonneg, lemma_total_bytes_prefix_le, total_bytes, VfsFile,
    VirtualFs,
};

verus! {

/// What can be cleaned.
#[derive(Clone, Copy, PartialEq, Eq, Structural, Debug)]
pub enum CleanTarget {
    /// System caches.
    Caches,
    /// Log files.
    Logs,
    /// Temporary files.
    Temp,
    /// All of the above.
    All,
}

/// The scan roots of each target, before home expansion.
pub open spec fn target_paths(t: CleanTarget) -> Seq<Seq<char>> {
    match t {
        CleanTarget::Caches => seq!["~/Library/Caches"@, "/Library/Caches"@],
        CleanTarget::Logs => seq!["~/Library/Logs"@, "/var/log"@],
        CleanTarget::Temp => seq!["/tmp"@, "/var/tmp"@],
        CleanTarget::All => seq![
            "~/Library/Caches"@,
            "/Library/Caches"@,
            "~/Library/Logs"@,
            "/var/log"@,
            "/tmp"@,
            "/var/tmp"@,
        ],
    }
}

/// The views of a sequence of path slices.
pub open spec fn strs_views(s: Seq<&str>) -> Seq<Seq<char>> {
    s.map_values(|p: &str| p@)
}

impl CleanTarget {
    /// The scan roots this target covers.
    pub fn paths(&self) -> (r: Vec<&'static str>)
        ensures
            strs_views(r@) == target_paths(*self),
    {
        let r: Vec<&'static str> = match self {
            CleanTarget::Caches => vec!["~/Library/Caches", "/Library/Caches"],
            CleanTarget::Logs => vec!["~/Library/Logs", "/var/log"],
            CleanTarget::Temp => vec!["/tmp", "/var/tmp"],
            CleanTarget::All => vec![
                "~/Library/Caches",
                "/Library/Caches",
                "~/Library/Logs",
                "/var/log",
                "/tmp",
                "/var/tmp",
            ],
        };
        proof {
            assert(strs_views(r@) =~= target_paths(*self));
        }
        r
    }
}

/// A home-relative path (`~/...`) with the home directory substituted;
/// any other path unchanged.
pub open spec fn expand_spec(p: Seq<char>, home: Seq<char>) -> Seq<char> {
    if matches_at(p, "~/"@, 0) {
        home + "/"@ + p.skip(2)
    } else {
        p
    }
}

/// Expand a leading `~/` to the given home directory.
pub fn expand_path(path: &str, home: &str) -> (r: String)
    ensures
        r@ == expand_spec(path@, home@),
{
    proof {
        reveal_strlit("~/");
    }
    if crate::strings::starts_with(path, "~/") {
        let n = path.unicode_len();
        let rest = path.substring_char(2, n);
        let mut s = home.to_owned();
        s.append("/");
        s.append(rest);
        proof {
            assert(path@.subrange(2, path@.len() as int) =~= path@.skip(2));
        }
        s
    } else {
        path.to_owned()
    }
}

/// The distinct entries of a path list, in first-occurrence order.
pub open spec fn dedup_dirs(ds: Seq<Seq<char>>) -> Seq<Seq<char>>
    decreases ds.len(),
{
    if ds.len() == 0 {
        Seq::empty()
    } else {
        let r = dedup_dirs(ds.drop_last());
        if r.contains(ds.last()) {
            r
        } else {
            r.push(ds.last())
        }
    }
}

/// The paths of a sequence of files.
pub open spec fn path_views(s: Seq<VfsFile>) -> Seq<Seq<char>> {
    s.map_values(|f: VfsFile| f.path@)
}

/// What a scan of the given roots finds: for each existing root, in order,
/// the paths of the files under it and their total bytes. A root that does
/// not exist contributes nothing.
pub open spec fn scan_fold(fs: VirtualFs, ds: Seq<Seq<char>>) -> (Seq<Seq<char>>, int)
    decreases ds.len(),
{
    if ds.len() == 0 {
        (Seq::empty(), 0)
    } else {
        let r = scan_fold(fs, ds.drop_last());
        if fs.dir_exists(ds.last()) {
            (
                r.0 + path_views(candidates(fs.files@, ds.last(), 0)),
                r.1 + total_bytes(candidates(fs.files@, ds.last(), 0)),
            )
        } else {
            r
        }
    }
}

/// LAW: a scan whose roots do not exist finds nothing — no files, no bytes.
pub proof fn lemma_scan_missing_targets(fs: VirtualFs, ds: Seq<Seq<char>>)
    requires
        forall|i: int| 0 <= i < ds.len() ==> !fs.dir_exists(#[trigger] ds[i]),
    ensures
        scan_fold(fs, ds).0 == Seq::<Seq<char>>::empty(),
        scan_fold(fs, ds).1 == 0,
    decreases ds.len(),
{
    if ds.len() > 0 {
        assert(forall|i: int| 0 <= i < ds.drop_last().len() ==> ds.drop_last()[i] == ds[i]);
        lemma_scan_missing_targets(fs, ds.drop_last());
        assert(ds[ds.len() - 1] == ds.last());
    }
}

/// The files of `files` whose path is not in `ps`, in order.
pub open spec fn keep_not_in(files: Seq<VfsFile>, ps: Seq<Seq<char>>) -> Seq<VfsFile>
    decreases files.len(),
{
    if files.len() == 0 {
        Seq::empty()
    } else {
        let r = keep_not_in(files.drop_last(), ps);
        if ps.contains(files.last().path@) {
            r
        } else {
            r.push(files.last())
        }
    }
}

/// The files of `s` whose path is not `p`, in order.
pub open spec fn drop_path(s: Seq<VfsFile>, p: Seq<char>) -> Seq<VfsFile>
    decreases s.len(),
{
    if s.len() == 0 {
        Seq::empty()
    } else {
        let r = drop_path(s.drop_last(), p);
        if s.last().path@ == p {
            r
        } else {
            r.push(s.last())
        }
    }
}

proof fn lemma_seq_contains_push(ps: Seq<Seq<char>>, p: Seq<char>, q: Seq<char>)
    ensures
        ps.push(p).contains(q) <==> ps.contains(q) || p == q,
{
    if ps.push(p).contains(q) {
        let w = choose|w: int| 0 <= w < ps.push(p).len() && ps.push(p)[w] == q;
        if w < ps.len() {
            assert(ps[w] == q);
        }
    }
    if ps.contains(q) {
        let w = choose|w: int| 0 <= w < ps.len() && ps[w] == q;
        assert(ps.push(p)[w] == q);
    }
    if p == q {
        assert(ps.push(p)[ps.len() as int] == q);
    }
}

/// Filtering out one more path equals dropping that path from the filtered
/// files.
proof fn lemma_keep_not_in_push(files: Seq<VfsFile>, ps: Seq<Seq<char>>, p: Seq<char>)
    ensures
        keep_not_in(files, ps.push(p)) == drop_path(keep_not_in(files, ps), p),
    decreases files.len(),
{
    if files.len() > 0 {
        lemma_keep_not_in_push(files.drop_last(), ps, p);
        lemma_seq_contains_push(ps, p, files.last().path@);
        let r = keep_not_in(files.drop_last(), ps);
        if !ps.contains(files.last().path@) {
            assert(r.push(files.last()).drop_last() =~= r);
        }
    }
}

/// Dropping a path that one position holds (uniquely) removes that position.
proof fn lemma_drop_path_remove(s: Seq<VfsFile>, p: Seq<char>, i: int)
    requires
        0 <= i < s.len(),
        s[i].path@ == p,
        forall|a: int, b: int| 0 <= a < b < s.len() ==> s[a].path@ != s[b].path@,
    ensures
        drop_path(s, p) == s.remove(i),
    decreases s.len(),
{
    if i == s.len() - 1 {
        assert(s.remove(i) =~= s.drop_last());
        assert(drop_path(s.drop_last(), p) =~= s.drop_last()) by {
            lemma_drop_path_absent(s.drop_last(), p);
        }
    } else {
        assert(forall|a: int|
            0 <= a < s.drop_last().len() ==> s.drop_last()[a] == s[a]);
        lemma_drop_path_remove(s.drop_last(), p, i);
        assert(s.last().path@ != p);
        assert(drop_path(s, p) == s.drop_last().remove(i).push(s.last()));
        assert(s.remove(i) =~= s.drop_last().remove(i).push(s.last()));
    }
}

/// Dropping a path no file holds changes nothing.
proof fn lemma_drop_path_absent(s: Seq<VfsFile>, p: Seq<char>)
    requires
        forall|a: int| 0 <= a < s.len() ==> (#[trigger] s[a]).path@ != p,
    ensures
        drop_path(s, p) =~= s,
    decreases s.len(),
{
    if s.len() > 0 {
        assert(forall|a: int|
            0 <= a < s.drop_last().len() ==> s.drop_last()[a] == s[a]);
        lemma_drop_path_absent(s.drop_last(), p);
        assert(s[s.len() - 1] == s.last());
    }
}

/// Every kept file is one of the originals, with a path outside `ps`; every
/// original with a path outside `ps` is kept.
proof fn lemma_keep_not_in_membership(files: Seq<VfsFile>, ps: Seq<Seq<char>>)
    ensures
        forall|i: int|
            0 <= i < keep_not_in(files, ps).len() ==> files.contains(
                #[trigger] keep_not_in(files, ps)[i],
            ) && !ps.contains(keep_not_in(files, ps)[i].path@),
        forall|z: int|
            0 <= z < files.len() && !ps.contains(files[z].path@) ==> keep_not_in(
                files,
                ps,
            ).contains(#[trigger] files[z]),
    decreases files.len(),
{
    if files.len() > 0 {
        lemma_keep_not_in_membership(files.drop_last(), ps);
        let r0 = keep_not_in(files.drop_last(), ps);
        let r = keep_not_in(files, ps);
        assert forall|i: int| 0 <= i < r.len() implies files.contains(#[trigger] r[i])
            && !ps.contains(r[i].path@) by {
            if i < r0.len() {
                assert(files.drop_last().contains(r0[i]));
                let w = choose|w: int|
                    0 <= w < files.drop_last().len() && files.drop_last()[w] == r0[i];
                assert(files[w] == r0[i]);
            } else {
                assert(r[i] == files.last());
                assert(files[files.len() - 1] == files.last());
            }
        }
        assert forall|z: int| 0 <= z < files.len() && !ps.contains(files[z].path@) implies
            r.contains(#[trigger] files[z]) by {
            if z < files.len() - 1 {
                assert(files.drop_last()[z] == files[z]);
                assert(r0.contains(files[z]));
                let w = choose|w: int| 0 <= w < r0.len() && r0[w] == files[z];
                assert(r[w] == files[z]);
            } else {
                assert(files[z] == files.last());
                assert(r[r.len() - 1] == files.last());
            }
        }
    }
}

/// The outcome of one cleanup run.
#[derive(Debug)]
pub struct CleanResult {
    /// How many files were cleaned (or, in a dry run, found).
    pub files_cleaned: usize,
    /// Total bytes freed (or, in a dry run, that would be freed).
    pub bytes_freed: u64,
    /// The paths the scan discovered, in scan order.
    pub files_found: Vec<String>,
}

/// Cleans caches, logs and temporary files through the recovery store.
#[derive(Clone, Copy, Debug)]
pub struct SystemCleaner;

impl SystemCleaner {
    /// A new cleaner.
    pub fn new() -> (r: Self)
        ensures
            r == SystemCleaner,
    {
        SystemCleaner
    }
}

/// Whether the id list holds `p`.
fn contains_path(v: &Vec<String>, p: &str) -> (r: bool)
    ensures
        r == views_of(v@).contains(p@),
{
    let n = v.len();
    let mut i: usize = 0;
    while i < n
        invariant
            0 <= i <= n,
            n == v@.len(),
            forall|j: int| 0 <= j < i ==> v@[j]@ != p@,
        decreases n - i,
    {
        if crate::strings::str_eq(v[i].as_str(), p) {
            proof {
                assert(views_of(v@)[i as int] == p@);
            }
            return true;
        }
        i += 1;
    }
    proof {
        if views_of(v@).contains(p@) {
            let w = choose|w: int| 0 <= w < views_of(v@).len() && views_of(v@)[w] == p@;
            assert(v@[w]@ == p@);
        }
    }
    false
}

/// Collect the paths and total bytes of the files under one scan root.
fn scan_dir(fs: &VirtualFs, d: &str, found: &mut Vec<String>) -> (bytes: u64)
    requires
        fs.wf(),
    ensures
        views_of(final(found)@) == views_of(old(found)@) + path_views(
            candidates(fs.files@, d@, 0),
        ),
        bytes == total_bytes(candidates(fs.files@, d@, 0)),
{
    let n = fs.files.len();
    let mut bytes: u64 = 0;
    let mut i: usize = 0;
    proof {
        assert(fs.files@.subrange(0, 0) =~= Seq::<VfsFile>::empty());
        assert(views_of(found@) =~= views_of(old(found)@) + path_views(
            candidates(fs.files@.subrange(0, 0), d@, 0),
        ));
    }
    while i < n
        invariant
            0 <= i <= n,
            n == fs.files@.len(),
            fs.wf(),
            views_of(found@) == views_of(old(found)@) + path_views(
                candidates(fs.files@.subrange(0, i as int), d@, 0),
            ),
            bytes == total_bytes(candidates(fs.files@.subrange(0, i as int), d@, 0)),
        decreases n - i,
    {
        proof {
            assert(fs.files@.subrange(0, i + 1).drop_last() =~= fs.files@.subrange(0, i as int));
            assert(fs.files@.subrange(0, i + 1).last() == fs.files@[i as int]);
            crate::duplicates::lemma_candidates_le_total(fs.files@.subrange(0, i + 1), d@, 0);
            lemma_total_bytes_prefix_le(fs.files@, i + 1);
            lemma_total_bytes_nonneg(candidates(fs.files@.subrange(0, i as int), d@, 0));
        }
        let f = &fs.files[i];
        if crate::strings::str_eq(f.dir.as_str(), d) {
            let ghost prefound = found@;
            let ghost precand = candidates(fs.files@.subrange(0, i as int), d@, 0);
            found.push(f.path.clone());
            proof {
                assert(precand.push(fs.files@[i as int]).drop_last() =~= precand);
                assert(views_of(found@) =~= views_of(prefound).push(fs.files@[i as int].path@));
                assert(path_views(precand.push(fs.files@[i as int])) =~= path_views(
                    precand,
                ).push(fs.files@[i as int].path@));
                assert(views_of(found@) =~= views_of(old(found)@) + path_views(
                    precand.push(fs.files@[i as int]),
                ));
            }
            bytes = bytes + f.content.len() as u64;
        }
        i += 1;
    }
    proof {
        assert(fs.files@.subrange(0, n as int) =~= fs.files@);
    }
    bytes
}

impl SystemCleaner {
    /// Clean one target. The target's roots are expanded against `home`,
    /// deduplicated, and walked in order; roots that do not exist are
    /// silently skipped. A dry run reports what a live run would clean and
    /// mutates nothing. A live run archives every discovered file into a
    /// fresh recovery manifest — created at `now` with the given retention —
    /// saves the manifest, and reports what was moved; the filesystem keeps
    /// exactly the files the scan did not name.
    pub fn clean(
        &self,
        fs: &mut VirtualFs,
        mgr: &mut RecoveryManager,
        target: CleanTarget,
        dry_run: bool,
        home: &str,
        now: u64,
        retention_days: u32,
    ) -> (r: CleanResult)
        requires
            old(fs).wf(),
            old(mgr).wf(),
            now < MAX_RENDERED_SECS,
        ensures
            final(fs).wf(),
            final(mgr).wf(),
            final(fs).dirs@ == old(fs).dirs@,
            views_of(r.files_found@) == scan_fold(
                *old(fs),
                dedup_dirs(expanded_targets(target, home@)),
            ).0,
            r.files_cleaned <= r.files_found@.len(),
            dry_run ==> *final(fs) == *old(fs) && *final(mgr) == *old(mgr) && r.bytes_freed
                == scan_fold(*old(fs), dedup_dirs(expanded_targets(target, home@))).1
                && r.files_cleaned == r.files_found@.len(),
            !dry_run ==> {
                &&& final(fs).files@ == keep_not_in(old(fs).files@, views_of(r.files_found@))
                &&& total_bytes(final(fs).files@) == total_bytes(old(fs).files@) - r.bytes_freed
                &&& final(fs).files@.len() + r.files_cleaned == old(fs).files@.len()
                &&& final(mgr).recovery_dir@ == old(mgr).recovery_dir@
                &&& final(mgr).has_manifest(manifest_id_of(now))
                &&& final(mgr).index_model() == save_index_model(
                    old(mgr).index_model(),
                    manifest_id_of(now),
                )
                &&& cleaned_manifest_ok(
                    final(mgr).manifest_at(manifest_id_of(now)),
                    *old(fs),
                    *old(mgr),
                    now,
                    retention_days,
                    r.files_cleaned as int,
                    r.bytes_freed as int,
                )
                &&& final(mgr).archive@.len() == old(mgr).archive@.len() + r.files_cleaned
                &&& forall|j: int|
                    0 <= j < old(mgr).archive@.len() ==> final(mgr).archive@[j] == old(
                        mgr,
                    ).archive@[j]
                &&& forall|j: int|
                    old(mgr).archive@.len() <= j < final(mgr).archive@.len()
                        ==> archived_entry_ok(#[trigger] final(mgr).archive@[j], *old(fs), *old(mgr), now)
            },
    {
        let ghost dd = dedup_dirs(expanded_targets(target, home@));
        // Resolve and deduplicate the target's scan roots.
        let paths = target.paths();
        let np = paths.len();
        let mut dirs: Vec<String> = Vec::new();
        let mut pi: usize = 0;
        proof {
            assert(expanded_targets(target, home@).take(0) =~= Seq::<Seq<char>>::empty());
            assert(views_of(dirs@) =~= dedup_dirs(expanded_targets(target, home@).take(0)));
        }
        while pi < np
            invariant
                0 <= pi <= np,
                np == paths@.len(),
                strs_views(paths@) == target_paths(target),
                views_of(dirs@) == dedup_dirs(expanded_targets(target, home@).take(pi as int)),
            decreases np - pi,
        {
            proof {
                assert(expanded_targets(target, home@).take(pi + 1).drop_last()
                    =~= expanded_targets(target, home@).take(pi as int));
                assert(expanded_targets(target, home@).take(pi + 1).last() == expanded_targets(
                    target,
                    home@,
                )[pi as int]);
                assert(expanded_targets(target, home@)[pi as int] == expand_spec(
                    paths@[pi as int]@,
                    home@,
                ));
            }
            let e = expand_path(paths[pi], home);
            if !contains_path(&dirs, e.as_str()) {
                let ghost predirs = dirs@;
                dirs.push(e);
                proof {
                    assert(views_of(dirs@) =~= views_of(predirs).push(
                        expanded_targets(target, home@)[pi as int],
                    ));
                }
            }
            pi += 1;
        }
        proof {
            assert(expanded_targets(target, home@).take(np as int) =~= expanded_targets(
                target,
                home@,
            ));
        }
        // Scan every existing root, collecting paths and byte totals.
        let nd = dirs.len();
        let mut found: Vec<String> = Vec::new();
        let mut bytes: u64 = 0;
        let mut di: usize = 0;
        proof {
            assert(views_of(dirs@).take(0) =~= Seq::<Seq<char>>::empty());
            assert(views_of(found@) =~= Seq::<Seq<char>>::empty());
            assert(views_of(found@) =~= scan_fold(*fs, views_of(dirs@).take(0)).0);
            lemma_total_bytes_nonneg(fs.files@);
            lemma_dedup_distinct(expanded_targets(target, home@));
        }
        while di < nd
            invariant
                0 <= di <= nd,
                nd == dirs@.len(),
                fs.wf(),
                *fs == *old(fs),
                *mgr == *old(mgr),
                views_of(dirs@) == dd,
                dd == dedup_dirs(expanded_targets(target, home@)),
                views_of(found@) == scan_fold(*fs, dd.take(di as int)).0,
                bytes == scan_fold(*fs, dd.take(di as int)).1,
                0 <= scan_fold(*fs, dd.take(di as int)).1 <= total_bytes(fs.files@),
            decreases nd - di,
        {
            proof {
                assert(dd.take(di + 1).drop_last() =~= dd.take(di as int));
                assert(dd.take(di + 1).last() == dd[di as int]);
                assert(dd[di as int] == dirs@[di as int]@);
            }
            let d = &dirs[di];
            if fs.has_dir(d.as_str()) {
                let ghost prefound = found@;
                let b = scan_dir(fs, d.as_str(), &mut found);
                proof {
                    crate::duplicates::lemma_candidates_le_total(fs.files@, dd[di as int], 0);
                    lemma_total_bytes_nonneg(candidates(fs.files@, dd[di as int], 0));
                    lemma_dedup_distinct(expanded_targets(target, home@));
                    lemma_scan_take_bound(*fs, dd, di + 1);
                    lemma_scan_take_bound(*fs, dd, di as int);
                }
                bytes = bytes + b;
            } else {
                proof {
                    lemma_dedup_distinct(expanded_targets(target, home@));
                    lemma_scan_take_bound(*fs, dd, di + 1);
                }
            }
            di += 1;
        }
        proof {
            assert(dd.take(nd as int) =~= dd);
        }
        let count = found.len();
        if dry_run {
            return CleanResult { files_cleaned: count, bytes_freed: bytes, files_found: found };
        }
        // Live run: archive every discovered file, then persist the manifest.
        let ghost foundv = views_of(found@);
        let mut manifest = mgr.create_manifest(now, retention_days);
        let mut cleaned: usize = 0;
        let mut k: usize = 0;
        proof {
            assert(foundv.take(0) =~= Seq::<Seq<char>>::empty());
            assert(keep_not_in(old(fs).files@, foundv.take(0)) =~= old(fs).files@) by {
                lemma_keep_nothing(old(fs).files@);
            }
            lemma_total_bytes_nonneg(fs.files@);
        }
        while k < count
            invariant
                0 <= k <= count,
                count == found@.len(),
                foundv == views_of(found@),
                fs.wf(),
                mgr.wf(),
                fs.dirs@ == old(fs).dirs@,
                mgr.recovery_dir@ == old(mgr).recovery_dir@,
                mgr.index == old(mgr).index,
                mgr.manifests@ == old(mgr).manifests@,
                manifest.id@ == manifest_id_of(now),
                manifest.timestamp == now,
                manifest.retention_until == now + (retention_days as u64) * 86400,
                manifest.total_size == total_bytes(old(fs).files@) - total_bytes(fs.files@),
                manifest.items@.len() == cleaned,
                cleaned <= k,
                forall|j: int|
                    0 <= j < manifest.items@.len() ==> cleaned_item_ok(
                        #[trigger] manifest.items@[j],
                        *old(fs),
                        *old(mgr),
                        now,
                    ),
                fs.files@ == keep_not_in(old(fs).files@, foundv.take(k as int)),
                forall|z: int|
                    0 <= z < fs.files@.len() ==> old(fs).files@.contains(#[trigger] fs.files@[z]),
                fs.files@.len() + cleaned == old(fs).files@.len(),
                old(fs).wf(),
                total_bytes(old(fs).files@) <= u64::MAX,
                mgr.archive@.len() == old(mgr).archive@.len() + cleaned,
                forall|j: int|
                    0 <= j < old(mgr).archive@.len() ==> mgr.archive@[j] == old(mgr).archive@[j],
                forall|j: int|
                    old(mgr).archive@.len() <= j < mgr.archive@.len() ==> archived_entry_ok(
                        #[trigger] mgr.archive@[j],
                        *old(fs),
                        *old(mgr),
                        now,
                    ),
            decreases count - k,
        {
            proof {
                assert(foundv.take(k + 1).drop_last() =~= foundv.take(k as int));
                assert(foundv.take(k + 1).last() == foundv[k as int]);
                assert(foundv[k as int] == found@[k as int]@);
                lemma_total_bytes_nonneg(old(fs).files@);
                lemma_total_bytes_nonneg(fs.files@);
            }
            let p = &found[k];
            if fs.file_exists(p.as_str()) {
                let ghost prefs = *fs;
                let ghost premgr = *mgr;
                let ghost premani = manifest;
                match mgr.archive_file(fs, p.as_str(), "cleanup", "system", false, &mut manifest) {
                    Ok(_item) => {
                        cleaned = cleaned + 1;
                        proof {
                            let i = choose|i: int|
                                0 <= i < prefs.files@.len() && (#[trigger] prefs.files@[i]).path@
                                    == foundv[k as int] && fs.files@ == prefs.files@.remove(i)
                                    && mgr.archive@.last().original_dir == prefs.files@[i].dir
                                    && mgr.archive@.last().original_path == prefs.files@[i].path
                                    && mgr.archive@.last().content == prefs.files@[i].content;
                            crate::vfs::lemma_total_bytes_remove(prefs.files@, i);
                            // the removed file is an original file; its content is
                            // what the original filesystem holds at that path
                            assert(old(fs).files@.contains(prefs.files@[i]));
                            let z = choose|z: int|
                                0 <= z < old(fs).files@.len() && old(fs).files@[z]
                                    == prefs.files@[i];
                            lemma_content_of(*old(fs), z);
                            // the path was not yet processed, else it would be gone
                            assert(!foundv.take(k as int).contains(foundv[k as int])) by {
                                if foundv.take(k as int).contains(foundv[k as int]) {
                                    lemma_keep_not_in_membership(
                                        old(fs).files@,
                                        foundv.take(k as int),
                                    );
                                    assert(prefs.files@[i].path@ == foundv[k as int]);
                                }
                            }
                            lemma_keep_not_in_push(
                                old(fs).files@,
                                foundv.take(k as int),
                                foundv[k as int],
                            );
                            lemma_drop_path_remove(prefs.files@, foundv[k as int], i);
                            assert(foundv.take(k as int).push(foundv[k as int]) =~= foundv.take(
                                k + 1,
                            ));
                            assert(fs.files@ == keep_not_in(old(fs).files@, foundv.take(k + 1)));
                            // every remaining file is still an original file
                            crate::vfs::lemma_remove_keeps_others(prefs.files@, i);
                            assert forall|z2: int| 0 <= z2 < fs.files@.len() implies old(
                                fs,
                            ).files@.contains(#[trigger] fs.files@[z2]) by {
                                let w = if z2 < i {
                                    z2
                                } else {
                                    z2 + 1
                                };
                                assert(fs.files@[z2] == prefs.files@[w]);
                            }
                            // the new item and archive entry describe that file
                            assert(cleaned_item_ok(
                                manifest.items@.last(),
                                *old(fs),
                                *old(mgr),
                                now,
                            ));
                            assert(archived_entry_ok(
                                mgr.archive@.last(),
                                *old(fs),
                                *old(mgr),
                                now,
                            ));
                        }
                    },
                    Err(_) => {
                        proof {
                            assert(false);
                        }
                    },
                }
            } else {
                proof {
                    // this path was either already processed or never present:
                    // either way the filter is unchanged
                    let p0 = foundv[k as int];
                    lemma_keep_not_in_membership(old(fs).files@, foundv.take(k as int));
                    assert forall|z: int|
                        0 <= z < old(fs).files@.len() && (#[trigger] old(fs).files@[z]).path@
                            == p0 implies foundv.take(k as int).contains(p0) by {
                        if !foundv.take(k as int).contains(old(fs).files@[z].path@) {
                            assert(keep_not_in(old(fs).files@, foundv.take(k as int)).contains(
                                old(fs).files@[z],
                            ));
                            let w = choose|w: int|
                                0 <= w < fs.files@.len() && fs.files@[w] == old(fs).files@[z];
                            assert(fs.has_file(p0));
                        }
                    }
                    lemma_keep_not_in_same(old(fs).files@, foundv.take(k as int), p0);
                    assert(foundv.take(k as int).push(p0) =~= foundv.take(k + 1));
                }
            }
            k += 1;
        }
        proof {
            assert(foundv.take(count as int) =~= foundv);
        }
        let bytes_freed = manifest.total_size;
        let ghost presave = *mgr;
        mgr.save_manifest(&manifest);
        proof {
            lemma_total_bytes_nonneg(fs.files@);
            assert(mgr.has_manifest(manifest.id@));
            assert(cleaned_manifest_ok(
                mgr.manifest_at(manifest_id_of(now)),
                *old(fs),
                *old(mgr),
                now,
                retention_days,
                cleaned as int,
                bytes_freed as int,
            )) by {
                assert(manifest_id_of(now) == manifest.id@);
                let m = mgr.manifest_at(manifest_id_of(now));
                assert(crate::recovery::manifest_matches(m, manifest));
                assert forall|j: int| 0 <= j < m.items@.len() implies cleaned_item_ok(
                    #[trigger] m.items@[j],
                    *old(fs),
                    *old(mgr),
                    now,
                ) by {
                    assert(crate::recovery::item_matches(m.items@[j], manifest.items@[j]));
                }
            }
        }
        CleanResult { files_cleaned: cleaned, bytes_freed, files_found: found }
    }
}

/// With no paths to drop, every file is kept.
proof fn lemma_keep_nothing(files: Seq<VfsFile>)
    ensures
        keep_not_in(files, Seq::empty()) =~= files,
    decreases files.len(),
{
    if files.len() > 0 {
        lemma_keep_nothing(files.drop_last());
    }
}

/// Filtering out a path that is already filtered, or that no file holds,
/// changes nothing.
proof fn lemma_keep_not_in_same(files: Seq<VfsFile>, ps: Seq<Seq<char>>, p: Seq<char>)
    requires
        forall|z: int|
            0 <= z < files.len() && (#[trigger] files[z]).path@ == p ==> ps.contains(p),
    ensures
        keep_not_in(files, ps.push(p)) == keep_not_in(files, ps),
    decreases files.len(),
{
    if files.len() > 0 {
        assert(forall|z: int|
            0 <= z < files.drop_last().len() ==> files.drop_last()[z] == files[z]);
        lemma_keep_not_in_same(files.drop_last(), ps, p);
        lemma_seq_contains_push(ps, p, files.last().path@);
        assert(files[files.len() - 1] == files.last());
    }
}

/// Whether a sequence of roots has no repeats.
pub open spec fn distinct_dirs(ds: Seq<Seq<char>>) -> bool {
    forall|i: int, j: int| 0 <= i < j < ds.len() ==> ds[i] != ds[j]
}

/// Deduplicated roots have no repeats.
pub proof fn lemma_dedup_distinct(ds: Seq<Seq<char>>)
    ensures
        distinct_dirs(dedup_dirs(ds)),
    decreases ds.len(),
{
    if ds.len() > 0 {
        lemma_dedup_distinct(ds.drop_last());
        let r = dedup_dirs(ds.drop_last());
        if !r.contains(ds.last()) {
            assert forall|i: int, j: int|
                0 <= i < j < r.push(ds.last()).len() implies r.push(ds.last())[i] != r.push(
                ds.last(),
            )[j] by {
                if j == r.len() {
                    assert(!r.contains(r[i]) ==> false);
                }
            }
        }
    }
}

/// Total content bytes over each root's files, summed over the roots.
pub open spec fn dirs_sum(files: Seq<VfsFile>, ds: Seq<Seq<char>>) -> int
    decreases ds.len(),
{
    if ds.len() == 0 {
        0
    } else {
        dirs_sum(files, ds.drop_last()) + total_bytes(candidates(files, ds.last(), 0))
    }
}

proof fn lemma_dirs_sum_empty(ds: Seq<Seq<char>>)
    ensures
        dirs_sum(Seq::<VfsFile>::empty(), ds) == 0,
    decreases ds.len(),
{
    if ds.len() > 0 {
        lemma_dirs_sum_empty(ds.drop_last());
    }
}

proof fn lemma_dirs_sum_step(files: Seq<VfsFile>, ds: Seq<Seq<char>>)
    requires
        files.len() > 0,
        distinct_dirs(ds),
    ensures
        dirs_sum(files, ds) == dirs_sum(files.drop_last(), ds) + if ds.contains(
            files.last().dir@,
        ) {
            files.last().content@.len() as int
        } else {
            0
        },
    decreases ds.len(),
{
    if ds.len() > 0 {
        assert(distinct_dirs(ds.drop_last())) by {
            assert(forall|i: int|
                0 <= i < ds.drop_last().len() ==> ds.drop_last()[i] == ds[i]);
        }
        lemma_dirs_sum_step(files, ds.drop_last());
        let d = ds.last();
        let c1 = candidates(files, d, 0);
        let c0 = candidates(files.drop_last(), d, 0);
        if files.last().dir@ == d {
            assert(c1 == c0.push(files.last()));
            assert(c0.push(files.last()).drop_last() =~= c0);
            assert(!ds.drop_last().contains(files.last().dir@)) by {
                if ds.drop_last().contains(files.last().dir@) {
                    let w = choose|w: int|
                        0 <= w < ds.drop_last().len() && ds.drop_last()[w] == files.last().dir@;
                    assert(ds[w] == ds[ds.len() - 1]);
                }
            }
            assert(ds.contains(d)) by {
                assert(ds[ds.len() - 1] == d);
            }
        } else {
            assert(c1 == c0);
            assert(ds.contains(files.last().dir@) == ds.drop_last().contains(
                files.last().dir@,
            )) by {
                if ds.contains(files.last().dir@) {
                    let w = choose|w: int| 0 <= w < ds.len() && ds[w] == files.last().dir@;
                    assert(w < ds.len() - 1);
                    assert(ds.drop_last()[w] == ds[w]);
                }
                if ds.drop_last().contains(files.last().dir@) {
                    let w = choose|w: int|
                        0 <= w < ds.drop_last().len() && ds.drop_last()[w] == files.last().dir@;
                    assert(ds[w] == files.last().dir@);
                }
            }
        }
    }
}

/// Distinct roots hold disjoint files, so their byte totals sum to no more
/// than the whole.
pub proof fn lemma_dirs_sum_le_total(files: Seq<VfsFile>, ds: Seq<Seq<char>>)
    requires
        distinct_dirs(ds),
    ensures
        0 <= dirs_sum(files, ds) <= total_bytes(files),
    decreases files.len(),
{
    if files.len() == 0 {
        assert(files =~= Seq::<VfsFile>::empty());
        lemma_dirs_sum_empty(ds);
    } else {
        lemma_dirs_sum_le_total(files.drop_last(), ds);
        lemma_dirs_sum_step(files, ds);
    }
}

/// A running scan's byte total stays within the filesystem's byte total.
proof fn lemma_scan_take_bound(fs: VirtualFs, ds: Seq<Seq<char>>, t: int)
    requires
        fs.wf(),
        distinct_dirs(ds),
        0 <= t <= ds.len(),
    ensures
        0 <= scan_fold(fs, ds.take(t)).1,
        scan_fold(fs, ds.take(t)).1 <= dirs_sum(fs.files@, ds.take(t)),
        dirs_sum(fs.files@, ds.take(t)) <= total_bytes(fs.files@),
    decreases t,
{
    lemma_total_bytes_nonneg(fs.files@);
    assert(distinct_dirs(ds.take(t))) by {
        assert(forall|i: int| 0 <= i < ds.take(t).len() ==> ds.take(t)[i] == ds[i]);
    }
    lemma_dirs_sum_le_total(fs.files@, ds.take(t));
    if t == 0 {
        assert(ds.take(0) =~= Seq::<Seq<char>>::empty());
    } else {
        lemma_scan_take_bound(fs, ds, t - 1);
        assert(ds.take(t).drop_last() =~= ds.take(t - 1));
        assert(ds.take(t).last() == ds[t - 1]);
        crate::duplicates::lemma_candidates_le_total(fs.files@, ds[t - 1], 0);
        assert(dirs_sum(fs.files@, ds.take(t)) == dirs_sum(fs.files@, ds.take(t - 1))
            + total_bytes(candidates(fs.files@, ds[t - 1], 0)));
        lemma_total_bytes_nonneg(candidates(fs.files@, ds[t - 1], 0));
    }
}

/// The target's roots after home expansion, in target order.
pub open spec fn expanded_targets(t: CleanTarget, home: Seq<char>) -> Seq<Seq<char>> {
    target_paths(t).map_values(|p: Seq<char>| expand_spec(p, home))
}

/// What one archived item of a cleanup run must say: it names a file of the
/// original filesystem, records that file's size and fingerprint, and points
/// into the run's archive folder.
pub open spec fn cleaned_item_ok(
    it: crate::recovery::RecoveryItem,
    fs0: VirtualFs,
    mgr0: RecoveryManager,
    now: u64,
) -> bool {
    &&& fs0.has_file(it.original_path@)
    &&& it.size == fs0.content_of(it.original_path@).len()
    &&& it.checksum@ == crate::hashing::blake3_hex_of(fs0.content_of(it.original_path@))
    &&& it.archive_path@ == archive_path_of(
        mgr0.recovery_dir@,
        manifest_id_of(now),
        it.original_path@,
    )
}

/// What one archived file of a cleanup run must say: it belongs to the
/// run's recovery, and holds the bytes the original filesystem held at its
/// original path.
pub open spec fn archived_entry_ok(
    e: crate::recovery::ArchivedFile,
    fs0: VirtualFs,
    mgr0: RecoveryManager,
    now: u64,
) -> bool {
    &&& e.recovery_id@ == manifest_id_of(now)
    &&& fs0.has_file(e.original_path@)
    &&& e.content@ == fs0.content_of(e.original_path@)
    &&& e.archive_path@ == archive_path_of(
        mgr0.recovery_dir@,
        manifest_id_of(now),
        e.original_path@,
    )
}

/// What the saved manifest of a cleanup run must say: created at `now` with
/// the run's retention window, its size totalling the freed bytes, one item
/// per cleaned file, each describing an original file.
pub open spec fn cleaned_manifest_ok(
    m: crate::recovery::RecoveryManifest,
    fs0: VirtualFs,
    mgr0: RecoveryManager,
    now: u64,
    retention_days: u32,
    count: int,
    bytes: int,
) -> bool {
    &&& m.timestamp == now
    &&& m.retention_until == now + (retention_days as u64) * 86400
    &&& m.total_size == bytes
    &&& m.items@.len() == count
    &&& forall|j: int|
        0 <= j < m.items@.len() ==> cleaned_item_ok(#[trigger] m.items@[j], fs0, mgr0, now)
}

impl Default for SystemCleaner {
    /// Same as [`SystemCleaner::new`].
    fn default() -> (r: Self)
        ensures
            r == SystemCleaner,
    {
        SystemCleaner
    }
}

} // verus!
