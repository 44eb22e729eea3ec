//! The recovery-first cleanup store.
//!
//! Files are archived before they are deleted. Each cleanup run gets a
//! manifest — an immutable record of the archived items and a retention
//! window — and a flat index enumerates the manifests. Once retention
//! expires, a manifest and its archived files become eligible for permanent
//! purge. Until then every destructive action is reversible.
//!
//! The store keeps the persisted state (index, manifest files, archived file
//! trees) as an explicit value; surrounding code maps it to and from the
//! on-disk layout `index.json`, `manifests/<id>.json`, `archives/<id>/...`.

use vstd::multiset::Multiset;
use vstd::prelude::*;

use crate::error::Error;
use crate::hashing::{blake3_hex_of, hash_bytes, HashAlgorithm};
use crate::timefmt::{format_manifest_id, manifest_id_of, MAX_RENDERED_SECS};
use crate::vfs::{
    lemma_total_bytes_nonneg, lemma_total_bytes_remove, total_bytes, VfsFile, VirtualFs,
};

verus! {

/// One file moved into the archive: what it was, where it went, and what it
/// contained. Never changed after creation; deleted when its manifest is
/// purged.
#[derive(Debug)]
pub struct RecoveryItem {
    /// The file's path before cleanup.
    pub original_path: String,
    /// The file's path inside the archive.
    pub archive_path: String,
    /// The file's size in bytes.
    pub size: u64,
    /// Fingerprint of the file's bytes at archive time, for integrity
    /// verification at restore time.
    pub checksum: String,
    /// What kind of data this was (cache, log, temporary).
    pub category: String,
    /// Which tool or application produced it.
    pub source: String,
    /// Whether the application can regenerate this file on its own.
    pub can_regenerate: bool,
}

/// Whether two items carry the same data.
pub open spec fn item_matches(a: RecoveryItem, b: RecoveryItem) -> bool {
    &&& a.original_path@ == b.original_path@
    &&& a.archive_path@ == b.archive_path@
    &&& a.size == b.size
    &&& a.checksum@ == b.checksum@
    &&& a.category@ == b.category@
    &&& a.source@ == b.source@
    &&& a.can_regenerate == b.can_regenerate
}

impl Clone for RecoveryItem {
    fn clone(&self) -> (r: Self)
        ensures
            item_matches(r, *self),
    {
        RecoveryItem {
            original_path: self.original_path.clone(),
            archive_path: self.archive_path.clone(),
            size: self.size,
            checksum: self.checksum.clone(),
            category: self.category.clone(),
            source: self.source.clone(),
            can_regenerate: self.can_regenerate,
        }
    }
}

/// The record of one cleanup run: its id, when it ran, what it archived, and
/// how long the archive is to be retained.
#[derive(Debug)]
pub struct RecoveryManifest {
    /// Unique id, rendered from the creation time. Two runs within the same
    /// clock second share an id; the later save then overwrites the earlier.
    pub id: String,
    /// Creation time, in seconds since the Unix epoch.
    pub timestamp: u64,
    /// Total size in bytes of the archived items.
    pub total_size: u64,
    /// The archived items, in archive order.
    pub items: Vec<RecoveryItem>,
    /// The end of the retention window, in seconds since the Unix epoch.
    pub retention_until: u64,
}

/// Whether two item sequences carry the same data, pairwise.
pub open spec fn items_match(a: Seq<RecoveryItem>, b: Seq<RecoveryItem>) -> bool {
    &&& a.len() == b.len()
    &&& forall|i: int| 0 <= i < a.len() ==> item_matches(#[trigger] a[i], b[i])
}

/// Whether two manifests carry the same data.
pub open spec fn manifest_matches(a: RecoveryManifest, b: RecoveryManifest) -> bool {
    &&& a.id@ == b.id@
    &&& a.timestamp == b.timestamp
    &&& a.total_size == b.total_size
    &&& a.retention_until == b.retention_until
    &&& items_match(a.items@, b.items@)
}

impl Clone for RecoveryManifest {
    fn clone(&self) -> (r: Self)
        ensures
            manifest_matches(r, *self),
    {
        let n = self.items.len();
        let mut items: Vec<RecoveryItem> = Vec::new();
        let mut i: usize = 0;
        while i < n
            invariant
                0 <= i <= n,
                n == self.items@.len(),
                items@.len() == i,
                forall|j: int| 0 <= j < i ==> item_matches(#[trigger] items@[j], self.items@[j]),
            decreases n - i,
        {
            items.push(self.items[i].clone());
            i += 1;
        }
        RecoveryManifest {
            id: self.id.clone(),
            timestamp: self.timestamp,
            total_size: self.total_size,
            items,
            retention_until: self.retention_until,
        }
    }
}

/// One file held in the archive: which recovery it belongs to, where it came
/// from, where it sits in the archive, and its bytes.
#[derive(Debug)]
pub struct ArchivedFile {
    /// The id of the recovery (manifest) this file belongs to.
    pub recovery_id: String,
    /// The scan root the file was found under before archiving.
    pub original_dir: String,
    /// The file's path before archiving.
    pub original_path: String,
    /// The file's path inside the archive.
    pub archive_path: String,
    /// The file's bytes.
    pub content: Vec<u8>,
}

/// The views of a sequence of id strings.
pub open spec fn ids_of(ix: Seq<String>) -> Seq<Seq<char>> {
    ix.map_values(|s: String| s@)
}

/// What initializing does to an index: an absent index becomes an empty one;
/// an existing index is kept as it is.
pub open spec fn init_index_model(m: Option<Seq<Seq<char>>>) -> Option<Seq<Seq<char>>> {
    match m {
        Some(x) => Some(x),
        None => Some(Seq::empty()),
    }
}

/// What saving a manifest does to an index: the id is appended unless it is
/// already listed; an absent index is created first.
pub open spec fn save_index_model(m: Option<Seq<Seq<char>>>, id: Seq<char>) -> Option<
    Seq<Seq<char>>,
> {
    let cur = match m {
        Some(x) => x,
        None => Seq::empty(),
    };
    if cur.contains(id) {
        Some(cur)
    } else {
        Some(cur.push(id))
    }
}

/// LAW: initializing is idempotent — a second initialization changes
/// nothing, so no data is lost and no duplicate index entries appear.
pub proof fn lemma_initialize_idempotent(m: Option<Seq<Seq<char>>>)
    ensures
        init_index_model(init_index_model(m)) == init_index_model(m),
{
}

/// The ids of a listing, in listing order.
pub open spec fn listing_ids(r: Seq<RecoveryManifest>) -> Seq<Seq<char>> {
    r.map_values(|m: RecoveryManifest| m.id@)
}

/// A correct listing `r` of the store `mgr`: sorted newest-first, its ids
/// are exactly the indexed ids whose manifest file exists, and each entry
/// carries the data of the manifest its own id names.
pub open spec fn listing_ok(r: Seq<RecoveryManifest>, mgr: RecoveryManager) -> bool {
    &&& forall|a: int, b: int| 0 <= a < b < r.len() ==> r[a].timestamp >= r[b].timestamp
    &&& r.len() == loadable_ids(mgr.index_ids(), mgr).len()
    &&& listing_ids(r).to_multiset() == loadable_ids(mgr.index_ids(), mgr).to_multiset()
    &&& forall|i: int|
        0 <= i < r.len() ==> mgr.has_manifest((#[trigger] r[i]).id@) && manifest_matches(
            r[i],
            mgr.manifest_at(r[i].id@),
        )
}

/// The recovery store: the persisted index, manifest files, and archived
/// files, as one explicit value.
#[derive(Debug)]
pub struct RecoveryManager {
    /// The root of the on-disk layout this value stands for.
    pub recovery_dir: String,
    /// The index file's id list; `None` while no index file exists.
    pub index: Option<Vec<String>>,
    /// The saved manifest files, with unique ids.
    pub manifests: Vec<RecoveryManifest>,
    /// The archived files of all recoveries.
    pub archive: Vec<ArchivedFile>,
}

impl RecoveryManager {
    /// Well-formedness: the index lists each id once, and manifest files
    /// have unique ids.
    pub open spec fn wf(&self) -> bool {
        &&& match self.index {
            Some(v) => forall|i: int, j: int| 0 <= i < j < v@.len() ==> v@[i]@ != v@[j]@,
            None => true,
        }
        &&& forall|i: int, j: int|
            0 <= i < j < self.manifests@.len() ==> self.manifests@[i].id@
                != self.manifests@[j].id@
    }

    /// The index as a sequence of ids; an absent index reads as empty.
    pub open spec fn index_ids(&self) -> Seq<Seq<char>> {
        match self.index {
            Some(v) => ids_of(v@),
            None => Seq::empty(),
        }
    }

    /// The index as a model value, `None` while no index file exists.
    pub open spec fn index_model(&self) -> Option<Seq<Seq<char>>> {
        match self.index {
            Some(v) => Some(ids_of(v@)),
            None => None,
        }
    }

    /// Whether the index lists `id`.
    pub open spec fn index_contains(&self, id: Seq<char>) -> bool {
        self.index_ids().contains(id)
    }

    /// Whether a manifest file with `id` exists.
    pub open spec fn has_manifest(&self, id: Seq<char>) -> bool {
        exists|i: int| 0 <= i < self.manifests@.len() && self.manifests@[i].id@ == id
    }

    /// The manifest file with `id`, when one exists.
    pub open spec fn manifest_at(&self, id: Seq<char>) -> RecoveryManifest {
        let i = choose|i: int| 0 <= i < self.manifests@.len() && self.manifests@[i].id@ == id;
        self.manifests@[i]
    }

    /// A store for the given recovery root, with nothing persisted yet.
    pub fn new(recovery_dir: String) -> (r: Self)
        ensures
            r.recovery_dir@ == recovery_dir@,
            r.index is None,
            r.manifests@.len() == 0,
            r.archive@.len() == 0,
            r.wf(),
    {
        RecoveryManager { recovery_dir, index: None, manifests: Vec::new(), archive: Vec::new() }
    }

    /// Ensure the store's skeleton exists: an absent index becomes an empty
    /// one, and nothing else changes. Safe to call repeatedly — an existing
    /// index is never clobbered (see [`lemma_initialize_idempotent`]).
    pub fn initialize(&mut self)
        requires
            old(self).wf(),
        ensures
            final(self).wf(),
            final(self).recovery_dir@ == old(self).recovery_dir@,
            final(self).manifests@ == old(self).manifests@,
            final(self).archive@ == old(self).archive@,
            final(self).index_model() == init_index_model(old(self).index_model()),
    {
        if self.index.is_none() {
            self.index = Some(Vec::new());
            proof {
                assert(self.index_ids() =~= Seq::<Seq<char>>::empty());
            }
        }
    }

    /// Build a fresh, empty manifest for a cleanup run happening at `now`:
    /// its id renders the creation time, and retention ends `retention_days`
    /// days later. Nothing is persisted yet.
    pub fn create_manifest(&self, now: u64, retention_days: u32) -> (r: RecoveryManifest)
        requires
            now < MAX_RENDERED_SECS,
        ensures
            r.id@ == manifest_id_of(now),
            r.timestamp == now,
            r.total_size == 0,
            r.items@.len() == 0,
            r.retention_until == now + (retention_days as u64) * 86400,
    {
        let id = format_manifest_id(now);
        RecoveryManifest {
            id,
            timestamp: now,
            total_size: 0,
            items: Vec::new(),
            retention_until: now + (retention_days as u64) * 86400,
        }
    }

    /// The archive directory of one recovery.
    pub fn archive_dir(&self, recovery_id: &str) -> (r: String)
        ensures
            r@ == self.recovery_dir@ + "/archives/"@ + recovery_id@,
    {
        let mut s = self.recovery_dir.clone();
        s.append("/archives/");
        s.append(recovery_id);
        s
    }

    /// Persist a manifest: write its file (overwriting a file with the same
    /// id), then list the id in the index. Re-saving an already listed id
    /// leaves the index unchanged.
    pub fn save_manifest(&mut self, manifest: &RecoveryManifest)
        requires
            old(self).wf(),
        ensures
            final(self).wf(),
            final(self).recovery_dir@ == old(self).recovery_dir@,
            final(self).archive@ == old(self).archive@,
            final(self).has_manifest(manifest.id@),
            manifest_matches(final(self).manifest_at(manifest.id@), *manifest),
            old(self).has_manifest(manifest.id@) ==> final(self).manifests@.len() == old(self).manifests@.len(),
            !old(self).has_manifest(manifest.id@) ==> final(self).manifests@.len() == old(self).manifests@.len() + 1,
            forall|j: int|
                0 <= j < old(self).manifests@.len() && old(self).manifests@[j].id@
                    != manifest.id@ ==> final(self).manifests@.contains(
                    #[trigger] old(self).manifests@[j],
                ),
            forall|j: int|
                0 <= j < final(self).manifests@.len() && final(self).manifests@[j].id@
                    != manifest.id@ ==> old(self).manifests@.contains(
                    #[trigger] final(self).manifests@[j],
                ),
            final(self).index_model() == save_index_model(old(self).index_model(), manifest.id@),
    {
        let ghost pre = *self;
        match find_manifest(&self.manifests, manifest.id.as_str()) {
            Some(j) => {
                self.manifests.remove(j);
                self.manifests.insert(j, manifest.clone());
                proof {
                    let cur = self.manifests@;
                    let prems = pre.manifests@;
                    assert(cur =~= prems.update(j as int, cur[j as int]));
                    assert(manifest_matches(cur[j as int], *manifest));
                    assert(forall|i: int| 0 <= i < cur.len() ==> cur[i].id@ == prems[i].id@);
                    assert(pre.has_manifest(manifest.id@)) by {
                        assert(prems[j as int].id@ == manifest.id@);
                    }
                    assert(manifests_saved(prems, cur, *manifest)) by {
                        assert forall|i: int|
                            0 <= i < cur.len() && cur[i].id@ == manifest.id@ implies
                            manifest_matches(cur[i], *manifest) by {
                            if i != j {
                                assert(prems[i].id@ == prems[j as int].id@);
                            }
                        }
                        assert forall|i: int|
                            0 <= i < prems.len() && prems[i].id@ != manifest.id@ implies
                            cur.contains(#[trigger] prems[i]) by {
                            assert(cur[i] == prems[i]);
                        }
                        assert forall|i: int|
                            0 <= i < cur.len() && cur[i].id@ != manifest.id@ implies
                            prems.contains(#[trigger] cur[i]) by {
                            assert(cur[i] == prems[i]);
                        }
                        assert(cur[j as int].id@ == manifest.id@);
                    }
                }
            },
            None => {
                self.manifests.push(manifest.clone());
                proof {
                    let cur = self.manifests@;
                    let prems = pre.manifests@;
                    assert(!pre.has_manifest(manifest.id@));
                    assert(manifests_saved(prems, cur, *manifest)) by {
                        assert(cur[cur.len() - 1].id@ == manifest.id@);
                        assert forall|i: int|
                            0 <= i < prems.len() && prems[i].id@ != manifest.id@ implies
                            cur.contains(#[trigger] prems[i]) by {
                            assert(cur[i] == prems[i]);
                        }
                        assert forall|i: int|
                            0 <= i < cur.len() && cur[i].id@ != manifest.id@ implies
                            prems.contains(#[trigger] cur[i]) by {
                            assert(i < prems.len());
                            assert(cur[i] == prems[i]);
                        }
                    }
                }
            },
        }
        let ghost saved_ms = self.manifests@;
        let ix_opt = self.index.take();
        let mut ix = match ix_opt {
            Some(v) => v,
            None => Vec::new(),
        };
        if !contains_id(&ix, manifest.id.as_str()) {
            let ghost before = ix@;
            ix.push(manifest.id.clone());
            proof {
                assert(ids_of(ix@) =~= ids_of(before).push(manifest.id@));
                assert forall|a: int, b: int| 0 <= a < b < ix@.len() implies ix@[a]@
                    != ix@[b]@ by {
                    if b == ix@.len() - 1 {
                        assert(ids_of(before)[a] == before[a]@);
                    }
                }
            }
        }
        self.index = Some(ix);
        proof {
            assert(self.manifests@ == saved_ms);
            assert(self.index_model() == save_index_model(pre.index_model(), manifest.id@));
            assert(self.has_manifest(manifest.id@));
            let c = choose|i: int|
                0 <= i < self.manifests@.len() && self.manifests@[i].id@ == manifest.id@;
            assert(manifest_matches(self.manifests@[c], *manifest));
        }
    }

    /// List the recoveries the index knows of, newest first by creation
    /// time. An absent index reads as an empty listing, not an error; an
    /// indexed id whose manifest file is missing is silently skipped.
    pub fn list_recoveries(&self) -> (r: Vec<RecoveryManifest>)
        requires
            self.wf(),
        ensures
            listing_ok(r@, *self),
    {
        broadcast use vstd::seq_lib::group_to_multiset_ensures;

        let ghost loadable = loadable_ids(self.index_ids(), *self);
        let found = self.load_indexed();
        let ghost loaded = found@;
        let out = sort_by_timestamp_desc(found);
        proof {
            assert(out@.to_multiset().len() == out@.len());
            assert(loaded.to_multiset().len() == loaded.len());
            assert(out@.len() == loadable.len());
            assert(listing_ids(loaded) == loadable);
            assert(listing_ids(out@).to_multiset() == loadable.to_multiset());
            assert forall|i: int| 0 <= i < out@.len() implies self.has_manifest(
                (#[trigger] out@[i]).id@,
            ) && manifest_matches(out@[i], self.manifest_at(out@[i].id@)) by {
                assert(out@.to_multiset().contains(out@[i])) by {
                    assert(out@.contains(out@[i]));
                }
                assert(loaded.contains(out@[i]));
                let k = choose|k: int| 0 <= k < loaded.len() && loaded[k] == out@[i];
                assert(self.has_manifest(loaded[k].id@));
            }
            assert(listing_ok(out@, *self));
        }
        out
    }

    /// Load every indexed manifest that exists, in index order.
    fn load_indexed(&self) -> (found: Vec<RecoveryManifest>)
        requires
            self.wf(),
        ensures
            found@.len() == loadable_ids(self.index_ids(), *self).len(),
            listing_ids(found@) == loadable_ids(self.index_ids(), *self),
            forall|h: int|
                0 <= h < found@.len() ==> self.has_manifest((#[trigger] found@[h]).id@)
                    && manifest_matches(found@[h], self.manifest_at(found@[h].id@)),
    {
        let ghost ids = self.index_ids();
        let mut found: Vec<RecoveryManifest> = Vec::new();
        match &self.index {
            None => {
                proof {
                    assert(ids =~= Seq::<Seq<char>>::empty());
                    assert(listing_ids(found@) =~= Seq::<Seq<char>>::empty());
                }
                found
            },
            Some(ix) => {
                let n = ix.len();
                let mut t: usize = 0;
                proof {
                    assert(ids.take(0) =~= Seq::<Seq<char>>::empty());
                }
                while t < n
                    invariant
                        0 <= t <= n,
                        self.wf(),
                        self.index matches Some(v) && v == ix,
                        n == ix@.len(),
                        ids == ids_of(ix@),
                        found@.len() == loadable_ids(ids.take(t as int), *self).len(),
                        listing_ids(found@) == loadable_ids(ids.take(t as int), *self),
                        forall|h: int|
                            0 <= h < found@.len() ==> self.has_manifest(
                                (#[trigger] found@[h]).id@,
                            ) && manifest_matches(found@[h], self.manifest_at(found@[h].id@)),
                    decreases n - t,
                {
                    proof {
                        assert(ids.take(t + 1).drop_last() =~= ids.take(t as int));
                        assert(ids.take(t + 1).last() == ids[t as int]);
                        assert(ids[t as int] == ix@[t as int]@);
                    }
                    let ghost pre_loadable = loadable_ids(ids.take(t as int), *self);
                    match find_manifest(&self.manifests, ix[t].as_str()) {
                        Some(j) => {
                            proof {
                                assert(self.has_manifest(ids[t as int])) by {
                                    assert(self.manifests@[j as int].id@ == ids[t as int]);
                                }
                                let c = choose|i: int|
                                    0 <= i < self.manifests@.len() && self.manifests@[i].id@
                                        == ids[t as int];
                                assert(c == j as int);
                            }
                            let ghost prefound = found@;
                            found.push(self.manifests[j].clone());
                            proof {
                                assert(found@.last().id@ == ids[t as int]);
                                assert(listing_ids(found@) =~= listing_ids(prefound).push(
                                    found@.last().id@,
                                ));
                                assert(found@.last().id@ == self.manifest_at(
                                    found@.last().id@,
                                ).id@);
                            }
                        },
                        None => {
                            proof {
                                assert(!self.has_manifest(ids[t as int])) by {
                                    if self.has_manifest(ids[t as int]) {
                                        let w = choose|w: int|
                                            0 <= w < self.manifests@.len()
                                                && self.manifests@[w].id@ == ids[t as int];
                                        assert(self.manifests@[w].id@ == ids[t as int]);
                                    }
                                }
                            }
                        },
                    }
                    t += 1;
                }
                proof {
                    assert(ids.take(n as int) =~= ids);
                }
                found
            },
        }
    }

    /// Purge every recovery whose retention window ended strictly before
    /// `now`, and only those: their archived files, their manifest files,
    /// and their index entries are removed, and their ids are returned in
    /// index order. Everything still inside its retention window is kept
    /// untouched. With no index present, nothing is purged.
    pub fn cleanup_expired(&mut self, now: u64) -> (r: Vec<String>)
        requires
            old(self).wf(),
        ensures
            final(self).wf(),
            final(self).recovery_dir@ == old(self).recovery_dir@,
            ids_of(r@) == expired_ids(old(self).index_ids(), *old(self), now),
            old(self).index is None ==> final(self).index is None && final(self).manifests@
                == old(self).manifests@ && final(self).archive@ == old(self).archive@
                && r@.len() == 0,
            old(self).index is Some ==> final(self).index_model() == Some(
                keep_ids(old(self).index_ids(), ids_of(r@)),
            ),
            final(self).manifests@ == keep_manifests(old(self).manifests@, ids_of(r@)),
            final(self).archive@ == keep_archive(old(self).archive@, ids_of(r@)),
            forall|i: int|
                0 <= i < r@.len() ==> !final(self).has_manifest((#[trigger] r@[i])@) && !final(self).index_contains(r@[i]@),
    {
        let ghost pre = *self;
        let mut cleaned: Vec<String> = Vec::new();
        match &self.index {
            None => {
                proof {
                    assert(ids_of(cleaned@) =~= Seq::<Seq<char>>::empty());
                    assert(keep_manifests(pre.manifests@, ids_of(cleaned@)) =~= pre.manifests@)
                        by {
                        lemma_keep_nothing_manifests(pre.manifests@);
                    }
                    assert(keep_archive(pre.archive@, ids_of(cleaned@)) =~= pre.archive@) by {
                        lemma_keep_nothing_archive(pre.archive@);
                    }
                }
                return cleaned;
            },
            Some(ix) => {
                let ghost ids = ids_of(ix@);
                let n = ix.len();
                let mut t: usize = 0;
                proof {
                    assert(ids.take(0) =~= Seq::<Seq<char>>::empty());
                    assert(ids_of(cleaned@) =~= Seq::<Seq<char>>::empty());
                }
                while t < n
                    invariant
                        0 <= t <= n,
                        *self == pre,
                        pre.wf(),
                        self.index matches Some(v) && v == ix,
                        n == ix@.len(),
                        ids == ids_of(ix@),
                        ids_of(cleaned@) == expired_ids(ids.take(t as int), pre, now),
                    decreases n - t,
                {
                    proof {
                        assert(ids.take(t + 1).drop_last() =~= ids.take(t as int));
                        assert(ids.take(t + 1).last() == ids[t as int]);
                        assert(ids[t as int] == ix@[t as int]@);
                    }
                    match find_manifest(&self.manifests, ix[t].as_str()) {
                        Some(j) => {
                            proof {
                                assert(pre.has_manifest(ids[t as int])) by {
                                    assert(pre.manifests@[j as int].id@ == ids[t as int]);
                                }
                                let c = choose|i: int|
                                    0 <= i < pre.manifests@.len() && pre.manifests@[i].id@
                                        == ids[t as int];
                                assert(c == j as int);
                            }
                            if self.manifests[j].retention_until < now {
                                let ghost precleaned = cleaned@;
                                cleaned.push(ix[t].clone());
                                proof {
                                    assert(ids_of(cleaned@) =~= ids_of(precleaned).push(
                                        ids[t as int],
                                    ));
                                }
                            }
                        },
                        None => {
                            proof {
                                assert(!pre.has_manifest(ids[t as int])) by {
                                    if pre.has_manifest(ids[t as int]) {
                                        let w = choose|w: int|
                                            0 <= w < pre.manifests@.len()
                                                && pre.manifests@[w].id@ == ids[t as int];
                                        assert(pre.manifests@[w].id@ == ids[t as int]);
                                    }
                                }
                            }
                        },
                    }
                    t += 1;
                }
                proof {
                    assert(ids.take(n as int) =~= ids);
                }
            },
        }
        let ghost gone = ids_of(cleaned@);
        // Delete the expired manifest files.
        let mut t: usize = 0;
        let ghost origms = self.manifests@;
        let ghost mut u: int = 0;
        proof {
            assert(origms.take(0) =~= Seq::<RecoveryManifest>::empty());
            assert(self.manifests@ =~= keep_manifests(origms.take(u), gone) + origms.skip(u));
        }
        while t < self.manifests.len()
            invariant
                0 <= u <= origms.len(),
                t == keep_manifests(origms.take(u), gone).len(),
                t <= self.manifests@.len(),
                self.manifests@ =~= keep_manifests(origms.take(u), gone) + origms.skip(u),
                self.index == pre.index,
                self.archive@ == pre.archive@,
                self.recovery_dir@ == pre.recovery_dir@,
                gone == ids_of(cleaned@),
            decreases self.manifests@.len() - t,
        {
            proof {
                assert(u < origms.len());
                assert(origms.take(u + 1).drop_last() =~= origms.take(u));
                assert(origms.take(u + 1).last() == origms[u]);
                assert(self.manifests@[t as int] == origms.skip(u)[0]);
                assert(origms.skip(u)[0] == origms[u]);
            }
            if contains_id(&cleaned, self.manifests[t].id.as_str()) {
                self.manifests.remove(t);
                proof {
                    assert(self.manifests@ =~= keep_manifests(origms.take(u + 1), gone)
                        + origms.skip(u + 1));
                    u = u + 1;
                }
            } else {
                t += 1;
                proof {
                    assert(keep_manifests(origms.take(u + 1), gone) =~= keep_manifests(
                        origms.take(u),
                        gone,
                    ).push(origms[u]));
                    assert(self.manifests@ =~= keep_manifests(origms.take(u + 1), gone)
                        + origms.skip(u + 1));
                    u = u + 1;
                }
            }
        }
        proof {
            assert(u == origms.len()) by {
                if u < origms.len() {
                    assert(origms.skip(u).len() == origms.len() - u);
                    lemma_keep_manifests_len(origms.take(u), gone);
                }
            }
            assert(origms.take(origms.len() as int) =~= origms);
            assert(origms.skip(origms.len() as int) =~= Seq::<RecoveryManifest>::empty());
            assert(self.manifests@ =~= keep_manifests(origms, gone));
        }
        // Delete the expired archive folders.
        let mut t: usize = 0;
        let ghost origar = self.archive@;
        let ghost mut w: int = 0;
        proof {
            assert(origar.take(0) =~= Seq::<ArchivedFile>::empty());
            assert(self.archive@ =~= keep_archive(origar.take(w), gone) + origar.skip(w));
        }
        while t < self.archive.len()
            invariant
                0 <= w <= origar.len(),
                t == keep_archive(origar.take(w), gone).len(),
                t <= self.archive@.len(),
                self.archive@ =~= keep_archive(origar.take(w), gone) + origar.skip(w),
                self.index == pre.index,
                self.manifests@ == keep_manifests(origms, gone),
                origms == pre.manifests@,
                self.recovery_dir@ == pre.recovery_dir@,
                gone == ids_of(cleaned@),
            decreases self.archive@.len() - t,
        {
            proof {
                assert(w < origar.len());
                assert(origar.take(w + 1).drop_last() =~= origar.take(w));
                assert(origar.take(w + 1).last() == origar[w]);
                assert(self.archive@[t as int] == origar.skip(w)[0]);
                assert(origar.skip(w)[0] == origar[w]);
            }
            if contains_id(&cleaned, self.archive[t].recovery_id.as_str()) {
                self.archive.remove(t);
                proof {
                    assert(self.archive@ =~= keep_archive(origar.take(w + 1), gone) + origar.skip(
                        w + 1,
                    ));
                    w = w + 1;
                }
            } else {
                t += 1;
                proof {
                    assert(keep_archive(origar.take(w + 1), gone) =~= keep_archive(
                        origar.take(w),
                        gone,
                    ).push(origar[w]));
                    assert(self.archive@ =~= keep_archive(origar.take(w + 1), gone) + origar.skip(
                        w + 1,
                    ));
                    w = w + 1;
                }
            }
        }
        proof {
            assert(w == origar.len()) by {
                if w < origar.len() {
                    assert(origar.skip(w).len() == origar.len() - w);
                    lemma_keep_archive_len(origar.take(w), gone);
                }
            }
            assert(origar.take(origar.len() as int) =~= origar);
            assert(origar.skip(origar.len() as int) =~= Seq::<ArchivedFile>::empty());
            assert(self.archive@ =~= keep_archive(origar, gone));
        }
        // Drop the expired ids from the index.
        let ix_opt = self.index.take();
        let mut newix: Vec<String> = Vec::new();
        let oldix = match ix_opt {
            Some(v) => v,
            None => Vec::new(),
        };
        let ghost origix = ids_of(oldix@);
        let m = oldix.len();
        let mut oi: usize = 0;
        let mut rest = oldix;
        proof {
            assert(origix.take(0) =~= Seq::<Seq<char>>::empty());
            assert(ids_of(newix@) =~= keep_ids(origix.take(0), gone));
        }
        while oi < m
            invariant
                0 <= oi <= m,
                m == origix.len(),
                rest@.len() == m - oi,
                forall|h: int| 0 <= h < rest@.len() ==> rest@[h]@ == origix[h + oi],
                ids_of(newix@) == keep_ids(origix.take(oi as int), gone),
                gone == ids_of(cleaned@),
            decreases m - oi,
        {
            proof {
                assert(origix.take(oi + 1).drop_last() =~= origix.take(oi as int));
                assert(origix.take(oi + 1).last() == origix[oi as int]);
                assert(rest@[0]@ == origix[oi as int]);
            }
            let ghost prerest = rest@;
            let ghost prenew = newix@;
            let cand = rest.remove(0);
            proof {
                assert(cand == prerest[0]);
            }
            if contains_id(&cleaned, cand.as_str()) {
                // dropped from the index
            } else {
                newix.push(cand);
                proof {
                    assert(ids_of(newix@) =~= ids_of(prenew).push(origix[oi as int]));
                }
            }
            proof {
                assert(forall|h: int|
                    0 <= h < rest@.len() ==> rest@[h] == prerest[h + 1]);
            }
            oi += 1;
        }
        proof {
            assert(origix.take(m as int) =~= origix);
        }
        self.index = Some(newix);
        proof {
            let fin = *self;
            lemma_keep_ids(origix, gone);
            lemma_keep_manifests(origms, gone);
            assert(forall|i: int, j: int|
                0 <= i < j < origix.len() ==> origix[i] != origix[j]) by {
                if pre.index is Some {
                    assert(forall|i: int|
                        0 <= i < origix.len() ==> origix[i] == oldix@[i]@);
                }
            }
            assert(fin.wf()) by {
                assert(forall|i: int, j: int|
                    0 <= i < j < fin.manifests@.len() ==> fin.manifests@[i].id@
                        != fin.manifests@[j].id@);
                assert(ids_of(newix@) == keep_ids(origix, gone));
                assert forall|i: int, j: int| 0 <= i < j < newix@.len() implies newix@[i]@
                    != newix@[j]@ by {
                    assert(ids_of(newix@)[i] == newix@[i]@);
                    assert(ids_of(newix@)[j] == newix@[j]@);
                    assert(ids_of(newix@)[i] != ids_of(newix@)[j]);
                }
            }
            if pre.index is Some {
                assert(origix == pre.index_ids());
                assert(fin.index_model() == Some(keep_ids(pre.index_ids(), gone)));
            }
            assert forall|i: int| 0 <= i < cleaned@.len() implies !fin.has_manifest(
                (#[trigger] cleaned@[i])@,
            ) && !fin.index_contains(cleaned@[i]@) by {
                assert(gone[i] == cleaned@[i]@);
                assert(gone.contains(cleaned@[i]@));
                if fin.has_manifest(cleaned@[i]@) {
                    let z = choose|z: int|
                        0 <= z < fin.manifests@.len() && fin.manifests@[z].id@ == cleaned@[i]@;
                    assert(!gone.contains(fin.manifests@[z].id@));
                }
                if fin.index_contains(cleaned@[i]@) {
                    let z = choose|z: int|
                        0 <= z < fin.index_ids().len() && fin.index_ids()[z] == cleaned@[i]@;
                    assert(fin.index_ids() == keep_ids(origix, gone));
                    assert(!gone.contains(keep_ids(origix, gone)[z]));
                }
            }
        }
        cleaned
    }

    /// Move one file out of the filesystem into this recovery's archive
    /// folder — archive-before-delete, the store's core safety step. The
    /// file's bytes are fingerprinted at archive time, an item describing
    /// the move is appended to `manifest`, and the file leaves `fs`. Fails
    /// with `NotFound` exactly when `path` names no file, and then changes
    /// nothing.
    pub fn archive_file(
        &mut self,
        fs: &mut VirtualFs,
        path: &str,
        category: &str,
        source: &str,
        can_regenerate: bool,
        manifest: &mut RecoveryManifest,
    ) -> (r: Result<RecoveryItem, Error>)
        requires
            old(self).wf(),
            old(fs).wf(),
            old(manifest).total_size + total_bytes(old(fs).files@) <= u64::MAX,
        ensures
            final(self).wf(),
            final(fs).wf(),
            final(self).recovery_dir@ == old(self).recovery_dir@,
            final(self).index == old(self).index,
            final(self).manifests@ == old(self).manifests@,
            final(fs).dirs@ == old(fs).dirs@,
            final(manifest).id@ == old(manifest).id@,
            final(manifest).timestamp == old(manifest).timestamp,
            final(manifest).retention_until == old(manifest).retention_until,
            match r {
                Err(e) => {
                    &&& e is NotFound
                    &&& !old(fs).has_file(path@)
                    &&& final(fs).files@ == old(fs).files@
                    &&& final(self).archive@ == old(self).archive@
                    &&& final(manifest).items@ == old(manifest).items@
                    &&& final(manifest).total_size == old(manifest).total_size
                },
                Ok(item) => {
                    &&& old(fs).has_file(path@)
                    &&& item.original_path@ == path@
                    &&& item.checksum@ == blake3_hex_of(final(self).archive@.last().content@)
                    &&& item.archive_path@ == archive_path_of(
                        old(self).recovery_dir@,
                        old(manifest).id@,
                        path@,
                    )
                    &&& item.size == final(self).archive@.last().content@.len()
                    &&& item.category@ == category@
                    &&& item.source@ == source@
                    &&& item.can_regenerate == can_regenerate
                    &&& exists|i: int|
                        0 <= i < old(fs).files@.len() && (#[trigger] old(fs).files@[i]).path@
                            == path@ && final(fs).files@ == old(fs).files@.remove(i) && final(self).archive@.last().original_dir == old(fs).files@[i].dir && final(self).archive@.last().original_path == old(fs).files@[i].path && final(self).archive@.last().content == old(fs).files@[i].content
                    &&& final(self).archive@.len() == old(self).archive@.len() + 1
                    &&& forall|j: int|
                        0 <= j < old(self).archive@.len() ==> final(self).archive@[j] == old(self).archive@[j]
                    &&& final(self).archive@.last().recovery_id@ == old(manifest).id@
                    &&& final(self).archive@.last().archive_path@ == item.archive_path@
                    &&& final(manifest).items@.len() == old(manifest).items@.len() + 1
                    &&& forall|j: int|
                        0 <= j < old(manifest).items@.len() ==> final(manifest).items@[j] == old(manifest).items@[j]
                    &&& item_matches(final(manifest).items@.last(), item)
                    &&& final(manifest).total_size == old(manifest).total_size + item.size
                    &&& final(manifest).total_size + total_bytes(final(fs).files@) <= u64::MAX
                },
            },
    {
        match fs.remove_file(path) {
            None => {
                let mut msg = "no file to archive at ".to_owned();
                msg.append(path);
                Err(Error::NotFound(msg))
            },
            Some(f) => {
                proof {
                    let i = choose|i: int|
                        0 <= i < old(fs).files@.len() && old(fs).files@[i] == f && fs.files@
                            == old(fs).files@.remove(i);
                    lemma_total_bytes_remove(old(fs).files@, i);
                    lemma_total_bytes_nonneg(fs.files@);
                }
                let VfsFile { dir, path: fpath, content } = f;
                let checksum = hash_bytes(HashAlgorithm::Blake3, content.as_slice());
                let mut ap = self.archive_dir(manifest.id.as_str());
                ap.append("/");
                ap.append(path);
                let size = content.len() as u64;
                let item = RecoveryItem {
                    original_path: path.to_owned(),
                    archive_path: ap.clone(),
                    size,
                    checksum,
                    category: category.to_owned(),
                    source: source.to_owned(),
                    can_regenerate,
                };
                self.archive.push(
                    ArchivedFile {
                        recovery_id: manifest.id.clone(),
                        original_dir: dir,
                        original_path: fpath,
                        archive_path: ap,
                        content,
                    },
                );
                manifest.items.push(item.clone());
                manifest.total_size = manifest.total_size + size;
                Ok(item)
            },
        }
    }

    /// Restore a recovery: move every archived item of its manifest back to
    /// its original path, in order. An item is restored only when its
    /// archived copy is found, the copy's fingerprint matches the recorded
    /// checksum, and nothing already sits at the original path — a mismatch
    /// or an occupied path skips that item and the pass goes on. Returns how
    /// many items were restored and their total bytes. Fails as a whole,
    /// with `NotFound`, exactly when the manifest cannot be loaded.
    pub fn restore_recovery(&mut self, fs: &mut VirtualFs, recovery_id: &str) -> (r: Result<
        (usize, u64),
        Error,
    >)
        requires
            old(self).wf(),
            old(fs).wf(),
        ensures
            final(self).wf(),
            final(fs).wf(),
            final(self).recovery_dir@ == old(self).recovery_dir@,
            final(self).index == old(self).index,
            final(self).manifests@ == old(self).manifests@,
            final(fs).dirs@ == old(fs).dirs@,
            match r {
                Err(e) => {
                    &&& e is NotFound
                    &&& !old(self).has_manifest(recovery_id@)
                    &&& final(fs).files@ == old(fs).files@
                    &&& final(self).archive@ == old(self).archive@
                },
                Ok((count, bytes)) => {
                    &&& old(self).has_manifest(recovery_id@)
                    &&& final(fs).files@ == restore_fold(
                        old(fs).files@,
                        old(self).archive@,
                        old(self).manifest_at(recovery_id@).items@,
                    ).0
                    &&& final(self).archive@ == restore_fold(
                        old(fs).files@,
                        old(self).archive@,
                        old(self).manifest_at(recovery_id@).items@,
                    ).1
                    &&& count == restore_fold(
                        old(fs).files@,
                        old(self).archive@,
                        old(self).manifest_at(recovery_id@).items@,
                    ).2
                    &&& bytes == restore_fold(
                        old(fs).files@,
                        old(self).archive@,
                        old(self).manifest_at(recovery_id@).items@,
                    ).3
                },
            },
    {
        let mi = match find_manifest(&self.manifests, recovery_id) {
            None => {
                let mut msg = "no manifest for recovery id ".to_owned();
                msg.append(recovery_id);
                return Err(Error::NotFound(msg));
            },
            Some(j) => j,
        };
        let ghost items = self.manifests@[mi as int].items@;
        proof {
            let c = choose|i: int|
                0 <= i < self.manifests@.len() && self.manifests@[i].id@ == recovery_id@;
            assert(c == mi as int);
            assert(self.manifest_at(recovery_id@) == self.manifests@[mi as int]);
        }
        let n_items = self.manifests[mi].items.len();
        let mut count: usize = 0;
        let mut bytes: u64 = 0;
        let mut t: usize = 0;
        proof {
            assert(items.take(0) =~= Seq::<RecoveryItem>::empty());
            lemma_total_bytes_nonneg(old(fs).files@);
        }
        while t < n_items
            invariant
                0 <= t <= n_items,
                mi < self.manifests@.len(),
                self.manifests@ == old(self).manifests@,
                self.index == old(self).index,
                self.recovery_dir@ == old(self).recovery_dir@,
                self.wf(),
                fs.wf(),
                fs.dirs@ == old(fs).dirs@,
                n_items == items.len(),
                items == self.manifests@[mi as int].items@,
                fs.files@ == restore_fold(old(fs).files@, old(self).archive@, items.take(t as int)).0,
                self.archive@ == restore_fold(
                    old(fs).files@,
                    old(self).archive@,
                    items.take(t as int),
                ).1,
                count == restore_fold(old(fs).files@, old(self).archive@, items.take(t as int)).2,
                bytes == restore_fold(old(fs).files@, old(self).archive@, items.take(t as int)).3,
                count <= t,
                total_bytes(fs.files@) == total_bytes(old(fs).files@) + bytes,
            decreases n_items - t,
        {
            proof {
                assert(items.take(t + 1).drop_last() =~= items.take(t as int));
                assert(items.take(t + 1).last() == items[t as int]);
            }
            let found = find_archived(&self.archive, self.manifests[mi].items[t].archive_path.as_str());
            match found {
                Some(k) => {
                    let ck = hash_bytes(HashAlgorithm::Blake3, self.archive[k].content.as_slice());
                    let ck_ok = ck == self.manifests[mi].items[t].checksum;
                    let occupied = fs.file_exists(self.archive[k].original_path.as_str());
                    let clen = self.archive[k].content.len() as u64;
                    let tb = fs.total_bytes_exec();
                    if ck_ok && !occupied && tb <= u64::MAX - clen {
                        proof {
                            assert(can_restore(fs.files@, self.archive@, items[t as int]));
                            lemma_total_bytes_nonneg(old(fs).files@);
                        }
                        let a = self.archive.remove(k);
                        let ArchivedFile {
                            recovery_id: _,
                            original_dir,
                            original_path,
                            archive_path: _,
                            content,
                        } = a;
                        let ghost prefiles = fs.files@;
                        fs.files.push(VfsFile { dir: original_dir, path: original_path, content });
                        count = count + 1;
                        bytes = bytes + clen;
                        proof {
                            assert(fs.files@ == prefiles.push(restored_file(a)));
                            assert(fs.files@.drop_last() =~= prefiles);
                            assert forall|x: int, y: int|
                                0 <= x < y < fs.files@.len() implies fs.files@[x].path@
                                != fs.files@[y].path@ by {
                                if y == fs.files@.len() - 1 {
                                    assert(fs.files@[x] == prefiles[x]);
                                }
                            }
                        }
                    } else {
                        proof {
                            assert(!can_restore(fs.files@, self.archive@, items[t as int]));
                        }
                    }
                },
                None => {
                    proof {
                        lemma_arch_index_of(self.archive@, items[t as int].archive_path@);
                        assert(!can_restore(fs.files@, self.archive@, items[t as int]));
                    }
                },
            }
            t += 1;
        }
        proof {
            assert(items.take(n_items as int) =~= items);
        }
        Ok((count, bytes))
    }

    /// Read the manifest file with `id`. Fails with `NotFound` exactly when
    /// no such file exists.
    pub fn load_manifest(&self, id: &str) -> (r: Result<RecoveryManifest, Error>)
        requires
            self.wf(),
        ensures
            match r {
                Ok(m) => self.has_manifest(id@) && manifest_matches(m, self.manifest_at(id@)),
                Err(e) => !self.has_manifest(id@) && e is NotFound,
            },
    {
        match find_manifest(&self.manifests, id) {
            Some(j) => {
                let m = self.manifests[j].clone();
                proof {
                    let c = choose|i: int|
                        0 <= i < self.manifests@.len() && self.manifests@[i].id@ == id@;
                    assert(c == j as int);
                }
                Ok(m)
            },
            None => {
                let mut msg = "no manifest for recovery id ".to_owned();
                msg.append(id);
                Err(Error::NotFound(msg))
            },
        }
    }
}

/// After a save: `m`'s id names a manifest carrying `m`'s data, ids stay
/// unique, and every other manifest is untouched.
spec fn manifests_saved(
    pre: Seq<RecoveryManifest>,
    cur: Seq<RecoveryManifest>,
    m: RecoveryManifest,
) -> bool {
    &&& exists|i: int| 0 <= i < cur.len() && cur[i].id@ == m.id@
    &&& forall|i: int, j: int| 0 <= i < j < cur.len() ==> cur[i].id@ != cur[j].id@
    &&& forall|i: int|
        0 <= i < cur.len() && cur[i].id@ == m.id@ ==> manifest_matches(#[trigger] cur[i], m)
    &&& forall|i: int|
        0 <= i < pre.len() && pre[i].id@ != m.id@ ==> cur.contains(#[trigger] pre[i])
    &&& forall|i: int|
        0 <= i < cur.len() && cur[i].id@ != m.id@ ==> pre.contains(#[trigger] cur[i])
}

/// The ids of `ids` whose manifest file exists in `mgr`, in order.
pub open spec fn loadable_ids(ids: Seq<Seq<char>>, mgr: RecoveryManager) -> Seq<Seq<char>>
    decreases ids.len(),
{
    if ids.len() == 0 {
        Seq::empty()
    } else {
        let r = loadable_ids(ids.drop_last(), mgr);
        if mgr.has_manifest(ids.last()) {
            r.push(ids.last())
        } else {
            r
        }
    }
}

/// The ids of `ids` whose manifest exists and whose retention window ended
/// strictly before `now`, in order.
pub open spec fn expired_ids(ids: Seq<Seq<char>>, mgr: RecoveryManager, now: u64) -> Seq<Seq<char>>
    decreases ids.len(),
{
    if ids.len() == 0 {
        Seq::empty()
    } else {
        let r = expired_ids(ids.drop_last(), mgr, now);
        if mgr.has_manifest(ids.last()) && mgr.manifest_at(ids.last()).retention_until < now {
            r.push(ids.last())
        } else {
            r
        }
    }
}

/// The manifests of `ms` whose id is not in `gone`, in order.
pub open spec fn keep_manifests(ms: Seq<RecoveryManifest>, gone: Seq<Seq<char>>) -> Seq<
    RecoveryManifest,
>
    decreases ms.len(),
{
    if ms.len() == 0 {
        Seq::empty()
    } else {
        let r = keep_manifests(ms.drop_last(), gone);
        if gone.contains(ms.last().id@) {
            r
        } else {
            r.push(ms.last())
        }
    }
}

/// The archived files of `ar` whose recovery id is not in `gone`, in order.
pub open spec fn keep_archive(ar: Seq<ArchivedFile>, gone: Seq<Seq<char>>) -> Seq<ArchivedFile>
    decreases ar.len(),
{
    if ar.len() == 0 {
        Seq::empty()
    } else {
        let r = keep_archive(ar.drop_last(), gone);
        if gone.contains(ar.last().recovery_id@) {
            r
        } else {
            r.push(ar.last())
        }
    }
}

/// The ids of `ids` that are not in `gone`, in order.
pub open spec fn keep_ids(ids: Seq<Seq<char>>, gone: Seq<Seq<char>>) -> Seq<Seq<char>>
    decreases ids.len(),
{
    if ids.len() == 0 {
        Seq::empty()
    } else {
        let r = keep_ids(ids.drop_last(), gone);
        if gone.contains(ids.last()) {
            r
        } else {
            r.push(ids.last())
        }
    }
}

/// Kept manifests are exactly the previous manifests whose id is outside
/// `gone`, unchanged and in order.
pub proof fn lemma_keep_manifests(ms: Seq<RecoveryManifest>, gone: Seq<Seq<char>>)
    ensures
        forall|i: int|
            0 <= i < keep_manifests(ms, gone).len() ==> ms.contains(
                #[trigger] keep_manifests(ms, gone)[i],
            ) && !gone.contains(keep_manifests(ms, gone)[i].id@),
        forall|j: int|
            0 <= j < ms.len() && !gone.contains(ms[j].id@) ==> keep_manifests(ms, gone).contains(
                #[trigger] ms[j],
            ),
        (forall|i: int, j: int| 0 <= i < j < ms.len() ==> ms[i].id@ != ms[j].id@) ==> (forall|
            i: int,
            j: int,
        |
            0 <= i < j < keep_manifests(ms, gone).len() ==> keep_manifests(ms, gone)[i].id@
                != keep_manifests(ms, gone)[j].id@),
    decreases ms.len(),
{
    if ms.len() > 0 {
        lemma_keep_manifests(ms.drop_last(), gone);
        let r0 = keep_manifests(ms.drop_last(), gone);
        let r = keep_manifests(ms, gone);
        assert forall|i: int| 0 <= i < r.len() implies ms.contains(#[trigger] r[i])
            && !gone.contains(r[i].id@) by {
            if i < r0.len() {
                assert(ms.drop_last().contains(r0[i]));
                let w = choose|w: int| 0 <= w < ms.drop_last().len() && ms.drop_last()[w] == r0[i];
                assert(ms[w] == r0[i]);
            } else {
                assert(r[i] == ms.last());
                assert(ms[ms.len() - 1] == ms.last());
            }
        }
        assert forall|j: int| 0 <= j < ms.len() && !gone.contains(ms[j].id@) implies r.contains(
            #[trigger] ms[j],
        ) by {
            if j < ms.len() - 1 {
                assert(ms.drop_last()[j] == ms[j]);
                assert(r0.contains(ms[j]));
                let w = choose|w: int| 0 <= w < r0.len() && r0[w] == ms[j];
                assert(r[w] == ms[j]);
            } else {
                assert(ms[j] == ms.last());
                assert(r[r.len() - 1] == ms.last());
            }
        }
        if forall|i: int, j: int| 0 <= i < j < ms.len() ==> ms[i].id@ != ms[j].id@ {
            assert(forall|i: int|
                0 <= i < ms.drop_last().len() ==> ms.drop_last()[i] == ms[i]);
            if !gone.contains(ms.last().id@) {
                assert forall|i: int, j: int| 0 <= i < j < r.len() implies r[i].id@
                    != r[j].id@ by {
                    if j == r.len() - 1 && r0.len() == j {
                        assert(ms.drop_last().contains(r0[i]));
                        let w = choose|w: int|
                            0 <= w < ms.drop_last().len() && ms.drop_last()[w] == r0[i];
                        assert(ms[w] == r0[i]);
                        assert(ms[ms.len() - 1] == ms.last());
                    }
                }
            }
        }
    }
}

/// With nothing to drop, every manifest is kept.
pub proof fn lemma_keep_nothing_manifests(ms: Seq<RecoveryManifest>)
    ensures
        keep_manifests(ms, Seq::empty()) =~= ms,
    decreases ms.len(),
{
    if ms.len() > 0 {
        lemma_keep_nothing_manifests(ms.drop_last());
    }
}

/// With nothing to drop, every archived file is kept.
pub proof fn lemma_keep_nothing_archive(ar: Seq<ArchivedFile>)
    ensures
        keep_archive(ar, Seq::empty()) =~= ar,
    decreases ar.len(),
{
    if ar.len() > 0 {
        lemma_keep_nothing_archive(ar.drop_last());
    }
}

pub proof fn lemma_keep_manifests_len(ms: Seq<RecoveryManifest>, gone: Seq<Seq<char>>)
    ensures
        keep_manifests(ms, gone).len() <= ms.len(),
    decreases ms.len(),
{
    if ms.len() > 0 {
        lemma_keep_manifests_len(ms.drop_last(), gone);
    }
}

pub proof fn lemma_keep_archive_len(ar: Seq<ArchivedFile>, gone: Seq<Seq<char>>)
    ensures
        keep_archive(ar, gone).len() <= ar.len(),
    decreases ar.len(),
{
    if ar.len() > 0 {
        lemma_keep_archive_len(ar.drop_last(), gone);
    }
}

/// Kept ids are exactly the previous ids outside `gone`, in order, and stay
/// distinct.
pub proof fn lemma_keep_ids(ids: Seq<Seq<char>>, gone: Seq<Seq<char>>)
    ensures
        forall|i: int|
            0 <= i < keep_ids(ids, gone).len() ==> ids.contains(#[trigger] keep_ids(ids, gone)[i])
                && !gone.contains(keep_ids(ids, gone)[i]),
        (forall|i: int, j: int| 0 <= i < j < ids.len() ==> ids[i] != ids[j]) ==> (forall|
            i: int,
            j: int,
        |
            0 <= i < j < keep_ids(ids, gone).len() ==> keep_ids(ids, gone)[i] != keep_ids(
                ids,
                gone,
            )[j]),
    decreases ids.len(),
{
    if ids.len() > 0 {
        lemma_keep_ids(ids.drop_last(), gone);
        let r0 = keep_ids(ids.drop_last(), gone);
        let r = keep_ids(ids, gone);
        assert(forall|i: int| 0 <= i < ids.drop_last().len() ==> ids.drop_last()[i] == ids[i]);
        assert forall|i: int| 0 <= i < r.len() implies ids.contains(#[trigger] r[i])
            && !gone.contains(r[i]) by {
            if i < r0.len() {
                assert(ids.drop_last().contains(r0[i]));
                let w = choose|w: int|
                    0 <= w < ids.drop_last().len() && ids.drop_last()[w] == r0[i];
                assert(ids[w] == r0[i]);
            } else {
                assert(r[i] == ids.last());
                assert(ids[ids.len() - 1] == ids.last());
            }
        }
        if forall|i: int, j: int| 0 <= i < j < ids.len() ==> ids[i] != ids[j] {
            if !gone.contains(ids.last()) {
                assert forall|i: int, j: int| 0 <= i < j < r.len() implies r[i] != r[j] by {
                    if j == r.len() - 1 {
                        assert(ids.drop_last().contains(r0[i]));
                        let w = choose|w: int|
                            0 <= w < ids.drop_last().len() && ids.drop_last()[w] == r0[i];
                        assert(ids[w] == r0[i]);
                        assert(ids[ids.len() - 1] == ids.last());
                    }
                }
            }
        }
    }
}

/// The first archive position holding `p`, or -1 when none does.
pub open spec fn arch_index_of(a: Seq<ArchivedFile>, p: Seq<char>) -> int
    decreases a.len(),
{
    if a.len() == 0 {
        -1
    } else if a.first().archive_path@ == p {
        0
    } else {
        let r = arch_index_of(a.drop_first(), p);
        if r == -1 {
            -1
        } else {
            r + 1
        }
    }
}

pub proof fn lemma_arch_index_of(a: Seq<ArchivedFile>, p: Seq<char>)
    ensures
        arch_index_of(a, p) == -1 ==> forall|i: int| 0 <= i < a.len() ==> a[i].archive_path@ != p,
        arch_index_of(a, p) != -1 ==> 0 <= arch_index_of(a, p) < a.len() && a[arch_index_of(
            a,
            p,
        )].archive_path@ == p && forall|i: int|
            0 <= i < arch_index_of(a, p) ==> a[i].archive_path@ != p,
    decreases a.len(),
{
    if a.len() > 0 {
        lemma_arch_index_of(a.drop_first(), p);
        assert(forall|i: int| 0 <= i < a.drop_first().len() ==> a.drop_first()[i] == a[i + 1]);
        if a.first().archive_path@ != p {
            let r0 = arch_index_of(a.drop_first(), p);
            if r0 == -1 {
                assert forall|i: int| 0 <= i < a.len() implies a[i].archive_path@ != p by {
                    if i > 0 {
                        assert(a.drop_first()[i - 1] == a[i]);
                    }
                }
            } else {
                assert(a[r0 + 1] == a.drop_first()[r0]);
                assert forall|i: int| 0 <= i < r0 + 1 implies a[i].archive_path@ != p by {
                    if i > 0 {
                        assert(a.drop_first()[i - 1] == a[i]);
                    }
                }
            }
        }
    }
}

/// Whether one item can be restored against the given files and archive:
/// its archived copy is found, the copy's fingerprint matches the recorded
/// checksum, nothing sits at the original path, and the bytes fit back.
pub open spec fn can_restore(
    files: Seq<VfsFile>,
    archive: Seq<ArchivedFile>,
    it: RecoveryItem,
) -> bool {
    let ai = arch_index_of(archive, it.archive_path@);
    &&& ai >= 0
    &&& blake3_hex_of(archive[ai].content@) == it.checksum@
    &&& !(exists|k: int|
        0 <= k < files.len() && files[k].path@ == archive[ai].original_path@)
    &&& total_bytes(files) + archive[ai].content@.len() <= u64::MAX
}

/// The file an archived copy restores to: its original place, its original
/// bytes.
pub open spec fn restored_file(a: ArchivedFile) -> VfsFile {
    VfsFile { dir: a.original_dir, path: a.original_path, content: a.content }
}

/// What restoring a manifest's items does, item by item in order: each
/// restorable item moves its archived copy back to its original path and is
/// counted; the others are skipped. Yields the files, the remaining archive,
/// the number of restored items, and the restored bytes.
pub open spec fn restore_fold(
    files: Seq<VfsFile>,
    archive: Seq<ArchivedFile>,
    items: Seq<RecoveryItem>,
) -> (Seq<VfsFile>, Seq<ArchivedFile>, int, int)
    decreases items.len(),
{
    if items.len() == 0 {
        (files, archive, 0, 0)
    } else {
        let (f1, a1, c1, b1) = restore_fold(files, archive, items.drop_last());
        let it = items.last();
        if can_restore(f1, a1, it) {
            let ai = arch_index_of(a1, it.archive_path@);
            (f1.push(restored_file(a1[ai])), a1.remove(ai), c1 + 1, b1 + a1[ai].content@.len())
        } else {
            (f1, a1, c1, b1)
        }
    }
}

/// The archive path a file is moved to: under the recovery root, in the
/// archive folder of its recovery, keyed by its original path.
pub open spec fn archive_path_of(dir: Seq<char>, id: Seq<char>, p: Seq<char>) -> Seq<char> {
    dir + "/archives/"@ + id + "/"@ + p
}

/// LAW: archiving then restoring round-trips. An archived copy whose path is
/// fresh in the archive, whose recorded checksum fingerprints its bytes, and
/// whose original place is free, is moved back by a restore pass over its
/// one-item manifest: the original path holds the original bytes again, the
/// copy leaves the archive, and the pass reports one file with its size.
pub proof fn lemma_archive_restore_round_trip(
    files: Seq<VfsFile>,
    archive: Seq<ArchivedFile>,
    e: ArchivedFile,
    it: RecoveryItem,
)
    requires
        it.archive_path@ == e.archive_path@,
        it.checksum@ == blake3_hex_of(e.content@),
        forall|i: int| 0 <= i < archive.len() ==> archive[i].archive_path@ != e.archive_path@,
        !(exists|k: int| 0 <= k < files.len() && files[k].path@ == e.original_path@),
        total_bytes(files) + e.content@.len() <= u64::MAX,
    ensures
        restore_fold(files, archive.push(e), seq![it]).0 == files.push(restored_file(e)),
        restore_fold(files, archive.push(e), seq![it]).1 == archive,
        restore_fold(files, archive.push(e), seq![it]).2 == 1,
        restore_fold(files, archive.push(e), seq![it]).3 == e.content@.len(),
        restored_file(e).path == e.original_path,
        restored_file(e).content == e.content,
{
    let a1 = archive.push(e);
    let items = seq![it];
    assert(items.drop_last() =~= Seq::<RecoveryItem>::empty());
    assert(restore_fold(files, a1, items.drop_last()) == (files, a1, 0int, 0int));
    lemma_arch_index_of(a1, it.archive_path@);
    let ai = arch_index_of(a1, it.archive_path@);
    assert(a1[archive.len() as int].archive_path@ == it.archive_path@);
    assert(ai != -1);
    assert(ai == archive.len()) by {
        if ai < archive.len() {
            assert(a1[ai] == archive[ai]);
        }
    }
    assert(a1[ai] == e);
    assert(can_restore(files, a1, it));
    assert(a1.remove(archive.len() as int) =~= archive);
}

/// Sort manifests newest-first by creation time, by repeatedly moving the
/// newest remaining manifest over.
fn sort_by_timestamp_desc(v: Vec<RecoveryManifest>) -> (r: Vec<RecoveryManifest>)
    ensures
        r@.to_multiset() == v@.to_multiset(),
        listing_ids(r@).to_multiset() == listing_ids(v@).to_multiset(),
        forall|a: int, b: int| 0 <= a < b < r@.len() ==> r@[a].timestamp >= r@[b].timestamp,
{
    broadcast use vstd::seq_lib::group_to_multiset_ensures;

    let ghost orig = v@;
    let mut rest = v;
    let mut out: Vec<RecoveryManifest> = Vec::new();
    while rest.len() > 0
        invariant
            out@.to_multiset().add(rest@.to_multiset()) =~= orig.to_multiset(),
            listing_ids(out@).to_multiset().add(listing_ids(rest@).to_multiset())
                =~= listing_ids(orig).to_multiset(),
            forall|a: int, b: int|
                0 <= a < b < out@.len() ==> out@[a].timestamp >= out@[b].timestamp,
            forall|a: int, b: int|
                0 <= a < out@.len() && 0 <= b < rest@.len() ==> out@[a].timestamp
                    >= rest@[b].timestamp,
        decreases rest.len(),
    {
        let m = rest.len();
        let mut best: usize = 0;
        let mut u: usize = 1;
        while u < m
            invariant
                0 <= best < u <= m,
                m == rest@.len(),
                forall|w: int| 0 <= w < u ==> rest@[best as int].timestamp >= rest@[w].timestamp,
            decreases m - u,
        {
            if rest[u].timestamp > rest[best].timestamp {
                best = u;
            }
            u += 1;
        }
        let ghost prerest = rest@;
        let ghost preout = out@;
        let picked = rest.remove(best);
        out.push(picked);
        proof {
            preout.to_multiset_ensures();
            prerest.to_multiset_ensures();
            assert(prerest[best as int] == picked);
            assert(out@ == preout.push(picked));
            assert(preout.push(picked).to_multiset() =~= preout.to_multiset().insert(picked));
            assert(rest@ == prerest.remove(best as int));
            assert(prerest.remove(best as int).to_multiset() =~= prerest.to_multiset().remove(
                prerest[best as int],
            ));
            assert(prerest.to_multiset().contains(picked)) by {
                assert(prerest.contains(picked));
            }
            assert(out@.to_multiset().add(rest@.to_multiset()) =~= orig.to_multiset());
            listing_ids(preout).to_multiset_ensures();
            listing_ids(prerest).to_multiset_ensures();
            assert(listing_ids(out@) =~= listing_ids(preout).push(picked.id@));
            assert(listing_ids(preout).push(picked.id@).to_multiset() =~= listing_ids(
                preout,
            ).to_multiset().insert(picked.id@));
            assert(listing_ids(rest@) =~= listing_ids(prerest).remove(best as int));
            assert(listing_ids(prerest).remove(best as int).to_multiset() =~= listing_ids(
                prerest,
            ).to_multiset().remove(listing_ids(prerest)[best as int]));
            assert(listing_ids(prerest)[best as int] == picked.id@);
            assert(listing_ids(prerest).to_multiset().contains(picked.id@)) by {
                assert(listing_ids(prerest).contains(picked.id@)) by {
                    assert(listing_ids(prerest)[best as int] == picked.id@);
                }
            }
            assert(listing_ids(out@).to_multiset().add(listing_ids(rest@).to_multiset())
                =~= listing_ids(orig).to_multiset());
            assert forall|a: int, b: int|
                0 <= a < out@.len() && 0 <= b < rest@.len() implies out@[a].timestamp
                >= rest@[b].timestamp by {
                let b0 = if b < best as int {
                    b
                } else {
                    b + 1
                };
                assert(rest@[b] == prerest[b0]);
            }
        }
    }
    proof {
        assert(rest@ =~= Seq::<RecoveryManifest>::empty());
        assert(rest@.to_multiset() =~= Multiset::<RecoveryManifest>::empty());
        assert(out@.to_multiset() =~= orig.to_multiset());
        assert(listing_ids(rest@) =~= Seq::<Seq<char>>::empty());
        assert(listing_ids(rest@).to_multiset() =~= Multiset::<Seq<char>>::empty());
        assert(listing_ids(out@).to_multiset() =~= listing_ids(orig).to_multiset());
    }
    out
}

/// The position of the manifest with the given id, when one exists.
fn find_manifest(ms: &Vec<RecoveryManifest>, id: &str) -> (r: Option<usize>)
    ensures
        match r {
            Some(j) => j < ms@.len() && ms@[j as int].id@ == id@,
            None => forall|i: int| 0 <= i < ms@.len() ==> ms@[i].id@ != id@,
        },
{
    let n = ms.len();
    let mut i: usize = 0;
    while i < n
        invariant
            0 <= i <= n,
            n == ms@.len(),
            forall|j: int| 0 <= j < i ==> ms@[j].id@ != id@,
        decreases n - i,
    {
        if crate::strings::str_eq(ms[i].id.as_str(), id) {
            return Some(i);
        }
        i += 1;
    }
    None
}

/// The first archive position holding `p`, when one does.
fn find_archived(ar: &Vec<ArchivedFile>, p: &str) -> (r: Option<usize>)
    ensures
        match r {
            Some(k) => arch_index_of(ar@, p@) == k as int && k < ar@.len() && ar@[k as int].archive_path@ == p@,
            None => arch_index_of(ar@, p@) == -1,
        },
{
    let n = ar.len();
    let mut i: usize = 0;
    while i < n
        invariant
            0 <= i <= n,
            n == ar@.len(),
            forall|j: int| 0 <= j < i ==> ar@[j].archive_path@ != p@,
        decreases n - i,
    {
        if crate::strings::str_eq(ar[i].archive_path.as_str(), p) {
            proof {
                lemma_arch_index_of(ar@, p@);
                let r = arch_index_of(ar@, p@);
                if r == -1 {
                    assert(ar@[i as int].archive_path@ != p@);
                }
                if r < i as int {
                    assert(ar@[r].archive_path@ != p@);
                }
                if r > i as int {
                    assert(ar@[i as int].archive_path@ != p@);
                }
            }
            return Some(i);
        }
        i += 1;
    }
    proof {
        lemma_arch_index_of(ar@, p@);
        let r = arch_index_of(ar@, p@);
        if r != -1 {
            assert(ar@[r].archive_path@ != p@);
        }
    }
    None
}

/// Whether the id list holds `id`.
fn contains_id(ix: &Vec<String>, id: &str) -> (r: bool)
    ensures
        r == ids_of(ix@).contains(id@),
{
    let n = ix.len();
    let mut i: usize = 0;
    while i < n
        invariant
            0 <= i <= n,
            n == ix@.len(),
            forall|j: int| 0 <= j < i ==> ix@[j]@ != id@,
        decreases n - i,
    {
        if crate::strings::str_eq(ix[i].as_str(), id) {
            proof {
                assert(ids_of(ix@)[i as int] == id@);
            }
            return true;
        }
        i += 1;
    }
    proof {
        if ids_of(ix@).contains(id@) {
            let w = choose|w: int| 0 <= w < ids_of(ix@).len() && ids_of(ix@)[w] == id@;
            assert(ix@[w]@ == id@);
        }
    }
    false
}

} // verus!
