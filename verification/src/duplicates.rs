//! The duplicate-detection engine.
//!
//! Files are grouped by content fingerprint; fingerprint equality is the sole
//! duplicate criterion. A group keeps its members in the order they were
//! discovered; the first member is the "keeper" and the rest are reclaimable,
//! so a group's savings is the group's total size minus the keeper's size.

use vstd::prelude::*;

use crate::domain::{FileEntity, FilePath};
use crate::error::Error;
use crate::hashing::{fingerprint_of, hash_bytes, HashAlgorithm};
use crate::vfs::{
    lemma_total_bytes_nonneg, lemma_total_bytes_prefix_le, total_bytes, VfsFile, VirtualFs,
};

verus! {

/// Whether a file takes part in a detection pass over `root` with the given
/// minimum size.
pub open spec fn is_candidate(f: VfsFile, root: Seq<char>, min_size: u64) -> bool {
    f.dir@ == root && f.content@.len() >= min_size
}

/// The files of `s` that take part in a detection pass, in order.
pub open spec fn candidates(s: Seq<VfsFile>, root: Seq<char>, min_size: u64) -> Seq<VfsFile>
    decreases s.len(),
{
    if s.len() == 0 {
        Seq::empty()
    } else {
        let r = candidates(s.drop_last(), root, min_size);
        if is_candidate(s.last(), root, min_size) {
            r.push(s.last())
        } else {
            r
        }
    }
}

/// A file's fingerprint under the pass's algorithm.
pub open spec fn fp(alg: HashAlgorithm, f: VfsFile) -> Seq<char> {
    fingerprint_of(alg, f.content@)
}

/// The files of `s` whose fingerprint is `key`, in order.
pub open spec fn members(s: Seq<VfsFile>, alg: HashAlgorithm, key: Seq<char>) -> Seq<VfsFile>
    decreases s.len(),
{
    if s.len() == 0 {
        Seq::empty()
    } else {
        let r = members(s.drop_last(), alg, key);
        if fp(alg, s.last()) == key {
            r.push(s.last())
        } else {
            r
        }
    }
}

/// The distinct fingerprints of `s`, in order of first occurrence.
pub open spec fn group_keys(s: Seq<VfsFile>, alg: HashAlgorithm) -> Seq<Seq<char>>
    decreases s.len(),
{
    if s.len() == 0 {
        Seq::empty()
    } else {
        let ks = group_keys(s.drop_last(), alg);
        if ks.contains(fp(alg, s.last())) {
            ks
        } else {
            ks.push(fp(alg, s.last()))
        }
    }
}

/// The keys of `ks` that two or more files of `s` share, in order.
pub open spec fn keys_with_dups(
    s: Seq<VfsFile>,
    alg: HashAlgorithm,
    ks: Seq<Seq<char>>,
) -> Seq<Seq<char>>
    decreases ks.len(),
{
    if ks.len() == 0 {
        Seq::empty()
    } else {
        let r = keys_with_dups(s, alg, ks.drop_last());
        if members(s, alg, ks.last()).len() >= 2 {
            r.push(ks.last())
        } else {
            r
        }
    }
}

/// The fingerprints that two or more files of `s` share, in first-occurrence
/// order.
pub open spec fn dup_keys(s: Seq<VfsFile>, alg: HashAlgorithm) -> Seq<Seq<char>> {
    keys_with_dups(s, alg, group_keys(s, alg))
}

/// A duplicate group's reclaimable bytes: its total size minus its first
/// member's size. Meaningful for nonempty groups.
pub open spec fn group_savings(ms: Seq<VfsFile>) -> int {
    total_bytes(ms) - ms[0].content@.len()
}

/// The reclaimable bytes over the member groups of the given keys.
pub open spec fn savings_sum(s: Seq<VfsFile>, alg: HashAlgorithm, ks: Seq<Seq<char>>) -> int
    decreases ks.len(),
{
    if ks.len() == 0 {
        0
    } else {
        savings_sum(s, alg, ks.drop_last()) + group_savings(members(s, alg, ks.last()))
    }
}

/// The reclaimable bytes of a whole detection pass over `s`.
pub open spec fn potential_savings_of(s: Seq<VfsFile>, alg: HashAlgorithm) -> int {
    savings_sum(s, alg, dup_keys(s, alg))
}

/// Total content bytes over the member groups of the given keys.
pub open spec fn members_sum(s: Seq<VfsFile>, alg: HashAlgorithm, ks: Seq<Seq<char>>) -> int
    decreases ks.len(),
{
    if ks.len() == 0 {
        0
    } else {
        members_sum(s, alg, ks.drop_last()) + total_bytes(members(s, alg, ks.last()))
    }
}

/// Whether a sequence of keys has no repeats.
pub open spec fn distinct_keys(ks: Seq<Seq<char>>) -> bool {
    forall|i: int, j: int| 0 <= i < j < ks.len() ==> ks[i] != ks[j]
}

/// Whether a sequence of result entities describes exactly a sequence of
/// files: same length, and pairwise the same path and size.
pub open spec fn entities_match(es: Seq<FileEntity>, fs: Seq<VfsFile>) -> bool {
    &&& es.len() == fs.len()
    &&& forall|i: int|
        0 <= i < es.len() ==> es[i].path@ == fs[i].path@ && es[i].size == fs[i].content@.len()
}

pub proof fn lemma_group_keys_distinct(s: Seq<VfsFile>, alg: HashAlgorithm)
    ensures
        distinct_keys(group_keys(s, alg)),
    decreases s.len(),
{
    if s.len() > 0 {
        lemma_group_keys_distinct(s.drop_last(), alg);
        let ks = group_keys(s.drop_last(), alg);
        if !ks.contains(fp(alg, s.last())) {
            assert forall|i: int, j: int|
                0 <= i < j < ks.push(fp(alg, s.last())).len() implies ks.push(
                fp(alg, s.last()),
            )[i] != ks.push(fp(alg, s.last()))[j] by {
                if j == ks.len() {
                    assert(!ks.contains(ks[i]) ==> false);
                }
            }
        }
    }
}

pub proof fn lemma_group_keys_member_count(s: Seq<VfsFile>, alg: HashAlgorithm, k: Seq<char>)
    ensures
        group_keys(s, alg).contains(k) ==> members(s, alg, k).len() >= 1,
        members(s, alg, k).len() >= 1 ==> group_keys(s, alg).contains(k),
    decreases s.len(),
{
    if s.len() > 0 {
        lemma_group_keys_member_count(s.drop_last(), alg, k);
        let ks = group_keys(s.drop_last(), alg);
        if group_keys(s, alg).contains(k) {
            if fp(alg, s.last()) != k {
                // k already occurs among the previous keys
                let i = choose|i: int|
                    0 <= i < group_keys(s, alg).len() && group_keys(s, alg)[i] == k;
                assert(ks.contains(k)) by {
                    if ks.contains(fp(alg, s.last())) {
                        assert(group_keys(s, alg) == ks);
                    } else {
                        assert(i < ks.len());
                    }
                }
            }
        }
        if members(s, alg, k).len() >= 1 {
            if fp(alg, s.last()) == k {
                if !ks.contains(k) {
                    assert(group_keys(s, alg) == ks.push(k));
                    assert(group_keys(s, alg)[ks.len() as int] == k);
                } else {
                    assert(group_keys(s, alg) == ks);
                }
            }
        }
        if ks.contains(k) {
            let i = choose|i: int| 0 <= i < ks.len() && ks[i] == k;
            if !ks.contains(fp(alg, s.last())) {
                assert(group_keys(s, alg)[i] == k);
            }
        }
    }
}

/// Keys kept by `keys_with_dups` are keys of `ks` whose member group has two
/// or more files, and distinctness is preserved.
pub proof fn lemma_keys_with_dups(s: Seq<VfsFile>, alg: HashAlgorithm, ks: Seq<Seq<char>>)
    ensures
        forall|i: int|
            0 <= i < keys_with_dups(s, alg, ks).len() ==> ks.contains(
                #[trigger] keys_with_dups(s, alg, ks)[i],
            ) && members(s, alg, keys_with_dups(s, alg, ks)[i]).len() >= 2,
        distinct_keys(ks) ==> distinct_keys(keys_with_dups(s, alg, ks)),
    decreases ks.len(),
{
    if ks.len() > 0 {
        lemma_keys_with_dups(s, alg, ks.drop_last());
        let r0 = keys_with_dups(s, alg, ks.drop_last());
        let r = keys_with_dups(s, alg, ks);
        assert forall|i: int| 0 <= i < r.len() implies ks.contains(#[trigger] r[i]) && members(
            s,
            alg,
            r[i],
        ).len() >= 2 by {
            if i < r0.len() {
                assert(ks.drop_last().contains(r0[i]));
                let w = choose|w: int| 0 <= w < ks.drop_last().len() && ks.drop_last()[w] == r0[i];
                assert(ks[w] == r0[i]);
            } else {
                assert(r[i] == ks.last());
                assert(ks[ks.len() - 1] == ks.last());
            }
        }
        if distinct_keys(ks) {
            assert(distinct_keys(ks.drop_last())) by {
                assert(forall|i: int|
                    0 <= i < ks.drop_last().len() ==> ks.drop_last()[i] == ks[i]);
            }
            if members(s, alg, ks.last()).len() >= 2 {
                assert forall|i: int, j: int| 0 <= i < j < r.len() implies r[i] != r[j] by {
                    if j == r.len() - 1 && r0.len() == j {
                        // r[j] is ks.last(); r[i] comes from ks.drop_last()
                        assert(ks.drop_last().contains(r0[i]));
                        let w = choose|w: int|
                            0 <= w < ks.drop_last().len() && ks.drop_last()[w] == r0[i];
                        assert(ks[w] == r0[i]);
                        assert(ks[ks.len() - 1] == ks.last());
                    }
                }
            }
        }
    }
}

/// A nonempty group's first member contributes no more than the whole group.
pub proof fn lemma_first_le_total(ms: Seq<VfsFile>)
    requires
        ms.len() >= 1,
    ensures
        total_bytes(ms) >= ms[0].content@.len(),
    decreases ms.len(),
{
    if ms.len() == 1 {
        assert(total_bytes(ms.drop_last()) == 0);
    } else {
        lemma_first_le_total(ms.drop_last());
        assert(ms.drop_last()[0] == ms[0]);
    }
}

/// Candidate files are a sub-collection of all files, byte-wise.
pub proof fn lemma_candidates_le_total(s: Seq<VfsFile>, root: Seq<char>, min_size: u64)
    ensures
        total_bytes(candidates(s, root, min_size)) <= total_bytes(s),
        total_bytes(candidates(s, root, min_size)) >= 0,
    decreases s.len(),
{
    lemma_total_bytes_nonneg(candidates(s, root, min_size));
    if s.len() > 0 {
        lemma_candidates_le_total(s.drop_last(), root, min_size);
        let r = candidates(s.drop_last(), root, min_size);
        if is_candidate(s.last(), root, min_size) {
            assert(r.push(s.last()).drop_last() =~= r);
        }
    }
}

/// A key's member group is a sub-collection of the pass's files, byte-wise.
pub proof fn lemma_members_le_total(s: Seq<VfsFile>, alg: HashAlgorithm, key: Seq<char>)
    ensures
        total_bytes(members(s, alg, key)) <= total_bytes(s),
        total_bytes(members(s, alg, key)) >= 0,
    decreases s.len(),
{
    lemma_total_bytes_nonneg(members(s, alg, key));
    if s.len() > 0 {
        lemma_members_le_total(s.drop_last(), alg, key);
        let r = members(s.drop_last(), alg, key);
        if fp(alg, s.last()) == key {
            assert(r.push(s.last()).drop_last() =~= r);
        }
    }
}

proof fn lemma_members_sum_empty(alg: HashAlgorithm, ks: Seq<Seq<char>>)
    ensures
        members_sum(Seq::<VfsFile>::empty(), alg, ks) == 0,
    decreases ks.len(),
{
    if ks.len() > 0 {
        lemma_members_sum_empty(alg, ks.drop_last());
    }
}

proof fn lemma_members_sum_step(s: Seq<VfsFile>, alg: HashAlgorithm, ks: Seq<Seq<char>>)
    requires
        s.len() > 0,
        distinct_keys(ks),
    ensures
        members_sum(s, alg, ks) == members_sum(s.drop_last(), alg, ks) + if ks.contains(
            fp(alg, s.last()),
        ) {
            s.last().content@.len() as int
        } else {
            0
        },
    decreases ks.len(),
{
    if ks.len() > 0 {
        assert(distinct_keys(ks.drop_last())) by {
            assert(forall|i: int| 0 <= i < ks.drop_last().len() ==> ks.drop_last()[i] == ks[i]);
        }
        lemma_members_sum_step(s, alg, ks.drop_last());
        let k = ks.last();
        let m1 = members(s, alg, k);
        let m0 = members(s.drop_last(), alg, k);
        if fp(alg, s.last()) == k {
            assert(m1 == m0.push(s.last()));
            assert(m0.push(s.last()).drop_last() =~= m0);
            // the last key matches, so no earlier (distinct) key does
            assert(!ks.drop_last().contains(fp(alg, s.last()))) by {
                if ks.drop_last().contains(fp(alg, s.last())) {
                    let w = choose|w: int|
                        0 <= w < ks.drop_last().len() && ks.drop_last()[w] == fp(alg, s.last());
                    assert(ks[w] == ks[ks.len() - 1]);
                }
            }
            assert(ks.contains(k)) by {
                assert(ks[ks.len() - 1] == k);
            }
        } else {
            assert(m1 == m0);
            assert(ks.contains(fp(alg, s.last())) == ks.drop_last().contains(
                fp(alg, s.last()),
            )) by {
                if ks.contains(fp(alg, s.last())) {
                    let w = choose|w: int| 0 <= w < ks.len() && ks[w] == fp(alg, s.last());
                    assert(w < ks.len() - 1);
                    assert(ks.drop_last()[w] == ks[w]);
                }
                if ks.drop_last().contains(fp(alg, s.last())) {
                    let w = choose|w: int|
                        0 <= w < ks.drop_last().len() && ks.drop_last()[w] == fp(alg, s.last());
                    assert(ks[w] == fp(alg, s.last()));
                }
            }
        }
    }
}

/// Distinct keys name disjoint member groups, so their byte totals sum to no
/// more than the whole.
pub proof fn lemma_members_sum_le_total(s: Seq<VfsFile>, alg: HashAlgorithm, ks: Seq<Seq<char>>)
    requires
        distinct_keys(ks),
    ensures
        0 <= members_sum(s, alg, ks) <= total_bytes(s),
    decreases s.len(),
{
    if s.len() == 0 {
        assert(s =~= Seq::<VfsFile>::empty());
        lemma_members_sum_empty(alg, ks);
    } else {
        lemma_members_sum_le_total(s.drop_last(), alg, ks);
        lemma_members_sum_step(s, alg, ks);
    }
}

/// A file at position `i` whose fingerprint is `k` appears in `k`'s member
/// group.
pub proof fn lemma_members_contains(s: Seq<VfsFile>, alg: HashAlgorithm, k: Seq<char>, i: int)
    requires
        0 <= i < s.len(),
        fp(alg, s[i]) == k,
    ensures
        members(s, alg, k).contains(s[i]),
        members(s, alg, k).len() >= 1,
    decreases s.len(),
{
    if i == s.len() - 1 {
        let m = members(s, alg, k);
        assert(m.last() == s[i]);
        assert(m[m.len() - 1] == s[i]);
    } else {
        lemma_members_contains(s.drop_last(), alg, k, i);
        let m0 = members(s.drop_last(), alg, k);
        let w = choose|w: int| 0 <= w < m0.len() && m0[w] == s[i];
        if fp(alg, s.last()) == k {
            assert(m0.push(s.last())[w] == s[i]);
        }
    }
}

/// Two distinct positions with fingerprint `k` give `k`'s member group at
/// least two files.
pub proof fn lemma_members_two(s: Seq<VfsFile>, alg: HashAlgorithm, k: Seq<char>, i: int, j: int)
    requires
        0 <= i < j < s.len(),
        fp(alg, s[i]) == k,
        fp(alg, s[j]) == k,
    ensures
        members(s, alg, k).len() >= 2,
    decreases s.len(),
{
    if j == s.len() - 1 {
        lemma_members_contains(s.drop_last(), alg, k, i);
    } else {
        lemma_members_two(s.drop_last(), alg, k, i, j);
    }
}

/// Every file in a member group has that group's fingerprint.
pub proof fn lemma_members_fp(s: Seq<VfsFile>, alg: HashAlgorithm, k: Seq<char>)
    ensures
        forall|m: int|
            0 <= m < members(s, alg, k).len() ==> fp(alg, #[trigger] members(s, alg, k)[m]) == k,
    decreases s.len(),
{
    if s.len() > 0 {
        lemma_members_fp(s.drop_last(), alg, k);
        let m0 = members(s.drop_last(), alg, k);
        assert forall|m: int|
            0 <= m < members(s, alg, k).len() implies fp(alg, #[trigger] members(s, alg, k)[m])
            == k by {
            if fp(alg, s.last()) == k {
                if m < m0.len() {
                    assert(members(s, alg, k)[m] == m0[m]);
                } else {
                    assert(members(s, alg, k)[m] == s.last());
                }
            }
        }
    }
}

/// A key of `ks` with two or more members is kept by `keys_with_dups`.
pub proof fn lemma_keys_with_dups_keeps(
    s: Seq<VfsFile>,
    alg: HashAlgorithm,
    ks: Seq<Seq<char>>,
    k: Seq<char>,
)
    requires
        ks.contains(k),
        members(s, alg, k).len() >= 2,
    ensures
        keys_with_dups(s, alg, ks).contains(k),
    decreases ks.len(),
{
    if ks.len() > 0 {
        let r = keys_with_dups(s, alg, ks);
        if ks.last() == k {
            assert(r.last() == k);
            assert(r[r.len() - 1] == k);
        } else {
            let w = choose|w: int| 0 <= w < ks.len() && ks[w] == k;
            assert(ks.drop_last()[w] == k);
            lemma_keys_with_dups_keeps(s, alg, ks.drop_last(), k);
            let r0 = keys_with_dups(s, alg, ks.drop_last());
            let v = choose|v: int| 0 <= v < r0.len() && r0[v] == k;
            if members(s, alg, ks.last()).len() >= 2 {
                assert(r0.push(ks.last())[v] == k);
            }
        }
    }
}

/// LAW: two files with identical byte content fall into one duplicate group
/// together — their shared fingerprint names exactly one group (keys are
/// distinct), both files are among that group's members, and every member of
/// any group carries that group's fingerprint, so a file whose fingerprint
/// differs is in no group with them.
pub proof fn lemma_duplicate_grouping(s: Seq<VfsFile>, alg: HashAlgorithm, i: int, j: int)
    requires
        0 <= i < j < s.len(),
        s[i].content@ == s[j].content@,
    ensures
        fp(alg, s[i]) == fp(alg, s[j]),
        dup_keys(s, alg).contains(fp(alg, s[i])),
        distinct_keys(dup_keys(s, alg)),
        members(s, alg, fp(alg, s[i])).contains(s[i]),
        members(s, alg, fp(alg, s[i])).contains(s[j]),
        forall|k: Seq<char>, m: int|
            0 <= m < members(s, alg, k).len() ==> fp(alg, #[trigger] members(s, alg, k)[m]) == k,
{
    let k = fp(alg, s[i]);
    lemma_members_two(s, alg, k, i, j);
    lemma_members_contains(s, alg, k, i);
    lemma_members_contains(s, alg, k, j);
    lemma_group_keys_member_count(s, alg, k);
    lemma_group_keys_distinct(s, alg);
    lemma_keys_with_dups_keeps(s, alg, group_keys(s, alg), k);
    lemma_keys_with_dups(s, alg, group_keys(s, alg));
    assert forall|kk: Seq<char>, m: int|
        0 <= m < members(s, alg, kk).len() implies fp(alg, #[trigger] members(s, alg, kk)[m])
        == kk by {
        lemma_members_fp(s, alg, kk);
    }
}

/// Group savings are nonnegative and bounded by the groups' byte totals.
pub proof fn lemma_savings_le_members_sum(s: Seq<VfsFile>, alg: HashAlgorithm, ks: Seq<Seq<char>>)
    requires
        forall|i: int| 0 <= i < ks.len() ==> members(s, alg, #[trigger] ks[i]).len() >= 1,
    ensures
        0 <= savings_sum(s, alg, ks) <= members_sum(s, alg, ks),
    decreases ks.len(),
{
    if ks.len() > 0 {
        assert(forall|i: int|
            0 <= i < ks.drop_last().len() ==> ks.drop_last()[i] == ks[i]);
        lemma_savings_le_members_sum(s, alg, ks.drop_last());
        assert(ks[ks.len() - 1] == ks.last());
        lemma_first_le_total(members(s, alg, ks.last()));
        lemma_members_le_total(s, alg, ks.last());
        lemma_total_bytes_nonneg(members(s, alg, ks.last()));
    }
}

/// Total size in bytes over a sequence of result entities.
pub open spec fn ent_sum(es: Seq<FileEntity>) -> int
    decreases es.len(),
{
    if es.len() == 0 {
        0
    } else {
        ent_sum(es.drop_last()) + es.last().size
    }
}

/// A result group's reclaimable bytes: its total size minus its first
/// member's size; an empty group reclaims nothing.
pub open spec fn ent_group_savings(es: Seq<FileEntity>) -> int {
    if es.len() == 0 {
        0
    } else {
        ent_sum(es) - es[0].size
    }
}

/// Reclaimable bytes over a sequence of result groups.
pub open spec fn ent_savings_sum(gs: Seq<Seq<FileEntity>>) -> int
    decreases gs.len(),
{
    if gs.len() == 0 {
        0
    } else {
        ent_savings_sum(gs.drop_last()) + ent_group_savings(gs.last())
    }
}

/// The views of a sequence of entity vectors.
pub open spec fn group_views(gs: Seq<Vec<FileEntity>>) -> Seq<Seq<FileEntity>> {
    gs.map_values(|v: Vec<FileEntity>| v@)
}

pub proof fn lemma_ent_sum_nonneg(es: Seq<FileEntity>)
    ensures
        ent_sum(es) >= 0,
    decreases es.len(),
{
    if es.len() > 0 {
        lemma_ent_sum_nonneg(es.drop_last());
    }
}

pub proof fn lemma_ent_sum_prefix_le(es: Seq<FileEntity>, k: int)
    requires
        0 <= k <= es.len(),
    ensures
        ent_sum(es.take(k)) <= ent_sum(es),
    decreases es.len() - k,
{
    if k < es.len() {
        lemma_ent_sum_prefix_le(es, k + 1);
        assert(es.take(k + 1).drop_last() =~= es.take(k));
    } else {
        assert(es.take(k) =~= es);
    }
}

pub proof fn lemma_ent_first_le_sum(es: Seq<FileEntity>)
    requires
        es.len() >= 1,
    ensures
        ent_sum(es) >= es[0].size,
    decreases es.len(),
{
    if es.len() == 1 {
        assert(es.last() == es[0]);
        assert(ent_sum(es.drop_last()) == 0);
    } else {
        lemma_ent_first_le_sum(es.drop_last());
        assert(es.drop_last()[0] == es[0]);
    }
}

/// Every result group reclaims a nonnegative number of bytes.
pub proof fn lemma_ent_group_savings_nonneg(es: Seq<FileEntity>)
    ensures
        ent_group_savings(es) >= 0,
{
    if es.len() >= 1 {
        lemma_ent_first_le_sum(es);
    }
}

pub proof fn lemma_ent_savings_nonneg(gs: Seq<Seq<FileEntity>>)
    ensures
        ent_savings_sum(gs) >= 0,
    decreases gs.len(),
{
    if gs.len() > 0 {
        lemma_ent_savings_nonneg(gs.drop_last());
        lemma_ent_group_savings_nonneg(gs.last());
    }
}

pub proof fn lemma_ent_savings_prefix_le(gs: Seq<Seq<FileEntity>>, k: int)
    requires
        0 <= k <= gs.len(),
    ensures
        0 <= ent_savings_sum(gs.take(k)) <= ent_savings_sum(gs),
    decreases gs.len() - k,
{
    lemma_ent_savings_nonneg(gs.take(k));
    if k < gs.len() {
        lemma_ent_savings_prefix_le(gs, k + 1);
        assert(gs.take(k + 1).drop_last() =~= gs.take(k));
        lemma_ent_group_savings_nonneg(gs.take(k + 1).last());
    } else {
        assert(gs.take(k) =~= gs);
    }
}

proof fn lemma_ent_sum_uniform(es: Seq<FileEntity>, size: u64)
    requires
        forall|i: int| 0 <= i < es.len() ==> es[i].size == size,
    ensures
        ent_sum(es) == es.len() * size,
    decreases es.len(),
{
    if es.len() > 0 {
        lemma_ent_sum_uniform(es.drop_last(), size);
        assert((es.len() - 1) * size + size == es.len() * size) by (nonlinear_arith);
    }
}

/// LAW: a group of N files of one common size S reclaims exactly
/// (N - 1) * S bytes.
pub proof fn lemma_uniform_group_savings(es: Seq<FileEntity>, size: u64)
    requires
        es.len() >= 1,
        forall|i: int| 0 <= i < es.len() ==> es[i].size == size,
    ensures
        ent_group_savings(es) == (es.len() - 1) * size,
{
    lemma_ent_sum_uniform(es, size);
    assert(es.len() * size - size == (es.len() - 1) * size) by (nonlinear_arith);
}

/// The views of a sequence of key strings.
pub open spec fn kviews(ks: Seq<String>) -> Seq<Seq<char>> {
    ks.map_values(|k: String| k@)
}

/// The files named by a sequence of indices into `files`.
pub open spec fn idx_files(idxs: Seq<usize>, files: Seq<VfsFile>) -> Seq<VfsFile> {
    idxs.map_values(|k: usize| files[k as int])
}

/// A correct detection outcome over the candidate files `s`: one result group
/// per shared fingerprint, in first-occurrence order, each listing exactly
/// that fingerprint's files.
pub open spec fn groups_match(
    gs: Seq<Vec<FileEntity>>,
    s: Seq<VfsFile>,
    alg: HashAlgorithm,
) -> bool {
    &&& gs.len() == dup_keys(s, alg).len()
    &&& forall|g: int|
        0 <= g < gs.len() ==> entities_match(gs[g]@, members(s, alg, dup_keys(s, alg)[g]))
}

/// The outcome of a detection pass.
#[derive(Debug)]
pub struct DuplicateResult {
    /// Groups of files with identical fingerprints; each group has two or
    /// more members, in discovery order.
    pub duplicates: Vec<Vec<FileEntity>>,
    /// Bytes reclaimable by keeping one file of each group.
    pub potential_savings: u64,
}

/// Finds groups of files with identical content fingerprints.
#[derive(Clone, Copy, Debug)]
pub struct DuplicateDetector {
    /// The fingerprint algorithm for every file of one pass.
    pub algorithm: HashAlgorithm,
}

impl Default for DuplicateDetector {
    /// A detector with the default (cryptographic) algorithm.
    fn default() -> (r: Self)
        ensures
            r.algorithm == HashAlgorithm::Blake3,
    {
        DuplicateDetector { algorithm: HashAlgorithm::Blake3 }
    }
}

/// The index of the key equal to `fpt`, when one is present.
fn find_key(gkeys: &Vec<String>, fpt: &str) -> (r: Option<usize>)
    ensures
        match r {
            Some(g) => g < gkeys@.len() && gkeys@[g as int]@ == fpt@,
            None => forall|h: int| 0 <= h < gkeys@.len() ==> gkeys@[h]@ != fpt@,
        },
{
    let n = gkeys.len();
    let mut g: usize = 0;
    while g < n
        invariant
            0 <= g <= n,
            n == gkeys@.len(),
            forall|h: int| 0 <= h < g ==> gkeys@[h]@ != fpt@,
        decreases n - g,
    {
        if crate::strings::str_eq(gkeys[g].as_str(), fpt) {
            return Some(g);
        }
        g += 1;
    }
    None
}

impl DuplicateDetector {
    /// A detector using the default (cryptographic) algorithm.
    pub fn new() -> (r: Self)
        ensures
            r.algorithm == HashAlgorithm::Blake3,
    {
        DuplicateDetector { algorithm: HashAlgorithm::Blake3 }
    }

    /// A detector using the given algorithm.
    pub fn with_algorithm(algorithm: HashAlgorithm) -> (r: Self)
        ensures
            r.algorithm == algorithm,
    {
        DuplicateDetector { algorithm }
    }

    /// Add up the reclaimable bytes of already-computed duplicate groups:
    /// every group's total size beyond its first member. The bounds in
    /// `requires` only keep the machine sums inside `u64`.
    pub fn calculate_savings(duplicates: &[Vec<FileEntity>]) -> (r: u64)
        requires
            forall|g: int|
                0 <= g < duplicates@.len() ==> ent_sum(#[trigger] duplicates@[g]@) <= u64::MAX,
            ent_savings_sum(group_views(duplicates@)) <= u64::MAX,
        ensures
            r == ent_savings_sum(group_views(duplicates@)),
    {
        let ghost gv = group_views(duplicates@);
        let n = duplicates.len();
        let mut savings: u64 = 0;
        let mut g: usize = 0;
        proof {
            assert(gv.take(0) =~= Seq::<Seq<FileEntity>>::empty());
        }
        while g < n
            invariant
                0 <= g <= n,
                n == duplicates@.len(),
                gv == group_views(duplicates@),
                forall|h: int|
                    0 <= h < duplicates@.len() ==> ent_sum(#[trigger] duplicates@[h]@)
                        <= u64::MAX,
                ent_savings_sum(gv) <= u64::MAX,
                savings == ent_savings_sum(gv.take(g as int)),
            decreases n - g,
        {
            proof {
                assert(gv.take(g + 1).drop_last() =~= gv.take(g as int));
                assert(gv.take(g + 1).last() == gv[g as int]);
                assert(gv[g as int] == duplicates@[g as int]@);
            }
            let group = &duplicates[g];
            let m = group.len();
            let ghost es = duplicates@[g as int]@;
            let mut gsum: u64 = 0;
            let mut j: usize = 0;
            proof {
                assert(es.take(0) =~= Seq::<FileEntity>::empty());
            }
            while j < m
                invariant
                    0 <= j <= m,
                    m == es.len(),
                    es == group@,
                    ent_sum(es) <= u64::MAX,
                    gsum == ent_sum(es.take(j as int)),
                decreases m - j,
            {
                proof {
                    assert(es.take(j + 1).drop_last() =~= es.take(j as int));
                    assert(es.take(j + 1).last() == es[j as int]);
                    lemma_ent_sum_prefix_le(es, j + 1);
                    lemma_ent_sum_nonneg(es.take(j as int));
                }
                gsum = gsum + group[j].size;
                j += 1;
            }
            proof {
                assert(es.take(m as int) =~= es);
            }
            let keep_one = if m > 0 {
                group[0].size
            } else {
                0
            };
            proof {
                if m > 0 {
                    lemma_ent_first_le_sum(es);
                }
                lemma_ent_savings_prefix_le(gv, g + 1);
            }
            savings = savings + (gsum - keep_one);
            g += 1;
        }
        proof {
            assert(gv.take(n as int) =~= gv);
        }
        savings
    }

    /// Find all duplicate groups under the scan root `path`.
    ///
    /// Fails with `NotFound` exactly when `path` is not a registered root.
    /// On success the result groups are the shared fingerprints of the
    /// qualifying files (those under `path` with size at least `min_size`),
    /// and `potential_savings` counts every group's bytes beyond its first
    /// member.
    pub fn find_duplicates(&self, fs: &VirtualFs, path: &FilePath, min_size: u64) -> (r: Result<
        DuplicateResult,
        Error,
    >)
        requires
            fs.wf(),
        ensures
            match r {
                Ok(res) => {
                    &&& fs.dir_exists(path.0@)
                    &&& groups_match(
                        res.duplicates@,
                        candidates(fs.files@, path.0@, min_size),
                        self.algorithm,
                    )
                    &&& res.potential_savings == potential_savings_of(
                        candidates(fs.files@, path.0@, min_size),
                        self.algorithm,
                    )
                },
                Err(e) => !fs.dir_exists(path.0@) && e is NotFound,
            },
    {
        let ghost rootv = path.0@;
        let ghost alg = self.algorithm;
        let root_str = path.as_str();
        if !fs.has_dir(root_str) {
            let mut msg = "Path does not exist: ".to_owned();
            msg.append(root_str);
            return Err(Error::NotFound(msg));
        }

        // Pass 1: collect the indices of the qualifying files, in order.
        let n = fs.files.len();
        let mut idxs: Vec<usize> = Vec::new();
        let mut i: usize = 0;
        proof {
            assert(fs.files@.subrange(0, 0) =~= Seq::<VfsFile>::empty());
            assert(idx_files(idxs@, fs.files@) =~= Seq::<VfsFile>::empty());
        }
        while i < n
            invariant
                0 <= i <= n,
                n == fs.files@.len(),
                fs.wf(),
                idx_files(idxs@, fs.files@) == candidates(
                    fs.files@.subrange(0, i as int),
                    rootv,
                    min_size,
                ),
                forall|t: int| 0 <= t < idxs@.len() ==> idxs@[t] < fs.files@.len(),
                rootv == path.0@,
                root_str@ == rootv,
            decreases n - i,
        {
            proof {
                assert(fs.files@.subrange(0, i + 1).drop_last() =~= fs.files@.subrange(
                    0,
                    i as int,
                ));
                assert(fs.files@.subrange(0, i + 1).last() == fs.files@[i as int]);
            }
            let f = &fs.files[i];
            if crate::strings::str_eq(f.dir.as_str(), root_str) && f.content.len() as u64
                >= min_size {
                let ghost before = idxs@;
                idxs.push(i);
                proof {
                    assert(idx_files(idxs@, fs.files@) =~= idx_files(before, fs.files@).push(
                        fs.files@[i as int],
                    ));
                }
            }
            i += 1;
        }
        proof {
            assert(fs.files@.subrange(0, n as int) =~= fs.files@);
        }
        let ghost cand = candidates(fs.files@, rootv, min_size);

        // Pass 2: group the candidates by fingerprint, preserving discovery
        // order of both keys and members.
        let m = idxs.len();
        let mut gkeys: Vec<String> = Vec::new();
        let mut gidx: Vec<Vec<usize>> = Vec::new();
        let mut t: usize = 0;
        proof {
            assert(cand.take(0) =~= Seq::<VfsFile>::empty());
            assert(kviews(gkeys@) =~= Seq::<Seq<char>>::empty());
        }
        while t < m
            invariant
                0 <= t <= m,
                m == idxs@.len(),
                fs.wf(),
                forall|u: int| 0 <= u < m ==> idxs@[u] < fs.files@.len(),
                cand == idx_files(idxs@, fs.files@),
                cand == candidates(fs.files@, rootv, min_size),
                gidx@.len() == gkeys@.len(),
                kviews(gkeys@) == group_keys(cand.take(t as int), alg),
                alg == self.algorithm,
                forall|g: int, u: int|
                    0 <= g < gidx@.len() && 0 <= u < gidx@[g]@.len() ==> #[trigger] gidx@[g]@[u]
                        < fs.files@.len(),
                forall|g: int|
                    0 <= g < gidx@.len() ==> idx_files(#[trigger] gidx@[g]@, fs.files@) == members(
                        cand.take(t as int),
                        alg,
                        kviews(gkeys@)[g],
                    ),
            decreases m - t,
        {
            let i = idxs[t];
            let fpt = hash_bytes(self.algorithm, fs.files[i].content.as_slice());
            proof {
                assert(cand.take(t + 1).drop_last() =~= cand.take(t as int));
                assert(cand[t as int] == fs.files@[idxs@[t as int] as int]);
                assert(cand.take(t + 1).last() == cand[t as int]);
                assert(fpt@ == fp(alg, cand[t as int]));
                lemma_group_keys_distinct(cand.take(t as int), alg);
            }
            let ghost kt = group_keys(cand.take(t as int), alg);
            match find_key(&gkeys, fpt.as_str()) {
                Some(g) => {
                    proof {
                        assert(kt.contains(fpt@)) by {
                            assert(kt[g as int] == fpt@);
                        }
                        assert(group_keys(cand.take(t + 1), alg) == kt);
                    }
                    let ghost old_gidx = gidx@;
                    let mut row = gidx.remove(g);
                    let ghost old_row = row@;
                    row.push(i);
                    gidx.insert(g, row);
                    proof {
                        assert(gidx@ =~= old_gidx.update(g as int, gidx@[g as int]));
                        assert(gidx@[g as int]@ == old_row.push(i));
                        assert(idx_files(old_row.push(i), fs.files@) =~= idx_files(
                            old_row,
                            fs.files@,
                        ).push(fs.files@[i as int]));
                        assert forall|h: int| 0 <= h < gidx@.len() implies idx_files(
                            #[trigger] gidx@[h]@,
                            fs.files@,
                        ) == members(cand.take(t + 1), alg, kviews(gkeys@)[h]) by {
                            if h == g {
                                assert(members(cand.take(t + 1), alg, fpt@) == members(
                                    cand.take(t as int),
                                    alg,
                                    fpt@,
                                ).push(cand[t as int]));
                            } else {
                                assert(kviews(gkeys@)[h] != fpt@);
                                assert(members(cand.take(t + 1), alg, kviews(gkeys@)[h])
                                    == members(cand.take(t as int), alg, kviews(gkeys@)[h]));
                            }
                        }
                    }
                },
                None => {
                    proof {
                        assert(!kt.contains(fpt@)) by {
                            if kt.contains(fpt@) {
                                let w = choose|w: int| 0 <= w < kt.len() && kt[w] == fpt@;
                                assert(gkeys@[w]@ == fpt@);
                            }
                        }
                        assert(group_keys(cand.take(t + 1), alg) == kt.push(fpt@));
                        lemma_group_keys_member_count(cand.take(t as int), alg, fpt@);
                        assert(members(cand.take(t as int), alg, fpt@).len() == 0);
                        assert(members(cand.take(t as int), alg, fpt@)
                            =~= Seq::<VfsFile>::empty());
                    }
                    let ghost old_gkeys = gkeys@;
                    let ghost old_gidx = gidx@;
                    gkeys.push(fpt);
                    let mut row: Vec<usize> = Vec::new();
                    row.push(i);
                    gidx.push(row);
                    proof {
                        assert(kviews(gkeys@) =~= kviews(old_gkeys).push(gkeys@.last()@));
                        assert(members(cand.take(t + 1), alg, kviews(gkeys@).last()) == members(
                            cand.take(t as int),
                            alg,
                            kviews(gkeys@).last(),
                        ).push(cand[t as int]));
                        assert forall|h: int| 0 <= h < gidx@.len() implies idx_files(
                            #[trigger] gidx@[h]@,
                            fs.files@,
                        ) == members(cand.take(t + 1), alg, kviews(gkeys@)[h]) by {
                            if h < old_gidx.len() {
                                assert(gidx@[h] == old_gidx[h]);
                                assert(kviews(gkeys@)[h] == kviews(old_gkeys)[h]);
                                assert(kviews(old_gkeys)[h] != fpt@);
                                assert(members(cand.take(t + 1), alg, kviews(gkeys@)[h])
                                    == members(cand.take(t as int), alg, kviews(gkeys@)[h]));
                            } else {
                                assert(gidx@[h]@ == seq![i]);
                                assert(idx_files(seq![i], fs.files@) =~= Seq::<
                                    VfsFile,
                                >::empty().push(fs.files@[i as int]));
                            }
                        }
                    }
                },
            }
            t += 1;
        }
        proof {
            assert(cand.take(m as int) =~= cand);
        }
        let ghost kk = group_keys(cand, alg);

        // Pass 3: keep the groups with two or more members and add up the
        // reclaimable bytes.
        let g_total = gkeys.len();
        let mut groups: Vec<Vec<FileEntity>> = Vec::new();
        let mut savings: u64 = 0;
        let mut g: usize = 0;
        proof {
            assert(kk.take(0) =~= Seq::<Seq<char>>::empty());
        }
        while g < g_total
            invariant
                0 <= g <= g_total,
                g_total == gkeys@.len(),
                gidx@.len() == gkeys@.len(),
                fs.wf(),
                cand == candidates(fs.files@, rootv, min_size),
                kviews(gkeys@) == kk,
                kk == group_keys(cand, alg),
                alg == self.algorithm,
                rootv == path.0@,
                forall|h: int, u: int|
                    0 <= h < gidx@.len() && 0 <= u < gidx@[h]@.len() ==> #[trigger] gidx@[h]@[u]
                        < fs.files@.len(),
                forall|h: int|
                    0 <= h < gidx@.len() ==> idx_files(#[trigger] gidx@[h]@, fs.files@) == members(
                        cand,
                        alg,
                        kk[h],
                    ),
                groups@.len() == keys_with_dups(cand, alg, kk.take(g as int)).len(),
                forall|h: int|
                    0 <= h < groups@.len() ==> entities_match(
                        #[trigger] groups@[h]@,
                        members(cand, alg, keys_with_dups(cand, alg, kk.take(g as int))[h]),
                    ),
                savings == savings_sum(cand, alg, keys_with_dups(cand, alg, kk.take(g as int))),
            decreases g_total - g,
        {
            proof {
                assert(kk.take(g + 1).drop_last() =~= kk.take(g as int));
                assert(kk.take(g + 1).last() == kk[g as int]);
            }
            let ghost mem = members(cand, alg, kk[g as int]);
            let row_len = gidx[g].len();
            proof {
                assert(row_len == mem.len());
            }
            if row_len >= 2 {
                proof {
                    lemma_members_le_total(cand, alg, kk[g as int]);
                    lemma_candidates_le_total(fs.files@, rootv, min_size);
                }
                let mut ents: Vec<FileEntity> = Vec::new();
                let mut gsum: u64 = 0;
                let mut j: usize = 0;
                proof {
                    assert(mem.take(0) =~= Seq::<VfsFile>::empty());
                }
                while j < row_len
                    invariant
                        0 <= j <= row_len,
                        fs.wf(),
                        g < gidx@.len(),
                        row_len == gidx@[g as int]@.len(),
                        row_len == mem.len(),
                        forall|u: int|
                            0 <= u < gidx@[g as int]@.len() ==> #[trigger] gidx@[g as int]@[u]
                                < fs.files@.len(),
                        idx_files(gidx@[g as int]@, fs.files@) == mem,
                        total_bytes(mem) <= u64::MAX,
                        entities_match(ents@, mem.take(j as int)),
                        gsum == total_bytes(mem.take(j as int)),
                    decreases row_len - j,
                {
                    proof {
                        assert(mem.take(j + 1).drop_last() =~= mem.take(j as int));
                        assert(mem[j as int] == fs.files@[gidx@[g as int]@[j as int] as int]);
                        assert(mem.take(j + 1).last() == mem[j as int]);
                        lemma_total_bytes_prefix_le(mem, j + 1);
                        lemma_total_bytes_nonneg(mem.take(j as int));
                    }
                    let idx = gidx[g][j];
                    let fref = &fs.files[idx];
                    ents.push(FileEntity { path: fref.path.clone(), size: fref.content.len() as u64 });
                    gsum = gsum + fref.content.len() as u64;
                    j += 1;
                }
                proof {
                    assert(mem.take(row_len as int) =~= mem);
                }
                let first_size = ents[0].size;
                proof {
                    lemma_first_le_total(mem);
                    assert(first_size == mem[0].content@.len());
                }
                let gsavings = gsum - first_size;
                let ghost dk_old = keys_with_dups(cand, alg, kk.take(g as int));
                let ghost dk_new = keys_with_dups(cand, alg, kk.take(g + 1));
                proof {
                    assert(dk_new == dk_old.push(kk[g as int]));
                    assert(dk_old.push(kk[g as int]).drop_last() =~= dk_old);
                    assert(savings_sum(cand, alg, dk_new) == savings_sum(cand, alg, dk_old)
                        + group_savings(mem));
                    lemma_group_keys_distinct(cand, alg);
                    assert(distinct_keys(kk.take(g + 1))) by {
                        assert(forall|a: int|
                            0 <= a < kk.take(g + 1).len() ==> kk.take(g + 1)[a] == kk[a]);
                    }
                    lemma_keys_with_dups(cand, alg, kk.take(g + 1));
                    lemma_savings_le_members_sum(cand, alg, dk_new);
                    lemma_members_sum_le_total(cand, alg, dk_new);
                }
                savings = savings + gsavings;
                let ghost old_groups = groups@;
                groups.push(ents);
                proof {
                    assert forall|h: int| 0 <= h < groups@.len() implies entities_match(
                        #[trigger] groups@[h]@,
                        members(cand, alg, dk_new[h]),
                    ) by {
                        if h < old_groups.len() {
                            assert(groups@[h] == old_groups[h]);
                            assert(dk_new[h] == dk_old[h]);
                        } else {
                            assert(groups@[h]@ == ents@);
                            assert(dk_new[h] == kk[g as int]);
                        }
                    }
                }
            } else {
                proof {
                    assert(keys_with_dups(cand, alg, kk.take(g + 1)) == keys_with_dups(
                        cand,
                        alg,
                        kk.take(g as int),
                    ));
                }
            }
            g += 1;
        }
        proof {
            assert(kk.take(g_total as int) =~= kk);
        }
        Ok(DuplicateResult { duplicates: groups, potential_savings: savings })
    }
}

} // verus!
