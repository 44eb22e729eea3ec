//! An explicit model of the directory trees the library works on.
//!
//! A [`VirtualFs`] is a set of scan roots (directories) and the regular files
//! found under them, each file carrying its full byte content. Surrounding
//! code loads real directories into this value, the library's verified
//! operations inspect and transform it, and the surrounding code writes the
//! outcome back to disk. A file belongs to the scan root it was found under.

use vstd::prelude::*;

use crate::error::Error;

verus! {

/// One regular file: the scan root it was found under, its full path, and
/// its content.
#[derive(Debug)]
pub struct VfsFile {
    /// The scan root this file was found under.
    pub dir: String,
    /// The file's full path; unique within one [`VirtualFs`].
    pub path: String,
    /// The file's bytes. The file's size is the length of this vector.
    pub content: Vec<u8>,
}

impl Clone for VfsFile {
    fn clone(&self) -> (r: Self)
        ensures
            r.dir@ == self.dir@,
            r.path@ == self.path@,
            r.content@ == self.content@,
    {
        VfsFile { dir: self.dir.clone(), path: self.path.clone(), content: self.content.clone() }
    }
}

/// Total number of content bytes held by a sequence of files.
pub open spec fn total_bytes(s: Seq<VfsFile>) -> int
    decreases s.len(),
{
    if s.len() == 0 {
        0
    } else {
        total_bytes(s.drop_last()) + s.last().content@.len()
    }
}

pub proof fn lemma_total_bytes_nonneg(s: Seq<VfsFile>)
    ensures
        total_bytes(s) >= 0,
    decreases s.len(),
{
    if s.len() > 0 {
        lemma_total_bytes_nonneg(s.drop_last());
    }
}

pub proof fn lemma_total_bytes_remove(s: Seq<VfsFile>, i: int)
    requires
        0 <= i < s.len(),
    ensures
        total_bytes(s.remove(i)) == total_bytes(s) - s[i].content@.len(),
    decreases s.len(),
{
    if i == s.len() - 1 {
        assert(s.remove(i) =~= s.drop_last());
    } else {
        assert(s.remove(i).drop_last() =~= s.drop_last().remove(i));
        lemma_total_bytes_remove(s.drop_last(), i);
        assert(s.remove(i).last() == s.last());
    }
}

/// A modeled filesystem: scan roots and the files under them.
#[derive(Debug)]
pub struct VirtualFs {
    /// The scan roots that exist.
    pub dirs: Vec<String>,
    /// The files that exist, with unique paths.
    pub files: Vec<VfsFile>,
}

impl VirtualFs {
    /// Well-formedness: paths are unique, roots are unique, and the held
    /// bytes fit in a `u64` total (so that size arithmetic cannot overflow).
    pub open spec fn wf(&self) -> bool {
        &&& forall|i: int, j: int|
            0 <= i < j < self.files@.len() ==> self.files@[i].path@ != self.files@[j].path@
        &&& forall|i: int, j: int|
            0 <= i < j < self.dirs@.len() ==> self.dirs@[i]@ != self.dirs@[j]@
        &&& total_bytes(self.files@) <= u64::MAX
    }

    /// Whether a scan root named `d` exists.
    pub open spec fn dir_exists(&self, d: Seq<char>) -> bool {
        exists|i: int| 0 <= i < self.dirs@.len() && self.dirs@[i]@ == d
    }

    /// Whether a file with path `p` exists.
    pub open spec fn has_file(&self, p: Seq<char>) -> bool {
        exists|i: int| 0 <= i < self.files@.len() && self.files@[i].path@ == p
    }

    /// The content of the file with path `p`, when one exists.
    pub open spec fn content_of(&self, p: Seq<char>) -> Seq<u8> {
        let i = choose|i: int| 0 <= i < self.files@.len() && self.files@[i].path@ == p;
        self.files@[i].content@
    }

    /// An empty filesystem model.
    pub fn new() -> (r: Self)
        ensures
            r.dirs@.len() == 0,
            r.files@.len() == 0,
            r.wf(),
    {
        VirtualFs { dirs: Vec::new(), files: Vec::new() }
    }

    /// Register a scan root. Registering one that already exists changes
    /// nothing.
    pub fn add_dir(&mut self, dir: String)
        requires
            old(self).wf(),
        ensures
            final(self).wf(),
            final(self).files@ == old(self).files@,
            old(self).dir_exists(dir@) ==> final(self).dirs@ == old(self).dirs@,
            !old(self).dir_exists(dir@) ==> final(self).dirs@ == old(self).dirs@.push(dir),
            final(self).dir_exists(dir@),
            forall|d: Seq<char>| old(self).dir_exists(d) ==> final(self).dir_exists(d),
    {
        let n = self.dirs.len();
        let mut i: usize = 0;
        while i < n
            invariant
                0 <= i <= n,
                n == self.dirs@.len(),
                self.wf(),
                self.dirs@ == old(self).dirs@,
                self.files@ == old(self).files@,
                forall|j: int| 0 <= j < i ==> self.dirs@[j]@ != dir@,
            decreases n - i,
        {
            if crate::strings::str_eq(self.dirs[i].as_str(), dir.as_str()) {
                assert(self.dir_exists(dir@));
                return;
            }
            i += 1;
        }
        self.dirs.push(dir);
        assert(self.dir_exists(dir@)) by {
            assert(self.dirs@[self.dirs@.len() - 1]@ == dir@);
        }
        assert forall|d: Seq<char>| old(self).dir_exists(d) implies self.dir_exists(d) by {
            let i = choose|i: int| 0 <= i < old(self).dirs@.len() && old(self).dirs@[i]@ == d;
            assert(self.dirs@[i]@ == d);
        }
    }

    /// Whether a scan root named `d` exists, computed.
    pub fn has_dir(&self, d: &str) -> (r: bool)
        ensures
            r == self.dir_exists(d@),
    {
        let n = self.dirs.len();
        let mut i: usize = 0;
        while i < n
            invariant
                0 <= i <= n,
                n == self.dirs@.len(),
                forall|j: int| 0 <= j < i ==> self.dirs@[j]@ != d@,
            decreases n - i,
        {
            if crate::strings::str_eq(self.dirs[i].as_str(), d) {
                assert(self.dir_exists(d@));
                return true;
            }
            i += 1;
        }
        false
    }

    /// The index of the file with path `p`, when one exists.
    pub fn find_file(&self, p: &str) -> (r: Option<usize>)
        ensures
            match r {
                Some(i) => i < self.files@.len() && self.files@[i as int].path@ == p@,
                None => !self.has_file(p@),
            },
    {
        let n = self.files.len();
        let mut i: usize = 0;
        while i < n
            invariant
                0 <= i <= n,
                n == self.files@.len(),
                forall|j: int| 0 <= j < i ==> self.files@[j].path@ != p@,
            decreases n - i,
        {
            if crate::strings::str_eq(self.files[i].path.as_str(), p) {
                return Some(i);
            }
            i += 1;
        }
        None
    }

    /// Whether a file with path `p` exists, computed.
    pub fn file_exists(&self, p: &str) -> (r: bool)
        ensures
            r == self.has_file(p@),
    {
        match self.find_file(p) {
            Some(_) => true,
            None => false,
        }
    }

    /// Add a file under a registered scan root. Fails with `InvalidInput`
    /// when the root is not registered, a file with that path already
    /// exists, or the total held bytes would no longer fit in a `u64`.
    pub fn add_file(&mut self, dir: &str, path: &str, content: Vec<u8>) -> (r: Result<(), Error>)
        requires
            old(self).wf(),
        ensures
            final(self).wf(),
            final(self).dirs@ == old(self).dirs@,
            match r {
                Ok(()) => {
                    &&& old(self).dir_exists(dir@)
                    &&& !old(self).has_file(path@)
                    &&& total_bytes(old(self).files@) + content@.len() <= u64::MAX
                    &&& final(self).files@.len() == old(self).files@.len() + 1
                    &&& forall|j: int|
                        0 <= j < old(self).files@.len() ==> final(self).files@[j] == old(
                            self,
                        ).files@[j]
                    &&& final(self).files@.last().dir@ == dir@
                    &&& final(self).files@.last().path@ == path@
                    &&& final(self).files@.last().content@ == content@
                },
                Err(e) => {
                    &&& final(self).files@ == old(self).files@
                    &&& e is InvalidInput
                    &&& !(old(self).dir_exists(dir@) && !old(self).has_file(path@)
                        && total_bytes(old(self).files@) + content@.len() <= u64::MAX)
                },
            },
    {
        if !self.has_dir(dir) {
            return Err(Error::InvalidInput("file added under an unregistered root".to_owned()));
        }
        if self.file_exists(path) {
            return Err(Error::InvalidInput("a file with this path already exists".to_owned()));
        }
        let total = self.total_bytes_exec();
        proof {
            lemma_total_bytes_nonneg(self.files@);
        }
        if content.len() as u64 > u64::MAX - total {
            return Err(Error::InvalidInput("the model cannot hold this many bytes".to_owned()));
        }
        let f = VfsFile { dir: dir.to_owned(), path: path.to_owned(), content };
        proof {
            assert(self.files@.push(f).drop_last() =~= self.files@);
        }
        self.files.push(f);
        assert forall|i: int, j: int|
            0 <= i < j < self.files@.len() implies self.files@[i].path@ != self.files@[j].path@ by {
            if j == self.files@.len() - 1 {
                assert(!old(self).has_file(path@));
                assert(old(self).files@[i].path@ != path@);
            }
        }
        Ok(())
    }

    /// Remove the file with path `p` and hand it back, when one exists.
    pub fn remove_file(&mut self, p: &str) -> (r: Option<VfsFile>)
        requires
            old(self).wf(),
        ensures
            final(self).wf(),
            final(self).dirs@ == old(self).dirs@,
            match r {
                Some(f) => {
                    &&& old(self).has_file(p@)
                    &&& f.path@ == p@
                    &&& exists|i: int|
                        0 <= i < old(self).files@.len() && old(self).files@[i] == f
                            && final(self).files@ == old(self).files@.remove(i)
                    &&& !final(self).has_file(p@)
                },
                None => {
                    &&& !old(self).has_file(p@)
                    &&& final(self).files@ == old(self).files@
                },
            },
    {
        match self.find_file(p) {
            Some(i) => {
                proof {
                    lemma_total_bytes_remove(self.files@, i as int);
                    lemma_total_bytes_nonneg(self.files@.remove(i as int));
                }
                let f = self.files.remove(i);
                proof {
                    let fsold = old(self).files@;
                    assert(fsold[i as int] == f);
                    assert forall|a: int, b: int|
                        0 <= a < b < self.files@.len() implies self.files@[a].path@
                        != self.files@[b].path@ by {
                        let a0 = if a < i { a } else { a + 1 };
                        let b0 = if b < i { b } else { b + 1 };
                        assert(self.files@[a] == fsold[a0]);
                        assert(self.files@[b] == fsold[b0]);
                    }
                    assert(!self.has_file(p@)) by {
                        if exists|k: int| 0 <= k < self.files@.len() && self.files@[k].path@
                            == p@ {
                            let k = choose|k: int|
                                0 <= k < self.files@.len() && self.files@[k].path@ == p@;
                            let k0 = if k < i { k } else { k + 1 };
                            assert(fsold[k0].path@ == p@);
                            assert(fsold[i as int].path@ == p@);
                        }
                    }
                }
                Some(f)
            },
            None => None,
        }
    }

    /// Total number of content bytes held, computed.
    pub fn total_bytes_exec(&self) -> (r: u64)
        requires
            self.wf(),
        ensures
            r == total_bytes(self.files@),
    {
        let n = self.files.len();
        let mut sum: u64 = 0;
        let mut i: usize = 0;
        proof {
            assert(self.files@.subrange(0, 0) =~= Seq::<VfsFile>::empty());
        }
        while i < n
            invariant
                0 <= i <= n,
                n == self.files@.len(),
                self.wf(),
                sum == total_bytes(self.files@.subrange(0, i as int)),
            decreases n - i,
        {
            proof {
                let pre = self.files@.subrange(0, i as int);
                let post = self.files@.subrange(0, i + 1);
                assert(post.drop_last() =~= pre);
                lemma_total_bytes_nonneg(pre);
                lemma_total_bytes_prefix_le(self.files@, i + 1);
            }
            sum = sum + self.files[i].content.len() as u64;
            i += 1;
        }
        proof {
            assert(self.files@.subrange(0, n as int) =~= self.files@);
        }
        sum
    }
}

/// The file at a position is the one its path names.
pub proof fn lemma_content_of(fs: VirtualFs, i: int)
    requires
        fs.wf(),
        0 <= i < fs.files@.len(),
    ensures
        fs.has_file(fs.files@[i].path@),
        fs.content_of(fs.files@[i].path@) == fs.files@[i].content@,
{
    assert(fs.has_file(fs.files@[i].path@));
    let c = choose|c: int|
        0 <= c < fs.files@.len() && fs.files@[c].path@ == fs.files@[i].path@;
    assert(c == i);
}

/// Removing one file keeps every other file's value in place.
pub proof fn lemma_remove_keeps_others(files: Seq<VfsFile>, i: int)
    requires
        0 <= i < files.len(),
    ensures
        forall|w: int|
            0 <= w < files.len() && w != i ==> files.remove(i).contains(#[trigger] files[w]),
{
    assert forall|w: int|
        0 <= w < files.len() && w != i implies files.remove(i).contains(#[trigger] files[w]) by {
        let w2 = if w < i {
            w
        } else {
            w - 1
        };
        assert(files.remove(i)[w2] == files[w]);
    }
}

/// The byte total over a prefix never exceeds the byte total of the whole.
pub proof fn lemma_total_bytes_prefix_le(s: Seq<VfsFile>, k: int)
    requires
        0 <= k <= s.len(),
    ensures
        total_bytes(s.subrange(0, k)) <= total_bytes(s),
    decreases s.len() - k,
{
    if k < s.len() {
        lemma_total_bytes_prefix_le(s, k + 1);
        assert(s.subrange(0, k + 1).drop_last() =~= s.subrange(0, k));
        assert(total_bytes(s.subrange(0, k)) <= total_bytes(s.subrange(0, k + 1)));
    } else {
        assert(s.subrange(0, k) =~= s);
    }
}

} // verus!
