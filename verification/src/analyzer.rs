//! Disk analysis: what lives under a scan root and how big it is.

use vstd::prelude::*;

use crate::domain::{FileEntity, FilePath};
use crate::duplicates::{candidates, entities_match};
use crate::error::Error;
use crate::vfs::{
    lemma_total_bytes_nonneg, lemma_total_bytes_prefix_le, total_bytes, VfsFile, VirtualFs,
};

verus! {

/// What an analysis of one scan root found.
#[derive(Debug)]
pub struct AnalysisResult {
    /// Total size in bytes of the files found.
    pub total_size: u64,
    /// The files found, in scan order.
    pub files: Vec<FileEntity>,
}

/// Analyzes directory trees held in a [`VirtualFs`].
#[derive(Clone, Copy, Debug)]
pub struct DiskAnalyzer;

impl DiskAnalyzer {
    /// A new analyzer.
    pub fn new() -> (r: Self)
        ensures
            r == DiskAnalyzer,
    {
        DiskAnalyzer
    }

    /// List every file under the scan root `path` with its size, and the
    /// total. Fails with `NotFound` exactly when `path` is not a registered
    /// root.
    pub fn analyze(&self, fs: &VirtualFs, path: &FilePath) -> (r: Result<AnalysisResult, Error>)
        requires
            fs.wf(),
        ensures
            match r {
                Ok(res) => {
                    &&& fs.dir_exists(path.0@)
                    &&& entities_match(res.files@, candidates(fs.files@, path.0@, 0))
                    &&& res.total_size == total_bytes(candidates(fs.files@, path.0@, 0))
                },
                Err(e) => !fs.dir_exists(path.0@) && e is NotFound,
            },
    {
        self.collect(fs, path, 0)
    }

    /// List every file under the scan root `path` whose size is at least
    /// `min_size_bytes`. Fails with `NotFound` exactly when `path` is not a
    /// registered root.
    pub fn find_large_files(&self, fs: &VirtualFs, path: &FilePath, min_size_bytes: u64) -> (r:
        Result<Vec<FileEntity>, Error>)
        requires
            fs.wf(),
        ensures
            match r {
                Ok(files) => {
                    &&& fs.dir_exists(path.0@)
                    &&& entities_match(files@, candidates(fs.files@, path.0@, min_size_bytes))
                },
                Err(e) => !fs.dir_exists(path.0@) && e is NotFound,
            },
    {
        match self.collect(fs, path, min_size_bytes) {
            Ok(res) => Ok(res.files),
            Err(e) => Err(e),
        }
    }

    /// Shared walk: the files under `path` of size at least `min_size`.
    fn collect(&self, fs: &VirtualFs, path: &FilePath, min_size: u64) -> (r: Result<
        AnalysisResult,
        Error,
    >)
        requires
            fs.wf(),
        ensures
            match r {
                Ok(res) => {
                    &&& fs.dir_exists(path.0@)
                    &&& entities_match(res.files@, candidates(fs.files@, path.0@, min_size))
                    &&& res.total_size == total_bytes(candidates(fs.files@, path.0@, min_size))
                },
                Err(e) => !fs.dir_exists(path.0@) && e is NotFound,
            },
    {
        let root_str = path.as_str();
        if !fs.has_dir(root_str) {
            let mut msg = "Path does not exist: ".to_owned();
            msg.append(root_str);
            return Err(Error::NotFound(msg));
        }
        let ghost rootv = path.0@;
        let n = fs.files.len();
        let mut files: Vec<FileEntity> = Vec::new();
        let mut total: u64 = 0;
        let mut i: usize = 0;
        proof {
            assert(fs.files@.subrange(0, 0) =~= Seq::<VfsFile>::empty());
        }
        while i < n
            invariant
                0 <= i <= n,
                n == fs.files@.len(),
                fs.wf(),
                rootv == path.0@,
                root_str@ == rootv,
                entities_match(files@, candidates(fs.files@.subrange(0, i as int), rootv, min_size)),
                total == total_bytes(candidates(fs.files@.subrange(0, i as int), rootv, min_size)),
            decreases n - i,
        {
            proof {
                assert(fs.files@.subrange(0, i + 1).drop_last() =~= fs.files@.subrange(
                    0,
                    i as int,
                ));
                assert(fs.files@.subrange(0, i + 1).last() == fs.files@[i as int]);
                crate::duplicates::lemma_candidates_le_total(
                    fs.files@.subrange(0, i + 1),
                    rootv,
                    min_size,
                );
                lemma_total_bytes_prefix_le(fs.files@, i + 1);
                lemma_total_bytes_nonneg(
                    candidates(fs.files@.subrange(0, i as int), rootv, min_size),
                );
            }
            let f = &fs.files[i];
            if crate::strings::str_eq(f.dir.as_str(), root_str) && f.content.len() as u64
                >= min_size {
                let ghost precand = candidates(fs.files@.subrange(0, i as int), rootv, min_size);
                files.push(FileEntity { path: f.path.clone(), size: f.content.len() as u64 });
                proof {
                    assert(precand.push(fs.files@[i as int]).drop_last() =~= precand);
                }
                total = total + f.content.len() as u64;
            }
            i += 1;
        }
        proof {
            assert(fs.files@.subrange(0, n as int) =~= fs.files@);
        }
        Ok(AnalysisResult { total_size: total, files })
    }
}

impl Default for DiskAnalyzer {
    /// Same as [`DiskAnalyzer::new`].
    fn default() -> (r: Self)
        ensures
            r == DiskAnalyzer,
    {
        DiskAnalyzer
    }
}

} // verus!
