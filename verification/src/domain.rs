//! Core domain types: value objects and entities shared across the library.

use vstd::prelude::*;

verus! {

/// A file size in bytes, kept as its own type for clarity at call sites.
#[derive(Clone, Copy, PartialEq, Eq, Structural, Debug)]
pub struct FileSize(pub u64);

impl FileSize {
    /// Wrap a byte count.
    pub fn new(bytes: u64) -> (r: Self)
        ensures
            r.0 == bytes,
    {
        FileSize(bytes)
    }

    /// The byte count.
    pub fn bytes(&self) -> (r: u64)
        ensures
            r == self.0,
    {
        self.0
    }
}

/// A filesystem path, kept as its own type for clarity at call sites.
#[derive(Debug)]
pub struct FilePath(pub String);

impl FilePath {
    /// Wrap a path string.
    pub fn new(path: String) -> (r: Self)
        ensures
            r.0@ == path@,
    {
        FilePath(path)
    }

    /// The path as a string slice.
    pub fn as_str(&self) -> (r: &str)
        ensures
            r@ == self.0@,
    {
        self.0.as_str()
    }
}

impl Clone for FilePath {
    fn clone(&self) -> (r: Self)
        ensures
            r.0@ == self.0@,
    {
        FilePath(self.0.clone())
    }
}

/// A file seen by a scan: its path and its size in bytes.
#[derive(Debug)]
pub struct FileEntity {
    /// The file's path.
    pub path: String,
    /// The file's size in bytes.
    pub size: u64,
}

impl Clone for FileEntity {
    fn clone(&self) -> (r: Self)
        ensures
            r.path@ == self.path@,
            r.size == self.size,
    {
        FileEntity { path: self.path.clone(), size: self.size }
    }
}

/// A directory seen by a scan.
#[derive(Debug)]
pub struct DirectoryEntity {
    /// The directory's path.
    pub path: String,
}

/// A point-in-time marker for system observations.
#[derive(Clone, Copy, PartialEq, Eq, Structural, Debug)]
pub struct SystemSnapshot {
    /// Seconds since the Unix epoch.
    pub timestamp: u64,
}

/// Overall state of a checked component.
#[derive(Clone, Copy, PartialEq, Eq, Structural, Debug)]
pub enum HealthStatus {
    /// The component is operating normally.
    Healthy,
    /// The component needs attention.
    Warning,
    /// The component needs immediate attention.
    Critical,
}

/// An occurrence the library can report to interested listeners.
#[derive(Debug)]
pub enum DomainEvent {
    /// A file was analyzed.
    FileAnalyzed {
        /// Path of the analyzed file.
        path: String,
    },
    /// Two files were found to hold identical content.
    DuplicateFound {
        /// Path of the first file.
        path1: String,
        /// Path of the second file.
        path2: String,
    },
}

/// How thoroughly a disk analysis should scan.
#[derive(Clone, Copy, PartialEq, Eq, Structural, Debug)]
pub enum AnalysisStrategy {
    /// Visit every file.
    Deep,
    /// Sample-based estimate.
    Quick,
    /// Reuse cached results where possible.
    Incremental,
}

impl Default for AnalysisStrategy {
    /// The default strategy is a full scan.
    fn default() -> (r: Self)
        ensures
            r == AnalysisStrategy::Deep,
    {
        AnalysisStrategy::Deep
    }
}

/// The outcome of one component's health check.
#[derive(Debug)]
pub struct ComponentHealth {
    /// Which component was checked.
    pub name: String,
    /// The component's state.
    pub status: HealthStatus,
    /// A human-readable account of the state.
    pub message: String,
    /// What to do about it, when there is something to do.
    pub recommendation: Option<String>,
}

impl ComponentHealth {
    /// A health result with no recommendation attached.
    pub fn new(name: String, status: HealthStatus, message: String) -> (r: Self)
        ensures
            r.name@ == name@,
            r.status == status,
            r.message@ == message@,
            r.recommendation is None,
    {
        ComponentHealth { name, status, message, recommendation: None }
    }

    /// The same result with a recommendation attached.
    pub fn with_recommendation(self, recommendation: String) -> (r: Self)
        ensures
            r.name@ == self.name@,
            r.status == self.status,
            r.message@ == self.message@,
            r.recommendation matches Some(m) && m@ == recommendation@,
    {
        ComponentHealth {
            name: self.name,
            status: self.status,
            message: self.message,
            recommendation: Some(recommendation),
        }
    }
}

} // verus!
