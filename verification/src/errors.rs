//! Error taxonomy of the engine.

use vstd::prelude::*;

verus! {

/// Everything that can go wrong inside the engine.
///
/// `NotFound` covers a mod, version or dependency that is absent from the
/// registry or from the cache; `NetworkFailure` a download that failed or was
/// never delivered; `ArchiveError` a package that could not be read;
/// `FilesystemError` a cache entry whose metadata snapshot is missing or
/// unreadable; `StateInconsistency` options that name a version that can no
/// longer be resolved; `ConfigError` malformed persisted configuration.
#[derive(Clone, Copy, Debug, PartialEq, Eq, Structural)]
pub enum Error {
    NotFound,
    NetworkFailure,
    ArchiveError,
    FilesystemError,
    StateInconsistency,
    ConfigError,
}

impl Error {
    /// A short description, for display by unverified callers.
    pub fn describe(&self) -> (r: &'static str)
        ensures
            r@.len() > 0,
    {
        proof {
            reveal_strlit("not found in registry or cache");
            reveal_strlit("download failed");
            reveal_strlit("package archive is corrupt or unreadable");
            reveal_strlit("filesystem operation failed");
            reveal_strlit("stored options are out of step with the cache");
            reveal_strlit("persisted configuration is malformed");
        }
        match self {
            Error::NotFound => "not found in registry or cache",
            Error::NetworkFailure => "download failed",
            Error::ArchiveError => "package archive is corrupt or unreadable",
            Error::FilesystemError => "filesystem operation failed",
            Error::StateInconsistency => "stored options are out of step with the cache",
            Error::ConfigError => "persisted configuration is malformed",
        }
    }
}

} // verus!
