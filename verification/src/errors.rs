use vstd::prelude::*;

verus! {

/// A fatal failure of a synchronization run.
///
/// Per-file trouble (an unreadable file, one failed upload) is never fatal:
/// it is contained inside the per-file decision procedure and reported as a
/// warning outcome. The variants here are the conditions that abort a run:
/// a bad configuration, a failed listing page (a partial index must never be
/// used as if complete), or a directory that cannot be enumerated.
#[derive(Clone, Copy, Debug, PartialEq, Eq, Structural)]
pub enum BackupError {
    /// A path could not be interpreted as a string.
    InvalidPath,
    /// The storage tier identifier is not one of the accepted values.
    InvalidStorageClass,
    /// The server-side encryption identifier is not one of the accepted values.
    InvalidServerSideEncryption,
    /// A put request against the remote store failed.
    UploadFailed,
    /// A page request while listing the remote store failed.
    FileFetchFailed,
    /// A directory could not be enumerated during the walk.
    DirectoryUnreadable,
}

pub type BackupResult<T> = Result<T, BackupError>;

} // verus!
