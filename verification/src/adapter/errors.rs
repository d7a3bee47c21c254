//! Failures of the filesystem adapters.

use vstd::prelude::*;

verus! {

/// Failure while securely creating or acquiring the process lock.
#[derive(Debug)]
pub enum LockError {
    /// The lock file's parent directory could not be created.
    CreateParentDir {
        /// Parent directory path.
        path: String,
        /// Filesystem diagnostic.
        reason: String,
    },
    /// The lock file could not be opened securely.
    OpenFile {
        /// Lock file path.
        path: String,
        /// Filesystem diagnostic, including symlink rejection on Unix.
        reason: String,
    },
    /// The opened lock file could not be hardened to owner-only permissions.
    SetPermissions {
        /// Lock file path.
        path: String,
        /// Filesystem diagnostic.
        reason: String,
    },
    /// Another process currently owns the nonblocking lock.
    AlreadyHeld {
        /// Contended lock file path.
        path: String,
    },
    /// The operating-system lock operation failed unexpectedly.
    Acquire {
        /// Lock file path.
        path: String,
        /// Locking diagnostic.
        reason: String,
    },
}

/// Failure while loading local or cached offline source data.
#[derive(Debug)]
pub enum SourceLoadError {
    /// One selected source file could not be read safely.
    Source {
        /// Source path.
        path: String,
        /// Bounded-read or integrity diagnostic.
        reason: String,
    },
    /// The remote cache directory could not be enumerated.
    CacheDir {
        /// Cache directory path.
        path: String,
        /// Filesystem diagnostic.
        reason: String,
    },
    /// One remote cache directory entry could not be read.
    CacheDirEntry {
        /// Cache directory path.
        path: String,
        /// Filesystem diagnostic.
        reason: String,
    },
}

/// Failure while writing a JSON file.
#[derive(Debug)]
pub enum WriteJsonError {
    /// The value could not be serialized.
    Serialize {
        /// Serializer diagnostic.
        reason: String,
    },
    /// The file could not be written.
    Write {
        /// Filesystem diagnostic.
        reason: String,
    },
}

/// Label, path and reason of a diagnostic.
pub open spec fn path_failure(label: &str, path: Seq<char>, reason: Seq<char>) -> Seq<char> {
    label@ + path + ": "@ + reason
}

fn path_failure_text(label: &str, path: &String, reason: &String) -> (text: String)
    ensures
        text@ == path_failure(label, path@, reason@),
{
    let mut text: String = label.to_owned();
    text.append(path.as_str());
    text.append(": ");
    text.append(reason.as_str());
    text
}

/// Operator-facing text of a lock failure.
pub open spec fn lock_error_text(error: LockError) -> Seq<char> {
    match error {
        LockError::CreateParentDir { path, reason } => path_failure(
            "failed to create lock parent directory ",
            path@,
            reason@,
        ),
        LockError::OpenFile { path, reason } => path_failure(
            "failed to open lock file ",
            path@,
            reason@,
        ),
        LockError::SetPermissions { path, reason } => path_failure(
            "failed to set lock file permissions on ",
            path@,
            reason@,
        ),
        LockError::AlreadyHeld { path } => "lock already held: "@ + path@,
        LockError::Acquire { path, reason } => path_failure(
            "failed to acquire lock ",
            path@,
            reason@,
        ),
    }
}

impl LockError {
    /// Operator-facing description.
    pub fn message(&self) -> (text: String)
        ensures
            text@ == lock_error_text(*self),
    {
        match self {
            LockError::CreateParentDir { path, reason } => path_failure_text(
                "failed to create lock parent directory ",
                path,
                reason,
            ),
            LockError::OpenFile { path, reason } => path_failure_text(
                "failed to open lock file ",
                path,
                reason,
            ),
            LockError::SetPermissions { path, reason } => path_failure_text(
                "failed to set lock file permissions on ",
                path,
                reason,
            ),
            LockError::AlreadyHeld { path } => {
                let mut text: String = "lock already held: ".to_owned();
                text.append(path.as_str());
                text
            },
            LockError::Acquire { path, reason } => path_failure_text(
                "failed to acquire lock ",
                path,
                reason,
            ),
        }
    }
}

/// How an attempt at the exclusive lock ended.
#[derive(Debug)]
pub enum LockAttempt {
    /// The lock was acquired.
    Acquired,
    /// The attempt would have had to wait.
    WouldBlock,
    /// The attempt failed.
    Failed {
        /// Locking diagnostic.
        reason: String,
    },
}

/// Judges an attempt at the exclusive lock of the file.
pub fn lock_outcome(path: &String, attempt: LockAttempt) -> (outcome: Result<(), LockError>)
    ensures
        match attempt {
            LockAttempt::Acquired => outcome is Ok,
            LockAttempt::WouldBlock => outcome matches Err(LockError::AlreadyHeld { path: shown })
                && shown@ == path@,
            LockAttempt::Failed { reason } => outcome matches Err(
                LockError::Acquire { path: shown, reason: told },
            ) && shown@ == path@ && told@ == reason@,
        },
{
    match attempt {
        LockAttempt::Acquired => Ok(()),
        LockAttempt::WouldBlock => Err(LockError::AlreadyHeld { path: path.clone() }),
        LockAttempt::Failed { reason } => Err(LockError::Acquire { path: path.clone(), reason }),
    }
}

/// Operator-facing text of a source loading failure.
pub open spec fn source_load_text(error: SourceLoadError) -> Seq<char> {
    match error {
        SourceLoadError::Source { path, reason } => path_failure(
            "failed to read source file ",
            path@,
            reason@,
        ),
        SourceLoadError::CacheDir { path, reason } => path_failure(
            "failed to read remote cache directory ",
            path@,
            reason@,
        ),
        SourceLoadError::CacheDirEntry { path, reason } => path_failure(
            "failed to read remote cache directory entry in ",
            path@,
            reason@,
        ),
    }
}

impl SourceLoadError {
    /// Operator-facing description.
    pub fn message(&self) -> (text: String)
        ensures
            text@ == source_load_text(*self),
    {
        match self {
            SourceLoadError::Source { path, reason } => path_failure_text(
                "failed to read source file ",
                path,
                reason,
            ),
            SourceLoadError::CacheDir { path, reason } => path_failure_text(
                "failed to read remote cache directory ",
                path,
                reason,
            ),
            SourceLoadError::CacheDirEntry { path, reason } => path_failure_text(
                "failed to read remote cache directory entry in ",
                path,
                reason,
            ),
        }
    }
}

/// Operator-facing text of a JSON writing failure.
pub open spec fn write_json_text(error: WriteJsonError) -> Seq<char> {
    match error {
        WriteJsonError::Serialize { reason } => "failed to serialize JSON: "@ + reason@,
        WriteJsonError::Write { reason } => "failed to write JSON file: "@ + reason@,
    }
}

impl WriteJsonError {
    /// Operator-facing description.
    pub fn message(&self) -> (text: String)
        ensures
            text@ == write_json_text(*self),
    {
        match self {
            WriteJsonError::Serialize { reason } => {
                let mut text: String = "failed to serialize JSON: ".to_owned();
                text.append(reason.as_str());
                text
            },
            WriteJsonError::Write { reason } => {
                let mut text: String = "failed to write JSON file: ".to_owned();
                text.append(reason.as_str());
                text
            },
        }
    }
}

} // verus!
