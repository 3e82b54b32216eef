//! The tool's error taxonomy and its mapping to process exit classes.

use vstd::prelude::*;

verus! {

/// A classified failure of one tool invocation.
///
/// `String` payloads carry the storage engine's own message where one exists.
#[derive(Debug)]
pub enum ToolError {
    /// The locator string does not follow the locator grammar.
    InvalidLocator,
    /// The locator is well formed but its scheme names no known backend family.
    UnsupportedBackend,
    /// The storage backend could not be constructed.
    AdapterInitFailed(String),
    /// The repository could not be opened against the constructed backend.
    RepositoryInitFailed(String),
    /// A block named by the caller could not be fetched from storage.
    /// The current engine reports an absent block as "not found" instead of
    /// failing, so its traversals skip the branch and never raise this.
    BlockNotFound(String),
    /// Single-object resolution was asked of an object that is not in conflict.
    NoConflict,
    /// The requested winner is neither the engine's winner nor a member of the
    /// conflicting set.
    InvalidWinnerChoice,
    /// The engine refused to record a resolution.
    ResolutionFailed(String),
    /// The engine refused to commit the batch; nothing was persisted.
    CommitFailed(String),
    /// The object identifier is unknown, or the object has no winner.
    UnknownObject(String),
    /// The revision identifier is malformed or names no revision of the object.
    UnknownRevision(String),
}

impl ToolError {
    /// True for the startup errors that abort before the exit-code convention
    /// for the conflict workflow applies.
    pub open spec fn is_startup_error(&self) -> bool {
        ||| self is InvalidLocator
        ||| self is UnsupportedBackend
        ||| self is AdapterInitFailed
        ||| self is RepositoryInitFailed
    }

    /// The process exit class of this error: a missing conflict, an invalid
    /// winner choice, and every other resolution or lookup failure each get a
    /// distinct non-zero code; startup errors share a fourth.
    pub fn exit_code(&self) -> (c: u8)
        ensures
            c != 0,
            (c == 1) <==> self is NoConflict,
            (c == 2) <==> self is InvalidWinnerChoice,
            (c == 4) <==> self.is_startup_error(),
            (c == 3) <==> (!(self is NoConflict) && !(self is InvalidWinnerChoice)
                && !self.is_startup_error()),
    {
        match self {
            ToolError::NoConflict => 1,
            ToolError::InvalidWinnerChoice => 2,
            ToolError::InvalidLocator => 4,
            ToolError::UnsupportedBackend => 4,
            ToolError::AdapterInitFailed(_) => 4,
            ToolError::RepositoryInitFailed(_) => 4,
            ToolError::BlockNotFound(_) => 3,
            ToolError::ResolutionFailed(_) => 3,
            ToolError::CommitFailed(_) => 3,
            ToolError::UnknownObject(_) => 3,
            ToolError::UnknownRevision(_) => 3,
        }
    }
}

} // verus!
