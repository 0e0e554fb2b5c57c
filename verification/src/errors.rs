//! Errors surfaced by the orchestration core.  Every failure is reported
//! to the immediate caller with the identifier or backend it concerns;
//! none is silently swallowed.

use vstd::prelude::*;

verus! {

/// Why a spawn, split or lifecycle operation failed.
#[derive(Debug)]
pub enum DomainError {
    /// The named container (tab) is not registered.
    InvalidContainer(usize),
    /// The named session (pane) is not a member of the given container.
    InvalidSession(usize),
    /// The container's layout rejected the split position.
    InvalidSplitIndex(usize),
    /// An identifier could not be resolved through the registry.
    NotFound(usize),
    /// An argv element is not representable as text.
    EncodingError,
    /// Invoking a script callback failed, or its result could not be
    /// decoded; carries the backend name whose callback was run.
    ScriptCallbackError(String),
    /// The backend does not support the requested lifecycle operation.
    UnsupportedOperation,
    /// Allocating the pseudo-terminal or starting the child failed.
    ResourceError,
}

impl DomainError {
    /// A short stable description of the error kind.
    pub fn describe(&self) -> (r: &'static str)
        ensures
            r@ == self.describe_spec(),
    {
        match self {
            DomainError::InvalidContainer(_) => "invalid tab id",
            DomainError::InvalidSession(_) => "invalid pane id",
            DomainError::InvalidSplitIndex(_) => "invalid pane index",
            DomainError::NotFound(_) => "not found",
            DomainError::EncodingError => "command argument is not utf8",
            DomainError::ScriptCallbackError(_) => "script callback failed",
            DomainError::UnsupportedOperation => "not implemented",
            DomainError::ResourceError => "resource allocation failed",
        }
    }

    /// What `describe` returns for each error kind.
    pub open spec fn describe_spec(&self) -> Seq<char> {
        match self {
            DomainError::InvalidContainer(_) => "invalid tab id"@,
            DomainError::InvalidSession(_) => "invalid pane id"@,
            DomainError::InvalidSplitIndex(_) => "invalid pane index"@,
            DomainError::NotFound(_) => "not found"@,
            DomainError::EncodingError => "command argument is not utf8"@,
            DomainError::ScriptCallbackError(_) => "script callback failed"@,
            DomainError::UnsupportedOperation => "not implemented"@,
            DomainError::ResourceError => "resource allocation failed"@,
        }
    }
}

} // verus!
