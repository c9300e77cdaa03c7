//! The closed failure taxonomy of the gateway.
//!
//! Callers branch on the structured kind; `message` renders the
//! human-readable text that the command surface reports.

use vstd::prelude::*;

verus! {

/// Why a gateway request was refused.
#[derive(Debug)]
pub enum FsError {
    /// The raw path string contained traversal syntax.
    PathTraversal,
    /// The path resolves outside every allowed root.
    AccessDenied,
    /// The path is malformed or could not be resolved.
    InvalidPath,
    /// The operation needs a directory and the path is not one.
    NotADirectory,
    /// An underlying read failed; carries the reported failure text.
    Io { message: String },
}

impl FsError {
    /// The human-readable description of this failure.
    pub fn message(&self) -> (r: String)
        ensures
            self is PathTraversal ==> r@ == "Access denied: path traversal detected"@,
            self is AccessDenied ==> r@ == "Access denied: path is outside allowed directories"@,
            self is InvalidPath ==> r@ == "Invalid path"@,
            self is NotADirectory ==> r@ == "Path is not a directory"@,
            self matches FsError::Io { message } ==> r@ == message@,
    {
        match self {
            FsError::PathTraversal => "Access denied: path traversal detected".to_owned(),
            FsError::AccessDenied => "Access denied: path is outside allowed directories".to_owned(),
            FsError::InvalidPath => "Invalid path".to_owned(),
            FsError::NotADirectory => "Path is not a directory".to_owned(),
            FsError::Io { message } => message.clone(),
        }
    }
}

} // verus!
