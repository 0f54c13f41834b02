//! Kinds of failure that the library reports.
use vstd::prelude::*;

verus! {

/// Why an operation was refused.
#[derive(Clone, Copy, Debug, PartialEq, Eq, Structural)]
pub enum ErrorKind {
    /// A malformed file name.
    InvalidInput,
    /// An original file, a backup or a target does not exist.
    NotFound,
    /// A path lies outside the directory it must stay in, or is a symlink.
    PermissionDenied,
    /// A path has no absolute form.
    PathResolution,
}

impl ErrorKind {
    /// A short description of the kind.
    pub fn message(&self) -> (r: &'static str) {
        match self {
            ErrorKind::InvalidInput => "invalid input",
            ErrorKind::NotFound => "not found",
            ErrorKind::PermissionDenied => "permission denied",
            ErrorKind::PathResolution => "path cannot be resolved",
        }
    }
}

} // verus!
