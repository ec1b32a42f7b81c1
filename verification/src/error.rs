//! The failure taxonomy of the repository state resolver.

use vstd::prelude::*;
use vstd::string::*;

verus! {

/// Everything that can go wrong while resolving a version string from a
/// working copy. No failure is silently downgraded to a default value.
#[derive(Debug)]
pub enum AtError {
    /// No git repository was found at the given path or in any of its parents.
    /// Carries the discovery failure message naming the path.
    RepositoryNotFound(String),
    /// The stored version file is missing, or its contents are not a
    /// well-formed version. Carries a description of the failure.
    VersionFileUnreadable(String),
    /// HEAD points directly at a commit instead of a branch; version
    /// composition over a detached HEAD is an explicit unsupported case.
    DetachedHeadUnsupported,
    /// A commit hash was requested but HEAD has no commit to peel to.
    NoCommits,
    /// The working-tree status could not be determined, for a reason other
    /// than the repository having no commits.
    StatusIndeterminate,
    /// The composed `branch-hash[-dirty]` string is not valid build metadata.
    /// Carries the offending string.
    InvalidMetadata(String),
}

impl AtError {
    /// A human-readable description of the failure.
    pub fn message(&self) -> (r: String)
        ensures
            match self {
                AtError::RepositoryNotFound(m) => r@ == m@,
                AtError::VersionFileUnreadable(m) => r@ == "Failed to read the version file: "@
                    + m@,
                AtError::DetachedHeadUnsupported => r@ == "Detached HEAD state is unsupported"@,
                AtError::NoCommits => r@ == "The repository has no commits"@,
                AtError::StatusIndeterminate => r@ == "Unable to determine repository status"@,
                AtError::InvalidMetadata(m) => r@ == "Invalid build metadata: "@ + m@,
            },
    {
        match self {
            AtError::RepositoryNotFound(m) => m.clone(),
            AtError::VersionFileUnreadable(m) => {
                let mut s = "Failed to read the version file: ".to_owned();
                s.append(m.as_str());
                s
            },
            AtError::DetachedHeadUnsupported => "Detached HEAD state is unsupported".to_owned(),
            AtError::NoCommits => "The repository has no commits".to_owned(),
            AtError::StatusIndeterminate => "Unable to determine repository status".to_owned(),
            AtError::InvalidMetadata(m) => {
                let mut s = "Invalid build metadata: ".to_owned();
                s.append(m.as_str());
                s
            },
        }
    }
}

} // verus!
