//! Repository state readers: active branch, abbreviated commit id, and the
//! dirty classification. All repository inspection goes through a small set
//! of trusted wrappers over the git object-database library; every decision
//! taken on what they return is verified.

use vstd::prelude::*;
use vstd::string::*;
use crate::error::AtError;
use crate::version::is_digit;

verus! {

#[verifier::external_type_specification]
#[verifier::external_body]
pub struct ExRepository(gix::Repository);

/// What HEAD points at.
pub enum BranchState {
    /// HEAD is a symbolic reference to an existing branch; carries its short name.
    Symbolic(String),
    /// HEAD refers to a branch that has no commits yet; carries its short name.
    Unborn(String),
    /// HEAD points directly at a commit, not at a branch.
    Detached,
}

/// What comparing HEAD, index and working tree yielded.
pub enum DiffStatus {
    /// The three-way comparison found a difference, staged or unstaged.
    Differs,
    /// The three-way comparison found no difference.
    Matches,
    /// The comparison was undefined because the repository has no commits;
    /// carries whether the index holds any staged entry.
    NoCommits { staged: bool },
    /// The comparison was not performed or failed.
    Unknown,
}

/// A lowercase hexadecimal digit.
pub open spec fn is_lower_hex(c: char) -> bool {
    is_digit(c) || ('a' <= c && c <= 'f')
}

/// Relies on gix::discover: finds the enclosing repository by walking parent
/// directories; the error carries gix's message naming the failing path
/// (alternate formatting, which leaves out source locations).
#[verifier::external_body]
fn discover_repo(path: &str) -> (r: Result<gix::Repository, String>) {
    gix::discover(path).map_err(|e| format!("{e:#}"))
}

/// Relies on gix::Repository::head and gix::head::Kind: reports whether HEAD
/// is symbolic, unborn or detached, with the branch's short name.
#[verifier::external_body]
fn read_head_state(repo: &gix::Repository) -> (r: Result<BranchState, String>) {
    let head = repo.head().map_err(|e| e.to_string())?;
    Ok(match head.kind {
        gix::head::Kind::Symbolic(reference) => BranchState::Symbolic(
            reference.name.shorten().to_string(),
        ),
        gix::head::Kind::Unborn(name) => BranchState::Unborn(name.shorten().to_string()),
        gix::head::Kind::Detached { .. } => BranchState::Detached,
    })
}

/// Relies on gix::Head::peel_to_commit and gix::Id::shorten: the
/// abbreviated id of the HEAD commit, as `core.abbrev` would produce it.
/// gix renders it as lowercase hexadecimal of at least 4 digits
/// (gix_hash::Prefix enforces the minimum, faster_hex encodes lowercase).
#[verifier::external_body]
fn read_short_hash(repo: &gix::Repository) -> (r: Result<String, String>)
    ensures
        match r {
            Ok(h) => h@.len() >= 4 && forall|i: int|
                0 <= i < h@.len() ==> is_lower_hex(#[trigger] h@[i]),
            Err(_) => true,
        },
{
    let mut head = repo.head().map_err(|e| e.to_string())?;
    let commit = head.peel_to_commit().map_err(|e| e.to_string())?;
    let prefix = commit.id().shorten().map_err(|e| e.to_string())?;
    Ok(prefix.to_string())
}

/// Relies on gix::status: whether the index-worktree scan yields any entry,
/// with untracked files collapsed to directory granularity, ignored files
/// excluded, and submodule dirtiness checked as configured.
#[verifier::external_body]
fn scan_index_worktree(repo: &gix::Repository) -> (r: Result<bool, String>) {
    let platform = repo.status(gix::features::progress::Discard).map_err(|e| e.to_string())?;
    let mut iter = platform
        .untracked_files(gix::status::UntrackedFiles::Collapsed)
        .index_worktree_submodules(gix::status::Submodule::AsConfigured { check_dirty: true })
        .into_index_worktree_iter(Vec::new())
        .map_err(|e| e.to_string())?;
    Ok(match iter.next() {
        Some(Ok(_)) => true,
        _ => false,
    })
}

/// Relies on gix::Repository::is_dirty: the three-way comparison of HEAD,
/// index and working tree, untracked files not considered.
#[verifier::external_body]
fn diff_head_index_worktree(repo: &gix::Repository) -> (r: Result<bool, String>) {
    repo.is_dirty().map_err(|e| e.to_string())
}

/// Relies on gix::Repository::index_or_empty: whether the index holds any entry.
#[verifier::external_body]
fn index_has_entries(repo: &gix::Repository) -> (r: Result<bool, String>) {
    let index = repo.index_or_empty().map_err(|e| e.to_string())?;
    Ok(!index.entries().is_empty())
}

/// The current line of work, from a HEAD state: the branch's short name for a
/// symbolic or unborn HEAD, an error for a detached one.
pub fn branch_of_state(state: BranchState) -> (r: Result<String, AtError>)
    ensures
        match state {
            BranchState::Symbolic(name) => r == Ok::<String, AtError>(name),
            BranchState::Unborn(name) => r == Ok::<String, AtError>(name),
            BranchState::Detached => r == Err::<String, AtError>(AtError::DetachedHeadUnsupported),
        },
{
    match state {
        BranchState::Symbolic(name) => Ok(name),
        BranchState::Unborn(name) => Ok(name),
        BranchState::Detached => Err(AtError::DetachedHeadUnsupported),
    }
}

/// Whether a HEAD state has a commit to peel to: an unborn HEAD is exactly
/// the no-commits failure, every other state has a commit.
pub fn head_has_commits(state: &BranchState) -> (r: Result<(), AtError>)
    ensures
        match state {
            BranchState::Unborn(_) => r == Err::<(), AtError>(AtError::NoCommits),
            _ => r == Ok::<(), AtError>(()),
        },
{
    match state {
        BranchState::Unborn(_) => Err(AtError::NoCommits),
        _ => Ok(()),
    }
}

/// The dirty policy. A nonempty index-worktree scan is dirty outright.
/// Otherwise the three-way comparison decides; when that comparison is
/// undefined because the repository has no commits, the verdict is dirty
/// exactly when the index holds staged entries, so a fresh, empty repository
/// reads as clean. A comparison that failed for any other reason is a hard
/// failure, never silently clean or dirty.
pub fn classify_dirty(untracked: bool, diff: DiffStatus) -> (r: Result<bool, AtError>)
    ensures
        untracked ==> r == Ok::<bool, AtError>(true),
        !untracked ==> match diff {
            DiffStatus::Differs => r == Ok::<bool, AtError>(true),
            DiffStatus::Matches => r == Ok::<bool, AtError>(false),
            DiffStatus::NoCommits { staged } => r == Ok::<bool, AtError>(staged),
            DiffStatus::Unknown => r == Err::<bool, AtError>(AtError::StatusIndeterminate),
        },
{
    if untracked {
        return Ok(true);
    }
    match diff {
        DiffStatus::Differs => Ok(true),
        DiffStatus::Matches => Ok(false),
        DiffStatus::NoCommits { staged } => Ok(staged),
        DiffStatus::Unknown => Err(AtError::StatusIndeterminate),
    }
}

/// The short name of the currently active branch of the repository enclosing
/// `path`. An unborn branch still has a meaningful name; a detached HEAD is
/// an explicit unsupported case.
pub fn get_branch(path: &str) -> (r: Result<String, AtError>)
    ensures
        r matches Err(e) ==> (e is RepositoryNotFound || e is DetachedHeadUnsupported
            || e is StatusIndeterminate),
{
    let repo = match discover_repo(path) {
        Ok(repo) => repo,
        Err(msg) => return Err(AtError::RepositoryNotFound(msg)),
    };
    let state = match read_head_state(&repo) {
        Ok(state) => state,
        Err(_) => return Err(AtError::StatusIndeterminate),
    };
    branch_of_state(state)
}

/// The abbreviated hexadecimal object id of the commit at HEAD of the
/// repository enclosing `path`: at least 4 lowercase hex digits, extended as
/// `core.abbrev` dictates. Fails with `NoCommits` exactly as
/// [`head_has_commits`] rules, with an unborn HEAD; a hash read that fails on
/// a born HEAD is an indeterminate repository state, not a missing commit.
pub fn get_commit_hash(path: &str) -> (r: Result<String, AtError>)
    ensures
        match r {
            Ok(h) => h@.len() >= 4 && forall|i: int|
                0 <= i < h@.len() ==> is_lower_hex(#[trigger] h@[i]),
            Err(e) => e is RepositoryNotFound || e is NoCommits || e is StatusIndeterminate,
        },
{
    let repo = match discover_repo(path) {
        Ok(repo) => repo,
        Err(msg) => return Err(AtError::RepositoryNotFound(msg)),
    };
    let state = match read_head_state(&repo) {
        Ok(state) => state,
        Err(_) => return Err(AtError::StatusIndeterminate),
    };
    head_has_commits(&state)?;
    match read_short_hash(&repo) {
        Ok(hash) => Ok(hash),
        Err(_) => Err(AtError::StatusIndeterminate),
    }
}

/// Whether the working tree of the repository enclosing `path` has changes
/// that mark a build as dirty, per the policy of [`classify_dirty`].
pub fn is_dirty(path: &str) -> (r: Result<bool, AtError>)
    ensures
        r matches Err(e) ==> (e is RepositoryNotFound || e is StatusIndeterminate),
{
    let repo = match discover_repo(path) {
        Ok(repo) => repo,
        Err(msg) => return Err(AtError::RepositoryNotFound(msg)),
    };
    let untracked = match scan_index_worktree(&repo) {
        Ok(found) => found,
        Err(_) => return Err(AtError::StatusIndeterminate),
    };
    let diff = if untracked {
        DiffStatus::Unknown
    } else {
        match diff_head_index_worktree(&repo) {
            Ok(true) => DiffStatus::Differs,
            Ok(false) => DiffStatus::Matches,
            Err(_) => {
                // The comparison is undefined exactly when HEAD is unborn;
                // anything else stays unknown and becomes a hard failure.
                match read_head_state(&repo) {
                    Ok(BranchState::Unborn(_)) => {
                        match index_has_entries(&repo) {
                            Ok(staged) => DiffStatus::NoCommits { staged },
                            Err(_) => DiffStatus::Unknown,
                        }
                    },
                    _ => DiffStatus::Unknown,
                }
            },
        }
    };
    classify_dirty(untracked, diff)
}

} // verus!
