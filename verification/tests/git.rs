//! Repository fixtures built through gix, and the branch / hash / dirty
//! behaviour of the resolver against them.

use artisan_tools::error::AtError;
use artisan_tools::git::{get_branch, get_commit_hash, is_dirty};
use artisan_tools::version::AtVersion;
use artisan_tools::version_mod;
use std::io::Write as _;
use gix::bstr::BStr;

fn sig<'a>() -> gix::actor::SignatureRef<'a> {
    gix::actor::SignatureRef {
        name: BStr::new("test user"),
        email: BStr::new("test@example.com"),
        time: "1700000000 +0000",
    }
}

/// Initialize a repository whose HEAD names `branch`, still unborn.
fn init_repo(dir: &std::path::Path, branch: &str) -> gix::Repository {
    let repo = gix::init(dir).expect("failed to init repository");
    let full = format!("refs/heads/{branch}");
    repo.edit_reference(gix::refs::transaction::RefEdit {
        change: gix::refs::transaction::Change::Update {
            log: gix::refs::transaction::LogChange {
                mode: gix::refs::transaction::RefLog::AndReference,
                force_create_reflog: false,
                message: "init".into(),
            },
            expected: gix::refs::transaction::PreviousValue::Any,
            new: gix::refs::Target::Symbolic(full.as_str().try_into().expect("valid ref name")),
        },
        name: "HEAD".try_into().expect("HEAD is a valid name"),
        deref: false,
    })
    .expect("failed to point HEAD at the initial branch");
    repo
}

/// Create a file with the given name in the working tree.
fn write_file(dir: &std::path::Path, name: &str, contents: &str) {
    let mut f = tempfile::NamedTempFile::new_in(dir).expect("failed to create temp file");
    f.write_all(contents.as_bytes()).expect("failed to write file contents");
    f.persist(dir.join(name)).expect("failed to place file");
}

/// Write a blob for each named content, returning ids alongside the names.
fn write_blobs(repo: &gix::Repository, files: &[(&str, &str)]) -> Vec<(String, gix::ObjectId)> {
    files
        .iter()
        .map(|(name, contents)| {
            let blob: gix::ObjectId = repo
                .write_blob(contents.as_bytes())
                .expect("failed to write blob")
                .into();
            (name.to_string(), blob)
        })
        .collect()
}

/// Replace the index with exactly these entries.
fn write_index(repo: &gix::Repository, entries: &[(String, gix::ObjectId)]) {
    let mut state = gix::index::State::new(repo.object_hash());
    for (name, blob) in entries {
        state.dangerously_push_entry(
            gix::index::entry::Stat::default(),
            *blob,
            gix::index::entry::Flags::empty(),
            gix::index::entry::Mode::FILE,
            BStr::new(name.as_str()),
        );
    }
    state.sort_entries();
    let mut file = gix::index::File::from_state(state, repo.index_path());
    file.write(gix::index::write::Options::default())
        .expect("failed to write index");
}

/// Write `name` into the index as its only entry.
fn stage_file(repo: &gix::Repository, name: &str, contents: &str) {
    let entries = write_blobs(repo, &[(name, contents)]);
    write_index(repo, &entries);
}

/// Commit a tree holding exactly these entries onto HEAD.
fn commit_entries(
    repo: &gix::Repository,
    entries: &[(String, gix::ObjectId)],
    message: &str,
) -> gix::ObjectId {
    let mut sorted: Vec<&(String, gix::ObjectId)> = entries.iter().collect();
    sorted.sort_by(|a, b| a.0.cmp(&b.0));
    let tree = gix::objs::Tree {
        entries: sorted
            .iter()
            .map(|(name, blob)| gix::objs::tree::Entry {
                mode: gix::objs::tree::EntryKind::Blob.into(),
                filename: name.as_str().into(),
                oid: *blob,
            })
            .collect(),
    };
    let tree_id: gix::ObjectId = repo.write_object(&tree).expect("failed to write tree").into();
    let parents: Vec<gix::ObjectId> = match repo.head_id() {
        Ok(id) => vec![id.into()],
        Err(_) => vec![],
    };
    repo.commit_as(sig(), sig(), "HEAD", message, tree_id, parents)
        .expect("failed to commit")
        .into()
}

/// Commit an empty tree onto HEAD.
fn commit_tree(repo: &gix::Repository, file: Option<(&str, gix::ObjectId)>, message: &str) -> gix::ObjectId {
    match file {
        Some((name, blob)) => commit_entries(repo, &[(name.to_string(), blob)], message),
        None => commit_entries(repo, &[], message),
    }
}

/// Create each file on disk, stage all of them, and commit them together.
fn create_add_commit_files(
    repo: &gix::Repository,
    dir: &std::path::Path,
    files: &[(&str, &str)],
    message: &str,
) {
    for (name, contents) in files {
        write_file(dir, name, contents);
    }
    let entries = write_blobs(repo, files);
    write_index(repo, &entries);
    commit_entries(repo, &entries, message);
}

/// Create `name`, stage it, and commit it.
fn create_add_commit_file(repo: &gix::Repository, dir: &std::path::Path, name: &str, contents: &str, message: &str) {
    create_add_commit_files(repo, dir, &[(name, contents)], message);
}

#[test]
fn test_get_branch() {
    let dir = tempfile::tempdir().expect("Failed to create temp directory");
    let repo = init_repo(dir.path(), "master");
    create_add_commit_files(
        &repo,
        dir.path(),
        &[("dummy.txt", "dummy content"), (".at-version", "0.1.0")],
        "Initial commit",
    );
    let branch = get_branch(dir.path().to_str().unwrap()).expect("Failed to get branch");
    assert_eq!(branch, "master");
}

#[test]
fn test_get_branch_uninitialized_repo() {
    let dir = tempfile::tempdir().expect("failed to create temp dir");
    let err = get_branch(dir.path().to_str().unwrap()).unwrap_err();
    let err_str = err.message();
    assert!(
        err_str.starts_with("Could not find a git repository in"),
        "unexpected message: {err_str}"
    );
    assert!(
        err_str.ends_with("or in any of its parents"),
        "unexpected message: {err_str}"
    );
}

#[test]
fn test_get_branch_repo_with_no_commits() {
    let default_branch_name = "trunk";
    let dir = tempfile::tempdir().expect("failed to create temp dir");
    init_repo(dir.path(), default_branch_name);
    let branch = get_branch(dir.path().to_str().unwrap()).expect("Failed to get branch");
    assert_eq!(branch, default_branch_name);
}

#[test]
fn test_get_branch_repo_with_initial_commit() {
    let default_branch_name = "master";
    let dir = tempfile::tempdir().expect("failed to create temp dir");
    let repo = init_repo(dir.path(), default_branch_name);
    create_add_commit_file(&repo, dir.path(), "dummy.txt", "dummy contents", "Initial commit");
    let branch = get_branch(dir.path().to_str().unwrap()).expect("Failed to get branch");
    assert_eq!(branch, default_branch_name);
}

#[test]
fn test_get_branch_repo_detached_from_head() {
    let dir = tempfile::tempdir().expect("failed to create temp dir");
    let repo = init_repo(dir.path(), "master");
    let first = commit_tree(&repo, None, "initial commit");
    commit_tree(&repo, None, "another commit");
    repo.edit_references_as(
        Some(gix::refs::transaction::RefEdit {
            change: gix::refs::transaction::Change::Update {
                log: gix::refs::transaction::LogChange {
                    mode: gix::refs::transaction::RefLog::AndReference,
                    force_create_reflog: false,
                    message: "checkout parent".into(),
                },
                expected: gix::refs::transaction::PreviousValue::Any,
                new: gix::refs::Target::Object(first),
            },
            name: "HEAD".try_into().expect("HEAD is a valid name"),
            deref: false,
        }),
        Some(sig()),
    )
    .expect("failed to detach HEAD");
    let err = get_branch(dir.path().to_str().unwrap()).unwrap_err();
    assert!(matches!(err, AtError::DetachedHeadUnsupported));
}

#[test]
fn git_test_get_commit_hash() {
    let dir = tempfile::tempdir().expect("failed to create temp dir");
    let repo = init_repo(dir.path(), "master");
    let head = commit_tree(&repo, None, "initial commit");
    let our_hash = get_commit_hash(dir.path().to_str().unwrap()).expect("Failed to get commit hash");
    let full = head.to_string();
    assert!(our_hash.len() >= 4, "abbreviation is at least 4 digits");
    assert!(
        full.starts_with(&our_hash),
        "our hash {our_hash} should be a prefix of git's hash {full}"
    );
}

#[test]
fn test_is_dirty_unitiailized_repo() {
    let dir = tempfile::tempdir().expect("failed to create temp dir");
    let err = is_dirty(dir.path().to_str().unwrap()).unwrap_err();
    let err_str = err.message();
    assert!(err_str.starts_with("Could not find a git repository in"));
    assert!(err_str.ends_with("or in any of its parents"));
}

#[test]
fn test_is_dirty_initialized_repo() {
    let dir = tempfile::tempdir().expect("failed to create temp dir");
    init_repo(dir.path(), "master");
    let dirty = is_dirty(dir.path().to_str().unwrap()).expect("Failed to get status");
    assert!(!dirty, "Repository should be CLEAN after initial setup");
}

#[test]
fn test_is_dirty_untracked_file() {
    let dir = tempfile::tempdir().expect("failed to create temp dir");
    init_repo(dir.path(), "master");
    write_file(dir.path(), "test.txt", "");
    let dirty = is_dirty(dir.path().to_str().unwrap()).expect("Failed to get status");
    assert!(dirty, "Repository should be DIRTY after creating untracked file");
}

#[test]
fn test_is_dirty_staged_file() {
    let dir = tempfile::tempdir().expect("failed to create temp dir");
    let repo = init_repo(dir.path(), "master");
    write_file(dir.path(), "test.txt", "");
    stage_file(&repo, "test.txt", "");
    let dirty = is_dirty(dir.path().to_str().unwrap()).expect("Failed to get status");
    assert!(dirty, "Repository should be DIRTY after staging file");
}

#[test]
fn test_is_dirty_committed_file() {
    let dir = tempfile::tempdir().expect("failed to create temp dir");
    let repo = init_repo(dir.path(), "master");
    create_add_commit_file(&repo, dir.path(), "test.txt", "", "initial commit");
    let dirty = is_dirty(dir.path().to_str().unwrap()).expect("Failed to get status");
    assert!(!dirty, "Repository should be CLEAN after staging file");
}

#[test]
fn test_is_dirty_committed_file_then_untracked() {
    let dir = tempfile::tempdir().expect("failed to create temp dir");
    let repo = init_repo(dir.path(), "master");
    create_add_commit_file(&repo, dir.path(), "test.txt", "", "initial commit");
    write_file(dir.path(), "test2.txt", "");
    let dirty = is_dirty(dir.path().to_str().unwrap()).expect("Failed to get status");
    assert!(dirty, "Repository should be DIRTY after creating an untracked file");
}

#[test]
fn test_is_dirty() {
    let dir = tempfile::tempdir().expect("Failed to create temp directory");
    let repo = init_repo(dir.path(), "master");
    create_add_commit_files(
        &repo,
        dir.path(),
        &[("dummy.txt", "dummy content"), (".at-version", "0.1.0")],
        "Initial commit",
    );

    // Initially the repository should be clean
    let status = is_dirty(dir.path().to_str().unwrap()).expect("Failed to get status");
    assert!(!status, "Repository should be clean after initial setup");

    // Create a new untracked file and stage it
    write_file(dir.path(), "untracked.txt", "untracked content");
    let entries = write_blobs(
        &repo,
        &[
            ("dummy.txt", "dummy content"),
            (".at-version", "0.1.0"),
            ("untracked.txt", "untracked content"),
        ],
    );
    write_index(&repo, &entries);

    // Repository should still be dirty with staged changes
    let status = is_dirty(dir.path().to_str().unwrap()).expect("Failed to get status");
    assert!(status, "Repository should be dirty with staged changes");

    // Commit the file
    commit_entries(&repo, &entries, "Add untracked file");

    // Repository should be clean again
    let status = is_dirty(dir.path().to_str().unwrap()).expect("Failed to get status");
    assert!(!status, "Repository should be clean after committing");
}

/// An untracked file flips the verdict to true, staging it keeps it true,
/// and committing it returns it to false.
#[test]
fn dirty_untracked_staged_committed_cycle() {
    let dir = tempfile::tempdir().expect("failed to create temp dir");
    let repo = init_repo(dir.path(), "master");
    create_add_commit_file(&repo, dir.path(), "base.txt", "base", "initial commit");
    assert!(!is_dirty(dir.path().to_str().unwrap()).unwrap());

    write_file(dir.path(), "next.txt", "next");
    assert!(is_dirty(dir.path().to_str().unwrap()).unwrap(), "untracked file is dirty");

    let entries = write_blobs(&repo, &[("base.txt", "base"), ("next.txt", "next")]);
    write_index(&repo, &entries);
    assert!(
        is_dirty(dir.path().to_str().unwrap()).unwrap(),
        "staged but uncommitted file keeps the tree dirty"
    );

    commit_entries(&repo, &entries, "add next");
    assert!(
        !is_dirty(dir.path().to_str().unwrap()).unwrap(),
        "committing the file returns the verdict to clean"
    );
}

/// With zero commits the verdict is false unless the index has staged
/// entries, untracked ignored files notwithstanding.
#[test]
fn dirty_zero_commits_policy() {
    let dir = tempfile::tempdir().expect("failed to create temp dir");
    let repo = init_repo(dir.path(), "master");
    // An ignored, untracked file: the .gitignore ignores itself too.
    write_file(dir.path(), ".gitignore", ".gitignore\nignored.txt\n");
    write_file(dir.path(), "ignored.txt", "zzz");
    assert!(
        !is_dirty(dir.path().to_str().unwrap()).unwrap(),
        "zero commits and only ignored files is clean"
    );
    stage_file(&repo, "staged.txt", "payload");
    write_file(dir.path(), "staged.txt", "payload");
    assert!(
        is_dirty(dir.path().to_str().unwrap()).unwrap(),
        "zero commits with staged entries is dirty"
    );
}

/// An unborn repository still resolves its branch, and hash resolution
/// fails with the no-commits condition.
#[test]
fn unborn_repository_branch_and_hash() {
    let dir = tempfile::tempdir().expect("failed to create temp dir");
    init_repo(dir.path(), "trunk");
    let branch = get_branch(dir.path().to_str().unwrap()).expect("branch of unborn repo");
    assert_eq!(branch, "trunk");
    let err = get_commit_hash(dir.path().to_str().unwrap()).unwrap_err();
    assert!(matches!(err, AtError::NoCommits));
    let err = AtVersion::with_metadata("1.2.3", dir.path().to_str().unwrap()).unwrap_err();
    assert!(matches!(err, AtError::NoCommits));
}

#[test]
fn version_version_get_without_git_info() {
    let version = "1.2.3";
    let result = AtVersion::new(version).unwrap();
    assert_eq!(result.to_version_string(), version);
}

#[test]
fn version_version_get_with_git_info() {
    let dir = tempfile::tempdir().expect("failed to create temp dir");
    let repo = init_repo(dir.path(), "master");
    create_add_commit_file(&repo, dir.path(), ".at-version", "1.2.3", "initial commit");
    let result = AtVersion::with_metadata("1.2.3", dir.path().to_str().unwrap())
        .unwrap()
        .to_version_string();
    assert!(result.starts_with("1.2.3+"), "Version should start with 1.2.3+");
    assert!(
        result.contains("main-") || result.contains("master-"),
        "Should contain branch name"
    );
    assert!(
        !result.ends_with("-dirty"),
        "Should not be dirty as we committed all changes"
    );
}

#[test]
fn version_mod_version_get_without_git_info() {
    let dir = tempfile::tempdir().expect("failed to create temp dir");
    let repo = init_repo(dir.path(), "master");
    create_add_commit_file(&repo, dir.path(), ".at-version", "1.2.3", "initial commit");
    let result = version_mod::get("1.2.3", dir.path().to_str().unwrap(), false).unwrap();
    assert_eq!(result, "1.2.3");
}

#[test]
fn version_mod_version_get_with_git_info() {
    let dir = tempfile::tempdir().expect("failed to create temp dir");
    let repo = init_repo(dir.path(), "master");
    create_add_commit_file(&repo, dir.path(), ".at-version", "1.2.3", "initial commit");
    let result = version_mod::get("1.2.3", dir.path().to_str().unwrap(), true).unwrap();
    assert!(result.starts_with("1.2.3+"), "Version should start with 1.2.3+");
    assert!(
        result.contains("main-") || result.contains("master-"),
        "Should contain branch name"
    );
    assert!(
        !result.ends_with("-dirty"),
        "Should not be dirty as we committed all changes"
    );
}

/// A clean repository composes without the dirty suffix; an untracked file
/// then makes the metadata-qualified version end in `-dirty`.
#[test]
fn resolver_appends_dirty_after_untracked_file() {
    let dir = tempfile::tempdir().expect("failed to create temp dir");
    let repo = init_repo(dir.path(), "master");
    create_add_commit_file(&repo, dir.path(), ".at-version", "1.2.3", "initial commit");
    let clean = version_mod::get("1.2.3", dir.path().to_str().unwrap(), true).unwrap();
    assert!(clean.starts_with("1.2.3+master-"));
    assert!(!clean.ends_with("-dirty"));
    write_file(dir.path(), "scratch.txt", "wip");
    let dirty = version_mod::get("1.2.3", dir.path().to_str().unwrap(), true).unwrap();
    assert!(dirty.ends_with("-dirty"), "expected -dirty suffix, got {dirty}");
    assert!(dirty.starts_with("1.2.3+master-"));
}

/// Without git metadata the resolver reads no repository: the only failure
/// is an unreadable version, and a well-formed one succeeds even where no
/// repository exists at all.
#[test]
fn resolver_without_git_info_ignores_the_repository() {
    let dir = tempfile::tempdir().expect("failed to create temp dir");
    let path = dir.path().to_str().unwrap();
    let ok = version_mod::get("1.2.3", path, false).unwrap();
    assert_eq!(ok, "1.2.3");
    let err = version_mod::get("garbage", path, false).unwrap_err();
    assert!(matches!(err, AtError::VersionFileUnreadable(_)));
}

/// A branch name whose characters cannot stand in build metadata is
/// rejected rather than silently altered.
#[test]
fn invalid_branch_name_for_metadata_errors() {
    let dir = tempfile::tempdir().expect("failed to create temp dir");
    let repo = init_repo(dir.path(), "feat/x");
    create_add_commit_file(&repo, dir.path(), ".at-version", "1.2.3", "initial commit");
    let err = AtVersion::with_metadata("1.2.3", dir.path().to_str().unwrap()).unwrap_err();
    assert!(matches!(err, AtError::InvalidMetadata(_)));
}

/// The hash in the composed metadata is the same abbreviation the hash
/// reader returns, so the wrapper's output reaches the composed string.
#[test]
fn composed_metadata_holds_branch_and_hash() {
    let dir = tempfile::tempdir().expect("failed to create temp dir");
    let repo = init_repo(dir.path(), "work_branch");
    create_add_commit_file(&repo, dir.path(), ".at-version", "9.8.7", "initial commit");
    let hash = get_commit_hash(dir.path().to_str().unwrap()).unwrap();
    let composed = version_mod::get("9.8.7", dir.path().to_str().unwrap(), true).unwrap();
    assert_eq!(composed, format!("9.8.7+work-branch-{hash}"));
}
