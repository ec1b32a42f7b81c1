//! Project-type detection and root-directory probes.

use artisan_tools::init::{choose_project_type, detect_project_type, ProjectType};
use artisan_tools::utils::ProjectRootDir;
use std::io::Write as _;

fn place_file(dir: &std::path::Path, name: &str) {
    let mut f = tempfile::NamedTempFile::new_in(dir).expect("failed to create temp file");
    f.write_all(b"x").expect("failed to write");
    f.persist(dir.join(name)).expect("failed to place file");
}

#[test]
fn choose_prefers_rust_over_everything() {
    let (t, f) = choose_project_type(true, true, true, true, true, true);
    assert_eq!(t, Some(ProjectType::Rust));
    assert!(f.is_none());
}

#[test]
fn choose_go_without_cargo() {
    let (t, f) = choose_project_type(false, true, true, false, false, false);
    assert_eq!(t, Some(ProjectType::Go));
    assert!(f.is_none());
}

#[test]
fn choose_python_names_its_project_file() {
    let (t, f) = choose_project_type(false, false, true, false, false, false);
    assert_eq!(t, Some(ProjectType::Python));
    assert_eq!(f.as_deref(), Some("pyproject.toml"));
    let (t, f) = choose_project_type(false, false, false, true, false, false);
    assert_eq!(t, Some(ProjectType::Python));
    assert_eq!(f.as_deref(), Some("setup.py"));
}

#[test]
fn choose_javascript_names_its_project_file() {
    let (t, f) = choose_project_type(false, false, false, false, true, true);
    assert_eq!(t, Some(ProjectType::JavaScriptOrTypeScript));
    assert_eq!(f.as_deref(), Some("package.json"));
    let (t, f) = choose_project_type(false, false, false, false, false, true);
    assert_eq!(t, Some(ProjectType::JavaScriptOrTypeScript));
    assert_eq!(f.as_deref(), Some("deno.json"));
}

#[test]
fn choose_nothing_detects_nothing() {
    let (t, f) = choose_project_type(false, false, false, false, false, false);
    assert!(t.is_none());
    assert!(f.is_none());
}

#[test]
fn contains_file_probes_the_root() {
    let dir = tempfile::tempdir().expect("failed to create temp dir");
    place_file(dir.path(), "go.mod");
    let root = ProjectRootDir(dir.path().to_str().unwrap().to_string());
    assert!(root.contains_file("go.mod"));
    assert!(!root.contains_file("Cargo.toml"));
}

#[test]
fn detect_project_type_from_marker_files() {
    let dir = tempfile::tempdir().expect("failed to create temp dir");
    place_file(dir.path(), "pyproject.toml");
    let root = ProjectRootDir(dir.path().to_str().unwrap().to_string());
    let (t, f) = detect_project_type(&root);
    assert_eq!(t, Some(ProjectType::Python));
    assert_eq!(f.as_deref(), Some("pyproject.toml"));
}
