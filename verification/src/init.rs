//! Project-type detection from marker files at the project root. The
//! interactive wizard and styled output around it live outside the library.

use vstd::prelude::*;
use vstd::string::*;
use crate::utils::ProjectRootDir;

verus! {

/// Print what would be done without doing it.
#[derive(Debug, Clone, Copy)]
pub struct DryRun(pub bool);

/// Accept all recommended or default values without asking.
#[derive(Debug, Clone, Copy)]
pub struct Yes(pub bool);

/// The kind of project a root directory holds.
#[derive(Debug, Clone, Copy, PartialEq, Eq, Structural)]
pub enum ProjectType {
    Go,
    JavaScriptOrTypeScript,
    Rust,
    Python,
    ManualSetup,
}

/// The project type chosen from which marker files exist, in priority order:
/// `Cargo.toml`, then `go.mod`, then the Python project files `pyproject.toml`
/// and `setup.py`, then the JavaScript/TypeScript project files
/// `package.json` and `deno.json`. The second component names the project
/// file when one distinguishes the type.
pub fn choose_project_type(
    has_cargo: bool,
    has_go_mod: bool,
    has_pyproject: bool,
    has_setup_py: bool,
    has_package_json: bool,
    has_deno_json: bool,
) -> (r: (Option<ProjectType>, Option<String>))
    ensures
        has_cargo ==> r.0 == Some(ProjectType::Rust) && r.1 is None,
        !has_cargo && has_go_mod ==> r.0 == Some(ProjectType::Go) && r.1 is None,
        !has_cargo && !has_go_mod && has_pyproject ==> r.0 == Some(ProjectType::Python) && (
        r.1 matches Some(f) && f@ == "pyproject.toml"@),
        !has_cargo && !has_go_mod && !has_pyproject && has_setup_py ==> r.0 == Some(
            ProjectType::Python,
        ) && (r.1 matches Some(f) && f@ == "setup.py"@),
        !has_cargo && !has_go_mod && !has_pyproject && !has_setup_py && has_package_json ==> r.0
            == Some(ProjectType::JavaScriptOrTypeScript) && (r.1 matches Some(f) && f@
            == "package.json"@),
        !has_cargo && !has_go_mod && !has_pyproject && !has_setup_py && !has_package_json
            && has_deno_json ==> r.0 == Some(ProjectType::JavaScriptOrTypeScript) && (
        r.1 matches Some(f) && f@ == "deno.json"@),
        !has_cargo && !has_go_mod && !has_pyproject && !has_setup_py && !has_package_json
            && !has_deno_json ==> r.0 is None && r.1 is None,
{
    if has_cargo {
        (Some(ProjectType::Rust), None)
    } else if has_go_mod {
        (Some(ProjectType::Go), None)
    } else if has_pyproject {
        (Some(ProjectType::Python), Some("pyproject.toml".to_owned()))
    } else if has_setup_py {
        (Some(ProjectType::Python), Some("setup.py".to_owned()))
    } else if has_package_json {
        (Some(ProjectType::JavaScriptOrTypeScript), Some("package.json".to_owned()))
    } else if has_deno_json {
        (Some(ProjectType::JavaScriptOrTypeScript), Some("deno.json".to_owned()))
    } else {
        (None, None)
    }
}

/// The `link` entry a tailored configuration gets: the manifest file that
/// carries a project's version, when the project type determines one. Rust
/// projects always link `Cargo.toml`; Python and JavaScript/TypeScript
/// projects link the detected project file; the rest link nothing.
pub fn link_entry_for(project: ProjectType, project_file: Option<&str>) -> (r: Option<String>)
    ensures
        match project {
            ProjectType::Rust => r matches Some(f) && f@ == "Cargo.toml"@,
            ProjectType::Go | ProjectType::ManualSetup => r is None,
            ProjectType::Python | ProjectType::JavaScriptOrTypeScript => match project_file {
                Some(p) => r matches Some(f) && f@ == p@,
                None => r is None,
            },
        },
{
    match project {
        ProjectType::Rust => Some("Cargo.toml".to_owned()),
        ProjectType::Go | ProjectType::ManualSetup => None,
        ProjectType::Python | ProjectType::JavaScriptOrTypeScript => match project_file {
            Some(p) => Some(p.to_owned()),
            None => None,
        },
    }
}

/// Detect the project type of the root directory from the configuration
/// files unique to each kind of project.
pub fn detect_project_type(root: &ProjectRootDir) -> (Option<ProjectType>, Option<String>) {
    let has_cargo = root.contains_file("Cargo.toml");
    let has_go_mod = root.contains_file("go.mod");
    let has_pyproject = root.contains_file("pyproject.toml");
    let has_setup_py = root.contains_file("setup.py");
    let has_package_json = root.contains_file("package.json");
    let has_deno_json = root.contains_file("deno.json");
    choose_project_type(
        has_cargo,
        has_go_mod,
        has_pyproject,
        has_setup_py,
        has_package_json,
        has_deno_json,
    )
}

} // verus!
