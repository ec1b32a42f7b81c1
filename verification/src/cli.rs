//! The version subcommands, as plain data. Argument parsing and the styled
//! command-line surface live outside the library.

use vstd::prelude::*;

verus! {

/// Subcommands under `version`.
#[derive(Debug, Clone, Copy)]
pub enum VersionCommand {
    /// Print the current version.
    Get {
        /// Include git information in the version string.
        git_info: bool,
    },
    /// Update the version in the `VERSION` file.
    Update,
}

} // verus!
