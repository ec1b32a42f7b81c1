//! Developer-workflow library that resolves a project's canonical version
//! string from an on-disk git working copy: the active branch name, the
//! abbreviated commit id, a precise dirty classification, and their
//! combination with a stored semantic version into a single
//! build-metadata-qualified version string.

pub mod changeset;
pub mod cli;
pub mod config;
pub mod error;
pub mod git;
pub mod init;
pub mod template;
pub mod text;
pub mod utils;
pub mod version;
pub mod version_mod;
