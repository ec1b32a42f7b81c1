//! The project root directory and its file probes.

use vstd::prelude::*;
use vstd::string::*;

verus! {

/// Newtype wrapping a path that is supposed to point at the project root.
pub struct ProjectRootDir(pub String);

/// Relies on std::path::Path::is_file: whether the path points at an
/// existing regular file.
#[verifier::external_body]
fn path_is_file(p: &str) -> (r: bool) {
    std::path::Path::new(p).is_file()
}

impl ProjectRootDir {
    /// Whether the project root holds a regular file called `name`.
    pub fn contains_file(&self, name: &str) -> bool {
        let mut p = self.0.clone();
        p.push('/');
        p.append(name);
        path_is_file(p.as_str())
    }
}

} // verus!
