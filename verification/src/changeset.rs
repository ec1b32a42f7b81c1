//! Changeset template generation: the bump target and the template content
//! with the target line substituted.

use vstd::prelude::*;
use vstd::string::*;

verus! {

/// Everything of the changeset template before the target value.
pub const TEMPLATE_HEAD: &'static str =
    "# Changeset for the next release.\n#\n# target: which part of the version the change bumps:\n#   MAJOR, MINOR, PATCH or UNRELEASED\ntarget: ";

/// Everything of the changeset template after the target value.
pub const TEMPLATE_TAIL: &'static str =
    "\n\n# changes: the changelog entries this changeset adds, grouped by kind.\nchanges:\n  added: []\n  changed: []\n  fixed: []\n  removed: []\n";

/// Which part of the version a changeset bumps.
#[derive(Debug, Clone, Copy, Default, PartialEq, Eq, Structural)]
pub enum BumpTarget {
    Major,
    Minor,
    #[default]
    Patch,
    Unreleased,
}

impl BumpTarget {
    /// The uppercase name of this target in template and changeset files.
    pub open spec fn spec_str(self) -> Seq<char> {
        match self {
            BumpTarget::Major => "MAJOR"@,
            BumpTarget::Minor => "MINOR"@,
            BumpTarget::Patch => "PATCH"@,
            BumpTarget::Unreleased => "UNRELEASED"@,
        }
    }

    /// The uppercase name of this target.
    pub fn as_str(&self) -> (r: &'static str)
        ensures
            r@ == self.spec_str(),
    {
        match self {
            BumpTarget::Major => "MAJOR",
            BumpTarget::Minor => "MINOR",
            BumpTarget::Patch => "PATCH",
            BumpTarget::Unreleased => "UNRELEASED",
        }
    }
}

/// The changeset template with the target line substituted for `target`.
pub fn get_template_content(target: BumpTarget) -> (r: String)
    ensures
        r@ == TEMPLATE_HEAD@ + target.spec_str() + TEMPLATE_TAIL@,
{
    let mut out = TEMPLATE_HEAD.to_owned();
    out.append(target.as_str());
    out.append(TEMPLATE_TAIL);
    out
}

} // verus!
