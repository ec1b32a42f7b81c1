//! The plain-text changeset template: its bump target names and the template
//! content with the target line substituted.

use vstd::prelude::*;
use vstd::string::*;
use crate::text;

verus! {

/// Everything of the plain-text template before the target value.
pub const TXT_TEMPLATE_HEAD: &'static str = "TARGET: ";

/// Everything of the plain-text template after the target value.
pub const TXT_TEMPLATE_TAIL: &'static str =
    "\n\nCHANGELOG:\n### Added\n\n### Changed\n\n### Fixed\n\n### Removed\n";

/// Which part of the version a changeset bumps.
#[derive(Debug, Clone, Copy, PartialEq, Eq, Structural)]
pub enum BumpTarget {
    Major,
    Minor,
    Patch,
    Unreleased,
}

impl BumpTarget {
    /// The uppercase name of this target in changeset files.
    pub open spec fn spec_str(self) -> Seq<char> {
        match self {
            BumpTarget::Major => "MAJOR"@,
            BumpTarget::Minor => "MINOR"@,
            BumpTarget::Patch => "PATCH"@,
            BumpTarget::Unreleased => "UNRELEASED"@,
        }
    }

    /// The uppercase name of this target.
    pub fn as_str(&self) -> (r: &'static str)
        ensures
            r@ == self.spec_str(),
    {
        match self {
            BumpTarget::Major => "MAJOR",
            BumpTarget::Minor => "MINOR",
            BumpTarget::Patch => "PATCH",
            BumpTarget::Unreleased => "UNRELEASED",
        }
    }

    /// The target named by `s`, compared ignoring ASCII case.
    pub fn from_str(s: &str) -> (r: Option<BumpTarget>)
        ensures
            r == (if text::matches_keyword(s@, "major"@) {
                Some(BumpTarget::Major)
            } else if text::matches_keyword(s@, "minor"@) {
                Some(BumpTarget::Minor)
            } else if text::matches_keyword(s@, "patch"@) {
                Some(BumpTarget::Patch)
            } else if text::matches_keyword(s@, "unreleased"@) {
                Some(BumpTarget::Unreleased)
            } else {
                Option::<BumpTarget>::None
            }),
    {
        if text::eq_ignore_case(s, "major") {
            Some(BumpTarget::Major)
        } else if text::eq_ignore_case(s, "minor") {
            Some(BumpTarget::Minor)
        } else if text::eq_ignore_case(s, "patch") {
            Some(BumpTarget::Patch)
        } else if text::eq_ignore_case(s, "unreleased") {
            Some(BumpTarget::Unreleased)
        } else {
            None
        }
    }
}

/// The plain-text changeset template with the target substituted for `target`.
pub fn template_content(target: BumpTarget) -> (r: String)
    ensures
        r@ == TXT_TEMPLATE_HEAD@ + target.spec_str() + TXT_TEMPLATE_TAIL@,
{
    let mut out = TXT_TEMPLATE_HEAD.to_owned();
    out.append(target.as_str());
    out.append(TXT_TEMPLATE_TAIL);
    out
}

} // verus!
