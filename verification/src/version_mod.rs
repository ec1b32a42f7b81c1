//! The version composer: the stored version file contents, optionally
//! qualified with `branch-hash[-dirty]` build metadata read from the
//! repository enclosing a path.

use vstd::prelude::*;
use crate::error::AtError;
use crate::text;
use crate::version::AtVersion;

verus! {

/// Resolve the current version string.
///
/// Without `git_info` the result is exactly the stored contents with
/// surrounding whitespace trimmed, and the only failure is an unreadable
/// version. With `git_info` the result carries `+branch-hash[-dirty]` build
/// metadata over the same major, minor and patch the stored contents hold.
pub fn get(contents: &str, path: &str, git_info: bool) -> (r: Result<String, AtError>)
    ensures
        match r {
            Ok(s) => {
                &&& !git_info ==> s@ == text::spec_trim(contents@)
                &&& exists|v: AtVersion|
                    {
                        &&& #[trigger] v.spec_str() == s@
                        &&& v.wf()
                        &&& (git_info ==> v.build is Some)
                        &&& exists|w: AtVersion|
                            {
                                &&& w.wf()
                                &&& #[trigger] w.spec_str() == text::spec_trim(contents@)
                                &&& w.major == v.major
                                &&& w.minor == v.minor
                                &&& w.patch == v.patch
                            }
                    }
            },
            Err(e) => {
                &&& !git_info ==> e is VersionFileUnreadable
                &&& e is VersionFileUnreadable ==> forall|v: AtVersion|
                    v.wf() ==> text::spec_trim(contents@) != #[trigger] v.spec_str()
                &&& !(e is VersionFileUnreadable) ==> exists|v: AtVersion|
                    v.wf() && #[trigger] v.spec_str() == text::spec_trim(contents@)
            },
        },
{
    if git_info {
        let v = AtVersion::with_metadata(contents, path)?;
        let s = v.to_version_string();
        proof {
            assert(v.spec_str() == s@ && v.wf() && v.build is Some);
        }
        Ok(s)
    } else {
        let v = AtVersion::new(contents)?;
        let s = v.to_version_string();
        proof {
            assert(v.spec_str() == s@ && v.wf());
            assert(v.spec_str() == text::spec_trim(contents@) && v.major == v.major);
        }
        Ok(s)
    }
}

} // verus!
