//! Which directories the search for repositories under a watched root
//! enters.
use crate::text::{starts_with, starts_with_text, str_eq};
use vstd::prelude::*;

verus! {

/// Build and dependency directories the search never enters.
pub open spec fn ignored_names() -> Seq<Seq<char>> {
    seq!["node_modules"@, ".pnpm"@, "dist"@, "build"@, "target"@, ".next"@, "coverage"@]
}

/// `should_descend`: the root itself is always entered; below it, `.git`
/// is entered (that is where a repository is recognised), other hidden
/// directories are not, and neither are the ignored build directories.
pub open spec fn descends(depth: usize, name: Seq<char>) -> bool {
    if depth == 0 {
        true
    } else if name == ".git"@ {
        true
    } else if starts_with(name, "."@) {
        false
    } else {
        !ignored_names().contains(name)
    }
}

/// `should_descend`, given the entry's depth and file name.
pub fn should_descend(depth: usize, name: &str) -> (r: bool)
    ensures
        r == descends(depth, name@),
{
    if depth == 0 {
        return true;
    }
    if str_eq(name, ".git") {
        return true;
    }
    if starts_with_text(name, ".") {
        return false;
    }
    let ignored = str_eq(name, "node_modules") || str_eq(name, ".pnpm") || str_eq(name, "dist") || str_eq(
        name,
        "build",
    ) || str_eq(name, "target") || str_eq(name, ".next") || str_eq(name, "coverage");
    proof {
        let ig = ignored_names();
        if ig.contains(name@) {
            let k = choose|k: int| 0 <= k < ig.len() && ig[k] == name@;
            assert(ignored);
        }
        if ignored {
            if name@ == "node_modules"@ {
                assert(ig[0] == name@);
            } else if name@ == ".pnpm"@ {
                assert(ig[1] == name@);
            } else if name@ == "dist"@ {
                assert(ig[2] == name@);
            } else if name@ == "build"@ {
                assert(ig[3] == name@);
            } else if name@ == "target"@ {
                assert(ig[4] == name@);
            } else if name@ == ".next"@ {
                assert(ig[5] == name@);
            } else {
                assert(ig[6] == name@);
            }
        }
    }
    !ignored
}

} // verus!
