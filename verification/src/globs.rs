//! Path-glob matching for routing rules and privacy restrictions.
//!
//! A glob list is compiled into one `globset::GlobSet`; a list holding a glob
//! that does not parse, or one that globset cannot build, matches nothing
//! rather than panicking.

use vstd::prelude::*;

verus! {

/// Whether globset builds a `GlobSet` from `globs`: every pattern parses with
/// `Glob::new` and `GlobSetBuilder::build` then succeeds.
pub uninterp spec fn glob_set_built(globs: Seq<Seq<char>>) -> bool;

/// Whether the `GlobSet` globset builds from `globs` matches `path`.
pub uninterp spec fn glob_set_accepts(globs: Seq<Seq<char>>, path: Seq<char>) -> bool;

/// Adds each pattern of `globs`, parsed with `globset::Glob::new`, to a
/// `globset::GlobSetBuilder`, builds the set with `GlobSetBuilder::build`
/// and tests `path` with `GlobSet::is_match`. A pattern that does not parse,
/// or a set that does not build, gives `false`: neither call panics.
#[verifier::external_body]
fn glob_set_is_match(globs: &Vec<String>, path: &str) -> (r: bool)
    ensures
        r == (glob_set_built(globs.deep_view()) && glob_set_accepts(globs.deep_view(), path@)),
{
    let mut builder = globset::GlobSetBuilder::new();
    for pattern in globs {
        match globset::Glob::new(pattern) {
            Ok(glob) => {
                builder.add(glob);
            },
            Err(_) => return false,
        }
    }
    match builder.build() {
        Ok(set) => set.is_match(path),
        Err(_) => false,
    }
}

/// Whether a glob list matches one path: the list is non-empty, globset
/// builds a set from it, and that set matches the path.
pub open spec fn spec_glob_set_matches(globs: Seq<Seq<char>>, path: Seq<char>) -> bool {
    globs.len() > 0 && glob_set_built(globs) && glob_set_accepts(globs, path)
}

/// Whether a glob list matches any of `paths`: the list is non-empty, globset
/// builds a set from it, and that set matches one of the paths.
pub open spec fn spec_paths_match(globs: Seq<Seq<char>>, paths: Seq<Seq<char>>) -> bool {
    &&& globs.len() > 0
    &&& glob_set_built(globs)
    &&& exists|p: int| 0 <= p < paths.len() && glob_set_accepts(globs, #[trigger] paths[p])
}

/// Whether the glob list `globs` matches `path`. An empty list, or one
/// globset cannot build a set from, matches nothing.
pub fn glob_set_matches(globs: &Vec<String>, path: &str) -> (r: bool)
    ensures
        r == spec_glob_set_matches(globs.deep_view(), path@),
{
    if globs.len() == 0 {
        return false;
    }
    glob_set_is_match(globs, path)
}

/// Returns `true` when any of `paths` matches any of the `globs`.
///
/// An empty `globs` list never matches, and an invalid glob is treated as
/// matching nothing rather than panicking.
pub fn paths_match(globs: &Vec<String>, paths: &Vec<String>) -> (r: bool)
    ensures
        r == spec_paths_match(globs.deep_view(), paths.deep_view()),
{
    if globs.len() == 0 {
        return false;
    }
    let mut p: usize = 0;
    while p < paths.len()
        invariant
            p <= paths.len(),
            globs.len() > 0,
            forall|j: int| 0 <= j < p ==> !(glob_set_built(globs.deep_view())
                && glob_set_accepts(globs.deep_view(), #[trigger] paths.deep_view()[j])),
        decreases paths.len() - p,
    {
        if glob_set_is_match(globs, paths[p].as_str()) {
            assert(glob_set_accepts(globs.deep_view(), paths.deep_view()[p as int]));
            return true;
        }
        p = p + 1;
    }
    false
}

} // verus!
