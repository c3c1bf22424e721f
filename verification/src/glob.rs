//! Globs: whether the matcher of a glob can be built, and whether it matches
//! a path. A glob stands for the regular expression that globset translates
//! it into, matched on the bytes of the path.

use vstd::prelude::*;
use crate::outside::{
    byte_regex_builds, byte_regex_match, byte_regex_matches, glob_compiles, glob_regex,
    glob_regex_of,
};

verus! {

/// Whether a matcher can be built from the glob `pattern`: globset accepts
/// it, and its regular expression builds.
pub open spec fn glob_matcher_builds(pattern: Seq<char>) -> bool {
    glob_compiles(pattern) && byte_regex_builds(glob_regex_of(pattern))
}

/// Whether the matcher of the glob `pattern` matches `path`.
pub open spec fn glob_matches(pattern: Seq<char>, path: Seq<char>) -> bool {
    byte_regex_matches(glob_regex_of(pattern), path)
}

/// A glob matches a path exactly when its regular expression (the one that
/// globset translates it into) matches the path, whatever the path's length
/// or contents: matching adds no condition of its own.
pub proof fn lemma_glob_matches_regex(pattern: Seq<char>, path: Seq<char>)
    ensures
        glob_matches(pattern, path) == byte_regex_matches(glob_regex_of(pattern), path),
{
}

/// Whether the glob `pattern` matches `path`: `None` where no matcher can be
/// built from the glob.
pub fn glob_match(pattern: &str, path: &str) -> (r: Option<bool>)
    ensures
        r is Some <==> glob_matcher_builds(pattern@),
        r matches Some(b) ==> b == glob_matches(pattern@, path@),
        r matches Some(b) ==> b == byte_regex_matches(glob_regex_of(pattern@), path@),
{
    match glob_regex(pattern) {
        Some(re) => byte_regex_match(re.as_str(), path),
        None => None,
    }
}

/// Whether a matcher can be built from the glob `pattern`.
pub fn glob_matcher_valid(pattern: &str) -> (r: bool)
    ensures
        r == glob_matcher_builds(pattern@),
{
    glob_match(pattern, "").is_some()
}

/// Whether the glob `pattern`, whose matcher can be built, matches `path`.
pub fn glob_is_match(pattern: &str, path: &str) -> (r: bool)
    requires
        glob_matcher_builds(pattern@),
    ensures
        r == glob_matches(pattern@, path@),
{
    match glob_match(pattern, path) {
        Some(b) => b,
        None => false,
    }
}

} // verus!
