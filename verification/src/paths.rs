//! Filesystem paths as the store builds them.
use std::path::PathBuf;
use vstd::prelude::*;

verus! {

#[verifier::external_type_specification]
#[verifier::external_body]
pub struct ExPathBuf(PathBuf);

/// `PathBuf::clone`: a path equal to `p`.
pub assume_specification[ <PathBuf as Clone>::clone ](p: &PathBuf) -> (r: PathBuf)
    ensures
        r == *p,
;

/// The path that `PathBuf::from` makes of the text `s`.
pub uninterp spec fn path_of(s: Seq<char>) -> PathBuf;

/// `PathBuf::from`: the path written as `s`. The contract names the result.
#[verifier::external_body]
pub fn path_from(s: &str) -> (p: PathBuf)
    ensures
        p == path_of(s@),
{
    PathBuf::from(s)
}

/// The path that `Path::join` makes of `base` and the text `s`.
pub uninterp spec fn joined(base: PathBuf, s: Seq<char>) -> PathBuf;

/// `Path::join`: `s` appended to `base` as a further component (or
/// replacing it where `s` is absolute). The contract names the result.
#[verifier::external_body]
pub fn path_join(base: &PathBuf, s: &str) -> (p: PathBuf)
    ensures
        p == joined(*base, s@),
{
    base.join(s)
}

} // verus!
