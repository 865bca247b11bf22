//! The configuration of a branch: the remote it tracks and how it merges.
use vstd::prelude::*;

verus! {

/// A branch's name, the remote reference it tracks, and how changes are
/// merged into it.
pub struct Branch {
    pub name: String,
    pub remote: String,
    pub merge: String,
}

impl Branch {
    /// Creates a branch with the given name, remote and merge configuration.
    pub fn new(name: String, remote: String, merge: String) -> (b: Branch)
        ensures
            b.name@ == name@,
            b.remote@ == remote@,
            b.merge@ == merge@,
    {
        Branch { name, remote, merge }
    }
}

} // verus!
