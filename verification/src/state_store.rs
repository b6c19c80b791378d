//! The directory that one project's persisted state lives in.

use vstd::prelude::*;

verus! {

/// A project's state directory.
#[derive(Debug, PartialEq, Eq)]
pub struct StateStore {
    /// The directory, as an absolute path.
    pub dir: String,
}

impl StateStore {
    /// The store rooted at `dir`.
    pub fn at(dir: String) -> (r: Self)
        ensures
            r.dir == dir,
    {
        StateStore { dir }
    }
}

impl Clone for StateStore {
    fn clone(&self) -> (r: Self)
        ensures
            r == *self,
    {
        StateStore { dir: self.dir.clone() }
    }
}

} // verus!
