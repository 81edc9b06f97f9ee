//! The bundle of a program: the directory that holds it and its resources.

use vstd::prelude::*;

verus! {

/// A bundle, by the path of its directory in the guest's file system.
#[derive(Debug)]
pub struct Bundle {
    pub path: Vec<u8>,
}

impl Bundle {
    /// The path of the bundle's directory.
    pub fn bundle_path(&self) -> (path: &[u8])
        ensures
            path@ == self.path@,
    {
        self.path.as_slice()
    }
}

} // verus!
