//! The handle through which the package manager reaches the file system.
use vstd::prelude::*;

verus! {

/// A handle on the file system; its operations are performed by the caller.
#[derive(Debug, Clone, Copy)]
pub struct FileSystem;

impl FileSystem {
    pub fn new() -> (r: Self) {
        FileSystem
    }
}

} // verus!
