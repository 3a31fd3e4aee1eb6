//! The locks of the two directories that are written to.

use vstd::prelude::*;
use vstd::string::StringExecFns;

verus! {

/// The directories that are locked while they are written to.
#[derive(Debug, PartialEq, Eq, Clone, Copy, Structural)]
pub enum Lock {
    ARCHIVE,
    LIST,
}

impl Lock {
    /// The directory that the lock guards.
    pub open spec fn directory_of(self) -> Seq<char> {
        match self {
            Lock::ARCHIVE => "archives"@,
            Lock::LIST => "lists"@,
        }
    }

    /// The directory that the lock guards.
    pub fn directory(&self) -> (r: String)
        ensures
            r@ == self.directory_of(),
    {
        match self {
            Lock::ARCHIVE => String::from_str("archives"),
            Lock::LIST => String::from_str("lists"),
        }
    }

    /// The file that is locked: `lock` in the directory that the lock guards.
    pub fn path(&self) -> (r: String)
        ensures
            r@ == self.directory_of() + "/lock"@,
    {
        let mut r = self.directory();
        r.append("/lock");
        r
    }
}

} // verus!
