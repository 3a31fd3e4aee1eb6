//! The kinds of failure that this crate reports.

use crate::text::string_views;
use vstd::prelude::*;
use vstd::string::StringExecFns;

verus! {

/// What can fail.
#[derive(Debug, PartialEq, Eq)]
pub enum Error {
    /// A line of a control file breaks the syntax of its field; it holds the line.
    MalformedInput(String),
    /// Dependencies that no index record answers to; it holds their names.
    UnresolvedDependencies(Vec<String>),
    /// Another process holds the lock of a directory; it holds the lock's path.
    LockContention(String),
    /// A file could not be read; it holds what the system said.
    IOFailure(String),
}

/// The first `k` names, a space after each.
pub open spec fn spaced(names: Seq<Seq<char>>, k: int) -> Seq<char>
    decreases k,
{
    if k <= 0 {
        Seq::empty()
    } else {
        spaced(names, k - 1) + names[k - 1] + " "@
    }
}

impl Error {
    /// The error says that `line` is malformed.
    pub open spec fn is_malformed(self, line: Seq<char>) -> bool {
        match self {
            Error::MalformedInput(l) => l@ == line,
            _ => false,
        }
    }

    /// The error says that the dependencies `names` are unresolved.
    pub open spec fn is_unresolved(self, names: Seq<Seq<char>>) -> bool {
        match self {
            Error::UnresolvedDependencies(l) => string_views(l@) == names,
            _ => false,
        }
    }

    /// What is said of the error.
    pub open spec fn message_of(self) -> Seq<char> {
        match self {
            Error::MalformedInput(line) => "Malformed line: "@ + line@,
            Error::UnresolvedDependencies(names) => "Dependency packages not found in cache files: "@
                + spaced(string_views(names@), names@.len() as int),
            Error::LockContention(path) => "Failed to get a lock: "@ + path@,
            Error::IOFailure(what) => what@,
        }
    }

    /// The error in words.
    pub fn message(&self) -> (r: String)
        ensures
            r@ == self.message_of(),
    {
        match self {
            Error::MalformedInput(line) => {
                let mut r = String::from_str("Malformed line: ");
                r.append(line.as_str());
                r
            },
            Error::UnresolvedDependencies(names) => {
                let mut r = String::from_str("Dependency packages not found in cache files: ");
                let ghost head = r@;
                let mut k: usize = 0;
                assert(head + spaced(string_views(names@), 0) =~= head);
                while k < names.len()
                    invariant
                        k <= names.len(),
                        r@ == head + spaced(string_views(names@), k as int),
                    decreases names.len() - k,
                {
                    assert(string_views(names@)[k as int] == names[k as int]@);
                    let ghost before = spaced(string_views(names@), k as int);
                    r.append(names[k].as_str());
                    r.append(" ");
                    assert(r@ =~= head + (before + names[k as int]@ + " "@));
                    k += 1;
                }
                r
            },
            Error::LockContention(path) => {
                let mut r = String::from_str("Failed to get a lock: ");
                r.append(path.as_str());
                r
            },
            Error::IOFailure(what) => what.clone(),
        }
    }
}

} // verus!
