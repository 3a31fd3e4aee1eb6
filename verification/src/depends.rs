//! A mapping from package names to optional version constraints that keeps
//! the order in which the names came.

use crate::text::same_text;
use vstd::prelude::*;

verus! {

/// The text that an optional string stands for.
pub open spec fn text_of(r: Option<String>) -> Option<Seq<char>> {
    match r {
        Some(t) => Some(t@),
        None => None,
    }
}

/// The first index at or after `from` whose entry has the name `key`, or -1.
pub open spec fn key_index_from(
    s: Seq<(Seq<char>, Option<Seq<char>>)>,
    key: Seq<char>,
    from: int,
) -> int
    decreases s.len() - from,
{
    if from < 0 || from >= s.len() {
        -1
    } else if s[from].0 == key {
        from
    } else {
        key_index_from(s, key, from + 1)
    }
}

/// The index of the first entry named `key`, or -1.
pub open spec fn key_index(s: Seq<(Seq<char>, Option<Seq<char>>)>, key: Seq<char>) -> int {
    key_index_from(s, key, 0)
}

/// No name occurs twice.
pub open spec fn distinct_keys(s: Seq<(Seq<char>, Option<Seq<char>>)>) -> bool {
    forall|i: int, j: int| 0 <= i < j < s.len() ==> (#[trigger] s[i]).0 != (#[trigger] s[j]).0
}

/// `s` after `key` was given the constraint `val`: in its old place where
/// `s` had the name, at the end where it had not.
pub open spec fn inserted(
    s: Seq<(Seq<char>, Option<Seq<char>>)>,
    key: Seq<char>,
    val: Option<Seq<char>>,
) -> Seq<(Seq<char>, Option<Seq<char>>)> {
    let i = key_index(s, key);
    if i >= 0 {
        s.update(i, (key, val))
    } else {
        s.push((key, val))
    }
}

/// The index of a name is that of an entry with the name, and no entry
/// before it has the name.
pub proof fn lemma_key_index(s: Seq<(Seq<char>, Option<Seq<char>>)>, key: Seq<char>, from: int)
    requires
        0 <= from,
    ensures
        ({
            let i = key_index_from(s, key, from);
            &&& (i == -1 || (from <= i < s.len() && s[i].0 == key))
            &&& forall|j: int| from <= j < s.len() && (j < i || i == -1) ==> s[j].0 != key
        }),
    decreases s.len() - from,
{
    if from < s.len() && s[from].0 != key {
        lemma_key_index(s, key, from + 1);
    }
}

/// Giving a name a constraint keeps the names distinct.
pub proof fn lemma_inserted_distinct(
    s: Seq<(Seq<char>, Option<Seq<char>>)>,
    key: Seq<char>,
    val: Option<Seq<char>>,
)
    requires
        distinct_keys(s),
    ensures
        distinct_keys(inserted(s, key, val)),
{
    lemma_key_index(s, key, 0);
}

/// Names of packages, each with the version that is asked for, if any, in
/// the order in which the names came.
#[derive(Debug, PartialEq, Eq)]
pub struct DependencyMap {
    pub entries: Vec<(String, Option<String>)>,
}

impl View for DependencyMap {
    type V = Seq<(Seq<char>, Option<Seq<char>>)>;

    open spec fn view(&self) -> Seq<(Seq<char>, Option<Seq<char>>)> {
        Seq::new(self.entries.len() as nat, |i: int| (self.entries[i].0@, text_of(self.entries[i].1)))
    }
}

impl DependencyMap {
    /// Each name has one entry.
    pub open spec fn wf(&self) -> bool {
        distinct_keys(self@)
    }

    /// A map without names.
    pub fn new() -> (r: Self)
        ensures
            r@ == Seq::<(Seq<char>, Option<Seq<char>>)>::empty(),
            r.wf(),
    {
        let r = DependencyMap { entries: Vec::new() };
        assert(r@ =~= Seq::empty());
        r
    }

    /// The number of names.
    pub fn len(&self) -> (n: usize)
        ensures
            n == self@.len(),
    {
        self.entries.len()
    }

    /// The place of the entry named `key`.
    pub fn position(&self, key: &str) -> (r: Option<usize>)
        ensures
            match r {
                Some(i) => i == key_index(self@, key@),
                None => key_index(self@, key@) == -1,
            },
    {
        let mut i: usize = 0;
        while i < self.entries.len()
            invariant
                i <= self.entries.len(),
                key_index(self@, key@) == key_index_from(self@, key@, i as int),
            decreases self.entries.len() - i,
        {
            assert(self@[i as int].0 == self.entries[i as int].0@);
            if same_text(self.entries[i].0.as_str(), key) {
                return Some(i);
            }
            i += 1;
        }
        None
    }

    /// Whether `key` is among the names.
    pub fn contains_key(&self, key: &str) -> (r: bool)
        ensures
            r == (key_index(self@, key@) >= 0),
    {
        self.position(key).is_some()
    }

    /// The constraint that `key` has: `None` where the name has no entry,
    /// `Some(None)` where it has one without a constraint.
    pub fn get(&self, key: &str) -> (r: Option<Option<String>>)
        ensures
            match r {
                Some(v) => key_index(self@, key@) >= 0 && self@[key_index(self@, key@)].1
                    == text_of(v),
                None => key_index(self@, key@) == -1,
            },
    {
        match self.position(key) {
            Some(i) => {
                proof {
                    lemma_key_index(self@, key@, 0);
                }
                let v = match &self.entries[i].1 {
                    Some(t) => Some(t.clone()),
                    None => None,
                };
                Some(v)
            },
            None => None,
        }
    }

    /// Gives the name `key` the constraint `val`, in place of the one it had.
    pub fn insert(&mut self, key: String, val: Option<String>)
        ensures
            final(self)@ == inserted(old(self)@, key@, text_of(val)),
            old(self).wf() ==> final(self).wf(),
    {
        proof {
            lemma_key_index(self@, key@, 0);
            if self.wf() {
                lemma_inserted_distinct(self@, key@, text_of(val));
            }
        }
        match self.position(key.as_str()) {
            Some(i) => {
                self.entries.set(i, (key, val));
                assert(self@ =~= inserted(old(self)@, key@, text_of(val)));
            },
            None => {
                self.entries.push((key, val));
                assert(self@ =~= inserted(old(self)@, key@, text_of(val)));
            },
        }
    }

    /// A copy of the map.
    pub fn copy(&self) -> (r: Self)
        ensures
            r@ == self@,
    {
        let mut entries: Vec<(String, Option<String>)> = Vec::new();
        let mut i: usize = 0;
        while i < self.entries.len()
            invariant
                i <= self.entries.len(),
                entries.len() == i,
                forall|k: int|
                    0 <= k < i ==> (#[trigger] entries[k]).0@ == self.entries[k].0@ && text_of(
                        entries[k].1,
                    ) == text_of(self.entries[k].1),
            decreases self.entries.len() - i,
        {
            let v = match &self.entries[i].1 {
                Some(t) => Some(t.clone()),
                None => None,
            };
            entries.push((self.entries[i].0.clone(), v));
            i += 1;
        }
        let r = DependencyMap { entries };
        assert(r@ =~= self@);
        r
    }
}

} // verus!
