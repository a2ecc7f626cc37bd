//! The model of one directory: a list of entries with pairwise distinct
//! names.  An entry is a regular file with its text, a symbolic link with
//! the name of the entry it targets inside the same directory, or anything
//! else (a subdirectory, say), which the store never reads.

use vstd::prelude::*;
use vstd::pervasive::VecAdditionalExecFns;

verus! {

/// What a directory entry is.
#[derive(Debug)]
pub enum Node {
    /// A regular file and its contents.
    File { text: String },
    /// A symbolic link to the entry of the same directory called `target`.
    Link { target: String },
    /// Any other kind of entry.
    Other,
}

/// One directory entry.
#[derive(Debug)]
pub struct Entry {
    pub name: String,
    pub node: Node,
}

/// The contents of one directory.
#[derive(Debug)]
pub struct Directory {
    pub entries: Vec<Entry>,
}

impl Clone for Node {
    /// The copy is the same node.
    fn clone(&self) -> (res: Self)
        ensures
            res == *self,
    {
        match self {
            Node::File { text } => Node::File { text: text.clone() },
            Node::Link { target } => Node::Link { target: target.clone() },
            Node::Other => Node::Other,
        }
    }
}

impl Clone for Entry {
    /// The copy is the same entry.
    fn clone(&self) -> (res: Self)
        ensures
            res == *self,
    {
        Entry { name: self.name.clone(), node: self.node.clone() }
    }
}

impl Clone for Directory {
    /// The copy holds the same entries.
    fn clone(&self) -> (res: Self)
        ensures
            res.entries@ == self.entries@,
    {
        let entries = self.entries.clone();
        proof {
            assert(entries@ =~= self.entries@) by {
                assert(forall|i: int|
                    0 <= i < self.entries@.len() ==> cloned::<Entry>(
                        self.entries@[i],
                        #[trigger] entries@[i],
                    ));
            }
        }
        Directory { entries }
    }
}

/// `post` differs from `pre` at most at the entry called `n`: every other
/// name is present in one exactly when it is present in the other, with
/// the same node.
pub open spec fn unchanged_except(pre: Directory, post: Directory, n: Seq<char>) -> bool {
    &&& forall|m: Seq<char>|
        #![trigger post.has_name(m)]
        #![trigger pre.has_name(m)]
        m != n ==> post.has_name(m) == pre.has_name(m)
    &&& forall|m: Seq<char>|
        #![trigger post.node_of(m)]
        #![trigger pre.node_of(m)]
        m != n && pre.has_name(m) ==> post.node_of(m) == pre.node_of(m)
}

impl Directory {
    /// Entry names are pairwise distinct.
    pub open spec fn wf(self) -> bool {
        forall|i: int, j: int|
            0 <= i < j < self.entries@.len() ==> (#[trigger] self.entries@[i]).name@ != (
            #[trigger] self.entries@[j]).name@
    }

    /// Some entry is called `n`.
    pub open spec fn has_name(self, n: Seq<char>) -> bool {
        exists|i: int| 0 <= i < self.entries@.len() && (#[trigger] self.entries@[i]).name@ == n
    }

    /// The position of the entry called `n`.
    pub open spec fn index_of(self, n: Seq<char>) -> int {
        choose|i: int| 0 <= i < self.entries@.len() && (#[trigger] self.entries@[i]).name@ == n
    }

    /// The entry called `n`.
    pub open spec fn node_of(self, n: Seq<char>) -> Node {
        self.entries@[self.index_of(n)].node
    }

    /// In a well-formed directory the entry called `n` stands at
    /// `index_of(n)` and nowhere else.
    pub proof fn lemma_index_of(self, n: Seq<char>)
        requires
            self.wf(),
            self.has_name(n),
        ensures
            0 <= self.index_of(n) < self.entries@.len(),
            self.entries@[self.index_of(n)].name@ == n,
            forall|i: int|
                0 <= i < self.entries@.len() && (#[trigger] self.entries@[i]).name@ == n ==> i
                    == self.index_of(n),
    {
    }

    /// An empty directory.
    pub fn new() -> (r: Directory)
        ensures
            r.wf(),
            r.entries@.len() == 0,
            forall|n: Seq<char>| !r.has_name(n),
    {
        Directory { entries: Vec::new() }
    }

    /// Looks an entry up by name.
    pub fn find(&self, name: &String) -> (r: Option<usize>)
        ensures
            r matches Some(i) ==> i < self.entries@.len() && self.entries@[i as int].name@ == name@
                && self.has_name(name@),
            r is None ==> !self.has_name(name@),
    {
        let n = self.entries.len();
        let mut i: usize = 0;
        while i < n
            invariant
                i <= n,
                n == self.entries@.len(),
                forall|j: int| 0 <= j < i ==> (#[trigger] self.entries@[j]).name@ != name@,
            decreases n - i,
        {
            if self.entries[i].name == *name {
                return Some(i);
            }
            i += 1;
        }
        None
    }

    /// Creates or replaces the entry called `name`, leaving every other
    /// entry as it was.
    pub fn upsert(&mut self, name: String, node: Node)
        requires
            old(self).wf(),
        ensures
            final(self).wf(),
            final(self).has_name(name@),
            final(self).node_of(name@) == node,
            unchanged_except(*old(self), *final(self), name@),
    {
        let found = self.find(&name);
        match found {
            Some(i) => {
                self.entries.set(i, Entry { name, node });
                proof {
                    self.lemma_upsert_at(*old(self), i as int, name@, node);
                }
            },
            None => {
                self.entries.push(Entry { name, node });
                proof {
                    self.lemma_upsert_pushed(*old(self), name@, node);
                }
            },
        }
    }

    /// After replacing the entry at the unique position of `n`, lookups
    /// behave as `upsert` promises.
    proof fn lemma_upsert_at(self, prev: Directory, i: int, n: Seq<char>, node: Node)
        requires
            prev.wf(),
            prev.has_name(n),
            0 <= i < prev.entries@.len(),
            prev.entries@[i].name@ == n,
            self.entries@.len() == prev.entries@.len(),
            self.entries@[i].name@ == n,
            self.entries@[i].node == node,
            forall|k: int|
                0 <= k < self.entries@.len() && k != i ==> self.entries@[k] == prev.entries@[k],
        ensures
            self.wf(),
            self.has_name(n),
            self.node_of(n) == node,
            forall|m: Seq<char>| m != n ==> self.has_name(m) == prev.has_name(m),
            forall|m: Seq<char>|
                m != n && prev.has_name(m) ==> self.node_of(m) == prev.node_of(m),
    {
        prev.lemma_index_of(n);
        assert forall|p: int, q: int| 0 <= p < q < self.entries@.len() implies (
        #[trigger] self.entries@[p]).name@ != (#[trigger] self.entries@[q]).name@ by {
            assert(prev.entries@[p].name@ != prev.entries@[q].name@);
        }
        self.lemma_index_of(n);
        assert forall|m: Seq<char>| m != n implies self.has_name(m) == prev.has_name(m) by {
            if self.has_name(m) {
                let k = choose|k: int|
                    0 <= k < self.entries@.len() && (#[trigger] self.entries@[k]).name@ == m;
                assert(prev.entries@[k].name@ == m);
            }
            if prev.has_name(m) {
                let k = choose|k: int|
                    0 <= k < prev.entries@.len() && (#[trigger] prev.entries@[k]).name@ == m;
                assert(self.entries@[k].name@ == m);
            }
        }
        assert forall|m: Seq<char>| m != n && prev.has_name(m) implies self.node_of(m)
            == prev.node_of(m) by {
            prev.lemma_index_of(m);
            self.lemma_index_of(m);
            let k = prev.index_of(m);
            assert(self.entries@[k].name@ == m);
        }
    }

    /// After appending an entry with a fresh name, lookups behave as
    /// `upsert` promises.
    proof fn lemma_upsert_pushed(self, prev: Directory, n: Seq<char>, node: Node)
        requires
            prev.wf(),
            !prev.has_name(n),
            self.entries@.len() == prev.entries@.len() + 1,
            self.entries@[self.entries@.len() - 1].name@ == n,
            self.entries@[self.entries@.len() - 1].node == node,
            forall|k: int| 0 <= k < prev.entries@.len() ==> self.entries@[k] == prev.entries@[k],
        ensures
            self.wf(),
            self.has_name(n),
            self.node_of(n) == node,
            forall|m: Seq<char>| m != n ==> self.has_name(m) == prev.has_name(m),
            forall|m: Seq<char>|
                m != n && prev.has_name(m) ==> self.node_of(m) == prev.node_of(m),
    {
        let last = self.entries@.len() - 1;
        assert forall|p: int, q: int| 0 <= p < q < self.entries@.len() implies (
        #[trigger] self.entries@[p]).name@ != (#[trigger] self.entries@[q]).name@ by {
            if q < last {
                assert(prev.entries@[p].name@ != prev.entries@[q].name@);
            } else {
                assert(self.entries@[q].name@ == n);
                if prev.entries@[p].name@ == n {
                    assert(prev.has_name(n));
                }
            }
        }
        assert(self.entries@[last].name@ == n);
        self.lemma_index_of(n);
        assert forall|m: Seq<char>| m != n implies self.has_name(m) == prev.has_name(m) by {
            if self.has_name(m) {
                let k = choose|k: int|
                    0 <= k < self.entries@.len() && (#[trigger] self.entries@[k]).name@ == m;
                assert(k < last);
                assert(prev.entries@[k].name@ == m);
            }
            if prev.has_name(m) {
                let k = choose|k: int|
                    0 <= k < prev.entries@.len() && (#[trigger] prev.entries@[k]).name@ == m;
                assert(self.entries@[k].name@ == m);
            }
        }
        assert forall|m: Seq<char>| m != n && prev.has_name(m) implies self.node_of(m)
            == prev.node_of(m) by {
            prev.lemma_index_of(m);
            self.lemma_index_of(m);
            let k = prev.index_of(m);
            assert(self.entries@[k].name@ == m);
        }
    }
}

} // verus!
