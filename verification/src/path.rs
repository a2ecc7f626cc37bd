//! Absolute directory paths, modelled as the sequence of path components
//! below the filesystem root.  The filesystem root itself is the empty
//! sequence, so a path's parent is the path without its last component.

use vstd::prelude::*;

verus! {

/// An absolute directory path: its components, outermost first.
#[derive(Debug, Clone, PartialEq, Eq)]
pub struct DirPath {
    pub parts: Vec<String>,
}

impl View for DirPath {
    type V = Seq<Seq<char>>;

    open spec fn view(&self) -> Seq<Seq<char>> {
        self.parts.deep_view()
    }
}

/// Copies a vector of strings; the copy has the same view.
fn clone_strings(v: &Vec<String>) -> (r: Vec<String>)
    ensures
        r.deep_view() == v.deep_view(),
        r@ == v@,
{
    let r = v.clone();
    proof {
        assert(r@ =~= v@) by {
            assert(forall|i: int|
                0 <= i < v@.len() ==> cloned::<String>(v@[i], #[trigger] r@[i]));
        }
    }
    r
}

impl DirPath {
    /// The path bound to the given components.
    pub fn from_parts(parts: Vec<String>) -> (r: DirPath)
        ensures
            r@ == parts.deep_view(),
    {
        DirPath { parts }
    }

    /// How many components below the filesystem root this path lies.
    pub fn depth(&self) -> (r: usize)
        ensures
            r == self@.len(),
    {
        proof {
            assert(self@.len() == self.parts@.len());
        }
        self.parts.len()
    }

    /// The ancestor of this path `levels` components above it.
    pub fn ancestor(&self, levels: usize) -> (r: DirPath)
        requires
            levels <= self@.len(),
        ensures
            r@ == self@.take(self@.len() - levels),
    {
        let mut parts = clone_strings(&self.parts);
        let keep = parts.len() - levels;
        parts.truncate(keep);
        proof {
            assert(parts.deep_view() =~= self@.take(self@.len() - levels as int));
        }
        DirPath { parts }
    }

    /// The path of the entry called `name` inside this directory.
    pub fn entry_path(&self, name: String) -> (r: DirPath)
        ensures
            r@ == self@.push(name@),
    {
        let mut parts = clone_strings(&self.parts);
        parts.push(name);
        proof {
            assert(parts.deep_view() =~= self@.push(name@));
        }
        DirPath { parts }
    }

}

} // verus!
