//! The adjacency lists of a node: short vectors of node indices that stay
//! inline while a node has at most four neighbours on a side.

use vstd::prelude::*;

verus! {

/// An adjacency list, kept in a `smallvec::SmallVec` with room for four
/// indices before it moves to the heap. Verus does not look inside: what the
/// list holds is `edge_seq`.
#[verifier::external_body]
#[derive(Debug)]
pub struct EdgeList {
    items: smallvec::SmallVec<[usize; 4]>,
}

/// The node indices that an adjacency list holds, first pushed first.
pub uninterp spec fn edge_seq(list: EdgeList) -> Seq<usize>;

/// The longest adjacency list this library builds. A full list grows to the
/// next power of two above its length; for a list below this limit the bytes
/// of that many indices still fit the signed word that bounds an allocation.
pub const MAX_EDGES: usize = usize::MAX / 32;

impl View for EdgeList {
    type V = Seq<usize>;

    open spec fn view(&self) -> Seq<usize> {
        edge_seq(*self)
    }
}

impl EdgeList {
    /// `SmallVec::new`: the list it returns holds nothing.
    #[verifier::external_body]
    pub(crate) fn new() -> (list: EdgeList)
        ensures
            edge_seq(list) == Seq::<usize>::empty(),
    {
        EdgeList { items: smallvec::SmallVec::new() }
    }

    /// `SmallVec::push`: the item is appended behind the items already held,
    /// which stay as they were. A full list grows to the next power of two
    /// above its length, and the push panics with "capacity overflow" where
    /// that capacity or its size in bytes cannot be computed; below
    /// `MAX_EDGES` items both can.
    #[verifier::external_body]
    pub(crate) fn push(&mut self, node: usize)
        requires
            edge_seq(*old(self)).len() < MAX_EDGES,
        ensures
            edge_seq(*final(self)) == edge_seq(*old(self)).push(node),
    {
        self.items.push(node)
    }

    /// `SmallVec::len`: the number of items held.
    #[verifier::external_body]
    pub(crate) fn len(&self) -> (n: usize)
        ensures
            n == edge_seq(*self).len(),
    {
        self.items.len()
    }

    /// Indexing a `SmallVec` by a position below its length: the item that was
    /// pushed at that position.
    #[verifier::external_body]
    pub(crate) fn get(&self, i: usize) -> (node: usize)
        requires
            i < edge_seq(*self).len(),
        ensures
            node == edge_seq(*self)[i as int],
    {
        self.items[i]
    }
}

} // verus!
