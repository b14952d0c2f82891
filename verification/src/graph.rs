//! Nodes of the connectivity graph and their polarity.

use vstd::prelude::*;
use crate::edges::{EdgeList, MAX_EDGES};

verus! {

/// Polarity of a node, inferred from the signs of its outgoing weights.
#[derive(Clone, Copy, Debug, PartialEq, Eq, Structural)]
pub enum Type {
    Undetermined,
    Excitatory,
    Inhibitory,
}

/// What the contracts say of a node: its two adjacency lists in the order in
/// which the edges were found, and its polarity.
pub struct NodeView {
    pub edges_to: Seq<usize>,
    pub edges_from: Seq<usize>,
    pub typ: Type,
}

/// One neuron: the nodes it projects to, the nodes that project to it, and its
/// polarity.
#[derive(Debug)]
pub struct Node {
    pub(crate) edges_to: EdgeList,
    pub(crate) edges_from: EdgeList,
    pub(crate) typ: Type,
}

impl View for Node {
    type V = NodeView;

    closed spec fn view(&self) -> NodeView {
        NodeView {
            edges_to: self.edges_to@,
            edges_from: self.edges_from@,
            typ: self.typ,
        }
    }
}

/// Each item of the list is smaller than every later one.
pub open spec fn ascending(list: Seq<usize>) -> bool {
    forall|i: int, j: int| 0 <= i < j < list.len() ==> list[i] < list[j]
}

/// Each item of the list is the index of one of `count` nodes.
pub open spec fn bounded(list: Seq<usize>, count: nat) -> bool {
    forall|i: int| 0 <= i < list.len() ==> list[i] < count
}

/// The adjacency lists of every node name nodes of the list only, and each
/// neighbour once, in ascending order.
pub open spec fn tidy(nodes: Seq<NodeView>) -> bool {
    forall|n: int|
        0 <= n < nodes.len() ==> {
            &&& ascending((#[trigger] nodes[n]).edges_to)
            &&& ascending(nodes[n].edges_from)
            &&& bounded(nodes[n].edges_to, nodes.len())
            &&& bounded(nodes[n].edges_from, nodes.len())
        }
}

/// Every edge stands in both lists: `j` is a target of `i` exactly where `i`
/// is a source of `j`.
pub open spec fn mirrored(nodes: Seq<NodeView>) -> bool {
    forall|i: int, j: int|
        0 <= i < nodes.len() && 0 <= j < nodes.len() ==> (#[trigger] nodes[i].edges_to.contains(
            j as usize,
        ) <==> #[trigger] nodes[j].edges_from.contains(i as usize))
}

/// What holds of every node list that was built from a matrix.
pub open spec fn well_formed(nodes: Seq<NodeView>) -> bool {
    tidy(nodes) && mirrored(nodes)
}

/// The views of a list of nodes, node by node.
pub open spec fn node_views(nodes: Seq<Node>) -> Seq<NodeView> {
    nodes.map_values(|n: Node| n@)
}

/// The largest number of nodes that a graph of this library has, a
/// thirty-second of the address space: no adjacency list grows beyond it.
pub const MAX_NODES: usize = MAX_EDGES;

/// The items of an adjacency list as a vector.
fn copy_edges(edges: &EdgeList) -> (list: Vec<usize>)
    ensures
        list@ == edges@,
{
    let n: usize = edges.len();
    let mut list: Vec<usize> = Vec::new();
    let mut i: usize = 0;
    while i < n
        invariant
            n == edges@.len(),
            i <= n,
            list@ == edges@.take(i as int),
        decreases n - i,
    {
        list.push(edges.get(i));
        i += 1;
    }
    list
}

impl Node {
    /// A node without edges, of undetermined polarity.
    pub(crate) fn new() -> (node: Node)
        ensures
            node@ == (NodeView {
                edges_to: Seq::<usize>::empty(),
                edges_from: Seq::<usize>::empty(),
                typ: Type::Undetermined,
            }),
    {
        Node { edges_to: EdgeList::new(), edges_from: EdgeList::new(), typ: Type::Undetermined }
    }

    /// Records an edge from this node to `target`.
    pub(crate) fn add_target(&mut self, target: usize)
        requires
            old(self)@.edges_to.len() < MAX_NODES,
        ensures
            final(self)@ == (NodeView { edges_to: old(self)@.edges_to.push(target), ..old(self)@ }),
    {
        self.edges_to.push(target);
    }

    /// Records an edge from `source` to this node.
    pub(crate) fn add_source(&mut self, source: usize)
        requires
            old(self)@.edges_from.len() < MAX_NODES,
        ensures
            final(self)@ == (NodeView {
                edges_from: old(self)@.edges_from.push(source),
                ..old(self)@
            }),
    {
        self.edges_from.push(source);
    }

    /// Sets the polarity of this node.
    pub(crate) fn set_typ(&mut self, typ: Type)
        ensures
            final(self)@ == (NodeView { typ: typ, ..old(self)@ }),
    {
        self.typ = typ;
    }

    /// The nodes that this node projects to, in the order of discovery.
    pub(crate) fn targets(&self) -> (list: &EdgeList)
        ensures
            list@ == self@.edges_to,
    {
        &self.edges_to
    }

    /// The nodes that project to this node, in the order of discovery.
    pub(crate) fn sources(&self) -> (list: &EdgeList)
        ensures
            list@ == self@.edges_from,
    {
        &self.edges_from
    }

    /// The nodes that this node projects to, in the order of discovery.
    pub fn edges_to(&self) -> (list: Vec<usize>)
        ensures
            list@ == self@.edges_to,
    {
        copy_edges(&self.edges_to)
    }

    /// The nodes that project to this node, in the order of discovery.
    pub fn edges_from(&self) -> (list: Vec<usize>)
        ensures
            list@ == self@.edges_from,
    {
        copy_edges(&self.edges_from)
    }

    /// The polarity of this node.
    pub fn typ(&self) -> (t: Type)
        ensures
            t == self@.typ,
    {
        self.typ
    }
}

} // verus!
