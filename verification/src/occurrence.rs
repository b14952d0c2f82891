//! What the enumeration finds, said without reference to its order: which
//! occurrences a node list has, that each is found, and that each is found
//! once.

use vstd::prelude::*;
use vstd::seq_lib::lemma_no_dup_in_concat;
use crate::census::{
    census, census_rows, chain_motifs, chain_row, chain_rows, mutual_above, node_motifs,
    other_than, pair_motifs, pair_row, pair_rows, pair_shape, reciprocal_motifs, reciprocal_row,
    reciprocal_rows,
};
use crate::graph::{ascending, bounded, tidy, NodeView};
use crate::motif::MotifShape;
use crate::sequences::{
    lemma_filter_ascending, lemma_filter_item, lemma_flatten_holds, lemma_flatten_item,
    lemma_flatten_no_duplicates,
};

verus! {

/// `a` stands before `c` in the list.
pub open spec fn before(list: Seq<usize>, a: usize, c: usize) -> bool {
    exists|i: int, j: int| 0 <= i < j < list.len() && list[i] == a && list[j] == c
}

/// The node at which the enumeration finds an occurrence: the middle node of
/// a chain, the shared neighbour of a convergent or divergent pair, the first
/// node of a mutual pair.
pub open spec fn anchor(shape: MotifShape) -> usize {
    match shape {
        MotifShape::Chain(_, b, _) => b,
        MotifShape::Convergent(_, b, _) => b,
        MotifShape::Divergent(_, b, _) => b,
        MotifShape::Reciprocal(a, _) => a,
    }
}

/// The node `node` at index `idx` has the occurrence `shape`.
pub open spec fn occurs_at(node: NodeView, idx: usize, shape: MotifShape) -> bool {
    anchor(shape) == idx && match shape {
        MotifShape::Chain(a, _, c) => node.edges_from.contains(a) && node.edges_to.contains(c) && a
            != c,
        MotifShape::Convergent(a, _, c) => before(node.edges_from, a, c),
        MotifShape::Divergent(a, _, c) => before(node.edges_to, a, c),
        MotifShape::Reciprocal(a, b) => node.edges_to.contains(b) && node.edges_from.contains(b)
            && a < b,
    }
}

/// The node list has the occurrence `shape`.
pub open spec fn occurs(nodes: Seq<NodeView>, shape: MotifShape) -> bool {
    anchor(shape) < nodes.len() && occurs_at(nodes[anchor(shape) as int], anchor(shape), shape)
}

proof fn lemma_pair_item(list: Seq<usize>, idx: usize, divergent: bool, k: int)
    requires
        0 <= k < pair_motifs(list, idx, divergent).len(),
    ensures
        ({
            let shape = pair_motifs(list, idx, divergent)[k];
            exists|i: int, j: int|
                0 <= i < j < list.len() && shape == pair_shape(divergent, list[i], idx, list[j])
        }),
{
    let at = lemma_flatten_item(pair_rows(list, idx, divergent), k);
    let i = at.0;
    let j = at.0 + 1 + at.1;
    assert(pair_rows(list, idx, divergent)[i] == pair_row(list, idx, divergent, i));
    assert(pair_motifs(list, idx, divergent)[k] == pair_shape(divergent, list[i], idx, list[j]));
}

proof fn lemma_pair_holds(list: Seq<usize>, idx: usize, divergent: bool, i: int, j: int) -> (k: int)
    requires
        0 <= i < j < list.len(),
    ensures
        0 <= k < pair_motifs(list, idx, divergent).len(),
        pair_motifs(list, idx, divergent)[k] == pair_shape(divergent, list[i], idx, list[j]),
{
    assert(pair_rows(list, idx, divergent)[i] == pair_row(list, idx, divergent, i));
    lemma_flatten_holds(pair_rows(list, idx, divergent), i, j - i - 1)
}

proof fn lemma_chain_item(sources: Seq<usize>, idx: usize, targets: Seq<usize>, k: int)
    requires
        0 <= k < chain_motifs(sources, idx, targets).len(),
    ensures
        ({
            let shape = chain_motifs(sources, idx, targets)[k];
            exists|i: int, j: int|
                0 <= i < sources.len() && 0 <= j < targets.len() && sources[i] != targets[j]
                    && shape == MotifShape::Chain(sources[i], idx, targets[j])
        }),
{
    let at = lemma_flatten_item(chain_rows(sources, idx, targets), k);
    let i = at.0;
    assert(chain_rows(sources, idx, targets)[i] == chain_row(sources[i], idx, targets));
    let j = lemma_filter_item(targets, other_than(sources[i]), at.1);
    assert(chain_motifs(sources, idx, targets)[k] == MotifShape::Chain(
        sources[i],
        idx,
        targets[j],
    ));
}

proof fn lemma_chain_holds(sources: Seq<usize>, idx: usize, targets: Seq<usize>, i: int, j: int) -> (k:
    int)
    requires
        0 <= i < sources.len(),
        0 <= j < targets.len(),
        sources[i] != targets[j],
    ensures
        0 <= k < chain_motifs(sources, idx, targets).len(),
        chain_motifs(sources, idx, targets)[k] == MotifShape::Chain(sources[i], idx, targets[j]),
{
    let kept = targets.filter(other_than(sources[i]));
    targets.lemma_filter_contains(other_than(sources[i]), j);
    let place = choose|place: int| 0 <= place < kept.len() && kept[place] == targets[j];
    assert(chain_rows(sources, idx, targets)[i] == chain_row(sources[i], idx, targets));
    assert(chain_row(sources[i], idx, targets)[place] == MotifShape::Chain(
        sources[i],
        idx,
        targets[j],
    ));
    lemma_flatten_holds(chain_rows(sources, idx, targets), i, place)
}

proof fn lemma_reciprocal_item(sources: Seq<usize>, idx: usize, targets: Seq<usize>, k: int)
    requires
        0 <= k < reciprocal_motifs(sources, idx, targets).len(),
    ensures
        ({
            let shape = reciprocal_motifs(sources, idx, targets)[k];
            exists|i: int, j: int|
                0 <= i < targets.len() && 0 <= j < sources.len() && sources[j] == targets[i] && idx
                    < targets[i] && shape == MotifShape::Reciprocal(idx, targets[i])
        }),
{
    let at = lemma_flatten_item(reciprocal_rows(sources, idx, targets), k);
    let i = at.0;
    assert(reciprocal_rows(sources, idx, targets)[i] == reciprocal_row(targets[i], idx, sources));
    let j = lemma_filter_item(sources, mutual_above(targets[i], idx), at.1);
    assert(reciprocal_motifs(sources, idx, targets)[k] == MotifShape::Reciprocal(idx, sources[j]));
}

proof fn lemma_reciprocal_holds(
    sources: Seq<usize>,
    idx: usize,
    targets: Seq<usize>,
    i: int,
    j: int,
) -> (k: int)
    requires
        0 <= i < targets.len(),
        0 <= j < sources.len(),
        sources[j] == targets[i],
        idx < targets[i],
    ensures
        0 <= k < reciprocal_motifs(sources, idx, targets).len(),
        reciprocal_motifs(sources, idx, targets)[k] == MotifShape::Reciprocal(idx, targets[i]),
{
    let keep = mutual_above(targets[i], idx);
    let kept = sources.filter(keep);
    sources.lemma_filter_contains(keep, j);
    let place = choose|place: int| 0 <= place < kept.len() && kept[place] == sources[j];
    assert(reciprocal_rows(sources, idx, targets)[i] == reciprocal_row(targets[i], idx, sources));
    assert(reciprocal_row(targets[i], idx, sources)[place] == MotifShape::Reciprocal(
        idx,
        targets[i],
    ));
    lemma_flatten_holds(reciprocal_rows(sources, idx, targets), i, place)
}

/// Whatever a node contributes is an occurrence that the node has.
pub proof fn lemma_node_motifs_sound(node: NodeView, idx: usize, k: int)
    requires
        0 <= k < node_motifs(node, idx).len(),
    ensures
        occurs_at(node, idx, node_motifs(node, idx)[k]),
{
    let convergent = pair_motifs(node.edges_from, idx, false);
    let divergent = pair_motifs(node.edges_to, idx, true);
    let chains = chain_motifs(node.edges_from, idx, node.edges_to);
    let mutual = reciprocal_motifs(node.edges_from, idx, node.edges_to);
    if k < convergent.len() {
        lemma_pair_item(node.edges_from, idx, false, k);
    } else if k < convergent.len() + divergent.len() {
        lemma_pair_item(node.edges_to, idx, true, k - convergent.len());
    } else if k < convergent.len() + divergent.len() + chains.len() {
        lemma_chain_item(
            node.edges_from,
            idx,
            node.edges_to,
            k - convergent.len() - divergent.len(),
        );
    } else {
        lemma_reciprocal_item(
            node.edges_from,
            idx,
            node.edges_to,
            k - convergent.len() - divergent.len() - chains.len(),
        );
    }
}

/// Every occurrence that a node has is among what it contributes.
pub proof fn lemma_node_motifs_complete(node: NodeView, idx: usize, shape: MotifShape) -> (k: int)
    requires
        occurs_at(node, idx, shape),
    ensures
        0 <= k < node_motifs(node, idx).len(),
        node_motifs(node, idx)[k] == shape,
{
    let convergent = pair_motifs(node.edges_from, idx, false);
    let divergent = pair_motifs(node.edges_to, idx, true);
    let chains = chain_motifs(node.edges_from, idx, node.edges_to);
    match shape {
        MotifShape::Convergent(a, _, c) => {
            let (i, j) = choose|i: int, j: int|
                0 <= i < j < node.edges_from.len() && node.edges_from[i] == a && node.edges_from[j]
                    == c;
            lemma_pair_holds(node.edges_from, idx, false, i, j)
        },
        MotifShape::Divergent(a, _, c) => {
            let (i, j) = choose|i: int, j: int|
                0 <= i < j < node.edges_to.len() && node.edges_to[i] == a && node.edges_to[j] == c;
            convergent.len() + lemma_pair_holds(node.edges_to, idx, true, i, j)
        },
        MotifShape::Chain(a, _, c) => {
            let i = choose|i: int| 0 <= i < node.edges_from.len() && node.edges_from[i] == a;
            let j = choose|j: int| 0 <= j < node.edges_to.len() && node.edges_to[j] == c;
            convergent.len() + divergent.len() + lemma_chain_holds(
                node.edges_from,
                idx,
                node.edges_to,
                i,
                j,
            )
        },
        MotifShape::Reciprocal(_, b) => {
            let i = choose|i: int| 0 <= i < node.edges_to.len() && node.edges_to[i] == b;
            let j = choose|j: int| 0 <= j < node.edges_from.len() && node.edges_from[j] == b;
            convergent.len() + divergent.len() + chains.len() + lemma_reciprocal_holds(
                node.edges_from,
                idx,
                node.edges_to,
                i,
                j,
            )
        },
    }
}

/// The enumeration finds the occurrences of the node list and nothing else:
/// a shape is in the census exactly where the node list has it.
pub proof fn lemma_census_exact(nodes: Seq<NodeView>, shape: MotifShape)
    requires
        nodes.len() <= usize::MAX,
    ensures
        census(nodes).contains(shape) <==> occurs(nodes, shape),
{
    let rows = census_rows(nodes);
    if census(nodes).contains(shape) {
        let k = choose|k: int| 0 <= k < census(nodes).len() && census(nodes)[k] == shape;
        let at = lemma_flatten_item(rows, k);
        assert(rows[at.0] == node_motifs(nodes[at.0], at.0 as usize));
        lemma_node_motifs_sound(nodes[at.0], at.0 as usize, at.1);
    }
    if occurs(nodes, shape) {
        let idx = anchor(shape);
        let j = lemma_node_motifs_complete(nodes[idx as int], idx, shape);
        assert(rows[idx as int] == node_motifs(nodes[idx as int], idx));
        let k = lemma_flatten_holds(rows, idx as int, j);
    }
}

/// Every occurrence of the census names nodes of the list only, provided the
/// adjacency lists do.
pub proof fn lemma_census_within(nodes: Seq<NodeView>)
    requires
        nodes.len() <= usize::MAX,
        forall|n: int|
            0 <= n < nodes.len() ==> bounded((#[trigger] nodes[n]).edges_to, nodes.len()) && bounded(
                nodes[n].edges_from,
                nodes.len(),
            ),
    ensures
        forall|k: int| 0 <= k < census(nodes).len() ==> (#[trigger] census(nodes)[k]).within(nodes.len()),
{
    assert forall|k: int| 0 <= k < census(nodes).len() implies (#[trigger] census(nodes)[k]).within(
        nodes.len(),
    ) by {
        let shape = census(nodes)[k];
        assert(census(nodes).contains(shape));
        lemma_census_exact(nodes, shape);
        let node = nodes[anchor(shape) as int];
        assert(bounded(node.edges_to, nodes.len()));
        assert(bounded(node.edges_from, nodes.len()));
    }
}

/// The two ends of a chain of the census are different nodes, and the two
/// nodes of a mutual pair stand in ascending order, whatever the node list.
/// Where the adjacency lists are ascending, the two sources of a convergent
/// occurrence and the two targets of a divergent one stand in ascending
/// order too.
pub proof fn lemma_census_canonical(nodes: Seq<NodeView>)
    requires
        nodes.len() <= usize::MAX,
    ensures
        forall|k: int|
            0 <= k < census(nodes).len() ==> match #[trigger] census(nodes)[k] {
                MotifShape::Chain(a, _, c) => a != c,
                MotifShape::Reciprocal(a, b) => a < b,
                MotifShape::Convergent(a, b, c) => ascending(nodes[b as int].edges_from) ==> a < c,
                MotifShape::Divergent(a, b, c) => ascending(nodes[b as int].edges_to) ==> a < c,
            },
{
    assert forall|k: int| 0 <= k < census(nodes).len() implies match #[trigger] census(nodes)[k] {
        MotifShape::Chain(a, _, c) => a != c,
        MotifShape::Reciprocal(a, b) => a < b,
        MotifShape::Convergent(a, b, c) => ascending(nodes[b as int].edges_from) ==> a < c,
        MotifShape::Divergent(a, b, c) => ascending(nodes[b as int].edges_to) ==> a < c,
    } by {
        let shape = census(nodes)[k];
        assert(census(nodes).contains(shape));
        lemma_census_exact(nodes, shape);
    }
}

/// In the census of a tidy node list every occurrence is canonical, and none
/// is there a second time with its two outer nodes exchanged.
pub proof fn lemma_census_never_swapped(nodes: Seq<NodeView>)
    requires
        nodes.len() <= usize::MAX,
        tidy(nodes),
    ensures
        forall|k: int| 0 <= k < census(nodes).len() ==> (#[trigger] census(nodes)[k]).canonical(),
        forall|k: int, l: int|
            0 <= k < census(nodes).len() && 0 <= l < census(nodes).len() && !(census(
                nodes,
            )[k] is Chain) ==> #[trigger] census(nodes)[l] != (#[trigger] census(nodes)[k]).swapped(),
{
    lemma_census_canonical(nodes);
    assert forall|k: int| 0 <= k < census(nodes).len() implies (#[trigger] census(
        nodes,
    )[k]).canonical() by {
        let shape = census(nodes)[k];
        assert(census(nodes).contains(shape));
        lemma_census_exact(nodes, shape);
    }
}

proof fn lemma_pair_no_duplicates(list: Seq<usize>, idx: usize, divergent: bool)
    requires
        ascending(list),
    ensures
        pair_motifs(list, idx, divergent).no_duplicates(),
{
    let rows = pair_rows(list, idx, divergent);
    assert forall|i: int| 0 <= i < rows.len() implies (#[trigger] rows[i]).no_duplicates() by {
        assert(rows[i] == pair_row(list, idx, divergent, i));
        assert forall|a: int, b: int|
            0 <= a < rows[i].len() && 0 <= b < rows[i].len() && a != b implies rows[i][a]
            != rows[i][b] by {
            assert(list[i + 1 + a] != list[i + 1 + b]);
        }
    }
    assert forall|i: int, j: int, a: int, b: int|
        0 <= i < j < rows.len() && 0 <= a < rows[i].len() && 0 <= b < rows[j].len()
            implies #[trigger] rows[i][a] != #[trigger] rows[j][b] by {
        assert(rows[i] == pair_row(list, idx, divergent, i));
        assert(rows[j] == pair_row(list, idx, divergent, j));
        assert(list[i] != list[j]);
    }
    lemma_flatten_no_duplicates(rows);
}

proof fn lemma_chain_no_duplicates(sources: Seq<usize>, idx: usize, targets: Seq<usize>)
    requires
        ascending(sources),
        ascending(targets),
    ensures
        chain_motifs(sources, idx, targets).no_duplicates(),
{
    let rows = chain_rows(sources, idx, targets);
    assert forall|i: int| 0 <= i < rows.len() implies (#[trigger] rows[i]).no_duplicates() by {
        assert(rows[i] == chain_row(sources[i], idx, targets));
        lemma_filter_ascending(targets, other_than(sources[i]));
    }
    assert forall|i: int, j: int, a: int, b: int|
        0 <= i < j < rows.len() && 0 <= a < rows[i].len() && 0 <= b < rows[j].len()
            implies #[trigger] rows[i][a] != #[trigger] rows[j][b] by {
        assert(rows[i] == chain_row(sources[i], idx, targets));
        assert(rows[j] == chain_row(sources[j], idx, targets));
        assert(sources[i] != sources[j]);
    }
    lemma_flatten_no_duplicates(rows);
}

proof fn lemma_reciprocal_no_duplicates(sources: Seq<usize>, idx: usize, targets: Seq<usize>)
    requires
        ascending(sources),
        ascending(targets),
    ensures
        reciprocal_motifs(sources, idx, targets).no_duplicates(),
{
    let rows = reciprocal_rows(sources, idx, targets);
    assert forall|i: int| 0 <= i < rows.len() implies (#[trigger] rows[i]).no_duplicates() by {
        assert(rows[i] == reciprocal_row(targets[i], idx, sources));
        lemma_filter_ascending(sources, mutual_above(targets[i], idx));
    }
    assert forall|i: int, j: int, a: int, b: int|
        0 <= i < j < rows.len() && 0 <= a < rows[i].len() && 0 <= b < rows[j].len()
            implies #[trigger] rows[i][a] != #[trigger] rows[j][b] by {
        assert(rows[i] == reciprocal_row(targets[i], idx, sources));
        assert(rows[j] == reciprocal_row(targets[j], idx, sources));
        let first = lemma_filter_item(sources, mutual_above(targets[i], idx), a);
        let second = lemma_filter_item(sources, mutual_above(targets[j], idx), b);
        assert(targets[i] != targets[j]);
    }
    lemma_flatten_no_duplicates(rows);
}

/// A node whose adjacency lists are ascending contributes no occurrence
/// twice.
pub proof fn lemma_node_motifs_no_duplicates(node: NodeView, idx: usize)
    requires
        ascending(node.edges_to),
        ascending(node.edges_from),
    ensures
        node_motifs(node, idx).no_duplicates(),
{
    let convergent = pair_motifs(node.edges_from, idx, false);
    let divergent = pair_motifs(node.edges_to, idx, true);
    let chains = chain_motifs(node.edges_from, idx, node.edges_to);
    let mutual = reciprocal_motifs(node.edges_from, idx, node.edges_to);
    lemma_pair_no_duplicates(node.edges_from, idx, false);
    lemma_pair_no_duplicates(node.edges_to, idx, true);
    lemma_chain_no_duplicates(node.edges_from, idx, node.edges_to);
    lemma_reciprocal_no_duplicates(node.edges_from, idx, node.edges_to);
    assert forall|k: int| 0 <= k < convergent.len() implies (#[trigger] convergent[k]) is Convergent by {
        lemma_pair_item(node.edges_from, idx, false, k);
    }
    assert forall|k: int| 0 <= k < divergent.len() implies (#[trigger] divergent[k]) is Divergent by {
        lemma_pair_item(node.edges_to, idx, true, k);
    }
    assert forall|k: int| 0 <= k < chains.len() implies (#[trigger] chains[k]) is Chain by {
        lemma_chain_item(node.edges_from, idx, node.edges_to, k);
    }
    assert forall|k: int| 0 <= k < mutual.len() implies (#[trigger] mutual[k]) is Reciprocal by {
        lemma_reciprocal_item(node.edges_from, idx, node.edges_to, k);
    }
    lemma_no_dup_in_concat(convergent, divergent);
    lemma_no_dup_in_concat(convergent + divergent, chains);
    lemma_no_dup_in_concat(convergent + divergent + chains, mutual);
}

/// The census of a node list whose adjacency lists are ascending holds no
/// occurrence twice.
pub proof fn lemma_census_no_duplicates(nodes: Seq<NodeView>)
    requires
        nodes.len() <= usize::MAX,
        forall|n: int|
            0 <= n < nodes.len() ==> ascending((#[trigger] nodes[n]).edges_to) && ascending(
                nodes[n].edges_from,
            ),
    ensures
        census(nodes).no_duplicates(),
{
    let rows = census_rows(nodes);
    assert forall|i: int| 0 <= i < rows.len() implies (#[trigger] rows[i]).no_duplicates() by {
        assert(rows[i] == node_motifs(nodes[i], i as usize));
        lemma_node_motifs_no_duplicates(nodes[i], i as usize);
    }
    assert forall|i: int, j: int, a: int, b: int|
        0 <= i < j < rows.len() && 0 <= a < rows[i].len() && 0 <= b < rows[j].len()
            implies #[trigger] rows[i][a] != #[trigger] rows[j][b] by {
        assert(rows[i] == node_motifs(nodes[i], i as usize));
        assert(rows[j] == node_motifs(nodes[j], j as usize));
        lemma_node_motifs_sound(nodes[i], i as usize, a);
        lemma_node_motifs_sound(nodes[j], j as usize, b);
    }
    lemma_flatten_no_duplicates(rows);
}

/// Where no node is its own neighbour, a chain of the census names three
/// different nodes.
pub proof fn lemma_chain_nodes_differ(nodes: Seq<NodeView>)
    requires
        nodes.len() <= usize::MAX,
        forall|n: int|
            0 <= n < nodes.len() ==> !(#[trigger] nodes[n]).edges_to.contains(n as usize)
                && !nodes[n].edges_from.contains(n as usize),
    ensures
        forall|k: int|
            0 <= k < census(nodes).len() ==> match #[trigger] census(nodes)[k] {
                MotifShape::Chain(a, b, c) => a != b && b != c && a != c,
                _ => true,
            },
{
    assert forall|k: int| 0 <= k < census(nodes).len() implies match #[trigger] census(nodes)[k] {
        MotifShape::Chain(a, b, c) => a != b && b != c && a != c,
        _ => true,
    } by {
        let shape = census(nodes)[k];
        assert(census(nodes).contains(shape));
        lemma_census_exact(nodes, shape);
    }
}

} // verus!
