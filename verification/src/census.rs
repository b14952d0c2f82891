//! Enumeration of every motif occurrence of a node list, in a fixed order.

use vstd::prelude::*;
use crate::edges::EdgeList;
use crate::graph::{node_views, tidy, Node, NodeView};
use crate::occurrence::{
    lemma_census_never_swapped, lemma_census_no_duplicates, lemma_census_within,
};
use crate::motif::MotifShape;

verus! {

/// The occurrence that a pair of neighbours `a`, `c` of `idx` makes: divergent
/// where they are targets of `idx`, convergent where they are its sources.
pub open spec fn pair_shape(divergent: bool, a: usize, idx: usize, c: usize) -> MotifShape {
    if divergent {
        MotifShape::Divergent(a, idx, c)
    } else {
        MotifShape::Convergent(a, idx, c)
    }
}

/// The pairs that the neighbour at position `i` makes with each later one.
pub open spec fn pair_row(list: Seq<usize>, idx: usize, divergent: bool, i: int) -> Seq<MotifShape> {
    Seq::new(
        (list.len() - i - 1) as nat,
        |k: int| pair_shape(divergent, list[i], idx, list[i + 1 + k]),
    )
}

/// `pair_row` for every position of the list.
pub open spec fn pair_rows(list: Seq<usize>, idx: usize, divergent: bool) -> Seq<Seq<MotifShape>> {
    Seq::new(list.len(), |i: int| pair_row(list, idx, divergent, i))
}

/// One occurrence for each two positions `i < j` of a neighbour list, ordered
/// by `i` and then by `j`.
pub open spec fn pair_motifs(list: Seq<usize>, idx: usize, divergent: bool) -> Seq<MotifShape> {
    pair_rows(list, idx, divergent).flatten()
}

/// Holds of every node but `source`.
pub open spec fn other_than(source: usize) -> spec_fn(usize) -> bool {
    |t: usize| t != source
}

/// Holds of `target` alone, and of no node unless `idx` is below `target`.
pub open spec fn mutual_above(target: usize, idx: usize) -> spec_fn(usize) -> bool {
    |s: usize| s == target && idx < target
}

/// The chains from `source` through `idx`: one for each target other than
/// `source` itself, in the order of the targets.
pub open spec fn chain_row(source: usize, idx: usize, targets: Seq<usize>) -> Seq<MotifShape> {
    targets.filter(other_than(source)).map_values(|t: usize| MotifShape::Chain(source, idx, t))
}

/// `chain_row` for every source of the node.
pub open spec fn chain_rows(sources: Seq<usize>, idx: usize, targets: Seq<usize>) -> Seq<Seq<MotifShape>> {
    Seq::new(sources.len(), |i: int| chain_row(sources[i], idx, targets))
}

/// Every path of two edges through `idx` whose ends differ, ordered by source
/// and then by target.
pub open spec fn chain_motifs(sources: Seq<usize>, idx: usize, targets: Seq<usize>) -> Seq<MotifShape> {
    chain_rows(sources, idx, targets).flatten()
}

/// The mutual pairs that `idx` makes with `target`: one for each time that
/// `target` is also a source, and none unless `idx` is the smaller of the two.
pub open spec fn reciprocal_row(target: usize, idx: usize, sources: Seq<usize>) -> Seq<MotifShape> {
    sources.filter(mutual_above(target, idx)).map_values(
        |s: usize| MotifShape::Reciprocal(idx, s),
    )
}

/// `reciprocal_row` for every target of the node.
pub open spec fn reciprocal_rows(sources: Seq<usize>, idx: usize, targets: Seq<usize>) -> Seq<Seq<MotifShape>> {
    Seq::new(targets.len(), |i: int| reciprocal_row(targets[i], idx, sources))
}

/// Every mutual pair of `idx` with a larger node, in the order of the targets.
pub open spec fn reciprocal_motifs(sources: Seq<usize>, idx: usize, targets: Seq<usize>) -> Seq<MotifShape> {
    reciprocal_rows(sources, idx, targets).flatten()
}

/// What the node at index `idx` contributes: its convergent pairs, its
/// divergent pairs, its chains and its mutual pairs, in that order.
pub open spec fn node_motifs(node: NodeView, idx: usize) -> Seq<MotifShape> {
    pair_motifs(node.edges_from, idx, false) + pair_motifs(node.edges_to, idx, true)
        + chain_motifs(node.edges_from, idx, node.edges_to) + reciprocal_motifs(
        node.edges_from,
        idx,
        node.edges_to,
    )
}

/// `node_motifs` for every node of the list.
pub open spec fn census_rows(nodes: Seq<NodeView>) -> Seq<Seq<MotifShape>> {
    Seq::new(nodes.len(), |i: int| node_motifs(nodes[i], i as usize))
}

/// All occurrences of a node list, node by node in ascending index.
pub open spec fn census(nodes: Seq<NodeView>) -> Seq<MotifShape> {
    census_rows(nodes).flatten()
}

/// Flattening the first `i + 1` rows appends row `i` to the first `i`
/// flattened.
proof fn lemma_flatten_take_next<A>(rows: Seq<Seq<A>>, i: int)
    requires
        0 <= i < rows.len(),
    ensures
        rows.take(i + 1).flatten() == rows.take(i).flatten() + rows[i],
{
    assert(rows.take(i + 1) =~= rows.take(i).push(rows[i]));
    rows.take(i).lemma_flatten_push(rows[i]);
}

proof fn lemma_chain_row_next(source: usize, idx: usize, targets: Seq<usize>, j: int)
    requires
        0 <= j < targets.len(),
    ensures
        chain_row(source, idx, targets.take(j + 1)) == if targets[j] != source {
            chain_row(source, idx, targets.take(j)).push(MotifShape::Chain(source, idx, targets[j]))
        } else {
            chain_row(source, idx, targets.take(j))
        },
{
    let keep = other_than(source);
    assert(targets.take(j + 1) =~= targets.take(j).push(targets[j]));
    targets.take(j).lemma_filter_push(targets[j], keep);
}

proof fn lemma_reciprocal_row_next(target: usize, idx: usize, sources: Seq<usize>, j: int)
    requires
        0 <= j < sources.len(),
    ensures
        reciprocal_row(target, idx, sources.take(j + 1)) == if sources[j] == target && idx
            < target {
            reciprocal_row(target, idx, sources.take(j)).push(
                MotifShape::Reciprocal(idx, sources[j]),
            )
        } else {
            reciprocal_row(target, idx, sources.take(j))
        },
{
    let keep = mutual_above(target, idx);
    assert(sources.take(j + 1) =~= sources.take(j).push(sources[j]));
    sources.take(j).lemma_filter_push(sources[j], keep);
}

/// Appends the pair occurrences of one neighbour list.
fn push_pairs(list: &EdgeList, idx: usize, divergent: bool, out: &mut Vec<MotifShape>)
    ensures
        final(out)@ == old(out)@ + pair_motifs(list@, idx, divergent),
{
    let n: usize = list.len();
    let ghost rows = pair_rows(list@, idx, divergent);
    let mut i: usize = 0;
    while i < n
        invariant
            n == list@.len(),
            rows == pair_rows(list@, idx, divergent),
            i <= n,
            out@ == old(out)@ + rows.take(i as int).flatten(),
        decreases n - i,
    {
        let first: usize = list.get(i);
        let ghost before = out@;
        let ghost row = pair_row(list@, idx, divergent, i as int);
        let mut j: usize = i + 1;
        while j < n
            invariant
                n == list@.len(),
                i < j <= n,
                first == list@[i as int],
                row == pair_row(list@, idx, divergent, i as int),
                out@ == before + row.take(j - i - 1),
            decreases n - j,
        {
            let second: usize = list.get(j);
            let shape = if divergent {
                MotifShape::Divergent(first, idx, second)
            } else {
                MotifShape::Convergent(first, idx, second)
            };
            out.push(shape);
            j += 1;
        }
        proof {
            lemma_flatten_take_next(rows, i as int);
        }
        i += 1;
    }
    assert(rows.take(n as int) =~= rows);
}

/// Appends the chains through one node.
fn push_chains(sources: &EdgeList, idx: usize, targets: &EdgeList, out: &mut Vec<MotifShape>)
    ensures
        final(out)@ == old(out)@ + chain_motifs(sources@, idx, targets@),
{
    let n: usize = sources.len();
    let m: usize = targets.len();
    let ghost rows = chain_rows(sources@, idx, targets@);
    let mut i: usize = 0;
    while i < n
        invariant
            n == sources@.len(),
            m == targets@.len(),
            rows == chain_rows(sources@, idx, targets@),
            i <= n,
            out@ == old(out)@ + rows.take(i as int).flatten(),
        decreases n - i,
    {
        let source: usize = sources.get(i);
        let ghost before = out@;
        let mut j: usize = 0;
        proof {
            reveal(Seq::filter);
        }
        while j < m
            invariant
                m == targets@.len(),
                j <= m,
                out@ == before + chain_row(source, idx, targets@.take(j as int)),
            decreases m - j,
        {
            let target: usize = targets.get(j);
            proof {
                lemma_chain_row_next(source, idx, targets@, j as int);
            }
            if target != source {
                out.push(MotifShape::Chain(source, idx, target));
            }
            j += 1;
        }
        proof {
            assert(targets@.take(m as int) =~= targets@);
            lemma_flatten_take_next(rows, i as int);
        }
        i += 1;
    }
    assert(rows.take(n as int) =~= rows);
}

/// Appends the mutual pairs of one node.
fn push_reciprocals(sources: &EdgeList, idx: usize, targets: &EdgeList, out: &mut Vec<MotifShape>)
    ensures
        final(out)@ == old(out)@ + reciprocal_motifs(sources@, idx, targets@),
{
    let n: usize = sources.len();
    let m: usize = targets.len();
    let ghost rows = reciprocal_rows(sources@, idx, targets@);
    let mut i: usize = 0;
    while i < m
        invariant
            n == sources@.len(),
            m == targets@.len(),
            rows == reciprocal_rows(sources@, idx, targets@),
            i <= m,
            out@ == old(out)@ + rows.take(i as int).flatten(),
        decreases m - i,
    {
        let target: usize = targets.get(i);
        let ghost before = out@;
        let mut j: usize = 0;
        proof {
            reveal(Seq::filter);
        }
        while j < n
            invariant
                n == sources@.len(),
                j <= n,
                out@ == before + reciprocal_row(target, idx, sources@.take(j as int)),
            decreases n - j,
        {
            let source: usize = sources.get(j);
            proof {
                lemma_reciprocal_row_next(target, idx, sources@, j as int);
            }
            if target == source && idx < target {
                out.push(MotifShape::Reciprocal(idx, source));
            }
            j += 1;
        }
        proof {
            assert(sources@.take(n as int) =~= sources@);
            lemma_flatten_take_next(rows, i as int);
        }
        i += 1;
    }
    assert(rows.take(m as int) =~= rows);
}

/// Enumerates the motifs of a node list and appends each occurrence to `out`.
///
/// Nodes are visited in ascending index. Each node contributes, in this
/// order: a convergent occurrence for every two of its sources, a divergent
/// occurrence for every two of its targets, a chain for every source and
/// target that differ, and a reciprocal occurrence for every target that is
/// also a source and has a larger index than the node.
///
/// Of a tidy node list, as every list built from a matrix is, no occurrence
/// is appended twice, and each names nodes of the list only, its two like
/// nodes in ascending order.
pub fn process(nodes: &Vec<Node>, out: &mut Vec<MotifShape>)
    ensures
        final(out)@ == old(out)@ + census(node_views(nodes@)),
        tidy(node_views(nodes@)) ==> census(node_views(nodes@)).no_duplicates() && forall|k: int|
            old(out)@.len() <= k < final(out)@.len() ==> (#[trigger] final(out)@[k]).within(
                nodes@.len(),
            ) && final(out)@[k].canonical(),
{
    let count: usize = nodes.len();
    let ghost views = node_views(nodes@);
    let ghost rows = census_rows(views);
    let mut idx: usize = 0;
    while idx < count
        invariant
            count == nodes@.len(),
            views == node_views(nodes@),
            rows == census_rows(views),
            idx <= count,
            out@ == old(out)@ + rows.take(idx as int).flatten(),
        decreases count - idx,
    {
        let node = &nodes[idx];
        let ghost before = out@;
        let sources = node.sources();
        let targets = node.targets();
        push_pairs(sources, idx, false, out);
        push_pairs(targets, idx, true, out);
        push_chains(sources, idx, targets, out);
        push_reciprocals(sources, idx, targets, out);
        proof {
            lemma_flatten_take_next(rows, idx as int);
        }
        idx += 1;
    }
    proof {
        assert(rows.take(count as int) =~= rows);
        if tidy(views) {
            lemma_census_within(views);
            lemma_census_never_swapped(views);
            lemma_census_no_duplicates(views);
            assert forall|k: int| old(out)@.len() <= k < out@.len() implies (#[trigger] out@[k]).within(
                nodes@.len(),
            ) && out@[k].canonical() by {
            }
        }
    }
}

/// Two runs of the enumeration over one node list append the same
/// occurrences in the same order: where `once` is what a first run makes of
/// `before` and `twice` what a second run makes of `once`, the part that the
/// second run added is the part that the first run added.
pub proof fn lemma_process_repeatable(
    nodes: Seq<Node>,
    before: Seq<MotifShape>,
    once: Seq<MotifShape>,
    twice: Seq<MotifShape>,
)
    requires
        once == before + census(node_views(nodes)),
        twice == once + census(node_views(nodes)),
    ensures
        twice.subrange(once.len() as int, twice.len() as int) == once.subrange(
            before.len() as int,
            once.len() as int,
        ),
{
}

} // verus!
