//! What holds of every node list that was built from a matrix, and of which
//! matrices a node list is built.

use vstd::prelude::*;
use crate::census::census;
use crate::graph::{ascending, bounded, well_formed, NodeView, Type};
use crate::loader::{
    lemma_row_fault_stays, lemma_rows_fault_stays, load_outcome, node_of, scan_row, scan_rows,
    LoadFault,
};
use crate::occurrence::{lemma_census_never_swapped, lemma_census_no_duplicates, lemma_census_within};
use crate::matrix::{column_flags, connected, positions, row_flags, width, CellView, Sign};

verus! {

/// Among the first `upto` cells of the row, one stands for an edge whose
/// weight has the sign `sign`.
pub open spec fn has_sign(row: Seq<CellView>, upto: int, sign: Sign) -> bool {
    exists|j: int| 0 <= j < upto && connected(#[trigger] row[j].raw) && row[j].sign == Some(sign)
}

/// Among the first `upto` cells of the row, each that stands for an edge
/// holds a number.
pub open spec fn numeric(row: Seq<CellView>, upto: int) -> bool {
    forall|j: int| 0 <= j < upto && connected(#[trigger] row[j].raw) ==> row[j].sign is Some
}

/// The polarity that the outgoing weights of a row give its node:
/// inhibitory with a negative weight, excitatory with a positive one,
/// undetermined with neither.
pub open spec fn polarity(row: Seq<CellView>) -> Type {
    if has_sign(row, row.len() as int, Sign::Negative) {
        Type::Inhibitory
    } else if has_sign(row, row.len() as int, Sign::Positive) {
        Type::Excitatory
    } else {
        Type::Undetermined
    }
}

/// The matrix is square, each cell that stands for an edge holds a number,
/// and no row holds weights of both signs.
pub open spec fn faultless(m: Seq<Seq<CellView>>) -> bool {
    &&& m.len() == width(m)
    &&& forall|r: int|
        0 <= r < m.len() ==> {
            &&& (#[trigger] m[r]).len() == width(m)
            &&& numeric(m[r], m[r].len() as int)
            &&& !(has_sign(m[r], m[r].len() as int, Sign::Negative) && has_sign(
                m[r],
                m[r].len() as int,
                Sign::Positive,
            ))
        }
}

/// The positions at which flags hold true are ascending, lie within the
/// flags, and are the positions of the true flags, all of them.
pub proof fn lemma_positions(flags: Seq<bool>)
    requires
        flags.len() <= usize::MAX,
    ensures
        ascending(positions(flags)),
        bounded(positions(flags), flags.len()),
        forall|i: int| 0 <= i < flags.len() ==> (#[trigger] flags[i] <==> positions(flags).contains(i as usize)),
    decreases flags.len(),
{
    if flags.len() > 0 {
        let front = flags.drop_last();
        let last = (flags.len() - 1) as usize;
        lemma_positions(front);
        let found = positions(front);
        if flags.last() {
            assert(found.push(last).last() == last);
            assert forall|i: int| 0 <= i < flags.len() implies (#[trigger] flags[i]
                <==> found.push(last).contains(i as usize)) by {
                if i < front.len() {
                    assert(front[i] == flags[i]);
                    if flags[i] {
                        let at = choose|at: int| 0 <= at < found.len() && found[at] == i as usize;
                        assert(found.push(last)[at] == i as usize);
                    }
                    if found.push(last).contains(i as usize) {
                        let at = choose|at: int|
                            0 <= at < found.push(last).len() && found.push(last)[at] == i as usize;
                        assert(found[at] == i as usize);
                    }
                } else {
                    assert(found.push(last)[found.len() as int] == last);
                }
            }
        } else {
            assert forall|i: int| 0 <= i < flags.len() implies (#[trigger] flags[i] <==> found.contains(
                i as usize,
            )) by {
                if i < front.len() {
                    assert(front[i] == flags[i]);
                } else if found.contains(i as usize) {
                    let at = choose|at: int| 0 <= at < found.len() && found[at] == i as usize;
                }
            }
        }
    }
}

/// A row that was read without a fault up to a cell holds numbers in its
/// edges so far, and the polarity it has reached is inhibitory exactly where
/// one of those weights is negative, excitatory exactly where one is
/// positive.
pub proof fn lemma_scan_row_ok(row: Seq<CellView>, node: nat, upto: nat)
    requires
        upto <= row.len(),
        scan_row(row, node, upto) is Ok,
    ensures
        numeric(row, upto as int),
        scan_row(row, node, upto)->Ok_0 == Type::Inhibitory <==> has_sign(
            row,
            upto as int,
            Sign::Negative,
        ),
        scan_row(row, node, upto)->Ok_0 == Type::Excitatory <==> has_sign(
            row,
            upto as int,
            Sign::Positive,
        ),
    decreases upto,
{
    if upto > 0 {
        let before = (upto - 1) as nat;
        lemma_scan_row_ok(row, node, before);
        let cell = row[before as int];
        if has_sign(row, before as int, Sign::Negative) {
            let j = choose|j: int|
                0 <= j < before && connected(#[trigger] row[j].raw) && row[j].sign == Some(
                    Sign::Negative,
                );
            assert(0 <= j < upto && connected(row[j].raw) && row[j].sign == Some(Sign::Negative));
        }
        if has_sign(row, before as int, Sign::Positive) {
            let j = choose|j: int|
                0 <= j < before && connected(#[trigger] row[j].raw) && row[j].sign == Some(
                    Sign::Positive,
                );
            assert(0 <= j < upto && connected(row[j].raw) && row[j].sign == Some(Sign::Positive));
        }
        if connected(cell.raw) {
            assert(connected(row[before as int].raw));
        }
    }
}

/// A row whose edges hold numbers of one sign at most is read without a
/// fault.
pub proof fn lemma_scan_row_succeeds(row: Seq<CellView>, node: nat, upto: nat)
    requires
        upto <= row.len(),
        numeric(row, row.len() as int),
        !(has_sign(row, row.len() as int, Sign::Negative) && has_sign(
            row,
            row.len() as int,
            Sign::Positive,
        )),
    ensures
        scan_row(row, node, upto) is Ok,
    decreases upto,
{
    if upto > 0 {
        let before = (upto - 1) as nat;
        lemma_scan_row_succeeds(row, node, before);
        lemma_scan_row_ok(row, node, before);
        let cell = row[before as int];
        if connected(cell.raw) {
            assert(connected(row[before as int].raw));
            if has_sign(row, before as int, Sign::Negative) {
                let j = choose|j: int|
                    0 <= j < before && connected(#[trigger] row[j].raw) && row[j].sign == Some(
                        Sign::Negative,
                    );
                assert(0 <= j < row.len() && connected(row[j].raw));
            }
            if has_sign(row, before as int, Sign::Positive) {
                let j = choose|j: int|
                    0 <= j < before && connected(#[trigger] row[j].raw) && row[j].sign == Some(
                        Sign::Positive,
                    );
                assert(0 <= j < row.len() && connected(row[j].raw));
            }
        }
    }
}

/// Rows that were read without a fault are as wide as the matrix and lie
/// within its square, and each was read without a fault on its own.
pub proof fn lemma_scan_rows_ok(m: Seq<Seq<CellView>>, upto: nat)
    requires
        upto <= m.len(),
        scan_rows(m, upto) is Ok,
    ensures
        upto <= width(m),
        scan_rows(m, upto)->Ok_0.len() == upto,
        forall|r: int|
            0 <= r < upto ==> (#[trigger] m[r]).len() == width(m) && scan_row(
                m[r],
                r as nat,
                width(m),
            ) == Ok::<Type, LoadFault>(scan_rows(m, upto)->Ok_0[r]),
    decreases upto,
{
    if upto > 0 {
        lemma_scan_rows_ok(m, (upto - 1) as nat);
    }
}

/// A matrix without a fault is read without a fault.
pub proof fn lemma_scan_rows_succeeds(m: Seq<Seq<CellView>>, upto: nat)
    requires
        upto <= m.len(),
        faultless(m),
    ensures
        scan_rows(m, upto) is Ok,
    decreases upto,
{
    if upto > 0 {
        let row = (upto - 1) as nat;
        lemma_scan_rows_succeeds(m, row);
        assert(m[row as int].len() == width(m));
        lemma_scan_row_succeeds(m[row as int], row, width(m));
    }
}

/// A node list is built exactly of the matrices without a fault.
pub proof fn lemma_loads_iff_faultless(m: Seq<Seq<CellView>>)
    ensures
        load_outcome(m) is Ok <==> faultless(m),
{
    if faultless(m) {
        lemma_scan_rows_succeeds(m, m.len());
    }
    if load_outcome(m) is Ok {
        lemma_scan_rows_ok(m, m.len());
        assert forall|r: int| 0 <= r < m.len() implies {
            &&& (#[trigger] m[r]).len() == width(m)
            &&& numeric(m[r], m[r].len() as int)
            &&& !(has_sign(m[r], m[r].len() as int, Sign::Negative) && has_sign(
                m[r],
                m[r].len() as int,
                Sign::Positive,
            ))
        } by {
            lemma_scan_row_ok(m[r], r as nat, width(m));
        }
    }
}

/// The list built from a matrix has one node for each row and each column,
/// node `i` for row `i` and column `i`, and every node has the polarity that
/// its row gives it.
pub proof fn lemma_loaded_nodes(m: Seq<Seq<CellView>>)
    requires
        load_outcome(m) is Ok,
    ensures
        load_outcome(m)->Ok_0.len() == m.len(),
        m.len() == width(m),
        forall|i: int|
            0 <= i < m.len() ==> (#[trigger] load_outcome(m)->Ok_0[i]) == node_of(
                m,
                i,
                polarity(m[i]),
            ),
{
    lemma_scan_rows_ok(m, m.len());
    assert forall|i: int| 0 <= i < m.len() implies (#[trigger] load_outcome(m)->Ok_0[i]) == node_of(
        m,
        i,
        polarity(m[i]),
    ) by {
        lemma_scan_row_ok(m[i], i as nat, width(m));
    }
}

/// A square matrix whose edges hold numbers, no row of both signs, gives as
/// many nodes as it is wide.
pub proof fn lemma_square_matrix_loads(m: Seq<Seq<CellView>>)
    requires
        faultless(m),
    ensures
        load_outcome(m) is Ok,
        load_outcome(m)->Ok_0.len() == width(m),
{
    lemma_loads_iff_faultless(m);
    lemma_loaded_nodes(m);
}

/// A matrix whose rows hold no fault and that has fewer rows than columns is
/// refused as not square; the error names the first row that is missing.
pub proof fn lemma_missing_rows_refused(m: Seq<Seq<CellView>>)
    requires
        scan_rows(m, m.len()) is Ok,
        m.len() < width(m),
    ensures
        load_outcome(m) == Err::<Seq<NodeView>, LoadFault>(
            LoadFault::NotSquare { row: m.len(), expected: width(m) },
        ),
{
}

/// A row with a negative and a positive weight is refused, wherever it
/// stands and whatever else the matrix holds.
pub proof fn lemma_both_signs_refused(m: Seq<Seq<CellView>>, node: int, negative: int, positive: int)
    requires
        0 <= node < m.len(),
        0 <= negative < m[node].len(),
        0 <= positive < m[node].len(),
        connected(m[node][negative].raw),
        m[node][negative].sign == Some(Sign::Negative),
        connected(m[node][positive].raw),
        m[node][positive].sign == Some(Sign::Positive),
    ensures
        load_outcome(m) is Err,
{
    lemma_loads_iff_faultless(m);
    if faultless(m) {
        assert(has_sign(m[node], m[node].len() as int, Sign::Negative));
        assert(has_sign(m[node], m[node].len() as int, Sign::Positive));
    }
}

/// The only fault among cells that hold numbers where they stand for an
/// edge is a breach of Dale's law.
pub proof fn lemma_numeric_row_fault(row: Seq<CellView>, node: nat, upto: nat)
    requires
        upto <= row.len(),
        numeric(row, upto as int),
        scan_row(row, node, upto) is Err,
    ensures
        scan_row(row, node, upto) == Err::<Type, LoadFault>(LoadFault::DalesLaw { node: node }),
    decreases upto,
{
    if upto > 0 {
        let before = (upto - 1) as nat;
        if scan_row(row, node, before) is Err {
            lemma_numeric_row_fault(row, node, before);
        } else {
            assert(connected(row[before as int].raw) ==> row[before as int].sign is Some);
        }
    }
}

/// The first fault of the matrix is a breach of Dale's law by `node`: the
/// rows above hold no fault, the row of `node` lies within the square and has
/// a negative weight at `negative` and a positive one at `positive`, and the
/// edges before the later of the two hold numbers.
pub open spec fn breaks_dales_law(
    m: Seq<Seq<CellView>>,
    node: int,
    negative: int,
    positive: int,
) -> bool {
    &&& 0 <= node < m.len()
    &&& node < width(m)
    &&& scan_rows(m, node as nat) is Ok
    &&& m[node].len() == width(m)
    &&& 0 <= negative < m[node].len()
    &&& 0 <= positive < m[node].len()
    &&& connected(m[node][negative].raw)
    &&& m[node][negative].sign == Some(Sign::Negative)
    &&& connected(m[node][positive].raw)
    &&& m[node][positive].sign == Some(Sign::Positive)
    &&& numeric(
        m[node],
        if negative < positive {
            positive
        } else {
            negative
        },
    )
}

/// A matrix whose first fault is a breach of Dale's law by `node` is refused
/// for that breach, whatever follows it.
pub proof fn lemma_dales_law_cited(m: Seq<Seq<CellView>>, node: int, negative: int, positive: int)
    requires
        breaks_dales_law(m, node, negative, positive),
    ensures
        load_outcome(m) == Err::<Seq<NodeView>, LoadFault>(
            LoadFault::DalesLaw { node: node as nat },
        ),
{
    let row = m[node];
    let later = if negative < positive {
        positive
    } else {
        negative
    };
    let upto = (later + 1) as nat;
    assert(has_sign(row, upto as int, Sign::Negative));
    assert(has_sign(row, upto as int, Sign::Positive));
    if scan_row(row, node as nat, upto) is Ok {
        lemma_scan_row_ok(row, node as nat, upto);
    }
    assert(numeric(row, upto as int));
    lemma_numeric_row_fault(row, node as nat, upto);
    lemma_row_fault_stays(row, node as nat, upto, width(m));
    assert(scan_rows(m, (node + 1) as nat) == Err::<Seq<Type>, LoadFault>(
        LoadFault::DalesLaw { node: node as nat },
    ));
    lemma_rows_fault_stays(m, (node + 1) as nat, m.len());
}

/// A node whose outgoing weights are all zero stays undetermined.
pub proof fn lemma_zero_weights_undetermined(m: Seq<Seq<CellView>>, node: int)
    requires
        load_outcome(m) is Ok,
        0 <= node < m.len(),
        forall|j: int|
            0 <= j < m[node].len() && connected(#[trigger] m[node][j].raw) ==> m[node][j].sign
                == Some(Sign::Zero),
    ensures
        load_outcome(m)->Ok_0[node].typ == Type::Undetermined,
{
    lemma_loaded_nodes(m);
}

/// The list built from a matrix is well formed: its adjacency lists name
/// nodes of the list only, each neighbour once and in ascending order, and
/// every edge stands in the list of its source and in the list of its target.
pub proof fn lemma_loaded_well_formed(m: Seq<Seq<CellView>>)
    requires
        load_outcome(m) is Ok,
        width(m) <= usize::MAX,
    ensures
        well_formed(load_outcome(m)->Ok_0),
{
    let nodes = load_outcome(m)->Ok_0;
    lemma_loaded_nodes(m);
    lemma_scan_rows_ok(m, m.len());
    assert forall|n: int| 0 <= n < nodes.len() implies {
        &&& ascending((#[trigger] nodes[n]).edges_to)
        &&& ascending(nodes[n].edges_from)
        &&& bounded(nodes[n].edges_to, nodes.len())
        &&& bounded(nodes[n].edges_from, nodes.len())
    } by {
        assert(m[n].len() == width(m));
        lemma_positions(row_flags(m[n]));
        lemma_positions(column_flags(m, n, m.len()));
    }
    assert forall|i: int, j: int| 0 <= i < nodes.len() && 0 <= j < nodes.len() implies (
    #[trigger] nodes[i].edges_to.contains(j as usize) <==> #[trigger] nodes[j].edges_from.contains(
        i as usize,
    )) by {
        assert(m[i].len() == width(m));
        lemma_positions(row_flags(m[i]));
        lemma_positions(column_flags(m, j, m.len()));
        assert(row_flags(m[i])[j] == connected(m[i][j].raw));
        assert(column_flags(m, j, m.len())[i] == connected(m[i][j].raw));
    }
}

/// The census of the node list built from a matrix names nodes of the
/// matrix only, holds every occurrence in its canonical form and once, and
/// holds no convergent, divergent or mutual occurrence a second time with its
/// outer nodes exchanged.
pub proof fn lemma_census_of_loaded(m: Seq<Seq<CellView>>)
    requires
        load_outcome(m) is Ok,
        width(m) <= usize::MAX,
    ensures
        ({
            let found = census(load_outcome(m)->Ok_0);
            &&& found.no_duplicates()
            &&& forall|k: int|
                0 <= k < found.len() ==> (#[trigger] found[k]).within(width(m))
                    && found[k].canonical()
            &&& forall|k: int, l: int|
                0 <= k < found.len() && 0 <= l < found.len() && !(found[k] is Chain)
                    ==> #[trigger] found[l] != (#[trigger] found[k]).swapped()
        }),
{
    let nodes = load_outcome(m)->Ok_0;
    lemma_loaded_nodes(m);
    lemma_loaded_well_formed(m);
    lemma_census_within(nodes);
    lemma_census_never_swapped(nodes);
    lemma_census_no_duplicates(nodes);
}

} // verus!
