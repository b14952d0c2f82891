//! Building the node list from a connectivity matrix.

use vstd::prelude::*;
use crate::graph::{node_views, well_formed, Node, NodeView, Type, MAX_NODES};
use crate::loaded::{
    breaks_dales_law, faultless, lemma_dales_law_cited, lemma_loaded_nodes,
    lemma_loaded_well_formed, lemma_loads_iff_faultless, polarity,
};
use crate::matrix::{
    column_flags, connected, is_connected, matrix_view, positions, row_flags, width, Cell,
    CellView, Sign,
};

verus! {

/// Why a matrix was refused.
#[derive(Clone, Debug, PartialEq, Eq)]
pub enum LoadError {
    /// The matrix is not square: `row` is the first row that has another
    /// number of cells than the `expected` width or that lies beyond the
    /// `expected` number of rows; for a matrix that ends before its last
    /// row, it is the first row that is missing.
    NotSquare { row: usize, expected: usize },
    /// A cell of row `node` stands for an edge and its text `value` is no
    /// number.
    NotNumeric { node: usize, value: String },
    /// The outgoing weights of `node` take both signs.
    DalesLaw { node: usize },
}

/// A `LoadError` in contracts.
pub enum LoadFault {
    NotSquare { row: nat, expected: nat },
    NotNumeric { node: nat, value: Seq<char> },
    DalesLaw { node: nat },
}

impl View for LoadError {
    type V = LoadFault;

    open spec fn view(&self) -> LoadFault {
        match *self {
            LoadError::NotSquare { row, expected } => LoadFault::NotSquare {
                row: row as nat,
                expected: expected as nat,
            },
            LoadError::NotNumeric { node, value } => LoadFault::NotNumeric {
                node: node as nat,
                value: value@,
            },
            LoadError::DalesLaw { node } => LoadFault::DalesLaw { node: node as nat },
        }
    }
}

/// The polarity of a node after one more outgoing weight of sign `sign`, or
/// `None` where that sign contradicts the polarity it already has.
pub open spec fn infer(typ: Type, sign: Sign) -> Option<Type> {
    match sign {
        Sign::Zero => Some(typ),
        Sign::Negative => if typ == Type::Excitatory {
            None
        } else {
            Some(Type::Inhibitory)
        },
        Sign::Positive => if typ == Type::Inhibitory {
            None
        } else {
            Some(Type::Excitatory)
        },
    }
}

/// What one cell of the row of `node` does to the polarity of `node`.
pub open spec fn scan_cell(typ: Type, cell: CellView, node: nat) -> Result<Type, LoadFault> {
    if !connected(cell.raw) {
        Ok(typ)
    } else {
        match cell.sign {
            None => Err(LoadFault::NotNumeric { node: node, value: cell.raw }),
            Some(sign) => match infer(typ, sign) {
                None => Err(LoadFault::DalesLaw { node: node }),
                Some(next) => Ok(next),
            },
        }
    }
}

/// The polarity of `node` after the first `upto` cells of its row, or the
/// first fault among them.
pub open spec fn scan_row(row: Seq<CellView>, node: nat, upto: nat) -> Result<Type, LoadFault>
    decreases upto,
{
    if upto == 0 {
        Ok(Type::Undetermined)
    } else {
        match scan_row(row, node, (upto - 1) as nat) {
            Err(fault) => Err(fault),
            Ok(typ) => scan_cell(typ, row[upto - 1], node),
        }
    }
}

/// The polarities of the first `upto` nodes, or the first fault that reading
/// their rows from the top, each from the left, comes upon.
pub open spec fn scan_rows(m: Seq<Seq<CellView>>, upto: nat) -> Result<Seq<Type>, LoadFault>
    decreases upto,
{
    if upto == 0 {
        Ok(Seq::empty())
    } else {
        let row = (upto - 1) as nat;
        match scan_rows(m, row) {
            Err(fault) => Err(fault),
            Ok(types) => if m[row as int].len() != width(m) || row >= width(m) {
                Err(LoadFault::NotSquare { row: row, expected: width(m) })
            } else {
                match scan_row(m[row as int], row, width(m)) {
                    Err(fault) => Err(fault),
                    Ok(typ) => Ok(types.push(typ)),
                }
            },
        }
    }
}

/// The node at index `idx` of a matrix that has no fault: its targets are the
/// columns at which row `idx` has an edge, its sources the rows that have an
/// edge in column `idx`, both ascending.
pub open spec fn node_of(m: Seq<Seq<CellView>>, idx: int, typ: Type) -> NodeView {
    NodeView {
        edges_to: positions(row_flags(m[idx])),
        edges_from: positions(column_flags(m, idx, m.len())),
        typ: typ,
    }
}

/// What loading a matrix gives: the first fault that reading its rows comes
/// upon; else, where rows are missing from the square, the first of them;
/// else one node for each row and column.
pub open spec fn load_outcome(m: Seq<Seq<CellView>>) -> Result<Seq<NodeView>, LoadFault> {
    match scan_rows(m, m.len()) {
        Err(fault) => Err(fault),
        Ok(types) => if m.len() < width(m) {
            Err(LoadFault::NotSquare { row: m.len(), expected: width(m) })
        } else {
            Ok(Seq::new(m.len(), |i: int| node_of(m, i, types[i])))
        },
    }
}

/// The node list while the matrix is being read: rows above `r` are done, and
/// so are the first `c` cells of row `r`.
spec fn loaded_to(nodes: Seq<NodeView>, m: Seq<Seq<CellView>>, r: int, c: int) -> bool {
    &&& nodes.len() == width(m)
    &&& forall|k: int|
        0 <= k < nodes.len() ==> (#[trigger] nodes[k]).edges_from == positions(
            column_flags(
                m,
                k,
                (if k < c {
                    r + 1
                } else {
                    r
                }) as nat,
            ),
        )
    &&& forall|i: int|
        0 <= i < nodes.len() ==> (#[trigger] nodes[i]).edges_to == (if i < r {
            positions(row_flags(m[i]))
        } else if i == r && 0 < c {
            positions(row_flags(m[i]).take(c))
        } else {
            Seq::empty()
        })
    &&& forall|i: int| r < i < nodes.len() ==> (#[trigger] nodes[i]).typ == Type::Undetermined
    &&& r < nodes.len() ==> scan_row(m[r], r as nat, c as nat) == Ok::<Type, LoadFault>(
        nodes[r].typ,
    )
    &&& scan_rows(m, r as nat) matches Ok(types) && types.len() == r && forall|i: int|
        0 <= i < r ==> types[i] == (#[trigger] nodes[i]).typ
}

proof fn lemma_positions_push(flags: Seq<bool>, flag: bool)
    ensures
        positions(flags.push(flag)) == if flag {
            positions(flags).push(flags.len() as usize)
        } else {
            positions(flags)
        },
{
    assert(flags.push(flag).drop_last() =~= flags);
}

proof fn lemma_positions_len(flags: Seq<bool>)
    ensures
        positions(flags).len() <= flags.len(),
    decreases flags.len(),
{
    if flags.len() > 0 {
        lemma_positions_len(flags.drop_last());
    }
}

/// A fault met in the first `at` cells of a row is the outcome however many
/// cells follow.
pub proof fn lemma_row_fault_stays(row: Seq<CellView>, node: nat, at: nat, upto: nat)
    requires
        at <= upto,
        scan_row(row, node, at) is Err,
    ensures
        scan_row(row, node, upto) == scan_row(row, node, at),
    decreases upto,
{
    if at < upto {
        lemma_row_fault_stays(row, node, at, (upto - 1) as nat);
    }
}

/// A fault met in the first `at` rows is the outcome however many rows
/// follow.
pub proof fn lemma_rows_fault_stays(m: Seq<Seq<CellView>>, at: nat, upto: nat)
    requires
        at <= upto,
        scan_rows(m, at) is Err,
    ensures
        scan_rows(m, upto) == scan_rows(m, at),
    decreases upto,
{
    if at < upto {
        lemma_rows_fault_stays(m, at, (upto - 1) as nat);
    }
}

/// The polarity of a node after one more outgoing weight of sign `sign`, or
/// `None` where the weight breaks Dale's law: a node that has a positive
/// weight is excitatory, one that has a negative weight inhibitory, and no
/// node is both.
pub fn infer_type(typ: Type, sign: Sign) -> (next: Option<Type>)
    ensures
        next == infer(typ, sign),
{
    match sign {
        Sign::Zero => Some(typ),
        Sign::Negative => match typ {
            Type::Excitatory => None,
            _ => Some(Type::Inhibitory),
        },
        Sign::Positive => match typ {
            Type::Inhibitory => None,
            _ => Some(Type::Excitatory),
        },
    }
}

/// Reads row `r` of the matrix into the node list.
fn load_row(nodes: &mut Vec<Node>, rows: &Vec<Vec<Cell>>, r: usize) -> (done: Result<(), LoadError>)
    requires
        r < rows@.len() <= MAX_NODES,
        r < width(matrix_view(rows@)) <= MAX_NODES,
        rows@[r as int]@.len() == width(matrix_view(rows@)),
        loaded_to(node_views(old(nodes)@), matrix_view(rows@), r as int, 0),
    ensures
        match done {
            Ok(_) => loaded_to(node_views(final(nodes)@), matrix_view(rows@), r + 1, 0),
            Err(e) => scan_row(
                matrix_view(rows@)[r as int],
                r as nat,
                width(matrix_view(rows@)),
            ) == Err::<Type, LoadFault>(e@),
        },
{
    let ghost m = matrix_view(rows@);
    let row = &rows[r];
    let cols: usize = row.len();
    let mut c: usize = 0;
    while c < cols
        invariant
            m == matrix_view(rows@),
            r < rows@.len() <= MAX_NODES,
            r < cols <= MAX_NODES,
            cols == width(m),
            row@ == rows@[r as int]@,
            row@.len() == cols,
            c <= cols,
            loaded_to(node_views(nodes@), m, r as int, c as int),
        decreases cols - c,
    {
        let cell = &row[c];
        let ghost views = node_views(nodes@);
        let ghost flag = connected(cell@.raw);
        proof {
            assert(row_flags(m[r as int]).take(c + 1) =~= row_flags(m[r as int]).take(
                c as int,
            ).push(flag));
            lemma_positions_push(row_flags(m[r as int]).take(c as int), flag);
            assert(column_flags(m, c as int, (r + 1) as nat) =~= column_flags(
                m,
                c as int,
                r as nat,
            ).push(flag));
            lemma_positions_push(column_flags(m, c as int, r as nat), flag);
            lemma_positions_len(row_flags(m[r as int]).take(c as int));
            lemma_positions_len(column_flags(m, c as int, r as nat));
        }
        if is_connected(cell.raw.as_str()) {
            match cell.sign {
                None => {
                    proof {
                        lemma_row_fault_stays(m[r as int], r as nat, (c + 1) as nat, cols as nat);
                    }
                    return Err(LoadError::NotNumeric { node: r, value: cell.raw.clone() });
                },
                Some(sign) => {
                    match infer_type(nodes[r].typ(), sign) {
                        None => {
                            proof {
                                lemma_row_fault_stays(
                                    m[r as int],
                                    r as nat,
                                    (c + 1) as nat,
                                    cols as nat,
                                );
                            }
                            return Err(LoadError::DalesLaw { node: r });
                        },
                        Some(next) => {
                            assert(views[c as int] == nodes@[c as int]@);
                            nodes[r].set_typ(next);
                            nodes[r].add_target(c);
                            nodes[c].add_source(r);
                        },
                    }
                },
            }
            proof {
                let after = node_views(nodes@);
                assert(forall|k: int|
                    0 <= k < after.len() && k != r && k != c ==> after[k] == views[k]);
            }
        }
        c += 1;
    }
    proof {
        assert(row_flags(m[r as int]).take(cols as int) =~= row_flags(m[r as int]));
    }
    Ok(())
}

/// Builds the node list of a connectivity matrix.
///
/// Row `i` holds the outgoing weights of node `i`, column `j` the incoming
/// weights of node `j`. A cell whose text stands for an edge adds `j` to the
/// targets of `i` and `i` to the sources of `j`, and its sign settles or
/// confirms the polarity of `i`. The matrix is read from the top, each row
/// from the left, and the first fault met is returned: a row that breaks the
/// square, an edge whose text is no number, or a weight that contradicts the
/// polarity of its node. A matrix whose rows hold no fault and that ends
/// before its last row is refused as not square. Without a fault the list
/// has one node for each row and column, node `i` for row `i` and column `i`,
/// inhibitory where its row has a negative weight, excitatory where it has a
/// positive one, undetermined where it has neither. A row with weights of
/// both signs, where nothing before the later of the two is at fault, has the
/// matrix refused for Dale's law with the index of that row.
///
/// Neither side of the matrix may be longer than `MAX_NODES`, the longest
/// adjacency list that a node holds.
pub fn load_nodes(rows: &Vec<Vec<Cell>>) -> (loaded: Result<Vec<Node>, LoadError>)
    requires
        rows@.len() <= MAX_NODES,
        width(matrix_view(rows@)) <= MAX_NODES,
    ensures
        match loaded {
            Ok(nodes) => load_outcome(matrix_view(rows@)) == Ok::<Seq<NodeView>, LoadFault>(
                node_views(nodes@),
            ),
            Err(e) => load_outcome(matrix_view(rows@)) == Err::<Seq<NodeView>, LoadFault>(e@),
        },
        loaded is Ok <==> faultless(matrix_view(rows@)),
        forall|node: int, negative: int, positive: int| #[trigger]
            breaks_dales_law(matrix_view(rows@), node, negative, positive) ==> loaded is Err
                && loaded->Err_0@ == (LoadFault::DalesLaw { node: node as nat }),
        loaded matches Ok(nodes) ==> {
            &&& nodes@.len() == rows@.len()
            &&& nodes@.len() == width(matrix_view(rows@))
            &&& well_formed(node_views(nodes@))
            &&& forall|i: int|
                0 <= i < nodes@.len() ==> (#[trigger] node_views(nodes@)[i]) == node_of(
                    matrix_view(rows@),
                    i,
                    polarity(matrix_view(rows@)[i]),
                )
        },
{
    let ghost m = matrix_view(rows@);
    proof {
        lemma_loads_iff_faultless(m);
        assert forall|node: int, negative: int, positive: int| #[trigger]
            breaks_dales_law(m, node, negative, positive) implies load_outcome(m) == Err::<
            Seq<NodeView>,
            LoadFault,
        >(LoadFault::DalesLaw { node: node as nat }) by {
            lemma_dales_law_cited(m, node, negative, positive);
        }
    }
    let count: usize = rows.len();
    let cols: usize = if count == 0 {
        0
    } else {
        rows[0].len()
    };
    let mut nodes: Vec<Node> = Vec::new();
    while nodes.len() < cols
        invariant
            nodes@.len() <= cols,
            forall|i: int|
                0 <= i < nodes@.len() ==> (#[trigger] nodes@[i])@ == (NodeView {
                    edges_to: Seq::<usize>::empty(),
                    edges_from: Seq::<usize>::empty(),
                    typ: Type::Undetermined,
                }),
        decreases cols - nodes@.len(),
    {
        nodes.push(Node::new());
    }
    let mut r: usize = 0;
    while r < count
        invariant
            m == matrix_view(rows@),
            count == rows@.len(),
            count <= MAX_NODES,
            cols == width(m),
            cols <= MAX_NODES,
            r <= count,
            loaded_to(node_views(nodes@), m, r as int, 0),
            load_outcome(m) is Ok <==> faultless(m),
            forall|node: int, negative: int, positive: int| #[trigger]
                breaks_dales_law(m, node, negative, positive) ==> load_outcome(m) == Err::<
                    Seq<NodeView>,
                    LoadFault,
                >(LoadFault::DalesLaw { node: node as nat }),
        decreases count - r,
    {
        if rows[r].len() != cols || r >= cols {
            proof {
                lemma_rows_fault_stays(m, (r + 1) as nat, count as nat);
            }
            return Err(LoadError::NotSquare { row: r, expected: cols });
        }
        match load_row(&mut nodes, rows, r) {
            Err(e) => {
                proof {
                    lemma_rows_fault_stays(m, (r + 1) as nat, count as nat);
                }
                return Err(e);
            },
            Ok(_) => {},
        }
        r += 1;
    }
    if count < cols {
        return Err(LoadError::NotSquare { row: count, expected: cols });
    }
    proof {
        let views = node_views(nodes@);
        assert(views =~= load_outcome(m)->Ok_0);
        lemma_loaded_nodes(m);
        lemma_loaded_well_formed(m);
    }
    Ok(nodes)
}

} // verus!
