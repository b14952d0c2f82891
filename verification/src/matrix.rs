//! The connectivity matrix as it is handed to the loader: one cell per
//! ordered pair of nodes, rows being sources and columns targets.

use vstd::prelude::*;
use vstd::string::StrSliceExecFns;

verus! {

/// Sign of a connection weight.
#[derive(Clone, Copy, Debug, PartialEq, Eq, Structural)]
pub enum Sign {
    Negative,
    Zero,
    Positive,
}

/// One cell of the matrix: the text of the field, and the sign of the number
/// that the text stands for, or `None` where it stands for no number.
#[derive(Clone, Debug, PartialEq, Eq)]
pub struct Cell {
    pub raw: String,
    pub sign: Option<Sign>,
}

/// A cell in contracts: its text as characters, and its sign.
pub struct CellView {
    pub raw: Seq<char>,
    pub sign: Option<Sign>,
}

impl View for Cell {
    type V = CellView;

    open spec fn view(&self) -> CellView {
        CellView { raw: self.raw@, sign: self.sign }
    }
}

/// A matrix in contracts: its rows, each a sequence of cells.
pub open spec fn matrix_view(rows: Seq<Vec<Cell>>) -> Seq<Seq<CellView>> {
    rows.map_values(|row: Vec<Cell>| row@.map_values(|cell: Cell| cell@))
}

/// The number of columns, which the first row sets; 0 for a matrix without
/// rows.
pub open spec fn width(m: Seq<Seq<CellView>>) -> nat {
    if m.len() == 0 {
        0
    } else {
        m[0].len()
    }
}

/// A field stands for an edge unless it is empty or reads exactly `0` or
/// `0.0`. Any other spelling of zero still stands for an edge.
pub open spec fn connected(raw: Seq<char>) -> bool {
    raw.len() > 0 && raw != seq!['0'] && raw != seq!['0', '.', '0']
}

/// For each cell of a row, whether it stands for an edge.
pub open spec fn row_flags(row: Seq<CellView>) -> Seq<bool> {
    Seq::new(row.len(), |j: int| connected(row[j].raw))
}

/// For each of the first `upto` rows, whether its cell in column `col` stands
/// for an edge.
pub open spec fn column_flags(m: Seq<Seq<CellView>>, col: int, upto: nat) -> Seq<bool> {
    Seq::new(upto, |i: int| connected(m[i][col].raw))
}

/// The positions at which `flags` holds true, in ascending order.
pub open spec fn positions(flags: Seq<bool>) -> Seq<usize>
    decreases flags.len(),
{
    if flags.len() == 0 {
        Seq::empty()
    } else if flags.last() {
        positions(flags.drop_last()).push((flags.len() - 1) as usize)
    } else {
        positions(flags.drop_last())
    }
}

/// Whether the text of a field stands for an edge.
pub fn is_connected(raw: &str) -> (yes: bool)
    ensures
        yes == connected(raw@),
{
    let n: usize = raw.unicode_len();
    if n == 0 {
        false
    } else if n == 1 {
        let only = raw.get_char(0);
        assert(raw@ =~= seq![only]);
        only != '0'
    } else if n == 3 {
        let a = raw.get_char(0);
        let b = raw.get_char(1);
        let c = raw.get_char(2);
        assert(raw@ =~= seq![a, b, c]);
        !(a == '0' && b == '.' && c == '0')
    } else {
        true
    }
}

} // verus!
