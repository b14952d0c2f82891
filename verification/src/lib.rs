//! Census of small connection motifs in a directed, signed neuronal graph.
//!
//! A connectivity matrix is read from delimited text (`table`), its cells
//! (`matrix`) are loaded into a list of nodes (`loader`, `graph`, `edges`),
//! every chain, convergent, divergent and reciprocal motif (`motif`) of that
//! list is enumerated in a fixed order (`census`), each occurrence is put into
//! a category (`category`) and the categories are counted (`tally`).
//!
//! `loaded` proves what holds of every node list that was built from a
//! matrix, `occurrence` that the enumeration finds each occurrence of a node
//! list, and each once; `sequences` holds the facts on sequences that both
//! rest on.

pub mod edges;
pub mod graph;
pub mod table;
pub mod matrix;
pub mod loader;
pub mod loaded;
pub mod motif;
pub mod sequences;
pub mod census;
pub mod occurrence;
pub mod category;
pub mod tally;

pub use graph::{Node, Type};
pub use table::{read_matrix, ReadError};
pub use matrix::{is_connected, Cell, Sign};
pub use loader::{infer_type, load_nodes, LoadError};
pub use motif::MotifShape;
pub use census::process;
pub use tally::{count_basic, count_by_node_type, summary_basic, summary_by_node_type};
pub use category::{
    determine_motif_category_basic, determine_motif_category_by_node_type, ClassifyError,
    MotifCategoryBasic, MotifCategoryByNodeType,
};
