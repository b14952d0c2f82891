//! Categories of motif occurrences: by shape alone, or by shape and the
//! polarity of the nodes that decide it.

use vstd::prelude::*;
use crate::graph::{node_views, Node, NodeView, Type};
use crate::motif::MotifShape;

verus! {

/// Category of an occurrence by its shape alone.
#[derive(Clone, Copy, Debug, PartialEq, Eq, Structural)]
pub enum MotifCategoryBasic {
    Chain,
    Convergent,
    Divergent,
    Reciprocal,
}

/// Category of an occurrence by its shape and by the polarity of its deciding
/// nodes: `E` for an excitatory node, `I` for an inhibitory one.
#[derive(Clone, Copy, Debug, PartialEq, Eq, Structural)]
pub enum MotifCategoryByNodeType {
    ChainEE,
    ChainEI,
    ChainIE,
    ChainII,
    ConvergentEE,
    ConvergentII,
    ConvergentEI,
    DivergentE,
    DivergentI,
    ReciprocalEE,
    ReciprocalII,
    ReciprocalEI,
}

/// Why an occurrence has no category by polarity.
#[derive(Clone, Copy, Debug, PartialEq, Eq, Structural)]
pub enum ClassifyError {
    /// The occurrence names a deciding node that the node list does not have.
    UnknownNode { node: usize },
    /// The polarity of a deciding node is not determined.
    Undetermined { node: usize },
}

/// How many categories by shape there are.
pub const BASIC_CATEGORIES: usize = 4;

/// How many categories by shape and polarity there are.
pub const NODE_TYPE_CATEGORIES: usize = 12;

impl MotifCategoryBasic {
    /// The place of the category in the order of definition, from 0.
    pub open spec fn ordinal(self) -> nat {
        match self {
            MotifCategoryBasic::Chain => 0,
            MotifCategoryBasic::Convergent => 1,
            MotifCategoryBasic::Divergent => 2,
            MotifCategoryBasic::Reciprocal => 3,
        }
    }

    /// The name of the category as characters.
    pub open spec fn label(self) -> Seq<char> {
        match self {
            MotifCategoryBasic::Chain => "Chain"@,
            MotifCategoryBasic::Convergent => "Convergent"@,
            MotifCategoryBasic::Divergent => "Divergent"@,
            MotifCategoryBasic::Reciprocal => "Reciprocal"@,
        }
    }

    /// The place of the category in the order of definition, from 0.
    pub fn int_value(self) -> (n: usize)
        ensures
            n == self.ordinal(),
            n < BASIC_CATEGORIES,
    {
        match self {
            MotifCategoryBasic::Chain => 0,
            MotifCategoryBasic::Convergent => 1,
            MotifCategoryBasic::Divergent => 2,
            MotifCategoryBasic::Reciprocal => 3,
        }
    }

    /// The category at place `n`, if there is one.
    pub fn from_int(n: usize) -> (found: Option<MotifCategoryBasic>)
        ensures
            match found {
                Some(category) => category.ordinal() == n,
                None => n >= BASIC_CATEGORIES,
            },
    {
        if n == 0 {
            Some(MotifCategoryBasic::Chain)
        } else if n == 1 {
            Some(MotifCategoryBasic::Convergent)
        } else if n == 2 {
            Some(MotifCategoryBasic::Divergent)
        } else if n == 3 {
            Some(MotifCategoryBasic::Reciprocal)
        } else {
            None
        }
    }

    /// The name of the category.
    pub fn name(self) -> (text: &'static str)
        ensures
            text@ == self.label(),
    {
        match self {
            MotifCategoryBasic::Chain => "Chain",
            MotifCategoryBasic::Convergent => "Convergent",
            MotifCategoryBasic::Divergent => "Divergent",
            MotifCategoryBasic::Reciprocal => "Reciprocal",
        }
    }
}

impl MotifCategoryByNodeType {
    /// The place of the category in the order of definition, from 0.
    pub open spec fn ordinal(self) -> nat {
        match self {
            MotifCategoryByNodeType::ChainEE => 0,
            MotifCategoryByNodeType::ChainEI => 1,
            MotifCategoryByNodeType::ChainIE => 2,
            MotifCategoryByNodeType::ChainII => 3,
            MotifCategoryByNodeType::ConvergentEE => 4,
            MotifCategoryByNodeType::ConvergentII => 5,
            MotifCategoryByNodeType::ConvergentEI => 6,
            MotifCategoryByNodeType::DivergentE => 7,
            MotifCategoryByNodeType::DivergentI => 8,
            MotifCategoryByNodeType::ReciprocalEE => 9,
            MotifCategoryByNodeType::ReciprocalII => 10,
            MotifCategoryByNodeType::ReciprocalEI => 11,
        }
    }

    /// The name of the category as characters.
    pub open spec fn label(self) -> Seq<char> {
        match self {
            MotifCategoryByNodeType::ChainEE => "ChainEE"@,
            MotifCategoryByNodeType::ChainEI => "ChainEI"@,
            MotifCategoryByNodeType::ChainIE => "ChainIE"@,
            MotifCategoryByNodeType::ChainII => "ChainII"@,
            MotifCategoryByNodeType::ConvergentEE => "ConvergentEE"@,
            MotifCategoryByNodeType::ConvergentII => "ConvergentII"@,
            MotifCategoryByNodeType::ConvergentEI => "ConvergentEI"@,
            MotifCategoryByNodeType::DivergentE => "DivergentE"@,
            MotifCategoryByNodeType::DivergentI => "DivergentI"@,
            MotifCategoryByNodeType::ReciprocalEE => "ReciprocalEE"@,
            MotifCategoryByNodeType::ReciprocalII => "ReciprocalII"@,
            MotifCategoryByNodeType::ReciprocalEI => "ReciprocalEI"@,
        }
    }

    /// The place of the category in the order of definition, from 0.
    pub fn int_value(self) -> (n: usize)
        ensures
            n == self.ordinal(),
            n < NODE_TYPE_CATEGORIES,
    {
        match self {
            MotifCategoryByNodeType::ChainEE => 0,
            MotifCategoryByNodeType::ChainEI => 1,
            MotifCategoryByNodeType::ChainIE => 2,
            MotifCategoryByNodeType::ChainII => 3,
            MotifCategoryByNodeType::ConvergentEE => 4,
            MotifCategoryByNodeType::ConvergentII => 5,
            MotifCategoryByNodeType::ConvergentEI => 6,
            MotifCategoryByNodeType::DivergentE => 7,
            MotifCategoryByNodeType::DivergentI => 8,
            MotifCategoryByNodeType::ReciprocalEE => 9,
            MotifCategoryByNodeType::ReciprocalII => 10,
            MotifCategoryByNodeType::ReciprocalEI => 11,
        }
    }

    /// The category at place `n`, if there is one.
    pub fn from_int(n: usize) -> (found: Option<MotifCategoryByNodeType>)
        ensures
            match found {
                Some(category) => category.ordinal() == n,
                None => n >= NODE_TYPE_CATEGORIES,
            },
    {
        if n == 0 {
            Some(MotifCategoryByNodeType::ChainEE)
        } else if n == 1 {
            Some(MotifCategoryByNodeType::ChainEI)
        } else if n == 2 {
            Some(MotifCategoryByNodeType::ChainIE)
        } else if n == 3 {
            Some(MotifCategoryByNodeType::ChainII)
        } else if n == 4 {
            Some(MotifCategoryByNodeType::ConvergentEE)
        } else if n == 5 {
            Some(MotifCategoryByNodeType::ConvergentII)
        } else if n == 6 {
            Some(MotifCategoryByNodeType::ConvergentEI)
        } else if n == 7 {
            Some(MotifCategoryByNodeType::DivergentE)
        } else if n == 8 {
            Some(MotifCategoryByNodeType::DivergentI)
        } else if n == 9 {
            Some(MotifCategoryByNodeType::ReciprocalEE)
        } else if n == 10 {
            Some(MotifCategoryByNodeType::ReciprocalII)
        } else if n == 11 {
            Some(MotifCategoryByNodeType::ReciprocalEI)
        } else {
            None
        }
    }

    /// The name of the category.
    pub fn name(self) -> (text: &'static str)
        ensures
            text@ == self.label(),
    {
        match self {
            MotifCategoryByNodeType::ChainEE => "ChainEE",
            MotifCategoryByNodeType::ChainEI => "ChainEI",
            MotifCategoryByNodeType::ChainIE => "ChainIE",
            MotifCategoryByNodeType::ChainII => "ChainII",
            MotifCategoryByNodeType::ConvergentEE => "ConvergentEE",
            MotifCategoryByNodeType::ConvergentII => "ConvergentII",
            MotifCategoryByNodeType::ConvergentEI => "ConvergentEI",
            MotifCategoryByNodeType::DivergentE => "DivergentE",
            MotifCategoryByNodeType::DivergentI => "DivergentI",
            MotifCategoryByNodeType::ReciprocalEE => "ReciprocalEE",
            MotifCategoryByNodeType::ReciprocalII => "ReciprocalII",
            MotifCategoryByNodeType::ReciprocalEI => "ReciprocalEI",
        }
    }
}

/// The category of an occurrence by its shape alone.
pub open spec fn basic_category(shape: MotifShape) -> MotifCategoryBasic {
    match shape {
        MotifShape::Chain(..) => MotifCategoryBasic::Chain,
        MotifShape::Convergent(..) => MotifCategoryBasic::Convergent,
        MotifShape::Divergent(..) => MotifCategoryBasic::Divergent,
        MotifShape::Reciprocal(..) => MotifCategoryBasic::Reciprocal,
    }
}

/// Whether a deciding node is excitatory (`true`) or inhibitory (`false`), or
/// why it cannot decide.
pub open spec fn excitatory(nodes: Seq<NodeView>, node: usize) -> Result<bool, ClassifyError> {
    if node >= nodes.len() {
        Err(ClassifyError::UnknownNode { node: node })
    } else {
        match nodes[node as int].typ {
            Type::Undetermined => Err(ClassifyError::Undetermined { node: node }),
            Type::Excitatory => Ok(true),
            Type::Inhibitory => Ok(false),
        }
    }
}

/// The category of a chain whose source and sink have the given polarities
/// (`true` for excitatory). The direction counts.
pub open spec fn chain_category(source: bool, sink: bool) -> MotifCategoryByNodeType {
    if source {
        if sink {
            MotifCategoryByNodeType::ChainEE
        } else {
            MotifCategoryByNodeType::ChainEI
        }
    } else {
        if sink {
            MotifCategoryByNodeType::ChainIE
        } else {
            MotifCategoryByNodeType::ChainII
        }
    }
}

/// The category of a convergent occurrence whose two sources have the given
/// polarities. Their order does not count.
pub open spec fn convergent_category(first: bool, second: bool) -> MotifCategoryByNodeType {
    if first && second {
        MotifCategoryByNodeType::ConvergentEE
    } else if !first && !second {
        MotifCategoryByNodeType::ConvergentII
    } else {
        MotifCategoryByNodeType::ConvergentEI
    }
}

/// The category of a divergent occurrence whose shared source has the given
/// polarity.
pub open spec fn divergent_category(source: bool) -> MotifCategoryByNodeType {
    if source {
        MotifCategoryByNodeType::DivergentE
    } else {
        MotifCategoryByNodeType::DivergentI
    }
}

/// The category of a mutual pair whose nodes have the given polarities. Their
/// order does not count.
pub open spec fn reciprocal_category(first: bool, second: bool) -> MotifCategoryByNodeType {
    if first && second {
        MotifCategoryByNodeType::ReciprocalEE
    } else if !first && !second {
        MotifCategoryByNodeType::ReciprocalII
    } else {
        MotifCategoryByNodeType::ReciprocalEI
    }
}

/// The polarities of two deciding nodes, or the reason why the first of them
/// that cannot decide cannot.
pub open spec fn excitatory_pair(nodes: Seq<NodeView>, first: usize, second: usize) -> Result<
    (bool, bool),
    ClassifyError,
> {
    match excitatory(nodes, first) {
        Err(e) => Err(e),
        Ok(a) => match excitatory(nodes, second) {
            Err(e) => Err(e),
            Ok(b) => Ok((a, b)),
        },
    }
}

/// The category of an occurrence by shape and polarity. A chain is decided by
/// its source and its sink, a convergent occurrence by its two sources, a
/// divergent one by its shared source, a mutual pair by its two nodes.
pub open spec fn node_type_category(nodes: Seq<NodeView>, shape: MotifShape) -> Result<
    MotifCategoryByNodeType,
    ClassifyError,
> {
    match shape {
        MotifShape::Chain(a, _, c) => match excitatory_pair(nodes, a, c) {
            Err(e) => Err(e),
            Ok(pair) => Ok(chain_category(pair.0, pair.1)),
        },
        MotifShape::Convergent(a, _, c) => match excitatory_pair(nodes, a, c) {
            Err(e) => Err(e),
            Ok(pair) => Ok(convergent_category(pair.0, pair.1)),
        },
        MotifShape::Divergent(_, b, _) => match excitatory(nodes, b) {
            Err(e) => Err(e),
            Ok(source) => Ok(divergent_category(source)),
        },
        MotifShape::Reciprocal(a, b) => match excitatory_pair(nodes, a, b) {
            Err(e) => Err(e),
            Ok(pair) => Ok(reciprocal_category(pair.0, pair.1)),
        },
    }
}

/// Classification by polarity is total on determined nodes: an occurrence
/// whose nodes are nodes of the list has a category where no node of the list
/// is undetermined.
pub proof fn lemma_determined_has_category(nodes: Seq<NodeView>, shape: MotifShape)
    requires
        shape.within(nodes.len()),
        forall|n: int| 0 <= n < nodes.len() ==> (#[trigger] nodes[n]).typ != Type::Undetermined,
    ensures
        node_type_category(nodes, shape) is Ok,
{
}

/// An occurrence has no category by polarity exactly where one of its
/// deciding nodes is missing from the list or undetermined.
pub proof fn lemma_category_fails(nodes: Seq<NodeView>, shape: MotifShape)
    ensures
        node_type_category(nodes, shape) is Err <==> match shape {
            MotifShape::Chain(a, _, c) => excitatory(nodes, a) is Err || excitatory(nodes, c) is Err,
            MotifShape::Convergent(a, _, c) => excitatory(nodes, a) is Err || excitatory(
                nodes,
                c,
            ) is Err,
            MotifShape::Divergent(_, b, _) => excitatory(nodes, b) is Err,
            MotifShape::Reciprocal(a, b) => excitatory(nodes, a) is Err || excitatory(nodes, b) is Err,
        },
{
}

/// The category of an occurrence by its shape alone.
pub fn determine_motif_category_basic(shape: &MotifShape) -> (category: MotifCategoryBasic)
    ensures
        category == basic_category(*shape),
{
    match *shape {
        MotifShape::Chain(..) => MotifCategoryBasic::Chain,
        MotifShape::Convergent(..) => MotifCategoryBasic::Convergent,
        MotifShape::Divergent(..) => MotifCategoryBasic::Divergent,
        MotifShape::Reciprocal(..) => MotifCategoryBasic::Reciprocal,
    }
}

/// Whether a deciding node is excitatory, or why it cannot decide.
fn is_excitatory(nodes: &Vec<Node>, node: usize) -> (found: Result<bool, ClassifyError>)
    ensures
        found == excitatory(node_views(nodes@), node),
{
    if node >= nodes.len() {
        return Err(ClassifyError::UnknownNode { node });
    }
    match nodes[node].typ() {
        Type::Undetermined => Err(ClassifyError::Undetermined { node }),
        Type::Excitatory => Ok(true),
        Type::Inhibitory => Ok(false),
    }
}

/// The polarities of two deciding nodes.
fn are_excitatory(nodes: &Vec<Node>, first: usize, second: usize) -> (found: Result<
    (bool, bool),
    ClassifyError,
>)
    ensures
        found == excitatory_pair(node_views(nodes@), first, second),
{
    match is_excitatory(nodes, first) {
        Err(e) => Err(e),
        Ok(a) => match is_excitatory(nodes, second) {
            Err(e) => Err(e),
            Ok(b) => Ok((a, b)),
        },
    }
}

/// The category of an occurrence by its shape and by the polarity of its
/// deciding nodes.
///
/// | shape | deciding nodes | E, E | E, I | I, E | I, I |
/// |---|---|---|---|---|---|
/// | `Chain(a, _, c)` | `a`, `c` | `ChainEE` | `ChainEI` | `ChainIE` | `ChainII` |
/// | `Convergent(a, _, c)` | `a`, `c` | `ConvergentEE` | `ConvergentEI` | `ConvergentEI` | `ConvergentII` |
/// | `Divergent(_, b, _)` | `b` | `DivergentE` | | | `DivergentI` |
/// | `Reciprocal(a, b)` | `a`, `b` | `ReciprocalEE` | `ReciprocalEI` | `ReciprocalEI` | `ReciprocalII` |
///
/// The result is an error exactly where a deciding node is missing from the
/// list or has no determined polarity; the error names the first such node.
pub fn determine_motif_category_by_node_type(nodes: &Vec<Node>, shape: &MotifShape) -> (category:
    Result<MotifCategoryByNodeType, ClassifyError>)
    ensures
        category == node_type_category(node_views(nodes@), *shape),
{
    match *shape {
        MotifShape::Chain(a, _, c) => match are_excitatory(nodes, a, c) {
            Err(e) => Err(e),
            Ok((true, true)) => Ok(MotifCategoryByNodeType::ChainEE),
            Ok((true, false)) => Ok(MotifCategoryByNodeType::ChainEI),
            Ok((false, true)) => Ok(MotifCategoryByNodeType::ChainIE),
            Ok((false, false)) => Ok(MotifCategoryByNodeType::ChainII),
        },
        MotifShape::Convergent(a, _, c) => match are_excitatory(nodes, a, c) {
            Err(e) => Err(e),
            Ok((true, true)) => Ok(MotifCategoryByNodeType::ConvergentEE),
            Ok((false, false)) => Ok(MotifCategoryByNodeType::ConvergentII),
            Ok((false, true)) => Ok(MotifCategoryByNodeType::ConvergentEI),
            Ok((true, false)) => Ok(MotifCategoryByNodeType::ConvergentEI),
        },
        MotifShape::Divergent(_, b, _) => match is_excitatory(nodes, b) {
            Err(e) => Err(e),
            Ok(true) => Ok(MotifCategoryByNodeType::DivergentE),
            Ok(false) => Ok(MotifCategoryByNodeType::DivergentI),
        },
        MotifShape::Reciprocal(a, b) => match are_excitatory(nodes, a, b) {
            Err(e) => Err(e),
            Ok((true, true)) => Ok(MotifCategoryByNodeType::ReciprocalEE),
            Ok((false, false)) => Ok(MotifCategoryByNodeType::ReciprocalII),
            Ok((true, false)) => Ok(MotifCategoryByNodeType::ReciprocalEI),
            Ok((false, true)) => Ok(MotifCategoryByNodeType::ReciprocalEI),
        },
    }
}

} // verus!
