//! Identifiers shared with the code that loads graph data.

use vstd::prelude::*;
use crate::nn::typed::TypeKey;

verus! {

/// Kind of node in the bibliographic graph.
#[derive(Clone, Copy, Debug, PartialEq, Eq, Hash, Structural)]
pub enum NodeType {
    Author,
    Paper,
    Term,
    Conference,
}

/// Kind of relation in the bibliographic graph.
#[derive(Clone, Copy, Debug, PartialEq, Eq, Hash, Structural)]
pub enum EdgeType {
    To,
}

impl NodeType {
    /// The lower-case name of the node type.
    pub fn name(&self) -> (s: &'static str)
        ensures
            s@ == match self {
                NodeType::Author => "author"@,
                NodeType::Paper => "paper"@,
                NodeType::Term => "term"@,
                NodeType::Conference => "conference"@,
            },
    {
        match self {
            NodeType::Author => "author",
            NodeType::Paper => "paper",
            NodeType::Term => "term",
            NodeType::Conference => "conference",
        }
    }
}

impl EdgeType {
    /// The lower-case name of the edge type.
    pub fn name(&self) -> (s: &'static str)
        ensures
            s@ == "to"@,
    {
        "to"
    }
}

impl TypeKey for NodeType {
    open spec fn code(&self) -> int {
        match self {
            NodeType::Author => 0,
            NodeType::Paper => 1,
            NodeType::Term => 2,
            NodeType::Conference => 3,
        }
    }

    fn same(&self, other: &Self) -> (b: bool) {
        *self == *other
    }
}

impl TypeKey for EdgeType {
    open spec fn code(&self) -> int {
        0
    }

    fn same(&self, other: &Self) -> (b: bool) {
        *self == *other
    }
}

/// Archive format of a downloaded data set.
#[derive(Clone, Copy, Debug, PartialEq, Eq, Structural)]
pub enum CompressionFormat {
    Zip,
    Tgz,
}

} // verus!
