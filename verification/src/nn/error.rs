//! Failures of graph construction and of a forward pass.

use vstd::prelude::*;

verus! {

/// Why a graph could not be built or a forward pass could not run.
#[derive(Debug)]
pub enum GnnError {
    /// The source row and the target row of an edge list differ in length.
    RaggedEdgeIndex { sources: usize, targets: usize },
    /// The edge list holds more edges than a `u32` can count.
    TooManyEdges { edges: usize },
    /// An edge names a node that is not below the node count.
    NodeIndexOutOfRange { num_nodes: usize },
    /// The node count of the graph does not fit a `usize`.
    NodeCountOverflow,
    /// The elements of a tensor are no floating-point numbers.
    NotFloatingPoint,
    /// A tensor does not have the number of axes that the operation works on.
    Rank { expected: usize, found: usize },
    /// A feature axis does not have the width that the layer was built for.
    FeatureDim { expected: usize, found: usize },
    /// A tensor with one slice per edge does not have as many slices as the
    /// graph has edges.
    EdgeCount { expected: usize, found: usize },
    /// Two tensors that must agree in their extents do not.
    ShapeMismatch { expected_dims: Vec<usize>, found_dims: Vec<usize> },
    /// A collection holds the same node type or the same relation twice.
    DuplicateKey { index: usize },
    /// A relation targets a node type that the layer has no weight for.
    UnknownNodeType { index: usize },
    /// A node type that the layer works on has no features.
    MissingFeatures,
    /// A relation that the layer works on has no edge list.
    MissingEdges,
    /// A gated activation was given where scores with an innermost axis of
    /// extent 1 are activated.
    GatedActivation,
    /// An update network did not return a matrix with one row per node.
    OutputShape { rows: usize, found_dims: Vec<usize> },
    /// A model was given no layer to run.
    NoLayers,
    /// The tensor runtime rejected an operation.
    Backend(candle_core::Error),
}

/// Carries a failure of the tensor runtime over into this crate's error.
pub fn from_backend<T>(r: Result<T, candle_core::Error>) -> (out: Result<T, GnnError>)
    ensures
        match r {
            Ok(t) => out == Ok::<T, GnnError>(t),
            Err(e) => out == Err::<T, GnnError>(GnnError::Backend(e)),
        },
{
    match r {
        Ok(t) => Ok(t),
        Err(e) => Err(GnnError::Backend(e)),
    }
}

} // verus!
