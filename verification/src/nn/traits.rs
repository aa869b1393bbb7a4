//! What every layer and every stack of layers offers.

use vstd::prelude::*;
use candle_core::Tensor;
use crate::nn::edge_index::{row_in_range, sources, targets, EdgeIndex};
use crate::nn::error::GnnError;
use crate::nn::tensor::{tensor_dims, tensor_is_float};
use crate::nn::typed::{rows_follow, TypeKey};

verus! {

/// A convolution built for feature rows of width `in_dim` can run on the node
/// features `xs` over the graph `edges`: the features are a matrix of
/// floating-point numbers with rows of that width, and every edge runs
/// between its rows.
pub open spec fn can_convolve(xs: Tensor, edges: Seq<(u32, u32)>, in_dim: usize) -> bool {
    &&& tensor_is_float(xs)
    &&& tensor_dims(xs).len() == 2
    &&& tensor_dims(xs)[1] == in_dim
    &&& row_in_range(sources(edges), tensor_dims(xs)[0] as int)
    &&& row_in_range(targets(edges), tensor_dims(xs)[0] as int)
}

/// Which failure a convolution reports, if any: the first of features that
/// are no floating-point numbers, features that are no matrix, rows of the
/// wrong width, an edge that names a node without a row; after these, only
/// the tensor runtime can refuse.
pub open spec fn conv_refusal(xs: Tensor, edges: Seq<(u32, u32)>, in_dim: usize, e: GnnError) -> bool {
    let xd = tensor_dims(xs);
    let float = tensor_is_float(xs);
    match e {
        GnnError::NotFloatingPoint => !float,
        GnnError::Rank { expected, found } => float && xd.len() != 2 && expected == 2 && found == xd.len(),
        GnnError::FeatureDim { expected, found } => float && xd.len() == 2 && xd[1] != in_dim && expected == in_dim
            && found == xd[1],
        GnnError::NodeIndexOutOfRange { num_nodes } => {
            &&& float
            &&& xd.len() == 2
            &&& xd[1] == in_dim
            &&& !(row_in_range(sources(edges), xd[0] as int) && row_in_range(targets(edges), xd[0] as int))
            &&& num_nodes == xd[0]
        },
        GnnError::Backend(_) => can_convolve(xs, edges, in_dim),
        _ => false,
    }
}

/// A forward pass over a whole graph: node features in, node features out.
///
/// The contracts read tensors as values: they speak of the contents that the
/// features and the module's parameters have at the time of the pass.
pub trait GnnModule {
    /// What a pass of the module over the features `xs` and the graph
    /// `edges` promises of its result `r`: on which input it succeeds or
    /// fails in which way, and what holds of the features it returns. Each
    /// module says this for itself.
    spec fn promised(&self, xs: Tensor, edges: Seq<(u32, u32)>, train: bool, r: Result<Tensor, GnnError>) -> bool;

    /// What a pass outside training returns for the features `xs` and the
    /// graph `edges`: the features it computes, or `None` where it fails.
    /// Each module says this for itself.
    spec fn outside_training(&self, xs: Tensor, edges: Seq<(u32, u32)>) -> Option<Tensor>;

    /// The pass with dropout switched on or off by `train`. The mode is an
    /// argument of each call and no state of the module.
    ///
    /// The result is what the module promises of a pass, and outside
    /// training exactly what `outside_training` gives. Where it succeeds,
    /// the input is a matrix of floating-point numbers and so is the result,
    /// with one row for each row of the input.
    fn forward_t(&self, xs: &Tensor, edge_index: &EdgeIndex, train: bool) -> (r: Result<Tensor, GnnError>)
        ensures
            self.promised(*xs, edge_index@, train, r),
            r matches Ok(t) ==> train || self.outside_training(*xs, edge_index@) == Some(t),
            r is Err ==> train || self.outside_training(*xs, edge_index@) is None,
            r matches Ok(t) ==> {
                &&& tensor_is_float(*xs)
                &&& tensor_is_float(t)
                &&& tensor_dims(*xs).len() == 2
                &&& tensor_dims(t).len() == 2
                &&& tensor_dims(t)[0] == tensor_dims(*xs)[0]
            },
    ;

    /// The pass outside training: what `forward_t` gives with `train`
    /// unset.
    fn forward(&self, xs: &Tensor, edge_index: &EdgeIndex) -> (r: Result<Tensor, GnnError>)
        ensures
            self.promised(*xs, edge_index@, false, r),
            r matches Ok(t) ==> self.outside_training(*xs, edge_index@) == Some(t),
            r is Err ==> self.outside_training(*xs, edge_index@) is None,
            r matches Ok(t) ==> {
                &&& tensor_is_float(*xs)
                &&& tensor_is_float(t)
                &&& tensor_dims(*xs).len() == 2
                &&& tensor_dims(t).len() == 2
                &&& tensor_dims(t)[0] == tensor_dims(*xs)[0]
            },
    {
        self.forward_t(xs, edge_index, false)
    }
}

/// A forward pass over a graph with several node types and relations:
/// features per node type in, features per node type out.
///
/// The contracts read tensors as values: they speak of the contents that the
/// features and the module's parameters have at the time of the pass.
pub trait HeteroGnnModule<N: TypeKey, E: TypeKey> {
    /// What a pass of the module over the features `xs` and the edge lists
    /// `edges` promises of its result `r`: on which input it succeeds or
    /// fails in which way, and what holds of the features it returns. Each
    /// module says this for itself.
    spec fn promised(
        &self,
        xs: Seq<(N, Tensor)>,
        edges: Seq<((N, E, N), EdgeIndex)>,
        train: bool,
        r: Result<Vec<(N, Tensor)>, GnnError>,
    ) -> bool;

    /// The pass with dropout switched on or off by `train`.
    ///
    /// The result is what the module promises of a pass. Where it succeeds,
    /// every matrix of the result has as many rows as the features of its
    /// node type in `xs`.
    fn forward_t(&self, xs: &Vec<(N, Tensor)>, edge_index: &Vec<((N, E, N), EdgeIndex)>, train: bool) -> (r: Result<
        Vec<(N, Tensor)>,
        GnnError,
    >)
        ensures
            self.promised(xs@, edge_index@, train, r),
            r matches Ok(out) ==> rows_follow(xs@, out@),
    ;

    /// The pass outside training: what `forward_t` gives with `train`
    /// unset.
    fn forward(&self, xs: &Vec<(N, Tensor)>, edge_index: &Vec<((N, E, N), EdgeIndex)>) -> (r: Result<
        Vec<(N, Tensor)>,
        GnnError,
    >)
        ensures
            self.promised(xs@, edge_index@, false, r),
            r matches Ok(out) ==> rows_follow(xs@, out@),
    {
        self.forward_t(xs, edge_index, false)
    }
}

} // verus!
