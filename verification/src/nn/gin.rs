//! Graph isomorphism layers: sum aggregation followed by a small feed-forward
//! network.

use vstd::prelude::*;
use candle_core::Tensor;
use candle_nn::{Activation, BatchNorm, Dropout, Linear};
use crate::nn::activation::{activate, too_narrow};
use crate::nn::aggregate::{keeps_unreached, sum_agg, sum_aggregated};
use crate::nn::edge_index::{all_below, row_in_range, sources, targets, EdgeIndex};
use crate::nn::error::{from_backend, GnnError};
use crate::nn::named::linear_of;
use crate::nn::stack::{between_eval, chain_eval, chain_promised, dropout_gave, run_chain};
use crate::nn::tensor::{
    activation_is_gated, batch_norm_eval, batch_norm_is_float, dims, dropout_forward, is_float, linear_applied,
    linear_forward, norm_is_float, normalised, share, tensor_dims, tensor_is_float,
};
use crate::nn::traits::GnnModule;

verus! {

/// What a graph isomorphism layer asks of its update network: a map from
/// the aggregated rows to the rows that the layer returns.
///
/// The contracts read tensors as values: they speak of the contents that the
/// rows and the network's parameters have at the time of the pass.
pub trait UpdateModule {
    /// What a run of the network on `xs` promises of its result `r`: on
    /// which input it succeeds or fails in which way, and what holds of the
    /// rows it returns. Each network says this for itself.
    spec fn promised(&self, xs: Tensor, train: bool, r: Result<Tensor, GnnError>) -> bool;

    /// What a run outside training returns for `xs`: the rows it computes,
    /// or `None` where it fails. Each network says this for itself.
    spec fn outside_training(&self, xs: Tensor) -> Option<Tensor>;

    /// The run with dropout switched on or off by `train`.
    ///
    /// The result is what the network promises of a run, and outside
    /// training exactly what `outside_training` gives. Where it succeeds,
    /// the result holds floating-point numbers.
    fn forward_t(&self, xs: &Tensor, train: bool) -> (r: Result<Tensor, GnnError>)
        ensures
            self.promised(*xs, train, r),
            r matches Ok(y) ==> train || self.outside_training(*xs) == Some(y),
            r is Err ==> train || self.outside_training(*xs) is None,
            r matches Ok(y) ==> tensor_is_float(y),
    ;
}

/// The usual update network of a graph isomorphism layer: a linear map, the
/// nonlinearity, dropout, normalisation by running statistics, and a second
/// linear map.
pub struct Mlp {
    fc1: Linear,
    activation_fn: Activation,
    dropout: Dropout,
    normalization_fn: BatchNorm,
    fc2: Linear,
}

impl Mlp {
    #[verifier::type_invariant]
    closed spec fn normalises_floats(self) -> bool {
        batch_norm_is_float(self.normalization_fn)
    }

    /// The first linear map.
    pub closed spec fn spec_fc1(&self) -> Linear {
        self.fc1
    }

    /// The nonlinearity.
    pub closed spec fn spec_activation(&self) -> Activation {
        self.activation_fn
    }

    /// The dropout.
    pub closed spec fn spec_dropout(&self) -> Dropout {
        self.dropout
    }

    /// The normalisation.
    pub closed spec fn spec_norm(&self) -> BatchNorm {
        self.normalization_fn
    }

    /// The second linear map.
    pub closed spec fn spec_fc2(&self) -> Linear {
        self.fc2
    }

    /// What the first half of the network makes of `xs`: the first linear
    /// map and the nonlinearity. `None` where a step fails.
    pub open spec fn hidden(&self, xs: Tensor) -> Option<Tensor> {
        match linear_applied(self.spec_fc1(), xs) {
            Some(h) => between_eval(self.spec_activation(), h),
            None => None,
        }
    }

    /// What the second half of the network makes of `d`: the normalisation
    /// by the running statistics and the second linear map. `None` where a
    /// step fails.
    pub open spec fn finished(&self, d: Tensor) -> Option<Tensor> {
        linear_of(self.spec_fc2(), normalised(self.spec_norm(), d))
    }

    /// What the network returns for `xs` outside training, where dropout
    /// hands its input on: the second half applied to the first. `None`
    /// where `xs` holds no floating-point numbers or a step fails.
    pub open spec fn updated(&self, xs: Tensor) -> Option<Tensor> {
        if tensor_is_float(xs) {
            match self.hidden(xs) {
                Some(a) => self.finished(a),
                None => None,
            }
        } else {
            None
        }
    }

    /// What a run of the network on `xs` promises of its result `r`. Where
    /// it succeeds, the result is the second half applied to what dropout
    /// made of the first half. Input that holds no floating-point numbers is
    /// refused; a gated nonlinearity refuses rows that the first linear map
    /// has made shorter than 2. Any other failure is one of the tensor
    /// runtime: outside training, of a step of `updated`.
    pub open spec fn ran(&self, xs: Tensor, train: bool, r: Result<Tensor, GnnError>) -> bool {
        match r {
            Ok(y) => {
                &&& tensor_is_float(xs)
                &&& tensor_is_float(y)
                &&& tensor_dims(xs).len() >= 2
                &&& self.hidden(xs) is Some
                &&& exists|d: Tensor|
                    dropout_gave(self.hidden(xs)->Some_0, d, train) && #[trigger] self.finished(d) == Some(y)
            },
            Err(GnnError::NotFloatingPoint) => !tensor_is_float(xs),
            Err(GnnError::FeatureDim { expected, found }) => {
                &&& tensor_is_float(xs)
                &&& linear_applied(self.spec_fc1(), xs) matches Some(h) && activation_is_gated(
                    self.spec_activation(),
                ) && too_narrow(tensor_dims(h)) && found == if tensor_dims(h).len() == 0 {
                    0usize
                } else {
                    tensor_dims(h).last()
                }
                &&& expected == 2
            },
            Err(GnnError::Backend(_)) => tensor_is_float(xs) && (train || self.updated(xs) is None),
            Err(_) => false,
        }
    }

    /// The network made of the given parts, in the order in which they are
    /// applied.
    ///
    /// A normalisation whose running statistics are no floating-point
    /// numbers is refused.
    pub fn new(fc1: Linear, activation_fn: Activation, dropout: Dropout, normalization_fn: BatchNorm, fc2: Linear) -> (r:
        Result<Mlp, GnnError>)
        ensures
            match r {
                Ok(nn) => {
                    &&& batch_norm_is_float(normalization_fn)
                    &&& nn.spec_fc1() == fc1
                    &&& nn.spec_activation() == activation_fn
                    &&& nn.spec_dropout() == dropout
                    &&& nn.spec_norm() == normalization_fn
                    &&& nn.spec_fc2() == fc2
                },
                Err(GnnError::NotFloatingPoint) => !batch_norm_is_float(normalization_fn),
                Err(_) => false,
            },
    {
        if !norm_is_float(&normalization_fn) {
            return Err(GnnError::NotFloatingPoint);
        }
        Ok(Mlp { fc1, activation_fn, dropout, normalization_fn, fc2 })
    }

    /// Applies the network to every row of `xs`. Dropout is active only where
    /// `train` is set; the normalisation uses its running statistics in
    /// either mode and leaves them as they are.
    ///
    /// Outside training the result is exactly `updated`.
    pub fn forward_t(&self, xs: &Tensor, train: bool) -> (r: Result<Tensor, GnnError>)
        ensures
            self.ran(*xs, train, r),
            r matches Ok(y) ==> train || self.updated(*xs) == Some(y),
            r is Err ==> train || self.updated(*xs) is None,
    {
        proof {
            use_type_invariant(self);
        }
        if !is_float(xs) {
            return Err(GnnError::NotFloatingPoint);
        }
        let h = from_backend(linear_forward(&self.fc1, xs))?;
        let a = activate(&self.activation_fn, &h)?;
        assert(self.hidden(*xs) == Some(a));
        let d = from_backend(dropout_forward(&self.dropout, &a, train))?;
        assert(dropout_gave(a, d, train));
        self.finish(&d)
    }

    /// The second half of the network, applied to what dropout made of the
    /// first half: the normalisation by the running statistics and the
    /// second linear map.
    ///
    /// The call succeeds exactly where `d` holds floating-point numbers and
    /// the tensor runtime accepts both steps; the result is `finished`.
    pub fn finish(&self, d: &Tensor) -> (r: Result<Tensor, GnnError>)
        ensures
            match r {
                Ok(y) => tensor_is_float(*d) && tensor_is_float(y) && self.finished(*d) == Some(y),
                Err(GnnError::NotFloatingPoint) => !tensor_is_float(*d),
                Err(GnnError::Backend(_)) => tensor_is_float(*d) && self.finished(*d) is None,
                Err(_) => false,
            },
    {
        proof {
            use_type_invariant(self);
        }
        if !is_float(d) {
            return Err(GnnError::NotFloatingPoint);
        }
        let n = from_backend(batch_norm_eval(&self.normalization_fn, d))?;
        from_backend(linear_forward(&self.fc2, &n))
    }
}

impl UpdateModule for Mlp {
    /// What a run of the network promises: see `ran`.
    open spec fn promised(&self, xs: Tensor, train: bool, r: Result<Tensor, GnnError>) -> bool {
        self.ran(xs, train, r)
    }

    /// What the network returns outside training: see `updated`.
    open spec fn outside_training(&self, xs: Tensor) -> Option<Tensor> {
        self.updated(xs)
    }

    /// Applies the network to every row of `xs`.
    fn forward_t(&self, xs: &Tensor, train: bool) -> (r: Result<Tensor, GnnError>) {
        Mlp::forward_t(self, xs, train)
    }
}

/// The node features `xs` can pass through a graph isomorphism layer over the
/// graph `edges`: they are a matrix of floating-point numbers and every edge
/// runs between its rows.
pub open spec fn can_update(xs: Tensor, edges: Seq<(u32, u32)>) -> bool {
    &&& tensor_is_float(xs)
    &&& tensor_dims(xs).len() == 2
    &&& row_in_range(sources(edges), tensor_dims(xs)[0] as int)
    &&& row_in_range(targets(edges), tensor_dims(xs)[0] as int)
}

/// Which failure the checks of a graph isomorphism layer report, if any: the
/// first of features that are no floating-point numbers, features that are
/// no matrix and an edge that names a node without a row.
pub open spec fn update_refusal(xs: Tensor, edges: Seq<(u32, u32)>, e: GnnError) -> bool {
    let xd = tensor_dims(xs);
    match e {
        GnnError::NotFloatingPoint => !tensor_is_float(xs),
        GnnError::Rank { expected, found } => tensor_is_float(xs) && xd.len() != 2 && expected == 2 && found
            == xd.len(),
        GnnError::NodeIndexOutOfRange { num_nodes } => {
            &&& tensor_is_float(xs)
            &&& xd.len() == 2
            &&& !(row_in_range(sources(edges), xd[0] as int) && row_in_range(targets(edges), xd[0] as int))
            &&& num_nodes == xd[0]
        },
        GnnError::Backend(_) => can_update(xs, edges),
        _ => false,
    }
}

/// A tensor has one row for each of `rows` nodes.
pub open spec fn one_row_per_node(d: Seq<usize>, rows: usize) -> bool {
    d.len() == 2 && d[0] == rows
}

/// The failure `e` reports that a tensor with the extents `found` has not
/// one row for each of `rows` nodes.
pub open spec fn misshapen(e: GnnError, rows: usize, found: Seq<usize>) -> bool {
    &&& !one_row_per_node(found, rows)
    &&& e matches GnnError::OutputShape { rows: r, found_dims } && r == rows && found_dims@ == found
}

/// One graph isomorphism layer: every node adds to its own row the rows of
/// the nodes with an edge to it, and the sums pass through the update
/// network, which is an [`Mlp`] or any other [`UpdateModule`].
pub struct GinConv<M: UpdateModule> {
    nn: M,
}

impl<M: UpdateModule> GinConv<M> {
    /// The update network of the layer.
    pub closed spec fn spec_nn(&self) -> M {
        self.nn
    }

    /// The layer with the update network `nn`.
    pub fn new(nn: M) -> (r: GinConv<M>)
        ensures
            r.spec_nn() == nn,
    {
        GinConv { nn }
    }

    /// The sum aggregation of the layer, before the update network: each
    /// row of `xs` plus the rows of the nodes with an edge to it.
    ///
    /// The call succeeds exactly where the features can pass and the tensor
    /// runtime accepts every step. The result is the sum aggregation of `xs`
    /// into itself; it has the extents of `xs`, and a node that no edge
    /// enters keeps its own row.
    pub fn aggregate(xs: &Tensor, edge_index: &EdgeIndex) -> (r: Result<Tensor, GnnError>)
        ensures
            match r {
                Ok(sum) => {
                    &&& can_update(*xs, edge_index@)
                    &&& sum_aggregated(*xs, edge_index@, *xs) == Some(sum)
                    &&& keeps_unreached(edge_index@, *xs, sum)
                },
                Err(e) => update_refusal(*xs, edge_index@, e),
            },
            r is Ok <==> can_update(*xs, edge_index@) && sum_aggregated(*xs, edge_index@, *xs) is Some,
    {
        if !is_float(xs) {
            return Err(GnnError::NotFloatingPoint);
        }
        let xd = dims(xs);
        if xd.len() != 2 {
            return Err(GnnError::Rank { expected: 2, found: xd.len() });
        }
        sum_agg(xs, edge_index, xs)
    }
}

impl<M: UpdateModule> GnnModule for GinConv<M> {
    /// What a pass of the layer promises of its result `r`. Where it
    /// succeeds, the update network has run once, on the sum aggregation of
    /// the features into themselves, and `r` is what it returned. The checks
    /// report their failures as `update_refusal` says; a result of the
    /// update network that has not one row per node is reported as
    /// `OutputShape`; any other failure is that of the sum aggregation or of
    /// the update network.
    open spec fn promised(&self, xs: Tensor, edges: Seq<(u32, u32)>, train: bool, r: Result<Tensor, GnnError>) -> bool {
        match r {
            Ok(t) => {
                &&& can_update(xs, edges)
                &&& sum_aggregated(xs, edges, xs) is Some
                &&& self.spec_nn().promised(sum_aggregated(xs, edges, xs)->Some_0, train, Ok(t))
                &&& one_row_per_node(tensor_dims(t), tensor_dims(xs)[0])
            },
            Err(e) => {
                if can_update(xs, edges) {
                    ||| e is Backend && sum_aggregated(xs, edges, xs) is None
                    ||| sum_aggregated(xs, edges, xs) is Some && self.spec_nn().promised(
                        sum_aggregated(xs, edges, xs)->Some_0,
                        train,
                        Err(e),
                    )
                    ||| sum_aggregated(xs, edges, xs) is Some && exists|y: Tensor|
                        #[trigger] self.spec_nn().promised(sum_aggregated(xs, edges, xs)->Some_0, train, Ok(y))
                            && misshapen(e, tensor_dims(xs)[0], tensor_dims(y))
                } else {
                    update_refusal(xs, edges, e)
                }
            },
        }
    }

    /// What the layer returns outside training: the update network's result
    /// for the sum aggregation of the features into themselves, where it has
    /// one row per node.
    open spec fn outside_training(&self, xs: Tensor, edges: Seq<(u32, u32)>) -> Option<Tensor> {
        if can_update(xs, edges) {
            match sum_aggregated(xs, edges, xs) {
                Some(sum) => match self.spec_nn().outside_training(sum) {
                    Some(y) => if one_row_per_node(tensor_dims(y), tensor_dims(xs)[0]) {
                        Some(y)
                    } else {
                        None
                    },
                    None => None,
                },
                None => None,
            }
        } else {
            None
        }
    }

    /// Runs the layer. Dropout inside the update network is active only
    /// where `train` is set.
    ///
    /// The result has one row per node. The call is refused, before any
    /// arithmetic, where `xs` holds no floating-point numbers or is no
    /// matrix, or where an edge names a node without a row.
    fn forward_t(&self, xs: &Tensor, edge_index: &EdgeIndex, train: bool) -> (r: Result<Tensor, GnnError>)
        ensures
            self.promised(*xs, edge_index@, train, r),
    {
        let sum = Self::aggregate(xs, edge_index)?;
        let rows = dims(xs)[0];
        let out = self.nn.forward_t(&sum, train)?;
        let od = dims(&out);
        if !(od.len() == 2 && od[0] == rows) {
            return Err(GnnError::OutputShape { rows, found_dims: od });
        }
        Ok(out)
    }
}

/// A stack of graph isomorphism layers, each applied to the output of the one
/// before it.
pub struct Gin<M: UpdateModule> {
    layers: Vec<GinConv<M>>,
}

impl<M: UpdateModule> Gin<M> {
    /// The layers, first to last.
    pub closed spec fn spec_layers(&self) -> Seq<GinConv<M>> {
        self.layers@
    }

    /// The stack of the given layers, first to last. A stack without layers
    /// is accepted: it hands the features back.
    pub fn new(layers: Vec<GinConv<M>>) -> (model: Gin<M>)
        ensures
            model.spec_layers() == layers@,
    {
        Gin { layers }
    }

    /// The number of layers.
    pub fn num_layers(&self) -> (n: usize)
        ensures
            n == self.spec_layers().len(),
    {
        self.layers.len()
    }
}

/// The features `xs` are a matrix of floating-point numbers.
pub open spec fn float_matrix(xs: Tensor) -> bool {
    tensor_is_float(xs) && tensor_dims(xs).len() == 2
}

impl<M: UpdateModule> GnnModule for Gin<M> {
    /// What a pass of the stack promises of its result `r`. A stack without
    /// layers hands back features that are a matrix of floating-point
    /// numbers and refuses any others. Otherwise see `chain_promised`.
    open spec fn promised(&self, xs: Tensor, edges: Seq<(u32, u32)>, train: bool, r: Result<Tensor, GnnError>) -> bool {
        if self.spec_layers().len() == 0 {
            match r {
                Ok(t) => float_matrix(xs) && t == xs,
                Err(GnnError::NotFloatingPoint) => !tensor_is_float(xs),
                Err(GnnError::Rank { expected, found }) => tensor_is_float(xs) && tensor_dims(xs).len() != 2
                    && expected == 2 && found == tensor_dims(xs).len(),
                Err(_) => false,
            }
        } else {
            chain_promised(self.spec_layers(), xs, edges, train, r)
        }
    }

    /// What the stack returns outside training: the layers one after the
    /// other, or the features themselves where there is no layer.
    open spec fn outside_training(&self, xs: Tensor, edges: Seq<(u32, u32)>) -> Option<Tensor> {
        if self.spec_layers().len() == 0 {
            if float_matrix(xs) {
                Some(xs)
            } else {
                None
            }
        } else {
            chain_eval(self.spec_layers(), xs, edges, self.spec_layers().len())
        }
    }

    /// Runs the layers one after the other.
    ///
    /// The result has one row per node.
    fn forward_t(&self, xs: &Tensor, edge_index: &EdgeIndex, train: bool) -> (r: Result<Tensor, GnnError>)
        ensures
            self.promised(*xs, edge_index@, train, r),
    {
        if self.layers.len() == 0 {
            if !is_float(xs) {
                return Err(GnnError::NotFloatingPoint);
            }
            let xd = dims(xs);
            if xd.len() != 2 {
                return Err(GnnError::Rank { expected: 2, found: xd.len() });
            }
            return Ok(share(xs));
        }
        run_chain(&self.layers, xs, edge_index, train)
    }
}

} // verus!
