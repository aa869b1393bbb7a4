//! Graph convolution with symmetric degree normalisation.

use vstd::prelude::*;
use candle_core::Tensor;
use candle_nn::{Activation, Dropout};
use crate::nn::aggregate::{keeps_unleft, target_divisors, weighted_aggregated, weighted_sum_agg};
use crate::nn::degree::{edge_norm_factors, floored, out_degree_of};
use crate::nn::edge_index::{all_below, row_in_range, sources, targets, EdgeIndex};
use crate::nn::error::{from_backend, GnnError};
use crate::nn::named::{cast_of, product_of, recip_of, sqrt_of, sum_of};
use crate::nn::shape::expect_dims;
use crate::nn::stack::{run_stack, stack_eval, stack_promised};
use crate::nn::tensor::{
    broadcast_add, broadcast_mul, cast_like, column, column_of, dims, is_float, matmul, matrix_product, recip, share,
    sqrt, tensor_dims, tensor_is_float,
};
use crate::nn::traits::{can_convolve, conv_refusal, GnnModule};

verus! {

/// For each edge, the floored out-degree of the node it leaves.
pub open spec fn leaving_factors(edges: Seq<(u32, u32)>) -> Seq<u32> {
    Seq::new(edges.len(), |e: int| floored(out_degree_of(edges, edges[e].0 as int)) as u32)
}

/// The numbers `values` as a column in the element type of `like`.
pub open spec fn float_column(values: Seq<u32>, like: Tensor) -> Option<Tensor> {
    cast_of(column_of(values, like), like)
}

/// What symmetric normalisation gives every edge as its weight: one over the
/// square root of the product of the floored out-degree of the edge's source
/// and the floored in-degree of its target, as a column in the element type
/// of `like`. `None` where the tensor runtime refuses a step.
pub open spec fn symmetric_normed(edges: Seq<(u32, u32)>, like: Tensor) -> Option<Tensor> {
    recip_of(
        sqrt_of(
            product_of(float_column(leaving_factors(edges), like), float_column(target_divisors(edges), like)),
        ),
    )
}

/// Builds `float_column(values, like)`.
fn float_column_of(values: &Vec<u32>, like: &Tensor) -> (r: Result<Tensor, GnnError>)
    ensures
        match r {
            Ok(c) => {
                &&& float_column(values@, *like) == Some(c)
                &&& tensor_dims(c) == seq![values@.len() as usize, 1usize]
                &&& tensor_is_float(c) == tensor_is_float(*like)
            },
            Err(GnnError::Backend(_)) => float_column(values@, *like) is None,
            Err(_) => false,
        },
{
    let integers = from_backend(column(values, like))?;
    from_backend(cast_like(&integers, like))
}

/// The weight of every edge under symmetric normalisation, as a column in the
/// element type of `like`: entry `e` is one over the square root of the
/// floored out-degree of the edge's source times the floored in-degree of its
/// target, in a graph with `num_nodes` nodes.
///
/// Both degrees are at least 1, so no weight divides by zero. The call
/// succeeds exactly where `like` holds floating-point numbers, every edge
/// runs between nodes below `num_nodes`, and the tensor runtime accepts
/// every step.
pub fn symmetric_norm(edge_index: &EdgeIndex, num_nodes: usize, like: &Tensor) -> (r: Result<Tensor, GnnError>)
    ensures
        match r {
            Ok(w) => {
                &&& tensor_is_float(*like)
                &&& row_in_range(sources(edge_index@), num_nodes as int)
                &&& row_in_range(targets(edge_index@), num_nodes as int)
                &&& symmetric_normed(edge_index@, *like) == Some(w)
                &&& tensor_dims(w) == seq![edge_index@.len() as usize, 1usize]
                &&& tensor_is_float(w)
            },
            Err(GnnError::NotFloatingPoint) => !tensor_is_float(*like),
            Err(GnnError::NodeIndexOutOfRange { num_nodes: n }) => {
                &&& tensor_is_float(*like)
                &&& !(row_in_range(sources(edge_index@), num_nodes as int) && row_in_range(
                    targets(edge_index@),
                    num_nodes as int,
                ))
                &&& n == num_nodes
            },
            Err(GnnError::Backend(_)) => {
                &&& tensor_is_float(*like)
                &&& row_in_range(sources(edge_index@), num_nodes as int)
                &&& row_in_range(targets(edge_index@), num_nodes as int)
                &&& symmetric_normed(edge_index@, *like) is None
            },
            Err(_) => false,
        },
{
    if !is_float(like) {
        return Err(GnnError::NotFloatingPoint);
    }
    let (leaving, entering) = edge_norm_factors(edge_index, num_nodes)?;
    proof {
        assert forall|e: int| 0 <= e < edge_index@.len() implies leaving@[e] == leaving_factors(edge_index@)[e]
            && entering@[e] == target_divisors(edge_index@)[e] by {
            assert(leaving@[e] as nat == floored(out_degree_of(edge_index@, edge_index@[e].0 as int)));
        }
        assert(leaving@ =~= leaving_factors(edge_index@));
        assert(entering@ =~= target_divisors(edge_index@));
    }
    let leaving = float_column_of(&leaving, like);
    let entering = float_column_of(&entering, like);
    let leaving = leaving?;
    let entering = entering?;
    let product = from_backend(broadcast_mul(&leaving, &entering))?;
    let root = from_backend(sqrt(&product))?;
    from_backend(recip(&root))
}

/// Weighted sum aggregation of `transformed` into itself: every row plus the
/// weighted rows at the targets of the edges that leave its node.
pub open spec fn back_aggregated(transformed: Option<Tensor>, edges: Seq<(u32, u32)>, weight: Option<Tensor>) -> Option<
    Tensor,
> {
    match (transformed, weight) {
        (Some(x), Some(w)) => weighted_aggregated(x, edges, w, x),
        _ => None,
    }
}

/// One graph convolution: `X' = X W`, then every node adds to its own row of
/// `X'` the rows of the nodes that its edges lead to, each weighted by
/// [`symmetric_norm`], and the bias is added to every row.
pub struct GcnConv {
    in_dim: usize,
    out_dim: usize,
    weight: Tensor,
    bias: Tensor,
}

impl GcnConv {
    #[verifier::type_invariant]
    closed spec fn shaped(self) -> bool {
        &&& tensor_dims(self.weight) == seq![self.in_dim, self.out_dim]
        &&& tensor_dims(self.bias) == seq![1usize, self.out_dim]
    }

    /// The width of the feature rows that the layer takes.
    pub closed spec fn spec_in_dim(&self) -> usize {
        self.in_dim
    }

    /// The width of the feature rows that the layer returns.
    pub closed spec fn spec_out_dim(&self) -> usize {
        self.out_dim
    }

    /// The weight of the layer.
    pub closed spec fn spec_weight(&self) -> Tensor {
        self.weight
    }

    /// The bias of the layer.
    pub closed spec fn spec_bias(&self) -> Tensor {
        self.bias
    }

    /// What the convolution makes of the features `xs` over the graph
    /// `edges`: with `X' = xs W`, every node's row of `X'`, plus, for each
    /// edge that leaves the node, the row of `X'` at the edge's target times
    /// the edge's weight under symmetric normalisation, plus the bias. `None`
    /// where the tensor runtime refuses a step.
    pub open spec fn convolved(&self, xs: Tensor, edges: Seq<(u32, u32)>) -> Option<Tensor> {
        sum_of(self.aggregated(xs, edges), Some(self.spec_bias()))
    }

    /// The convolution before the bias is added: `X' = xs W`, aggregated
    /// into itself under symmetric normalisation.
    pub open spec fn aggregated(&self, xs: Tensor, edges: Seq<(u32, u32)>) -> Option<Tensor> {
        back_aggregated(matrix_product(xs, self.spec_weight()), edges, symmetric_normed(edges, xs))
    }

    /// The layer with the given parameters: `weight` with extents
    /// `(in_dim, out_dim)` and `bias` with extents `(1, out_dim)`.
    ///
    /// Parameters of any other extents are refused.
    pub fn new(in_dim: usize, out_dim: usize, weight: Tensor, bias: Tensor) -> (r: Result<GcnConv, GnnError>)
        ensures
            match r {
                Ok(conv) => {
                    &&& tensor_dims(weight) == seq![in_dim, out_dim]
                    &&& tensor_dims(bias) == seq![1usize, out_dim]
                    &&& conv.spec_in_dim() == in_dim
                    &&& conv.spec_out_dim() == out_dim
                    &&& conv.spec_weight() == weight
                    &&& conv.spec_bias() == bias
                },
                Err(GnnError::ShapeMismatch { expected_dims, found_dims }) => {
                    if tensor_dims(weight) != seq![in_dim, out_dim] {
                        expected_dims@ == seq![in_dim, out_dim] && found_dims@ == tensor_dims(weight)
                    } else {
                        &&& tensor_dims(bias) != seq![1usize, out_dim]
                        &&& expected_dims@ == seq![1usize, out_dim]
                        &&& found_dims@ == tensor_dims(bias)
                    }
                },
                Err(_) => false,
            },
    {
        expect_dims(&weight, vec![in_dim, out_dim])?;
        expect_dims(&bias, vec![1, out_dim])?;
        Ok(GcnConv { in_dim, out_dim, weight, bias })
    }

    /// The width of the feature rows that the layer takes.
    pub fn in_dim(&self) -> (d: usize)
        ensures
            d == self.spec_in_dim(),
    {
        self.in_dim
    }

    /// The width of the feature rows that the layer returns.
    pub fn out_dim(&self) -> (d: usize)
        ensures
            d == self.spec_out_dim(),
    {
        self.out_dim
    }

    /// The layer's parameters: the weight, then the bias.
    pub fn parameters(&self) -> (p: Vec<Tensor>)
        ensures
            p@ == seq![self.spec_weight(), self.spec_bias()],
            tensor_dims(p@[0]) == seq![self.spec_in_dim(), self.spec_out_dim()],
            tensor_dims(p@[1]) == seq![1usize, self.spec_out_dim()],
    {
        proof {
            use_type_invariant(self);
        }
        vec![share(&self.weight), share(&self.bias)]
    }
}

/// Runs the checks that precede a convolution built for rows of width
/// `in_dim`, and hands back the number of nodes.
pub(crate) fn check_convolve(xs: &Tensor, edge_index: &EdgeIndex, in_dim: usize) -> (r: Result<usize, GnnError>)
    ensures
        match r {
            Ok(n) => can_convolve(*xs, edge_index@, in_dim) && n == tensor_dims(*xs)[0],
            Err(GnnError::Backend(_)) => false,
            Err(e) => conv_refusal(*xs, edge_index@, in_dim, e),
        },
{
    if !is_float(xs) {
        return Err(GnnError::NotFloatingPoint);
    }
    let xd = dims(xs);
    if xd.len() != 2 {
        return Err(GnnError::Rank { expected: 2, found: xd.len() });
    }
    if xd[1] != in_dim {
        return Err(GnnError::FeatureDim { expected: in_dim, found: xd[1] });
    }
    if !(all_below(edge_index.source_row(), xd[0]) && all_below(edge_index.target_row(), xd[0])) {
        return Err(GnnError::NodeIndexOutOfRange { num_nodes: xd[0] });
    }
    Ok(xd[0])
}

impl GnnModule for GcnConv {
    /// What a pass of the layer promises of its result `r`: it succeeds
    /// exactly where the layer can run on the features and the tensor
    /// runtime accepts every step, and the result is `convolved`. A node
    /// that no edge leaves has, before the bias is added, its own row of
    /// `X'` and nothing else.
    open spec fn promised(&self, xs: Tensor, edges: Seq<(u32, u32)>, train: bool, r: Result<Tensor, GnnError>) -> bool {
        match r {
            Ok(t) => {
                &&& can_convolve(xs, edges, self.spec_in_dim())
                &&& self.convolved(xs, edges) == Some(t)
                &&& keeps_unleft(
                    edges,
                    matrix_product(xs, self.spec_weight())->Some_0,
                    self.aggregated(xs, edges)->Some_0,
                )
                &&& tensor_dims(t) == seq![tensor_dims(xs)[0], self.spec_out_dim()]
                &&& tensor_is_float(t)
            },
            Err(GnnError::Backend(_)) => can_convolve(xs, edges, self.spec_in_dim()) && self.convolved(xs, edges)
                is None,
            Err(e) => conv_refusal(xs, edges, self.spec_in_dim(), e),
        }
    }

    /// What the layer returns: `convolved`, where the layer can run on the
    /// features.
    open spec fn outside_training(&self, xs: Tensor, edges: Seq<(u32, u32)>) -> Option<Tensor> {
        if can_convolve(xs, edges, self.spec_in_dim()) {
            self.convolved(xs, edges)
        } else {
            None
        }
    }

    /// Runs the convolution. `train` has no effect: the layer has no dropout
    /// of its own.
    ///
    /// The result has one row of width `out_dim` per node. The call is
    /// refused, before any arithmetic, where `xs` holds no floating-point
    /// numbers or is no matrix, where its rows do not have width `in_dim`,
    /// or where an edge names a node without a row.
    fn forward_t(&self, xs: &Tensor, edge_index: &EdgeIndex, train: bool) -> (r: Result<Tensor, GnnError>)
        ensures
            self.promised(*xs, edge_index@, train, r),
    {
        proof {
            use_type_invariant(self);
        }
        let num_nodes = check_convolve(xs, edge_index, self.in_dim)?;
        let weight = symmetric_norm(edge_index, num_nodes, xs);
        let transformed = from_backend(matmul(xs, &self.weight));
        let weight = weight?;
        let transformed = transformed?;
        assert(tensor_dims(transformed) =~= seq![num_nodes, self.out_dim]);
        let sum = weighted_sum_agg(&transformed, edge_index, &weight, &transformed)?;
        let out = from_backend(broadcast_add(&sum, &self.bias))?;
        assert(tensor_dims(out) =~= seq![num_nodes, self.out_dim]);
        Ok(out)
    }
}

/// What surrounds the convolutions of a [`Gcn`]: the dropout and the
/// nonlinearity applied between two layers.
pub struct GcnParams {
    pub dropout: Dropout,
    pub activation_fn: Activation,
}

/// A stack of graph convolutions. Between two layers the features pass
/// through dropout and then through the nonlinearity; the last layer's output
/// is returned as it is.
pub struct Gcn {
    layers: Vec<GcnConv>,
    dropout: Dropout,
    activation_fn: Activation,
}

impl Gcn {
    #[verifier::type_invariant]
    closed spec fn stacked(self) -> bool {
        self.layers@.len() >= 1
    }

    /// The layers, first to last.
    pub closed spec fn spec_layers(&self) -> Seq<GcnConv> {
        self.layers@
    }

    /// The dropout between two layers.
    pub closed spec fn spec_dropout(&self) -> Dropout {
        self.dropout
    }

    /// The nonlinearity between two layers.
    pub closed spec fn spec_activation(&self) -> Activation {
        self.activation_fn
    }

    /// The stack of the given layers, first to last.
    ///
    /// An empty stack is refused.
    pub fn with_params(layers: Vec<GcnConv>, params: GcnParams) -> (r: Result<Gcn, GnnError>)
        ensures
            match r {
                Ok(model) => {
                    &&& layers@.len() >= 1
                    &&& model.spec_layers() == layers@
                    &&& model.spec_dropout() == params.dropout
                    &&& model.spec_activation() == params.activation_fn
                },
                Err(GnnError::NoLayers) => layers@.len() == 0,
                Err(_) => false,
            },
    {
        if layers.len() == 0 {
            return Err(GnnError::NoLayers);
        }
        Ok(Gcn { layers, dropout: params.dropout, activation_fn: params.activation_fn })
    }

    /// The stack of the given layers, first to last, with the dropout and
    /// the nonlinearity that are applied between two layers.
    ///
    /// An empty stack is refused.
    pub fn new(layers: Vec<GcnConv>, dropout: Dropout, activation_fn: Activation) -> (r: Result<Gcn, GnnError>)
        ensures
            match r {
                Ok(model) => {
                    &&& layers@.len() >= 1
                    &&& model.spec_layers() == layers@
                    &&& model.spec_dropout() == dropout
                    &&& model.spec_activation() == activation_fn
                },
                Err(GnnError::NoLayers) => layers@.len() == 0,
                Err(_) => false,
            },
    {
        Gcn::with_params(layers, GcnParams { dropout, activation_fn })
    }

    /// The number of layers, which is at least 1.
    pub fn num_layers(&self) -> (n: usize)
        ensures
            n == self.spec_layers().len(),
            n >= 1,
    {
        proof {
            use_type_invariant(self);
        }
        self.layers.len()
    }

    /// The parameters of all layers, first layer first: of each layer the
    /// weight, then the bias.
    pub fn parameters(&self) -> (p: Vec<Tensor>)
        ensures
            p@.len() == 2 * self.spec_layers().len(),
            forall|i: int|
                0 <= i < self.spec_layers().len() ==> {
                    &&& (#[trigger] p@[2 * i]) == self.spec_layers()[i].spec_weight()
                    &&& p@[2 * i + 1] == self.spec_layers()[i].spec_bias()
                    &&& tensor_dims(p@[2 * i]) == seq![
                        self.spec_layers()[i].spec_in_dim(),
                        self.spec_layers()[i].spec_out_dim(),
                    ]
                    &&& tensor_dims(p@[2 * i + 1]) == seq![1usize, self.spec_layers()[i].spec_out_dim()]
                },
    {
        let mut p: Vec<Tensor> = Vec::new();
        let mut i: usize = 0;
        while i < self.layers.len()
            invariant
                i <= self.layers@.len(),
                p@.len() == 2 * i,
                forall|k: int|
                    0 <= k < i ==> {
                        &&& (#[trigger] p@[2 * k]) == self.layers@[k].spec_weight()
                        &&& p@[2 * k + 1] == self.layers@[k].spec_bias()
                        &&& tensor_dims(p@[2 * k]) == seq![
                            self.layers@[k].spec_in_dim(),
                            self.layers@[k].spec_out_dim(),
                        ]
                        &&& tensor_dims(p@[2 * k + 1]) == seq![1usize, self.layers@[k].spec_out_dim()]
                    },
            decreases self.layers@.len() - i,
        {
            let mut own = self.layers[i].parameters();
            let ghost before = p@;
            let ghost mine = own@;
            p.append(&mut own);
            assert(p@ =~= before + mine);
            assert(p@[2 * i] == mine[0] && p@[2 * i + 1] == mine[1]);
            assert(mine[0] == self.layers@[i as int].spec_weight() && mine[1] == self.layers@[i as int].spec_bias());
            assert(tensor_dims(mine[0]) == seq![
                self.layers@[i as int].spec_in_dim(),
                self.layers@[i as int].spec_out_dim(),
            ]);
            assert(tensor_dims(mine[1]) == seq![1usize, self.layers@[i as int].spec_out_dim()]);
            assert forall|k: int| 0 <= k < i implies (#[trigger] p@[2 * k]) == before[2 * k] && p@[2 * k + 1]
                == before[2 * k + 1] by {}
            i += 1;
        }
        p
    }
}

impl GnnModule for Gcn {
    /// What a pass of the stack promises of its result `r`: see
    /// `stack_promised`.
    open spec fn promised(&self, xs: Tensor, edges: Seq<(u32, u32)>, train: bool, r: Result<Tensor, GnnError>) -> bool {
        &&& self.spec_layers().len() >= 1
        &&& stack_promised(self.spec_layers(), self.spec_activation(), xs, edges, train, r)
        &&& r matches Ok(t) ==> tensor_dims(t) == seq![tensor_dims(xs)[0], self.spec_layers().last().spec_out_dim()]
    }

    /// What the stack returns outside training: the layers one after the
    /// other, with the nonlinearity between two layers and none after the
    /// last.
    open spec fn outside_training(&self, xs: Tensor, edges: Seq<(u32, u32)>) -> Option<Tensor> {
        stack_eval(self.spec_layers(), self.spec_activation(), xs, edges, self.spec_layers().len())
    }

    /// Runs the first layer, and then for each further layer dropout, the
    /// nonlinearity and the layer. Dropout is active only where `train` is
    /// set.
    ///
    /// The result has one row per node, of the width that the last layer
    /// returns, and is the last layer's output as it is.
    fn forward_t(&self, xs: &Tensor, edge_index: &EdgeIndex, train: bool) -> (r: Result<Tensor, GnnError>)
        ensures
            self.promised(*xs, edge_index@, train, r),
    {
        proof {
            use_type_invariant(self);
        }
        let r = run_stack(&self.layers, &self.dropout, &self.activation_fn, xs, edge_index, train);
        proof {
            if r is Ok {
                lemma_last_width(self.layers@, self.activation_fn, *xs, edge_index@, train, r->Ok_0);
            }
        }
        r
    }
}

/// The result of a stack of convolutions has the width that the last layer
/// returns.
proof fn lemma_last_width(
    layers: Seq<GcnConv>,
    activation: Activation,
    xs: Tensor,
    edges: Seq<(u32, u32)>,
    train: bool,
    t: Tensor,
)
    requires
        layers.len() >= 1,
        crate::nn::stack::ran_stack(layers, activation, xs, edges, train, t),
        tensor_dims(xs).len() == 2,
        tensor_dims(t).len() == 2,
        tensor_dims(t)[0] == tensor_dims(xs)[0],
    ensures
        tensor_dims(t) == seq![tensor_dims(xs)[0], layers.last().spec_out_dim()],
{
    let (outs, dropped) = choose|outs: Seq<Tensor>, dropped: Seq<Tensor>|
        #[trigger] crate::nn::stack::chained(layers, activation, xs, edges, train, outs, dropped) && outs.len()
            == layers.len() && outs.last() == t;
    let last = layers.len() - 1;
    if last >= 1 {
        assert(crate::nn::stack::stepped(layers, activation, edges, train, outs, dropped, last));
    }
    assert(tensor_dims(t) =~= seq![tensor_dims(xs)[0], layers.last().spec_out_dim()]);
}

} // verus!
