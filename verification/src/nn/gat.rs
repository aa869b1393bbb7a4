//! Graph attention with several heads.

use vstd::prelude::*;
use candle_core::Tensor;
use candle_nn::{Activation, Dropout};
use crate::nn::activation::activate;
use crate::nn::aggregate::{
    aggregate_refusal, attention_agg, attention_aggregated, can_aggregate, edge_softmax, edge_softmaxed, slice_shape,
};
use crate::nn::degree::in_degree_of;
use crate::nn::edge_index::{row_in_range, sources, targets, EdgeIndex};
use crate::nn::error::{from_backend, GnnError};
use crate::nn::gcn::check_convolve;
use crate::nn::named::{activate_of, gather_of, reshape_of, sum_last_of, sum_of};
use crate::nn::shape::expect_dims;
use crate::nn::stack::{chained, dropout_gave, ran_stack, run_stack, stack_eval, stack_promised, stepped};
use crate::nn::tensor::{
    activation_is_gated, broadcast_add, broadcast_mul, dims, dropout_forward, gather_rows, is_gated, matmul,
    matrix_product, multiplied, reshape, share, sum_last_keepdim, tensor_dims, tensor_is_float, tensor_rows,
    zero_row, zeros_as, zeros_like,
};
use crate::nn::traits::{can_convolve, conv_refusal, GnnModule};

verus! {

/// One graph attention layer. The features are transformed by `weight` and
/// cut into `num_heads` heads of width `out_dim / num_heads`. For each head,
/// every edge gets the score `leaky_relu(att_src . h_source + att_dst .
/// h_target)`; the scores of the edges that enter the same node are
/// normalised by [`edge_softmax`]; every node then receives the transformed
/// rows of the nodes with an edge to it, weighted by the normalised scores.
/// The heads are laid side by side again in the result. A layer can have a
/// nonlinearity of its own, which is then applied to the result.
pub struct GatConv {
    in_dim: usize,
    out_dim: usize,
    num_heads: usize,
    dropout: Dropout,
    leaky_relu: Activation,
    weight: Tensor,
    att_src: Tensor,
    att_dst: Tensor,
    activation_fn: Option<Activation>,
}

impl GatConv {
    #[verifier::type_invariant]
    closed spec fn shaped(self) -> bool {
        &&& self.num_heads > 0
        &&& self.out_dim % self.num_heads == 0
        &&& !activation_is_gated(self.leaky_relu)
        &&& self.activation_fn matches Some(a) ==> !activation_is_gated(a)
        &&& tensor_dims(self.weight) == seq![self.in_dim, self.out_dim]
        &&& tensor_dims(self.att_src) == seq![1usize, self.num_heads, (self.out_dim / self.num_heads) as usize]
        &&& tensor_dims(self.att_dst) == seq![1usize, self.num_heads, (self.out_dim / self.num_heads) as usize]
    }

    /// The width of the feature rows that the layer takes.
    pub closed spec fn spec_in_dim(&self) -> usize {
        self.in_dim
    }

    /// The width of the feature rows that the layer returns.
    pub closed spec fn spec_out_dim(&self) -> usize {
        self.out_dim
    }

    /// The number of attention heads.
    pub closed spec fn spec_num_heads(&self) -> usize {
        self.num_heads
    }

    /// The weight of the layer.
    pub closed spec fn spec_weight(&self) -> Tensor {
        self.weight
    }

    /// The attention vector applied to the row of an edge's source.
    pub closed spec fn spec_att_src(&self) -> Tensor {
        self.att_src
    }

    /// The attention vector applied to the row of an edge's target.
    pub closed spec fn spec_att_dst(&self) -> Tensor {
        self.att_dst
    }

    /// The nonlinearity of the scores.
    pub closed spec fn spec_leaky_relu(&self) -> Activation {
        self.leaky_relu
    }

    /// The dropout applied to the normalised scores while training.
    pub closed spec fn spec_dropout(&self) -> Dropout {
        self.dropout
    }

    /// The nonlinearity that the layer applies to its result, if it has one.
    pub closed spec fn spec_activation(&self) -> Option<Activation> {
        self.activation_fn
    }

    /// What the layer's own nonlinearity makes of the aggregated rows `t`:
    /// `t` itself where the layer has none.
    pub open spec fn finished(&self, t: Option<Tensor>) -> Option<Tensor> {
        match self.spec_activation() {
            Some(a) => activate_of(a, t),
            None => t,
        }
    }

    /// The features `xs` transformed by the weight and cut into heads, with
    /// extents `(N, num_heads, out_dim / num_heads)`.
    pub open spec fn heads(&self, xs: Tensor) -> Option<Tensor> {
        reshape_of(
            matrix_product(xs, self.spec_weight()),
            seq![
                tensor_dims(xs)[0],
                self.spec_num_heads(),
                (self.spec_out_dim() / self.spec_num_heads()) as usize,
            ],
        )
    }

    /// The score of every edge and head: the nonlinearity of `att_src .
    /// h_source + att_dst . h_target`.
    pub open spec fn scores_of(&self, h: Tensor, edges: Seq<(u32, u32)>) -> Option<Tensor> {
        let from_source = sum_last_of(multiplied(h, self.spec_att_src()));
        let from_target = sum_last_of(multiplied(h, self.spec_att_dst()));
        activate_of(
            self.spec_leaky_relu(),
            sum_of(gather_of(from_source, sources(edges)), gather_of(from_target, targets(edges))),
        )
    }

    /// The attention of every edge and head: the scores, normalised over the
    /// edges that enter the same node.
    pub open spec fn attention_of(&self, h: Tensor, edges: Seq<(u32, u32)>) -> Option<Tensor> {
        match self.scores_of(h, edges) {
            Some(s) => edge_softmaxed(s, edges, tensor_dims(h)[0]),
            None => None,
        }
    }

    /// What the layer returns for the heads `h` under the attention
    /// `attention`: zeros, to which every edge has added the heads of its
    /// source times its attention at its target, with the heads laid side by
    /// side again.
    pub open spec fn attended(&self, h: Tensor, edges: Seq<(u32, u32)>, attention: Tensor) -> Option<Tensor> {
        reshape_of(
            match zeros_as(h) {
                Some(z) => attention_aggregated(h, edges, attention, z),
                None => None,
            },
            seq![tensor_dims(h)[0], self.spec_out_dim()],
        )
    }

    /// The layer with the given parameters: `weight` with extents
    /// `(in_dim, out_dim)`, `att_src` and `att_dst` with extents
    /// `(1, num_heads, out_dim / num_heads)`. `leaky_relu` is the
    /// nonlinearity of the scores, `dropout` is applied to the normalised
    /// scores while training.
    ///
    /// The heads must divide `out_dim` evenly. A gated nonlinearity is
    /// refused: the scores have nothing to cut in two. Parameters of any
    /// other extents are refused, `weight` first, then `att_src`, then
    /// `att_dst`. The layer has no nonlinearity of its own; see
    /// `with_activation`.
    pub fn new(
        in_dim: usize,
        out_dim: usize,
        num_heads: usize,
        leaky_relu: Activation,
        dropout: Dropout,
        weight: Tensor,
        att_src: Tensor,
        att_dst: Tensor,
    ) -> (r: Result<GatConv, GnnError>)
        requires
            num_heads > 0,
            out_dim % num_heads == 0,
        ensures
            match r {
                Ok(conv) => {
                    &&& conv.spec_weight() == weight
                    &&& conv.spec_att_src() == att_src
                    &&& conv.spec_att_dst() == att_dst
                    &&& conv.spec_leaky_relu() == leaky_relu
                    &&& conv.spec_dropout() == dropout
                    &&& conv.spec_activation() is None
                    &&& !activation_is_gated(leaky_relu)
                    &&& tensor_dims(weight) == seq![in_dim, out_dim]
                    &&& tensor_dims(att_src) == seq![1usize, num_heads, (out_dim / num_heads) as usize]
                    &&& tensor_dims(att_dst) == seq![1usize, num_heads, (out_dim / num_heads) as usize]
                    &&& conv.spec_in_dim() == in_dim
                    &&& conv.spec_out_dim() == out_dim
                    &&& conv.spec_num_heads() == num_heads
                },
                Err(GnnError::GatedActivation) => activation_is_gated(leaky_relu),
                Err(GnnError::ShapeMismatch { expected_dims, found_dims }) => {
                    if activation_is_gated(leaky_relu) {
                        false
                    } else if tensor_dims(weight) != seq![in_dim, out_dim] {
                        expected_dims@ == seq![in_dim, out_dim] && found_dims@ == tensor_dims(weight)
                    } else if tensor_dims(att_src) != seq![1usize, num_heads, (out_dim / num_heads) as usize] {
                        &&& expected_dims@ == seq![1usize, num_heads, (out_dim / num_heads) as usize]
                        &&& found_dims@ == tensor_dims(att_src)
                    } else {
                        &&& tensor_dims(att_dst) != seq![1usize, num_heads, (out_dim / num_heads) as usize]
                        &&& expected_dims@ == seq![1usize, num_heads, (out_dim / num_heads) as usize]
                        &&& found_dims@ == tensor_dims(att_dst)
                    }
                },
                Err(_) => false,
            },
    {
        if is_gated(&leaky_relu) {
            return Err(GnnError::GatedActivation);
        }
        let head_dim = out_dim / num_heads;
        expect_dims(&weight, vec![in_dim, out_dim])?;
        expect_dims(&att_src, vec![1, num_heads, head_dim])?;
        expect_dims(&att_dst, vec![1, num_heads, head_dim])?;
        Ok(GatConv { in_dim, out_dim, num_heads, dropout, leaky_relu, weight, att_src, att_dst, activation_fn: None })
    }

    /// The same layer with `activation` as its own nonlinearity, applied to
    /// the rows that the layer returns.
    ///
    /// A gated nonlinearity is refused: it would halve the rows.
    pub fn with_activation(self, activation: Activation) -> (r: Result<GatConv, GnnError>)
        ensures
            match r {
                Ok(conv) => {
                    &&& !activation_is_gated(activation)
                    &&& conv.spec_activation() == Some(activation)
                    &&& conv.spec_weight() == self.spec_weight()
                    &&& conv.spec_att_src() == self.spec_att_src()
                    &&& conv.spec_att_dst() == self.spec_att_dst()
                    &&& conv.spec_leaky_relu() == self.spec_leaky_relu()
                    &&& conv.spec_dropout() == self.spec_dropout()
                    &&& conv.spec_in_dim() == self.spec_in_dim()
                    &&& conv.spec_out_dim() == self.spec_out_dim()
                    &&& conv.spec_num_heads() == self.spec_num_heads()
                },
                Err(GnnError::GatedActivation) => activation_is_gated(activation),
                Err(_) => false,
            },
    {
        proof {
            use_type_invariant(&self);
        }
        if is_gated(&activation) {
            return Err(GnnError::GatedActivation);
        }
        let GatConv { in_dim, out_dim, num_heads, dropout, leaky_relu, weight, att_src, att_dst, activation_fn: _ } =
            self;
        Ok(
            GatConv {
                in_dim,
                out_dim,
                num_heads,
                dropout,
                leaky_relu,
                weight,
                att_src,
                att_dst,
                activation_fn: Some(activation),
            },
        )
    }

    /// The width of the feature rows that the layer takes.
    pub fn in_dim(&self) -> (d: usize)
        ensures
            d == self.spec_in_dim(),
    {
        self.in_dim
    }

    /// The width of the feature rows that the layer returns.
    pub fn out_dim(&self) -> (d: usize)
        ensures
            d == self.spec_out_dim(),
    {
        self.out_dim
    }

    /// The number of attention heads, which divides `out_dim`.
    pub fn num_heads(&self) -> (h: usize)
        ensures
            h == self.spec_num_heads(),
            h > 0,
            self.spec_out_dim() % h == 0,
    {
        proof {
            use_type_invariant(self);
        }
        self.num_heads
    }

    /// The layer's parameters: the weight, then the attention vector of the
    /// source and that of the target.
    pub fn parameters(&self) -> (p: Vec<Tensor>)
        ensures
            p@ == seq![self.spec_weight(), self.spec_att_src(), self.spec_att_dst()],
            tensor_dims(p@[0]) == seq![self.spec_in_dim(), self.spec_out_dim()],
            tensor_dims(p@[1]) == seq![
                1usize,
                self.spec_num_heads(),
                (self.spec_out_dim() / self.spec_num_heads()) as usize,
            ],
            tensor_dims(p@[2]) == tensor_dims(p@[1]),
    {
        proof {
            use_type_invariant(self);
        }
        vec![share(&self.weight), share(&self.att_src), share(&self.att_dst)]
    }

    /// The last step of the layer: every node receives the heads `h` of the
    /// nodes with an edge to it, each times the edge's slice of `attention`,
    /// and the heads are laid side by side. `attention` is what dropout made
    /// of the normalised scores.
    ///
    /// The call succeeds exactly where `h` holds floating-point numbers, has
    /// one slice for every node that an edge names, and the tensor runtime
    /// accepts every step. The result is `attended`; a node that no edge
    /// enters has a row of zeros.
    pub fn attend(&self, h: &Tensor, edge_index: &EdgeIndex, attention: &Tensor) -> (r: Result<Tensor, GnnError>)
        ensures
            match r {
                Ok(out) => {
                    &&& can_aggregate(*h, edge_index@, *h)
                    &&& self.attended(*h, edge_index@, *attention) == Some(out)
                    &&& tensor_dims(out) == seq![tensor_dims(*h)[0], self.spec_out_dim()]
                    &&& tensor_is_float(out)
                    &&& tensor_rows(out).len() == tensor_dims(*h)[0]
                    &&& forall|n: int|
                        0 <= n < tensor_rows(out).len() && in_degree_of(edge_index@, n) == 0 ==> zero_row(
                            #[trigger] tensor_rows(out)[n],
                        )
                },
                Err(GnnError::Backend(_)) => self.attended(*h, edge_index@, *attention) is None,
                Err(e) => aggregate_refusal(*h, edge_index@, *h, e),
            },
            r is Ok <==> can_aggregate(*h, edge_index@, *h) && self.attended(*h, edge_index@, *attention) is Some,
    {
        let zeros = from_backend(zeros_like(h))?;
        let sum = attention_agg(h, edge_index, attention, &zeros)?;
        let rows = dims(h)[0];
        let out = from_backend(reshape(&sum, &vec![rows, self.out_dim]))?;
        proof {
            assert forall|n: int| 0 <= n < tensor_rows(out).len() && in_degree_of(edge_index@, n) == 0 implies zero_row(
                #[trigger] tensor_rows(out)[n],
            ) by {
                assert(tensor_rows(sum)[n] == tensor_rows(zeros)[n]);
            }
        }
        Ok(out)
    }

    /// The attention of every edge and head, with extents `(E, num_heads,
    /// 1)`: the scores of the edges from the heads `h`, normalised over the
    /// edges that enter the same node.
    fn attention(&self, h: &Tensor, edge_index: &EdgeIndex, num_nodes: usize) -> (r: Result<Tensor, GnnError>)
        requires
            tensor_is_float(*h),
            tensor_dims(*h) == seq![
                num_nodes,
                self.spec_num_heads(),
                (self.spec_out_dim() / self.spec_num_heads()) as usize,
            ],
            row_in_range(sources(edge_index@), num_nodes as int),
            row_in_range(targets(edge_index@), num_nodes as int),
        ensures
            match r {
                Ok(a) => {
                    &&& self.attention_of(*h, edge_index@) == Some(a)
                    &&& tensor_is_float(a)
                    &&& tensor_dims(a).len() == 3
                    &&& tensor_dims(a)[0] == edge_index@.len()
                    &&& tensor_dims(a)[1] == self.spec_num_heads()
                },
                Err(GnnError::Backend(_)) => self.attention_of(*h, edge_index@) is None,
                Err(_) => false,
            },
    {
        proof {
            use_type_invariant(self);
        }
        let from_source = from_backend(broadcast_mul(h, &self.att_src))?;
        let from_source = from_backend(sum_last_keepdim(&from_source))?;
        let from_target = from_backend(broadcast_mul(h, &self.att_dst))?;
        let from_target = from_backend(sum_last_keepdim(&from_target))?;
        let at_source = from_backend(gather_rows(&from_source, edge_index.source_row()))?;
        let at_target = from_backend(gather_rows(&from_target, edge_index.target_row()))?;
        let scores = from_backend(broadcast_add(&at_source, &at_target))?;
        assert(tensor_dims(at_source) =~= seq![edge_index@.len() as usize, self.num_heads, 1usize]);
        assert(tensor_dims(at_target) =~= seq![edge_index@.len() as usize, self.num_heads, 1usize]);
        let scores = activate(&self.leaky_relu, &scores)?;
        edge_softmax(&scores, edge_index, num_nodes)
    }
}

impl GnnModule for GatConv {
    /// What a pass of the layer promises of its result `r`. Where it
    /// succeeds, the result is `attended` under what dropout made of the
    /// attention, which outside training is the attention itself, passed
    /// through the layer's own nonlinearity where it has one. In a layer
    /// without one, a node that no edge enters has a row of zeros. It fails
    /// with an error of its own exactly where the layer cannot run on the
    /// features.
    open spec fn promised(&self, xs: Tensor, edges: Seq<(u32, u32)>, train: bool, r: Result<Tensor, GnnError>) -> bool {
        match r {
            Ok(t) => {
                &&& can_convolve(xs, edges, self.spec_in_dim())
                &&& self.heads(xs) is Some
                &&& self.attention_of(self.heads(xs)->Some_0, edges) is Some
                &&& exists|d: Tensor|
                    dropout_gave(self.attention_of(self.heads(xs)->Some_0, edges)->Some_0, d, train)
                        && self.finished(#[trigger] self.attended(self.heads(xs)->Some_0, edges, d)) == Some(t)
                &&& tensor_dims(t) == seq![tensor_dims(xs)[0], self.spec_out_dim()]
                &&& tensor_is_float(t)
                &&& self.spec_activation() is None ==> {
                    &&& tensor_rows(t).len() == tensor_dims(xs)[0]
                    &&& forall|n: int|
                        0 <= n < tensor_rows(t).len() && in_degree_of(edges, n) == 0 ==> zero_row(
                            #[trigger] tensor_rows(t)[n],
                        )
                }
            },
            Err(e) => conv_refusal(xs, edges, self.spec_in_dim(), e),
        }
    }

    /// What the layer returns outside training: `attended` under the
    /// attention as it is, passed through the layer's own nonlinearity where
    /// it has one; `None` where the layer cannot run on the features.
    open spec fn outside_training(&self, xs: Tensor, edges: Seq<(u32, u32)>) -> Option<Tensor> {
        if can_convolve(xs, edges, self.spec_in_dim()) {
            match self.heads(xs) {
                Some(h) => match self.attention_of(h, edges) {
                    Some(a) => self.finished(self.attended(h, edges, a)),
                    None => None,
                },
                None => None,
            }
        } else {
            None
        }
    }

    /// Runs the layer. While `train` is set, dropout is applied to the
    /// normalised attention. The layer's own nonlinearity, where it has one,
    /// is applied in either mode.
    ///
    /// The result has one row of width `out_dim` per node. The call is
    /// refused with an error, before any arithmetic, where `xs` holds no
    /// floating-point numbers or is no matrix, where its rows do not have
    /// width `in_dim`, or where an edge names a node without a row.
    fn forward_t(&self, xs: &Tensor, edge_index: &EdgeIndex, train: bool) -> (r: Result<Tensor, GnnError>)
        ensures
            self.promised(*xs, edge_index@, train, r),
    {
        proof {
            use_type_invariant(self);
        }
        let num_nodes = check_convolve(xs, edge_index, self.in_dim)?;
        let head_dim = self.out_dim / self.num_heads;
        let h = from_backend(matmul(xs, &self.weight))?;
        let h = from_backend(reshape(&h, &vec![num_nodes, self.num_heads, head_dim]))?;
        assert(self.heads(*xs) == Some(h));
        let attention = self.attention(&h, edge_index, num_nodes)?;
        let dropped = from_backend(dropout_forward(&self.dropout, &attention, train))?;
        assert(dropout_gave(attention, dropped, train));
        assert(slice_shape(tensor_dims(h)) =~= slice_shape(tensor_dims(h)));
        let out = self.attend(&h, edge_index, &dropped)?;
        assert(tensor_dims(out) =~= seq![num_nodes, self.out_dim]);
        match &self.activation_fn {
            Some(a) => activate(a, &out),
            None => Ok(out),
        }
    }
}

/// What surrounds the layers of a [`Gat`]: the dropout and the nonlinearity
/// applied between two layers.
pub struct GatParams {
    pub dropout: Dropout,
    pub activation_fn: Activation,
}

/// A stack of graph attention layers. Between two layers the features pass
/// through dropout and then through the nonlinearity; the last layer's output
/// is returned as it is.
pub struct Gat {
    layers: Vec<GatConv>,
    dropout: Dropout,
    activation_fn: Activation,
}

impl Gat {
    #[verifier::type_invariant]
    closed spec fn stacked(self) -> bool {
        self.layers@.len() >= 1
    }

    /// The layers, first to last.
    pub closed spec fn spec_layers(&self) -> Seq<GatConv> {
        self.layers@
    }

    /// The dropout between two layers.
    pub closed spec fn spec_dropout(&self) -> Dropout {
        self.dropout
    }

    /// The nonlinearity between two layers.
    pub closed spec fn spec_activation(&self) -> Activation {
        self.activation_fn
    }

    /// The stack of the given layers, first to last.
    ///
    /// An empty stack is refused.
    pub fn with_params(layers: Vec<GatConv>, params: GatParams) -> (r: Result<Gat, GnnError>)
        ensures
            match r {
                Ok(model) => {
                    &&& layers@.len() >= 1
                    &&& model.spec_layers() == layers@
                    &&& model.spec_dropout() == params.dropout
                    &&& model.spec_activation() == params.activation_fn
                },
                Err(GnnError::NoLayers) => layers@.len() == 0,
                Err(_) => false,
            },
    {
        if layers.len() == 0 {
            return Err(GnnError::NoLayers);
        }
        Ok(Gat { layers, dropout: params.dropout, activation_fn: params.activation_fn })
    }

    /// The stack of the given layers, first to last, with the dropout and
    /// the nonlinearity that are applied between two layers.
    ///
    /// An empty stack is refused.
    pub fn new(layers: Vec<GatConv>, dropout: Dropout, activation_fn: Activation) -> (r: Result<Gat, GnnError>)
        ensures
            match r {
                Ok(model) => {
                    &&& layers@.len() >= 1
                    &&& model.spec_layers() == layers@
                    &&& model.spec_dropout() == dropout
                    &&& model.spec_activation() == activation_fn
                },
                Err(GnnError::NoLayers) => layers@.len() == 0,
                Err(_) => false,
            },
    {
        Gat::with_params(layers, GatParams { dropout, activation_fn })
    }

    /// The number of layers, which is at least 1.
    pub fn num_layers(&self) -> (n: usize)
        ensures
            n == self.spec_layers().len(),
            n >= 1,
    {
        proof {
            use_type_invariant(self);
        }
        self.layers.len()
    }

    /// The parameters of all layers, first layer first: of each layer the
    /// weight, then the two attention vectors.
    pub fn parameters(&self) -> (p: Vec<Tensor>)
        ensures
            p@.len() == 3 * self.spec_layers().len(),
            forall|i: int|
                0 <= i < self.spec_layers().len() ==> {
                    &&& (#[trigger] p@[3 * i]) == self.spec_layers()[i].spec_weight()
                    &&& p@[3 * i + 1] == self.spec_layers()[i].spec_att_src()
                    &&& p@[3 * i + 2] == self.spec_layers()[i].spec_att_dst()
                },
    {
        let mut p: Vec<Tensor> = Vec::new();
        let mut i: usize = 0;
        while i < self.layers.len()
            invariant
                i <= self.layers@.len(),
                p@.len() == 3 * i,
                forall|k: int|
                    0 <= k < i ==> {
                        &&& (#[trigger] p@[3 * k]) == self.layers@[k].spec_weight()
                        &&& p@[3 * k + 1] == self.layers@[k].spec_att_src()
                        &&& p@[3 * k + 2] == self.layers@[k].spec_att_dst()
                    },
            decreases self.layers@.len() - i,
        {
            let mut own = self.layers[i].parameters();
            let ghost before = p@;
            let ghost mine = own@;
            p.append(&mut own);
            assert(p@ =~= before + mine);
            assert(p@[3 * i] == mine[0] && p@[3 * i + 1] == mine[1] && p@[3 * i + 2] == mine[2]);
            assert forall|k: int| 0 <= k < i implies (#[trigger] p@[3 * k]) == before[3 * k] && p@[3 * k + 1]
                == before[3 * k + 1] && p@[3 * k + 2] == before[3 * k + 2] by {}
            i += 1;
        }
        p
    }
}

impl GnnModule for Gat {
    /// What a pass of the stack promises of its result `r`: see
    /// `stack_promised`.
    open spec fn promised(&self, xs: Tensor, edges: Seq<(u32, u32)>, train: bool, r: Result<Tensor, GnnError>) -> bool {
        &&& self.spec_layers().len() >= 1
        &&& stack_promised(self.spec_layers(), self.spec_activation(), xs, edges, train, r)
        &&& r matches Ok(t) ==> tensor_dims(t) == seq![tensor_dims(xs)[0], self.spec_layers().last().spec_out_dim()]
    }

    /// What the stack returns outside training: the layers one after the
    /// other, with the nonlinearity between two layers and none after the
    /// last.
    open spec fn outside_training(&self, xs: Tensor, edges: Seq<(u32, u32)>) -> Option<Tensor> {
        stack_eval(self.spec_layers(), self.spec_activation(), xs, edges, self.spec_layers().len())
    }

    /// Runs the first layer, and then for each further layer dropout, the
    /// nonlinearity and the layer. Dropout is active only where `train` is
    /// set.
    ///
    /// The result has one row per node, of the width that the last layer
    /// returns, and is the last layer's output as it is.
    fn forward_t(&self, xs: &Tensor, edge_index: &EdgeIndex, train: bool) -> (r: Result<Tensor, GnnError>)
        ensures
            self.promised(*xs, edge_index@, train, r),
    {
        proof {
            use_type_invariant(self);
        }
        let r = run_stack(&self.layers, &self.dropout, &self.activation_fn, xs, edge_index, train);
        proof {
            if r is Ok {
                lemma_last_width(self.layers@, self.activation_fn, *xs, edge_index@, train, r->Ok_0);
            }
        }
        r
    }
}

/// The result of a stack of attention layers has the width that the last
/// layer returns.
proof fn lemma_last_width(
    layers: Seq<GatConv>,
    activation: Activation,
    xs: Tensor,
    edges: Seq<(u32, u32)>,
    train: bool,
    t: Tensor,
)
    requires
        layers.len() >= 1,
        ran_stack(layers, activation, xs, edges, train, t),
        tensor_dims(xs).len() == 2,
        tensor_dims(t).len() == 2,
        tensor_dims(t)[0] == tensor_dims(xs)[0],
    ensures
        tensor_dims(t) == seq![tensor_dims(xs)[0], layers.last().spec_out_dim()],
{
    let (outs, dropped) = choose|outs: Seq<Tensor>, dropped: Seq<Tensor>|
        #[trigger] chained(layers, activation, xs, edges, train, outs, dropped) && outs.len() == layers.len()
            && outs.last() == t;
    let last = layers.len() - 1;
    if last >= 1 {
        assert(stepped(layers, activation, edges, train, outs, dropped, last));
    }
    assert(tensor_dims(t) =~= seq![tensor_dims(xs)[0], layers.last().spec_out_dim()]);
}

} // verus!
