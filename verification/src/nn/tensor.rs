//! The tensor runtime, as far as the layers use it.
//!
//! Everything in this file is believed, not proved: each function hands its
//! arguments to one operation of `candle_core` or `candle_nn` and states what
//! that operation's source shows of the result.
//!
//! Every operation but dropout in training computes its result from its
//! arguments alone. Such a result has a name: a function without a body that
//! gives the tensor the operation returns, or `None` where the operation
//! refuses its arguments. What a name's numbers are is left to the runtime
//! and to the device that holds the tensors: a name says that the operation,
//! repeated on equal arguments, returns equal results, not how the last digit
//! of a sum is rounded. Beside the name stand the extents, the element kind
//! and, where an operation copies slices, which slices it copies.
//!
//! A tensor is read as a value: every claim holds as long as no variable that
//! backs a tensor is overwritten in place. No function of this crate does
//! that; an optimiser does it between two passes, and what was proved of a
//! pass is then a statement about the contents at the time of that pass.

use vstd::prelude::*;
use candle_core::Tensor;
use candle_nn::{Activation, BatchNorm, Dropout, Linear};
use crate::nn::edge_index::mentions;

verus! {

/// `candle_core::Tensor`: a handle to an array of numbers. Nothing inside
/// it is visible to the proofs; see `tensor_dims`, `tensor_rows` and
/// `tensor_is_float`.
#[verifier::external_type_specification]
#[verifier::external_body]
pub struct ExTensor(candle_core::Tensor);

/// `candle_core::Error`: why the tensor runtime refused an operation. It is
/// carried through as it is.
#[verifier::external_type_specification]
#[verifier::external_body]
pub struct ExBackendError(candle_core::Error);

/// `candle_nn::Activation`: the choice of a nonlinearity, with its slope
/// where it has one.
#[verifier::external_type_specification]
#[verifier::external_body]
pub struct ExActivation(candle_nn::Activation);

/// `candle_nn::Dropout`: a dropout with its rate.
#[verifier::external_type_specification]
#[verifier::external_body]
pub struct ExDropout(candle_nn::Dropout);

/// `candle_nn::Linear`: a linear map with its weight and, where it has one,
/// its bias.
#[verifier::external_type_specification]
#[verifier::external_body]
pub struct ExLinear(candle_nn::Linear);

/// `candle_nn::BatchNorm`: a normalisation with its running statistics and
/// its scale and shift.
#[verifier::external_type_specification]
#[verifier::external_body]
pub struct ExBatchNorm(candle_nn::BatchNorm);

/// The extents of a tensor, outermost axis first.
pub uninterp spec fn tensor_dims(t: Tensor) -> Seq<usize>;

/// The contents of a tensor, cut along its outermost axis: entry `i` lists the
/// elements of slice `i` in row-major order, each by its bit pattern. Empty for
/// a tensor without axes.
pub uninterp spec fn tensor_rows(t: Tensor) -> Seq<Seq<u64>>;

/// Whether the elements of a tensor are floating-point numbers. Arithmetic on
/// integer elements can abort the program (an integer square root is not
/// defined by the runtime, an integer division by zero traps), so every
/// arithmetic operation below is kept to floating-point tensors.
pub uninterp spec fn tensor_is_float(t: Tensor) -> bool;

/// Whether an activation is gated: it cuts the innermost axis in two halves
/// and multiplies one, activated, with the other.
pub uninterp spec fn activation_is_gated(activation: Activation) -> bool;

/// Whether the running statistics of a normalisation are floating-point
/// numbers.
pub uninterp spec fn batch_norm_is_float(norm: BatchNorm) -> bool;

/// What `Tensor::index_select` along the outermost axis returns: the slices
/// of `t` that `rows` names, in the order of `rows`.
pub uninterp spec fn gathered(t: Tensor, rows: Seq<u32>) -> Option<Tensor>;

/// What `Tensor::index_add` along the outermost axis returns: `acc` with
/// slice `k` of `rows` added to slice `slots[k]`, for each `k` in turn.
pub uninterp spec fn scatter_added(acc: Tensor, slots: Seq<u32>, rows: Tensor) -> Option<Tensor>;

/// What `Tensor::matmul` returns: the matrix product of `a` and `b`.
pub uninterp spec fn matrix_product(a: Tensor, b: Tensor) -> Option<Tensor>;

/// What `Tensor::broadcast_add` returns: the elementwise sum of `a` and `b`,
/// with extents of 1 stretched.
pub uninterp spec fn summed(a: Tensor, b: Tensor) -> Option<Tensor>;

/// What `Tensor::broadcast_mul` returns: the elementwise product of `a` and
/// `b`, with extents of 1 stretched.
pub uninterp spec fn multiplied(a: Tensor, b: Tensor) -> Option<Tensor>;

/// What `Tensor::broadcast_div` returns: the elementwise quotient of `a` and
/// `b`, with extents of 1 stretched.
pub uninterp spec fn quotient(a: Tensor, b: Tensor) -> Option<Tensor>;

/// What `Tensor::sqrt` returns: the square root of every element.
pub uninterp spec fn square_root(t: Tensor) -> Option<Tensor>;

/// What `Tensor::recip` returns: one over every element.
pub uninterp spec fn reciprocal(t: Tensor) -> Option<Tensor>;

/// What `Tensor::exp` returns: the exponential of every element.
pub uninterp spec fn exponential(t: Tensor) -> Option<Tensor>;

/// What `Tensor::zeros_like` returns: zeros with the extents, the element
/// type and the device of `t`.
pub uninterp spec fn zeros_as(t: Tensor) -> Option<Tensor>;

/// What `Tensor::zeros` returns: zeros with the extents `shape`, in the
/// element type of `like` and on its device.
pub uninterp spec fn zeros_of(shape: Seq<usize>, like: Tensor) -> Option<Tensor>;

/// What `Tensor::reshape` returns: the elements of `t` under the extents
/// `shape`.
pub uninterp spec fn reshaped(t: Tensor, shape: Seq<usize>) -> Option<Tensor>;

/// What `Tensor::sum_keepdim` over the innermost axis returns: the sums of
/// the elements along that axis.
pub uninterp spec fn summed_last(t: Tensor) -> Option<Tensor>;

/// What `Tensor::from_vec` returns for one column: the numbers `values` as a
/// column of integers on the device of `like`.
pub uninterp spec fn column_of(values: Seq<u32>, like: Tensor) -> Option<Tensor>;

/// What `Tensor::to_dtype` returns: the elements of `t` converted to the
/// element type of `like`.
pub uninterp spec fn cast_as(t: Tensor, like: Tensor) -> Option<Tensor>;

/// What `Activation::forward` returns: the nonlinearity applied to every
/// element of `t`, or, for the gated one, to the halves of its rows.
pub uninterp spec fn activated(activation: Activation, t: Tensor) -> Option<Tensor>;

/// What `Linear::forward` returns: `t` times the transposed weight, plus the
/// bias where the map has one.
pub uninterp spec fn linear_applied(linear: Linear, t: Tensor) -> Option<Tensor>;

/// What `BatchNorm::forward_t` returns outside training: `t` normalised by
/// the running statistics, scaled and shifted.
pub uninterp spec fn normalised(norm: BatchNorm, t: Tensor) -> Option<Tensor>;

/// Every element of a slice is zero.
pub open spec fn zero_row(row: Seq<u64>) -> bool {
    forall|k: int| 0 <= k < row.len() ==> #[trigger] row[k] == 0
}

/// Every slice of a tensor holds zeros only.
pub open spec fn all_zero(t: Tensor) -> bool {
    forall|n: int| 0 <= n < tensor_rows(t).len() ==> zero_row(#[trigger] tensor_rows(t)[n])
}

/// The extent that two extents broadcast to: an extent of 1 stretches to the
/// other one.
pub open spec fn broadcast_extent(l: usize, r: usize) -> usize {
    if l == 1 { r } else { l }
}

/// Two extents can be broadcast against each other.
pub open spec fn broadcastable(l: usize, r: usize) -> bool {
    l == r || l == 1 || r == 1
}

/// What holds of an elementwise operation with broadcasting on two tensors
/// with the same number of axes: each pair of extents is equal or has a 1, and
/// the result has the stretched extents.
pub open spec fn broadcast_result(l: Seq<usize>, r: Seq<usize>, out: Seq<usize>) -> bool {
    l.len() == r.len() ==> {
        &&& out.len() == l.len()
        &&& forall|i: int|
            0 <= i < l.len() ==> broadcastable(l[i], r[i]) && #[trigger] out[i] == broadcast_extent(l[i], r[i])
    }
}

/// Two lists of extents have the same length and agree in all entries but the
/// last.
pub open spec fn same_leading(a: Seq<usize>, b: Seq<usize>) -> bool {
    &&& a.len() == b.len()
    &&& forall|i: int| 0 <= i < a.len() - 1 ==> a[i] == b[i]
}

/// `Tensor::dims`: the extents of `t`. The outermost extent is the number of
/// slices that `tensor_rows` cuts `t` into.
#[verifier::external_body]
pub(crate) fn dims(t: &Tensor) -> (r: Vec<usize>)
    ensures
        r@ == tensor_dims(*t),
        r@.len() > 0 ==> tensor_rows(*t).len() == r@[0],
{
    t.dims().to_vec()
}

/// `DType::is_float` of `Tensor::dtype`: whether the elements of `t` are
/// floating-point numbers.
#[verifier::external_body]
pub(crate) fn is_float(t: &Tensor) -> (r: bool)
    ensures
        r == tensor_is_float(*t),
{
    t.dtype().is_float()
}

/// `DType::is_float` of the running variance of `norm`.
#[verifier::external_body]
pub(crate) fn norm_is_float(norm: &BatchNorm) -> (r: bool)
    ensures
        r == batch_norm_is_float(*norm),
{
    norm.running_var().dtype().is_float()
}

/// `Tensor::index_select` along the outermost axis: one slice of `t` for
/// every entry of `rows`, in the element type of `t`. The slices are copied,
/// so the result depends on `t` and `rows` alone.
#[verifier::external_body]
pub(crate) fn gather_rows(t: &Tensor, rows: &Vec<u32>) -> (r: Result<Tensor, candle_core::Error>)
    ensures
        r matches Ok(g) ==> {
            &&& gathered(*t, rows@) == Some(g)
            &&& tensor_dims(*t).len() >= 1
            &&& tensor_dims(g) == tensor_dims(*t).update(0, rows@.len() as usize)
            &&& tensor_is_float(g) == tensor_is_float(*t)
        },
        r is Err ==> gathered(*t, rows@) is None,
{
    let ids = Tensor::new(rows.as_slice(), t.device())?;
    t.index_select(&ids, 0)
}

/// `Tensor::index_add` along the outermost axis: a tensor shaped like `acc` in
/// which every slice that `slots` does not name is the slice of `acc`, copied.
/// The slices that `slots` names have had the matching slices of `rows` added,
/// one after the other in the order of `slots`, so the result depends on the
/// three arguments alone.
#[verifier::external_body]
pub(crate) fn scatter_add_rows(acc: &Tensor, slots: &Vec<u32>, rows: &Tensor) -> (r: Result<
    Tensor,
    candle_core::Error,
>)
    requires
        tensor_is_float(*acc),
    ensures
        r matches Ok(t) ==> {
            &&& scatter_added(*acc, slots@, *rows) == Some(t)
            &&& tensor_dims(t) == tensor_dims(*acc)
            &&& tensor_is_float(t)
            &&& tensor_rows(t).len() == tensor_rows(*acc).len()
            &&& forall|n: int|
                0 <= n < tensor_rows(*acc).len() && !mentions(slots@, n) ==> #[trigger] tensor_rows(t)[n]
                    == tensor_rows(*acc)[n]
        },
        r is Err ==> scatter_added(*acc, slots@, *rows) is None,
{
    let ids = Tensor::new(slots.as_slice(), acc.device())?;
    acc.index_add(&ids, rows, 0)
}

/// `Tensor::matmul`: succeeds only on two tensors with the same number of
/// axes, at least two, whose inner extents agree; the result has the extents
/// of `a` but for the last, which is the last of `b`.
#[verifier::external_body]
pub(crate) fn matmul(a: &Tensor, b: &Tensor) -> (r: Result<Tensor, candle_core::Error>)
    requires
        tensor_is_float(*a),
    ensures
        r matches Ok(t) ==> {
            &&& matrix_product(*a, *b) == Some(t)
            &&& tensor_is_float(t)
            &&& tensor_dims(*a).len() >= 2
            &&& tensor_dims(*b).len() == tensor_dims(*a).len()
            &&& tensor_dims(*a).last() == tensor_dims(*b)[tensor_dims(*b).len() - 2]
            &&& tensor_dims(t) == tensor_dims(*a).drop_last().push(tensor_dims(*b).last())
        },
        r is Err ==> matrix_product(*a, *b) is None,
{
    a.matmul(b)
}

/// `Tensor::broadcast_add`: the elementwise sum, with extents of 1 stretched.
#[verifier::external_body]
pub(crate) fn broadcast_add(a: &Tensor, b: &Tensor) -> (r: Result<Tensor, candle_core::Error>)
    requires
        tensor_is_float(*a),
    ensures
        r matches Ok(t) ==> summed(*a, *b) == Some(t) && tensor_is_float(t) && broadcast_result(
            tensor_dims(*a),
            tensor_dims(*b),
            tensor_dims(t),
        ),
        r is Err ==> summed(*a, *b) is None,
{
    a.broadcast_add(b)
}

/// `Tensor::broadcast_mul`: the elementwise product, with extents of 1
/// stretched.
#[verifier::external_body]
pub(crate) fn broadcast_mul(a: &Tensor, b: &Tensor) -> (r: Result<Tensor, candle_core::Error>)
    requires
        tensor_is_float(*a),
    ensures
        r matches Ok(t) ==> multiplied(*a, *b) == Some(t) && tensor_is_float(t) && broadcast_result(
            tensor_dims(*a),
            tensor_dims(*b),
            tensor_dims(t),
        ),
        r is Err ==> multiplied(*a, *b) is None,
{
    a.broadcast_mul(b)
}

/// `Tensor::broadcast_div`: the elementwise quotient, with extents of 1
/// stretched.
#[verifier::external_body]
pub(crate) fn broadcast_div(a: &Tensor, b: &Tensor) -> (r: Result<Tensor, candle_core::Error>)
    requires
        tensor_is_float(*a),
    ensures
        r matches Ok(t) ==> quotient(*a, *b) == Some(t) && tensor_is_float(t) && broadcast_result(
            tensor_dims(*a),
            tensor_dims(*b),
            tensor_dims(t),
        ),
        r is Err ==> quotient(*a, *b) is None,
{
    a.broadcast_div(b)
}

/// `Tensor::sqrt`: the elementwise square root, shaped like `t`.
#[verifier::external_body]
pub(crate) fn sqrt(t: &Tensor) -> (r: Result<Tensor, candle_core::Error>)
    requires
        tensor_is_float(*t),
    ensures
        r matches Ok(s) ==> square_root(*t) == Some(s) && tensor_is_float(s) && tensor_dims(s) == tensor_dims(*t),
        r is Err ==> square_root(*t) is None,
{
    t.sqrt()
}

/// `Tensor::recip`: the elementwise reciprocal, shaped like `t`.
#[verifier::external_body]
pub(crate) fn recip(t: &Tensor) -> (r: Result<Tensor, candle_core::Error>)
    requires
        tensor_is_float(*t),
    ensures
        r matches Ok(s) ==> reciprocal(*t) == Some(s) && tensor_is_float(s) && tensor_dims(s) == tensor_dims(*t),
        r is Err ==> reciprocal(*t) is None,
{
    t.recip()
}

/// `Tensor::exp`: the elementwise exponential, shaped like `t`.
#[verifier::external_body]
pub(crate) fn exp(t: &Tensor) -> (r: Result<Tensor, candle_core::Error>)
    requires
        tensor_is_float(*t),
    ensures
        r matches Ok(s) ==> exponential(*t) == Some(s) && tensor_is_float(s) && tensor_dims(s) == tensor_dims(*t),
        r is Err ==> exponential(*t) is None,
{
    t.exp()
}

/// `Tensor::clone`: another handle to the same tensor.
#[verifier::external_body]
pub(crate) fn share(t: &Tensor) -> (r: Tensor)
    ensures
        r == *t,
{
    t.clone()
}

/// `Tensor::zeros_like`: a tensor shaped like `t` in which every element is
/// zero.
#[verifier::external_body]
pub(crate) fn zeros_like(t: &Tensor) -> (r: Result<Tensor, candle_core::Error>)
    ensures
        r matches Ok(z) ==> {
            &&& zeros_as(*t) == Some(z)
            &&& tensor_dims(z) == tensor_dims(*t)
            &&& tensor_is_float(z) == tensor_is_float(*t)
            &&& tensor_dims(z).len() >= 1 ==> tensor_rows(z).len() == tensor_dims(z)[0]
            &&& all_zero(z)
        },
        r is Err ==> zeros_as(*t) is None,
{
    t.zeros_like()
}

/// `Tensor::zeros`: a tensor with the extents `shape`, in the element type
/// of `like` and on its device, in which every element is zero.
#[verifier::external_body]
pub(crate) fn zeros_shaped(shape: &Vec<usize>, like: &Tensor) -> (r: Result<Tensor, candle_core::Error>)
    ensures
        r matches Ok(z) ==> {
            &&& zeros_of(shape@, *like) == Some(z)
            &&& tensor_dims(z) == shape@
            &&& tensor_is_float(z) == tensor_is_float(*like)
            &&& tensor_dims(z).len() >= 1 ==> tensor_rows(z).len() == tensor_dims(z)[0]
            &&& all_zero(z)
        },
        r is Err ==> zeros_of(shape@, *like) is None,
{
    Tensor::zeros(shape.as_slice(), like.dtype(), like.device())
}

/// `Tensor::reshape`: the elements of `t`, in their order, under the extents
/// `shape`. Where the outermost extent stays, every slice keeps its
/// elements.
#[verifier::external_body]
pub(crate) fn reshape(t: &Tensor, shape: &Vec<usize>) -> (r: Result<Tensor, candle_core::Error>)
    ensures
        r matches Ok(s) ==> {
            &&& reshaped(*t, shape@) == Some(s)
            &&& tensor_dims(s) == shape@
            &&& tensor_is_float(s) == tensor_is_float(*t)
            &&& tensor_dims(*t).len() >= 1 && shape@.len() >= 1 && shape@[0] == tensor_dims(*t)[0] ==> tensor_rows(s)
                == tensor_rows(*t)
        },
        r is Err ==> reshaped(*t, shape@) is None,
{
    t.reshape(shape.as_slice())
}

/// `Tensor::sum_keepdim` over the innermost axis: shaped like `t` but for the
/// last extent, which is 1.
#[verifier::external_body]
pub(crate) fn sum_last_keepdim(t: &Tensor) -> (r: Result<Tensor, candle_core::Error>)
    requires
        tensor_is_float(*t),
    ensures
        r matches Ok(s) ==> {
            &&& summed_last(*t) == Some(s)
            &&& tensor_is_float(s)
            &&& tensor_dims(*t).len() >= 1
            &&& tensor_dims(s) == tensor_dims(*t).update(tensor_dims(*t).len() - 1, 1usize)
        },
        r is Err ==> summed_last(*t) is None,
{
    t.sum_keepdim(candle_core::D::Minus1)
}

/// `Tensor::from_vec`: the numbers of `values` as one column of integers, on
/// the device of `like`.
#[verifier::external_body]
pub(crate) fn column(values: &Vec<u32>, like: &Tensor) -> (r: Result<Tensor, candle_core::Error>)
    ensures
        r matches Ok(c) ==> column_of(values@, *like) == Some(c) && tensor_dims(c) == seq![
            values@.len() as usize,
            1usize,
        ],
        r is Err ==> column_of(values@, *like) is None,
{
    Tensor::from_vec(values.clone(), (values.len(), 1), like.device())
}

/// `Tensor::to_dtype`: the elements of `t`, each converted to the element
/// type of `like`; shaped like `t`.
#[verifier::external_body]
pub(crate) fn cast_like(t: &Tensor, like: &Tensor) -> (r: Result<Tensor, candle_core::Error>)
    ensures
        r matches Ok(c) ==> cast_as(*t, *like) == Some(c) && tensor_dims(c) == tensor_dims(*t) && tensor_is_float(c)
            == tensor_is_float(*like),
        r is Err ==> cast_as(*t, *like) is None,
{
    t.to_dtype(like.dtype())
}

/// Tells the gated variant of `Activation` from the others.
#[verifier::external_body]
pub(crate) fn is_gated(activation: &Activation) -> (r: bool)
    ensures
        r == activation_is_gated(*activation),
{
    matches!(activation, Activation::Swiglu)
}

/// `Activation::forward`: the nonlinearity applied to `t`. An activation that
/// is not gated keeps the extents. The gated one keeps the number of axes and
/// all extents but the last; it reads two halves of the innermost axis, so
/// that axis must have an extent of 2 at least.
#[verifier::external_body]
pub(crate) fn activation_forward(activation: &Activation, t: &Tensor) -> (r: Result<Tensor, candle_core::Error>)
    requires
        tensor_is_float(*t),
        activation_is_gated(*activation) ==> tensor_dims(*t).len() >= 1 && tensor_dims(*t).last() >= 2,
    ensures
        r matches Ok(y) ==> activated(*activation, *t) == Some(y) && tensor_is_float(y) && same_leading(
            tensor_dims(*t),
            tensor_dims(y),
        ),
        r matches Ok(y) ==> activation_is_gated(*activation) || tensor_dims(y) == tensor_dims(*t),
        r is Err ==> activated(*activation, *t) is None,
{
    candle_nn::Module::forward(activation, t)
}

/// `Dropout::forward`: outside training the input itself; in training the
/// input with elements dropped at random and the rest rescaled, shaped like
/// the input. In training the result depends on chance and has no name.
#[verifier::external_body]
pub(crate) fn dropout_forward(dropout: &Dropout, t: &Tensor, train: bool) -> (r: Result<Tensor, candle_core::Error>)
    requires
        tensor_is_float(*t),
    ensures
        r matches Ok(d) ==> tensor_is_float(d) && tensor_dims(d) == tensor_dims(*t),
        r matches Ok(d) ==> train || d == *t,
        r is Ok || train,
{
    dropout.forward(t, train)
}

/// `Linear::forward`: succeeds only on an input with at least two axes, and
/// the result is in the element type of the input. Nothing is claimed of its
/// extents: they depend on the extents of the bias.
#[verifier::external_body]
pub(crate) fn linear_forward(linear: &Linear, t: &Tensor) -> (r: Result<Tensor, candle_core::Error>)
    requires
        tensor_is_float(*t),
    ensures
        r matches Ok(y) ==> linear_applied(*linear, *t) == Some(y) && tensor_is_float(y) && tensor_dims(*t).len()
            >= 2,
        r is Err ==> linear_applied(*linear, *t) is None,
{
    candle_nn::Module::forward(linear, t)
}

/// `BatchNorm::forward_t` outside training: the input normalised per feature
/// by the running statistics, which stay as they are; shaped like the input.
#[verifier::external_body]
pub(crate) fn batch_norm_eval(norm: &BatchNorm, t: &Tensor) -> (r: Result<Tensor, candle_core::Error>)
    requires
        tensor_is_float(*t),
        batch_norm_is_float(*norm),
    ensures
        r matches Ok(y) ==> normalised(*norm, *t) == Some(y) && tensor_is_float(y) && tensor_dims(y) == tensor_dims(
            *t,
        ),
        r is Err ==> normalised(*norm, *t) is None,
{
    candle_nn::ModuleT::forward_t(norm, t, false)
}

} // verus!
