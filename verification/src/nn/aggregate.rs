//! Aggregation of per-edge messages into per-node values.
//!
//! Sum, mean and attention-weighted aggregation read one slice per edge at
//! the node the edge leaves and add it to the slice of the accumulator at the
//! node the edge enters. Weighted sum aggregation, which the graph
//! convolution uses, runs the other way: it reads at the node the edge enters
//! and adds at the node it leaves. Edges are taken as given: a repeated edge
//! adds its message again. A node whose slice no edge adds to keeps its slice
//! of the accumulator.

use vstd::prelude::*;
use candle_core::Tensor;
use crate::nn::degree::{
    floored, in_degree_of, lemma_occurrences_zero, out_degree_of, source_degrees, target_degrees,
};
use crate::nn::edge_index::{all_below, mentions, row_in_range, sources, targets, EdgeIndex};
use crate::nn::error::{from_backend, GnnError};
use crate::nn::named::{cast_of, exp_of, gather_of, product_of, quotient_of, reshape_of, scatter_of};
use crate::nn::tensor::{
    broadcast_div, broadcast_mul, cast_like, column, column_of, dims, exp, gather_rows, gathered, is_float,
    reshape, scatter_add_rows, tensor_dims, tensor_is_float, tensor_rows, zeros_of, zeros_shaped,
};

verus! {

/// The extents of one slice along the outermost axis.
pub open spec fn slice_shape(d: Seq<usize>) -> Seq<usize> {
    d.subrange(1, d.len() as int)
}

/// Slices of `xs`, read at the nodes that `values` names, can be added to the
/// slices of the accumulator `out` at the nodes that `slots` names: both
/// tensors hold floating-point numbers and have an outermost axis, their
/// slices have the same extents, and every node named has a slice.
pub open spec fn can_add(xs: Tensor, values: Seq<u32>, slots: Seq<u32>, out: Tensor) -> bool {
    &&& tensor_is_float(xs)
    &&& tensor_is_float(out)
    &&& tensor_dims(xs).len() >= 1
    &&& tensor_dims(out).len() >= 1
    &&& slice_shape(tensor_dims(xs)) == slice_shape(tensor_dims(out))
    &&& row_in_range(values, tensor_dims(xs)[0] as int)
    &&& row_in_range(slots, tensor_dims(out)[0] as int)
}

/// Messages read from `xs` at the sources can be added to the accumulator
/// `out` at the targets.
pub open spec fn can_aggregate(xs: Tensor, edges: Seq<(u32, u32)>, out: Tensor) -> bool {
    can_add(xs, sources(edges), targets(edges), out)
}

/// Messages read from `xs` at the targets can be added to the accumulator
/// `out` at the sources.
pub open spec fn can_aggregate_back(xs: Tensor, edges: Seq<(u32, u32)>, out: Tensor) -> bool {
    can_add(xs, targets(edges), sources(edges), out)
}

/// What adding at `slots` hands back for an accumulator `out` with one slice
/// per node: a floating-point tensor with the extents of `out` in which every
/// node that `slots` does not name has kept its slice.
pub open spec fn keeps_unnamed(slots: Seq<u32>, out: Tensor, res: Tensor) -> bool {
    &&& tensor_dims(res) == tensor_dims(out)
    &&& tensor_is_float(res)
    &&& tensor_dims(out).len() >= 1
    &&& tensor_rows(out).len() == tensor_dims(out)[0]
    &&& tensor_rows(res).len() == tensor_rows(out).len()
    &&& forall|n: int|
        0 <= n < tensor_rows(out).len() && !mentions(slots, n) ==> #[trigger] tensor_rows(res)[n] == tensor_rows(
            out,
        )[n]
}

/// What an aggregation into the targets hands back for an accumulator `out`
/// with one slice per node: a floating-point tensor with the extents of `out`
/// in which every node that no edge enters has kept its slice.
pub open spec fn keeps_unreached(edges: Seq<(u32, u32)>, out: Tensor, res: Tensor) -> bool {
    &&& tensor_dims(res) == tensor_dims(out)
    &&& tensor_is_float(res)
    &&& tensor_dims(out).len() >= 1
    &&& tensor_rows(out).len() == tensor_dims(out)[0]
    &&& tensor_rows(res).len() == tensor_rows(out).len()
    &&& forall|n: int|
        0 <= n < tensor_rows(out).len() && in_degree_of(edges, n) == 0 ==> #[trigger] tensor_rows(res)[n]
            == tensor_rows(out)[n]
}

/// What an aggregation into the sources hands back for an accumulator `out`
/// with one slice per node: a floating-point tensor with the extents of `out`
/// in which every node that no edge leaves has kept its slice.
pub open spec fn keeps_unleft(edges: Seq<(u32, u32)>, out: Tensor, res: Tensor) -> bool {
    &&& tensor_dims(res) == tensor_dims(out)
    &&& tensor_is_float(res)
    &&& tensor_dims(out).len() >= 1
    &&& tensor_rows(out).len() == tensor_dims(out)[0]
    &&& tensor_rows(res).len() == tensor_rows(out).len()
    &&& forall|n: int|
        0 <= n < tensor_rows(out).len() && out_degree_of(edges, n) == 0 ==> #[trigger] tensor_rows(res)[n]
            == tensor_rows(out)[n]
}

/// A tensor that keeps the slices of the nodes that `targets(edges)` does
/// not name keeps those of the nodes that no edge enters.
pub proof fn lemma_keeps_unreached(edges: Seq<(u32, u32)>, out: Tensor, res: Tensor)
    requires
        keeps_unnamed(targets(edges), out, res),
    ensures
        keeps_unreached(edges, out, res),
{
    assert forall|n: int| 0 <= n < tensor_rows(out).len() && in_degree_of(edges, n) == 0 implies #[trigger] tensor_rows(
        res,
    )[n] == tensor_rows(out)[n] by {
        lemma_occurrences_zero(targets(edges), n);
    }
}

/// A tensor that keeps the slices of the nodes that `sources(edges)` does
/// not name keeps those of the nodes that no edge leaves.
pub proof fn lemma_keeps_unleft(edges: Seq<(u32, u32)>, out: Tensor, res: Tensor)
    requires
        keeps_unnamed(sources(edges), out, res),
    ensures
        keeps_unleft(edges, out, res),
{
    assert forall|n: int| 0 <= n < tensor_rows(out).len() && out_degree_of(edges, n) == 0 implies #[trigger] tensor_rows(
        res,
    )[n] == tensor_rows(out)[n] by {
        lemma_occurrences_zero(sources(edges), n);
    }
}

/// Which failure the checks that precede an addition report, if any: the
/// first of elements that are no floating-point numbers, a missing axis,
/// slices of different extents, a value node outside `xs`, a slot node
/// outside `out`. After these, only the tensor runtime can refuse.
pub open spec fn add_refusal(xs: Tensor, values: Seq<u32>, slots: Seq<u32>, out: Tensor, r: GnnError) -> bool {
    let xd = tensor_dims(xs);
    let od = tensor_dims(out);
    let float = tensor_is_float(xs) && tensor_is_float(out);
    match r {
        GnnError::NotFloatingPoint => !float,
        GnnError::Rank { expected, found } => float && (xd.len() == 0 || od.len() == 0) && expected == 1 && found
            == 0,
        GnnError::ShapeMismatch { expected_dims, found_dims } => {
            &&& float
            &&& xd.len() >= 1
            &&& od.len() >= 1
            &&& slice_shape(xd) != slice_shape(od)
            &&& expected_dims@ == od
            &&& found_dims@ == xd
        },
        GnnError::NodeIndexOutOfRange { num_nodes } => {
            &&& float
            &&& xd.len() >= 1
            &&& od.len() >= 1
            &&& slice_shape(xd) == slice_shape(od)
            &&& if row_in_range(values, xd[0] as int) {
                !row_in_range(slots, od[0] as int) && num_nodes == od[0]
            } else {
                num_nodes == xd[0]
            }
        },
        GnnError::Backend(_) => can_add(xs, values, slots, out),
        _ => false,
    }
}

/// Which failure an aggregation into the targets reports: see `add_refusal`,
/// with the sources as the nodes read and the targets as the nodes added to.
pub open spec fn aggregate_refusal(xs: Tensor, edges: Seq<(u32, u32)>, out: Tensor, r: GnnError) -> bool {
    add_refusal(xs, sources(edges), targets(edges), out, r)
}

/// Which failure an aggregation into the sources reports: see `add_refusal`,
/// with the targets as the nodes read and the sources as the nodes added to.
pub open spec fn back_refusal(xs: Tensor, edges: Seq<(u32, u32)>, out: Tensor, r: GnnError) -> bool {
    add_refusal(xs, targets(edges), sources(edges), out, r)
}

/// Whether two lists of extents agree from the second entry on.
fn same_slice_shape(a: &Vec<usize>, b: &Vec<usize>) -> (same: bool)
    requires
        a@.len() >= 1,
        b@.len() >= 1,
    ensures
        same == (slice_shape(a@) == slice_shape(b@)),
{
    if a.len() != b.len() {
        assert(slice_shape(a@).len() != slice_shape(b@).len());
        return false;
    }
    let mut i: usize = 1;
    while i < a.len()
        invariant
            1 <= i <= a.len(),
            a@.len() == b@.len(),
            forall|k: int| 1 <= k < i ==> a@[k] == b@[k],
        decreases a.len() - i,
    {
        if a[i] != b[i] {
            assert(slice_shape(a@)[i - 1] != slice_shape(b@)[i - 1]);
            return false;
        }
        i += 1;
    }
    assert(slice_shape(a@) =~= slice_shape(b@));
    true
}

/// Runs the checks that precede an addition of slices of `xs`, read at
/// `values`, to the slices of `out` at `slots`.
fn check_add(xs: &Tensor, values: &Vec<u32>, slots: &Vec<u32>, out: &Tensor) -> (r: Result<(), GnnError>)
    ensures
        match r {
            Ok(_) => can_add(*xs, values@, slots@, *out),
            Err(GnnError::Backend(_)) => false,
            Err(e) => add_refusal(*xs, values@, slots@, *out, e),
        },
        tensor_dims(*out).len() >= 1 ==> tensor_rows(*out).len() == tensor_dims(*out)[0],
{
    let xd = dims(xs);
    let od = dims(out);
    if !(is_float(xs) && is_float(out)) {
        return Err(GnnError::NotFloatingPoint);
    }
    if xd.len() == 0 || od.len() == 0 {
        return Err(GnnError::Rank { expected: 1, found: 0 });
    }
    if !same_slice_shape(&xd, &od) {
        return Err(GnnError::ShapeMismatch { expected_dims: od, found_dims: xd });
    }
    if !all_below(values, xd[0]) {
        return Err(GnnError::NodeIndexOutOfRange { num_nodes: xd[0] });
    }
    if !all_below(slots, od[0]) {
        return Err(GnnError::NodeIndexOutOfRange { num_nodes: od[0] });
    }
    Ok(())
}

/// Adds `messages`, one slice per entry of `slots`, to the slices of `out`
/// at the nodes that `slots` names.
fn deliver(messages: &Tensor, slots: &Vec<u32>, out: &Tensor) -> (r: Result<Tensor, GnnError>)
    requires
        tensor_is_float(*out),
        tensor_dims(*out).len() >= 1,
        tensor_rows(*out).len() == tensor_dims(*out)[0],
    ensures
        match r {
            Ok(res) => keeps_unnamed(slots@, *out, res) && scatter_of(Some(*out), slots@, Some(*messages)) == Some(
                res,
            ),
            Err(GnnError::Backend(_)) => scatter_of(Some(*out), slots@, Some(*messages)) is None,
            Err(_) => false,
        },
{
    from_backend(scatter_add_rows(out, slots, messages))
}

/// What sum aggregation returns: `out` with, for each edge in turn, the slice
/// of `xs` at the edge's source added to the slice at the edge's target;
/// `None` where the tensor runtime refuses a step.
pub open spec fn sum_aggregated(xs: Tensor, edges: Seq<(u32, u32)>, out: Tensor) -> Option<Tensor> {
    scatter_of(Some(out), targets(edges), gathered(xs, sources(edges)))
}

/// Sum aggregation: each edge adds the slice of `xs` at its source to the
/// slice of `out` at its target.
///
/// The call succeeds exactly where the tensors can be aggregated and the
/// tensor runtime accepts every step. The result has the extents of `out`,
/// and a node that no edge enters keeps its slice of `out`. The call is
/// refused, before any arithmetic, where a tensor does not hold
/// floating-point numbers or has no axis, where the slices of `xs` and `out`
/// differ in extents, or where an edge names a node outside `xs` or `out`.
pub fn sum_agg(xs: &Tensor, edge_index: &EdgeIndex, out: &Tensor) -> (r: Result<Tensor, GnnError>)
    ensures
        match r {
            Ok(res) => {
                &&& can_aggregate(*xs, edge_index@, *out)
                &&& sum_aggregated(*xs, edge_index@, *out) == Some(res)
                &&& keeps_unreached(edge_index@, *out, res)
            },
            Err(e) => aggregate_refusal(*xs, edge_index@, *out, e),
        },
        r is Ok <==> can_aggregate(*xs, edge_index@, *out) && sum_aggregated(*xs, edge_index@, *out) is Some,
{
    check_add(xs, edge_index.source_row(), edge_index.target_row(), out)?;
    let messages = from_backend(gather_rows(xs, edge_index.source_row()))?;
    let res = deliver(&messages, edge_index.target_row(), out)?;
    proof {
        lemma_keeps_unreached(edge_index@, *out, res);
    }
    Ok(res)
}

/// The extents of a column of `len` numbers that broadcasts against slices of
/// a tensor with `rank` axes: `len` first, then 1 for every further axis.
pub open spec fn column_shape(len: usize, rank: nat) -> Seq<usize> {
    Seq::new(rank, |i: int| if i == 0 { len } else { 1usize })
}

/// Builds `column_shape(len, rank)`.
fn column_shape_of(len: usize, rank: usize) -> (shape: Vec<usize>)
    ensures
        shape@ == column_shape(len, rank as nat),
{
    let mut shape: Vec<usize> = Vec::new();
    let mut i: usize = 0;
    while i < rank
        invariant
            i <= rank,
            shape@.len() == i,
            forall|k: int| 0 <= k < i ==> shape@[k] == if k == 0 { len } else { 1usize },
        decreases rank - i,
    {
        shape.push(if i == 0 { len } else { 1 });
        i += 1;
    }
    assert(shape@ =~= column_shape(len, rank as nat));
    shape
}

/// For each edge, the number that mean aggregation divides its message by:
/// the in-degree of its target, which is at least 1.
pub open spec fn target_divisors(edges: Seq<(u32, u32)>) -> Seq<u32> {
    Seq::new(edges.len(), |e: int| floored(in_degree_of(edges, edges[e].1 as int)) as u32)
}

/// The numbers `values`, one per edge, as a tensor that broadcasts against
/// one slice of `like` per edge: a column in the element type of `like`,
/// with an extent of 1 for every axis of `like` but the outermost.
pub open spec fn edge_column(values: Seq<u32>, like: Tensor) -> Option<Tensor> {
    reshape_of(
        cast_of(column_of(values, like), like),
        column_shape(values.len() as usize, tensor_dims(like).len()),
    )
}

/// What mean aggregation returns: `out` with, for each edge in turn, the
/// slice of `xs` at the edge's source, divided by the edge's entry of
/// `target_divisors`, added to the slice at the edge's target; `None` where
/// the tensor runtime refuses a step.
pub open spec fn mean_aggregated(xs: Tensor, edges: Seq<(u32, u32)>, out: Tensor) -> Option<Tensor> {
    scatter_of(
        Some(out),
        targets(edges),
        quotient_of(gathered(xs, sources(edges)), edge_column(target_divisors(edges), xs)),
    )
}

/// Builds `edge_column(values, like)` for a tensor `like` with `rank` axes.
fn edge_column_of(values: &Vec<u32>, like: &Tensor, rank: usize) -> (r: Result<Tensor, GnnError>)
    requires
        rank == tensor_dims(*like).len(),
        rank >= 1,
    ensures
        match r {
            Ok(c) => {
                &&& edge_column(values@, *like) == Some(c)
                &&& tensor_dims(c) == column_shape(values@.len() as usize, rank as nat)
                &&& tensor_is_float(c) == tensor_is_float(*like)
            },
            Err(GnnError::Backend(_)) => edge_column(values@, *like) is None,
            Err(_) => false,
        },
{
    let integers = from_backend(column(values, like))?;
    let numbers = from_backend(cast_like(&integers, like))?;
    from_backend(reshape(&numbers, &column_shape_of(values.len(), rank)))
}

/// Mean aggregation: each edge adds the slice of `xs` at its source, divided
/// by the in-degree of its target, to the slice of `out` at its target.
///
/// The divisor is the number of edges that enter the target, which is at
/// least 1 for a node that an edge enters: no division by zero occurs, and a
/// node that no edge enters keeps its slice of `out`. The call succeeds
/// exactly where the tensors can be aggregated and the tensor runtime accepts
/// every step. The result has the extents of `out`. The call is refused as
/// [`sum_agg`] refuses it.
pub fn mean_agg(xs: &Tensor, edge_index: &EdgeIndex, out: &Tensor) -> (r: Result<Tensor, GnnError>)
    ensures
        match r {
            Ok(res) => {
                &&& can_aggregate(*xs, edge_index@, *out)
                &&& mean_aggregated(*xs, edge_index@, *out) == Some(res)
                &&& keeps_unreached(edge_index@, *out, res)
            },
            Err(e) => aggregate_refusal(*xs, edge_index@, *out, e),
        },
        r is Ok <==> can_aggregate(*xs, edge_index@, *out) && mean_aggregated(*xs, edge_index@, *out) is Some,
{
    check_add(xs, edge_index.source_row(), edge_index.target_row(), out)?;
    let od = dims(out);
    let xd = dims(xs);
    let divisors = target_degrees(edge_index, od[0])?;
    assert(divisors@ =~= target_divisors(edge_index@));
    let messages = from_backend(gather_rows(xs, edge_index.source_row()));
    let divisor = edge_column_of(&divisors, xs, xd.len());
    let messages = messages?;
    let divisor = divisor?;
    let messages = from_backend(broadcast_div(&messages, &divisor))?;
    let res = deliver(&messages, edge_index.target_row(), out)?;
    proof {
        lemma_keeps_unreached(edge_index@, *out, res);
    }
    Ok(res)
}

/// What weighted sum aggregation returns: `out` with, for each edge in turn,
/// the slice of `xs` at the edge's target, multiplied by the edge's slice of
/// `weight`, added to the slice at the edge's source; `None` where the tensor
/// runtime refuses a step.
pub open spec fn weighted_aggregated(xs: Tensor, edges: Seq<(u32, u32)>, weight: Tensor, out: Tensor) -> Option<
    Tensor,
> {
    scatter_of(Some(out), sources(edges), product_of(gathered(xs, targets(edges)), Some(weight)))
}

/// Weighted sum aggregation: each edge adds the slice of `xs` at its target,
/// multiplied by the edge's slice of `weight`, to the slice of `out` at its
/// source.
///
/// `weight` holds one slice per edge and is broadcast against the messages.
/// The call succeeds exactly where the tensors can be aggregated and the
/// tensor runtime accepts every step. The result has the extents of `out`,
/// and a node that no edge leaves keeps its slice of `out`. The call is
/// refused, before any arithmetic, where a tensor does not hold
/// floating-point numbers or has no axis, where the slices of `xs` and `out`
/// differ in extents, or where an edge names a node outside `xs` or `out`.
pub fn weighted_sum_agg(xs: &Tensor, edge_index: &EdgeIndex, weight: &Tensor, out: &Tensor) -> (r: Result<
    Tensor,
    GnnError,
>)
    ensures
        match r {
            Ok(res) => {
                &&& can_aggregate_back(*xs, edge_index@, *out)
                &&& weighted_aggregated(*xs, edge_index@, *weight, *out) == Some(res)
                &&& keeps_unleft(edge_index@, *out, res)
            },
            Err(e) => back_refusal(*xs, edge_index@, *out, e),
        },
        r is Ok <==> can_aggregate_back(*xs, edge_index@, *out) && weighted_aggregated(
            *xs,
            edge_index@,
            *weight,
            *out,
        ) is Some,
{
    check_add(xs, edge_index.target_row(), edge_index.source_row(), out)?;
    let messages = from_backend(gather_rows(xs, edge_index.target_row()))?;
    let messages = from_backend(broadcast_mul(&messages, weight))?;
    let res = deliver(&messages, edge_index.source_row(), out)?;
    proof {
        lemma_keeps_unleft(edge_index@, *out, res);
    }
    Ok(res)
}

/// What attention-weighted aggregation returns: `out` with, for each edge in
/// turn, the slice of `xs` at the edge's source, multiplied by the edge's
/// slice of `attention`, added to the slice at the edge's target; `None`
/// where the tensor runtime refuses a step.
pub open spec fn attention_aggregated(xs: Tensor, edges: Seq<(u32, u32)>, attention: Tensor, out: Tensor) -> Option<
    Tensor,
> {
    scatter_of(Some(out), targets(edges), product_of(gathered(xs, sources(edges)), Some(attention)))
}

/// Attention-weighted aggregation: each edge adds the slice of `xs` at its
/// source, multiplied by the edge's slice of `attention`, to the slice of
/// `out` at its target.
///
/// `attention` holds one slice per edge and is broadcast against the
/// messages. The call succeeds exactly where the tensors can be aggregated
/// and the tensor runtime accepts every step. The result has the extents of
/// `out`, and a node that no edge enters keeps its slice of `out`. The call
/// is refused as [`sum_agg`] refuses it.
pub fn attention_agg(xs: &Tensor, edge_index: &EdgeIndex, attention: &Tensor, out: &Tensor) -> (r: Result<
    Tensor,
    GnnError,
>)
    ensures
        match r {
            Ok(res) => {
                &&& can_aggregate(*xs, edge_index@, *out)
                &&& attention_aggregated(*xs, edge_index@, *attention, *out) == Some(res)
                &&& keeps_unreached(edge_index@, *out, res)
            },
            Err(e) => aggregate_refusal(*xs, edge_index@, *out, e),
        },
        r is Ok <==> can_aggregate(*xs, edge_index@, *out) && attention_aggregated(
            *xs,
            edge_index@,
            *attention,
            *out,
        ) is Some,
{
    check_add(xs, edge_index.source_row(), edge_index.target_row(), out)?;
    let messages = from_backend(gather_rows(xs, edge_index.source_row()))?;
    let messages = from_backend(broadcast_mul(&messages, attention))?;
    let res = deliver(&messages, edge_index.target_row(), out)?;
    proof {
        lemma_keeps_unreached(edge_index@, *out, res);
    }
    Ok(res)
}

/// The scores, one slice per edge, can be normalised over the edges of a
/// graph with `num_nodes` nodes: they are floating-point numbers, there is
/// one slice per edge, and every edge enters a node below `num_nodes`.
pub open spec fn can_normalise(scores: Tensor, edges: Seq<(u32, u32)>, num_nodes: usize) -> bool {
    &&& tensor_is_float(scores)
    &&& tensor_dims(scores).len() >= 1
    &&& tensor_dims(scores)[0] == edges.len()
    &&& row_in_range(targets(edges), num_nodes as int)
}

/// Which failure the checks that precede [`edge_softmax`] report, if any: the
/// first of scores that are no floating-point numbers, scores without an
/// axis, a number of slices other than the number of edges, an edge that
/// enters a node that is not below `num_nodes`.
pub open spec fn softmax_refusal(scores: Tensor, edges: Seq<(u32, u32)>, num_nodes: usize, e: GnnError) -> bool {
    let sd = tensor_dims(scores);
    let float = tensor_is_float(scores);
    match e {
        GnnError::NotFloatingPoint => !float,
        GnnError::Rank { expected, found } => float && sd.len() == 0 && expected == 1 && found == 0,
        GnnError::EdgeCount { expected, found } => float && sd.len() >= 1 && sd[0] != edges.len() && expected
            == edges.len() && found == sd[0],
        GnnError::NodeIndexOutOfRange { num_nodes: n } => {
            &&& float
            &&& sd.len() >= 1
            &&& sd[0] == edges.len()
            &&& !row_in_range(targets(edges), num_nodes as int)
            &&& n == num_nodes
        },
        GnnError::Backend(_) => can_normalise(scores, edges, num_nodes),
        _ => false,
    }
}

/// What the softmax over the edges into one node returns: the exponential
/// of every score, divided by the sum of the exponentials of the scores of
/// the edges with the same target. The sums are formed by adding the
/// exponentials into zeros, one slice per node, at the targets, and are read
/// back at the targets. `None` where the tensor runtime refuses a step.
pub open spec fn edge_softmaxed(scores: Tensor, edges: Seq<(u32, u32)>, num_nodes: usize) -> Option<Tensor> {
    let weights = exponential_of(scores);
    let sums = scatter_of(zeros_of(tensor_dims(scores).update(0, num_nodes), scores), targets(edges), weights);
    quotient_of(weights, gather_of(sums, targets(edges)))
}

/// The exponential of every score.
pub open spec fn exponential_of(scores: Tensor) -> Option<Tensor> {
    exp_of(Some(scores))
}

/// Every sum that the softmax divides by is the sum at a node that an edge
/// enters, so it holds the exponential of that edge at least. The sum of a
/// node without incoming edges, which is zero, divides nothing.
pub proof fn lemma_softmax_divides_by_reached_sums(edges: Seq<(u32, u32)>, e: int)
    requires
        0 <= e < edges.len(),
    ensures
        in_degree_of(edges, targets(edges)[e] as int) >= 1,
{
    lemma_occurrences_zero(targets(edges), targets(edges)[e] as int);
    assert(mentions(targets(edges), targets(edges)[e] as int));
}

/// Softmax over the edges that enter the same node: the exponential of each
/// edge's score, divided by the sum of the exponentials of the scores of all
/// edges with the same target. Where the scores have further axes (one entry
/// per attention head), each position is normalised on its own.
///
/// An edge's own exponential is part of its divisor. The call succeeds
/// exactly where the scores can be normalised and the tensor runtime accepts
/// every step; the result has the extents of `scores`.
pub fn edge_softmax(scores: &Tensor, edge_index: &EdgeIndex, num_nodes: usize) -> (r: Result<Tensor, GnnError>)
    ensures
        match r {
            Ok(res) => {
                &&& can_normalise(*scores, edge_index@, num_nodes)
                &&& edge_softmaxed(*scores, edge_index@, num_nodes) == Some(res)
                &&& tensor_dims(res) == tensor_dims(*scores)
                &&& tensor_is_float(res)
            },
            Err(e) => softmax_refusal(*scores, edge_index@, num_nodes, e),
        },
        r is Ok <==> can_normalise(*scores, edge_index@, num_nodes) && edge_softmaxed(
            *scores,
            edge_index@,
            num_nodes,
        ) is Some,
{
    if !is_float(scores) {
        return Err(GnnError::NotFloatingPoint);
    }
    let sd = dims(scores);
    if sd.len() == 0 {
        return Err(GnnError::Rank { expected: 1, found: 0 });
    }
    if sd[0] != edge_index.len() {
        return Err(GnnError::EdgeCount { expected: edge_index.len(), found: sd[0] });
    }
    if !all_below(edge_index.target_row(), num_nodes) {
        return Err(GnnError::NodeIndexOutOfRange { num_nodes });
    }
    let mut shape = sd;
    shape.set(0, num_nodes);
    let weights = from_backend(exp(scores));
    let zeros = from_backend(zeros_shaped(&shape, scores));
    let weights = weights?;
    let zeros = zeros?;
    let sums = from_backend(scatter_add_rows(&zeros, edge_index.target_row(), &weights))?;
    let divisors = from_backend(gather_rows(&sums, edge_index.target_row()))?;
    let res = from_backend(broadcast_div(&weights, &divisors))?;
    assert(tensor_dims(res) =~= tensor_dims(*scores));
    Ok(res)
}

} // verus!
