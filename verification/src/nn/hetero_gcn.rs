//! Relational graph convolution over a graph with several node types and
//! several relations.
//!
//! A relation is a triple of a source node type, an edge type and a target
//! node type; its edges run from nodes of the source type to nodes of the
//! target type. Features, edge lists and results are collections keyed by node
//! type or by relation, see [`crate::nn::typed`].

use vstd::prelude::*;
use candle_core::Tensor;
use candle_nn::{Activation, Dropout};
use crate::nn::activation::activate;
use crate::nn::aggregate::{keeps_unreached, mean_agg, mean_aggregated, slice_shape};
use crate::nn::degree::in_degree_of;
use crate::nn::edge_index::{all_below, row_in_range, sources, targets, EdgeIndex};
use crate::nn::error::{from_backend, GnnError};
use crate::nn::stack::{between_eval, dropout_gave};
use crate::nn::tensor::{
    activated, dims, dropout_forward, is_float, matmul, matrix_product, same_leading, share, tensor_dims,
    tensor_is_float, tensor_rows,
};
use crate::nn::traits::HeteroGnnModule;
use crate::nn::typed::{
    distinct_keys, distinct_relations, find_key, find_relation, key_position, lemma_position, lemma_same_positions,
    lookup, lookup_relation, position, relation_code, relation_key_position, rows_follow, rows_of, TypeKey,
};

verus! {

/// The weight of a relation fits the root weights `node_ws`: it is a matrix,
/// the target type of the relation has a root weight, and both return rows of
/// the same width.
pub open spec fn relation_fits<N: TypeKey, E: TypeKey>(node_ws: Seq<(N, Tensor)>, entry: ((N, E, N), Tensor)) -> bool {
    &&& tensor_dims(entry.1).len() == 2
    &&& lookup(node_ws, entry.0.2.code()) matches Some(w) && tensor_dims(w).len() == 2 && tensor_dims(w)[1]
        == tensor_dims(entry.1)[1]
}

/// The node type of entry `index` occurs among the entries before it.
pub open spec fn twice_at<N: TypeKey>(node_ws: Seq<(N, Tensor)>, index: int) -> bool {
    0 <= index < node_ws.len() && exists|i: int|
        0 <= i < index && (#[trigger] node_ws[i]).0.code() == node_ws[index].0.code()
}

/// The relation of entry `index` occurs among the entries before it.
pub open spec fn twice_relation_at<N: TypeKey, E: TypeKey>(edge_ws: Seq<((N, E, N), Tensor)>, index: int) -> bool {
    0 <= index < edge_ws.len() && exists|j: int|
        0 <= j < index && relation_code((#[trigger] edge_ws[j]).0) == relation_code(edge_ws[index].0)
}

/// The weights make a layer: no node type and no relation occurs twice, every
/// root weight is a matrix, and every relation's weight fits.
pub open spec fn valid_weights<N: TypeKey, E: TypeKey>(
    node_ws: Seq<(N, Tensor)>,
    edge_ws: Seq<((N, E, N), Tensor)>,
) -> bool {
    &&& distinct_keys(node_ws)
    &&& distinct_relations(edge_ws)
    &&& forall|i: int| 0 <= i < node_ws.len() ==> tensor_dims((#[trigger] node_ws[i]).1).len() == 2
    &&& forall|j: int| 0 <= j < edge_ws.len() ==> relation_fits(node_ws, #[trigger] edge_ws[j])
}

/// `xs` holds features for the node type with code `k`, and they are a matrix
/// of floating-point numbers with rows of width `width`.
pub open spec fn features_for<N: TypeKey>(xs: Seq<(N, Tensor)>, k: int, width: usize) -> bool {
    lookup(xs, k) matches Some(x) && tensor_is_float(x) && tensor_dims(x).len() == 2 && tensor_dims(x)[1]
        == width
}

/// A relation whose weight takes rows of width `width` can pass its messages:
/// the features of its source type fit the weight, those of its target type
/// are a matrix, `edges` holds an edge list for it, and every edge runs from a
/// row of the first to a row of the second.
pub open spec fn relation_ready<N: TypeKey, E: TypeKey>(
    xs: Seq<(N, Tensor)>,
    edges: Seq<((N, E, N), EdgeIndex)>,
    relation: (N, E, N),
    width: usize,
) -> bool {
    &&& features_for(xs, relation.0.code(), width)
    &&& lookup(xs, relation.2.code()) matches Some(x) && tensor_is_float(x) && tensor_dims(x).len() == 2
    &&& lookup_relation(edges, relation_code(relation)) matches Some(g) && row_in_range(
        sources(g@),
        rows_of(xs, relation.0.code()) as int,
    ) && row_in_range(targets(g@), rows_of(xs, relation.2.code()) as int)
}

/// A layer with the node types `nodes` and the relations `relations`, each
/// with the extents of its weight, can run on `xs` and `edges`.
pub open spec fn hetero_ready<N: TypeKey, E: TypeKey>(
    nodes: Seq<(N, (usize, usize))>,
    relations: Seq<((N, E, N), (usize, usize))>,
    xs: Seq<(N, Tensor)>,
    edges: Seq<((N, E, N), EdgeIndex)>,
) -> bool {
    &&& forall|i: int| 0 <= i < nodes.len() ==> features_for(xs, (#[trigger] nodes[i]).0.code(), nodes[i].1.0)
    &&& forall|j: int|
        0 <= j < relations.len() ==> relation_ready(xs, edges, (#[trigger] relations[j]).0, relations[j].1.0)
}

/// The node types with code `k` among the targets of `relations`: whether
/// some relation delivers messages to that node type.
pub open spec fn is_target<N: TypeKey, E: TypeKey>(relations: Seq<((N, E, N), (usize, usize))>, k: int) -> bool {
    exists|j: int| 0 <= j < relations.len() && (#[trigger] relations[j]).0.2.code() == k
}

/// `out` holds one tensor of floating-point numbers per node type of
/// `nodes`, in the same order, each with one row of the type's output width
/// for every row of the type's features in `xs`.
pub open spec fn shaped_like<N: TypeKey>(nodes: Seq<(N, (usize, usize))>, xs: Seq<(N, Tensor)>, out: Seq<(N, Tensor)>) -> bool {
    &&& out.len() == nodes.len()
    &&& forall|i: int|
        0 <= i < nodes.len() ==> {
            &&& (#[trigger] out[i]).0.code() == nodes[i].0.code()
            &&& tensor_dims(out[i].1) == seq![rows_of(xs, nodes[i].0.code()), nodes[i].1.1]
            &&& tensor_is_float(out[i].1)
        }
}

/// Node `n` of the node type with code `k` gets no message: no edge of a
/// relation of `relations` that targets the node type enters it.
pub open spec fn gets_no_message<N: TypeKey, E: TypeKey>(
    relations: Seq<((N, E, N), (usize, usize))>,
    edges: Seq<((N, E, N), EdgeIndex)>,
    k: int,
    n: int,
) -> bool {
    forall|j: int|
        0 <= j < relations.len() && (#[trigger] relations[j]).0.2.code() == k ==> in_degree_of(
            lookup_relation(edges, relation_code(relations[j].0))->Some_0@,
            n,
        ) == 0
}

/// What message passing leaves as it was: the whole tensor of a node type
/// that no relation targets, and the row of every node that gets no message.
pub open spec fn keeps_roots<N: TypeKey, E: TypeKey>(
    nodes: Seq<(N, (usize, usize))>,
    relations: Seq<((N, E, N), (usize, usize))>,
    edges: Seq<((N, E, N), EdgeIndex)>,
    roots: Seq<(N, Tensor)>,
    out: Seq<(N, Tensor)>,
) -> bool {
    &&& out.len() == roots.len()
    &&& forall|i: int|
        0 <= i < out.len() && i < nodes.len() && !is_target(relations, nodes[i].0.code()) ==> (#[trigger] out[i]).1
            == roots[i].1
    &&& forall|i: int, n: int|
        0 <= i < out.len() && i < nodes.len() && 0 <= n < tensor_rows(roots[i].1).len() && gets_no_message(
            relations,
            edges,
            nodes[i].0.code(),
            n,
        ) ==> #[trigger] tensor_rows(out[i].1)[n] == tensor_rows(roots[i].1)[n]
}

/// The root transforms of the first `count` node types: for each, the
/// features of the type times its root weight, keyed by the type. `None`
/// where the tensor runtime refuses a product.
pub open spec fn roots_of<N: TypeKey>(
    nodes: Seq<(N, (usize, usize))>,
    weights: Seq<Tensor>,
    xs: Seq<(N, Tensor)>,
    count: nat,
) -> Option<Seq<(N, Tensor)>>
    decreases count,
{
    if count == 0 {
        Some(Seq::empty())
    } else {
        match roots_of(nodes, weights, xs, (count - 1) as nat) {
            Some(before) => match matrix_product(lookup(xs, nodes[count - 1].0.code())->Some_0, weights[count - 1]) {
                Some(root) => Some(before.push((nodes[count - 1].0, root))),
                None => None,
            },
            None => None,
        }
    }
}

/// Once a root transform has failed, the root transforms have failed.
pub proof fn lemma_roots_failed<N: TypeKey>(
    nodes: Seq<(N, (usize, usize))>,
    weights: Seq<Tensor>,
    xs: Seq<(N, Tensor)>,
    failed: nat,
    count: nat,
)
    requires
        failed <= count,
        roots_of(nodes, weights, xs, failed) is None,
    ensures
        roots_of(nodes, weights, xs, count) is None,
    decreases count,
{
    if failed < count {
        lemma_roots_failed(nodes, weights, xs, failed, (count - 1) as nat);
    }
}

/// The features after the first `count` relations have passed their
/// messages: `roots`, in which, for each of these relations in turn, the
/// tensor of the relation's target type has been replaced by the mean
/// aggregation, along the relation's edges, of the relation's messages into
/// it. The messages of a relation are the features of its source type times
/// its weight. `None` where the tensor runtime refuses a step.
pub open spec fn after_messages<N: TypeKey, E: TypeKey>(
    nodes: Seq<(N, (usize, usize))>,
    relations: Seq<((N, E, N), (usize, usize))>,
    weights: Seq<Tensor>,
    xs: Seq<(N, Tensor)>,
    edges: Seq<((N, E, N), EdgeIndex)>,
    roots: Seq<(N, Tensor)>,
    count: nat,
) -> Option<Seq<(N, Tensor)>>
    decreases count,
{
    if count == 0 {
        Some(roots)
    } else {
        match after_messages(nodes, relations, weights, xs, edges, roots, (count - 1) as nat) {
            Some(before) => {
                let relation = relations[count - 1].0;
                let to = position(nodes, relation.2.code())->Some_0;
                let graph = lookup_relation(edges, relation_code(relation))->Some_0;
                match matrix_product(lookup(xs, relation.0.code())->Some_0, weights[count - 1]) {
                    Some(messages) => match mean_aggregated(messages, graph@, before[to].1) {
                        Some(sum) => Some(before.update(to, (before[to].0, sum))),
                        None => None,
                    },
                    None => None,
                }
            },
            None => None,
        }
    }
}

/// Once a relation has failed to pass its messages, message passing has
/// failed.
pub proof fn lemma_messages_failed<N: TypeKey, E: TypeKey>(
    nodes: Seq<(N, (usize, usize))>,
    relations: Seq<((N, E, N), (usize, usize))>,
    weights: Seq<Tensor>,
    xs: Seq<(N, Tensor)>,
    edges: Seq<((N, E, N), EdgeIndex)>,
    roots: Seq<(N, Tensor)>,
    failed: nat,
    count: nat,
)
    requires
        failed <= count,
        after_messages(nodes, relations, weights, xs, edges, roots, failed) is None,
    ensures
        after_messages(nodes, relations, weights, xs, edges, roots, count) is None,
    decreases count,
{
    if failed < count {
        lemma_messages_failed(nodes, relations, weights, xs, edges, roots, failed, (count - 1) as nat);
    }
}

/// The node types whose features a layer reads, each with the width that its
/// rows must have, or `None` where any width will do: the node types of the
/// layer, then the source types of its relations, then their target types.
pub open spec fn wanted_by_nodes<N: TypeKey>(nodes: Seq<(N, (usize, usize))>) -> Seq<(N, Option<usize>)> {
    Seq::new(nodes.len(), |i: int| (nodes[i].0, Some(nodes[i].1.0)))
}

/// The source types of the relations, each with the width that its rows must
/// have.
pub open spec fn wanted_by_sources<N: TypeKey, E: TypeKey>(relations: Seq<((N, E, N), (usize, usize))>) -> Seq<
    (N, Option<usize>),
> {
    Seq::new(relations.len(), |j: int| (relations[j].0.0, Some(relations[j].1.0)))
}

/// The target types of the relations; their rows can have any width.
pub open spec fn wanted_by_targets<N: TypeKey, E: TypeKey>(relations: Seq<((N, E, N), (usize, usize))>) -> Seq<
    (N, Option<usize>),
> {
    Seq::new(relations.len(), |j: int| (relations[j].0.2, None::<usize>))
}

/// `xs` holds features for every node type that `wanted` lists.
pub open spec fn all_present<N: TypeKey>(wanted: Seq<(N, Option<usize>)>, xs: Seq<(N, Tensor)>) -> bool {
    forall|k: int| 0 <= k < wanted.len() ==> lookup(xs, (#[trigger] wanted[k]).0.code()) is Some
}

/// The features that `xs` holds for the node types that `wanted` lists are
/// floating-point numbers.
pub open spec fn all_float<N: TypeKey>(wanted: Seq<(N, Option<usize>)>, xs: Seq<(N, Tensor)>) -> bool {
    forall|k: int|
        0 <= k < wanted.len() && lookup(xs, (#[trigger] wanted[k]).0.code()) is Some ==> tensor_is_float(
            lookup(xs, wanted[k].0.code())->Some_0,
        )
}

/// The features with extents `d` fit a wanted width: they are a matrix, and
/// where a width is wanted their rows have it.
pub open spec fn fits(d: Seq<usize>, width: Option<usize>) -> bool {
    d.len() == 2 && (width matches Some(w) ==> d[1] == w)
}

/// The features that `xs` holds for the node types that `wanted` lists are
/// matrices with rows of the wanted width.
pub open spec fn all_fit<N: TypeKey>(wanted: Seq<(N, Option<usize>)>, xs: Seq<(N, Tensor)>) -> bool {
    forall|k: int|
        0 <= k < wanted.len() && lookup(xs, (#[trigger] wanted[k]).0.code()) is Some ==> fits(
            tensor_dims(lookup(xs, wanted[k].0.code())->Some_0),
            wanted[k].1,
        )
}

/// Every node type that the layer reads has features.
pub open spec fn features_present<N: TypeKey, E: TypeKey>(
    nodes: Seq<(N, (usize, usize))>,
    relations: Seq<((N, E, N), (usize, usize))>,
    xs: Seq<(N, Tensor)>,
) -> bool {
    &&& all_present(wanted_by_nodes(nodes), xs)
    &&& all_present(wanted_by_sources(relations), xs)
    &&& all_present(wanted_by_targets(relations), xs)
}

/// The features of every node type that the layer reads are floating-point
/// numbers.
pub open spec fn features_float<N: TypeKey, E: TypeKey>(
    nodes: Seq<(N, (usize, usize))>,
    relations: Seq<((N, E, N), (usize, usize))>,
    xs: Seq<(N, Tensor)>,
) -> bool {
    &&& all_float(wanted_by_nodes(nodes), xs)
    &&& all_float(wanted_by_sources(relations), xs)
    &&& all_float(wanted_by_targets(relations), xs)
}

/// The features of every node type that the layer reads are matrices with
/// rows of the width that the layer's weights take.
pub open spec fn features_fit<N: TypeKey, E: TypeKey>(
    nodes: Seq<(N, (usize, usize))>,
    relations: Seq<((N, E, N), (usize, usize))>,
    xs: Seq<(N, Tensor)>,
) -> bool {
    &&& all_fit(wanted_by_nodes(nodes), xs)
    &&& all_fit(wanted_by_sources(relations), xs)
    &&& all_fit(wanted_by_targets(relations), xs)
}

/// Every relation of the layer has an edge list.
pub open spec fn edges_present<N: TypeKey, E: TypeKey>(
    relations: Seq<((N, E, N), (usize, usize))>,
    edges: Seq<((N, E, N), EdgeIndex)>,
) -> bool {
    forall|j: int|
        0 <= j < relations.len() ==> lookup_relation(edges, relation_code((#[trigger] relations[j]).0)) is Some
}

/// Every edge of every relation runs from a row of the features of its
/// source type to a row of the features of its target type.
pub open spec fn edges_in_range<N: TypeKey, E: TypeKey>(
    relations: Seq<((N, E, N), (usize, usize))>,
    xs: Seq<(N, Tensor)>,
    edges: Seq<((N, E, N), EdgeIndex)>,
) -> bool {
    forall|j: int|
        0 <= j < relations.len() ==> {
            let relation = (#[trigger] relations[j]).0;
            let graph = lookup_relation(edges, relation_code(relation))->Some_0;
            &&& row_in_range(sources(graph@), rows_of(xs, relation.0.code()) as int)
            &&& row_in_range(targets(graph@), rows_of(xs, relation.2.code()) as int)
        }
}

/// A layer can run exactly where the five checks pass.
pub proof fn lemma_ready<N: TypeKey, E: TypeKey>(
    nodes: Seq<(N, (usize, usize))>,
    relations: Seq<((N, E, N), (usize, usize))>,
    xs: Seq<(N, Tensor)>,
    edges: Seq<((N, E, N), EdgeIndex)>,
)
    ensures
        hetero_ready(nodes, relations, xs, edges) <==> {
            &&& features_present(nodes, relations, xs)
            &&& features_float(nodes, relations, xs)
            &&& features_fit(nodes, relations, xs)
            &&& edges_present(relations, edges)
            &&& edges_in_range(relations, xs, edges)
        },
{
    let a = wanted_by_nodes(nodes);
    let b = wanted_by_sources(relations);
    let c = wanted_by_targets(relations);
    if hetero_ready(nodes, relations, xs, edges) {
        assert forall|k: int| 0 <= k < a.len() implies lookup(xs, (#[trigger] a[k]).0.code()) is Some
            && tensor_is_float(lookup(xs, a[k].0.code())->Some_0) && fits(
            tensor_dims(lookup(xs, a[k].0.code())->Some_0),
            a[k].1,
        ) by {
            assert(features_for(xs, nodes[k].0.code(), nodes[k].1.0));
        }
        assert forall|k: int| 0 <= k < b.len() implies lookup(xs, (#[trigger] b[k]).0.code()) is Some
            && tensor_is_float(lookup(xs, b[k].0.code())->Some_0) && fits(
            tensor_dims(lookup(xs, b[k].0.code())->Some_0),
            b[k].1,
        ) by {
            assert(relation_ready(xs, edges, relations[k].0, relations[k].1.0));
        }
        assert forall|k: int| 0 <= k < c.len() implies lookup(xs, (#[trigger] c[k]).0.code()) is Some
            && tensor_is_float(lookup(xs, c[k].0.code())->Some_0) && fits(
            tensor_dims(lookup(xs, c[k].0.code())->Some_0),
            c[k].1,
        ) by {
            assert(relation_ready(xs, edges, relations[k].0, relations[k].1.0));
        }
        assert forall|j: int| 0 <= j < relations.len() implies lookup_relation(
            edges,
            relation_code((#[trigger] relations[j]).0),
        ) is Some && row_in_range(
            sources(lookup_relation(edges, relation_code(relations[j].0))->Some_0@),
            rows_of(xs, relations[j].0.0.code()) as int,
        ) && row_in_range(
            targets(lookup_relation(edges, relation_code(relations[j].0))->Some_0@),
            rows_of(xs, relations[j].0.2.code()) as int,
        ) by {
            assert(relation_ready(xs, edges, relations[j].0, relations[j].1.0));
        }
    }
    if features_present(nodes, relations, xs) && features_float(nodes, relations, xs) && features_fit(
        nodes,
        relations,
        xs,
    ) && edges_present(relations, edges) && edges_in_range(relations, xs, edges) {
        assert forall|i: int| 0 <= i < nodes.len() implies features_for(
            xs,
            (#[trigger] nodes[i]).0.code(),
            nodes[i].1.0,
        ) by {
            assert(a[i] == (nodes[i].0, Some(nodes[i].1.0)));
        }
        assert forall|j: int| 0 <= j < relations.len() implies relation_ready(
            xs,
            edges,
            (#[trigger] relations[j]).0,
            relations[j].1.0,
        ) by {
            assert(b[j] == (relations[j].0.0, Some(relations[j].1.0)));
            assert(c[j] == (relations[j].0.2, None::<usize>));
        }
    }
}

/// Which failure a relational convolution reports. The checks run before any
/// arithmetic and in this order: every node type that the layer reads has
/// features (`MissingFeatures`), they are floating-point numbers
/// (`NotFloatingPoint`), they are matrices with rows of the right width
/// (`Rank`, `FeatureDim`), every relation has an edge list (`MissingEdges`),
/// every edge runs between rows (`NodeIndexOutOfRange`). Each failure is
/// reported exactly where its check is the first to fail; after the checks,
/// only the tensor runtime can refuse.
pub open spec fn hetero_refusal<N: TypeKey, E: TypeKey>(
    nodes: Seq<(N, (usize, usize))>,
    relations: Seq<((N, E, N), (usize, usize))>,
    xs: Seq<(N, Tensor)>,
    edges: Seq<((N, E, N), EdgeIndex)>,
    e: GnnError,
) -> bool {
    let present = features_present(nodes, relations, xs);
    let float = features_float(nodes, relations, xs);
    let fit = features_fit(nodes, relations, xs);
    let listed = edges_present(relations, edges);
    match e {
        GnnError::Backend(_) => hetero_ready(nodes, relations, xs, edges),
        GnnError::MissingFeatures => !present,
        GnnError::NotFloatingPoint => present && !float,
        GnnError::Rank { expected, found } => present && float && !fit && expected == 2 && found != 2,
        GnnError::FeatureDim { expected, found } => present && float && !fit && expected != found,
        GnnError::MissingEdges => present && float && fit && !listed,
        GnnError::NodeIndexOutOfRange { num_nodes } => present && float && fit && listed && !edges_in_range(
            relations,
            xs,
            edges,
        ),
        _ => false,
    }
}

/// Whether `xs` holds features for every node type that `wanted` lists.
fn present_in<N: TypeKey>(wanted: &Vec<(N, Option<usize>)>, xs: &Vec<(N, Tensor)>) -> (ok: bool)
    ensures
        ok == all_present(wanted@, xs@),
{
    let mut k: usize = 0;
    while k < wanted.len()
        invariant
            k <= wanted@.len(),
            forall|i: int| 0 <= i < k ==> lookup(xs@, (#[trigger] wanted@[i]).0.code()) is Some,
        decreases wanted@.len() - k,
    {
        if find_key(xs.as_slice(), &wanted[k].0).is_none() {
            assert(lookup(xs@, wanted@[k as int].0.code()) is None);
            return false;
        }
        k += 1;
    }
    true
}

/// Whether the features that `xs` holds for the node types that `wanted`
/// lists are floating-point numbers.
fn float_in<N: TypeKey>(wanted: &Vec<(N, Option<usize>)>, xs: &Vec<(N, Tensor)>) -> (ok: bool)
    requires
        all_present(wanted@, xs@),
    ensures
        ok == all_float(wanted@, xs@),
{
    let mut k: usize = 0;
    while k < wanted.len()
        invariant
            k <= wanted@.len(),
            all_present(wanted@, xs@),
            forall|i: int|
                0 <= i < k ==> tensor_is_float(lookup(xs@, (#[trigger] wanted@[i]).0.code())->Some_0),
        decreases wanted@.len() - k,
    {
        assert(lookup(xs@, wanted@[k as int].0.code()) is Some);
        let at = key_position(xs.as_slice(), &wanted[k].0);
        if !is_float(&xs[at].1) {
            return false;
        }
        k += 1;
    }
    true
}

/// Accepts the features that `xs` holds for the node types that `wanted`
/// lists where they are matrices with rows of the wanted width.
fn fit_in<N: TypeKey>(wanted: &Vec<(N, Option<usize>)>, xs: &Vec<(N, Tensor)>) -> (r: Result<(), GnnError>)
    requires
        all_present(wanted@, xs@),
    ensures
        match r {
            Ok(_) => all_fit(wanted@, xs@),
            Err(GnnError::Rank { expected, found }) => !all_fit(wanted@, xs@) && expected == 2 && found != 2,
            Err(GnnError::FeatureDim { expected, found }) => !all_fit(wanted@, xs@) && expected != found,
            Err(_) => false,
        },
{
    let mut k: usize = 0;
    while k < wanted.len()
        invariant
            k <= wanted@.len(),
            all_present(wanted@, xs@),
            forall|i: int|
                0 <= i < k ==> fits(
                    tensor_dims(lookup(xs@, (#[trigger] wanted@[i]).0.code())->Some_0),
                    wanted@[i].1,
                ),
        decreases wanted@.len() - k,
    {
        assert(lookup(xs@, wanted@[k as int].0.code()) is Some);
        let at = key_position(xs.as_slice(), &wanted[k].0);
        let d = dims(&xs[at].1);
        if d.len() != 2 {
            return Err(GnnError::Rank { expected: 2, found: d.len() });
        }
        if let Some(width) = wanted[k].1 {
            if d[1] != width {
                return Err(GnnError::FeatureDim { expected: width, found: d[1] });
            }
        }
        k += 1;
    }
    Ok(())
}

/// Finds the features of the node type `key` and checks that they are a
/// matrix with rows of width `width`. Hands back their position in `xs` and
/// their number of rows.
pub fn fitting_features<N: TypeKey>(xs: &Vec<(N, Tensor)>, key: &N, width: usize) -> (r: Result<(usize, usize), GnnError>)
    ensures
        match r {
            Ok((at, rows)) => {
                &&& features_for(xs@, key.code(), width)
                &&& position(xs@, key.code()) == Some(at as int)
                &&& at < xs@.len()
                &&& rows == rows_of(xs@, key.code())
            },
            Err(GnnError::MissingFeatures) => lookup(xs@, key.code()) is None,
            Err(GnnError::NotFloatingPoint) => lookup(xs@, key.code()) matches Some(x) && !tensor_is_float(x),
            Err(GnnError::Rank { expected, found }) => {
                &&& lookup(xs@, key.code()) matches Some(x) && tensor_is_float(x) && tensor_dims(x).len() != 2
                    && found == tensor_dims(x).len()
                &&& expected == 2
            },
            Err(GnnError::FeatureDim { expected, found }) => {
                &&& lookup(xs@, key.code()) matches Some(x) && tensor_is_float(x) && tensor_dims(x).len() == 2
                    && tensor_dims(x)[1] != width && found == tensor_dims(x)[1]
                &&& expected == width
            },
            Err(_) => false,
        },
{
    let at = match find_key(xs.as_slice(), key) {
        Some(at) => at,
        None => {
            return Err(GnnError::MissingFeatures);
        },
    };
    if !is_float(&xs[at].1) {
        return Err(GnnError::NotFloatingPoint);
    }
    let d = dims(&xs[at].1);
    if d.len() != 2 {
        return Err(GnnError::Rank { expected: 2, found: d.len() });
    }
    if d[1] != width {
        return Err(GnnError::FeatureDim { expected: width, found: d[1] });
    }
    Ok((at, d[0]))
}

/// One relational graph convolution. Every node type has a root weight, and
/// every relation has a weight of its own. The output of a node type is the
/// root transform of its own features, plus, for every relation that targets
/// it, the mean over the incoming edges of the source features transformed
/// by the relation's weight.
pub struct HeteroGcnConv<N: TypeKey, E: TypeKey> {
    nodes: Vec<(N, (usize, usize))>,
    node_ws: Vec<Tensor>,
    relations: Vec<((N, E, N), (usize, usize))>,
    edge_ws: Vec<Tensor>,
}

impl<N: TypeKey, E: TypeKey> HeteroGcnConv<N, E> {
    #[verifier::type_invariant]
    closed spec fn consistent(self) -> bool {
        &&& self.node_ws@.len() == self.nodes@.len()
        &&& self.edge_ws@.len() == self.relations@.len()
        &&& distinct_keys(self.nodes@)
        &&& forall|i: int|
            0 <= i < self.nodes@.len() ==> tensor_dims(#[trigger] self.node_ws@[i]) == seq![
                self.nodes@[i].1.0,
                self.nodes@[i].1.1,
            ]
        &&& forall|j: int|
            0 <= j < self.relations@.len() ==> {
                &&& tensor_dims(#[trigger] self.edge_ws@[j]) == seq![self.relations@[j].1.0, self.relations@[j].1.1]
                &&& position(self.nodes@, self.relations@[j].0.2.code()) matches Some(i) && 0 <= i
                    < self.nodes@.len() && self.nodes@[i].1.1 == self.relations@[j].1.1
            }
    }

    /// The node types of the layer, each with the width of the rows it takes
    /// and the width of the rows it returns.
    pub closed spec fn spec_nodes(&self) -> Seq<(N, (usize, usize))> {
        self.nodes@
    }

    /// The relations of the layer, each with the width of the source rows it
    /// takes and the width of the target rows it adds to.
    pub closed spec fn spec_relations(&self) -> Seq<((N, E, N), (usize, usize))> {
        self.relations@
    }

    /// The root weights, one per node type, in the order of `spec_nodes`.
    pub closed spec fn spec_node_weights(&self) -> Seq<Tensor> {
        self.node_ws@
    }

    /// The relation weights, one per relation, in the order of
    /// `spec_relations`.
    pub closed spec fn spec_edge_weights(&self) -> Seq<Tensor> {
        self.edge_ws@
    }

    /// What the layer returns for the features `xs` and the edge lists
    /// `edges`: the root transforms after all relations have passed their
    /// messages. `None` where the layer cannot run on them or the tensor
    /// runtime refuses a step.
    pub open spec fn forwarded(&self, xs: Seq<(N, Tensor)>, edges: Seq<((N, E, N), EdgeIndex)>) -> Option<
        Seq<(N, Tensor)>,
    > {
        if hetero_ready(self.spec_nodes(), self.spec_relations(), xs, edges) {
            match roots_of(self.spec_nodes(), self.spec_node_weights(), xs, self.spec_nodes().len()) {
                Some(roots) => after_messages(
                    self.spec_nodes(),
                    self.spec_relations(),
                    self.spec_edge_weights(),
                    xs,
                    edges,
                    roots,
                    self.spec_relations().len(),
                ),
                None => None,
            }
        } else {
            None
        }
    }

    /// The layer with the root weights `node_ws` and the relation weights
    /// `edge_ws`.
    ///
    /// The weights are accepted exactly if they are `valid_weights`. A node
    /// type or relation that occurs twice is reported as `DuplicateKey`, a
    /// weight that is no matrix as `Rank`, a relation whose target type has
    /// no root weight as `UnknownNodeType`, and a relation whose weight
    /// returns rows of another width than the root weight of its target as
    /// `ShapeMismatch`.
    pub fn new(node_ws: Vec<(N, Tensor)>, edge_ws: Vec<((N, E, N), Tensor)>) -> (r: Result<Self, GnnError>)
        ensures
            match r {
                Ok(conv) => {
                    &&& valid_weights(node_ws@, edge_ws@)
                    &&& conv.spec_nodes().len() == node_ws@.len()
                    &&& forall|i: int|
                        0 <= i < node_ws@.len() ==> #[trigger] conv.spec_nodes()[i] == (
                            node_ws@[i].0,
                            (tensor_dims(node_ws@[i].1)[0], tensor_dims(node_ws@[i].1)[1]),
                        )
                    &&& conv.spec_node_weights().len() == node_ws@.len()
                    &&& forall|i: int|
                        0 <= i < node_ws@.len() ==> #[trigger] conv.spec_node_weights()[i] == node_ws@[i].1
                    &&& conv.spec_edge_weights().len() == edge_ws@.len()
                    &&& forall|j: int|
                        0 <= j < edge_ws@.len() ==> #[trigger] conv.spec_edge_weights()[j] == edge_ws@[j].1
                    &&& conv.spec_relations().len() == edge_ws@.len()
                    &&& forall|j: int|
                        0 <= j < edge_ws@.len() ==> #[trigger] conv.spec_relations()[j] == (
                            edge_ws@[j].0,
                            (tensor_dims(edge_ws@[j].1)[0], tensor_dims(edge_ws@[j].1)[1]),
                        )
                },
                Err(GnnError::DuplicateKey { index }) => {
                    &&& !valid_weights(node_ws@, edge_ws@)
                    &&& twice_at(node_ws@, index as int) || twice_relation_at(edge_ws@, index as int)
                },
                Err(GnnError::Rank { expected, found }) => {
                    &&& !valid_weights(node_ws@, edge_ws@)
                    &&& expected == 2
                    &&& found != 2
                    &&& (exists|i: int| 0 <= i < node_ws@.len() && tensor_dims((#[trigger] node_ws@[i]).1).len() == found)
                        || (exists|j: int|
                        0 <= j < edge_ws@.len() && tensor_dims((#[trigger] edge_ws@[j]).1).len() == found)
                },
                Err(GnnError::UnknownNodeType { index }) => {
                    &&& !valid_weights(node_ws@, edge_ws@)
                    &&& index < edge_ws@.len()
                    &&& lookup(node_ws@, edge_ws@[index as int].0.2.code()) is None
                },
                Err(GnnError::ShapeMismatch { expected_dims, found_dims }) => {
                    &&& !valid_weights(node_ws@, edge_ws@)
                    &&& found_dims@.len() == 2
                    &&& exists|j: int|
                        0 <= j < edge_ws@.len() && found_dims@ == tensor_dims((#[trigger] edge_ws@[j]).1)
                            && lookup(node_ws@, edge_ws@[j].0.2.code()) is Some && expected_dims@ == seq![
                            found_dims@[0],
                            tensor_dims(lookup(node_ws@, edge_ws@[j].0.2.code())->Some_0)[1],
                        ] && found_dims@[1] != tensor_dims(lookup(node_ws@, edge_ws@[j].0.2.code())->Some_0)[1]
                },
                Err(_) => false,
            },
    {
        let mut nodes: Vec<(N, (usize, usize))> = Vec::new();
        let mut node_tensors: Vec<Tensor> = Vec::new();
        let mut i: usize = 0;
        while i < node_ws.len()
            invariant
                i <= node_ws@.len(),
                nodes@.len() == i,
                node_tensors@.len() == i,
                distinct_keys(nodes@),
                forall|k: int|
                    0 <= k < i ==> {
                        &&& (#[trigger] nodes@[k]) == (
                            node_ws@[k].0,
                            (tensor_dims(node_ws@[k].1)[0], tensor_dims(node_ws@[k].1)[1]),
                        )
                        &&& tensor_dims(node_ws@[k].1).len() == 2
                        &&& node_tensors@[k] == node_ws@[k].1
                    },
            decreases node_ws@.len() - i,
        {
            let key = node_ws[i].0;
            if let Some(before) = find_key(nodes.as_slice(), &key) {
                assert(node_ws@[before as int].0.code() == node_ws@[i as int].0.code()) by {
                    lemma_position(nodes@, key.code());
                }
                assert(twice_at(node_ws@, i as int));
                return Err(GnnError::DuplicateKey { index: i });
            }
            let d = dims(&node_ws[i].1);
            if d.len() != 2 {
                assert(tensor_dims(node_ws@[i as int].1).len() == d@.len());
                return Err(GnnError::Rank { expected: 2, found: d.len() });
            }
            proof {
                lemma_position(nodes@, key.code());
                assert forall|a: int, b: int| 0 <= a < b < nodes@.push((key, (d@[0], d@[1]))).len() implies (
                #[trigger] nodes@.push((key, (d@[0], d@[1])))[a]).0.code() != (#[trigger] nodes@.push(
                    (key, (d@[0], d@[1])),
                )[b]).0.code() by {
                    if b == nodes@.len() {
                        assert(nodes@[a].0.code() != key.code());
                    }
                }
            }
            nodes.push((key, (d[0], d[1])));
            node_tensors.push(share(&node_ws[i].1));
            i += 1;
        }
        assert(distinct_keys(node_ws@)) by {
            assert forall|a: int, b: int| 0 <= a < b < node_ws@.len() implies (#[trigger] node_ws@[a]).0.code() != (
            #[trigger] node_ws@[b]).0.code() by {
                assert(nodes@[a].0.code() != nodes@[b].0.code());
            }
        }
        assert(nodes@.len() == node_ws@.len());
        assert forall|k: int| 0 <= k < node_ws@.len() implies (#[trigger] nodes@[k]) == (
            node_ws@[k].0,
            (tensor_dims(node_ws@[k].1)[0], tensor_dims(node_ws@[k].1)[1]),
        ) && tensor_dims(node_ws@[k].1).len() == 2 by {}
        let mut relations: Vec<((N, E, N), (usize, usize))> = Vec::new();
        let mut edge_tensors: Vec<Tensor> = Vec::new();
        let mut j: usize = 0;
        while j < edge_ws.len()
            invariant
                j <= edge_ws@.len(),
                relations@.len() == j,
                edge_tensors@.len() == j,
                nodes@.len() == node_ws@.len(),
                distinct_relations(relations@),
                forall|k: int|
                    0 <= k < node_ws@.len() ==> {
                        &&& (#[trigger] nodes@[k]) == (
                            node_ws@[k].0,
                            (tensor_dims(node_ws@[k].1)[0], tensor_dims(node_ws@[k].1)[1]),
                        )
                        &&& tensor_dims(node_ws@[k].1).len() == 2
                    },
                forall|k: int|
                    0 <= k < j ==> {
                        &&& (#[trigger] relations@[k]) == (
                            edge_ws@[k].0,
                            (tensor_dims(edge_ws@[k].1)[0], tensor_dims(edge_ws@[k].1)[1]),
                        )
                        &&& edge_tensors@[k] == edge_ws@[k].1
                        &&& relation_fits(node_ws@, edge_ws@[k])
                        &&& position(nodes@, relations@[k].0.2.code()) matches Some(at) && 0 <= at < nodes@.len()
                            && nodes@[at].1.1 == relations@[k].1.1
                    },
            decreases edge_ws@.len() - j,
        {
            let relation = edge_ws[j].0;
            proof {
                lemma_same_positions(node_ws@, nodes@, relation.2.code());
            }
            if let Some(before) = find_relation(relations.as_slice(), &relation) {
                assert(relation_code(edge_ws@[before as int].0) == relation_code(edge_ws@[j as int].0)) by {
                    crate::nn::typed::lemma_relation_position(relations@, relation_code(relation));
                }
                assert(twice_relation_at(edge_ws@, j as int));
                return Err(GnnError::DuplicateKey { index: j });
            }
            let d = dims(&edge_ws[j].1);
            if d.len() != 2 {
                assert(!relation_fits(node_ws@, edge_ws@[j as int]));
                assert(tensor_dims(edge_ws@[j as int].1).len() == d@.len());
                return Err(GnnError::Rank { expected: 2, found: d.len() });
            }
            let at = match find_key(nodes.as_slice(), &relation.2) {
                Some(at) => at,
                None => {
                    assert(!relation_fits(node_ws@, edge_ws@[j as int]));
                    return Err(GnnError::UnknownNodeType { index: j });
                },
            };
            if nodes[at].1.1 != d[1] {
                assert(!relation_fits(node_ws@, edge_ws@[j as int]));
                proof {
                    lemma_position(nodes@, relation.2.code());
                    assert(lookup(node_ws@, relation.2.code()) == Some(node_ws@[at as int].1));
                    assert(nodes@[at as int].1.1 == tensor_dims(node_ws@[at as int].1)[1]);
                    assert(tensor_dims(edge_ws@[j as int].1) == d@);
                }
                return Err(
                    GnnError::ShapeMismatch { expected_dims: vec![d[0], nodes[at].1.1], found_dims: d },
                );
            }
            proof {
                crate::nn::typed::lemma_relation_position(relations@, relation_code(relation));
                let next = relations@.push((relation, (d@[0], d@[1])));
                assert forall|a: int, b: int| 0 <= a < b < next.len() implies relation_code((#[trigger] next[a]).0)
                    != relation_code((#[trigger] next[b]).0) by {
                    if b == relations@.len() {
                        assert(relation_code(relations@[a].0) != relation_code(relation));
                    }
                }
            }
            relations.push((relation, (d[0], d[1])));
            edge_tensors.push(share(&edge_ws[j].1));
            j += 1;
        }
        assert(distinct_relations(edge_ws@)) by {
            assert forall|a: int, b: int| 0 <= a < b < edge_ws@.len() implies relation_code(
                (#[trigger] edge_ws@[a]).0,
            ) != relation_code((#[trigger] edge_ws@[b]).0) by {
                assert(relation_code(relations@[a].0) != relation_code(relations@[b].0));
            }
        }
        proof {
            assert forall|i: int| 0 <= i < node_ws@.len() implies tensor_dims((#[trigger] node_ws@[i]).1).len()
                == 2 by {
                assert(nodes@[i] == (node_ws@[i].0, (tensor_dims(node_ws@[i].1)[0], tensor_dims(node_ws@[i].1)[1])));
            }
            assert forall|j: int| 0 <= j < edge_ws@.len() implies relation_fits(node_ws@, #[trigger] edge_ws@[j]) by {
                assert(relations@[j] == (
                    edge_ws@[j].0,
                    (tensor_dims(edge_ws@[j].1)[0], tensor_dims(edge_ws@[j].1)[1]),
                ));
            }
            assert forall|i: int| 0 <= i < nodes@.len() implies tensor_dims(#[trigger] node_tensors@[i]) == seq![
                nodes@[i].1.0,
                nodes@[i].1.1,
            ] by {
                assert(nodes@[i] == (node_ws@[i].0, (tensor_dims(node_ws@[i].1)[0], tensor_dims(node_ws@[i].1)[1])));
                assert(tensor_dims(node_ws@[i].1) =~= seq![nodes@[i].1.0, nodes@[i].1.1]);
            }
            assert forall|j: int| 0 <= j < relations@.len() implies tensor_dims(#[trigger] edge_tensors@[j]) == seq![
                relations@[j].1.0,
                relations@[j].1.1,
            ] by {
                assert(relations@[j] == (
                    edge_ws@[j].0,
                    (tensor_dims(edge_ws@[j].1)[0], tensor_dims(edge_ws@[j].1)[1]),
                ));
                assert(relation_fits(node_ws@, edge_ws@[j]));
                assert(tensor_dims(edge_ws@[j].1) =~= seq![relations@[j].1.0, relations@[j].1.1]);
            }
            assert forall|j: int| 0 <= j < relations@.len() implies (position(
                nodes@,
                (#[trigger] relations@[j]).0.2.code(),
            ) matches Some(i) && 0 <= i < nodes@.len() && nodes@[i].1.1 == relations@[j].1.1) by {
                assert(relations@[j] == (
                    edge_ws@[j].0,
                    (tensor_dims(edge_ws@[j].1)[0], tensor_dims(edge_ws@[j].1)[1]),
                ));
            }
        }
        Ok(HeteroGcnConv { nodes, node_ws: node_tensors, relations, edge_ws: edge_tensors })
    }

    /// Runs the checks that precede a forward pass: the layer can run on
    /// `xs` and `edge_index` exactly where they pass, and the failure says
    /// which check was the first to fail.
    pub fn check_ready(&self, xs: &Vec<(N, Tensor)>, edge_index: &Vec<((N, E, N), EdgeIndex)>) -> (r: Result<(), GnnError>)
        ensures
            match r {
                Ok(_) => hetero_ready(self.spec_nodes(), self.spec_relations(), xs@, edge_index@),
                Err(GnnError::Backend(_)) => false,
                Err(e) => hetero_refusal(self.spec_nodes(), self.spec_relations(), xs@, edge_index@, e),
            },
    {
        let ghost nodes = self.nodes@;
        let ghost relations = self.relations@;
        let mut by_nodes: Vec<(N, Option<usize>)> = Vec::new();
        let mut i: usize = 0;
        while i < self.nodes.len()
            invariant
                i <= self.nodes@.len(),
                by_nodes@ == wanted_by_nodes(self.nodes@).take(i as int),
            decreases self.nodes@.len() - i,
        {
            by_nodes.push((self.nodes[i].0, Some(self.nodes[i].1.0)));
            assert(by_nodes@ =~= wanted_by_nodes(self.nodes@).take(i + 1));
            i += 1;
        }
        assert(by_nodes@ =~= wanted_by_nodes(nodes));
        let mut by_sources: Vec<(N, Option<usize>)> = Vec::new();
        let mut by_targets: Vec<(N, Option<usize>)> = Vec::new();
        let mut j: usize = 0;
        while j < self.relations.len()
            invariant
                j <= self.relations@.len(),
                by_sources@ == wanted_by_sources(self.relations@).take(j as int),
                by_targets@ == wanted_by_targets(self.relations@).take(j as int),
            decreases self.relations@.len() - j,
        {
            by_sources.push((self.relations[j].0.0, Some(self.relations[j].1.0)));
            by_targets.push((self.relations[j].0.2, None));
            assert(by_sources@ =~= wanted_by_sources(self.relations@).take(j + 1));
            assert(by_targets@ =~= wanted_by_targets(self.relations@).take(j + 1));
            j += 1;
        }
        assert(by_sources@ =~= wanted_by_sources(relations));
        assert(by_targets@ =~= wanted_by_targets(relations));
        if !(present_in(&by_nodes, xs) && present_in(&by_sources, xs) && present_in(&by_targets, xs)) {
            return Err(GnnError::MissingFeatures);
        }
        if !(float_in(&by_nodes, xs) && float_in(&by_sources, xs) && float_in(&by_targets, xs)) {
            return Err(GnnError::NotFloatingPoint);
        }
        fit_in(&by_nodes, xs)?;
        fit_in(&by_sources, xs)?;
        fit_in(&by_targets, xs)?;
        let mut j: usize = 0;
        while j < self.relations.len()
            invariant
                j <= self.relations@.len(),
                relations == self.relations@,
                nodes == self.nodes@,
                features_present(nodes, relations, xs@),
                features_float(nodes, relations, xs@),
                features_fit(nodes, relations, xs@),
                forall|k: int|
                    0 <= k < j ==> lookup_relation(edge_index@, relation_code((#[trigger] relations[k]).0)) is Some,
            decreases self.relations@.len() - j,
        {
            if find_relation(edge_index.as_slice(), &self.relations[j].0).is_none() {
                assert(lookup_relation(edge_index@, relation_code(relations[j as int].0)) is None);
                return Err(GnnError::MissingEdges);
            }
            j += 1;
        }
        let mut j: usize = 0;
        while j < self.relations.len()
            invariant
                j <= self.relations@.len(),
                relations == self.relations@,
                nodes == self.nodes@,
                features_present(nodes, relations, xs@),
                features_float(nodes, relations, xs@),
                features_fit(nodes, relations, xs@),
                edges_present(relations, edge_index@),
                forall|k: int|
                    0 <= k < j ==> {
                        let relation = (#[trigger] relations[k]).0;
                        let graph = lookup_relation(edge_index@, relation_code(relation))->Some_0;
                        &&& row_in_range(sources(graph@), rows_of(xs@, relation.0.code()) as int)
                        &&& row_in_range(targets(graph@), rows_of(xs@, relation.2.code()) as int)
                    },
            decreases self.relations@.len() - j,
        {
            let relation = self.relations[j].0;
            proof {
                assert(wanted_by_sources(relations)[j as int].0 == relation.0);
                assert(wanted_by_targets(relations)[j as int].0 == relation.2);
                assert(lookup_relation(edge_index@, relation_code(relations[j as int].0)) is Some);
                assert(fits(
                    tensor_dims(lookup(xs@, wanted_by_sources(relations)[j as int].0.code())->Some_0),
                    wanted_by_sources(relations)[j as int].1,
                ));
                assert(fits(
                    tensor_dims(lookup(xs@, wanted_by_targets(relations)[j as int].0.code())->Some_0),
                    wanted_by_targets(relations)[j as int].1,
                ));
            }
            let from = key_position(xs.as_slice(), &relation.0);
            let to = key_position(xs.as_slice(), &relation.2);
            let at = relation_key_position(edge_index.as_slice(), &relation);
            let source_rows = dims(&xs[from].1)[0];
            let target_rows = dims(&xs[to].1)[0];
            let graph = &edge_index[at].1;
            if !all_below(graph.source_row(), source_rows) {
                return Err(GnnError::NodeIndexOutOfRange { num_nodes: source_rows });
            }
            if !all_below(graph.target_row(), target_rows) {
                return Err(GnnError::NodeIndexOutOfRange { num_nodes: target_rows });
            }
            j += 1;
        }
        proof {
            lemma_ready(nodes, relations, xs@, edge_index@);
        }
        Ok(())
    }

    /// The root transform: for every node type of the layer, its features
    /// times its root weight.
    ///
    /// The result holds one tensor per node type, in the order of the layer's
    /// node types. The call succeeds exactly where the tensor runtime accepts
    /// every product.
    pub fn transform_roots(&self, xs: &Vec<(N, Tensor)>) -> (r: Result<Vec<(N, Tensor)>, GnnError>)
        requires
            forall|i: int|
                0 <= i < self.spec_nodes().len() ==> features_for(
                    xs@,
                    (#[trigger] self.spec_nodes()[i]).0.code(),
                    self.spec_nodes()[i].1.0,
                ),
        ensures
            match r {
                Ok(roots) => {
                    &&& roots_of(self.spec_nodes(), self.spec_node_weights(), xs@, self.spec_nodes().len()) == Some(
                        roots@,
                    )
                    &&& shaped_like(self.spec_nodes(), xs@, roots@)
                },
                Err(GnnError::Backend(_)) => roots_of(
                    self.spec_nodes(),
                    self.spec_node_weights(),
                    xs@,
                    self.spec_nodes().len(),
                ) is None,
                Err(_) => false,
            },
    {
        proof {
            use_type_invariant(self);
            assert forall|k: int| 0 <= k < self.nodes@.len() implies features_for(
                xs@,
                (#[trigger] self.nodes@[k]).0.code(),
                self.nodes@[k].1.0,
            ) by {
                assert(self.spec_nodes()[k] == self.nodes@[k]);
            }
        }
        let mut roots: Vec<(N, Tensor)> = Vec::new();
        let mut i: usize = 0;
        while i < self.nodes.len()
            invariant
                i <= self.nodes@.len(),
                self.node_ws@.len() == self.nodes@.len(),
                roots@.len() == i,
                roots_of(self.nodes@, self.node_ws@, xs@, i as nat) == Some(roots@),
                forall|k: int|
                    0 <= k < self.nodes@.len() ==> features_for(
                        xs@,
                        (#[trigger] self.nodes@[k]).0.code(),
                        self.nodes@[k].1.0,
                    ),
                forall|k: int|
                    0 <= k < self.nodes@.len() ==> tensor_dims(#[trigger] self.node_ws@[k]) == seq![
                        self.nodes@[k].1.0,
                        self.nodes@[k].1.1,
                    ],
                forall|k: int|
                    0 <= k < i ==> {
                        &&& (#[trigger] roots@[k]).0.code() == self.nodes@[k].0.code()
                        &&& tensor_dims(roots@[k].1) == seq![rows_of(xs@, self.nodes@[k].0.code()), self.nodes@[k].1.1]
                        &&& tensor_is_float(roots@[k].1)
                    },
            decreases self.nodes@.len() - i,
        {
            let key = self.nodes[i].0;
            assert(features_for(xs@, self.nodes@[i as int].0.code(), self.nodes@[i as int].1.0));
            let at = key_position(xs.as_slice(), &key);
            let root = match from_backend(matmul(&xs[at].1, &self.node_ws[i])) {
                Ok(root) => root,
                Err(e) => {
                    proof {
                        assert(roots_of(self.nodes@, self.node_ws@, xs@, (i + 1) as nat) is None);
                        lemma_roots_failed(self.nodes@, self.node_ws@, xs@, (i + 1) as nat, self.nodes@.len());
                    }
                    return Err(e);
                },
            };
            assert(tensor_dims(root) =~= seq![rows_of(xs@, key.code()), self.nodes@[i as int].1.1]);
            roots.push((key, root));
            i += 1;
        }
        Ok(roots)
    }

    /// Message passing: for every relation of the layer, the features of its
    /// source type are transformed by the relation's weight, and every edge
    /// adds the transformed row of its source, divided by the in-degree of
    /// its target, to the target's row of `roots`.
    ///
    /// The result is `roots` after every relation, in the order of the
    /// layer's relations, has replaced the tensor of its target type by the
    /// mean aggregation of its messages into it. A node type that no relation
    /// targets keeps its tensor of `roots`, and a node that no edge of any
    /// relation enters keeps its row. The call succeeds exactly where the
    /// tensor runtime accepts every step.
    pub fn pass_messages(
        &self,
        xs: &Vec<(N, Tensor)>,
        edge_index: &Vec<((N, E, N), EdgeIndex)>,
        roots: Vec<(N, Tensor)>,
    ) -> (r: Result<Vec<(N, Tensor)>, GnnError>)
        requires
            hetero_ready(self.spec_nodes(), self.spec_relations(), xs@, edge_index@),
            shaped_like(self.spec_nodes(), xs@, roots@),
        ensures
            match r {
                Ok(out) => {
                    &&& shaped_like(self.spec_nodes(), xs@, out@)
                    &&& after_messages(
                        self.spec_nodes(),
                        self.spec_relations(),
                        self.spec_edge_weights(),
                        xs@,
                        edge_index@,
                        roots@,
                        self.spec_relations().len(),
                    ) == Some(out@)
                    &&& keeps_roots(self.spec_nodes(), self.spec_relations(), edge_index@, roots@, out@)
                },
                Err(GnnError::Backend(_)) => after_messages(
                    self.spec_nodes(),
                    self.spec_relations(),
                    self.spec_edge_weights(),
                    xs@,
                    edge_index@,
                    roots@,
                    self.spec_relations().len(),
                ) is None,
                Err(_) => false,
            },
    {
        proof {
            use_type_invariant(self);
        }
        let ghost nodes = self.nodes@;
        let ghost relations = self.relations@;
        let ghost weights = self.edge_ws@;
        let mut out = roots;
        let mut j: usize = 0;
        proof {
            assert forall|i: int| 0 <= i < out@.len() implies tensor_rows(#[trigger] out@[i].1).len() == tensor_rows(
                roots@[i].1,
            ).len() by {}
        }
        while j < self.relations.len()
            invariant
                j <= self.relations@.len(),
                nodes == self.nodes@,
                relations == self.relations@,
                nodes == self.spec_nodes(),
                relations == self.spec_relations(),
                self.edge_ws@.len() == relations.len(),
                distinct_keys(nodes),
                hetero_ready(nodes, relations, xs@, edge_index@),
                shaped_like(nodes, xs@, roots@),
                shaped_like(nodes, xs@, out@),
                forall|k: int|
                    0 <= k < relations.len() ==> {
                        &&& tensor_dims(#[trigger] self.edge_ws@[k]) == seq![relations[k].1.0, relations[k].1.1]
                        &&& position(nodes, relations[k].0.2.code()) matches Some(i) && 0 <= i < nodes.len()
                            && nodes[i].1.1 == relations[k].1.1
                    },
                forall|i: int|
                    0 <= i < out@.len() ==> tensor_rows(#[trigger] out@[i].1).len() == tensor_rows(roots@[i].1).len(),
                keeps_roots(nodes, relations.take(j as int), edge_index@, roots@, out@),
                weights == self.edge_ws@,
                weights == self.spec_edge_weights(),
                after_messages(nodes, relations, weights, xs@, edge_index@, roots@, j as nat) == Some(out@),
            decreases self.relations@.len() - j,
        {
            let relation = self.relations[j].0;
            assert(relation_ready(xs@, edge_index@, relations[j as int].0, relations[j as int].1.0));
            let from = key_position(xs.as_slice(), &relation.0);
            let graph_at = relation_key_position(edge_index.as_slice(), &relation);
            proof {
                assert(tensor_dims(self.edge_ws@[j as int]) == seq![relations[j as int].1.0, relations[j as int].1.1]);
                assert(position(nodes, relation.2.code()) is Some);
                assert forall|i: int| 0 <= i < nodes.len() implies (#[trigger] nodes[i]).0.code() == out@[i].0.code() by {
                    assert(out@[i].0.code() == nodes[i].0.code());
                }
                lemma_same_positions(nodes, out@, relation.2.code());
            }
            let to = key_position(out.as_slice(), &relation.2);
            let messages = match from_backend(matmul(&xs[from].1, &self.edge_ws[j])) {
                Ok(messages) => messages,
                Err(e) => {
                    proof {
                        assert(after_messages(nodes, relations, weights, xs@, edge_index@, roots@, (j + 1) as nat)
                            is None);
                        lemma_messages_failed(
                            nodes,
                            relations,
                            weights,
                            xs@,
                            edge_index@,
                            roots@,
                            (j + 1) as nat,
                            relations.len(),
                        );
                    }
                    return Err(e);
                },
            };
            assert(tensor_dims(messages) =~= seq![rows_of(xs@, relation.0.code()), relations[j as int].1.1]);
            assert(slice_shape(tensor_dims(messages)) =~= slice_shape(tensor_dims(out@[to as int].1)));
            let ghost before = out@;
            let key = out[to].0;
            let sum = match mean_agg(&messages, &edge_index[graph_at].1, &out[to].1) {
                Ok(sum) => sum,
                Err(e) => {
                    proof {
                        assert(position(nodes, relation.2.code()) == Some(to as int));
                        assert(lookup_relation(edge_index@, relation_code(relation)) == Some(
                            edge_index@[graph_at as int].1,
                        ));
                        assert(after_messages(nodes, relations, weights, xs@, edge_index@, roots@, (j + 1) as nat)
                            is None);
                        lemma_messages_failed(
                            nodes,
                            relations,
                            weights,
                            xs@,
                            edge_index@,
                            roots@,
                            (j + 1) as nat,
                            relations.len(),
                        );
                    }
                    return Err(e);
                },
            };
            out.set(to, (key, sum));
            proof {
                let graph = edge_index@[graph_at as int].1;
                assert(position(nodes, relation.2.code()) == Some(to as int));
                assert(lookup_relation(edge_index@, relation_code(relation)) == Some(graph));
                assert(out@ =~= before.update(to as int, (before[to as int].0, sum)));
                assert(after_messages(nodes, relations, weights, xs@, edge_index@, roots@, (j + 1) as nat) == Some(
                    out@,
                ));
                assert(keeps_unreached(graph@, before[to as int].1, sum));
                assert(relations.take(j + 1).drop_last() =~= relations.take(j as int));
                assert(relations.take(j + 1).last() == relations[j as int]);
                assert forall|i: int|
                    0 <= i < out@.len() && i < nodes.len() && !is_target(
                        relations.take(j + 1),
                        nodes[i].0.code(),
                    ) implies (#[trigger] out@[i]).1 == roots@[i].1 by {
                    if is_target(relations.take(j as int), nodes[i].0.code()) {
                        let w = choose|w: int|
                            0 <= w < relations.take(j as int).len() && (#[trigger] relations.take(
                                j as int,
                            )[w]).0.2.code() == nodes[i].0.code();
                        assert(relations.take(j + 1)[w].0.2.code() == nodes[i].0.code());
                    }
                    if i == to {
                        assert(relations.take(j + 1)[j as int].0.2.code() == nodes[i].0.code());
                    }
                    assert(before[i].1 == roots@[i].1);
                }
                assert forall|i: int, n: int|
                    0 <= i < out@.len() && i < nodes.len() && 0 <= n < tensor_rows(roots@[i].1).len()
                        && gets_no_message(
                        relations.take(j + 1),
                        edge_index@,
                        nodes[i].0.code(),
                        n,
                    ) implies #[trigger] tensor_rows(out@[i].1)[n] == tensor_rows(roots@[i].1)[n] by {
                    assert forall|w: int|
                        0 <= w < relations.take(j as int).len() && (#[trigger] relations.take(
                            j as int,
                        )[w]).0.2.code() == nodes[i].0.code() implies in_degree_of(
                        lookup_relation(edge_index@, relation_code(relations.take(j as int)[w].0))->Some_0@,
                        n,
                    ) == 0 by {
                        assert(relations.take(j + 1)[w] == relations.take(j as int)[w]);
                    }
                    assert(tensor_rows(before[i].1)[n] == tensor_rows(roots@[i].1)[n]);
                    if i == to {
                        assert(relations.take(j + 1)[j as int].0.2.code() == nodes[i].0.code());
                        assert(in_degree_of(graph@, n) == 0);
                    }
                }
            }
            j += 1;
        }
        proof {
            assert(relations.take(relations.len() as int) =~= relations);
        }
        Ok(out)
    }

    /// The forward pass: the root transform of every node type, then message
    /// passing along every relation.
    ///
    /// The call succeeds exactly where the layer can run on `xs` and
    /// `edge_index` and the tensor runtime accepts every step, and the result
    /// is `forwarded`: one tensor per node type of the layer, in the order of
    /// the layer's node types, each with one row of the type's output width
    /// for every row of its features. A node type that no relation targets
    /// has its root transform alone, and a node that no edge of any relation
    /// enters has its row of the root transform. The call is refused, before
    /// any arithmetic, exactly where the layer is not `hetero_ready`.
    pub fn forward(&self, xs: &Vec<(N, Tensor)>, edge_index: &Vec<((N, E, N), EdgeIndex)>) -> (r: Result<
        Vec<(N, Tensor)>,
        GnnError,
    >)
        ensures
            match r {
                Ok(out) => {
                    &&& hetero_ready(self.spec_nodes(), self.spec_relations(), xs@, edge_index@)
                    &&& self.forwarded(xs@, edge_index@) == Some(out@)
                    &&& shaped_like(self.spec_nodes(), xs@, out@)
                    &&& roots_of(self.spec_nodes(), self.spec_node_weights(), xs@, self.spec_nodes().len())
                        matches Some(roots) && keeps_roots(
                        self.spec_nodes(),
                        self.spec_relations(),
                        edge_index@,
                        roots,
                        out@,
                    )
                },
                Err(GnnError::Backend(_)) => hetero_ready(self.spec_nodes(), self.spec_relations(), xs@, edge_index@)
                    && self.forwarded(xs@, edge_index@) is None,
                Err(e) => hetero_refusal(self.spec_nodes(), self.spec_relations(), xs@, edge_index@, e),
            },
    {
        self.check_ready(xs, edge_index)?;
        let roots = self.transform_roots(xs)?;
        self.pass_messages(xs, edge_index, roots)
    }
}

/// Applies `f` to every tensor of a collection and keeps the keys.
///
/// The result holds, in the order of `xs`, what `f` returned for each tensor.
/// The first failure of `f` ends the pass and is handed back.
pub fn apply<K: Copy, F: Fn(&Tensor) -> Result<Tensor, GnnError>>(xs: &Vec<(K, Tensor)>, f: F) -> (r: Result<
    Vec<(K, Tensor)>,
    GnnError,
>)
    requires
        forall|i: int| 0 <= i < xs@.len() ==> call_requires(f, (&(#[trigger] xs@[i]).1,)),
    ensures
        match r {
            Ok(out) => {
                &&& out@.len() == xs@.len()
                &&& forall|i: int|
                    0 <= i < xs@.len() ==> (#[trigger] out@[i]).0 == xs@[i].0 && call_ensures(
                        f,
                        (&xs@[i].1,),
                        Ok(out@[i].1),
                    )
            },
            Err(e) => exists|i: int| 0 <= i < xs@.len() && call_ensures(f, (&(#[trigger] xs@[i]).1,), Err(e)),
        },
{
    let mut out: Vec<(K, Tensor)> = Vec::new();
    let mut i: usize = 0;
    while i < xs.len()
        invariant
            i <= xs@.len(),
            out@.len() == i,
            forall|i: int| 0 <= i < xs@.len() ==> call_requires(f, (&(#[trigger] xs@[i]).1,)),
            forall|k: int|
                0 <= k < i ==> (#[trigger] out@[k]).0 == xs@[k].0 && call_ensures(f, (&xs@[k].1,), Ok(out@[k].1)),
        decreases xs@.len() - i,
    {
        match f(&xs[i].1) {
            Ok(y) => {
                out.push((xs[i].0, y));
            },
            Err(e) => {
                assert(call_ensures(f, (&xs@[i as int].1,), Err(e)));
                return Err(e);
            },
        }
        i += 1;
    }
    Ok(out)
}

/// Every tensor that `out` holds is a matrix with as many rows as the
/// features that `xs` holds for the same node type.
pub open spec fn rows_preserved<N: TypeKey>(xs: Seq<(N, Tensor)>, out: Seq<(N, Tensor)>) -> bool {
    forall|k: int|
        (#[trigger] lookup(out, k)) is Some ==> {
            &&& lookup(xs, k) is Some
            &&& tensor_dims(lookup(out, k)->Some_0).len() == 2
            &&& tensor_dims(lookup(xs, k)->Some_0).len() == 2
            &&& rows_of(out, k) == rows_of(xs, k)
        }
}

/// What the step between two layers made of the tensor `x`: the
/// nonlinearity first, then dropout, which gave `y`.
pub open spec fn between_gave(activation: Activation, x: Tensor, y: Tensor, train: bool) -> bool {
    activated(activation, x) is Some && dropout_gave(activated(activation, x)->Some_0, y, train)
}

/// What the step between two layers made of the features `h`: the same node
/// types in the same order, each tensor activated and then passed through
/// dropout.
pub open spec fn fed_all<N: TypeKey>(
    activation: Activation,
    h: Seq<(N, Tensor)>,
    fed: Seq<(N, Tensor)>,
    train: bool,
) -> bool {
    &&& fed.len() == h.len()
    &&& forall|i: int|
        0 <= i < h.len() ==> (#[trigger] fed[i]).0 == h[i].0 && between_gave(activation, h[i].1, fed[i].1, train)
}

/// What the step between two layers makes of the first `count` tensors of
/// `h` outside training, where dropout hands its input on: each tensor
/// activated, under its node type. `None` where a tensor cannot be activated
/// or the runtime refuses.
pub open spec fn activated_all<N: TypeKey>(activation: Activation, h: Seq<(N, Tensor)>, count: nat) -> Option<
    Seq<(N, Tensor)>,
>
    decreases count,
{
    if count == 0 {
        Some(Seq::empty())
    } else {
        match activated_all(activation, h, (count - 1) as nat) {
            Some(before) => match between_eval(activation, h[count - 1].1) {
                Some(a) => Some(before.push((h[count - 1].0, a))),
                None => None,
            },
            None => None,
        }
    }
}

/// Once a tensor has failed to be activated, the step has failed.
pub proof fn lemma_activation_failed<N: TypeKey>(activation: Activation, h: Seq<(N, Tensor)>, failed: nat, count: nat)
    requires
        failed <= count,
        activated_all(activation, h, failed) is None,
    ensures
        activated_all(activation, h, count) is None,
    decreases count,
{
    if failed < count {
        lemma_activation_failed(activation, h, failed, (count - 1) as nat);
    }
}

/// Tensors that were each activated on their own are the activated step.
pub proof fn lemma_activated_each<N: TypeKey>(
    activation: Activation,
    h: Seq<(N, Tensor)>,
    out: Seq<(N, Tensor)>,
    count: nat,
)
    requires
        count <= h.len(),
        out.len() == h.len(),
        forall|i: int|
            0 <= i < h.len() ==> (#[trigger] out[i]).0 == h[i].0 && between_eval(activation, h[i].1) == Some(
                out[i].1,
            ),
    ensures
        activated_all(activation, h, count) == Some(out.take(count as int)),
    decreases count,
{
    if count > 0 {
        lemma_activated_each(activation, h, out, (count - 1) as nat);
        assert(out[count - 1].0 == h[count - 1].0);
        assert(out.take(count as int) =~= out.take(count - 1).push(out[count - 1]));
    } else {
        assert(out.take(0) =~= Seq::<(N, Tensor)>::empty());
    }
}

/// The step between two layers has refused the tensor `x` with the failure
/// `e`: `x` holds no floating-point numbers, or the nonlinearity is gated and
/// `x` has rows shorter than 2, or the runtime has refused.
pub open spec fn tensor_refused(activation: Activation, x: Tensor, e: GnnError) -> bool {
    match e {
        GnnError::NotFloatingPoint => !tensor_is_float(x),
        GnnError::FeatureDim { expected, found } => {
            &&& tensor_is_float(x)
            &&& crate::nn::tensor::activation_is_gated(activation)
            &&& crate::nn::activation::too_narrow(tensor_dims(x))
            &&& expected == 2
        },
        GnnError::Backend(_) => tensor_is_float(x),
        _ => false,
    }
}

/// The step between two layers has failed on the features `h` with the
/// failure `e`: it has refused one of their tensors.
pub open spec fn feeding_failed<N: TypeKey>(activation: Activation, h: Seq<(N, Tensor)>, e: GnnError) -> bool {
    exists|i: int| 0 <= i < h.len() && tensor_refused(activation, (#[trigger] h[i]).1, e)
}

/// The layer has failed on the features `fed` with the failure `e`, as its
/// forward pass promises to: it cannot run on them and reports the check
/// that fails first, or it can and the tensor runtime has refused a step.
pub open spec fn layer_failed<N: TypeKey, E: TypeKey>(
    layer: HeteroGcnConv<N, E>,
    fed: Seq<(N, Tensor)>,
    edges: Seq<((N, E, N), EdgeIndex)>,
    e: GnnError,
) -> bool {
    match e {
        GnnError::Backend(_) => hetero_ready(layer.spec_nodes(), layer.spec_relations(), fed, edges)
            && layer.forwarded(fed, edges) is None,
        _ => hetero_refusal(layer.spec_nodes(), layer.spec_relations(), fed, edges, e),
    }
}

/// The features that the stack has reached after the layers that `outs`
/// lists have run: the result of the last of them, or `xs` where none has
/// run.
pub open spec fn reached_by<N: TypeKey>(xs: Seq<(N, Tensor)>, outs: Seq<Seq<(N, Tensor)>>) -> Seq<(N, Tensor)> {
    if outs.len() == 0 {
        xs
    } else {
        outs.last()
    }
}

/// After the layers that `outs` lists had run, the next step of the stack
/// failed with `e`: the step between layers, where there is one before the
/// next layer, or the next layer itself on what it was fed.
pub open spec fn hetero_step_failed<N: TypeKey, E: TypeKey>(
    layers: Seq<HeteroGcnConv<N, E>>,
    activation: Activation,
    first_activation: bool,
    xs: Seq<(N, Tensor)>,
    edges: Seq<((N, E, N), EdgeIndex)>,
    train: bool,
    outs: Seq<Seq<(N, Tensor)>>,
    e: GnnError,
) -> bool {
    let next = outs.len() as int;
    let h = reached_by(xs, outs);
    if next >= 1 || first_activation {
        feeding_failed(activation, h, e) || exists|fed: Seq<(N, Tensor)>| #[trigger]
            fed_all(activation, h, fed, train) && layer_failed(layers[next], fed, edges, e)
    } else {
        layer_failed(layers[next], h, edges, e)
    }
}

/// A stack of relational graph convolutions. Before every layer but the
/// first, and before the first as well where `first_activation` is set, all
/// features pass through the nonlinearity and then through dropout.
pub struct HeteroGcn<N: TypeKey, E: TypeKey> {
    layers: Vec<HeteroGcnConv<N, E>>,
    activation_fn: Activation,
    dropout: Dropout,
    first_activation: bool,
}

/// The stack of the given layers, first to last, with the nonlinearity and
/// the dropout that are applied between two layers. The features handed to
/// the first layer are taken as they are.
pub fn hetero_gcn<N: TypeKey, E: TypeKey>(
    layers: Vec<HeteroGcnConv<N, E>>,
    activation_fn: Activation,
    dropout: Dropout,
) -> (model: HeteroGcn<N, E>)
    ensures
        model.spec_layers() == layers@,
        model.spec_activation() == activation_fn,
        model.spec_dropout() == dropout,
        !model.spec_first_activation(),
{
    HeteroGcn { layers, activation_fn, dropout, first_activation: false }
}

/// What the first `count` layers of a relational stack return outside
/// training: each layer runs on the result of the layer before it, activated
/// where the layer is not the first or `first_activation` is set. `None`
/// where a step fails.
pub open spec fn hetero_eval<N: TypeKey, E: TypeKey>(
    layers: Seq<HeteroGcnConv<N, E>>,
    activation: Activation,
    first_activation: bool,
    xs: Seq<(N, Tensor)>,
    edges: Seq<((N, E, N), EdgeIndex)>,
    count: nat,
) -> Option<Seq<(N, Tensor)>>
    decreases count,
{
    if count == 0 {
        Some(xs)
    } else {
        match hetero_eval(layers, activation, first_activation, xs, edges, (count - 1) as nat) {
            Some(h) => {
                let fed = if count >= 2 || first_activation {
                    activated_all(activation, h, h.len())
                } else {
                    Some(h)
                };
                match fed {
                    Some(a) => layers[count - 1].forwarded(a, edges),
                    None => None,
                }
            },
            None => None,
        }
    }
}

/// Once a layer of a relational stack has failed, the stack has failed.
pub proof fn lemma_hetero_eval_failed<N: TypeKey, E: TypeKey>(
    layers: Seq<HeteroGcnConv<N, E>>,
    activation: Activation,
    first_activation: bool,
    xs: Seq<(N, Tensor)>,
    edges: Seq<((N, E, N), EdgeIndex)>,
    failed: nat,
    count: nat,
)
    requires
        failed <= count,
        hetero_eval(layers, activation, first_activation, xs, edges, failed) is None,
    ensures
        hetero_eval(layers, activation, first_activation, xs, edges, count) is None,
    decreases count,
{
    if failed < count {
        lemma_hetero_eval_failed(layers, activation, first_activation, xs, edges, failed, (count - 1) as nat);
    }
}

/// Layer `i` of a relational stack has run: it was fed `ins[i]` and returned
/// `outs[i]`. The first layer was fed the features `xs`, after the step
/// between layers where `first_activation` is set; every further layer was
/// fed what that step made of the result of the layer before it.
pub open spec fn hetero_stepped<N: TypeKey, E: TypeKey>(
    layers: Seq<HeteroGcnConv<N, E>>,
    activation: Activation,
    first_activation: bool,
    xs: Seq<(N, Tensor)>,
    edges: Seq<((N, E, N), EdgeIndex)>,
    train: bool,
    ins: Seq<Seq<(N, Tensor)>>,
    outs: Seq<Seq<(N, Tensor)>>,
    i: int,
) -> bool {
    &&& layers[i].forwarded(ins[i], edges) == Some(outs[i])
    &&& if i >= 1 {
        fed_all(activation, outs[i - 1], ins[i], train)
    } else if first_activation {
        fed_all(activation, xs, ins[i], train)
    } else {
        ins[i] == xs
    }
}

/// The first layers of a relational stack have run one after the other.
pub open spec fn hetero_chained<N: TypeKey, E: TypeKey>(
    layers: Seq<HeteroGcnConv<N, E>>,
    activation: Activation,
    first_activation: bool,
    xs: Seq<(N, Tensor)>,
    edges: Seq<((N, E, N), EdgeIndex)>,
    train: bool,
    ins: Seq<Seq<(N, Tensor)>>,
    outs: Seq<Seq<(N, Tensor)>>,
) -> bool {
    &&& outs.len() <= layers.len()
    &&& ins.len() == outs.len()
    &&& forall|i: int|
        0 <= i < outs.len() ==> #[trigger] hetero_stepped(
            layers,
            activation,
            first_activation,
            xs,
            edges,
            train,
            ins,
            outs,
            i,
        )
}

impl<N: TypeKey, E: TypeKey> HeteroGcn<N, E> {
    /// The layers, first to last.
    pub closed spec fn spec_layers(&self) -> Seq<HeteroGcnConv<N, E>> {
        self.layers@
    }

    /// The nonlinearity of the step between two layers.
    pub closed spec fn spec_activation(&self) -> Activation {
        self.activation_fn
    }

    /// The dropout of the step between two layers.
    pub closed spec fn spec_dropout(&self) -> Dropout {
        self.dropout
    }

    /// Whether the nonlinearity and dropout are applied before the first
    /// layer too.
    pub closed spec fn spec_first_activation(&self) -> bool {
        self.first_activation
    }

    /// What the stack returns outside training: see `hetero_eval`.
    pub open spec fn evaluated(&self, xs: Seq<(N, Tensor)>, edges: Seq<((N, E, N), EdgeIndex)>) -> Option<
        Seq<(N, Tensor)>,
    > {
        hetero_eval(
            self.spec_layers(),
            self.spec_activation(),
            self.spec_first_activation(),
            xs,
            edges,
            self.spec_layers().len(),
        )
    }

    /// The step between two layers: the nonlinearity and then dropout, on
    /// every tensor of `xs`.
    fn activate(&self, xs: &Vec<(N, Tensor)>, train: bool) -> (r: Result<Vec<(N, Tensor)>, GnnError>)
        ensures
            match r {
                Ok(out) => {
                    &&& fed_all(self.spec_activation(), xs@, out@, train)
                    &&& forall|i: int|
                        0 <= i < xs@.len() ==> same_leading(tensor_dims(xs@[i].1), tensor_dims((#[trigger] out@[i]).1))
                            && tensor_is_float(out@[i].1)
                },
                Err(e) => feeding_failed(self.spec_activation(), xs@, e),
            },
            r matches Ok(out) ==> train || activated_all(self.spec_activation(), xs@, xs@.len()) == Some(out@),
            r is Err ==> train || activated_all(self.spec_activation(), xs@, xs@.len()) is None,
    {
        let f = |x: &Tensor| -> (y: Result<Tensor, GnnError>)
            ensures
                match y {
                    Ok(t) => {
                        &&& between_gave(self.activation_fn, *x, t, train)
                        &&& same_leading(tensor_dims(*x), tensor_dims(t))
                        &&& tensor_is_float(t)
                        &&& !train ==> between_eval(self.activation_fn, *x) == Some(t)
                    },
                    Err(e) => tensor_refused(self.activation_fn, *x, e) && (train || between_eval(
                        self.activation_fn,
                        *x,
                    ) is None),
                },
            {
                let active = activate(&self.activation_fn, x)?;
                from_backend(dropout_forward(&self.dropout, &active, train))
            };
        let r = apply(xs, f);
        proof {
            if r is Err {
                let e = r->Err_0;
                let i = choose|i: int| 0 <= i < xs@.len() && call_ensures(f, (&(#[trigger] xs@[i]).1,), Err(e));
                assert(tensor_refused(self.activation_fn, xs@[i].1, e));
            }
            if !train {
                if r is Ok {
                    let out = r->Ok_0;
                    assert forall|i: int| 0 <= i < xs@.len() implies (#[trigger] out@[i]).0 == xs@[i].0
                        && between_eval(self.activation_fn, xs@[i].1) == Some(out@[i].1) by {
                        assert(call_ensures(f, (&xs@[i].1,), Ok(out@[i].1)));
                    }
                    lemma_activated_each(self.activation_fn, xs@, out@, xs@.len());
                    assert(out@.take(xs@.len() as int) =~= out@);
                } else {
                    let e = r->Err_0;
                    let i = choose|i: int| 0 <= i < xs@.len() && call_ensures(f, (&(#[trigger] xs@[i]).1,), Err(e));
                    assert(between_eval(self.activation_fn, xs@[i].1) is None);
                    assert(activated_all(self.activation_fn, xs@, (i + 1) as nat) is None);
                    lemma_activation_failed(self.activation_fn, xs@, (i + 1) as nat, xs@.len());
                }
            }
        }
        r
    }

    /// What a pass through the stack promises of its result `r`. A stack
    /// without layers succeeds and hands the features back. Otherwise, where
    /// the pass succeeds, the layers have run one after the other, each fed
    /// what the step between layers made of the result of the layer before
    /// it, and the result is that of the last layer as it is: one tensor per
    /// node type of the last layer, each a matrix with as many rows as the
    /// features of its node type in `xs`. Where the features reach the first
    /// layer as they are and that layer cannot run on them, the pass fails
    /// as that layer reports it.
    pub open spec fn promised_pass(
        &self,
        xs: Seq<(N, Tensor)>,
        edges: Seq<((N, E, N), EdgeIndex)>,
        train: bool,
        r: Result<Vec<(N, Tensor)>, GnnError>,
    ) -> bool {
        &&& self.spec_layers().len() == 0 ==> r is Ok
        &&& match r {
            Ok(out) => {
                &&& self.spec_layers().len() == 0 ==> out@ == xs
                &&& self.spec_layers().len() > 0 ==> {
                    &&& exists|ins: Seq<Seq<(N, Tensor)>>, outs: Seq<Seq<(N, Tensor)>>|
                        #[trigger] hetero_chained(
                            self.spec_layers(),
                            self.spec_activation(),
                            self.spec_first_activation(),
                            xs,
                            edges,
                            train,
                            ins,
                            outs,
                        ) && outs.len() == self.spec_layers().len() && outs.last() == out@
                    &&& out@.len() == self.spec_layers().last().spec_nodes().len()
                    &&& forall|i: int|
                        0 <= i < out@.len() ==> (#[trigger] out@[i]).0.code()
                            == self.spec_layers().last().spec_nodes()[i].0.code()
                    &&& rows_preserved(xs, out@)
                }
            },
            Err(e) => exists|ins: Seq<Seq<(N, Tensor)>>, outs: Seq<Seq<(N, Tensor)>>|
                #[trigger] hetero_chained(
                    self.spec_layers(),
                    self.spec_activation(),
                    self.spec_first_activation(),
                    xs,
                    edges,
                    train,
                    ins,
                    outs,
                ) && outs.len() < self.spec_layers().len() && hetero_step_failed(
                    self.spec_layers(),
                    self.spec_activation(),
                    self.spec_first_activation(),
                    xs,
                    edges,
                    train,
                    outs,
                    e,
                ),
        }
        &&& self.spec_layers().len() > 0 && !self.spec_first_activation() && !hetero_ready(
            self.spec_layers()[0].spec_nodes(),
            self.spec_layers()[0].spec_relations(),
            xs,
            edges,
        ) ==> (r matches Err(e) && hetero_refusal(
            self.spec_layers()[0].spec_nodes(),
            self.spec_layers()[0].spec_relations(),
            xs,
            edges,
            e,
        ))
        &&& !train ==> match r {
            Ok(out) => self.evaluated(xs, edges) == Some(out@),
            Err(_) => self.evaluated(xs, edges) is None,
        }
    }

    /// The forward pass through all layers. Dropout is active only where
    /// `train` is set.
    ///
    /// Outside training the call succeeds exactly where `evaluated` has a
    /// value, and returns it.
    pub fn forward_t(&self, xs: &Vec<(N, Tensor)>, edge_index: &Vec<((N, E, N), EdgeIndex)>, train: bool) -> (r:
        Result<Vec<(N, Tensor)>, GnnError>)
        ensures
            self.promised_pass(xs@, edge_index@, train, r),
    {
        let mut h = share_all(xs);
        let mut i: usize = 0;
        let ghost mut ins: Seq<Seq<(N, Tensor)>> = Seq::empty();
        let ghost mut outs: Seq<Seq<(N, Tensor)>> = Seq::empty();
        while i < self.layers.len()
            invariant
                i <= self.layers@.len(),
                i == 0 ==> h@ == xs@,
                rows_follow(xs@, h@),
                outs.len() == i,
                i > 0 ==> outs.last() == h@,
                hetero_chained(
                    self.layers@,
                    self.activation_fn,
                    self.first_activation,
                    xs@,
                    edge_index@,
                    train,
                    ins,
                    outs,
                ),
                !train ==> hetero_eval(
                    self.layers@,
                    self.activation_fn,
                    self.first_activation,
                    xs@,
                    edge_index@,
                    i as nat,
                ) == Some(h@),
                i > 0 ==> {
                    &&& h@.len() == self.layers@[i - 1].spec_nodes().len()
                    &&& forall|k: int|
                        0 <= k < h@.len() ==> (#[trigger] h@[k]).0.code() == self.layers@[i - 1].spec_nodes()[k].0.code()
                    &&& rows_preserved(xs@, h@)
                    &&& !self.first_activation ==> hetero_ready(
                        self.layers@[0].spec_nodes(),
                        self.layers@[0].spec_relations(),
                        xs@,
                        edge_index@,
                    )
                },
            decreases self.layers@.len() - i,
        {
            let ghost before = h@;
            if i >= 1 || self.first_activation {
                h = match self.activate(&h, train) {
                    Ok(fed) => fed,
                    Err(e) => {
                        proof {
                            assert(feeding_failed(self.activation_fn, before, e));
                            assert(outs.len() == i);
                            let reached = reached_by(xs@, outs);
                            assert(reached == before);
                            assert(hetero_step_failed(
                                self.layers@,
                                self.activation_fn,
                                self.first_activation,
                                xs@,
                                edge_index@,
                                train,
                                outs,
                                e,
                            ));
                            if !train {
                                assert(hetero_eval(
                                    self.layers@,
                                    self.activation_fn,
                                    self.first_activation,
                                    xs@,
                                    edge_index@,
                                    (i + 1) as nat,
                                ) is None);
                                lemma_hetero_eval_failed(
                                    self.layers@,
                                    self.activation_fn,
                                    self.first_activation,
                                    xs@,
                                    edge_index@,
                                    (i + 1) as nat,
                                    self.layers@.len(),
                                );
                            }
                        }
                        return Err(e);
                    },
                };
                proof {
                    lemma_rows_after_activation(xs@, before, h@);
                }
            }
            let ghost input = h@;
            h = match self.layers[i].forward(&h, edge_index) {
                Ok(next) => next,
                Err(e) => {
                    proof {
                        assert(layer_failed(self.layers@[i as int], input, edge_index@, e));
                        assert(outs.len() == i);
                        let reached = reached_by(xs@, outs);
                        assert(reached == before);
                        if i >= 1 || self.first_activation {
                            assert(fed_all(self.activation_fn, reached, input, train));
                            assert(exists|fed: Seq<(N, Tensor)>| #[trigger]
                                fed_all(self.activation_fn, reached, fed, train) && layer_failed(
                                    self.layers@[outs.len() as int],
                                    fed,
                                    edge_index@,
                                    e,
                                ));
                        } else {
                            assert(input == reached);
                            assert(layer_failed(self.layers@[outs.len() as int], reached, edge_index@, e));
                        }
                        assert(hetero_step_failed(
                            self.layers@,
                            self.activation_fn,
                            self.first_activation,
                            xs@,
                            edge_index@,
                            train,
                            outs,
                            e,
                        ));
                        if !train {
                            assert(hetero_eval(
                                self.layers@,
                                self.activation_fn,
                                self.first_activation,
                                xs@,
                                edge_index@,
                                (i + 1) as nat,
                            ) is None);
                            lemma_hetero_eval_failed(
                                self.layers@,
                                self.activation_fn,
                                self.first_activation,
                                xs@,
                                edge_index@,
                                (i + 1) as nat,
                                self.layers@.len(),
                            );
                        }
                    }
                    return Err(e);
                },
            };
            proof {
                lemma_rows_after_layer(self.layers@[i as int].spec_nodes(), xs@, input, h@);
                let ins_before = ins;
                let outs_before = outs;
                ins = ins.push(input);
                outs = outs.push(h@);
                assert forall|k: int| 0 <= k < outs.len() implies #[trigger] hetero_stepped(
                    self.layers@,
                    self.activation_fn,
                    self.first_activation,
                    xs@,
                    edge_index@,
                    train,
                    ins,
                    outs,
                    k,
                ) by {
                    if k < outs_before.len() {
                        assert(hetero_stepped(
                            self.layers@,
                            self.activation_fn,
                            self.first_activation,
                            xs@,
                            edge_index@,
                            train,
                            ins_before,
                            outs_before,
                            k,
                        ));
                        assert(ins[k] == ins_before[k]);
                        assert(outs[k] == outs_before[k]);
                        if k >= 1 {
                            assert(outs[k - 1] == outs_before[k - 1]);
                        }
                    } else {
                        assert(ins[k] == input);
                        assert(outs[k] == h@);
                        if k >= 1 {
                            assert(outs[k - 1] == before);
                        }
                    }
                }
            }
            i += 1;
        }
        Ok(h)
    }
}

impl<N: TypeKey, E: TypeKey> HeteroGnnModule<N, E> for HeteroGcn<N, E> {
    /// What a pass through the stack promises: see
    /// [`HeteroGcn::promised_pass`].
    open spec fn promised(
        &self,
        xs: Seq<(N, Tensor)>,
        edges: Seq<((N, E, N), EdgeIndex)>,
        train: bool,
        r: Result<Vec<(N, Tensor)>, GnnError>,
    ) -> bool {
        self.promised_pass(xs, edges, train, r)
    }

    /// The forward pass through all layers, as [`HeteroGcn::forward_t`] runs
    /// it.
    fn forward_t(&self, xs: &Vec<(N, Tensor)>, edge_index: &Vec<((N, E, N), EdgeIndex)>, train: bool) -> (r: Result<
        Vec<(N, Tensor)>,
        GnnError,
    >)
        ensures
            self.promised(xs@, edge_index@, train, r),
    {
        let r = HeteroGcn::forward_t(self, xs, edge_index, train);
        proof {
            if r is Ok && self.spec_layers().len() == 0 {
                assert(r->Ok_0@ == xs@);
            }
        }
        r
    }
}

/// Features that kept their keys and all extents but the last have kept
/// their rows.
proof fn lemma_rows_after_activation<N: TypeKey>(xs: Seq<(N, Tensor)>, before: Seq<(N, Tensor)>, after: Seq<(N, Tensor)>)
    requires
        rows_follow(xs, before),
        after.len() == before.len(),
        forall|i: int|
            0 <= i < before.len() ==> (#[trigger] after[i]).0 == before[i].0 && same_leading(
                tensor_dims(before[i].1),
                tensor_dims(after[i].1),
            ),
    ensures
        rows_follow(xs, after),
{
    assert forall|k: int| (#[trigger] lookup(after, k)) is Some implies {
        &&& lookup(xs, k) is Some
        &&& tensor_dims(lookup(after, k)->Some_0).len() == 2 ==> tensor_dims(lookup(xs, k)->Some_0).len() == 2
            && rows_of(after, k) == rows_of(xs, k)
    } by {
        assert forall|i: int| 0 <= i < after.len() implies (#[trigger] after[i]).0.code() == before[i].0.code() by {}
        lemma_same_positions(after, before, k);
        lemma_position(after, k);
        let p = position(after, k)->Some_0;
        assert(after[p].0 == before[p].0);
        assert(lookup(before, k) == Some(before[p].1));
    }
}

/// The output of a layer has, for each of its node types, as many rows as
/// the features that went in.
proof fn lemma_rows_after_layer<N: TypeKey>(
    nodes: Seq<(N, (usize, usize))>,
    xs: Seq<(N, Tensor)>,
    input: Seq<(N, Tensor)>,
    out: Seq<(N, Tensor)>,
)
    requires
        shaped_like(nodes, input, out),
        forall|i: int| 0 <= i < nodes.len() ==> features_for(input, (#[trigger] nodes[i]).0.code(), nodes[i].1.0),
        rows_follow(xs, input),
    ensures
        rows_preserved(xs, out),
        rows_follow(xs, out),
{
    assert forall|k: int| (#[trigger] lookup(out, k)) is Some implies {
        &&& lookup(xs, k) is Some
        &&& tensor_dims(lookup(out, k)->Some_0).len() == 2
        &&& tensor_dims(lookup(xs, k)->Some_0).len() == 2
        &&& rows_of(out, k) == rows_of(xs, k)
    } by {
        lemma_position(out, k);
        let p = position(out, k)->Some_0;
        assert(out[p].0.code() == nodes[p].0.code());
        assert(features_for(input, nodes[p].0.code(), nodes[p].1.0));
        assert(tensor_dims(out[p].1) == seq![rows_of(input, nodes[p].0.code()), nodes[p].1.1]);
        assert(lookup(input, k) is Some);
    }
}

/// A collection with another handle to every tensor of `xs`.
fn share_all<K: Copy>(xs: &Vec<(K, Tensor)>) -> (r: Vec<(K, Tensor)>)
    ensures
        r@ == xs@,
{
    let mut r: Vec<(K, Tensor)> = Vec::new();
    let mut i: usize = 0;
    while i < xs.len()
        invariant
            i <= xs@.len(),
            r@.len() == i,
            forall|k: int| 0 <= k < i ==> #[trigger] r@[k] == xs@[k],
        decreases xs@.len() - i,
    {
        r.push((xs[i].0, share(&xs[i].1)));
        i += 1;
    }
    assert(r@ =~= xs@);
    r
}

} // verus!
