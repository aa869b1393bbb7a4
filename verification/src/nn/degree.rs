//! Node degrees and the normalisation coefficients derived from them.

use vstd::prelude::*;
use crate::nn::edge_index::{all_below, lemma_span_covers, mentions, row_in_range, row_span, sources, span, targets, EdgeIndex};
use crate::nn::error::GnnError;

verus! {

/// How often node `n` occurs in `row`.
pub open spec fn occurrences(row: Seq<u32>, n: int) -> nat
    decreases row.len(),
{
    if row.len() == 0 {
        0
    } else {
        occurrences(row.drop_last(), n) + if row.last() as int == n { 1nat } else { 0nat }
    }
}

/// The number of edges that leave node `n`.
pub open spec fn out_degree_of(edges: Seq<(u32, u32)>, n: int) -> nat {
    occurrences(sources(edges), n)
}

/// The number of edges that enter node `n`.
pub open spec fn in_degree_of(edges: Seq<(u32, u32)>, n: int) -> nat {
    occurrences(targets(edges), n)
}

/// The occurrences in `row` of the nodes below `num_nodes`, added up.
pub open spec fn occurrences_below(row: Seq<u32>, num_nodes: nat) -> nat
    decreases num_nodes,
{
    if num_nodes == 0 {
        0
    } else {
        occurrences_below(row, (num_nodes - 1) as nat) + occurrences(row, num_nodes - 1)
    }
}

/// The out-degrees of the nodes below `num_nodes`, added up.
pub open spec fn out_degree_sum(edges: Seq<(u32, u32)>, num_nodes: nat) -> nat {
    occurrences_below(sources(edges), num_nodes)
}

/// The in-degrees of the nodes below `num_nodes`, added up.
pub open spec fn in_degree_sum(edges: Seq<(u32, u32)>, num_nodes: nat) -> nat {
    occurrences_below(targets(edges), num_nodes)
}

/// A degree as it is used in a divisor: never below 1.
pub open spec fn floored(d: nat) -> nat {
    if d == 0 { 1 } else { d }
}

/// The product of the floored out-degree of the source of edge `e` and the
/// floored in-degree of its target. Symmetric normalisation divides the
/// message on edge `e` by the square root of this number.
pub open spec fn edge_norm(edges: Seq<(u32, u32)>, e: int) -> nat {
    floored(out_degree_of(edges, edges[e].0 as int)) * floored(in_degree_of(edges, edges[e].1 as int))
}

/// A node occurs in a row at most as often as the row is long.
pub proof fn lemma_occurrences_bound(row: Seq<u32>, n: int)
    ensures
        occurrences(row, n) <= row.len(),
    decreases row.len(),
{
    if row.len() > 0 {
        lemma_occurrences_bound(row.drop_last(), n);
    }
}

/// Reading one more entry of a row adds one occurrence of that entry and none
/// of any other node.
pub proof fn lemma_occurrences_step(row: Seq<u32>, e: int, n: int)
    requires
        0 <= e < row.len(),
    ensures
        occurrences(row.take(e + 1), n) == occurrences(row.take(e), n) + if row[e] as int == n {
            1nat
        } else {
            0nat
        },
{
    assert(row.take(e + 1).drop_last() =~= row.take(e));
}

/// A node occurs zero times in a row exactly if the row does not mention it.
pub proof fn lemma_occurrences_zero(row: Seq<u32>, n: int)
    ensures
        occurrences(row, n) == 0 <==> !mentions(row, n),
    decreases row.len(),
{
    if row.len() > 0 {
        let rest = row.drop_last();
        lemma_occurrences_zero(rest, n);
        if mentions(row, n) {
            let e = choose|e: int| 0 <= e < row.len() && #[trigger] row[e] as int == n;
            if e < row.len() - 1 {
                assert(rest[e] as int == n);
            }
        }
        if mentions(rest, n) {
            let e = choose|e: int| 0 <= e < rest.len() && #[trigger] rest[e] as int == n;
            assert(row[e] as int == n);
        }
        if row.last() as int == n {
            assert(row[row.len() - 1] as int == n);
        }
    }
}

proof fn lemma_occurrences_below_push(row: Seq<u32>, last: u32, num_nodes: nat)
    ensures
        occurrences_below(row.push(last), num_nodes) == occurrences_below(row, num_nodes) + if (last as int)
            < num_nodes {
            1nat
        } else {
            0nat
        },
    decreases num_nodes,
{
    if num_nodes > 0 {
        lemma_occurrences_below_push(row, last, (num_nodes - 1) as nat);
        assert(row.push(last).drop_last() =~= row);
    }
}

/// Every entry of a row whose nodes are all below `num_nodes` is counted
/// exactly once among the occurrences of those nodes.
pub proof fn lemma_occurrences_total(row: Seq<u32>, num_nodes: nat)
    requires
        row_in_range(row, num_nodes as int),
    ensures
        occurrences_below(row, num_nodes) == row.len(),
    decreases row.len(),
{
    if row.len() == 0 {
        lemma_occurrences_below_empty(row, num_nodes);
    } else {
        let rest = row.drop_last();
        assert forall|e: int| 0 <= e < rest.len() implies (#[trigger] rest[e] as int) < num_nodes by {
            assert(rest[e] == row[e]);
        }
        lemma_occurrences_total(rest, num_nodes);
        lemma_occurrences_below_push(rest, row.last(), num_nodes);
        assert(rest.push(row.last()) =~= row);
        assert((row[row.len() - 1] as int) < num_nodes);
    }
}

proof fn lemma_occurrences_below_empty(row: Seq<u32>, num_nodes: nat)
    requires
        row.len() == 0,
    ensures
        occurrences_below(row, num_nodes) == 0,
    decreases num_nodes,
{
    if num_nodes > 0 {
        lemma_occurrences_below_empty(row, (num_nodes - 1) as nat);
    }
}

/// In a graph whose edges all run between nodes below `num_nodes`, the
/// out-degrees add up to the number of edges, and so do the in-degrees.
pub proof fn lemma_degree_sums(edges: Seq<(u32, u32)>, num_nodes: nat)
    requires
        row_in_range(sources(edges), num_nodes as int),
        row_in_range(targets(edges), num_nodes as int),
    ensures
        out_degree_sum(edges, num_nodes) == edges.len(),
        in_degree_sum(edges, num_nodes) == edges.len(),
{
    lemma_occurrences_total(sources(edges), num_nodes);
    lemma_occurrences_total(targets(edges), num_nodes);
}

/// The entries of a degree vector, added up.
pub open spec fn total(degrees: Seq<u32>) -> nat
    decreases degrees.len(),
{
    if degrees.len() == 0 {
        0
    } else {
        total(degrees.drop_last()) + degrees.last() as nat
    }
}

/// A vector that holds the occurrences in `row` of each node below its length
/// adds up to the sum of those occurrences.
pub proof fn lemma_total_of_degrees(row: Seq<u32>, degrees: Seq<u32>)
    requires
        forall|n: int| 0 <= n < degrees.len() ==> #[trigger] degrees[n] as nat == occurrences(row, n),
    ensures
        total(degrees) == occurrences_below(row, degrees.len()),
    decreases degrees.len(),
{
    if degrees.len() > 0 {
        let rest = degrees.drop_last();
        assert forall|n: int| 0 <= n < rest.len() implies #[trigger] rest[n] as nat == occurrences(row, n) by {
            assert(rest[n] == degrees[n]);
        }
        lemma_total_of_degrees(row, rest);
        assert(degrees[degrees.len() - 1] as nat == occurrences(row, degrees.len() - 1));
    }
}

/// Counts, for each node below `size`, how often it occurs in `row`.
///
/// Fails where `row` names a node that is not below `size`.
fn count_row(row: &Vec<u32>, size: usize) -> (r: Result<Vec<u32>, GnnError>)
    requires
        row@.len() <= u32::MAX,
    ensures
        match r {
            Ok(d) => {
                &&& row_in_range(row@, size as int)
                &&& d@.len() == size
                &&& forall|n: int| 0 <= n < size ==> #[trigger] d@[n] as nat == occurrences(row@, n)
            },
            Err(GnnError::NodeIndexOutOfRange { num_nodes }) => {
                &&& !row_in_range(row@, size as int)
                &&& num_nodes == size
            },
            Err(_) => false,
        },
{
    if !all_below(row, size) {
        return Err(GnnError::NodeIndexOutOfRange { num_nodes: size });
    }
    let mut counts: Vec<u32> = vec![0u32; size];
    let mut e: usize = 0;
    while e < row.len()
        invariant
            e <= row.len(),
            row@.len() <= u32::MAX,
            row_in_range(row@, size as int),
            counts@.len() == size,
            forall|n: int| 0 <= n < size ==> #[trigger] counts@[n] as nat == occurrences(row@.take(e as int), n),
        decreases row.len() - e,
    {
        let slot: usize = row[e] as usize;
        proof {
            assert((row@[e as int] as int) < size);
            lemma_occurrences_bound(row@.take(e as int), slot as int);
            assert forall|n: int| 0 <= n < size implies occurrences(row@.take(e + 1), n) == occurrences(
                row@.take(e as int),
                n,
            ) + if n == slot { 1nat } else { 0nat } by {
                lemma_occurrences_step(row@, e as int, n);
            }
        }
        let seen: u32 = counts[slot];
        counts.set(slot, seen + 1);
        e += 1;
    }
    proof {
        assert(row@.take(row@.len() as int) =~= row@);
    }
    Ok(counts)
}

/// The out-degree of every node of a graph with `size` nodes.
///
/// Entry `n` of the result is the number of edges that leave node `n`; a node
/// that no edge leaves has degree 0. Fails where an edge leaves a node that
/// is not below `size`.
pub fn out_degree_with_size(edge_index: &EdgeIndex, size: usize) -> (r: Result<Vec<u32>, GnnError>)
    ensures
        match r {
            Ok(d) => {
                &&& row_in_range(sources(edge_index@), size as int)
                &&& d@.len() == size
                &&& forall|n: int| 0 <= n < size ==> #[trigger] d@[n] as nat == out_degree_of(edge_index@, n)
                &&& total(d@) == edge_index@.len()
            },
            Err(GnnError::NodeIndexOutOfRange { num_nodes }) => {
                &&& !row_in_range(sources(edge_index@), size as int)
                &&& num_nodes == size
            },
            Err(_) => false,
        },
{
    let r = count_row(edge_index.source_row(), size);
    proof {
        if r is Ok {
            lemma_total_of_degrees(sources(edge_index@), r->Ok_0@);
            lemma_occurrences_total(sources(edge_index@), size as nat);
        }
    }
    r
}

/// The in-degree of every node of a graph with `size` nodes.
///
/// Entry `n` of the result is the number of edges that enter node `n`; a node
/// that no edge enters has degree 0. Fails where an edge enters a node that
/// is not below `size`.
pub fn in_degree_with_size(edge_index: &EdgeIndex, size: usize) -> (r: Result<Vec<u32>, GnnError>)
    ensures
        match r {
            Ok(d) => {
                &&& row_in_range(targets(edge_index@), size as int)
                &&& d@.len() == size
                &&& forall|n: int| 0 <= n < size ==> #[trigger] d@[n] as nat == in_degree_of(edge_index@, n)
                &&& total(d@) == edge_index@.len()
            },
            Err(GnnError::NodeIndexOutOfRange { num_nodes }) => {
                &&& !row_in_range(targets(edge_index@), size as int)
                &&& num_nodes == size
            },
            Err(_) => false,
        },
{
    let r = count_row(edge_index.target_row(), size);
    proof {
        if r is Ok {
            lemma_total_of_degrees(targets(edge_index@), r->Ok_0@);
            lemma_occurrences_total(targets(edge_index@), size as nat);
        }
    }
    r
}

/// The out-degree of every node up to the last one that an edge leaves.
///
/// The node count is one more than the largest source, and 0 for a graph
/// without edges. Nodes beyond it are not covered: where the graph has such
/// nodes, give the node count to [`out_degree_with_size`]. Fails only where
/// the node count does not fit a `usize`.
pub fn out_degree(edge_index: &EdgeIndex) -> (r: Result<Vec<u32>, GnnError>)
    ensures
        match r {
            Ok(d) => {
                &&& d@.len() == span(sources(edge_index@))
                &&& forall|n: int| 0 <= n < d@.len() ==> #[trigger] d@[n] as nat == out_degree_of(edge_index@, n)
                &&& total(d@) == edge_index@.len()
            },
            Err(GnnError::NodeCountOverflow) => span(sources(edge_index@)) > usize::MAX,
            Err(_) => false,
        },
{
    let size: u64 = row_span(edge_index.source_row());
    if size > usize::MAX as u64 {
        return Err(GnnError::NodeCountOverflow);
    }
    proof {
        lemma_span_covers(sources(edge_index@));
    }
    out_degree_with_size(edge_index, size as usize)
}

/// The in-degree of every node up to the last one that an edge enters.
///
/// The node count is one more than the largest target, and 0 for a graph
/// without edges. Nodes beyond it are not covered: where the graph has such
/// nodes, give the node count to [`in_degree_with_size`]. Fails only where
/// the node count does not fit a `usize`.
pub fn in_degree(edge_index: &EdgeIndex) -> (r: Result<Vec<u32>, GnnError>)
    ensures
        match r {
            Ok(d) => {
                &&& d@.len() == span(targets(edge_index@))
                &&& forall|n: int| 0 <= n < d@.len() ==> #[trigger] d@[n] as nat == in_degree_of(edge_index@, n)
                &&& total(d@) == edge_index@.len()
            },
            Err(GnnError::NodeCountOverflow) => span(targets(edge_index@)) > usize::MAX,
            Err(_) => false,
        },
{
    let size: u64 = row_span(edge_index.target_row());
    if size > usize::MAX as u64 {
        return Err(GnnError::NodeCountOverflow);
    }
    proof {
        lemma_span_covers(targets(edge_index@));
    }
    in_degree_with_size(edge_index, size as usize)
}

/// A degree as a divisor: `d`, or 1 where `d` is 0, so that an isolated node
/// never divides by zero.
pub fn floor_degree(d: u32) -> (r: u32)
    ensures
        r as nat == floored(d as nat),
        r >= 1,
{
    if d == 0 { 1 } else { d }
}

/// Looks up, for each entry of `row`, the floored degree of the node it names.
fn floored_at(degrees: &Vec<u32>, row: &Vec<u32>) -> (r: Vec<u32>)
    requires
        row_in_range(row@, degrees@.len() as int),
    ensures
        r@.len() == row@.len(),
        forall|e: int| 0 <= e < row@.len() ==> #[trigger] r@[e] as nat == floored(degrees@[row@[e] as int] as nat),
{
    let mut r: Vec<u32> = Vec::new();
    let mut e: usize = 0;
    while e < row.len()
        invariant
            e <= row.len(),
            row_in_range(row@, degrees@.len() as int),
            r@.len() == e,
            forall|k: int| 0 <= k < e ==> #[trigger] r@[k] as nat == floored(degrees@[row@[k] as int] as nat),
        decreases row.len() - e,
    {
        assert((row@[e as int] as int) < degrees@.len());
        r.push(floor_degree(degrees[row[e] as usize]));
        e += 1;
    }
    r
}

/// For each edge, the floored out-degree of the node it leaves, in a graph
/// with `num_nodes` nodes.
///
/// Fails where an edge leaves a node that is not below `num_nodes`.
pub fn source_degrees(edge_index: &EdgeIndex, num_nodes: usize) -> (r: Result<Vec<u32>, GnnError>)
    ensures
        match r {
            Ok(d) => {
                &&& row_in_range(sources(edge_index@), num_nodes as int)
                &&& d@.len() == edge_index@.len()
                &&& forall|e: int|
                    0 <= e < d@.len() ==> #[trigger] d@[e] as nat == floored(
                        out_degree_of(edge_index@, edge_index@[e].0 as int),
                    )
            },
            Err(GnnError::NodeIndexOutOfRange { num_nodes: n }) => {
                &&& !row_in_range(sources(edge_index@), num_nodes as int)
                &&& n == num_nodes
            },
            Err(_) => false,
        },
{
    let degrees = out_degree_with_size(edge_index, num_nodes)?;
    Ok(floored_at(&degrees, edge_index.source_row()))
}

/// For each edge, the floored in-degree of the node it enters, in a graph
/// with `num_nodes` nodes.
///
/// Fails where an edge enters a node that is not below `num_nodes`.
pub fn target_degrees(edge_index: &EdgeIndex, num_nodes: usize) -> (r: Result<Vec<u32>, GnnError>)
    ensures
        match r {
            Ok(d) => {
                &&& row_in_range(targets(edge_index@), num_nodes as int)
                &&& d@.len() == edge_index@.len()
                &&& forall|e: int|
                    0 <= e < d@.len() ==> #[trigger] d@[e] as nat == floored(
                        in_degree_of(edge_index@, edge_index@[e].1 as int),
                    )
            },
            Err(GnnError::NodeIndexOutOfRange { num_nodes: n }) => {
                &&& !row_in_range(targets(edge_index@), num_nodes as int)
                &&& n == num_nodes
            },
            Err(_) => false,
        },
{
    let degrees = in_degree_with_size(edge_index, num_nodes)?;
    Ok(floored_at(&degrees, edge_index.target_row()))
}


/// For each edge, the two factors of its normalisation: the floored
/// out-degree of its source and the floored in-degree of its target, in a
/// graph with `num_nodes` nodes. Their product is `edge_norm`, and neither is
/// 0.
///
/// Fails where an edge names a node that is not below `num_nodes`.
pub fn edge_norm_factors(edge_index: &EdgeIndex, num_nodes: usize) -> (r: Result<(Vec<u32>, Vec<u32>), GnnError>)
    ensures
        match r {
            Ok((leaving, entering)) => {
                &&& row_in_range(sources(edge_index@), num_nodes as int)
                &&& row_in_range(targets(edge_index@), num_nodes as int)
                &&& leaving@.len() == edge_index@.len()
                &&& entering@.len() == edge_index@.len()
                &&& forall|e: int|
                    0 <= e < edge_index@.len() ==> {
                        &&& #[trigger] leaving@[e] as nat == floored(
                            out_degree_of(edge_index@, edge_index@[e].0 as int),
                        )
                        &&& entering@[e] as nat == floored(in_degree_of(edge_index@, edge_index@[e].1 as int))
                        &&& leaving@[e] * entering@[e] == edge_norm(edge_index@, e)
                        &&& leaving@[e] >= 1
                        &&& entering@[e] >= 1
                    }
            },
            Err(GnnError::NodeIndexOutOfRange { num_nodes: n }) => {
                &&& !(row_in_range(sources(edge_index@), num_nodes as int) && row_in_range(
                    targets(edge_index@),
                    num_nodes as int,
                ))
                &&& n == num_nodes
            },
            Err(_) => false,
        },
{
    let leaving = source_degrees(edge_index, num_nodes)?;
    let entering = target_degrees(edge_index, num_nodes)?;
    proof {
        assert forall|e: int| 0 <= e < edge_index@.len() implies {
            &&& #[trigger] leaving@[e] as nat == floored(out_degree_of(edge_index@, edge_index@[e].0 as int))
            &&& entering@[e] as nat == floored(in_degree_of(edge_index@, edge_index@[e].1 as int))
            &&& leaving@[e] * entering@[e] == edge_norm(edge_index@, e)
            &&& leaving@[e] >= 1
            &&& entering@[e] >= 1
        } by {
            assert(entering@[e] as nat == floored(in_degree_of(edge_index@, edge_index@[e].1 as int)));
        }
    }
    Ok((leaving, entering))
}

/// A row with every node renamed by `rename`.
pub open spec fn renamed_row(row: Seq<u32>, rename: spec_fn(u32) -> u32) -> Seq<u32> {
    Seq::new(row.len(), |e: int| rename(row[e]))
}

/// A graph with every node renamed by `rename`, its edges in the same order.
pub open spec fn renamed(edges: Seq<(u32, u32)>, rename: spec_fn(u32) -> u32) -> Seq<(u32, u32)> {
    Seq::new(edges.len(), |e: int| (rename(edges[e].0), rename(edges[e].1)))
}

/// `rename` gives no two nodes the same name.
pub open spec fn one_to_one(rename: spec_fn(u32) -> u32) -> bool {
    forall|a: u32, b: u32| #[trigger] rename(a) == #[trigger] rename(b) ==> a == b
}

/// A node occurs in a row as often as its new name occurs in the renamed row.
pub proof fn lemma_occurrences_renamed(row: Seq<u32>, rename: spec_fn(u32) -> u32, n: u32)
    requires
        one_to_one(rename),
    ensures
        occurrences(renamed_row(row, rename), rename(n) as int) == occurrences(row, n as int),
    decreases row.len(),
{
    if row.len() > 0 {
        lemma_occurrences_renamed(row.drop_last(), rename, n);
        assert(renamed_row(row, rename).drop_last() =~= renamed_row(row.drop_last(), rename));
        assert(renamed_row(row, rename).last() == rename(row.last()));
    }
}

/// Renaming the nodes of a graph one to one moves every degree with its node
/// and leaves the normalisation of every edge as it was: the layers built on
/// degrees treat a relabelled graph as they treat the graph.
pub proof fn lemma_degrees_renamed(edges: Seq<(u32, u32)>, rename: spec_fn(u32) -> u32)
    requires
        one_to_one(rename),
    ensures
        forall|n: u32|
            out_degree_of(renamed(edges, rename), #[trigger] rename(n) as int) == out_degree_of(edges, n as int),
        forall|n: u32|
            in_degree_of(renamed(edges, rename), #[trigger] rename(n) as int) == in_degree_of(edges, n as int),
        forall|e: int| 0 <= e < edges.len() ==> #[trigger] edge_norm(renamed(edges, rename), e) == edge_norm(edges, e),
{
    let moved = renamed(edges, rename);
    assert(sources(moved) =~= renamed_row(sources(edges), rename));
    assert(targets(moved) =~= renamed_row(targets(edges), rename));
    assert forall|n: u32| out_degree_of(moved, #[trigger] rename(n) as int) == out_degree_of(edges, n as int) by {
        lemma_occurrences_renamed(sources(edges), rename, n);
    }
    assert forall|n: u32| in_degree_of(moved, #[trigger] rename(n) as int) == in_degree_of(edges, n as int) by {
        lemma_occurrences_renamed(targets(edges), rename, n);
    }
    assert forall|e: int| 0 <= e < edges.len() implies #[trigger] edge_norm(moved, e) == edge_norm(edges, e) by {
        lemma_occurrences_renamed(sources(edges), rename, edges[e].0);
        lemma_occurrences_renamed(targets(edges), rename, edges[e].1);
    }
}

} // verus!
