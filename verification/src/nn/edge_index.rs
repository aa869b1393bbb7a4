//! Edge lists in coordinate form.

use vstd::prelude::*;
use crate::nn::error::GnnError;

verus! {

/// The source row of an edge list.
pub open spec fn sources(edges: Seq<(u32, u32)>) -> Seq<u32> {
    Seq::new(edges.len(), |e: int| edges[e].0)
}

/// The target row of an edge list.
pub open spec fn targets(edges: Seq<(u32, u32)>) -> Seq<u32> {
    Seq::new(edges.len(), |e: int| edges[e].1)
}

/// The edge list whose rows are `source` and `target`, cut to the shorter row.
pub open spec fn zip_rows(source: Seq<u32>, target: Seq<u32>) -> Seq<(u32, u32)> {
    Seq::new(
        if source.len() <= target.len() { source.len() } else { target.len() },
        |e: int| (source[e], target[e]),
    )
}

/// Every entry of `row` is a node of a graph with `num_nodes` nodes.
pub open spec fn row_in_range(row: Seq<u32>, num_nodes: int) -> bool {
    forall|e: int| 0 <= e < row.len() ==> (#[trigger] row[e] as int) < num_nodes
}

/// Some entry of `row` is node `n`.
pub open spec fn mentions(row: Seq<u32>, n: int) -> bool {
    exists|e: int| 0 <= e < row.len() && #[trigger] row[e] as int == n
}

/// The least node count that covers every entry of `row`: one more than the
/// largest entry, and 0 for an empty row.
pub open spec fn span(row: Seq<u32>) -> nat
    decreases row.len(),
{
    if row.len() == 0 {
        0
    } else {
        let rest = span(row.drop_last());
        if row.last() as nat + 1 > rest { row.last() as nat + 1 } else { rest }
    }
}

/// `span(row)` covers every entry of `row`.
pub proof fn lemma_span_covers(row: Seq<u32>)
    ensures
        row_in_range(row, span(row) as int),
    decreases row.len(),
{
    if row.len() > 0 {
        lemma_span_covers(row.drop_last());
        assert forall|e: int| 0 <= e < row.len() implies (#[trigger] row[e] as int) < span(row) by {
            if e < row.len() - 1 {
                assert(row.drop_last()[e] == row[e]);
            }
        }
    }
}

/// No node count below `span(row)` covers every entry of `row`.
pub proof fn lemma_span_least(row: Seq<u32>, num_nodes: int)
    requires
        row_in_range(row, num_nodes),
        0 <= num_nodes,
    ensures
        span(row) <= num_nodes,
    decreases row.len(),
{
    if row.len() > 0 {
        assert forall|e: int| 0 <= e < row.drop_last().len() implies (#[trigger] row.drop_last()[e] as int)
            < num_nodes by {
            assert(row.drop_last()[e] == row[e]);
        }
        lemma_span_least(row.drop_last(), num_nodes);
        assert((row[row.len() - 1] as int) < num_nodes);
    }
}

/// A directed multigraph as two parallel rows: edge `e` runs from node
/// `source[e]` to node `target[e]`. Self-loops and repeated edges are kept as
/// given; an undirected edge is written as both of its directions.
///
/// The two rows always have the same length, which a `u32` can hold.
pub struct EdgeIndex {
    pub(crate) source: Vec<u32>,
    pub(crate) target: Vec<u32>,
}

impl View for EdgeIndex {
    type V = Seq<(u32, u32)>;

    closed spec fn view(&self) -> Seq<(u32, u32)> {
        zip_rows(self.source@, self.target@)
    }
}

impl EdgeIndex {
    #[verifier::type_invariant]
    pub(crate) closed spec fn paired(self) -> bool {
        self.source@.len() == self.target@.len() && self.source@.len() <= u32::MAX
    }

    /// Builds the edge list with the given rows.
    ///
    /// Rows of different length are refused, and so is a list with more than
    /// `u32::MAX` edges.
    pub fn new(source: Vec<u32>, target: Vec<u32>) -> (r: Result<EdgeIndex, GnnError>)
        ensures
            match r {
                Ok(g) => {
                    &&& source@.len() == target@.len()
                    &&& source@.len() <= u32::MAX
                    &&& g@ == zip_rows(source@, target@)
                },
                Err(GnnError::RaggedEdgeIndex { sources, targets }) => {
                    &&& source@.len() != target@.len()
                    &&& sources == source@.len()
                    &&& targets == target@.len()
                },
                Err(GnnError::TooManyEdges { edges }) => {
                    &&& source@.len() == target@.len()
                    &&& source@.len() > u32::MAX
                    &&& edges == source@.len()
                },
                Err(_) => false,
            },
    {
        if source.len() != target.len() {
            return Err(GnnError::RaggedEdgeIndex { sources: source.len(), targets: target.len() });
        }
        if source.len() > 0xffff_ffff {
            return Err(GnnError::TooManyEdges { edges: source.len() });
        }
        Ok(EdgeIndex { source, target })
    }

    /// The number of edges.
    pub fn len(&self) -> (n: usize)
        ensures
            n == self@.len(),
            n <= u32::MAX,
    {
        proof {
            use_type_invariant(self);
        }
        self.source.len()
    }

    /// The node that edge `e` leaves.
    pub fn source(&self, e: usize) -> (n: u32)
        requires
            e < self@.len(),
        ensures
            n == self@[e as int].0,
    {
        proof {
            use_type_invariant(self);
        }
        self.source[e]
    }

    /// The node that edge `e` enters.
    pub fn target(&self, e: usize) -> (n: u32)
        requires
            e < self@.len(),
        ensures
            n == self@[e as int].1,
    {
        proof {
            use_type_invariant(self);
        }
        self.target[e]
    }

    /// The source row.
    pub fn source_row(&self) -> (row: &Vec<u32>)
        ensures
            row@ == sources(self@),
            row@.len() <= u32::MAX,
    {
        proof {
            use_type_invariant(self);
            assert(self.source@ =~= sources(self@));
        }
        &self.source
    }

    /// The target row.
    pub fn target_row(&self) -> (row: &Vec<u32>)
        ensures
            row@ == targets(self@),
            row@.len() <= u32::MAX,
    {
        proof {
            use_type_invariant(self);
            assert(self.target@ =~= targets(self@));
        }
        &self.target
    }

    /// The edge list with every edge turned round.
    pub fn reversed(&self) -> (r: EdgeIndex)
        ensures
            r@.len() == self@.len(),
            forall|e: int| 0 <= e < self@.len() ==> r@[e] == (self@[e].1, #[trigger] self@[e].0),
    {
        proof {
            use_type_invariant(self);
        }
        let r = EdgeIndex { source: self.target.clone(), target: self.source.clone() };
        assert(r@ =~= Seq::new(self@.len(), |e: int| (self@[e].1, self@[e].0)));
        r
    }
}

/// Whether every entry of `row` is below `num_nodes`.
pub fn all_below(row: &Vec<u32>, num_nodes: usize) -> (ok: bool)
    ensures
        ok == row_in_range(row@, num_nodes as int),
{
    let mut e: usize = 0;
    while e < row.len()
        invariant
            e <= row.len(),
            forall|k: int| 0 <= k < e ==> (#[trigger] row@[k] as int) < num_nodes,
        decreases row.len() - e,
    {
        if row[e] as usize >= num_nodes {
            return false;
        }
        e += 1;
    }
    true
}

/// One more than the largest entry of `row`, or 0 for an empty row.
pub fn row_span(row: &Vec<u32>) -> (n: u64)
    ensures
        n == span(row@),
        n <= u32::MAX as u64 + 1,
{
    let mut n: u64 = 0;
    let mut e: usize = 0;
    while e < row.len()
        invariant
            e <= row.len(),
            n == span(row@.take(e as int)),
            n <= u32::MAX as u64 + 1,
        decreases row.len() - e,
    {
        proof {
            assert(row@.take(e + 1).drop_last() =~= row@.take(e as int));
        }
        let here: u64 = row[e] as u64 + 1;
        if here > n {
            n = here;
        }
        e += 1;
    }
    proof {
        assert(row@.take(row@.len() as int) =~= row@);
    }
    n
}

} // verus!
