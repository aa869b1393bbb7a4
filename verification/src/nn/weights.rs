//! Which weights a model needs, and with which extents.
//!
//! The functions here turn the sizes that a model is described by into the
//! list of weights to create. Creating and initialising the tensors is left to
//! the caller.

use vstd::prelude::*;
use crate::nn::typed::{
    distinct_keys, distinct_relations, find_key, find_relation, has_key, has_relation, key_position,
    lemma_position, lemma_relation_position, lookup, lookup_dim, position, relation_code, relation_position,
    TypeKey,
};

verus! {

/// The extents of the weights of a stack of layers with the given sizes:
/// layer `i` takes rows of width `sizes[i]` and returns rows of width
/// `sizes[i + 1]`.
pub fn stack_shapes(sizes: &[usize]) -> (r: Vec<(usize, usize)>)
    requires
        sizes@.len() >= 1,
    ensures
        r@.len() == sizes@.len() - 1,
        forall|i: int| 0 <= i < r@.len() ==> #[trigger] r@[i] == (sizes@[i], sizes@[i + 1]),
{
    let mut r: Vec<(usize, usize)> = Vec::new();
    let mut i: usize = 0;
    while i < sizes.len() - 1
        invariant
            sizes@.len() >= 1,
            i <= sizes@.len() - 1,
            r@.len() == i,
            forall|k: int| 0 <= k < i ==> #[trigger] r@[k] == (sizes@[k], sizes@[k + 1]),
        decreases sizes@.len() - 1 - i,
    {
        r.push((sizes[i], sizes[i + 1]));
        i += 1;
    }
    r
}

/// The sizes and head counts describe a stack of attention layers: there is
/// a head count for every layer, none is 0, and each divides the width of the
/// rows that its layer returns.
pub open spec fn heads_fit(sizes: Seq<usize>, heads: Seq<usize>) -> bool {
    &&& sizes.len() >= 1
    &&& heads.len() >= sizes.len() - 1
    &&& forall|i: int| 0 <= i < sizes.len() - 1 ==> #[trigger] heads[i] > 0 && sizes[i + 1] % heads[i] == 0
}

/// Whether the sizes and head counts describe a stack of attention layers.
pub fn check_heads(sizes: &[usize], heads: &[usize]) -> (ok: bool)
    ensures
        ok == heads_fit(sizes@, heads@),
{
    if sizes.len() < 1 || heads.len() < sizes.len() - 1 {
        return false;
    }
    let mut i: usize = 0;
    while i < sizes.len() - 1
        invariant
            sizes@.len() >= 1,
            heads@.len() >= sizes@.len() - 1,
            i <= sizes@.len() - 1,
            forall|k: int| 0 <= k < i ==> #[trigger] heads@[k] > 0 && sizes@[k + 1] % heads@[k] == 0,
        decreases sizes@.len() - 1 - i,
    {
        if heads[i] == 0 || sizes[i + 1] % heads[i] != 0 {
            assert(!(heads@[i as int] > 0 && sizes@[i + 1] % heads@[i as int] == 0));
            return false;
        }
        i += 1;
    }
    true
}

/// The layers of a stack of attention layers: for layer `i` the width of the
/// rows it takes, the width of the rows it returns, the number of heads and
/// the width of one head.
pub fn attention_shapes(sizes: &[usize], heads: &[usize]) -> (r: Vec<(usize, usize, usize, usize)>)
    requires
        heads_fit(sizes@, heads@),
    ensures
        r@.len() == sizes@.len() - 1,
        forall|i: int|
            0 <= i < r@.len() ==> #[trigger] r@[i] == (
                sizes@[i],
                sizes@[i + 1],
                heads@[i],
                (sizes@[i + 1] / heads@[i]) as usize,
            ),
{
    let mut r: Vec<(usize, usize, usize, usize)> = Vec::new();
    let mut i: usize = 0;
    while i < sizes.len() - 1
        invariant
            heads_fit(sizes@, heads@),
            i <= sizes@.len() - 1,
            r@.len() == i,
            forall|k: int|
                0 <= k < i ==> #[trigger] r@[k] == (
                    sizes@[k],
                    sizes@[k + 1],
                    heads@[k],
                    (sizes@[k + 1] / heads@[k]) as usize,
                ),
        decreases sizes@.len() - 1 - i,
    {
        assert(heads@[i as int] > 0);
        r.push((sizes[i], sizes[i + 1], heads[i], sizes[i + 1] / heads[i]));
        i += 1;
    }
    r
}

/// The root weights of a relational convolution: one for every node type
/// that `out_dims` declares, taking rows of the width that `in_dims` declares
/// for the type and returning rows of the width that `out_dims` declares.
/// Where a type is declared more than once, its last declaration counts.
///
/// Every node type of `out_dims` must be declared in `in_dims`.
pub fn node_weight_shapes<N: TypeKey>(in_dims: &[(N, usize)], out_dims: &[(N, usize)]) -> (r: Vec<(N, (usize, usize))>)
    requires
        forall|i: int| 0 <= i < out_dims@.len() ==> has_key(in_dims@, (#[trigger] out_dims@[i]).0.code()),
    ensures
        distinct_keys(r@),
        forall|p: int|
            0 <= p < r@.len() ==> {
                &&& lookup(in_dims@, (#[trigger] r@[p]).0.code()) == Some(r@[p].1.0)
                &&& lookup(out_dims@, r@[p].0.code()) == Some(r@[p].1.1)
            },
        forall|k: int| has_key(out_dims@, k) <==> has_key(r@, k),
{
    let mut r: Vec<(N, (usize, usize))> = Vec::new();
    let mut i: usize = 0;
    while i < out_dims.len()
        invariant
            i <= out_dims@.len(),
            forall|i: int| 0 <= i < out_dims@.len() ==> has_key(in_dims@, (#[trigger] out_dims@[i]).0.code()),
            distinct_keys(r@),
            forall|p: int|
                0 <= p < r@.len() ==> {
                    &&& lookup(in_dims@, (#[trigger] r@[p]).0.code()) == Some(r@[p].1.0)
                    &&& lookup(out_dims@, r@[p].0.code()) == Some(r@[p].1.1)
                },
            forall|k: int| has_key(out_dims@.take(i as int), k) <==> has_key(r@, k),
        decreases out_dims@.len() - i,
    {
        let key = out_dims[i].0;
        let ghost before = r@;
        proof {
            lemma_position(r@, key.code());
            lemma_position(in_dims@, key.code());
            lemma_position(out_dims@, key.code());
            assert(out_dims@[i as int].0.code() == key.code());
        }
        if find_key(r.as_slice(), &key).is_none() {
            let at_in = key_position(in_dims, &key);
            let at_out = key_position(out_dims, &key);
            r.push((key, (in_dims[at_in].1, out_dims[at_out].1)));
            proof {
                assert forall|a: int, b: int| 0 <= a < b < r@.len() implies (#[trigger] r@[a]).0.code() != (
                #[trigger] r@[b]).0.code() by {
                    if b == before.len() {
                        assert(before[a].0.code() != key.code());
                    } else {
                        assert(before[a].0.code() != before[b].0.code());
                    }
                }
                assert forall|p: int| 0 <= p < r@.len() implies lookup(in_dims@, (#[trigger] r@[p]).0.code())
                    == Some(r@[p].1.0) && lookup(out_dims@, r@[p].0.code()) == Some(r@[p].1.1) by {
                    if p < before.len() {
                        assert(r@[p] == before[p]);
                    }
                }
            }
        }
        proof {
            let next = out_dims@.take(i + 1);
            let prev = out_dims@.take(i as int);
            assert forall|k: int| has_key(next, k) <==> has_key(r@, k) by {
                if has_key(next, k) {
                    let w = choose|w: int| 0 <= w < next.len() && (#[trigger] next[w]).0.code() == k;
                    if w < i {
                        assert(prev[w].0.code() == k);
                        assert(has_key(before, k));
                        let p = choose|p: int| 0 <= p < before.len() && (#[trigger] before[p]).0.code() == k;
                        assert(r@[p].0.code() == k);
                    } else {
                        assert(k == key.code());
                        if has_key(before, k) {
                            let p = choose|p: int| 0 <= p < before.len() && (#[trigger] before[p]).0.code() == k;
                            assert(r@[p].0.code() == k);
                        } else {
                            assert(r@[r@.len() - 1].0.code() == k);
                        }
                    }
                }
                if has_key(r@, k) {
                    let p = choose|p: int| 0 <= p < r@.len() && (#[trigger] r@[p]).0.code() == k;
                    if p < before.len() {
                        assert(before[p].0.code() == k);
                        assert(has_key(before, k));
                        assert(has_key(prev, k));
                        let w = choose|w: int| 0 <= w < prev.len() && (#[trigger] prev[w]).0.code() == k;
                        assert(next[w].0.code() == k);
                    } else {
                        assert(next[i as int].0.code() == k);
                    }
                }
            }
        }
        i += 1;
    }
    proof {
        assert(out_dims@.take(out_dims@.len() as int) =~= out_dims@);
    }
    r
}

/// A relation gets a weight: the width of the rows of its source type and
/// the width of the output rows of its target type are both declared.
pub open spec fn relation_declared<N: TypeKey, E: TypeKey>(
    in_dims: Seq<(N, usize)>,
    out_dims: Seq<(N, usize)>,
    relation: (N, E, N),
) -> bool {
    lookup(in_dims, relation.0.code()) is Some && lookup(out_dims, relation.2.code()) is Some
}

/// The relation weights of a relational convolution: one for every relation
/// of `edge_types` whose source type is declared in `in_dims` and whose
/// target type is declared in `out_dims`, taking rows of the source's input
/// width and returning rows of the target's output width. A relation that
/// lacks either declaration gets no weight, and a relation that is listed
/// twice gets one.
pub fn edge_weight_shapes<N: TypeKey, E: TypeKey>(
    in_dims: &[(N, usize)],
    out_dims: &[(N, usize)],
    edge_types: &[(N, E, N)],
) -> (r: Vec<((N, E, N), (usize, usize))>)
    ensures
        distinct_relations(r@),
        forall|p: int|
            0 <= p < r@.len() ==> {
                &&& lookup(in_dims@, (#[trigger] r@[p]).0.0.code()) == Some(r@[p].1.0)
                &&& lookup(out_dims@, r@[p].0.2.code()) == Some(r@[p].1.1)
                &&& exists|t: int|
                    0 <= t < edge_types@.len() && relation_code(#[trigger] edge_types@[t]) == relation_code(
                        r@[p].0,
                    )
            },
        forall|t: int|
            0 <= t < edge_types@.len() ==> (relation_declared(in_dims@, out_dims@, #[trigger] edge_types@[t])
                <==> has_relation(r@, relation_code(edge_types@[t]))),
{
    let mut r: Vec<((N, E, N), (usize, usize))> = Vec::new();
    let mut i: usize = 0;
    while i < edge_types.len()
        invariant
            i <= edge_types@.len(),
            distinct_relations(r@),
            forall|p: int|
                0 <= p < r@.len() ==> {
                    &&& lookup(in_dims@, (#[trigger] r@[p]).0.0.code()) == Some(r@[p].1.0)
                    &&& lookup(out_dims@, r@[p].0.2.code()) == Some(r@[p].1.1)
                    &&& exists|t: int|
                        0 <= t < i && relation_code(#[trigger] edge_types@[t]) == relation_code(r@[p].0)
                },
            forall|t: int|
                0 <= t < i ==> (relation_declared(in_dims@, out_dims@, #[trigger] edge_types@[t]) <==> has_relation(
                    r@,
                    relation_code(edge_types@[t]),
                )),
        decreases edge_types@.len() - i,
    {
        let relation = edge_types[i];
        let ghost before = r@;
        proof {
            lemma_relation_position(r@, relation_code(relation));
        }
        let known = find_relation(r.as_slice(), &relation).is_some();
        if !known {
            if let Some(width_in) = lookup_dim(in_dims, &relation.0) {
                if let Some(width_out) = lookup_dim(out_dims, &relation.2) {
                    r.push((relation, (width_in, width_out)));
                    proof {
                        assert forall|a: int, b: int| 0 <= a < b < r@.len() implies relation_code(
                            (#[trigger] r@[a]).0,
                        ) != relation_code((#[trigger] r@[b]).0) by {
                            if b == before.len() {
                                assert(relation_code(before[a].0) != relation_code(relation));
                            } else {
                                assert(relation_code(before[a].0) != relation_code(before[b].0));
                            }
                        }
                        assert(relation_code(r@[r@.len() - 1].0) == relation_code(relation));
                    }
                }
            }
        }
        proof {
            assert forall|p: int| 0 <= p < r@.len() implies {
                &&& lookup(in_dims@, (#[trigger] r@[p]).0.0.code()) == Some(r@[p].1.0)
                &&& lookup(out_dims@, r@[p].0.2.code()) == Some(r@[p].1.1)
                &&& exists|t: int|
                    0 <= t < i + 1 && relation_code(#[trigger] edge_types@[t]) == relation_code(r@[p].0)
            } by {
                if p < before.len() {
                    assert(r@[p] == before[p]);
                    let t = choose|t: int|
                        0 <= t < i && relation_code(#[trigger] edge_types@[t]) == relation_code(before[p].0);
                    assert(relation_code(edge_types@[t]) == relation_code(r@[p].0));
                } else {
                    assert(relation_code(edge_types@[i as int]) == relation_code(r@[p].0));
                }
            }
            assert forall|t: int| 0 <= t < i + 1 implies (relation_declared(
                in_dims@,
                out_dims@,
                #[trigger] edge_types@[t],
            ) <==> has_relation(r@, relation_code(edge_types@[t]))) by {
                let code = relation_code(edge_types@[t]);
                if has_relation(before, code) {
                    let p = choose|p: int| 0 <= p < before.len() && relation_code((#[trigger] before[p]).0) == code;
                    assert(relation_code(r@[p].0) == code);
                }
                if has_relation(r@, code) && !has_relation(before, code) {
                    let p = choose|p: int| 0 <= p < r@.len() && relation_code((#[trigger] r@[p]).0) == code;
                    if p < before.len() {
                        assert(relation_code(before[p].0) == code);
                    }
                }
                if t == i && has_relation(before, code) {
                    let p = choose|p: int| 0 <= p < before.len() && relation_code((#[trigger] before[p]).0) == code;
                    assert(lookup(in_dims@, before[p].0.0.code()) == Some(before[p].1.0));
                }
            }
        }
        i += 1;
    }
    r
}

} // verus!
