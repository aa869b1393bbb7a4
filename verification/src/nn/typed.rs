//! Collections keyed by a node type or by a relation.
//!
//! A collection is a list of entries, each a key and a value. Two keys are the
//! same where their codes are equal. Where a key occurs more than once, its
//! last entry counts, as in a map that was filled in the order of the list.
//!
//! Lists take the place of hash maps for two reasons. A key type says of
//! itself when two keys are the same, and proves it; how a hash map compares
//! and hashes keys of a caller's type is nothing a proof can rest on. And a
//! pass walks the entries in their order, so the order of the results, and of
//! the additions behind them, is the same in every run.

use vstd::prelude::*;
use candle_core::Tensor;
use crate::nn::tensor::tensor_dims;

verus! {

/// An identifier of a node type or of an edge type.
pub trait TypeKey: Copy {
    /// The number that stands for the identifier: two identifiers are the same
    /// exactly if their codes are equal.
    spec fn code(&self) -> int;

    /// Whether two identifiers are the same.
    fn same(&self, other: &Self) -> (b: bool)
        ensures
            b == (self.code() == other.code()),
    ;
}

/// The codes of a relation: those of its source type, its edge type and its
/// target type.
pub open spec fn relation_code<N: TypeKey, E: TypeKey>(r: (N, E, N)) -> (int, int, int) {
    (r.0.code(), r.1.code(), r.2.code())
}

/// Whether two relations are the same.
pub fn same_relation<N: TypeKey, E: TypeKey>(a: &(N, E, N), b: &(N, E, N)) -> (same: bool)
    ensures
        same == (relation_code(*a) == relation_code(*b)),
{
    a.0.same(&b.0) && a.1.same(&b.1) && a.2.same(&b.2)
}

/// Some entry of `entries` has a key with code `k`.
pub open spec fn has_key<K: TypeKey, V>(entries: Seq<(K, V)>, k: int) -> bool {
    exists|i: int| 0 <= i < entries.len() && (#[trigger] entries[i]).0.code() == k
}

/// No two entries of `entries` have the same key.
pub open spec fn distinct_keys<K: TypeKey, V>(entries: Seq<(K, V)>) -> bool {
    forall|i: int, j: int|
        0 <= i < j < entries.len() ==> (#[trigger] entries[i]).0.code() != (#[trigger] entries[j]).0.code()
}

/// Some entry of `entries` is keyed by the relation with codes `r`.
pub open spec fn has_relation<N: TypeKey, E: TypeKey, V>(entries: Seq<((N, E, N), V)>, r: (int, int, int)) -> bool {
    exists|i: int| 0 <= i < entries.len() && relation_code((#[trigger] entries[i]).0) == r
}

/// No two entries of `entries` are keyed by the same relation.
pub open spec fn distinct_relations<N: TypeKey, E: TypeKey, V>(entries: Seq<((N, E, N), V)>) -> bool {
    forall|i: int, j: int|
        0 <= i < j < entries.len() ==> relation_code((#[trigger] entries[i]).0) != relation_code(
            (#[trigger] entries[j]).0,
        )
}

/// The position of the entry of `entries` that counts for the key with code
/// `k`: the last one with that key, as a later entry replaces an earlier one.
pub open spec fn position<K: TypeKey, V>(entries: Seq<(K, V)>, k: int) -> Option<int>
    decreases entries.len(),
{
    if entries.len() == 0 {
        None
    } else if entries.last().0.code() == k {
        Some(entries.len() - 1)
    } else {
        position(entries.drop_last(), k)
    }
}

/// The value that `entries` holds for the key with code `k`.
pub open spec fn lookup<K: TypeKey, V>(entries: Seq<(K, V)>, k: int) -> Option<V> {
    match position(entries, k) {
        Some(i) => Some(entries[i].1),
        None => None,
    }
}

/// The position of the entry of `entries` that counts for the relation with
/// codes `r`: the last one keyed by it.
pub open spec fn relation_position<N: TypeKey, E: TypeKey, V>(entries: Seq<((N, E, N), V)>, r: (int, int, int)) -> Option<
    int,
>
    decreases entries.len(),
{
    if entries.len() == 0 {
        None
    } else if relation_code(entries.last().0) == r {
        Some(entries.len() - 1)
    } else {
        relation_position(entries.drop_last(), r)
    }
}

/// The value that `entries` holds for the relation with codes `r`.
pub open spec fn lookup_relation<N: TypeKey, E: TypeKey, V>(entries: Seq<((N, E, N), V)>, r: (int, int, int)) -> Option<
    V,
> {
    match relation_position(entries, r) {
        Some(i) => Some(entries[i].1),
        None => None,
    }
}

/// The position that counts for a key is a position of an entry with that
/// key, and there is one exactly if some entry has the key.
pub proof fn lemma_position<K: TypeKey, V>(entries: Seq<(K, V)>, k: int)
    ensures
        position(entries, k) matches Some(i) ==> 0 <= i < entries.len() && entries[i].0.code() == k,
        position(entries, k) is Some <==> has_key(entries, k),
    decreases entries.len(),
{
    if entries.len() > 0 {
        let rest = entries.drop_last();
        lemma_position(rest, k);
        if has_key(rest, k) {
            let i = choose|i: int| 0 <= i < rest.len() && (#[trigger] rest[i]).0.code() == k;
            assert(entries[i].0.code() == k);
        }
        if has_key(entries, k) && entries.last().0.code() != k {
            let i = choose|i: int| 0 <= i < entries.len() && (#[trigger] entries[i]).0.code() == k;
            assert(rest[i].0.code() == k);
        }
        if entries.last().0.code() == k {
            assert(entries[entries.len() - 1].0.code() == k);
        }
    }
}

/// The position that counts for a relation is a position of an entry keyed
/// by it, and there is one exactly if some entry is keyed by it.
pub proof fn lemma_relation_position<N: TypeKey, E: TypeKey, V>(entries: Seq<((N, E, N), V)>, r: (int, int, int))
    ensures
        relation_position(entries, r) matches Some(i) ==> 0 <= i < entries.len() && relation_code(entries[i].0)
            == r,
        relation_position(entries, r) is Some <==> has_relation(entries, r),
    decreases entries.len(),
{
    if entries.len() > 0 {
        let rest = entries.drop_last();
        lemma_relation_position(rest, r);
        if has_relation(rest, r) {
            let i = choose|i: int| 0 <= i < rest.len() && relation_code((#[trigger] rest[i]).0) == r;
            assert(relation_code(entries[i].0) == r);
        }
        if has_relation(entries, r) && relation_code(entries.last().0) != r {
            let i = choose|i: int| 0 <= i < entries.len() && relation_code((#[trigger] entries[i]).0) == r;
            assert(relation_code(rest[i].0) == r);
        }
        if relation_code(entries.last().0) == r {
            assert(relation_code(entries[entries.len() - 1].0) == r);
        }
    }
}

/// Finds the entry of `entries` that counts for `key`.
pub fn find_key<K: TypeKey, V>(entries: &[(K, V)], key: &K) -> (r: Option<usize>)
    ensures
        match r {
            Some(i) => position(entries@, key.code()) == Some(i as int) && i < entries@.len(),
            None => position(entries@, key.code()) is None,
        },
{
    let mut i: usize = entries.len();
    proof {
        assert(entries@.take(entries@.len() as int) =~= entries@);
    }
    while i > 0
        invariant
            i <= entries@.len(),
            position(entries@, key.code()) == position(entries@.take(i as int), key.code()),
        decreases i,
    {
        i -= 1;
        proof {
            assert(entries@.take(i + 1).drop_last() =~= entries@.take(i as int));
            assert(entries@.take(i + 1).last() == entries@[i as int]);
        }
        if entries[i].0.same(key) {
            return Some(i);
        }
    }
    None
}

/// Finds the entry of `entries` that counts for `relation`.
pub fn find_relation<N: TypeKey, E: TypeKey, V>(entries: &[((N, E, N), V)], relation: &(N, E, N)) -> (r: Option<usize>)
    ensures
        match r {
            Some(i) => relation_position(entries@, relation_code(*relation)) == Some(i as int) && i
                < entries@.len(),
            None => relation_position(entries@, relation_code(*relation)) is None,
        },
{
    let mut i: usize = entries.len();
    proof {
        assert(entries@.take(entries@.len() as int) =~= entries@);
    }
    while i > 0
        invariant
            i <= entries@.len(),
            relation_position(entries@, relation_code(*relation)) == relation_position(
                entries@.take(i as int),
                relation_code(*relation),
            ),
        decreases i,
    {
        i -= 1;
        proof {
            assert(entries@.take(i + 1).drop_last() =~= entries@.take(i as int));
            assert(entries@.take(i + 1).last() == entries@[i as int]);
        }
        if same_relation(&entries[i].0, relation) {
            return Some(i);
        }
    }
    None
}

/// The position of the entry of `entries` that counts for `key`, where there
/// is one.
pub fn key_position<K: TypeKey, V>(entries: &[(K, V)], key: &K) -> (at: usize)
    requires
        position(entries@, key.code()) is Some,
    ensures
        position(entries@, key.code()) == Some(at as int),
        at < entries@.len(),
        entries@[at as int].0.code() == key.code(),
{
    proof {
        lemma_position(entries@, key.code());
    }
    match find_key(entries, key) {
        Some(at) => at,
        None => 0,
    }
}

/// The position of the entry of `entries` that counts for `relation`, where
/// there is one.
pub fn relation_key_position<N: TypeKey, E: TypeKey, V>(entries: &[((N, E, N), V)], relation: &(N, E, N)) -> (at: usize)
    requires
        relation_position(entries@, relation_code(*relation)) is Some,
    ensures
        relation_position(entries@, relation_code(*relation)) == Some(at as int),
        at < entries@.len(),
{
    match find_relation(entries, relation) {
        Some(at) => at,
        None => 0,
    }
}

/// Looks up the width declared for the node type `key`: that of the last
/// entry for it.
pub fn lookup_dim<K: TypeKey>(dims: &[(K, usize)], key: &K) -> (r: Option<usize>)
    ensures
        r == lookup(dims@, key.code()),
{
    match find_key(dims, key) {
        Some(i) => Some(dims[i].1),
        None => None,
    }
}

/// Two collections with the same keys at the same positions hold the key
/// with code `k` at the same position.
pub proof fn lemma_same_positions<K: TypeKey, V, W>(a: Seq<(K, V)>, b: Seq<(K, W)>, k: int)
    requires
        a.len() == b.len(),
        forall|i: int| 0 <= i < a.len() ==> (#[trigger] a[i]).0.code() == b[i].0.code(),
    ensures
        position(a, k) == position(b, k),
    decreases a.len(),
{
    if a.len() > 0 {
        assert(a[a.len() - 1].0.code() == b[b.len() - 1].0.code());
        assert forall|i: int| 0 <= i < a.drop_last().len() implies (#[trigger] a.drop_last()[i]).0.code() == b.drop_last()[i].0.code() by {
            assert(a[i].0.code() == b[i].0.code());
        }
        lemma_same_positions(a.drop_last(), b.drop_last(), k);
    }
}

/// The number of rows of the features that `xs` holds for the node type with
/// code `k`.
pub open spec fn rows_of<N: TypeKey>(xs: Seq<(N, Tensor)>, k: int) -> usize {
    tensor_dims(lookup(xs, k)->Some_0)[0]
}

/// Every matrix that `h` holds has as many rows as the features that `xs`
/// holds for the same node type, and those are a matrix too.
pub open spec fn rows_follow<N: TypeKey>(xs: Seq<(N, Tensor)>, h: Seq<(N, Tensor)>) -> bool {
    forall|k: int|
        (#[trigger] lookup(h, k)) is Some ==> {
            &&& lookup(xs, k) is Some
            &&& tensor_dims(lookup(h, k)->Some_0).len() == 2 ==> tensor_dims(lookup(xs, k)->Some_0).len() == 2
                && rows_of(h, k) == rows_of(xs, k)
        }
}

} // verus!
