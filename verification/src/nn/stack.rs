//! Stacks of layers: each layer runs on what the layer before it returned.

use vstd::prelude::*;
use candle_core::Tensor;
use candle_nn::{Activation, Dropout};
use crate::nn::activation::{activate, too_narrow};
use crate::nn::edge_index::EdgeIndex;
use crate::nn::error::{from_backend, GnnError};
use crate::nn::tensor::{activated, activation_is_gated, dropout_forward, tensor_dims, tensor_is_float};
use crate::nn::traits::GnnModule;

verus! {

/// What holds of the tensor `d` that dropout returned for `t`: it has the
/// extents and the element kind of `t`, and outside training it is `t`.
pub open spec fn dropout_gave(t: Tensor, d: Tensor, train: bool) -> bool {
    &&& tensor_dims(d) == tensor_dims(t)
    &&& tensor_is_float(d)
    &&& !train ==> d == t
}

/// What the nonlinearity between two layers makes of `h` outside training:
/// dropout hands `h` on as it is, and the activation is applied to it.
/// `None` where `h` cannot be activated or the runtime refuses.
pub open spec fn between_eval(activation: Activation, h: Tensor) -> Option<Tensor> {
    if tensor_is_float(h) && !(activation_is_gated(activation) && too_narrow(tensor_dims(h))) {
        activated(activation, h)
    } else {
        None
    }
}

/// What the first `count` layers of a stack return outside training: the
/// first layer runs on `xs`, and every further layer on the activated result
/// of the layer before it. `None` where a step fails.
pub open spec fn stack_eval<L: GnnModule>(
    layers: Seq<L>,
    activation: Activation,
    xs: Tensor,
    edges: Seq<(u32, u32)>,
    count: nat,
) -> Option<Tensor>
    decreases count,
{
    if count == 0 {
        None
    } else if count == 1 {
        layers[0].outside_training(xs, edges)
    } else {
        match stack_eval(layers, activation, xs, edges, (count - 1) as nat) {
            Some(h) => match between_eval(activation, h) {
                Some(a) => layers[count - 1].outside_training(a, edges),
                None => None,
            },
            None => None,
        }
    }
}

/// Once a step of a stack has failed, the stack has failed.
pub proof fn lemma_stack_eval_failed<L: GnnModule>(
    layers: Seq<L>,
    activation: Activation,
    xs: Tensor,
    edges: Seq<(u32, u32)>,
    failed: nat,
    count: nat,
)
    requires
        1 <= failed <= count,
        stack_eval(layers, activation, xs, edges, failed) is None,
    ensures
        stack_eval(layers, activation, xs, edges, count) is None,
    decreases count,
{
    if failed < count {
        lemma_stack_eval_failed(layers, activation, xs, edges, failed, (count - 1) as nat);
    }
}

/// Layer `i` of a stack, which is not the first, has run: dropout made
/// `dropped[i - 1]` of the result of the layer before it, and the layer ran
/// on the activation of that and returned `outs[i]`.
pub open spec fn stepped<L: GnnModule>(
    layers: Seq<L>,
    activation: Activation,
    edges: Seq<(u32, u32)>,
    train: bool,
    outs: Seq<Tensor>,
    dropped: Seq<Tensor>,
    i: int,
) -> bool {
    &&& dropout_gave(outs[i - 1], dropped[i - 1], train)
    &&& activated(activation, dropped[i - 1]) is Some
    &&& layers[i].promised(activated(activation, dropped[i - 1])->Some_0, edges, train, Ok(outs[i]))
}

/// The layers of a stack have run one after the other: `outs` holds what
/// each of the first layers returned and `dropped` what dropout made of it.
/// The first layer ran on `xs`; every further layer ran on the activated
/// dropout result of the layer before it. No dropout and no activation
/// follows the last layer that ran.
pub open spec fn chained<L: GnnModule>(
    layers: Seq<L>,
    activation: Activation,
    xs: Tensor,
    edges: Seq<(u32, u32)>,
    train: bool,
    outs: Seq<Tensor>,
    dropped: Seq<Tensor>,
) -> bool {
    &&& 1 <= outs.len() <= layers.len()
    &&& dropped.len() == outs.len() - 1
    &&& layers[0].promised(xs, edges, train, Ok(outs[0]))
    &&& forall|i: int| 1 <= i < outs.len() ==> #[trigger] stepped(layers, activation, edges, train, outs, dropped, i)
}

/// `t` is what the whole stack returned: all layers have run one after the
/// other, and `t` is the result of the last one as it is.
pub open spec fn ran_stack<L: GnnModule>(
    layers: Seq<L>,
    activation: Activation,
    xs: Tensor,
    edges: Seq<(u32, u32)>,
    train: bool,
    t: Tensor,
) -> bool {
    exists|outs: Seq<Tensor>, dropped: Seq<Tensor>|
        #[trigger] chained(layers, activation, xs, edges, train, outs, dropped) && outs.len() == layers.len()
            && outs.last() == t
}

/// The nonlinearity between two layers has refused the tensor `d` with the
/// failure `e`: it is gated and `d` has rows shorter than 2, or the runtime
/// has refused.
pub open spec fn activation_failed(activation: Activation, d: Tensor, e: GnnError) -> bool {
    match e {
        GnnError::FeatureDim { expected, found } => {
            &&& activation_is_gated(activation)
            &&& too_narrow(tensor_dims(d))
            &&& expected == 2
            &&& found == if tensor_dims(d).len() == 0 {
                0usize
            } else {
                tensor_dims(d).last()
            }
        },
        GnnError::Backend(_) => !(activation_is_gated(activation) && too_narrow(tensor_dims(d))) && activated(
            activation,
            d,
        ) is None,
        _ => false,
    }
}

/// After `h` had come out of a layer and dropout had made `d` of it, the
/// step into layer `next` failed with `e`: the nonlinearity refused `d`, or
/// the layer failed on the activated `d` as it promises to.
pub open spec fn step_failed<L: GnnModule>(
    layers: Seq<L>,
    activation: Activation,
    edges: Seq<(u32, u32)>,
    train: bool,
    h: Tensor,
    d: Tensor,
    next: int,
    e: GnnError,
) -> bool {
    &&& dropout_gave(h, d, train)
    &&& activation_failed(activation, d, e) || (activated(activation, d) is Some && layers[next].promised(
        activated(activation, d)->Some_0,
        edges,
        train,
        Err(e),
    ))
}

/// The stack failed with `e` after some of its layers had run: dropout
/// refused the result of the last of them, which it can do in training
/// only, or the step into the next layer failed.
pub open spec fn failed_later<L: GnnModule>(
    layers: Seq<L>,
    activation: Activation,
    xs: Tensor,
    edges: Seq<(u32, u32)>,
    train: bool,
    e: GnnError,
) -> bool {
    exists|outs: Seq<Tensor>, dropped: Seq<Tensor>|
        #[trigger] chained(layers, activation, xs, edges, train, outs, dropped) && outs.len() < layers.len() && ((train
            && e is Backend) || exists|d: Tensor| #[trigger]
            step_failed(layers, activation, edges, train, outs.last(), d, outs.len() as int, e))
}

/// What a stack promises of a pass. Where it succeeds, the layers have run
/// one after the other. Where it fails, the first layer has failed as it
/// promises to, or some layers have run and the next step has failed.
pub open spec fn stack_promised<L: GnnModule>(
    layers: Seq<L>,
    activation: Activation,
    xs: Tensor,
    edges: Seq<(u32, u32)>,
    train: bool,
    r: Result<Tensor, GnnError>,
) -> bool {
    match r {
        Ok(t) => ran_stack(layers, activation, xs, edges, train, t),
        Err(e) => layers[0].promised(xs, edges, train, Err(e)) || failed_later(
            layers,
            activation,
            xs,
            edges,
            train,
            e,
        ),
    }
}

/// Runs the first layer, and then for each further layer dropout, the
/// nonlinearity and the layer. Dropout is active only where `train` is set.
///
/// Outside training the result is exactly `stack_eval` of all layers. In
/// either mode a result is the chain of the layers' results, with dropout
/// and the nonlinearity between two layers and none after the last.
pub fn run_stack<L: GnnModule>(
    layers: &Vec<L>,
    dropout: &Dropout,
    activation: &Activation,
    xs: &Tensor,
    edge_index: &EdgeIndex,
    train: bool,
) -> (r: Result<Tensor, GnnError>)
    requires
        layers@.len() >= 1,
    ensures
        stack_promised(layers@, *activation, *xs, edge_index@, train, r),
        r matches Ok(t) ==> train || stack_eval(layers@, *activation, *xs, edge_index@, layers@.len()) == Some(t),
        r is Err ==> train || stack_eval(layers@, *activation, *xs, edge_index@, layers@.len()) is None,
        r matches Ok(t) ==> {
            &&& tensor_is_float(*xs)
            &&& tensor_is_float(t)
            &&& tensor_dims(*xs).len() == 2
            &&& tensor_dims(t).len() == 2
            &&& tensor_dims(t)[0] == tensor_dims(*xs)[0]
        },
{
    let first = layers[0].forward_t(xs, edge_index, train);
    let mut h = match first {
        Ok(h) => h,
        Err(e) => {
            proof {
                if !train {
                    lemma_stack_eval_failed(layers@, *activation, *xs, edge_index@, 1, layers@.len());
                }
            }
            return Err(e);
        },
    };
    let ghost mut outs: Seq<Tensor> = seq![h];
    let ghost mut dropped: Seq<Tensor> = Seq::empty();
    let mut i: usize = 1;
    while i < layers.len()
        invariant
            1 <= i <= layers@.len(),
            outs.len() == i,
            outs.last() == h,
            chained(layers@, *activation, *xs, edge_index@, train, outs, dropped),
            !train ==> stack_eval(layers@, *activation, *xs, edge_index@, i as nat) == Some(h),
            tensor_is_float(*xs),
            tensor_is_float(h),
            tensor_dims(*xs).len() == 2,
            tensor_dims(h).len() == 2,
            tensor_dims(h)[0] == tensor_dims(*xs)[0],
        decreases layers@.len() - i,
    {
        let d = match from_backend(dropout_forward(dropout, &h, train)) {
            Ok(d) => d,
            Err(e) => {
                proof {
                    assert(train && e is Backend);
                    assert(chained(layers@, *activation, *xs, edge_index@, train, outs, dropped) && outs.len()
                        < layers@.len());
                    assert(failed_later(layers@, *activation, *xs, edge_index@, train, e));
                }
                return Err(e);
            },
        };
        let a = match activate(activation, &d) {
            Ok(a) => a,
            Err(e) => {
                proof {
                    assert(dropout_gave(outs.last(), d, train));
                    assert(activation_failed(*activation, d, e));
                    assert(step_failed(layers@, *activation, edge_index@, train, outs.last(), d, i as int, e));
                    assert(chained(layers@, *activation, *xs, edge_index@, train, outs, dropped));
                    assert(failed_later(layers@, *activation, *xs, edge_index@, train, e));
                    if !train {
                        assert(between_eval(*activation, h) is None);
                        lemma_stack_eval_failed(
                            layers@,
                            *activation,
                            *xs,
                            edge_index@,
                            (i + 1) as nat,
                            layers@.len(),
                        );
                    }
                }
                return Err(e);
            },
        };
        let next = match layers[i].forward_t(&a, edge_index, train) {
            Ok(next) => next,
            Err(e) => {
                proof {
                    assert(dropout_gave(outs.last(), d, train));
                    assert(activated(*activation, d) == Some(a));
                    assert(step_failed(layers@, *activation, edge_index@, train, outs.last(), d, i as int, e));
                    assert(chained(layers@, *activation, *xs, edge_index@, train, outs, dropped));
                    assert(failed_later(layers@, *activation, *xs, edge_index@, train, e));
                    if !train {
                        lemma_stack_eval_failed(
                            layers@,
                            *activation,
                            *xs,
                            edge_index@,
                            (i + 1) as nat,
                            layers@.len(),
                        );
                    }
                }
                return Err(e);
            },
        };
        proof {
            let before = outs;
            let before_dropped = dropped;
            assert(chained(layers@, *activation, *xs, edge_index@, train, before, before_dropped));
            outs = outs.push(next);
            dropped = dropped.push(d);
            assert forall|k: int| 1 <= k < outs.len() implies #[trigger] stepped(
                layers@,
                *activation,
                edge_index@,
                train,
                outs,
                dropped,
                k,
            ) by {
                if k < before.len() {
                    assert(stepped(layers@, *activation, edge_index@, train, before, before_dropped, k));
                    assert(outs[k] == before[k]);
                    assert(outs[k - 1] == before[k - 1]);
                    assert(dropped[k - 1] == before_dropped[k - 1]);
                } else {
                    assert(outs[k] == next);
                    assert(outs[k - 1] == h);
                    assert(dropped[k - 1] == d);
                    assert(activated(*activation, d) == Some(a));
                }
            }
            assert(outs[0] == before[0]);
        }
        h = next;
        i += 1;
    }
    proof {
        assert(outs.len() == layers@.len() && outs.last() == h);
    }
    Ok(h)
}

/// What the first `count` layers of a plain chain return outside training:
/// the first layer runs on `xs`, and every further layer on the result of
/// the layer before it. `None` where a layer fails.
pub open spec fn chain_eval<L: GnnModule>(layers: Seq<L>, xs: Tensor, edges: Seq<(u32, u32)>, count: nat) -> Option<
    Tensor,
>
    decreases count,
{
    if count == 0 {
        None
    } else if count == 1 {
        layers[0].outside_training(xs, edges)
    } else {
        match chain_eval(layers, xs, edges, (count - 1) as nat) {
            Some(h) => layers[count - 1].outside_training(h, edges),
            None => None,
        }
    }
}

/// Once a layer of a chain has failed, the chain has failed.
pub proof fn lemma_chain_eval_failed<L: GnnModule>(
    layers: Seq<L>,
    xs: Tensor,
    edges: Seq<(u32, u32)>,
    failed: nat,
    count: nat,
)
    requires
        1 <= failed <= count,
        chain_eval(layers, xs, edges, failed) is None,
    ensures
        chain_eval(layers, xs, edges, count) is None,
    decreases count,
{
    if failed < count {
        lemma_chain_eval_failed(layers, xs, edges, failed, (count - 1) as nat);
    }
}

/// The layers of a plain chain have run one after the other: `outs` holds
/// what each of the first layers returned. The first layer ran on `xs` and
/// every further layer on the result of the layer before it.
pub open spec fn linked<L: GnnModule>(
    layers: Seq<L>,
    xs: Tensor,
    edges: Seq<(u32, u32)>,
    train: bool,
    outs: Seq<Tensor>,
) -> bool {
    &&& 1 <= outs.len() <= layers.len()
    &&& layers[0].promised(xs, edges, train, Ok(outs[0]))
    &&& forall|i: int| 1 <= i < outs.len() ==> (#[trigger] layers[i]).promised(outs[i - 1], edges, train, Ok(outs[i]))
}

/// What a plain chain promises of a pass. Where it succeeds, the layers have
/// run one after the other and the result is that of the last. Where it
/// fails, some layers have run and the next one has failed as it promises
/// to.
pub open spec fn chain_promised<L: GnnModule>(
    layers: Seq<L>,
    xs: Tensor,
    edges: Seq<(u32, u32)>,
    train: bool,
    r: Result<Tensor, GnnError>,
) -> bool {
    match r {
        Ok(t) => exists|outs: Seq<Tensor>| #[trigger]
            linked(layers, xs, edges, train, outs) && outs.len() == layers.len() && outs.last() == t,
        Err(e) => layers[0].promised(xs, edges, train, Err(e)) || exists|outs: Seq<Tensor>| #[trigger]
            linked(layers, xs, edges, train, outs) && outs.len() < layers.len() && layers[outs.len() as int].promised(
                outs.last(),
                edges,
                train,
                Err(e),
            ),
    }
}

/// Runs the layers one after the other, each on the result of the one before
/// it.
///
/// Outside training the result is exactly `chain_eval` of all layers.
pub fn run_chain<L: GnnModule>(layers: &Vec<L>, xs: &Tensor, edge_index: &EdgeIndex, train: bool) -> (r: Result<
    Tensor,
    GnnError,
>)
    requires
        layers@.len() >= 1,
    ensures
        chain_promised(layers@, *xs, edge_index@, train, r),
        r matches Ok(t) ==> train || chain_eval(layers@, *xs, edge_index@, layers@.len()) == Some(t),
        r is Err ==> train || chain_eval(layers@, *xs, edge_index@, layers@.len()) is None,
        r matches Ok(t) ==> {
            &&& tensor_is_float(*xs)
            &&& tensor_is_float(t)
            &&& tensor_dims(*xs).len() == 2
            &&& tensor_dims(t).len() == 2
            &&& tensor_dims(t)[0] == tensor_dims(*xs)[0]
        },
{
    let first = layers[0].forward_t(xs, edge_index, train);
    let mut h = match first {
        Ok(h) => h,
        Err(e) => {
            proof {
                if !train {
                    lemma_chain_eval_failed(layers@, *xs, edge_index@, 1, layers@.len());
                }
            }
            return Err(e);
        },
    };
    let ghost mut outs: Seq<Tensor> = seq![h];
    let mut i: usize = 1;
    while i < layers.len()
        invariant
            1 <= i <= layers@.len(),
            outs.len() == i,
            outs.last() == h,
            linked(layers@, *xs, edge_index@, train, outs),
            !train ==> chain_eval(layers@, *xs, edge_index@, i as nat) == Some(h),
            tensor_is_float(*xs),
            tensor_is_float(h),
            tensor_dims(*xs).len() == 2,
            tensor_dims(h).len() == 2,
            tensor_dims(h)[0] == tensor_dims(*xs)[0],
        decreases layers@.len() - i,
    {
        let next = match layers[i].forward_t(&h, edge_index, train) {
            Ok(next) => next,
            Err(e) => {
                proof {
                    assert(linked(layers@, *xs, edge_index@, train, outs) && outs.len() < layers@.len()
                        && layers@[outs.len() as int].promised(outs.last(), edge_index@, train, Err(e)));
                    if !train {
                        lemma_chain_eval_failed(layers@, *xs, edge_index@, (i + 1) as nat, layers@.len());
                    }
                }
                return Err(e);
            },
        };
        proof {
            let before = outs;
            outs = outs.push(next);
            assert forall|k: int| 1 <= k < outs.len() implies (#[trigger] layers@[k]).promised(
                outs[k - 1],
                edge_index@,
                train,
                Ok(outs[k]),
            ) by {
                if k < before.len() {
                    assert(outs[k] == before[k]);
                    assert(outs[k - 1] == before[k - 1]);
                }
            }
            assert(outs[0] == before[0]);
        }
        h = next;
        i += 1;
    }
    proof {
        assert(outs.len() == layers@.len() && outs.last() == h);
    }
    Ok(h)
}

} // verus!
