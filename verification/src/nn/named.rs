//! Chains of named results.
//!
//! A named result is `None` where the runtime refuses its arguments. The
//! functions here hand a result on to the next operation and give `None`
//! as soon as one step has none.

use vstd::prelude::*;
use candle_core::Tensor;
use candle_nn::{Activation, Linear};
use crate::nn::tensor::{
    activated, cast_as, exponential, gathered, linear_applied, multiplied, quotient, reciprocal, reshaped,
    scatter_added, square_root, summed, summed_last,
};

verus! {

/// The slices of `t` that `rows` names.
pub open spec fn gather_of(t: Option<Tensor>, rows: Seq<u32>) -> Option<Tensor> {
    match t {
        Some(t) => gathered(t, rows),
        None => None,
    }
}

/// `acc` with the slices of `rows` added at `slots`.
pub open spec fn scatter_of(acc: Option<Tensor>, slots: Seq<u32>, rows: Option<Tensor>) -> Option<Tensor> {
    match (acc, rows) {
        (Some(acc), Some(rows)) => scatter_added(acc, slots, rows),
        _ => None,
    }
}

/// The elementwise sum of `a` and `b`.
pub open spec fn sum_of(a: Option<Tensor>, b: Option<Tensor>) -> Option<Tensor> {
    match (a, b) {
        (Some(a), Some(b)) => summed(a, b),
        _ => None,
    }
}

/// The elementwise product of `a` and `b`.
pub open spec fn product_of(a: Option<Tensor>, b: Option<Tensor>) -> Option<Tensor> {
    match (a, b) {
        (Some(a), Some(b)) => multiplied(a, b),
        _ => None,
    }
}

/// The elementwise quotient of `a` and `b`.
pub open spec fn quotient_of(a: Option<Tensor>, b: Option<Tensor>) -> Option<Tensor> {
    match (a, b) {
        (Some(a), Some(b)) => quotient(a, b),
        _ => None,
    }
}

/// The elementwise square root of `t`.
pub open spec fn sqrt_of(t: Option<Tensor>) -> Option<Tensor> {
    match t {
        Some(t) => square_root(t),
        None => None,
    }
}

/// One over every element of `t`.
pub open spec fn recip_of(t: Option<Tensor>) -> Option<Tensor> {
    match t {
        Some(t) => reciprocal(t),
        None => None,
    }
}

/// The exponential of every element of `t`.
pub open spec fn exp_of(t: Option<Tensor>) -> Option<Tensor> {
    match t {
        Some(t) => exponential(t),
        None => None,
    }
}

/// `t` under the extents `shape`.
pub open spec fn reshape_of(t: Option<Tensor>, shape: Seq<usize>) -> Option<Tensor> {
    match t {
        Some(t) => reshaped(t, shape),
        None => None,
    }
}

/// The sums of `t` along its innermost axis.
pub open spec fn sum_last_of(t: Option<Tensor>) -> Option<Tensor> {
    match t {
        Some(t) => summed_last(t),
        None => None,
    }
}

/// `t` in the element type of `like`.
pub open spec fn cast_of(t: Option<Tensor>, like: Tensor) -> Option<Tensor> {
    match t {
        Some(t) => cast_as(t, like),
        None => None,
    }
}

/// The nonlinearity applied to `t`.
pub open spec fn activate_of(activation: Activation, t: Option<Tensor>) -> Option<Tensor> {
    match t {
        Some(t) => activated(activation, t),
        None => None,
    }
}

/// The linear map applied to `t`.
pub open spec fn linear_of(linear: Linear, t: Option<Tensor>) -> Option<Tensor> {
    match t {
        Some(t) => linear_applied(linear, t),
        None => None,
    }
}

} // verus!
