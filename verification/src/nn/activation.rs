//! The nonlinearity between layers.

use vstd::prelude::*;
use candle_core::Tensor;
use candle_nn::Activation;
use crate::nn::error::{from_backend, GnnError};
use crate::nn::tensor::{
    activated, activation_forward, activation_is_gated, dims, is_float, is_gated, same_leading, tensor_dims,
    tensor_is_float,
};

verus! {

/// A gated activation cannot run on a tensor with extents `d`: there is no
/// innermost axis, or it is too short to be cut in two.
pub open spec fn too_narrow(d: Seq<usize>) -> bool {
    d.len() == 0 || d.last() < 2
}

/// Applies the nonlinearity to every element of `t`.
///
/// The result is what the runtime's activation gives for `t`. It has the
/// extents of `t`, but for a gated activation, which halves the innermost
/// axis. The call is refused, before any arithmetic, where `t` holds no
/// floating-point numbers, and where the activation is gated and the
/// innermost axis of `t` is shorter than 2; otherwise it fails only where
/// the runtime refuses.
pub fn activate(activation: &Activation, t: &Tensor) -> (r: Result<Tensor, GnnError>)
    ensures
        match r {
            Ok(y) => {
                &&& activated(*activation, *t) == Some(y)
                &&& tensor_is_float(*t)
                &&& tensor_is_float(y)
                &&& same_leading(tensor_dims(*t), tensor_dims(y))
                &&& !activation_is_gated(*activation) ==> tensor_dims(y) == tensor_dims(*t)
                &&& activation_is_gated(*activation) ==> !too_narrow(tensor_dims(*t))
            },
            Err(GnnError::NotFloatingPoint) => !tensor_is_float(*t),
            Err(GnnError::FeatureDim { expected, found }) => {
                &&& tensor_is_float(*t)
                &&& activation_is_gated(*activation)
                &&& too_narrow(tensor_dims(*t))
                &&& expected == 2
                &&& found == if tensor_dims(*t).len() == 0 { 0usize } else { tensor_dims(*t).last() }
            },
            Err(GnnError::Backend(_)) => {
                &&& tensor_is_float(*t)
                &&& activation_is_gated(*activation) ==> !too_narrow(tensor_dims(*t))
                &&& activated(*activation, *t) is None
            },
            Err(_) => false,
        },
{
    if !is_float(t) {
        return Err(GnnError::NotFloatingPoint);
    }
    if is_gated(activation) {
        let d = dims(t);
        if d.len() == 0 {
            return Err(GnnError::FeatureDim { expected: 2, found: 0 });
        }
        let width = d[d.len() - 1];
        if width < 2 {
            return Err(GnnError::FeatureDim { expected: 2, found: width });
        }
    }
    from_backend(activation_forward(activation, t))
}

} // verus!
