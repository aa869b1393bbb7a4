//! Checks on the extents of tensors.

use vstd::prelude::*;
use candle_core::Tensor;
use crate::nn::error::GnnError;
use crate::nn::tensor::{dims, tensor_dims};

verus! {

/// Whether two lists of extents are the same.
pub fn same_dims(a: &Vec<usize>, b: &Vec<usize>) -> (same: bool)
    ensures
        same == (a@ == b@),
{
    if a.len() != b.len() {
        return false;
    }
    let mut i: usize = 0;
    while i < a.len()
        invariant
            i <= a.len(),
            a@.len() == b@.len(),
            forall|k: int| 0 <= k < i ==> a@[k] == b@[k],
        decreases a.len() - i,
    {
        if a[i] != b[i] {
            return false;
        }
        i += 1;
    }
    assert(a@ =~= b@);
    true
}

/// Accepts `t` where its extents are `expected`, and reports both lists of
/// extents where they are not.
pub fn expect_dims(t: &Tensor, expected: Vec<usize>) -> (r: Result<(), GnnError>)
    ensures
        match r {
            Ok(_) => tensor_dims(*t) == expected@,
            Err(GnnError::ShapeMismatch { expected_dims, found_dims }) => {
                &&& tensor_dims(*t) != expected@
                &&& expected_dims@ == expected@
                &&& found_dims@ == tensor_dims(*t)
            },
            Err(_) => false,
        },
{
    let found = dims(t);
    if same_dims(&found, &expected) {
        Ok(())
    } else {
        Err(GnnError::ShapeMismatch { expected_dims: expected, found_dims: found })
    }
}

} // verus!
