//! Building blocks of the handwriting model that do not involve tensors.

use vstd::prelude::*;

verus! {

/// The hyperbolic-tangent activation layer; it holds no parameters.
#[derive(Clone, Copy, Debug, Default)]
pub struct Tanh {}

impl Tanh {
    /// Create the module.
    pub fn new() -> (r: Self)
        ensures
            r == (Tanh {}),
    {
        Self {}
    }
}

} // verus!
