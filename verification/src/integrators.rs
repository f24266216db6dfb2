use vstd::prelude::*;

verus! {

/// A path tracer that follows one randomly sampled bounce per intersection.
pub struct SimpleRandomIntegrator {}

} // verus!
