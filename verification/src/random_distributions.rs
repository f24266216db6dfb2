use vstd::prelude::*;

verus! {

/// Directions drawn uniformly from the hemisphere around the positive z axis.
pub struct UniformHemisphere {}

impl UniformHemisphere {
    /// Creates the distribution.
    pub fn new() -> (r: UniformHemisphere)
        ensures
            r == (UniformHemisphere {}),
    {
        UniformHemisphere {}
    }
}

} // verus!
