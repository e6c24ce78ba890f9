//! How many lights a shading point samples.
use vstd::prelude::*;

verus! {

/// Light-sampling strategy of the path tracer.
#[derive(Clone, Copy, Debug, PartialEq, Eq, Structural)]
pub enum LightSampling {
    /// Sample every light at every bounce.
    All,
    /// Sample one light per bounce, chosen at random.
    One,
}

impl LightSampling {
    /// The value the shader's uniform block carries.
    pub open spec fn code(self) -> u32 {
        match self {
            LightSampling::All => 0,
            LightSampling::One => 1,
        }
    }

    /// The shader-side code of the strategy.
    pub fn as_u32(self) -> (code: u32)
        ensures
            code == self.code(),
    {
        match self {
            LightSampling::All => 0,
            LightSampling::One => 1,
        }
    }
}

} // verus!
