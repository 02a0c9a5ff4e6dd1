//! How a slider spreads its values along the track.

use vstd::prelude::*;

verus! {

/// The scale of a slider: values spread evenly (`Linear`), or
/// logarithmically (`Log`, `value = min * (max / min)^p`), which suits
/// quantities perceived non-linearly such as volume or frequency. A log
/// scale needs `min > 0`; below that it behaves as a linear one.
#[derive(Clone, Copy, Debug, PartialEq, Eq, Structural)]
pub enum Scale {
    Linear,
    Log,
}

impl Default for Scale {
    fn default() -> (r: Self)
        ensures
            r == Scale::Linear,
    {
        Scale::Linear
    }
}

} // verus!
