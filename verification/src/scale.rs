//! Steps of a twelve-step color scale.

use vstd::prelude::*;

verus! {

/// One step of a color scale; steps count from 1 to 12.
///
/// Step 1 is the application background, 2 subtle backgrounds, 3-5 component
/// backgrounds at rest, on hover and pressed, 6-8 borders of rising strength,
/// 9-10 solid backgrounds, 11 low-contrast and 12 high-contrast text.
#[derive(Debug, PartialEq, Eq, PartialOrd, Ord, Hash, Clone, Copy, Structural)]
pub struct ColorScaleStep(usize);

/// The number of steps in a color scale.
pub const STEP_COUNT: usize = 12;

impl ColorScaleStep {
    pub closed spec fn valid(self) -> bool {
        1 <= self.0 <= STEP_COUNT
    }

    pub closed spec fn number_spec(self) -> usize {
        self.0
    }

    /// The step with the given one-based number.
    pub fn new(number: usize) -> (r: Self)
        requires
            1 <= number <= STEP_COUNT,
        ensures
            r.number_spec() == number,
            r.valid(),
    {
        ColorScaleStep(number)
    }

    /// The step's zero-based position in a scale.
    pub fn index(&self) -> (r: usize)
        requires
            self.valid(),
        ensures
            r == self.number_spec() - 1,
            r < STEP_COUNT,
    {
        self.0 - 1
    }

    /// All twelve steps, in order.
    pub fn all() -> (r: Vec<ColorScaleStep>)
        ensures
            r@.len() == STEP_COUNT,
            forall|i: int| 0 <= i < STEP_COUNT ==> #[trigger] r@[i].number_spec() == i + 1,
            forall|i: int| 0 <= i < STEP_COUNT ==> #[trigger] r@[i].valid(),
    {
        let mut steps: Vec<ColorScaleStep> = Vec::new();
        let mut n: usize = 1;
        while n <= STEP_COUNT
            invariant
                1 <= n <= STEP_COUNT + 1,
                steps@.len() == n - 1,
                forall|i: int| 0 <= i < n - 1 ==> #[trigger] steps@[i].number_spec() == i + 1,
                forall|i: int| 0 <= i < n - 1 ==> #[trigger] steps@[i].valid(),
            decreases STEP_COUNT + 1 - n,
        {
            steps.push(ColorScaleStep(n));
            n = n + 1;
        }
        steps
    }
}

} // verus!
