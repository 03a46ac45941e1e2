//! A single white-noise generator holding one fixed-point sample.

use vstd::prelude::*;

use crate::rng::random_u32;
use crate::UNIT;

verus! {

/// One white-noise source. Its value is a fixed-point number in
/// `[-UNIT, UNIT)`, standing for a real value in `[-1, 1)`; it starts at
/// exactly zero and changes only through [`Noise::update`].
#[derive(Copy, Clone)]
pub struct Noise {
    value: i64,
}

impl Noise {
    /// The current sample, as seen by specifications.
    pub closed spec fn spec_value(&self) -> i64 {
        self.value
    }

    /// The value always stays inside the unit range `[-UNIT, UNIT)`.
    pub open spec fn inv(&self) -> bool {
        -UNIT <= self.spec_value() < UNIT
    }

    /// A fresh generator holds exactly zero.
    pub fn new() -> (r: Noise)
        ensures
            r.spec_value() == 0,
            r.inv(),
    {
        Noise { value: 0 }
    }

    /// Draws one uniform word `u` and maps it into the unit range as
    /// `u - UNIT`, the fixed-point image of `u' * 2 - 1` for `u'` uniform in
    /// `[0, 1)`. The drawn word is random, so only the range is promised.
    pub fn update(&mut self)
        ensures
            final(self).inv(),
    {
        let u: u32 = random_u32();
        self.value = (u as i64) - UNIT;
    }

    /// The current sample.
    pub fn value(&self) -> (r: i64)
        ensures
            r == self.spec_value(),
    {
        self.value
    }
}

} // verus!
