//! Pink-noise synthesis by the Voss-McCartney algorithm.
//!
//! A bank of white-noise generators is refreshed at octave-spaced rates:
//! generator `k` is refreshed every `2^k` samples, chosen by counting the
//! trailing zero bits of a rolling counter. Their sum, together with a
//! companion generator refreshed on every sample, approximates a signal
//! whose power spectral density falls off as `1/f`.
//!
//! Sample values are carried as fixed-point integers: `UNIT` stands for
//! `1.0`, so a generator value occupies `[-UNIT, UNIT)`. Randomness enters
//! only through [`noise::Noise::update`], which draws one uniform `u32`.

use vstd::prelude::*;

pub mod bits;
pub mod noise;
pub mod pink;
mod rng;

pub use noise::Noise;
pub use pink::Pink;

verus! {

/// The fixed-point scale: this integer stands for the real value `1.0`.
pub const UNIT: i64 = 2147483648;

} // verus!
