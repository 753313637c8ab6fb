//! The sample operations, as the engine sees them.
//!
//! The engine moves samples as 32-bit words and leaves their arithmetic to
//! three operations that its caller hands in. What it promises is stated
//! over an `Arithmetic`: three mathematical functions on words. Each promise
//! holds for every arithmetic that the operations compute.

use vstd::prelude::*;

verus! {

/// The word of a silent sample: positive zero.
pub const SILENCE: u32 = 0;

/// The three sample operations as mathematical functions on sample words.
pub ghost struct Arithmetic {
    /// A sample scaled by a window coefficient.
    pub product: spec_fn(u32, u32) -> u32,
    /// Two samples added.
    pub sum: spec_fn(u32, u32) -> u32,
    /// The absolute difference of two samples.
    pub distance: spec_fn(u32, u32) -> u32,
}

/// The three sample operations as the caller hands them in.
pub struct Operations<P, S, D> {
    /// Scales a sample by a window coefficient.
    pub product: P,
    /// Adds two samples.
    pub sum: S,
    /// Takes the absolute difference of two samples.
    pub distance: D,
}

/// Holds when `op` may be run on every pair of words.
pub open spec fn accepts_all<F: Fn(u32, u32) -> u32>(op: F) -> bool {
    forall|a: u32, b: u32| #[trigger] op.requires((a, b))
}

/// Holds when whatever `op` yields for a pair of words is the value that
/// `function` has there.
pub open spec fn yields<F: Fn(u32, u32) -> u32>(op: F, function: spec_fn(u32, u32) -> u32) -> bool {
    forall|a: u32, b: u32, r: u32| #[trigger] op.ensures((a, b), r) ==> r == function(a, b)
}

impl<P, S, D> Operations<P, S, D> where
    P: Fn(u32, u32) -> u32,
    S: Fn(u32, u32) -> u32,
    D: Fn(u32, u32) -> u32,
 {
    /// Holds when each operation may be run on every pair of words.
    pub open spec fn is_total(&self) -> bool {
        &&& accepts_all(self.product)
        &&& accepts_all(self.sum)
        &&& accepts_all(self.distance)
    }

    /// Holds when the operations compute the functions of `math`.
    pub open spec fn computes(&self, math: Arithmetic) -> bool {
        &&& yields(self.product, math.product)
        &&& yields(self.sum, math.sum)
        &&& yields(self.distance, math.distance)
    }
}

/// Holds when every sample of `signal` is silent.
pub open spec fn is_silent(signal: Seq<u32>) -> bool {
    forall|i: int| 0 <= i < signal.len() ==> signal[i] == SILENCE
}

/// Holds when all samples of `signal` are the same.
pub open spec fn is_constant(signal: Seq<u32>) -> bool {
    forall|i: int, j: int|
        0 <= i < signal.len() && 0 <= j < signal.len() ==> signal[i] == signal[j]
}

/// Holds when the arithmetic turns silence into silence: a silent sample
/// stays silent under every coefficient of the window, and two silent
/// samples add up to a silent one.
pub open spec fn keeps_silence(math: Arithmetic, window: Seq<u32>) -> bool {
    &&& forall|i: int|
        0 <= i < window.len() ==> (math.product)(SILENCE, #[trigger] window[i]) == SILENCE
    &&& (math.sum)(SILENCE, SILENCE) == SILENCE
}

} // verus!
