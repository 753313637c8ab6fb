//! Waveform-similarity overlap-add (WSOLA) time stretching of a mono signal.
//!
//! Samples travel through the engine as 32-bit words: the bit patterns of
//! IEEE-754 binary32 numbers. The engine decides where frames are read and
//! written, which candidate segment continues the waveform best, and how long
//! the result is. The three sample operations it rests on (product, sum and
//! absolute difference) are handed in by the caller.

pub mod arithmetic;
pub mod search;
pub mod frame;
pub mod timestretch;
pub mod laws;

use vstd::prelude::*;
use crate::arithmetic::{is_silent, keeps_silence, Arithmetic, Operations};
use crate::timestretch::{outcome, StretchError, Wsola};

verus! {

/// The engine for a window, a search range and an input hop.
pub open spec fn engine_for(window: Seq<u32>, search_range: usize, hop_in: usize) -> Wsola {
    Wsola { window_size: window.len() as usize, search_range, hop_in }
}

/// Stretches or compresses `input` in one call: sets up the engine for
/// `window`, `search_range` and `hop_in`, and runs one pass.
pub fn timestretch<P, S, D>(
    input: Vec<u32>,
    window: &[u32],
    search_range: usize,
    hop_in: usize,
    estimate: usize,
    operations: &Operations<P, S, D>,
) -> (result: Result<Vec<u32>, StretchError>) where
    P: Fn(u32, u32) -> u32,
    S: Fn(u32, u32) -> u32,
    D: Fn(u32, u32) -> u32,

    requires
        operations.is_total(),
        input.len() >= window.len() + search_range ==> estimate + window.len() <= usize::MAX,
    ensures
        ({
            let engine = engine_for(window@, search_range, hop_in);
            &&& forall|math: Arithmetic| #[trigger]
                operations.computes(math) ==> outcome(result) == engine.stretched(
                    math,
                    input@,
                    window@,
                    estimate as nat,
                )
            &&& engine.is_too_short(input.len() as nat) ==> outcome(result) == Ok::<
                Seq<u32>,
                StretchError,
            >(input@)
            &&& result == Err::<Vec<u32>, StretchError>(StretchError::Stalled)
                <==> engine.is_stalled() && engine.has_next_frame(input.len() as nat, 0)
            &&& result == Err::<Vec<u32>, StretchError>(StretchError::Overrun) ==> !engine.has_room(
                input.len() as nat,
                estimate as nat,
            )
            &&& !engine.is_too_short(input.len() as nat) ==> (result matches Ok(signal) ==> {
                &&& signal.len() <= estimate + engine.window_size
                &&& exists|frames: nat| #[trigger]
                    engine.may_place(input.len() as nat, frames) && signal.len()
                        == engine.signal_length(frames, estimate as nat)
            })
            &&& forall|math: Arithmetic| #[trigger]
                operations.computes(math) ==> (result matches Ok(signal) ==> {
                    &&& !engine.is_too_short(input.len() as nat) ==> signal.len()
                        == engine.signal_length(
                        engine.frames_placed(math, input@, window@, estimate as nat),
                        estimate as nat,
                    )
                    &&& is_silent(input@) && keeps_silence(math, window@) ==> is_silent(signal@)
                })
        }),
{
    Wsola::new(window.len(), search_range).with_hop_in(hop_in).process(
        input,
        window,
        estimate,
        operations,
    )
}

} // verus!
