//! The engine: its configuration, the synthesis loop and what a pass yields.

use vstd::prelude::*;
use vstd::slice::slice_subrange;
use crate::arithmetic::{is_silent, keeps_silence, Arithmetic, Operations};
use crate::frame::{first_frame, overlap_add, overlap_added, write_first_frame};
use crate::laws::lemma_silence_is_preserved;
use crate::search::{best_offset, find_best_match};

verus! {

/// The configuration of one pass. All three lengths count samples.
#[derive(Clone, Copy, Debug, PartialEq, Eq, Structural)]
pub struct Wsola {
    /// The length of a frame and of the window that tapers it.
    pub window_size: usize,
    /// The furthest that a search moves a frame behind its nominal
    /// position.
    pub search_range: usize,
    /// The nominal advance through the input from one frame to the next,
    /// before the search corrects it.
    pub hop_in: usize,
}

/// Why a pass yields no signal.
#[derive(Clone, Copy, Debug, PartialEq, Eq, Structural)]
pub enum StretchError {
    /// A frame is due and both hops are zero: neither cursor would ever
    /// move.
    Stalled,
    /// The tail that the next search needs as its template lies behind the
    /// end of the output buffer.
    Overrun,
}

/// Where a pass stands between two frames.
pub ghost struct Progress {
    /// The output buffer.
    pub buffer: Seq<u32>,
    /// Where the last frame was read from the input.
    pub in_ptr: nat,
    /// Where the last frame was written to the buffer.
    pub out_ptr: nat,
    /// How many frames the search has placed.
    pub frames: nat,
}

/// What a pass hands back, with the signal as a sequence of words.
pub open spec fn outcome(result: Result<Vec<u32>, StretchError>) -> Result<
    Seq<u32>,
    StretchError,
> {
    match result {
        Ok(signal) => Ok(signal@),
        Err(error) => Err(error),
    }
}

impl Wsola {
    /// The advance through the output from one frame to the next: half a
    /// window, so that consecutive frames overlap by half.
    pub open spec fn spec_hop_out(&self) -> usize {
        (self.window_size / 2) as usize
    }

    /// Holds for an input too short for a single search.
    pub open spec fn is_too_short(&self, len: nat) -> bool {
        len < self.window_size + self.search_range
    }

    /// Holds while the input behind `in_ptr` has room for a further frame
    /// together with the area that is searched for it.
    pub open spec fn has_next_frame(&self, len: nat, in_ptr: nat) -> bool {
        in_ptr + self.hop_in + self.window_size + self.search_range < len
    }

    /// Holds when neither cursor can move.
    pub open spec fn is_stalled(&self) -> bool {
        self.hop_in == 0 && self.hop_out() == 0
    }

    /// The tail of the frame written last: the half of it that the next
    /// frame will overlap.
    pub open spec fn template(&self, buffer: Seq<u32>, out_ptr: nat) -> Seq<u32> {
        buffer.subrange(out_ptr + self.hop_out(), out_ptr + 2 * self.hop_out())
    }

    /// The stretch of input in which the next frame's start is sought,
    /// beginning at the nominal position.
    pub open spec fn search_area(&self, input: Seq<u32>, in_ptr: nat) -> Seq<u32> {
        input.subrange(
            in_ptr + self.hop_in,
            in_ptr + self.hop_in + self.hop_out() + self.search_range,
        )
    }

    /// The state before the first search: the first frame written into a
    /// buffer of `estimate` words and one window, both cursors at the
    /// start.
    pub open spec fn start(
        &self,
        math: Arithmetic,
        input: Seq<u32>,
        window: Seq<u32>,
        estimate: nat,
    ) -> Progress {
        Progress {
            buffer: first_frame(math, input, window, estimate + self.window_size as nat),
            in_ptr: 0,
            out_ptr: 0,
            frames: 0,
        }
    }

    /// The state after one more frame: the input cursor moves to the best
    /// alignment, the output cursor one hop on, and the frame read at the
    /// former is added into the buffer at the latter.
    pub open spec fn step(
        &self,
        math: Arithmetic,
        input: Seq<u32>,
        window: Seq<u32>,
        at: Progress,
    ) -> Progress {
        let from: nat = at.in_ptr + self.hop_in as nat + best_offset(
            math,
            self.template(at.buffer, at.out_ptr),
            self.search_area(input, at.in_ptr),
        );
        let to: nat = at.out_ptr + self.hop_out() as nat;
        Progress {
            buffer: overlap_added(math, at.buffer, input, window, from as int, to as int),
            in_ptr: from,
            out_ptr: to,
            frames: at.frames + 1,
        }
    }

    /// What is left for the cursors to cover.
    pub open spec fn remaining(&self, input: Seq<u32>, at: Progress) -> nat {
        let ahead: nat = if at.in_ptr <= input.len() {
            (input.len() - at.in_ptr) as nat
        } else {
            0
        };
        let room: nat = if at.out_ptr <= at.buffer.len() {
            (at.buffer.len() - at.out_ptr) as nat
        } else {
            0
        };
        ahead + room
    }

    /// The state in which a pass that stands at `at` ends, or the reason
    /// why it cannot go on.
    pub open spec fn run(
        &self,
        math: Arithmetic,
        input: Seq<u32>,
        window: Seq<u32>,
        at: Progress,
    ) -> Result<Progress, StretchError>
        decreases self.remaining(input, at),
    {
        if !self.has_next_frame(input.len(), at.in_ptr) {
            Ok(at)
        } else if self.is_stalled() {
            Err(StretchError::Stalled)
        } else if at.out_ptr + 2 * self.hop_out() > at.buffer.len() {
            Err(StretchError::Overrun)
        } else {
            self.run(math, input, window, self.step(math, input, window, at))
        }
    }

    /// The signal that a finished pass hands back: the buffer up to the end
    /// of the last frame.
    pub open spec fn trimmed(&self, end: Progress) -> Seq<u32> {
        if end.out_ptr + self.window_size <= end.buffer.len() {
            end.buffer.subrange(0, end.out_ptr + self.window_size)
        } else {
            end.buffer
        }
    }

    /// What a pass over `input` yields.
    pub open spec fn stretched(
        &self,
        math: Arithmetic,
        input: Seq<u32>,
        window: Seq<u32>,
        estimate: nat,
    ) -> Result<Seq<u32>, StretchError> {
        if self.is_too_short(input.len()) {
            Ok(input)
        } else {
            match self.run(math, input, window, self.start(math, input, window, estimate)) {
                Ok(end) => Ok(self.trimmed(end)),
                Err(error) => Err(error),
            }
        }
    }

    /// How many frames the search places in a pass over `input`; zero for a
    /// pass that yields no signal.
    pub open spec fn frames_placed(
        &self,
        math: Arithmetic,
        input: Seq<u32>,
        window: Seq<u32>,
        estimate: nat,
    ) -> nat {
        match self.run(math, input, window, self.start(math, input, window, estimate)) {
            Ok(end) => end.frames,
            Err(_) => 0,
        }
    }

    /// The length of a signal that ends with the frame of the given number:
    /// one window behind the output hops of all frames, unless the buffer
    /// ends before that.
    pub open spec fn signal_length(&self, frames: nat, estimate: nat) -> nat {
        if frames * self.hop_out() <= estimate {
            (frames * self.hop_out() + self.window_size) as nat
        } else {
            (estimate + self.window_size) as nat
        }
    }

    /// How many frames have room in an input of `len` samples when each is
    /// read at its nominal position.
    pub open spec fn nominal_frames(&self, len: nat) -> nat {
        if self.hop_in > 0 && len > self.window_size + self.search_range {
            ((len - self.window_size - self.search_range - 1) / (self.hop_in as int)) as nat
        } else {
            0
        }
    }

    /// Holds when a pass that has placed `frames` frames in an input of
    /// `len` samples has a further one due wherever its searches went: even
    /// behind the furthest position of the last frame the input has room.
    pub open spec fn must_go_on(&self, len: nat, frames: nat) -> bool {
        frames * (self.hop_in + self.search_range) + self.hop_in + self.window_size
            + self.search_range < len
    }

    /// Holds when `frames` is a number of frames that a pass over `len`
    /// samples can end with: the nominal positions of all of them had room
    /// in the input, and behind the furthest position of the last one a
    /// further frame has none.
    pub open spec fn may_place(&self, len: nat, frames: nat) -> bool {
        &&& frames > 0 ==> frames * self.hop_in + self.window_size + self.search_range < len
        &&& !self.must_go_on(len, frames)
    }

    /// Holds when an input of `len` samples has room for a frame behind
    /// `frame` others, each read at its nominal position.
    pub open spec fn may_reach(&self, len: nat, frame: nat) -> bool {
        frame * self.hop_in + self.hop_in + self.window_size + self.search_range < len
    }

    /// Holds when a buffer of `estimate` words and one window has room for
    /// the template of every frame that an input of `len` samples may
    /// reach. Then no pass overruns.
    pub open spec fn has_room(&self, len: nat, estimate: nat) -> bool {
        forall|frame: nat| #[trigger]
            self.may_reach(len, frame) ==> (frame + 2) * self.hop_out() <= estimate
                + self.window_size
    }

    /// An engine for a window of `window_size` samples that seeks each
    /// frame up to `search_range` samples behind its nominal position and
    /// runs at unit speed: its input hop equals its output hop.
    pub fn new(window_size: usize, search_range: usize) -> (engine: Self)
        ensures
            engine.window_size == window_size,
            engine.search_range == search_range,
            engine.hop_in == engine.hop_out(),
    {
        Wsola { window_size, search_range, hop_in: window_size / 2 }
    }

    /// The same engine with another input hop. The input hop sets the
    /// speed: for each output hop, a pass moves through the input by this
    /// much and by what the search adds.
    pub fn with_hop_in(self, hop_in: usize) -> (engine: Self)
        ensures
            engine.window_size == self.window_size,
            engine.search_range == self.search_range,
            engine.hop_in == hop_in,
    {
        Wsola { window_size: self.window_size, search_range: self.search_range, hop_in }
    }

    /// The advance through the output from one frame to the next.
    #[verifier::when_used_as_spec(spec_hop_out)]
    pub fn hop_out(&self) -> (hop: usize)
        ensures
            hop == self.spec_hop_out(),
            hop == self.window_size / 2,
    {
        self.window_size / 2
    }

    /// Tells whether an input of `len` samples is too short for a single
    /// search, so that a pass hands it back as it is.
    pub fn bypasses(&self, len: usize) -> (short: bool)
        ensures
            short == self.is_too_short(len as nat),
    {
        match self.window_size.checked_add(self.search_range) {
            Some(needed) => len < needed,
            None => true,
        }
    }

    /// Stretches or compresses `input` in time.
    ///
    /// An input too short for a single search comes back unchanged.
    /// Otherwise the buffer is laid out for `estimate` samples and one more
    /// window, the head of the input enters it as the first frame, and
    /// frames follow for as long as the input has room for one: each is
    /// read where the search finds the best continuation of the tail
    /// written last, and added into the buffer one output hop further on.
    /// The signal ends with the last frame placed.
    ///
    /// The pass fails where it could not end or would leave the buffer:
    /// with `Stalled` when a frame is due and both hops are zero, with
    /// `Overrun` when the tail that a search needs lies behind the end of
    /// the buffer.
    pub fn process<P, S, D>(
        &self,
        input: Vec<u32>,
        window: &[u32],
        estimate: usize,
        operations: &Operations<P, S, D>,
    ) -> (result: Result<Vec<u32>, StretchError>) where
        P: Fn(u32, u32) -> u32,
        S: Fn(u32, u32) -> u32,
        D: Fn(u32, u32) -> u32,

        requires
            operations.is_total(),
            window.len() == self.window_size,
            !self.is_too_short(input.len() as nat) ==> estimate + self.window_size <= usize::MAX,
        ensures
            forall|math: Arithmetic| #[trigger]
                operations.computes(math) ==> outcome(result) == self.stretched(
                    math,
                    input@,
                    window@,
                    estimate as nat,
                ),
            self.is_too_short(input.len() as nat) ==> outcome(result) == Ok::<
                Seq<u32>,
                StretchError,
            >(input@),
            result == Err::<Vec<u32>, StretchError>(StretchError::Stalled) <==> self.is_stalled()
                && self.has_next_frame(input.len() as nat, 0),
            result == Err::<Vec<u32>, StretchError>(StretchError::Overrun) ==> !self.has_room(
                input.len() as nat,
                estimate as nat,
            ),
            !self.is_too_short(input.len() as nat) ==> (result matches Ok(signal) ==> {
                &&& signal.len() <= estimate + self.window_size
                &&& exists|frames: nat| #[trigger]
                    self.may_place(input.len() as nat, frames) && signal.len()
                        == self.signal_length(frames, estimate as nat)
            }),
            forall|math: Arithmetic| #[trigger]
                operations.computes(math) ==> (result matches Ok(signal) ==> {
                    &&& !self.is_too_short(input.len() as nat) ==> signal.len()
                        == self.signal_length(
                        self.frames_placed(math, input@, window@, estimate as nat),
                        estimate as nat,
                    )
                    &&& is_silent(input@) && keeps_silence(math, window@) ==> is_silent(signal@)
                }),
    {
        proof {
            assert forall|math: Arithmetic| #[trigger]
                operations.computes(math) && is_silent(input@) && keeps_silence(
                    math,
                    window@,
                ) implies (self.stretched(math, input@, window@, estimate as nat) matches Ok(signal)
                ==> is_silent(signal)) by {
                lemma_silence_is_preserved(*self, math, input@, window@, estimate as nat);
            }
        }
        if self.bypasses(input.len()) {
            return Ok(input);
        }
        let hop_out = self.hop_out();
        let limit = input.len() - self.window_size - self.search_range;
        let mut output = write_first_frame(
            input.as_slice(),
            window,
            estimate + self.window_size,
            operations,
        );
        let mut in_ptr: usize = 0;
        let mut out_ptr: usize = 0;
        let ghost mut frames: nat = 0;
        assert(0 * (self.hop_in + self.search_range) == 0) by (nonlinear_arith);
        while in_ptr < limit && self.hop_in < limit - in_ptr
            invariant
                operations.is_total(),
                window.len() == self.window_size,
                self.window_size + self.search_range <= input.len(),
                limit == input.len() - self.window_size - self.search_range,
                hop_out == self.hop_out(),
                in_ptr <= input.len(),
                output.len() == estimate + self.window_size,
                out_ptr <= output.len(),
                out_ptr == frames * hop_out,
                frames * self.hop_in <= in_ptr,
                in_ptr <= frames * (self.hop_in + self.search_range),
                frames > 0 ==> frames * self.hop_in + self.window_size + self.search_range
                    < input.len(),
                self.is_stalled() ==> in_ptr == 0,
                forall|math: Arithmetic| #[trigger]
                    operations.computes(math) ==> self.run(
                        math,
                        input@,
                        window@,
                        Progress {
                            buffer: output@,
                            in_ptr: in_ptr as nat,
                            out_ptr: out_ptr as nat,
                            frames,
                        },
                    ) == self.run(
                        math,
                        input@,
                        window@,
                        self.start(math, input@, window@, estimate as nat),
                    ),
            decreases (input.len() - in_ptr) + (output.len() - out_ptr),
        {
            if self.hop_in == 0 && hop_out == 0 {
                return Err(StretchError::Stalled);
            }
            if output.len() - out_ptr < 2 * hop_out {
                proof {
                    assert(self.may_reach(input.len() as nat, frames));
                    assert((frames + 2) * hop_out == frames * hop_out + 2 * hop_out)
                        by (nonlinear_arith);
                }
                return Err(StretchError::Overrun);
            }
            let target = in_ptr + self.hop_in;
            let template = slice_subrange(
                output.as_slice(),
                out_ptr + hop_out,
                out_ptr + 2 * hop_out,
            );
            let search_area = slice_subrange(
                input.as_slice(),
                target,
                target + hop_out + self.search_range,
            );
            let best = find_best_match(template, search_area, operations);
            let from = target + best;
            overlap_add(&mut output, input.as_slice(), window, from, out_ptr + hop_out, operations);
            out_ptr = out_ptr + hop_out;
            in_ptr = from;
            proof {
                assert((frames + 1) * hop_out == frames * hop_out + hop_out) by (nonlinear_arith);
                assert((frames + 1) * self.hop_in == frames * self.hop_in + self.hop_in)
                    by (nonlinear_arith);
                assert((frames + 1) * (self.hop_in + self.search_range) == frames * (self.hop_in
                    + self.search_range) + self.hop_in + self.search_range) by (nonlinear_arith);
                frames = frames + 1;
            }
        }
        let ghost end = Progress {
            buffer: output@,
            in_ptr: in_ptr as nat,
            out_ptr: out_ptr as nat,
            frames,
        };
        if output.len() - out_ptr > self.window_size {
            output.truncate(out_ptr + self.window_size);
        }
        proof {
            assert(output@ =~= self.trimmed(end));
            assert(self.may_place(input.len() as nat, frames));
            assert(output.len() == self.signal_length(frames, estimate as nat));
        }
        Ok(output)
    }
}

} // verus!
