//! Frames: how windowed segments of the input enter the output buffer.

use vstd::prelude::*;
use crate::arithmetic::{Arithmetic, Operations, SILENCE};

verus! {

/// The output buffer as it stands before the first search: `capacity` words,
/// the first window's worth holding the windowed head of the input, silence
/// behind it.
pub open spec fn first_frame(
    math: Arithmetic,
    input: Seq<u32>,
    window: Seq<u32>,
    capacity: nat,
) -> Seq<u32> {
    Seq::new(
        capacity,
        |j: int|
            if j < window.len() {
                (math.product)(input[j], window[j])
            } else {
                SILENCE
            },
    )
}

/// `buffer` after the first `count` samples of a frame were added into it.
/// The frame is read from `input` at `from`, tapered by `window`, and lands
/// at `at`; what would land behind the end of the buffer is dropped.
pub open spec fn blended(
    math: Arithmetic,
    buffer: Seq<u32>,
    input: Seq<u32>,
    window: Seq<u32>,
    from: int,
    at: int,
    count: int,
) -> Seq<u32> {
    Seq::new(
        buffer.len(),
        |j: int|
            if at <= j < at + count {
                (math.sum)(buffer[j], (math.product)(input[from + (j - at)], window[j - at]))
            } else {
                buffer[j]
            },
    )
}

/// `buffer` after a whole frame was added into it.
pub open spec fn overlap_added(
    math: Arithmetic,
    buffer: Seq<u32>,
    input: Seq<u32>,
    window: Seq<u32>,
    from: int,
    at: int,
) -> Seq<u32> {
    blended(math, buffer, input, window, from, at, window.len() as int)
}

/// Allocates the output buffer and writes the first frame into it: the head
/// of the input, tapered by the window, with nothing added.
pub fn write_first_frame<P, S, D>(
    input: &[u32],
    window: &[u32],
    capacity: usize,
    operations: &Operations<P, S, D>,
) -> (buffer: Vec<u32>) where
    P: Fn(u32, u32) -> u32,
    S: Fn(u32, u32) -> u32,
    D: Fn(u32, u32) -> u32,

    requires
        operations.is_total(),
        window.len() <= input.len(),
        window.len() <= capacity,
    ensures
        buffer.len() == capacity,
        forall|j: int| window.len() <= j < capacity ==> buffer@[j] == SILENCE,
        forall|math: Arithmetic| #[trigger]
            operations.computes(math) ==> buffer@ == first_frame(
                math,
                input@,
                window@,
                capacity as nat,
            ),
{
    let mut buffer: Vec<u32> = vec![SILENCE; capacity];
    let mut i: usize = 0;
    while i < window.len()
        invariant
            operations.is_total(),
            window.len() <= input.len(),
            window.len() <= capacity,
            i <= window.len(),
            buffer.len() == capacity,
            forall|j: int| i <= j < capacity ==> buffer@[j] == SILENCE,
            forall|math: Arithmetic| #[trigger]
                operations.computes(math) ==> forall|j: int|
                    0 <= j < i ==> #[trigger] buffer@[j] == (math.product)(input@[j], window@[j]),
        decreases window.len() - i,
    {
        buffer[i] = (operations.product)(input[i], window[i]);
        i += 1;
    }
    buffer
}

/// Adds a frame into the buffer: the segment of `input` that starts at
/// `from`, tapered by `window`, summed onto the words from `at` on. Words
/// that would land behind the end of the buffer are dropped.
pub fn overlap_add<P, S, D>(
    buffer: &mut Vec<u32>,
    input: &[u32],
    window: &[u32],
    from: usize,
    at: usize,
    operations: &Operations<P, S, D>,
) where P: Fn(u32, u32) -> u32, S: Fn(u32, u32) -> u32, D: Fn(u32, u32) -> u32
    requires
        operations.is_total(),
        from + window.len() <= input.len(),
    ensures
        final(buffer).len() == old(buffer).len(),
        forall|j: int|
            0 <= j < old(buffer).len() && !(at <= j < at + window.len())
                ==> final(buffer)@[j] == old(buffer)@[j],
        forall|math: Arithmetic| #[trigger]
            operations.computes(math) ==> final(buffer)@ == overlap_added(
                math,
                old(buffer)@,
                input@,
                window@,
                from as int,
                at as int,
            ),
{
    let room: usize = if at < buffer.len() {
        buffer.len() - at
    } else {
        0
    };
    let mut i: usize = 0;
    while i < window.len()
        invariant
            operations.is_total(),
            from + window.len() <= input.len(),
            i <= window.len(),
            buffer.len() == old(buffer).len(),
            room == if at < buffer.len() {
                buffer.len() - at
            } else {
                0
            },
            forall|j: int|
                0 <= j < buffer.len() && !(at <= j < at + i) ==> buffer@[j] == old(buffer)@[j],
            forall|math: Arithmetic| #[trigger]
                operations.computes(math) ==> buffer@ == blended(
                    math,
                    old(buffer)@,
                    input@,
                    window@,
                    from as int,
                    at as int,
                    i as int,
                ),
        decreases window.len() - i,
    {
        if i < room {
            let sample = (operations.product)(input[from + i], window[i]);
            buffer[at + i] = (operations.sum)(buffer[at + i], sample);
        }
        i += 1;
    }
}

} // verus!
