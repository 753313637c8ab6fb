//! What holds of every pass.

use vstd::prelude::*;
use crate::arithmetic::{is_constant, is_silent, keeps_silence, Arithmetic, Operations};
use crate::search::{lemma_best_offset_is_best, lemma_constant_area_draws_offset_zero};
use crate::timestretch::{outcome, Progress, StretchError, Wsola};

verus! {

/// Holds when the cursors of `at` agree with the number of frames placed:
/// the output cursor has moved one output hop per frame, the input cursor
/// at least one input hop per frame and at most the search range more.
pub open spec fn is_paced(engine: Wsola, at: Progress) -> bool {
    &&& at.out_ptr == at.frames * engine.hop_out()
    &&& at.frames * engine.hop_in <= at.in_ptr
    &&& at.in_ptr <= at.frames * (engine.hop_in + engine.search_range)
}

/// One frame moves the input cursor by the input hop and at most the search
/// range more, moves the output cursor by the output hop, reads the frame from
/// within the input, and leaves the length of the buffer as it was.
pub proof fn lemma_step_advances(
    engine: Wsola,
    math: Arithmetic,
    input: Seq<u32>,
    window: Seq<u32>,
    at: Progress,
)
    requires
        engine.has_next_frame(input.len(), at.in_ptr),
        at.out_ptr + 2 * engine.hop_out() <= at.buffer.len(),
    ensures
        ({
            let next = engine.step(math, input, window, at);
            &&& at.in_ptr + engine.hop_in <= next.in_ptr <= at.in_ptr + engine.hop_in
                + engine.search_range
            &&& next.in_ptr + engine.window_size < input.len()
            &&& next.out_ptr == at.out_ptr + engine.hop_out()
            &&& next.frames == at.frames + 1
            &&& next.buffer.len() == at.buffer.len()
        }),
{
    let template = engine.template(at.buffer, at.out_ptr);
    let area = engine.search_area(input, at.in_ptr);
    lemma_best_offset_is_best(math, template, area);
}

/// One frame keeps a paced pass paced, and its nominal position lay so far
/// before the end of the input that a frame and its search area had room.
pub proof fn lemma_step_stays_paced(
    engine: Wsola,
    math: Arithmetic,
    input: Seq<u32>,
    window: Seq<u32>,
    at: Progress,
)
    requires
        is_paced(engine, at),
        engine.has_next_frame(input.len(), at.in_ptr),
        at.out_ptr + 2 * engine.hop_out() <= at.buffer.len(),
    ensures
        is_paced(engine, engine.step(math, input, window, at)),
        engine.step(math, input, window, at).buffer.len() == at.buffer.len(),
        (at.frames + 1) * engine.hop_in + engine.window_size + engine.search_range < input.len(),
{
    lemma_step_advances(engine, math, input, window, at);
    let frames = at.frames as int;
    let hop_in = engine.hop_in as int;
    let hop_out = engine.hop_out() as int;
    let range = engine.search_range as int;
    assert((frames + 1) * hop_out == frames * hop_out + hop_out) by (nonlinear_arith);
    assert((frames + 1) * hop_in == frames * hop_in + hop_in) by (nonlinear_arith);
    assert((frames + 1) * (hop_in + range) == frames * (hop_in + range) + hop_in + range)
        by (nonlinear_arith);
}

/// A pass that ends has kept the length of its buffer, has moved neither
/// cursor backwards, and stops where the input has no room for a further
/// frame.
pub proof fn lemma_run_never_rewinds(
    engine: Wsola,
    math: Arithmetic,
    input: Seq<u32>,
    window: Seq<u32>,
    at: Progress,
)
    ensures
        engine.run(math, input, window, at) matches Ok(end) ==> {
            &&& end.buffer.len() == at.buffer.len()
            &&& at.in_ptr <= end.in_ptr
            &&& at.out_ptr <= end.out_ptr
            &&& at.frames <= end.frames
            &&& !engine.has_next_frame(input.len(), end.in_ptr)
        },
    decreases engine.remaining(input, at),
{
    if engine.has_next_frame(input.len(), at.in_ptr) && !engine.is_stalled() && at.out_ptr + 2
        * engine.hop_out() <= at.buffer.len() {
        lemma_step_advances(engine, math, input, window, at);
        lemma_run_never_rewinds(engine, math, input, window, engine.step(math, input, window, at));
    }
}

/// A pass that is paced where it stands is paced where it ends. If it
/// places a frame at all, the nominal position of the last one lay so far
/// before the end of the input that a frame and its search area had room.
pub proof fn lemma_run_stays_paced(
    engine: Wsola,
    math: Arithmetic,
    input: Seq<u32>,
    window: Seq<u32>,
    at: Progress,
)
    requires
        is_paced(engine, at),
    ensures
        engine.run(math, input, window, at) matches Ok(end) ==> {
            &&& is_paced(engine, end)
            &&& at.frames < end.frames ==> end.frames * engine.hop_in + engine.window_size
                + engine.search_range < input.len()
        },
    decreases engine.remaining(input, at),
{
    if engine.has_next_frame(input.len(), at.in_ptr) && !engine.is_stalled() && at.out_ptr + 2
        * engine.hop_out() <= at.buffer.len() {
        let next = engine.step(math, input, window, at);
        lemma_step_stays_paced(engine, math, input, window, at);
        lemma_run_stays_paced(engine, math, input, window, next);
        lemma_run_never_rewinds(engine, math, input, window, next);
    }
}

/// A pass over silence with an arithmetic that keeps silence leaves the
/// buffer silent.
proof fn lemma_run_keeps_silence(
    engine: Wsola,
    math: Arithmetic,
    input: Seq<u32>,
    window: Seq<u32>,
    at: Progress,
)
    requires
        window.len() == engine.window_size,
        is_silent(input),
        is_silent(at.buffer),
        keeps_silence(math, window),
    ensures
        engine.run(math, input, window, at) matches Ok(end) ==> is_silent(end.buffer),
    decreases engine.remaining(input, at),
{
    if engine.has_next_frame(input.len(), at.in_ptr) && !engine.is_stalled() && at.out_ptr + 2
        * engine.hop_out() <= at.buffer.len() {
        let next = engine.step(math, input, window, at);
        lemma_step_advances(engine, math, input, window, at);
        lemma_run_keeps_silence(engine, math, input, window, next);
    }
}

/// A pass that is paced where it stands fails only for a reason that the
/// lengths show: it stalls only with both hops at zero, and it overruns
/// only a buffer without room for every frame that the input may reach.
proof fn lemma_run_fails_for_a_reason(
    engine: Wsola,
    math: Arithmetic,
    input: Seq<u32>,
    window: Seq<u32>,
    estimate: nat,
    at: Progress,
)
    requires
        is_paced(engine, at),
        at.buffer.len() == estimate + engine.window_size,
    ensures
        engine.run(math, input, window, at) == Err::<Progress, StretchError>(StretchError::Stalled)
            ==> engine.is_stalled(),
        engine.run(math, input, window, at) == Err::<Progress, StretchError>(StretchError::Overrun)
            ==> !engine.has_room(input.len(), estimate),
    decreases engine.remaining(input, at),
{
    if engine.has_next_frame(input.len(), at.in_ptr) && !engine.is_stalled() {
        if at.out_ptr + 2 * engine.hop_out() <= at.buffer.len() {
            lemma_step_stays_paced(engine, math, input, window, at);
            lemma_run_fails_for_a_reason(
                engine,
                math,
                input,
                window,
                estimate,
                engine.step(math, input, window, at),
            );
        } else {
            let frames = at.frames as int;
            let hop_out = engine.hop_out() as int;
            assert(engine.may_reach(input.len(), at.frames));
            assert((frames + 2) * hop_out == frames * hop_out + 2 * hop_out) by (nonlinear_arith);
        }
    }
}

/// A pass is paced where it starts.
proof fn lemma_start_is_paced(
    engine: Wsola,
    math: Arithmetic,
    input: Seq<u32>,
    window: Seq<u32>,
    estimate: nat,
)
    ensures
        is_paced(engine, engine.start(math, input, window, estimate)),
        engine.start(math, input, window, estimate).buffer.len() == estimate + engine.window_size,
{
    assert(0 * engine.hop_out() == 0 && 0 * engine.hop_in == 0 && 0 * (engine.hop_in
        + engine.search_range) == 0) by (nonlinear_arith);
}

/// A pass stalls exactly when a frame is due and both hops are zero.
pub proof fn lemma_stalls_exactly_when_stuck(
    engine: Wsola,
    math: Arithmetic,
    input: Seq<u32>,
    window: Seq<u32>,
    estimate: nat,
)
    ensures
        engine.stretched(math, input, window, estimate) == Err::<Seq<u32>, StretchError>(
            StretchError::Stalled,
        ) <==> engine.is_stalled() && engine.has_next_frame(input.len(), 0),
{
    let start = engine.start(math, input, window, estimate);
    lemma_start_is_paced(engine, math, input, window, estimate);
    lemma_run_fails_for_a_reason(engine, math, input, window, estimate, start);
}

/// A pass yields a signal whenever it is not stuck and the buffer has room
/// for every frame that the input may reach.
pub proof fn lemma_room_suffices(
    engine: Wsola,
    math: Arithmetic,
    input: Seq<u32>,
    window: Seq<u32>,
    estimate: nat,
)
    requires
        engine.has_room(input.len(), estimate),
        !(engine.is_stalled() && engine.has_next_frame(input.len(), 0)),
    ensures
        engine.stretched(math, input, window, estimate) is Ok,
{
    let start = engine.start(math, input, window, estimate);
    lemma_start_is_paced(engine, math, input, window, estimate);
    lemma_run_fails_for_a_reason(engine, math, input, window, estimate, start);
}

/// An input too short for a single search comes back unchanged.
pub proof fn lemma_short_input_comes_back(
    engine: Wsola,
    math: Arithmetic,
    input: Seq<u32>,
    window: Seq<u32>,
    estimate: nat,
)
    requires
        input.len() < engine.window_size + engine.search_range,
    ensures
        engine.stretched(math, input, window, estimate) == Ok::<Seq<u32>, StretchError>(input),
{
}

/// The signal of a pass that searched ends with the last frame placed: it
/// is one window longer than the output hops of all frames together,
/// unless the buffer ends before that. So it is never longer than the
/// buffer, which holds the estimate and one window.
pub proof fn lemma_length_law(
    engine: Wsola,
    math: Arithmetic,
    input: Seq<u32>,
    window: Seq<u32>,
    estimate: nat,
)
    requires
        !engine.is_too_short(input.len()),
    ensures
        engine.stretched(math, input, window, estimate) matches Ok(signal) ==> {
            let frames = engine.frames_placed(math, input, window, estimate);
            &&& signal.len() <= estimate + engine.window_size
            &&& signal.len() == engine.signal_length(frames, estimate)
        },
{
    let start = engine.start(math, input, window, estimate);
    lemma_start_is_paced(engine, math, input, window, estimate);
    lemma_run_stays_paced(engine, math, input, window, start);
    lemma_run_never_rewinds(engine, math, input, window, start);
}

/// How many frames a pass places lies within bounds that the lengths alone
/// give. The nominal positions of all frames had room in the input; and
/// behind the furthest position that the last frame can have, a further
/// frame has none.
pub proof fn lemma_frames_enclosed(
    engine: Wsola,
    math: Arithmetic,
    input: Seq<u32>,
    window: Seq<u32>,
    estimate: nat,
)
    requires
        !engine.is_too_short(input.len()),
    ensures
        engine.stretched(math, input, window, estimate) is Ok ==> engine.may_place(
            input.len(),
            engine.frames_placed(math, input, window, estimate),
        ),
{
    let start = engine.start(math, input, window, estimate);
    lemma_start_is_paced(engine, math, input, window, estimate);
    lemma_run_stays_paced(engine, math, input, window, start);
    lemma_run_never_rewinds(engine, math, input, window, start);
}

/// Of two engines that differ in the input hop alone, the faster places no
/// more frames in an input of the same length than the slower, provided its
/// hop exceeds the slower one's by the search range or more. With an
/// estimate that is no larger, its signal is no longer either.
pub proof fn lemma_faster_is_no_longer(
    slow: Wsola,
    fast: Wsola,
    math: Arithmetic,
    input: Seq<u32>,
    window: Seq<u32>,
    slow_estimate: nat,
    fast_estimate: nat,
)
    requires
        slow.window_size == fast.window_size,
        slow.search_range == fast.search_range,
        slow.hop_in + slow.search_range <= fast.hop_in,
        fast_estimate <= slow_estimate,
        !slow.is_too_short(input.len()),
    ensures
        slow.stretched(math, input, window, slow_estimate) matches Ok(longer) ==> (fast.stretched(
            math,
            input,
            window,
            fast_estimate,
        ) matches Ok(shorter) ==> {
            &&& fast.frames_placed(math, input, window, fast_estimate) <= slow.frames_placed(
                math,
                input,
                window,
                slow_estimate,
            )
            &&& shorter.len() <= longer.len()
        }),
{
    lemma_frames_enclosed(slow, math, input, window, slow_estimate);
    lemma_frames_enclosed(fast, math, input, window, fast_estimate);
    lemma_length_law(slow, math, input, window, slow_estimate);
    lemma_length_law(fast, math, input, window, fast_estimate);
    if slow.stretched(math, input, window, slow_estimate) is Ok && fast.stretched(
        math,
        input,
        window,
        fast_estimate,
    ) is Ok {
        let few = fast.frames_placed(math, input, window, fast_estimate) as int;
        let many = slow.frames_placed(math, input, window, slow_estimate) as int;
        let quick = fast.hop_in as int;
        let reach = slow.hop_in + slow.search_range;
        let hop = slow.hop_out() as int;
        if few > many {
            assert(few * quick >= (many + 1) * reach) by (nonlinear_arith)
                requires
                    few >= many + 1,
                    quick >= reach,
                    many >= 0,
                    reach >= 0,
            ;
            assert((many + 1) * reach == many * reach + reach) by (nonlinear_arith);
        }
        assert(few * hop <= many * hop) by (nonlinear_arith)
            requires
                few <= many,
                hop >= 0,
        ;
    }
}

/// Of two engines that differ in the input hop alone, the faster yields
/// the strictly shorter signal wherever the slower must go on after every
/// number of frames that the faster can end with, and the slower signal
/// ends before its buffer does.
pub proof fn lemma_faster_is_shorter(
    slow: Wsola,
    fast: Wsola,
    math: Arithmetic,
    input: Seq<u32>,
    window: Seq<u32>,
    slow_estimate: nat,
    fast_estimate: nat,
)
    requires
        slow.window_size == fast.window_size,
        slow.search_range == fast.search_range,
        slow.window_size >= 2,
        !slow.is_too_short(input.len()),
        forall|frames: nat| #[trigger]
            fast.may_place(input.len(), frames) ==> slow.must_go_on(input.len(), frames),
        slow.stretched(math, input, window, slow_estimate) is Ok,
        fast.stretched(math, input, window, fast_estimate) is Ok,
        slow.frames_placed(math, input, window, slow_estimate) * slow.hop_out() <= slow_estimate,
    ensures
        fast.frames_placed(math, input, window, fast_estimate) < slow.frames_placed(
            math,
            input,
            window,
            slow_estimate,
        ),
        fast.stretched(math, input, window, fast_estimate)->Ok_0.len() < slow.stretched(
            math,
            input,
            window,
            slow_estimate,
        )->Ok_0.len(),
{
    lemma_frames_enclosed(slow, math, input, window, slow_estimate);
    lemma_frames_enclosed(fast, math, input, window, fast_estimate);
    lemma_length_law(slow, math, input, window, slow_estimate);
    lemma_length_law(fast, math, input, window, fast_estimate);
    let few = fast.frames_placed(math, input, window, fast_estimate) as int;
    let many = slow.frames_placed(math, input, window, slow_estimate) as int;
    let reach = slow.hop_in + slow.search_range;
    let hop = slow.hop_out() as int;
    assert(slow.must_go_on(input.len(), few as nat));
    assert(many > few) by (nonlinear_arith)
        requires
            many * reach > few * reach,
            reach >= 0,
            few >= 0,
            many >= 0,
    ;
    assert(few * hop + hop <= many * hop) by (nonlinear_arith)
        requires
            few + 1 <= many,
            hop >= 0,
    ;
}

/// An engine whose input hop is no smaller than its output hop never
/// yields a signal longer than its input.
pub proof fn lemma_compression_never_lengthens(
    engine: Wsola,
    math: Arithmetic,
    input: Seq<u32>,
    window: Seq<u32>,
    estimate: nat,
)
    requires
        engine.hop_out() <= engine.hop_in,
    ensures
        engine.stretched(math, input, window, estimate) matches Ok(signal) ==> signal.len()
            <= input.len(),
{
    if !engine.is_too_short(input.len()) {
        lemma_frames_enclosed(engine, math, input, window, estimate);
        lemma_length_law(engine, math, input, window, estimate);
        let frames = engine.frames_placed(math, input, window, estimate) as int;
        let hop_in = engine.hop_in as int;
        let hop_out = engine.hop_out() as int;
        assert(0 <= frames * hop_out <= frames * hop_in) by (nonlinear_arith)
            requires
                frames >= 0,
                0 <= hop_out <= hop_in,
        ;
        assert(frames == 0 ==> frames * hop_out == 0) by (nonlinear_arith);
    }
}

/// At unit speed, a pass in which no search moves a frame off its nominal
/// position keeps the length of the input but for the end that has no room
/// for a further frame: the signal is shorter than the input by the search
/// range at least, and by at most one hop more.
pub proof fn lemma_unit_speed_keeps_length(
    engine: Wsola,
    math: Arithmetic,
    input: Seq<u32>,
    window: Seq<u32>,
    estimate: nat,
)
    requires
        !engine.is_too_short(input.len()),
        engine.hop_in == engine.hop_out(),
        input.len() <= estimate,
        engine.run(math, input, window, engine.start(math, input, window, estimate)) matches Ok(
            end,
        ) && end.in_ptr == end.frames * engine.hop_in,
    ensures
        engine.stretched(math, input, window, estimate) matches Ok(signal) && input.len()
            - engine.search_range - engine.hop_out() <= signal.len() <= input.len()
            - engine.search_range,
{
    let start = engine.start(math, input, window, estimate);
    lemma_run_never_rewinds(engine, math, input, window, start);
    lemma_length_law(engine, math, input, window, estimate);
    lemma_frames_enclosed(engine, math, input, window, estimate);
    let frames = engine.frames_placed(math, input, window, estimate) as int;
    assert(frames == 0 ==> frames * engine.hop_out() == 0) by (nonlinear_arith);
}

/// One frame over an input whose samples are all the same is read at its
/// nominal position.
pub proof fn lemma_step_over_constant_input(
    engine: Wsola,
    math: Arithmetic,
    input: Seq<u32>,
    window: Seq<u32>,
    at: Progress,
)
    requires
        is_constant(input),
        engine.has_next_frame(input.len(), at.in_ptr),
    ensures
        engine.step(math, input, window, at).in_ptr == at.in_ptr + engine.hop_in,
{
    let area = engine.search_area(input, at.in_ptr);
    assert(is_constant(area)) by {
        assert forall|i: int, j: int| 0 <= i < area.len() && 0 <= j < area.len() implies area[i]
            == area[j] by {
            assert(area[i] == input[at.in_ptr + engine.hop_in + i]);
            assert(area[j] == input[at.in_ptr + engine.hop_in + j]);
        }
    }
    lemma_constant_area_draws_offset_zero(math, engine.template(at.buffer, at.out_ptr), area);
}

/// A pass over an input whose samples are all the same reads every frame
/// at its nominal position.
pub proof fn lemma_constant_input_keeps_nominal_positions(
    engine: Wsola,
    math: Arithmetic,
    input: Seq<u32>,
    window: Seq<u32>,
    at: Progress,
)
    requires
        is_constant(input),
        at.in_ptr == at.frames * engine.hop_in,
    ensures
        engine.run(math, input, window, at) matches Ok(end) ==> end.in_ptr == end.frames
            * engine.hop_in,
    decreases engine.remaining(input, at),
{
    if engine.has_next_frame(input.len(), at.in_ptr) && !engine.is_stalled() && at.out_ptr + 2
        * engine.hop_out() <= at.buffer.len() {
        let next = engine.step(math, input, window, at);
        lemma_step_over_constant_input(engine, math, input, window, at);
        lemma_step_advances(engine, math, input, window, at);
        let frames = at.frames as int;
        let hop_in = engine.hop_in as int;
        assert((frames + 1) * hop_in == frames * hop_in + hop_in) by (nonlinear_arith);
        lemma_constant_input_keeps_nominal_positions(engine, math, input, window, next);
    }
}

/// The number of frames that have room at their nominal positions is the
/// one number that a pass without moves can end with.
pub proof fn lemma_nominal_frames(engine: Wsola, len: nat, frames: nat)
    requires
        engine.hop_in > 0,
        !engine.is_too_short(len),
    ensures
        (frames > 0 ==> frames * engine.hop_in + engine.window_size + engine.search_range < len)
            && frames * engine.hop_in + engine.hop_in + engine.window_size + engine.search_range
            >= len <==> frames == engine.nominal_frames(len),
{
    let hop = engine.hop_in as int;
    let span = len - engine.window_size - engine.search_range;
    let count = engine.nominal_frames(len) as int;
    if span > 0 {
        vstd::arithmetic::div_mod::lemma_fundamental_div_mod(span - 1, hop);
        vstd::arithmetic::div_mod::lemma_mod_bound(span - 1, hop);
        assert(count * hop <= span - 1 < count * hop + hop) by (nonlinear_arith)
            requires
                span - 1 == hop * count + (span - 1) % hop,
                0 <= (span - 1) % hop < hop,
        ;
    } else {
        assert(count * hop == 0) by (nonlinear_arith)
            requires
                count == 0,
        ;
    }
    assert(count * hop < span || count == 0);
    assert(count * hop + hop >= span);
    let given = frames as int;
    if given < count {
        assert(given * hop + hop <= count * hop) by (nonlinear_arith)
            requires
                given + 1 <= count,
                hop > 0,
        ;
    }
    if given > count {
        assert(given * hop >= count * hop + hop) by (nonlinear_arith)
            requires
                given >= count + 1,
                hop > 0,
        ;
    }
}

/// A pass over an input whose samples are all the same places exactly the
/// frames that have room at their nominal positions. Where the buffer
/// holds them, it yields a signal, one window longer than their output hops
/// together.
pub proof fn lemma_constant_input_length(
    engine: Wsola,
    math: Arithmetic,
    input: Seq<u32>,
    window: Seq<u32>,
    estimate: nat,
)
    requires
        is_constant(input),
        engine.hop_in > 0,
        !engine.is_too_short(input.len()),
        engine.nominal_frames(input.len()) * engine.hop_out() <= estimate,
    ensures
        engine.stretched(math, input, window, estimate) matches Ok(signal) && signal.len()
            == engine.nominal_frames(input.len()) * engine.hop_out() + engine.window_size,
        engine.frames_placed(math, input, window, estimate) == engine.nominal_frames(input.len()),
{
    let len = input.len();
    let count = engine.nominal_frames(len);
    let hop_in = engine.hop_in as int;
    let hop_out = engine.hop_out() as int;
    lemma_nominal_frames(engine, len, count);
    assert forall|frame: nat| #[trigger] engine.may_reach(len, frame) implies (frame + 2)
        * engine.hop_out() <= estimate + engine.window_size by {
        let behind = frame as int;
        assert(behind + 1 <= count) by (nonlinear_arith)
            requires
                behind * hop_in + hop_in + engine.window_size + engine.search_range < len,
                count * hop_in + hop_in + engine.window_size + engine.search_range >= len,
                hop_in > 0,
        ;
        assert((behind + 2) * hop_out <= count * hop_out + hop_out) by (nonlinear_arith)
            requires
                behind + 1 <= count,
                hop_out >= 0,
        ;
    }
    lemma_room_suffices(engine, math, input, window, estimate);
    let start = engine.start(math, input, window, estimate);
    assert(0 * engine.hop_in == 0) by (nonlinear_arith);
    lemma_constant_input_keeps_nominal_positions(engine, math, input, window, start);
    lemma_run_never_rewinds(engine, math, input, window, start);
    lemma_frames_enclosed(engine, math, input, window, estimate);
    lemma_length_law(engine, math, input, window, estimate);
    lemma_nominal_frames(engine, len, engine.frames_placed(math, input, window, estimate));
}

/// At unit speed, a pass over an input whose samples are all the same
/// yields a signal that is shorter than the input by the search range at
/// least, and by at most one hop more.
pub proof fn lemma_unit_speed_over_constant_input(
    engine: Wsola,
    math: Arithmetic,
    input: Seq<u32>,
    window: Seq<u32>,
    estimate: nat,
)
    requires
        is_constant(input),
        engine.window_size >= 2,
        engine.hop_in == engine.hop_out(),
        !engine.is_too_short(input.len()),
        input.len() <= estimate,
    ensures
        engine.stretched(math, input, window, estimate) matches Ok(signal) && input.len()
            - engine.search_range - engine.hop_out() <= signal.len() <= input.len()
            - engine.search_range,
{
    let len = input.len();
    let count = engine.nominal_frames(len) as int;
    let hop = engine.hop_in as int;
    lemma_nominal_frames(engine, len, count as nat);
    assert(count == 0 ==> count * hop == 0) by (nonlinear_arith);
    assert(count * engine.hop_out() <= len);
    lemma_constant_input_length(engine, math, input, window, estimate);
}

/// A pass over silence with an arithmetic that keeps silence yields
/// silence.
pub proof fn lemma_silence_is_preserved(
    engine: Wsola,
    math: Arithmetic,
    input: Seq<u32>,
    window: Seq<u32>,
    estimate: nat,
)
    requires
        window.len() == engine.window_size,
        is_silent(input),
        keeps_silence(math, window),
    ensures
        engine.stretched(math, input, window, estimate) matches Ok(signal) ==> is_silent(signal),
{
    if !engine.is_too_short(input.len()) {
        let start = engine.start(math, input, window, estimate);
        lemma_run_keeps_silence(engine, math, input, window, start);
    }
}

/// A pass over silence with an arithmetic that keeps silence yields silence
/// of a length that the lengths alone give: a short input comes back as
/// it is, and any other gains one output hop for each frame that has room
/// at its nominal position, and one window.
pub proof fn lemma_silence_has_nominal_length(
    engine: Wsola,
    math: Arithmetic,
    input: Seq<u32>,
    window: Seq<u32>,
    estimate: nat,
)
    requires
        window.len() == engine.window_size,
        is_silent(input),
        keeps_silence(math, window),
        engine.hop_in > 0,
        engine.nominal_frames(input.len()) * engine.hop_out() <= estimate,
    ensures
        engine.stretched(math, input, window, estimate) matches Ok(signal) && is_silent(signal)
            && signal.len() == if engine.is_too_short(input.len()) {
            input.len() as int
        } else {
            engine.nominal_frames(input.len()) * engine.hop_out() + engine.window_size
        },
{
    lemma_silence_is_preserved(engine, math, input, window, estimate);
    if !engine.is_too_short(input.len()) {
        assert(is_constant(input));
        lemma_constant_input_length(engine, math, input, window, estimate);
    }
}

/// What a pass yields is settled by the engine, the input, the window, the
/// estimate and the arithmetic that the operations compute: two passes of
/// engines with the same lengths hand back the same result, word for word.
pub proof fn lemma_pass_is_deterministic<P, S, D>(
    engine: Wsola,
    twin: Wsola,
    operations: Operations<P, S, D>,
    math: Arithmetic,
    input: Seq<u32>,
    window: Seq<u32>,
    estimate: nat,
    first: Result<Vec<u32>, StretchError>,
    second: Result<Vec<u32>, StretchError>,
) where P: Fn(u32, u32) -> u32, S: Fn(u32, u32) -> u32, D: Fn(u32, u32) -> u32
    requires
        twin.window_size == engine.window_size,
        twin.search_range == engine.search_range,
        twin.hop_in == engine.hop_in,
        operations.computes(math),
        forall|any: Arithmetic| #[trigger]
            operations.computes(any) ==> outcome(first) == engine.stretched(
                any,
                input,
                window,
                estimate,
            ),
        forall|any: Arithmetic| #[trigger]
            operations.computes(any) ==> outcome(second) == twin.stretched(
                any,
                input,
                window,
                estimate,
            ),
    ensures
        outcome(first) == outcome(second),
        first matches Ok(one) ==> second matches Ok(other) && one@ == other@,
        first matches Err(why) ==> second == Err::<Vec<u32>, StretchError>(why),
{
}

} // verus!
