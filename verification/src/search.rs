//! The similarity search: which segment of the input continues the waveform
//! that was written last.
//!
//! A segment is rated by its difference from the template, the sum of the
//! absolute differences sample by sample. Differences are compared as
//! words, that is as unsigned integers. For the words of binary32 numbers
//! that is the order of the numbers themselves as long as none is negative,
//! and it puts every infinity and every NaN above the ceiling.

use vstd::prelude::*;
use crate::arithmetic::{is_constant, Arithmetic, Operations, SILENCE};

verus! {

/// The word of the largest finite sample value. Only a segment whose
/// difference lies strictly below it can be chosen.
pub const CEILING: u32 = 0x7f7f_ffff;

/// The difference accumulated over the first `n` samples of `template`,
/// each held against the sample `offset` places further on in `area`.
pub open spec fn partial_difference(
    math: Arithmetic,
    template: Seq<u32>,
    area: Seq<u32>,
    offset: int,
    n: int,
) -> u32
    decreases n,
{
    if n <= 0 {
        SILENCE
    } else {
        (math.sum)(
            partial_difference(math, template, area, offset, n - 1),
            (math.distance)(template[n - 1], area[offset + n - 1]),
        )
    }
}

/// The summed absolute difference between `template` and the segment of
/// `area` that starts at `offset`, added up from the first sample on.
pub open spec fn difference(math: Arithmetic, template: Seq<u32>, area: Seq<u32>, offset: int) -> u32 {
    partial_difference(math, template, area, offset, template.len() as int)
}

/// How many offsets the search tries: every one at which a segment as long
/// as the template lies within the area, from offset zero to the one whose
/// segment ends with the area.
pub open spec fn candidates(template: Seq<u32>, area: Seq<u32>) -> int {
    area.len() - template.len() + 1
}

/// Holds when `best` is the offset that a search over the first `tried`
/// offsets settles on: the earliest one whose difference is least, provided
/// that difference lies below the ceiling; offset zero when no difference
/// does.
pub open spec fn is_best_among(
    math: Arithmetic,
    template: Seq<u32>,
    area: Seq<u32>,
    tried: int,
    best: nat,
) -> bool {
    if exists|o: int| 0 <= o < tried && #[trigger] difference(math, template, area, o) < CEILING {
        &&& best < tried
        &&& difference(math, template, area, best as int) < CEILING
        &&& forall|o: int|
            0 <= o < tried ==> difference(math, template, area, best as int)
                <= #[trigger] difference(math, template, area, o)
        &&& forall|o: int|
            0 <= o < best ==> difference(math, template, area, best as int)
                < #[trigger] difference(math, template, area, o)
    } else {
        best == 0
    }
}

/// Holds when `best` is the offset that the search settles on among all
/// candidates.
pub open spec fn is_best_offset(
    math: Arithmetic,
    template: Seq<u32>,
    area: Seq<u32>,
    best: nat,
) -> bool {
    is_best_among(math, template, area, candidates(template, area), best)
}

/// The offset that the search settles on.
pub open spec fn best_offset(math: Arithmetic, template: Seq<u32>, area: Seq<u32>) -> nat {
    choose|best: nat| is_best_offset(math, template, area, best)
}

/// Holds when none of the first `tried` offsets differs by less than
/// `least`, and `best` is the earliest that differs by `least` if `least`
/// lies below the ceiling.
spec fn is_least_so_far(
    math: Arithmetic,
    template: Seq<u32>,
    area: Seq<u32>,
    tried: int,
    best: nat,
    least: u32,
) -> bool {
    &&& forall|o: int| 0 <= o < tried ==> least <= #[trigger] difference(math, template, area, o)
    &&& least < CEILING ==> {
        &&& least == difference(math, template, area, best as int)
        &&& forall|o: int| 0 <= o < best ==> least < #[trigger] difference(math, template, area, o)
    }
}

/// A search over any number of offsets settles on one of them.
proof fn lemma_best_among_exists(
    math: Arithmetic,
    template: Seq<u32>,
    area: Seq<u32>,
    tried: int,
) -> (best: nat)
    ensures
        is_best_among(math, template, area, tried, best),
    decreases tried,
{
    if tried <= 0 {
        0
    } else {
        let earlier = lemma_best_among_exists(math, template, area, tried - 1);
        let last = difference(math, template, area, tried - 1);
        let eligible = exists|o: int|
            0 <= o < tried - 1 && #[trigger] difference(math, template, area, o) < CEILING;
        let bar = if eligible {
            difference(math, template, area, earlier as int)
        } else {
            CEILING
        };
        if last < bar {
            (tried - 1) as nat
        } else {
            earlier
        }
    }
}

/// The search settles on exactly one offset: no two offsets are both the
/// best one.
pub proof fn lemma_best_offset_unique(
    math: Arithmetic,
    template: Seq<u32>,
    area: Seq<u32>,
    first: nat,
    second: nat,
)
    requires
        is_best_offset(math, template, area, first),
        is_best_offset(math, template, area, second),
    ensures
        first == second,
{
}

/// The offset that the search settles on is the best one, and it is a
/// candidate unless there is none.
pub proof fn lemma_best_offset_is_best(math: Arithmetic, template: Seq<u32>, area: Seq<u32>)
    ensures
        is_best_offset(math, template, area, best_offset(math, template, area)),
        best_offset(math, template, area) == 0 || best_offset(math, template, area) < candidates(
            template,
            area,
        ),
{
    let witness = lemma_best_among_exists(math, template, area, candidates(template, area));
    assert(is_best_offset(math, template, area, witness));
}

/// Where any segment differs by less than the ceiling, no segment of the
/// area differs from the template by less than the one that the search
/// settles on.
pub proof fn lemma_best_offset_is_least(
    math: Arithmetic,
    template: Seq<u32>,
    area: Seq<u32>,
    reached: int,
    other: int,
)
    requires
        0 <= reached < candidates(template, area),
        difference(math, template, area, reached) < CEILING,
        0 <= other < candidates(template, area),
    ensures
        difference(math, template, area, best_offset(math, template, area) as int) <= difference(
            math,
            template,
            area,
            other,
        ),
{
    lemma_best_offset_is_best(math, template, area);
}

/// Holds when a segment of the area differs from the template by nothing
/// exactly if it equals the template.
pub open spec fn tells_equal_segments(math: Arithmetic, template: Seq<u32>, area: Seq<u32>) -> bool {
    forall|o: int|
        0 <= o < candidates(template, area) ==> (#[trigger] difference(math, template, area, o)
            == SILENCE <==> area.subrange(o, o + template.len()) == template)
}

/// A template that was cut from the area is found again, at its first
/// occurrence, provided that a difference of nothing tells equal segments.
pub proof fn lemma_cut_segment_is_found(
    math: Arithmetic,
    template: Seq<u32>,
    area: Seq<u32>,
    cut: int,
)
    requires
        0 <= cut < candidates(template, area),
        area.subrange(cut, cut + template.len()) == template,
        tells_equal_segments(math, template, area),
    ensures
        best_offset(math, template, area) <= cut,
        area.subrange(
            best_offset(math, template, area) as int,
            best_offset(math, template, area) as int + template.len(),
        ) == template,
{
    lemma_best_offset_is_best(math, template, area);
    assert(difference(math, template, area, cut) == SILENCE);
}

/// Over an area whose samples are all the same, a segment differs from the
/// template as the first segment does.
pub proof fn lemma_constant_area_ties(
    math: Arithmetic,
    template: Seq<u32>,
    area: Seq<u32>,
    offset: int,
    n: int,
)
    requires
        is_constant(area),
        0 <= offset,
        0 <= n <= template.len(),
        offset + template.len() <= area.len(),
    ensures
        partial_difference(math, template, area, offset, n) == partial_difference(
            math,
            template,
            area,
            0,
            n,
        ),
    decreases n,
{
    if n > 0 {
        lemma_constant_area_ties(math, template, area, offset, n - 1);
        assert(area[offset + n - 1] == area[n - 1]);
    }
}

/// Over an area whose samples are all the same, the search settles on
/// offset zero.
pub proof fn lemma_constant_area_draws_offset_zero(
    math: Arithmetic,
    template: Seq<u32>,
    area: Seq<u32>,
)
    requires
        is_constant(area),
    ensures
        best_offset(math, template, area) == 0,
{
    lemma_best_offset_is_best(math, template, area);
    let best = best_offset(math, template, area);
    if best > 0 {
        lemma_constant_area_ties(math, template, area, best as int, template.len() as int);
        assert(difference(math, template, area, best as int) == difference(
            math,
            template,
            area,
            0,
        ));
    }
}

/// Computes the summed absolute difference between `template` and the
/// segment of `search_area` that starts at `offset`, adding from the first
/// sample on.
pub fn segment_difference<P, S, D>(
    template: &[u32],
    search_area: &[u32],
    offset: usize,
    operations: &Operations<P, S, D>,
) -> (diff: u32) where P: Fn(u32, u32) -> u32, S: Fn(u32, u32) -> u32, D: Fn(u32, u32) -> u32
    requires
        operations.is_total(),
        offset + template.len() <= search_area.len(),
    ensures
        forall|math: Arithmetic| #[trigger]
            operations.computes(math) ==> diff == difference(
                math,
                template@,
                search_area@,
                offset as int,
            ),
{
    let mut diff: u32 = SILENCE;
    let mut i: usize = 0;
    while i < template.len()
        invariant
            operations.is_total(),
            offset + template.len() <= search_area.len(),
            i <= template.len(),
            forall|math: Arithmetic| #[trigger]
                operations.computes(math) ==> diff == partial_difference(
                    math,
                    template@,
                    search_area@,
                    offset as int,
                    i as int,
                ),
        decreases template.len() - i,
    {
        let gap = (operations.distance)(template[i], search_area[offset + i]);
        diff = (operations.sum)(diff, gap);
        i += 1;
    }
    diff
}

/// Finds the offset into `search_area` at which a segment as long as
/// `template` differs least from it. Every offset at which such a segment
/// lies within the area is tried, in rising order, and a later offset wins
/// only with a strictly smaller difference.
pub fn find_best_match<P, S, D>(
    template: &[u32],
    search_area: &[u32],
    operations: &Operations<P, S, D>,
) -> (best: usize) where P: Fn(u32, u32) -> u32, S: Fn(u32, u32) -> u32, D: Fn(u32, u32) -> u32
    requires
        operations.is_total(),
        template.len() <= search_area.len(),
    ensures
        best <= search_area.len() - template.len(),
        forall|math: Arithmetic| #[trigger]
            operations.computes(math) ==> is_best_offset(
                math,
                template@,
                search_area@,
                best as nat,
            ) && best == best_offset(math, template@, search_area@),
{
    let last = search_area.len() - template.len();
    let mut best: usize = 0;
    let mut least: u32 = CEILING;
    let mut offset: usize = 0;
    loop
        invariant_except_break
            forall|math: Arithmetic| #[trigger]
                operations.computes(math) ==> is_least_so_far(
                    math,
                    template@,
                    search_area@,
                    offset as int,
                    best as nat,
                    least,
                ),
        invariant
            operations.is_total(),
            last == search_area.len() - template.len(),
            offset <= last,
            least <= CEILING,
            least == CEILING ==> best == 0,
            best <= offset,
        ensures
            offset == last,
            forall|math: Arithmetic| #[trigger]
                operations.computes(math) ==> is_least_so_far(
                    math,
                    template@,
                    search_area@,
                    last + 1,
                    best as nat,
                    least,
                ),
        decreases last - offset,
    {
        let diff = segment_difference(template, search_area, offset, operations);
        if diff < least {
            least = diff;
            best = offset;
        }
        if offset == last {
            break ;
        }
        offset += 1;
    }
    proof {
        assert forall|math: Arithmetic| #[trigger] operations.computes(math) implies is_best_offset(
            math,
            template@,
            search_area@,
            best as nat,
        ) && best == best_offset(math, template@, search_area@) by {
            assert(is_least_so_far(math, template@, search_area@, last + 1, best as nat, least));
            lemma_best_offset_unique(
                math,
                template@,
                search_area@,
                best as nat,
                best_offset(math, template@, search_area@),
            );
        }
    }
    best
}

} // verus!
