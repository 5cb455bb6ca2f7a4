//! The two planners: the size-and-duration-bounded chunk planner and the
//! near-equal split planner.
//!
//! Both produce a `Vec<Window>` whose windows tile the input duration, and
//! both have their results pinned exactly by spec-level plan models.

use vstd::prelude::*;
use crate::MICROS_PER_SECOND;
use crate::PLANNED_MAX_CHUNK_DURATION_MICROS;
use crate::SAFETY_MARGIN_DENOMINATOR;
use crate::SAFETY_MARGIN_NUMERATOR;

verus! {

/// One planned output segment: a half-open slice of the source recording,
/// measured in microseconds from its start.
#[derive(Clone, Copy, Debug, PartialEq, Eq, Structural)]
pub struct Window {
    pub start_micros: u64,
    pub duration_micros: u64,
}

/// Planning-time failures: `InvalidInput` for a non-positive argument,
/// `DurationTooSmall` when the derived per-chunk duration rounds below one
/// second.
#[derive(Clone, Copy, Debug, PartialEq, Eq, Structural)]
pub enum PlanError {
    InvalidInput,
    DurationTooSmall,
}

/// The window `w` covers exactly `[start, start + duration)`.
pub open spec fn window_matches(w: Window, start: int, duration: int) -> bool {
    &&& w.start_micros == start
    &&& w.duration_micros == duration
}

/// Per-chunk duration in whole seconds: the safety-margined byte budget
/// divided by the bitrate, floored, then capped at the planned ceiling.
pub open spec fn chunk_limit_seconds(bitrate_bps: int, max_size_bytes: int) -> int {
    vstd::math::min(
        (max_size_bytes * 8 * SAFETY_MARGIN_NUMERATOR) / (bitrate_bps * SAFETY_MARGIN_DENOMINATOR),
        (PLANNED_MAX_CHUNK_DURATION_MICROS / MICROS_PER_SECOND) as int,
    )
}

/// The same per-chunk duration, in microseconds.
pub open spec fn chunk_limit_micros(bitrate_bps: int, max_size_bytes: int) -> int {
    chunk_limit_seconds(bitrate_bps, max_size_bytes) * MICROS_PER_SECOND
}

/// Number of windows needed to tile `total` with windows of at most `limit`:
/// the quotient rounded up.
pub open spec fn chunk_count(total: int, limit: int) -> int {
    (total + limit - 1) / limit
}

/// The chunk-plan model: window `i` starts at `i * limit` and runs for the
/// full `limit` except that the final window absorbs the remainder.
pub open spec fn chunk_plan_matches(total: int, limit: int, plan: Seq<Window>) -> bool {
    &&& plan.len() == chunk_count(total, limit)
    &&& forall|i: int|
        0 <= i < plan.len() ==> window_matches(
            #[trigger] plan[i],
            i * limit,
            vstd::math::min(limit, total - i * limit),
        )
}

/// Plan windows so each chunk stays within the byte budget and the planned
/// duration ceiling.
///
/// Fails with `InvalidInput` exactly when an argument is zero, and with
/// `DurationTooSmall` exactly when the derived per-chunk duration is below
/// one second; otherwise the returned plan is pinned by `chunk_plan_matches`.
pub fn calculate_chunk_plan(duration_micros: u64, bitrate_bps: u64, max_size_bytes: u64) -> (r:
    Result<Vec<Window>, PlanError>)
    ensures
        r is Ok <==> (duration_micros > 0 && bitrate_bps > 0 && max_size_bytes > 0
            && chunk_limit_seconds(bitrate_bps as int, max_size_bytes as int) >= 1),
        r is Ok ==> chunk_plan_matches(
            duration_micros as int,
            chunk_limit_micros(bitrate_bps as int, max_size_bytes as int),
            r->Ok_0@,
        ),
        r is Err && r->Err_0 == PlanError::InvalidInput <==> (duration_micros == 0
            || bitrate_bps == 0 || max_size_bytes == 0),
        r is Err && r->Err_0 == PlanError::DurationTooSmall <==> (duration_micros > 0
            && bitrate_bps > 0 && max_size_bytes > 0
            && chunk_limit_seconds(bitrate_bps as int, max_size_bytes as int) < 1),
{
    if duration_micros == 0 || bitrate_bps == 0 || max_size_bytes == 0 {
        return Err(PlanError::InvalidInput);
    }

    // The 94/100 safety margin keeps container overhead from pushing a chunk
    // past the byte budget; the literals keep the overflow reasoning linear.
    let numerator: u128 = (max_size_bytes as u128) * 8 * 94;
    let denominator: u128 = (bitrate_bps as u128) * 100;
    let budget_seconds: u128 = numerator / denominator;
    let planned_max_seconds: u64 = PLANNED_MAX_CHUNK_DURATION_MICROS / MICROS_PER_SECOND;
    let limit_seconds: u64 = if budget_seconds >= planned_max_seconds as u128 {
        planned_max_seconds
    } else {
        budget_seconds as u64
    };
    assert(limit_seconds == chunk_limit_seconds(bitrate_bps as int, max_size_bytes as int));

    if limit_seconds == 0 {
        return Err(PlanError::DurationTooSmall);
    }

    let limit_micros: u64 = limit_seconds * MICROS_PER_SECOND;
    let ghost total: int = duration_micros as int;
    let ghost limit: int = limit_micros as int;

    let mut plan: Vec<Window> = Vec::new();
    let mut start: u64 = 0;
    proof {
        assert(plan@.len() * limit == 0) by (nonlinear_arith)
            requires plan@.len() == 0;
    }
    while start < duration_micros
        invariant
            0 < limit <= u64::MAX,
            total == duration_micros as int,
            limit == limit_micros as int,
            duration_micros > 0,
            start <= duration_micros,
            start as int == vstd::math::min(plan@.len() * limit, total),
            start < duration_micros ==> start as int == plan@.len() * limit,
            start == duration_micros ==> plan@.len() == chunk_count(total, limit),
            forall|i: int|
                0 <= i < plan@.len() ==> window_matches(
                    #[trigger] plan@[i],
                    i * limit,
                    vstd::math::min(limit, total - i * limit),
                ),
        decreases duration_micros - start,
    {
        let ghost n: int = plan@.len() as int;
        let remaining: u64 = duration_micros - start;
        let duration: u64 = if remaining < limit_micros {
            remaining
        } else {
            limit_micros
        };
        plan.push(Window { start_micros: start, duration_micros: duration });
        proof {
            assert((n + 1) * limit == n * limit + limit) by (nonlinear_arith);
            assert(window_matches(
                plan@[n],
                n * limit,
                vstd::math::min(limit, total - n * limit),
            ));
            if remaining <= limit {
                // The final window: the plan now has exactly `chunk_count` windows.
                vstd::arithmetic::div_mod::lemma_fundamental_div_mod_converse(
                    total + limit - 1,
                    limit,
                    n + 1,
                    total - n * limit - 1,
                );
                assert(plan@.len() == chunk_count(total, limit));
            }
        }
        start = start + duration;
    }
    assert(plan@.len() == chunk_count(total, limit));
    Ok(plan)
}

/// Duration still unassigned before the split planner emits window `i`:
/// the whole duration before window 0, and zero once the last window
/// (which absorbs everything left) has been emitted.
pub open spec fn split_remaining(total: int, parts: int, i: int) -> int
    decreases i,
{
    if i <= 0 {
        total
    } else {
        let prev = split_remaining(total, parts, i - 1);
        if parts - (i - 1) == 1 {
            0
        } else {
            prev - prev / (parts - (i - 1))
        }
    }
}

/// Duration of window `i` in an equal split: a fair share of what remains,
/// except that the last window takes all of it.
pub open spec fn split_duration(total: int, parts: int, i: int) -> int {
    if i == parts - 1 {
        split_remaining(total, parts, i)
    } else {
        split_remaining(total, parts, i) / (parts - i)
    }
}

/// Start of window `i` in an equal split: everything already assigned.
pub open spec fn split_start(total: int, parts: int, i: int) -> int {
    total - split_remaining(total, parts, i)
}

/// The equal-split model: exactly `parts` windows, each placed and sized by
/// the remaining-over-remaining-count recurrence.
pub open spec fn split_plan_matches(total: int, parts: int, plan: Seq<Window>) -> bool {
    &&& plan.len() == parts
    &&& forall|i: int|
        0 <= i < plan.len() ==> window_matches(
            #[trigger] plan[i],
            split_start(total, parts, i),
            split_duration(total, parts, i),
        )
}

/// Remaining duration never goes negative and never exceeds what is left of
/// the whole: `0 <= remaining <= total`.
pub proof fn lemma_split_remaining_range(total: int, parts: int, i: int)
    requires
        total >= 0,
        0 <= i <= parts,
    ensures
        0 <= split_remaining(total, parts, i) <= total,
    decreases i,
{
    if i > 0 {
        lemma_split_remaining_range(total, parts, i - 1);
        let prev = split_remaining(total, parts, i - 1);
        let k = parts - (i - 1);
        if k != 1 {
            vstd::arithmetic::div_mod::lemma_div_pos_is_pos(prev, k);
            vstd::arithmetic::div_mod::lemma_div_nonincreasing(prev, k);
        }
    }
}

/// Divide a duration into `parts` contiguous near-equal windows; the last
/// window absorbs the remainder, so the windows consume the duration exactly.
///
/// Fails with `InvalidInput` exactly when the duration is zero or `parts`
/// is below two; otherwise the plan is pinned by `split_plan_matches`.
pub fn calculate_equal_split_plan(duration_micros: u64, parts: usize) -> (r: Result<
    Vec<Window>,
    PlanError,
>)
    ensures
        r is Ok <==> (duration_micros > 0 && parts >= 2),
        r is Ok ==> split_plan_matches(duration_micros as int, parts as int, r->Ok_0@),
        r is Err ==> r->Err_0 == PlanError::InvalidInput,
{
    if duration_micros == 0 {
        return Err(PlanError::InvalidInput);
    }
    if parts < 2 {
        return Err(PlanError::InvalidInput);
    }

    let ghost total: int = duration_micros as int;
    let mut plan: Vec<Window> = Vec::new();
    let mut start: u64 = 0;
    let mut i: usize = 0;
    while i < parts
        invariant
            duration_micros > 0,
            parts >= 2,
            total == duration_micros as int,
            i <= parts,
            plan@.len() == i,
            start <= duration_micros,
            start as int == split_start(total, parts as int, i as int),
            forall|j: int|
                0 <= j < plan@.len() ==> window_matches(
                    #[trigger] plan@[j],
                    split_start(total, parts as int, j),
                    split_duration(total, parts as int, j),
                ),
        decreases parts - i,
    {
        proof {
            lemma_split_remaining_range(total, parts as int, i as int);
        }
        let remaining: u64 = duration_micros - start;
        let segments_left: usize = parts - i;
        let duration: u64 = if segments_left == 1 {
            remaining
        } else {
            proof {
                vstd::arithmetic::div_mod::lemma_div_is_ordered_by_denominator(
                    remaining as int,
                    1,
                    segments_left as int,
                );
            }
            remaining / (segments_left as u64)
        };
        plan.push(Window { start_micros: start, duration_micros: duration });
        start = start + duration;
        i = i + 1;
    }
    Ok(plan)
}

} // verus!
