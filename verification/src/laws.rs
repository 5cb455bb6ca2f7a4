//! Laws of the plan models: every plan that satisfies a planner's
//! postcondition tiles the input duration contiguously and exactly, the
//! equal split is fair to within one microsecond, and each model determines
//! its plan uniquely.

use vstd::prelude::*;
use crate::plan::chunk_count;
use crate::plan::chunk_limit_micros;
use crate::plan::chunk_limit_seconds;
use crate::plan::chunk_plan_matches;
use crate::plan::lemma_split_remaining_range;
use crate::plan::split_duration;
use crate::plan::split_plan_matches;
use crate::plan::split_remaining;
use crate::plan::split_start;
use crate::plan::window_matches;
use crate::plan::Window;

verus! {

/// Tiling a positive `total` with windows of positive `limit` needs at
/// least one window, and the count brackets the total:
/// `(count - 1) * limit < total <= count * limit`.
proof fn lemma_chunk_count_bounds(total: int, limit: int)
    requires
        total > 0,
        limit > 0,
    ensures
        chunk_count(total, limit) >= 1,
        (chunk_count(total, limit) - 1) * limit < total,
        total <= chunk_count(total, limit) * limit,
{
    let q = chunk_count(total, limit);
    vstd::arithmetic::div_mod::lemma_fundamental_div_mod(total + limit - 1, limit);
    vstd::arithmetic::div_mod::lemma_mod_bound(total + limit - 1, limit);
    let r = (total + limit - 1) % limit;
    assert(total + limit - 1 == limit * q + r);
    assert(q >= 1) by (nonlinear_arith)
        requires
            total + limit - 1 == limit * q + r,
            0 <= r < limit,
            total > 0,
            limit > 0,
    ;
    assert((q - 1) * limit == limit * q - limit) by (nonlinear_arith);
    assert(q * limit == limit * q) by (nonlinear_arith);
}

/// The chunk plan is contiguous and gapless: each window starts where the
/// previous one ends, the first starts at zero, and the last ends exactly at
/// the input duration.
pub proof fn lemma_chunk_plan_contiguous(total: int, limit: int, plan: Seq<Window>)
    requires
        total > 0,
        limit > 0,
        chunk_plan_matches(total, limit, plan),
    ensures
        plan.len() >= 1,
        plan[0].start_micros == 0,
        forall|i: int|
            0 <= i < plan.len() - 1 ==> #[trigger] plan[i + 1].start_micros == plan[i].start_micros
                + plan[i].duration_micros,
        plan[plan.len() - 1].start_micros + plan[plan.len() - 1].duration_micros == total,
{
    let n = plan.len() as int;
    lemma_chunk_count_bounds(total, limit);
    assert(window_matches(plan[0], 0 * limit, vstd::math::min(limit, total - 0 * limit)));
    assert(0 * limit == 0) by (nonlinear_arith);
    assert forall|i: int| 0 <= i < n - 1 implies #[trigger] plan[i + 1].start_micros
        == plan[i].start_micros + plan[i].duration_micros by {
        assert(window_matches(plan[i], i * limit, vstd::math::min(limit, total - i * limit)));
        assert(window_matches(
            plan[i + 1],
            (i + 1) * limit,
            vstd::math::min(limit, total - (i + 1) * limit),
        ));
        vstd::arithmetic::mul::lemma_mul_inequality(i + 1, n - 1, limit);
        assert((i + 1) * limit == i * limit + limit) by (nonlinear_arith);
    }
    assert(window_matches(
        plan[n - 1],
        (n - 1) * limit,
        vstd::math::min(limit, total - (n - 1) * limit),
    ));
    assert(n * limit == (n - 1) * limit + limit) by (nonlinear_arith);
}

/// Every chunk-plan window except the last has the same duration, the
/// computed per-chunk limit; the last absorbs what remains of the input
/// duration after the full windows, and that remainder is strictly positive.
pub proof fn lemma_chunk_plan_durations(total: int, limit: int, plan: Seq<Window>)
    requires
        total > 0,
        limit > 0,
        chunk_plan_matches(total, limit, plan),
    ensures
        plan.len() >= 1,
        forall|i: int| 0 <= i < plan.len() - 1 ==> #[trigger] plan[i].duration_micros == limit,
        plan[plan.len() - 1].duration_micros == total - (plan.len() - 1) * limit,
        plan[plan.len() - 1].duration_micros > 0,
{
    let n = plan.len() as int;
    lemma_chunk_count_bounds(total, limit);
    assert forall|i: int| 0 <= i < n - 1 implies #[trigger] plan[i].duration_micros == limit by {
        assert(window_matches(plan[i], i * limit, vstd::math::min(limit, total - i * limit)));
        vstd::arithmetic::mul::lemma_mul_inequality(i + 1, n - 1, limit);
        assert((i + 1) * limit == i * limit + limit) by (nonlinear_arith);
    }
    assert(window_matches(
        plan[n - 1],
        (n - 1) * limit,
        vstd::math::min(limit, total - (n - 1) * limit),
    ));
    assert(n * limit == (n - 1) * limit + limit) by (nonlinear_arith);
}

/// The chunk-plan model pins the plan completely: two plans for the same
/// inputs are equal, so re-planning the same recording yields the same plan.
pub proof fn lemma_chunk_plan_deterministic(
    total: int,
    limit: int,
    plan_a: Seq<Window>,
    plan_b: Seq<Window>,
)
    requires
        chunk_plan_matches(total, limit, plan_a),
        chunk_plan_matches(total, limit, plan_b),
    ensures
        plan_a == plan_b,
{
    assert forall|i: int| 0 <= i < plan_a.len() implies plan_a[i] == plan_b[i] by {
        assert(window_matches(plan_a[i], i * limit, vstd::math::min(limit, total - i * limit)));
        assert(window_matches(plan_b[i], i * limit, vstd::math::min(limit, total - i * limit)));
    }
    assert(plan_a =~= plan_b);
}

/// The equal-split plan is contiguous and exact: the first window starts at
/// zero, each window starts where the previous one ends, and the last window
/// ends exactly at the input duration, so the durations sum to it exactly.
pub proof fn lemma_equal_split_plan_exact(total: int, parts: int, plan: Seq<Window>)
    requires
        total >= 0,
        parts >= 1,
        split_plan_matches(total, parts, plan),
    ensures
        plan.len() == parts,
        plan[0].start_micros == 0,
        forall|i: int|
            0 <= i < parts - 1 ==> #[trigger] plan[i + 1].start_micros == plan[i].start_micros
                + plan[i].duration_micros,
        plan[parts - 1].start_micros + plan[parts - 1].duration_micros == total,
{
    assert(window_matches(plan[0], split_start(total, parts, 0), split_duration(total, parts, 0)));
    assert forall|i: int| 0 <= i < parts - 1 implies #[trigger] plan[i + 1].start_micros
        == plan[i].start_micros + plan[i].duration_micros by {
        assert(window_matches(
            plan[i],
            split_start(total, parts, i),
            split_duration(total, parts, i),
        ));
        assert(window_matches(
            plan[i + 1],
            split_start(total, parts, i + 1),
            split_duration(total, parts, i + 1),
        ));
        assert(split_remaining(total, parts, i + 1) == split_remaining(total, parts, i)
            - split_duration(total, parts, i));
    }
    assert(window_matches(
        plan[parts - 1],
        split_start(total, parts, parts - 1),
        split_duration(total, parts, parts - 1),
    ));
}

/// Before window `i` is emitted, the unassigned remainder sits between
/// `parts - i` lower fair shares and `parts - i` upper fair shares.
proof fn lemma_split_remaining_fair(total: int, parts: int, i: int)
    requires
        total >= 0,
        parts >= 1,
        0 <= i < parts,
    ensures
        (parts - i) * (total / parts) <= split_remaining(total, parts, i),
        split_remaining(total, parts, i) <= (parts - i) * (total / parts + 1),
    decreases i,
{
    let lo = total / parts;
    let hi = lo + 1;
    if i == 0 {
        vstd::arithmetic::div_mod::lemma_fundamental_div_mod(total, parts);
        vstd::arithmetic::div_mod::lemma_mod_bound(total, parts);
        assert(parts * lo <= total <= parts * hi) by (nonlinear_arith)
            requires
                total == parts * lo + total % parts,
                0 <= total % parts < parts,
                hi == lo + 1,
        ;
        assert(parts * lo == lo * parts) by (nonlinear_arith);
        assert(parts * hi == hi * parts) by (nonlinear_arith);
        assert((parts - 0) * lo == lo * parts) by (nonlinear_arith);
        assert((parts - 0) * hi == hi * parts) by (nonlinear_arith);
    } else {
        lemma_split_remaining_fair(total, parts, i - 1);
        lemma_split_remaining_range(total, parts, i - 1);
        let prev = split_remaining(total, parts, i - 1);
        let k = parts - (i - 1);
        let d = prev / k;
        vstd::arithmetic::div_mod::lemma_div_is_ordered(k * lo, prev, k);
        vstd::arithmetic::div_mod::lemma_div_multiples_vanish(lo, k);
        vstd::arithmetic::div_mod::lemma_div_is_ordered(prev, k * hi, k);
        vstd::arithmetic::div_mod::lemma_div_multiples_vanish(hi, k);
        assert(lo <= d <= hi);
        vstd::arithmetic::div_mod::lemma_fundamental_div_mod(prev, k);
        vstd::arithmetic::div_mod::lemma_mod_bound(prev, k);
        let s = prev % k;
        assert(prev - d == (k - 1) * d + s) by (nonlinear_arith)
            requires prev == k * d + s,
        ;
        assert((k - 1) * lo <= (k - 1) * d) by {
            vstd::arithmetic::mul::lemma_mul_inequality(lo, d, k - 1);
            assert(lo * (k - 1) == (k - 1) * lo) by (nonlinear_arith);
            assert(d * (k - 1) == (k - 1) * d) by (nonlinear_arith);
        }
        if d <= hi - 1 {
            assert((k - 1) * d + s <= (k - 1) * hi) by (nonlinear_arith)
                requires
                    d <= hi - 1,
                    0 <= s < k,
                    1 <= k,
            ;
        } else {
            assert(s == 0) by (nonlinear_arith)
                requires
                    prev == k * d + s,
                    prev <= k * hi,
                    d == hi,
                    0 <= s,
            ;
            assert((k - 1) * d + s <= (k - 1) * hi) by (nonlinear_arith)
                requires d == hi && s == 0,
            ;
        }
    }
}

/// The equal split is fair: every window's duration is the lower or the
/// upper fair share, so any two windows differ by at most one microsecond.
pub proof fn lemma_equal_split_fair(total: int, parts: int, i: int)
    requires
        total >= 0,
        parts >= 1,
        0 <= i < parts,
    ensures
        total / parts <= split_duration(total, parts, i),
        split_duration(total, parts, i) <= total / parts + 1,
{
    lemma_split_remaining_fair(total, parts, i);
    lemma_split_remaining_range(total, parts, i);
    let lo = total / parts;
    let hi = lo + 1;
    let k = parts - i;
    let rem = split_remaining(total, parts, i);
    if i == parts - 1 {
        assert(1 * lo == lo) by (nonlinear_arith);
        assert(1 * hi == hi) by (nonlinear_arith);
    } else {
        vstd::arithmetic::div_mod::lemma_div_is_ordered(k * lo, rem, k);
        vstd::arithmetic::div_mod::lemma_div_multiples_vanish(lo, k);
        vstd::arithmetic::div_mod::lemma_div_is_ordered(rem, k * hi, k);
        vstd::arithmetic::div_mod::lemma_div_multiples_vanish(hi, k);
    }
}

/// The equal-split model pins the plan completely: two plans for the same
/// inputs are equal, so re-planning the same chunk yields the same plan.
pub proof fn lemma_equal_split_deterministic(
    total: int,
    parts: int,
    plan_a: Seq<Window>,
    plan_b: Seq<Window>,
)
    requires
        split_plan_matches(total, parts, plan_a),
        split_plan_matches(total, parts, plan_b),
    ensures
        plan_a == plan_b,
{
    assert forall|i: int| 0 <= i < plan_a.len() implies plan_a[i] == plan_b[i] by {
        assert(window_matches(
            plan_a[i],
            split_start(total, parts, i),
            split_duration(total, parts, i),
        ));
        assert(window_matches(
            plan_b[i],
            split_start(total, parts, i),
            split_duration(total, parts, i),
        ));
    }
    assert(plan_a =~= plan_b);
}

/// The chunk planner's core guarantee: every planned window stays within
/// the planned duration ceiling, and its estimated encoded size — bitrate
/// times duration — stays within the safety-margined byte budget.
pub proof fn lemma_chunk_plan_within_budget(
    bitrate_bps: int,
    max_size_bytes: int,
    total: int,
    plan: Seq<Window>,
)
    requires
        bitrate_bps > 0,
        max_size_bytes > 0,
        total > 0,
        chunk_plan_matches(total, chunk_limit_micros(bitrate_bps, max_size_bytes), plan),
    ensures
        forall|i: int|
            0 <= i < plan.len() ==> #[trigger] plan[i].duration_micros
                <= crate::PLANNED_MAX_CHUNK_DURATION_MICROS,
        forall|i: int|
            0 <= i < plan.len() ==> #[trigger] plan[i].duration_micros * (bitrate_bps
                * crate::SAFETY_MARGIN_DENOMINATOR) <= (max_size_bytes * 8
                * crate::SAFETY_MARGIN_NUMERATOR) * crate::MICROS_PER_SECOND,
{
    let budget_bits = max_size_bytes * 8 * crate::SAFETY_MARGIN_NUMERATOR;
    let denom = bitrate_bps * crate::SAFETY_MARGIN_DENOMINATOR;
    let q = budget_bits / denom;
    let ls = chunk_limit_seconds(bitrate_bps, max_size_bytes);
    let lm = chunk_limit_micros(bitrate_bps, max_size_bytes);
    vstd::arithmetic::div_mod::lemma_fundamental_div_mod(budget_bits, denom);
    vstd::arithmetic::div_mod::lemma_mod_bound(budget_bits, denom);
    assert(denom * q <= budget_bits);
    assert(ls <= q && ls <= 1300);
    assert(lm <= 1_300_000_000) by (nonlinear_arith)
        requires
            lm == ls * 1_000_000,
            ls <= 1300,
    ;
    assert forall|i: int| 0 <= i < plan.len() implies #[trigger] plan[i].duration_micros * denom
        <= budget_bits * crate::MICROS_PER_SECOND by {
        assert(window_matches(
            plan[i],
            i * lm,
            vstd::math::min(lm, total - i * lm),
        ));
        let d = plan[i].duration_micros as int;
        assert(d <= lm);
        assert(d * denom <= lm * denom) by (nonlinear_arith)
            requires
                d <= lm,
                denom >= 0,
        ;
        assert(lm * denom == (ls * denom) * 1_000_000) by (nonlinear_arith)
            requires
                lm == ls * 1_000_000,
        ;
        assert(ls * denom <= q * denom) by (nonlinear_arith)
            requires
                ls <= q,
                denom >= 0,
        ;
        assert((ls * denom) * 1_000_000 <= (q * denom) * 1_000_000) by (nonlinear_arith)
            requires
                ls * denom <= q * denom,
        ;
        assert((q * denom) * 1_000_000 <= budget_bits * 1_000_000) by (nonlinear_arith)
            requires
                denom * q <= budget_bits,
        ;
    }
    assert forall|i: int| 0 <= i < plan.len() implies #[trigger] plan[i].duration_micros
        <= crate::PLANNED_MAX_CHUNK_DURATION_MICROS by {
        assert(window_matches(
            plan[i],
            i * lm,
            vstd::math::min(lm, total - i * lm),
        ));
    }
}

} // verus!
