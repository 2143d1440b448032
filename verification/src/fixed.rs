//! Fixed-point arithmetic of the engine: weights, the running weighted mean
//! and the accuracy bonus.
use vstd::prelude::*;

verus! {

/// Fixed-point denominator: the integer that stands for probability 1.0.
pub const SCALE: u64 = 10000;

/// The accuracy bonus of a submission that lands exactly on the consensus.
pub const MAX_BONUS: u64 = 100;

/// `x`, clamped at the largest `u64`.
pub open spec fn clamp_u64(x: int) -> u64
    recommends
        0 <= x,
{
    if x > u64::MAX as int {
        u64::MAX
    } else {
        x as u64
    }
}

/// Voting weight of an agent: stake times score, clamped at the largest `u64`.
pub open spec fn weight_spec(stake: u64, score: u64) -> u64 {
    clamp_u64(stake * score)
}

/// Accumulated weight after one more submission, clamped at the largest `u64`.
pub open spec fn total_weight_spec(old_weight: u64, weight: u64) -> u64 {
    clamp_u64(old_weight + weight)
}

/// The exact weighted mean of the old aggregate and a new value, rounded down.
///
/// With no weight on either side the new value stands alone.
pub open spec fn blend_exact(aggregate: u64, old_weight: u64, value: u64, weight: u64) -> int {
    let total = total_weight_spec(old_weight, weight);
    if total == 0 {
        value as int
    } else {
        (aggregate * old_weight + value * weight) / (total as int)
    }
}

/// The aggregate that is stored after a submission: the exact weighted mean,
/// clamped at the largest `u64`.
pub open spec fn blend_spec(aggregate: u64, old_weight: u64, value: u64, weight: u64) -> u64 {
    clamp_u64(blend_exact(aggregate, old_weight, value, weight))
}

/// Distance between a submitted value and the consensus it produced.
pub open spec fn distance_spec(value: u64, aggregate: u64) -> u64 {
    if value > aggregate {
        (value - aggregate) as u64
    } else {
        (aggregate - value) as u64
    }
}

/// Accuracy bonus at a given distance from the consensus.
pub open spec fn bonus_spec(distance: u64) -> u64 {
    ((MAX_BONUS * SCALE) / (SCALE + distance)) as u64
}

/// Computes `stake * score` in 128 bits and clamps the product to 64 bits.
pub fn saturating_weight(stake: u64, score: u64) -> (w: u64)
    ensures
        w == weight_spec(stake, score),
{
    assert(stake * score <= u64::MAX * u64::MAX) by (nonlinear_arith)
        requires
            stake <= u64::MAX,
            score <= u64::MAX,
    ;
    let wide: u128 = (stake as u128) * (score as u128);
    if wide > (u64::MAX as u128) {
        u64::MAX
    } else {
        wide as u64
    }
}

/// Folds one weighted value into a running aggregate.
///
/// Returns the new aggregate and the new accumulated weight. The numerator is
/// computed exactly; only the stored results are clamped to 64 bits.
pub fn blend(aggregate: u64, old_weight: u64, value: u64, weight: u64) -> (r: (u64, u64))
    ensures
        r.0 == blend_spec(aggregate, old_weight, value, weight),
        r.1 == total_weight_spec(old_weight, weight),
{
    let total: u64 = old_weight.saturating_add(weight);
    if total == 0 {
        return (value, total);
    }
    assert(aggregate * old_weight <= u64::MAX * u64::MAX) by (nonlinear_arith)
        requires
            aggregate <= u64::MAX,
            old_weight <= u64::MAX,
    ;
    assert(value * weight <= u64::MAX * u64::MAX) by (nonlinear_arith)
        requires
            value <= u64::MAX,
            weight <= u64::MAX,
    ;
    let old_part: u128 = (aggregate as u128) * (old_weight as u128);
    let new_part: u128 = (value as u128) * (weight as u128);
    match old_part.checked_add(new_part) {
        Some(numerator) => {
            let quotient: u128 = numerator / (total as u128);
            if quotient > (u64::MAX as u128) {
                (u64::MAX, total)
            } else {
                (quotient as u64, total)
            }
        },
        None => {
            proof {
                lemma_quotient_exceeds(aggregate * old_weight + value * weight, total as int);
            }
            (u64::MAX, total)
        },
    }
}

/// A numerator beyond 128 bits, divided by a 64-bit divisor, is beyond 64 bits.
proof fn lemma_quotient_exceeds(numerator: int, divisor: int)
    requires
        numerator > u128::MAX,
        0 < divisor <= u64::MAX,
    ensures
        numerator / divisor > u64::MAX,
{
    assert(numerator / divisor > u64::MAX) by (nonlinear_arith)
        requires
            numerator >= 0x1_0000_0000_0000_0000_0000_0000_0000_0000,
            0 < divisor <= 0xffff_ffff_ffff_ffff,
    ;
}

/// Distance between a submitted value and the consensus it produced.
pub fn distance(value: u64, aggregate: u64) -> (d: u64)
    ensures
        d == distance_spec(value, aggregate),
{
    if value > aggregate {
        value - aggregate
    } else {
        aggregate - value
    }
}

/// Accuracy bonus of a submission at `distance` from the consensus:
/// `MAX_BONUS * SCALE / (SCALE + distance)`, rounded down.
pub fn accuracy_bonus(distance: u64) -> (bonus: u64)
    ensures
        bonus == bonus_spec(distance),
        bonus <= MAX_BONUS,
{
    let divisor: u128 = (SCALE as u128) + (distance as u128);
    let bonus: u128 = ((MAX_BONUS as u128) * (SCALE as u128)) / divisor;
    proof {
        lemma_bonus_bounds(distance);
    }
    bonus as u64
}

/// The bonus is largest, `MAX_BONUS`, at distance zero and never exceeds it.
pub proof fn lemma_bonus_bounds(distance: u64)
    ensures
        0 <= (MAX_BONUS * SCALE) / (SCALE + distance) <= MAX_BONUS,
        bonus_spec(0) == MAX_BONUS,
        bonus_spec(distance) <= MAX_BONUS,
{
    let d: int = SCALE + distance;
    assert(1000000int / d <= 100 && 1000000int / d >= 0) by (nonlinear_arith)
        requires
            d >= 10000,
    ;
    assert(1000000int / 10000int == 100) by (nonlinear_arith);
}

/// The bonus never grows with the distance: a submission further from the
/// consensus earns no more than one closer to it.
pub proof fn lemma_bonus_monotone(near: u64, far: u64)
    requires
        near <= far,
    ensures
        bonus_spec(far) <= bonus_spec(near),
{
    lemma_bonus_bounds(near);
    lemma_bonus_bounds(far);
    let a: int = SCALE + near;
    let b: int = SCALE + far;
    assert(1000000int / b <= 1000000int / a) by (nonlinear_arith)
        requires
            0 < a <= b,
    ;
}

/// While the accumulated weight has not reached the largest `u64`, blending a
/// value in `[0, SCALE]` into an aggregate in `[0, SCALE]` stays in `[0, SCALE]`.
pub proof fn lemma_blend_in_range(aggregate: u64, old_weight: u64, value: u64, weight: u64)
    requires
        aggregate <= SCALE,
        value <= SCALE,
        old_weight + weight <= u64::MAX,
    ensures
        0 <= blend_exact(aggregate, old_weight, value, weight) <= SCALE,
        blend_spec(aggregate, old_weight, value, weight) <= SCALE,
        blend_spec(aggregate, old_weight, value, weight) == blend_exact(
            aggregate,
            old_weight,
            value,
            weight,
        ),
{
    let total: int = old_weight + weight;
    if total != 0 {
        let numerator: int = aggregate * old_weight + value * weight;
        assert(0 <= numerator <= SCALE * total) by (nonlinear_arith)
            requires
                numerator == aggregate * old_weight + value * weight,
                total == old_weight + weight,
                0 <= aggregate <= SCALE,
                0 <= value <= SCALE,
                0 <= old_weight,
                0 <= weight,
        ;
        assert(0 <= numerator / total <= SCALE) by (nonlinear_arith)
            requires
                0 <= numerator <= SCALE * total,
                total > 0,
        ;
    }
}

/// The first weighted submission replaces the initial value outright: with no
/// weight accumulated so far, the new aggregate is the submitted value.
pub proof fn lemma_first_submission(aggregate: u64, value: u64, weight: u64)
    ensures
        blend_spec(aggregate, 0, value, weight) == value,
{
    if weight != 0 {
        assert((aggregate * 0 + value * weight) / (weight as int) == value) by (nonlinear_arith)
            requires
                weight > 0,
        ;
    }
}

} // verus!
