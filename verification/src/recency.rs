//! How stale a card is, on a scale from 0 (the youngest card of its deck) to
//! 4 (the oldest).

use vstd::prelude::*;

verus! {

/// `ceil(4 * age / span)`: the share of the deck's time span that a card's
/// age covers, in quarters, rounded up. A deck whose cards were all touched
/// at the same instant has no span, and every share is 0.
pub open spec fn recency_weight(age: int, span: int) -> int {
    if span <= 0 {
        0
    } else {
        (4 * age + span - 1) / span
    }
}

/// `recency_weight` is the ceiling of `4 * age / span`: the least whole
/// number of spans that covers four ages.
pub proof fn lemma_recency_weight_is_ceiling(age: int, span: int)
    requires
        span > 0,
    ensures
        recency_weight(age, span) * span >= 4 * age,
        (recency_weight(age, span) - 1) * span < 4 * age,
{
    let n = 4 * age + span - 1;
    vstd::arithmetic::div_mod::lemma_fundamental_div_mod(n, span);
    vstd::arithmetic::div_mod::lemma_mod_bound(n, span);
    let q = n / span;
    assert(span * q == q * span) by (nonlinear_arith);
    assert((q - 1) * span == q * span - span) by (nonlinear_arith);
}

/// Within the deck's span the weight stays on the scale.
pub proof fn lemma_recency_weight_bounds(age: int, span: int)
    requires
        0 <= age <= span,
    ensures
        0 <= recency_weight(age, span) <= 4,
        age == 0 ==> recency_weight(age, span) == 0,
        span > 0 && age == span ==> recency_weight(age, span) == 4,
{
    if span > 0 {
        lemma_recency_weight_is_ceiling(age, span);
        let w = recency_weight(age, span);
        assert(w >= 0) by (nonlinear_arith)
            requires
                w * span >= 4 * age,
                age >= 0,
                span > 0,
        ;
        assert(w <= 4) by (nonlinear_arith)
            requires
                (w - 1) * span < 4 * age,
                age <= span,
                span > 0,
        ;
        if age == 0 {
            assert(w <= 0) by (nonlinear_arith)
                requires
                    (w - 1) * span < 0,
                    span > 0,
            ;
        }
        if age == span {
            assert(w >= 4) by (nonlinear_arith)
                requires
                    w * span >= 4 * span,
                    span > 0,
            ;
        }
    }
}

/// Computes `recency_weight` for two instants given in ticks.
pub fn recency_weight_of(age: i128, span: i128) -> (weight: i64)
    requires
        0 <= age <= span,
        span <= 2 * (i64::MAX as int) + 1,
    ensures
        weight == recency_weight(age as int, span as int),
        0 <= weight <= 4,
{
    proof {
        lemma_recency_weight_bounds(age as int, span as int);
    }
    if span == 0 {
        0
    } else {
        let scaled: i128 = 4 * age + span - 1;
        let quotient: i128 = scaled / span;
        quotient as i64
    }
}

} // verus!
