//! Facts about fee evaluation that hold for every polynomial and weight.

use vstd::arithmetic::div_mod::{lemma_div_is_ordered, lemma_fundamental_div_mod};
use vstd::arithmetic::power::{lemma_pow1, pow};
use vstd::prelude::*;

use crate::currency::Balance;
use crate::fee::{
    fee_value, linear_term, power_part, saturate, signed_term, signed_total, term_value,
    PolynomialTerm, Weight, BALANCE_MAX, FRACTION_DENOMINATOR,
};

verus! {

/// The signed total of a one-term polynomial is that term's signed value.
proof fn lemma_single_total(t: PolynomialTerm, w: int)
    ensures
        signed_total(seq![t], w) == signed_term(t, w),
{
    let s = seq![t];
    assert(s.drop_last() =~= Seq::<PolynomialTerm>::empty());
    assert(s.last() == t);
    assert(signed_total(s.drop_last(), w) == 0);
}

/// The fee depends on the terms and the weight alone: equal polynomials charge
/// equal fees for equal weights, whenever and however often they are evaluated.
pub proof fn lemma_fee_deterministic(a: Seq<PolynomialTerm>, b: Seq<PolynomialTerm>, w1: int, w2: int)
    requires
        a == b,
        w1 == w2,
    ensures
        fee_value(a, w1) == fee_value(b, w2),
{
}

/// The fee is a balance: never below zero and never above `BALANCE_MAX`.
pub proof fn lemma_fee_in_range(terms: Seq<PolynomialTerm>, w: int)
    ensures
        0 <= fee_value(terms, w) <= BALANCE_MAX,
{
}

/// With negative terms only, the total is not positive.
proof fn lemma_negative_total(terms: Seq<PolynomialTerm>, w: int)
    requires
        forall|i: int| 0 <= i < terms.len() ==> (#[trigger] terms[i]).coefficient.negative,
    ensures
        signed_total(terms, w) <= 0,
    decreases terms.len(),
{
    if terms.len() > 0 {
        let rest = terms.drop_last();
        assert forall|i: int| 0 <= i < rest.len() implies (#[trigger] rest[i]).coefficient.negative by {
            assert(rest[i] == terms[i]);
        }
        lemma_negative_total(rest, w);
        assert(terms.last() == terms[terms.len() - 1]);
    }
}

/// A polynomial whose terms are all negative charges nothing: the total is floored
/// at zero.
pub proof fn lemma_all_negative_is_free(terms: Seq<PolynomialTerm>, w: int)
    requires
        forall|i: int| 0 <= i < terms.len() ==> (#[trigger] terms[i]).coefficient.negative,
    ensures
        fee_value(terms, w) == 0,
{
    lemma_negative_total(terms, w);
}

/// With non-negative terms only, the total is at least each term's value.
proof fn lemma_positive_total(terms: Seq<PolynomialTerm>, w: int, k: int)
    requires
        forall|i: int| 0 <= i < terms.len() ==> !(#[trigger] terms[i]).coefficient.negative,
        0 <= k < terms.len(),
    ensures
        signed_total(terms, w) >= term_value(terms[k], w),
    decreases terms.len(),
{
    let rest = terms.drop_last();
    let n = terms.len() - 1;
    assert(terms.last() == terms[n]);
    assert forall|i: int| 0 <= i < rest.len() implies !(#[trigger] rest[i]).coefficient.negative by {
        assert(rest[i] == terms[i]);
    }
    if k == n {
        lemma_nonnegative_total(rest, w);
    } else {
        assert(rest[k] == terms[k]);
        lemma_positive_total(rest, w, k);
    }
}

/// With non-negative terms only, the total is not negative.
proof fn lemma_nonnegative_total(terms: Seq<PolynomialTerm>, w: int)
    requires
        forall|i: int| 0 <= i < terms.len() ==> !(#[trigger] terms[i]).coefficient.negative,
    ensures
        signed_total(terms, w) >= 0,
    decreases terms.len(),
{
    if terms.len() > 0 {
        let rest = terms.drop_last();
        assert forall|i: int| 0 <= i < rest.len() implies !(#[trigger] rest[i]).coefficient.negative by {
            assert(rest[i] == terms[i]);
        }
        lemma_nonnegative_total(rest, w);
        assert(terms.last() == terms[terms.len() - 1]);
    }
}

/// Saturation instead of overflow: when all terms are non-negative and one of them
/// alone reaches `BALANCE_MAX`, the fee is exactly `BALANCE_MAX`.
pub proof fn lemma_saturates_at_max(terms: Seq<PolynomialTerm>, w: int, k: int)
    requires
        forall|i: int| 0 <= i < terms.len() ==> !(#[trigger] terms[i]).coefficient.negative,
        0 <= k < terms.len(),
        term_value(terms[k], w) == BALANCE_MAX,
    ensures
        fee_value(terms, w) == BALANCE_MAX,
{
    lemma_positive_total(terms, w, k);
}

/// Accuracy at the reference point: the linear polynomial built for
/// `reference_weight` and `target_fee` charges at most `target_fee` there, and
/// falls short by less than `reference_weight / FRACTION_DENOMINATOR + 1`, the
/// rounding of the fraction.
pub proof fn lemma_reference_accuracy(reference_weight: Weight, target_fee: Balance)
    requires
        reference_weight > 0,
    ensures
        fee_value(seq![linear_term(reference_weight, target_fee)], reference_weight as int)
            <= target_fee,
        (target_fee - fee_value(seq![linear_term(reference_weight, target_fee)], reference_weight as int))
            * FRACTION_DENOMINATOR < reference_weight + FRACTION_DENOMINATOR,
{
    let b = reference_weight as int;
    let f = target_fee as int;
    let d = FRACTION_DENOMINATOR as int;
    let t = linear_term(reference_weight, target_fee);
    lemma_single_total(t, b);
    lemma_pow1(b);
    assert(power_part(b, 1) == b);
    lemma_fundamental_div_mod(f, b);
    let q = f / b;
    let r = f % b;
    assert(b * q <= f);
    assert(q <= f) by (nonlinear_arith)
        requires
            b >= 1,
            b * q <= f,
            q >= 0,
    ;
    assert(r * d < b * d) by (nonlinear_arith)
        requires
            0 <= r < b,
            d > 0,
    ;
    lemma_fundamental_div_mod(r * d, b);
    let frac = (r * d) / b;
    lemma_div_is_ordered(r * d, b * d, b);
    assert((b * d) / b == d) by (nonlinear_arith)
        requires
            b > 0,
    ;
    assert(frac < d) by (nonlinear_arith)
        requires
            r * d == b * frac + (r * d) % b,
            0 <= (r * d) % b < b,
            r * d < b * d,
            b > 0,
    ;
    assert(frac >= 0) by (nonlinear_arith)
        requires
            r * d >= 0,
            b > 0,
            frac == (r * d) / b,
    ;
    assert(t.coefficient.integer == q);
    assert(t.coefficient.fraction == frac);
    let bf = b * frac;
    lemma_fundamental_div_mod(bf, d);
    let fp = bf / d;
    assert(bf >= 0) by (nonlinear_arith)
        requires
            bf == b * frac,
            b > 0,
            frac >= 0,
    ;
    assert(fp >= 0);
    assert(d * fp <= bf);
    assert(bf <= r * d);
    assert(fp <= r) by (nonlinear_arith)
        requires
            d * fp <= r * d,
            d > 0,
    ;
    assert(b * q + fp <= f);
    assert(term_value(t, b) == b * q + fp);
    assert(r * d < d * fp + d + b) by (nonlinear_arith)
        requires
            r * d == b * frac + (r * d) % b,
            (r * d) % b < b,
            bf == b * frac,
            bf == d * fp + bf % d,
            bf % d < d,
    ;
    assert((r - fp) * d < b + d) by (nonlinear_arith)
        requires
            r * d < d * fp + d + b,
    ;
    assert(f - (b * q + fp) == r - fp);
}

/// `pow` is monotone in its base over the naturals.
proof fn lemma_pow_base_monotone(w1: int, w2: int, e: nat)
    requires
        0 <= w1 <= w2,
    ensures
        0 <= pow(w1, e) <= pow(w2, e),
    decreases e,
{
    reveal(pow);
    if e > 0 {
        lemma_pow_base_monotone(w1, w2, (e - 1) as nat);
        let lower = pow(w1, (e - 1) as nat);
        let upper = pow(w2, (e - 1) as nat);
        assert(0 <= w1 * lower <= w2 * upper) by (nonlinear_arith)
            requires
                0 <= w1 <= w2,
                0 <= lower <= upper,
        ;
    }
}

/// Monotonicity: a polynomial of one non-negative term never charges less for
/// more weight.
pub proof fn lemma_single_term_monotone(t: PolynomialTerm, w1: int, w2: int)
    requires
        !t.coefficient.negative,
        0 <= w1 < w2,
    ensures
        fee_value(seq![t], w1) <= fee_value(seq![t], w2),
{
    lemma_single_total(t, w1);
    lemma_single_total(t, w2);
    let e = t.degree as nat;
    lemma_pow_base_monotone(w1, w2, e);
    let b1 = power_part(w1, e);
    let b2 = power_part(w2, e);
    assert(0 <= b1 <= b2);
    let c = t.coefficient.integer as int;
    let fr = t.coefficient.fraction as int;
    assert(b1 * c <= b2 * c) by (nonlinear_arith)
        requires
            0 <= b1 <= b2,
            c >= 0,
    ;
    assert(b1 * fr <= b2 * fr) by (nonlinear_arith)
        requires
            0 <= b1 <= b2,
            fr >= 0,
    ;
    lemma_div_is_ordered(b1 * fr, b2 * fr, FRACTION_DENOMINATOR as int);
    assert(saturate(b1 * c) <= saturate(b2 * c));
    assert(saturate(b1 * fr / FRACTION_DENOMINATOR as int) <= saturate(b2 * fr / FRACTION_DENOMINATOR as int));
    assert(term_value(t, w1) <= term_value(t, w2));
}

} // verus!
