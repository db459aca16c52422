//! Weight to fee conversion: a polynomial with fixed-point coefficients,
//! evaluated with saturating integer arithmetic.

use vstd::arithmetic::div_mod::{lemma_div_is_ordered, lemma_fundamental_div_mod, lemma_hoist_over_denominator};
use vstd::arithmetic::power::{lemma0_pow, lemma1_pow, pow};
use vstd::prelude::*;

use crate::currency::{Balance, CENTS};

verus! {

/// An abstract measure of the computation and storage that an operation uses.
pub type Weight = u64;

/// The largest representable balance.
pub const BALANCE_MAX: Balance = 0xffff_ffff_ffff_ffff_ffff_ffff_ffff_ffff;

/// Denominator of the fractional part of a coefficient: fractions are counted in
/// billionths.
pub const FRACTION_DENOMINATOR: Balance = 1_000_000_000;

/// 2^128: one unit of the high word of a wide accumulator.
pub open spec fn word() -> int {
    BALANCE_MAX as int + 1
}

/// A price per unit of weight: `integer + fraction / FRACTION_DENOMINATOR`, with a sign.
#[derive(Clone, Copy, Debug, PartialEq, Eq, Structural)]
pub struct RationalCoefficient {
    pub integer: Balance,
    /// Billionths; a well-formed coefficient keeps this below `FRACTION_DENOMINATOR`.
    pub fraction: u32,
    pub negative: bool,
}

/// One term `coefficient * weight^degree` of a fee polynomial.
#[derive(Clone, Copy, Debug, PartialEq, Eq, Structural)]
pub struct PolynomialTerm {
    pub degree: u8,
    pub coefficient: RationalCoefficient,
}

/// Why a fee policy cannot be built.
#[derive(Clone, Copy, Debug, PartialEq, Eq, Structural)]
pub enum ConfigError {
    /// The reference weight of a linear policy is zero.
    ZeroReferenceWeight,
    /// A coefficient's fraction is not below `FRACTION_DENOMINATOR`.
    FractionOutOfRange,
    /// The polynomial has no term.
    EmptyPolynomial,
}

/// `x` clamped to `0 ..= BALANCE_MAX`.
pub open spec fn saturate(x: int) -> int {
    if x < 0 {
        0
    } else if x > BALANCE_MAX {
        BALANCE_MAX as int
    } else {
        x
    }
}

/// `weight^degree`, saturated.
pub open spec fn power_part(weight: int, degree: nat) -> int {
    saturate(pow(weight, degree))
}

/// The value of one term at `weight`, before its sign: the integer part and the
/// fractional part of the coefficient, each times the saturated power and
/// saturated, then added with saturation. The fractional part rounds down.
pub open spec fn term_value(t: PolynomialTerm, weight: int) -> int {
    let base = power_part(weight, t.degree as nat);
    let integer_part = saturate(base * t.coefficient.integer);
    let fraction_part = saturate(base * t.coefficient.fraction / FRACTION_DENOMINATOR as int);
    saturate(integer_part + fraction_part)
}

/// The value of one term with its sign.
pub open spec fn signed_term(t: PolynomialTerm, weight: int) -> int {
    if t.coefficient.negative {
        -term_value(t, weight)
    } else {
        term_value(t, weight)
    }
}

/// The exact signed sum of the terms at `weight`.
pub open spec fn signed_total(terms: Seq<PolynomialTerm>, weight: int) -> int
    decreases terms.len(),
{
    if terms.len() == 0 {
        0
    } else {
        signed_total(terms.drop_last(), weight) + signed_term(terms.last(), weight)
    }
}

/// The fee for `weight`: the signed total, floored at zero and capped at `BALANCE_MAX`.
pub open spec fn fee_value(terms: Seq<PolynomialTerm>, weight: int) -> int {
    saturate(signed_total(terms, weight))
}

/// A coefficient whose fraction is a proper fraction.
pub open spec fn coefficient_well_formed(c: RationalCoefficient) -> bool {
    c.fraction < FRACTION_DENOMINATOR
}

/// A usable polynomial: at least one term, every fraction proper.
pub open spec fn terms_well_formed(terms: Seq<PolynomialTerm>) -> bool {
    &&& terms.len() > 0
    &&& forall|i: int| 0 <= i < terms.len() ==> coefficient_well_formed(#[trigger] terms[i].coefficient)
}

/// `a * b`, saturated.
fn mul_saturating(a: Balance, b: Balance) -> (r: Balance)
    ensures
        r == saturate(a * b),
{
    assert(a * b >= 0) by (nonlinear_arith);
    match a.checked_mul(b) {
        Some(p) => p,
        None => BALANCE_MAX,
    }
}

proof fn lemma_pow_small_base(w: int, e: nat)
    requires
        0 <= w <= 1,
    ensures
        0 <= pow(w, e) <= 1,
{
    if w == 0 {
        if e == 0 {
            reveal(pow);
        } else {
            lemma0_pow(e);
        }
    } else {
        lemma1_pow(e);
    }
}

proof fn lemma_pow_nonneg(w: int, e: nat)
    requires
        0 <= w,
    ensures
        pow(w, e) >= 0,
    decreases e,
{
    reveal(pow);
    if e > 0 {
        lemma_pow_nonneg(w, (e - 1) as nat);
        assert(w * pow(w, (e - 1) as nat) >= 0) by (nonlinear_arith)
            requires
                w >= 0,
                pow(w, (e - 1) as nat) >= 0,
        ;
    }
}

/// `weight^degree`, saturated; at most `degree` multiplications.
fn pow_saturating(weight: Weight, degree: u8) -> (r: Balance)
    ensures
        r == power_part(weight as int, degree as nat),
{
    let w = weight as Balance;
    let mut acc: Balance = 1;
    let mut i: u8 = 0;
    proof {
        reveal(pow);
    }
    while i < degree
        invariant
            i <= degree,
            w == weight,
            acc == power_part(weight as int, i as nat),
        decreases degree - i,
    {
        let next = mul_saturating(acc, w);
        proof {
            let p = pow(weight as int, i as nat);
            reveal(pow);
            assert(pow(weight as int, (i + 1) as nat) == weight * p);
            lemma_pow_nonneg(weight as int, i as nat);
            if p > BALANCE_MAX {
                if weight <= 1 {
                    lemma_pow_small_base(weight as int, i as nat);
                    assert(false);
                }
                assert(w >= 2);
                assert(acc == BALANCE_MAX);
                assert(acc * w >= acc) by (nonlinear_arith)
                    requires
                        w >= 2,
                        acc >= 0,
                ;
                assert(weight * p >= p) by (nonlinear_arith)
                    requires
                        weight >= 2,
                        p >= 0,
                ;
            } else {
                assert(acc * w == weight * p) by (nonlinear_arith)
                    requires
                        acc == p,
                        w == weight,
                ;
            }
        }
        acc = next;
        i = i + 1;
    }
    acc
}

/// `base * fraction / FRACTION_DENOMINATOR` rounded down, saturated. The product is
/// split as `(q * D + r) * f / D == q * f + r * f / D`, which needs no wide
/// intermediate.
fn fraction_of(base: Balance, fraction: u32) -> (r: Balance)
    ensures
        r == saturate(base * fraction / FRACTION_DENOMINATOR as int),
{
    let d = FRACTION_DENOMINATOR;
    let q = base / d;
    let rem = base % d;
    let f = fraction as Balance;
    let whole = mul_saturating(q, f);
    assert(rem * f < 1_000_000_000 * 0x1_0000_0000) by (nonlinear_arith)
        requires
            rem < 1_000_000_000,
            f < 0x1_0000_0000,
    ;
    let part = rem * f / d;
    proof {
        lemma_fundamental_div_mod(base as int, d as int);
        let bf = base * f;
        assert(bf == (q * f) * d + rem * f) by (nonlinear_arith)
            requires
                base == d * q + rem,
                bf == base * f,
        ;
        lemma_hoist_over_denominator(rem * f, q * f, d as nat);
        assert(part + q * f == bf / (d as int));
        assert(q * f >= 0) by (nonlinear_arith)
            requires
                q >= 0,
                f >= 0,
        ;
    }
    whole.saturating_add(part)
}

/// The value of one term at `weight`, before its sign.
fn eval_term(t: &PolynomialTerm, weight: Weight) -> (r: Balance)
    ensures
        r == term_value(*t, weight as int),
{
    let base = pow_saturating(weight, t.degree);
    let integer_part = mul_saturating(base, t.coefficient.integer);
    let fraction_part = fraction_of(base, t.coefficient.fraction);
    integer_part.saturating_add(fraction_part)
}

/// Adds `t` to the non-negative number `hi * 2^128 + lo`.
fn add_wide(hi: Balance, lo: Balance, t: Balance) -> (r: (Balance, Balance))
    requires
        hi < BALANCE_MAX,
    ensures
        r.0 * word() + r.1 == hi * word() + lo + t,
        r.0 == hi || r.0 == hi + 1,
{
    if lo <= BALANCE_MAX - t {
        (hi, lo + t)
    } else {
        (hi + 1, t - (BALANCE_MAX - lo) - 1)
    }
}

/// `(ph * 2^128 + pl) - (nh * 2^128 + nl)`, clamped to `0 ..= BALANCE_MAX`.
fn settle(ph: Balance, pl: Balance, nh: Balance, nl: Balance) -> (r: Balance)
    ensures
        r == saturate((ph * word() + pl) - (nh * word() + nl)),
{
    if ph < nh {
        assert(ph * word() + word() <= nh * word()) by (nonlinear_arith)
            requires
                ph + 1 <= nh,
        ;
        0
    } else if ph == nh {
        if pl <= nl {
            0
        } else {
            pl - nl
        }
    } else if ph - nh == 1 && pl < nl {
        assert(ph * word() == nh * word() + word()) by (nonlinear_arith)
            requires
                ph == nh + 1,
        ;
        BALANCE_MAX - (nl - pl) + 1
    } else {
        assert(ph * word() >= nh * word() + word()) by (nonlinear_arith)
            requires
                ph >= nh + 1,
        ;
        if ph - nh >= 2 {
            assert(ph * word() >= nh * word() + 2 * word()) by (nonlinear_arith)
                requires
                    ph >= nh + 2,
            ;
        }
        BALANCE_MAX
    }
}

/// The fee that `terms` give at `weight`; see `fee_value`.
///
/// The positive and the negative terms are summed apart, each exactly in two
/// words, so the result does not depend on the order of the terms.
pub fn evaluate(terms: &[PolynomialTerm], weight: Weight) -> (r: Balance)
    ensures
        r == fee_value(terms@, weight as int),
{
    let mut ph: Balance = 0;
    let mut pl: Balance = 0;
    let mut nh: Balance = 0;
    let mut nl: Balance = 0;
    let mut i: usize = 0;
    while i < terms.len()
        invariant
            i <= terms@.len(),
            ph <= i,
            nh <= i,
            (ph * word() + pl) - (nh * word() + nl) == signed_total(terms@.take(i as int), weight as int),
        decreases terms@.len() - i,
    {
        let t = &terms[i];
        let v = eval_term(t, weight);
        proof {
            let s = terms@.take(i as int + 1);
            assert(s.drop_last() == terms@.take(i as int));
            assert(s.last() == terms@[i as int]);
        }
        if t.coefficient.negative {
            let (h, l) = add_wide(nh, nl, v);
            nh = h;
            nl = l;
        } else {
            let (h, l) = add_wide(ph, pl, v);
            ph = h;
            pl = l;
        }
        i = i + 1;
    }
    proof {
        assert(terms@.take(terms@.len() as int) == terms@);
    }
    settle(ph, pl, nh, nl)
}

/// The single linear term whose value at `reference_weight` comes closest, from
/// below, to `target_fee`: the integer part is `target_fee / reference_weight` and
/// the remainder becomes billionths, rounded down.
pub open spec fn linear_term(reference_weight: Weight, target_fee: Balance) -> PolynomialTerm {
    PolynomialTerm {
        degree: 1,
        coefficient: RationalCoefficient {
            integer: (target_fee as int / reference_weight as int) as Balance,
            fraction: ((target_fee as int % reference_weight as int) * FRACTION_DENOMINATOR
                / reference_weight as int) as u32,
            negative: false,
        },
    }
}

/// Relies on `sp_runtime::Perbill::from_rational` (sp_arithmetic's `PerThing`): for
/// `p <= q` and `q > 0` it gives `p / q` in billionths, always rounded down, which
/// `deconstruct` reads back.
#[verifier::external_body]
fn perbill_parts_from_rational(p: u128, q: u128) -> (r: u32)
    requires
        q > 0,
        p <= q,
    ensures
        r == p * FRACTION_DENOMINATOR / q as int,
{
    sp_runtime::Perbill::from_rational(p, q).deconstruct()
}

/// A fee polynomial: a non-empty sequence of terms whose fractions are proper.
pub struct FeePolynomial {
    terms: Vec<PolynomialTerm>,
}

impl View for FeePolynomial {
    type V = Seq<PolynomialTerm>;

    closed spec fn view(&self) -> Seq<PolynomialTerm> {
        self.terms@
    }
}

impl FeePolynomial {
    #[verifier::type_invariant]
    spec fn inv(self) -> bool {
        terms_well_formed(self.terms@)
    }

    /// A polynomial of the given terms, or the reason why they do not make one.
    pub fn new(terms: Vec<PolynomialTerm>) -> (r: Result<FeePolynomial, ConfigError>)
        ensures
            terms@.len() == 0 ==> r == Err::<FeePolynomial, ConfigError>(ConfigError::EmptyPolynomial),
            terms@.len() > 0 && !terms_well_formed(terms@) ==> r == Err::<FeePolynomial, ConfigError>(
                ConfigError::FractionOutOfRange,
            ),
            terms_well_formed(terms@) ==> r is Ok && r->Ok_0@ == terms@,
    {
        if terms.len() == 0 {
            return Err(ConfigError::EmptyPolynomial);
        }
        let mut i: usize = 0;
        while i < terms.len()
            invariant
                i <= terms@.len(),
                forall|j: int| 0 <= j < i ==> coefficient_well_formed(#[trigger] terms@[j].coefficient),
            decreases terms@.len() - i,
        {
            if terms[i].coefficient.fraction as Balance >= FRACTION_DENOMINATOR {
                return Err(ConfigError::FractionOutOfRange);
            }
            i = i + 1;
        }
        Ok(FeePolynomial { terms })
    }

    /// The linear polynomial that charges about `target_fee` for `reference_weight`;
    /// see `linear_term`. A zero reference weight is refused.
    pub fn linear_from_reference(reference_weight: Weight, target_fee: Balance) -> (r: Result<
        FeePolynomial,
        ConfigError,
    >)
        ensures
            reference_weight == 0 ==> r == Err::<FeePolynomial, ConfigError>(
                ConfigError::ZeroReferenceWeight,
            ),
            reference_weight > 0 ==> r is Ok && r->Ok_0@ == seq![linear_term(reference_weight, target_fee)],
    {
        if reference_weight == 0 {
            return Err(ConfigError::ZeroReferenceWeight);
        }
        let q = reference_weight as Balance;
        let integer = target_fee / q;
        let fraction = perbill_parts_from_rational(target_fee % q, q);
        proof {
            let rem = target_fee % q;
            assert(rem * FRACTION_DENOMINATOR < q * FRACTION_DENOMINATOR) by (nonlinear_arith)
                requires
                    rem < q,
            ;
            lemma_div_is_ordered(rem * FRACTION_DENOMINATOR, q * FRACTION_DENOMINATOR - 1, q as int);
            assert((q * FRACTION_DENOMINATOR - 1) / (q as int) < FRACTION_DENOMINATOR) by (nonlinear_arith)
                requires
                    q > 0,
            ;
        }
        let term = PolynomialTerm {
            degree: 1,
            coefficient: RationalCoefficient { integer, fraction, negative: false },
        };
        let terms = vec![term];
        proof {
            assert(terms@ == seq![linear_term(reference_weight, target_fee)]);
        }
        Ok(FeePolynomial { terms })
    }

    /// The terms, in order; they are always well formed.
    pub fn terms(&self) -> (r: &[PolynomialTerm])
        ensures
            r@ == self@,
            terms_well_formed(r@),
    {
        proof {
            use_type_invariant(self);
        }
        self.terms.as_slice()
    }

    /// The fee for `weight`; see `fee_value`. Never fails: overflow saturates at
    /// `BALANCE_MAX` and a negative total gives zero.
    pub fn calc(&self, weight: Weight) -> (r: Balance)
        ensures
            r == fee_value(self@, weight as int),
    {
        evaluate(self.terms.as_slice(), weight)
    }
}

/// Weight of the cheapest extrinsic: 125 microseconds, at 10^12 weight per second.
pub const EXTRINSIC_BASE_WEIGHT: Weight = 125_000_000;

/// The most weight that one block may hold: two seconds of execution.
pub const MAXIMUM_BLOCK_WEIGHT: Weight = 2_000_000_000_000;

/// The fee for an extrinsic of `EXTRINSIC_BASE_WEIGHT`: a tenth of a cent.
pub const EXTRINSIC_BASE_FEE: Balance = CENTS / 10;

/// The block fullness that fee adjustment aims at, in billionths: 25 percent.
pub const TARGET_BLOCK_FULLNESS: u32 = 250_000_000;

/// The network's fee policy: linear in weight, calibrated so that
/// `EXTRINSIC_BASE_WEIGHT` costs `EXTRINSIC_BASE_FEE`.
pub struct WeightToFee;

impl WeightToFee {
    /// The terms of the network's fee polynomial.
    pub open spec fn spec_terms() -> Seq<PolynomialTerm> {
        seq![linear_term(EXTRINSIC_BASE_WEIGHT, EXTRINSIC_BASE_FEE)]
    }

    /// The network's fee polynomial.
    pub fn polynomial() -> (r: FeePolynomial)
        ensures
            r@ == Self::spec_terms(),
    {
        FeePolynomial::linear_from_reference(EXTRINSIC_BASE_WEIGHT, EXTRINSIC_BASE_FEE).unwrap()
    }

    /// The fee that the network charges for `weight`.
    pub fn calc(weight: &Weight) -> (r: Balance)
        ensures
            r == fee_value(Self::spec_terms(), *weight as int),
    {
        Self::polynomial().calc(*weight)
    }
}

} // verus!
