//! Exact fixed-point numbers with six fractional digits.
//!
//! Every amount of money, exchange rate and interest rate in this crate is a
//! [`Decimal`]: a whole number of millionths, at most one trillion units in
//! magnitude. Arithmetic on it is exact or, where a quotient has to be cut,
//! rounds in a stated direction; a result that leaves the range is reported,
//! never wrapped.

use vstd::prelude::*;

verus! {

/// The number of millionths in one unit.
pub const SCALE: i64 = 1_000_000;

/// The largest magnitude of a [`Decimal`], in millionths: one trillion units.
pub const LIMIT: i64 = 1_000_000_000_000_000_000;

/// The number of millionths in one hundredth.
pub const CENT: i64 = 10_000;

/// Whether `v` millionths can be held by a [`Decimal`].
pub open spec fn representable(v: int) -> bool {
    -LIMIT <= v <= LIMIT
}

/// The magnitude of `v`.
pub open spec fn magnitude(v: int) -> int {
    if v < 0 {
        -v
    } else {
        v
    }
}

/// The quotient of `n` by `d`, cut towards zero. Meant for `d != 0`.
pub open spec fn quotient_toward_zero(n: int, d: int) -> int {
    if (n < 0) == (d < 0) {
        magnitude(n) / magnitude(d)
    } else {
        -(magnitude(n) / magnitude(d))
    }
}

/// `v` millionths rounded to a whole number of hundredths, a tie going away
/// from zero; the result is again in millionths.
pub open spec fn rounded_to_cents(v: int) -> int {
    if v < 0 {
        -(((-v + CENT / 2) / (CENT as int)) * CENT)
    } else {
        ((v + CENT / 2) / (CENT as int)) * CENT
    }
}

/// A fixed-point number. Its view is its value in millionths.
#[derive(Clone, Copy, Debug, PartialEq, Eq, Structural)]
pub struct Decimal {
    micros: i64,
}

impl View for Decimal {
    type V = int;

    closed spec fn view(&self) -> int {
        self.micros as int
    }
}

impl Decimal {
    /// What holds of every `Decimal`: its value is in range.
    #[verifier::type_invariant]
    pub open spec fn in_range(self) -> bool {
        representable(self@)
    }

    /// The number with the given count of millionths, if it is in range.
    pub fn from_micros(micros: i64) -> (made: Option<Decimal>)
        ensures
            match made {
                Some(d) => representable(micros as int) && d@ == micros,
                None => !representable(micros as int),
            },
    {
        if -LIMIT <= micros && micros <= LIMIT {
            Some(Decimal { micros })
        } else {
            None
        }
    }

    /// Zero.
    pub fn zero() -> (d: Decimal)
        ensures
            d@ == 0,
    {
        Decimal { micros: 0 }
    }

    /// One unit.
    pub fn one() -> (d: Decimal)
        ensures
            d@ == SCALE,
    {
        Decimal { micros: SCALE }
    }

    /// The whole number `units`, if it is in range.
    pub fn from_units(units: i64) -> (made: Option<Decimal>)
        ensures
            match made {
                Some(d) => representable(units * SCALE) && d@ == units * SCALE,
                None => !representable(units * SCALE),
            },
    {
        if -(LIMIT / SCALE) <= units && units <= LIMIT / SCALE {
            Some(Decimal { micros: units * SCALE })
        } else {
            None
        }
    }

    /// The value in millionths.
    pub fn micros(&self) -> (m: i64)
        ensures
            m == self@,
            representable(m as int),
    {
        proof {
            use_type_invariant(self);
        }
        self.micros
    }

    /// The magnitude in millionths.
    fn abs_micros(&self) -> (m: u128)
        ensures
            m == magnitude(self@),
            m <= LIMIT,
    {
        proof {
            use_type_invariant(self);
        }
        if self.micros < 0 {
            (-self.micros) as u128
        } else {
            self.micros as u128
        }
    }

    /// Whether the number is below zero.
    pub fn is_negative(&self) -> (b: bool)
        ensures
            b == (self@ < 0),
    {
        self.micros < 0
    }

    /// Whether the number is above zero.
    pub fn is_positive(&self) -> (b: bool)
        ensures
            b == (self@ > 0),
    {
        self.micros > 0
    }

    /// Whether the number is zero.
    pub fn is_zero(&self) -> (b: bool)
        ensures
            b == (self@ == 0),
    {
        self.micros == 0
    }

    /// Whether the number is greater than `other`.
    pub fn exceeds(&self, other: Decimal) -> (b: bool)
        ensures
            b == (self@ > other@),
    {
        self.micros > other.micros
    }

    /// The sum, or `None` where it leaves the range.
    pub fn checked_add(&self, other: Decimal) -> (sum: Option<Decimal>)
        ensures
            match sum {
                Some(d) => representable(self@ + other@) && d@ == self@ + other@,
                None => !representable(self@ + other@),
            },
    {
        proof {
            use_type_invariant(self);
            use_type_invariant(&other);
        }
        Decimal::from_micros(self.micros + other.micros)
    }

    /// The number with the given count of millionths, where the caller has
    /// shown it to be in range.
    pub(crate) fn exactly(micros: i64) -> (d: Decimal)
        requires
            representable(micros as int),
        ensures
            d@ == micros,
    {
        Decimal { micros }
    }

    /// The difference, where the caller has shown it to be in range.
    pub(crate) fn minus(&self, other: Decimal) -> (difference: Decimal)
        requires
            representable(self@ - other@),
        ensures
            difference@ == self@ - other@,
    {
        proof {
            use_type_invariant(self);
            use_type_invariant(&other);
        }
        Decimal { micros: self.micros - other.micros }
    }

    /// The product of this number and `factor`, divided by `divisor` and cut
    /// towards zero: `None` where `divisor` is zero or the quotient leaves the
    /// range. The product itself is never rounded.
    pub fn mul_div(&self, factor: Decimal, divisor: Decimal) -> (scaled: Option<Decimal>)
        ensures
            match scaled {
                Some(d) => divisor@ != 0 && representable(
                    quotient_toward_zero(self@ * factor@, divisor@),
                ) && d@ == quotient_toward_zero(self@ * factor@, divisor@),
                None => divisor@ == 0 || !representable(
                    quotient_toward_zero(self@ * factor@, divisor@),
                ),
            },
    {
        proof {
            use_type_invariant(self);
            use_type_invariant(&factor);
            use_type_invariant(&divisor);
        }
        if divisor.micros == 0 {
            return None;
        }
        let a: u128 = self.abs_micros();
        let b: u128 = factor.abs_micros();
        let c: u128 = divisor.abs_micros();
        proof {
            lemma_product_magnitude(self@, factor@);
        }
        let q: u128 = (a * b) / c;
        let negative: bool = ((self.micros < 0) != (factor.micros < 0)) != (divisor.micros < 0);
        proof {
            lemma_product_sign(self@, factor@);
        }
        if q > LIMIT as u128 {
            None
        } else {
            let m: i64 = q as i64;
            if negative {
                Some(Decimal { micros: -m })
            } else {
                Some(Decimal { micros: m })
            }
        }
    }

    /// This number rounded to hundredths, a tie going away from zero.
    pub fn round_to_cents(&self) -> (rounded: Decimal)
        ensures
            rounded@ == rounded_to_cents(self@),
    {
        proof {
            use_type_invariant(self);
        }
        if self.micros < 0 {
            let whole: i64 = (-self.micros + CENT / 2) / CENT;
            Decimal { micros: -(whole * CENT) }
        } else {
            let whole: i64 = (self.micros + CENT / 2) / CENT;
            Decimal { micros: whole * CENT }
        }
    }
}

/// Multiplying by a number and then dividing by the same number, cut towards
/// zero, gives back what one started with.
pub proof fn lemma_quotient_undoes_product(v: int, d: int)
    requires
        d != 0,
    ensures
        quotient_toward_zero(v * d, d) == v,
{
    assert(magnitude(v * d) == magnitude(d) * magnitude(v)) by (nonlinear_arith);
    vstd::arithmetic::div_mod::lemma_div_multiples_vanish(magnitude(v), magnitude(d));
    assert((v * d < 0) == ((v < 0) != (d < 0) && v != 0)) by (nonlinear_arith)
        requires
            d != 0,
    ;
}

/// The magnitude of a product is the product of the magnitudes, and stays
/// below the square of the limit.
proof fn lemma_product_magnitude(a: int, b: int)
    requires
        representable(a),
        representable(b),
    ensures
        magnitude(a * b) == magnitude(a) * magnitude(b),
        magnitude(a) * magnitude(b) <= LIMIT * LIMIT,
{
    assert(magnitude(a * b) == magnitude(a) * magnitude(b)) by (nonlinear_arith);
    assert(magnitude(a) * magnitude(b) <= LIMIT * LIMIT) by (nonlinear_arith)
        requires
            0 <= magnitude(a) <= LIMIT,
            0 <= magnitude(b) <= LIMIT,
    ;
}

/// A product is negative exactly when its factors differ in sign and neither
/// is zero.
proof fn lemma_product_sign(a: int, b: int)
    ensures
        (a * b < 0) == ((a < 0) != (b < 0) && a != 0 && b != 0),
{
    assert((a * b < 0) == ((a < 0) != (b < 0) && a != 0 && b != 0)) by (nonlinear_arith);
}

} // verus!
