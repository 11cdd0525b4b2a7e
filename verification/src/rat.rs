//! Exact rational numbers: a ghost model `Rat` (an integer numerator over a
//! positive integer denominator) and an executable `Ratio` over `i128` whose
//! operations are specified exactly against the model.

use vstd::prelude::*;

verus! {

/// Mathematical model of a rational number: numerator `n` over denominator `d`.
/// A well-formed value has `d > 0`; operations keep results unreduced.
pub ghost struct Rat {
    pub n: int,
    pub d: int,
}

pub open spec fn rat_wf(a: Rat) -> bool {
    a.d > 0
}

/// `a` and `b` denote the same rational number (cross multiplication).
pub open spec fn rat_eq(a: Rat, b: Rat) -> bool {
    a.n * b.d == b.n * a.d
}

/// `a <= b` as rational numbers, for well-formed operands.
pub open spec fn rat_le(a: Rat, b: Rat) -> bool {
    a.n * b.d <= b.n * a.d
}

/// `a < b` as rational numbers, for well-formed operands.
pub open spec fn rat_lt(a: Rat, b: Rat) -> bool {
    a.n * b.d < b.n * a.d
}

pub open spec fn rat_of_int(i: int) -> Rat {
    Rat { n: i, d: 1 }
}

pub open spec fn rat_add(a: Rat, b: Rat) -> Rat {
    Rat { n: a.n * b.d + b.n * a.d, d: a.d * b.d }
}

pub open spec fn rat_sub(a: Rat, b: Rat) -> Rat {
    Rat { n: a.n * b.d - b.n * a.d, d: a.d * b.d }
}

pub open spec fn rat_mul(a: Rat, b: Rat) -> Rat {
    Rat { n: a.n * b.n, d: a.d * b.d }
}

pub open spec fn rat_neg(a: Rat) -> Rat {
    Rat { n: -a.n, d: a.d }
}

/// Division; the sign of the divisor's numerator is folded into the result's
/// numerator so that well-formed operands give a well-formed result.
pub open spec fn rat_div(a: Rat, b: Rat) -> Rat {
    if b.n >= 0 {
        Rat { n: a.n * b.d, d: a.d * b.n }
    } else {
        Rat { n: -(a.n * b.d), d: -(a.d * b.n) }
    }
}

/// `x` is representable as an `i128`.
pub open spec fn fits(x: int) -> bool {
    i128::MIN <= x <= i128::MAX
}

/// The products needed to add or subtract `a` and `b` fit in `i128`.
pub open spec fn add_fits(a: Rat, b: Rat) -> bool {
    &&& fits(a.n * b.d)
    &&& fits(b.n * a.d)
    &&& fits(a.n * b.d + b.n * a.d)
    &&& fits(a.n * b.d - b.n * a.d)
    &&& fits(a.d * b.d)
}

/// The products needed to multiply `a` and `b` fit in `i128`.
pub open spec fn mul_fits(a: Rat, b: Rat) -> bool {
    &&& fits(a.n * b.n)
    &&& fits(a.d * b.d)
}

/// The products needed to divide `a` by `b` fit in `i128`.
pub open spec fn div_fits(a: Rat, b: Rat) -> bool {
    &&& fits(a.n * b.d)
    &&& fits(a.d * b.n)
    &&& fits(-(a.n * b.d))
    &&& fits(-(a.d * b.n))
}

/// The products needed to compare `a` with `b` fit in `i128`.
pub open spec fn cmp_fits(a: Rat, b: Rat) -> bool {
    &&& fits(a.n * b.d)
    &&& fits(b.n * a.d)
}

/// Executable rational number; `den` is kept strictly positive.
#[derive(Clone, Copy)]
pub struct Ratio {
    pub num: i128,
    pub den: i128,
}

impl View for Ratio {
    type V = Rat;

    open spec fn view(&self) -> Rat {
        Rat { n: self.num as int, d: self.den as int }
    }
}

impl Ratio {
    pub open spec fn wf(self) -> bool {
        rat_wf(self@)
    }

    /// The rational `num / den`.
    pub fn new(num: i64, den: i64) -> (r: Ratio)
        requires
            den > 0,
        ensures
            r.wf(),
            r@ == (Rat { n: num as int, d: den as int }),
    {
        Ratio { num: num as i128, den: den as i128 }
    }

    /// The rational `i / 1`.
    pub fn of_i64(i: i64) -> (r: Ratio)
        ensures
            r.wf(),
            r@ == rat_of_int(i as int),
    {
        Ratio { num: i as i128, den: 1 }
    }

    pub fn add(self, other: Ratio) -> (r: Ratio)
        requires
            self.wf(),
            other.wf(),
            add_fits(self@, other@),
        ensures
            r.wf(),
            r@ == rat_add(self@, other@),
    {
        proof {
            assert(self@.d * other@.d > 0) by (nonlinear_arith)
                requires
                    self@.d > 0,
                    other@.d > 0,
            ;
        }
        Ratio { num: self.num * other.den + other.num * self.den, den: self.den * other.den }
    }

    pub fn sub(self, other: Ratio) -> (r: Ratio)
        requires
            self.wf(),
            other.wf(),
            add_fits(self@, other@),
        ensures
            r.wf(),
            r@ == rat_sub(self@, other@),
    {
        proof {
            assert(self@.d * other@.d > 0) by (nonlinear_arith)
                requires
                    self@.d > 0,
                    other@.d > 0,
            ;
        }
        Ratio { num: self.num * other.den - other.num * self.den, den: self.den * other.den }
    }

    pub fn mul(self, other: Ratio) -> (r: Ratio)
        requires
            self.wf(),
            other.wf(),
            mul_fits(self@, other@),
        ensures
            r.wf(),
            r@ == rat_mul(self@, other@),
    {
        proof {
            assert(self@.d * other@.d > 0) by (nonlinear_arith)
                requires
                    self@.d > 0,
                    other@.d > 0,
            ;
        }
        Ratio { num: self.num * other.num, den: self.den * other.den }
    }

    pub fn div(self, other: Ratio) -> (r: Ratio)
        requires
            self.wf(),
            other.wf(),
            other@.n != 0,
            div_fits(self@, other@),
        ensures
            r.wf(),
            r@ == rat_div(self@, other@),
    {
        proof {
            assert(other@.n > 0 ==> self@.d * other@.n > 0) by (nonlinear_arith)
                requires
                    self@.d > 0,
            ;
            assert(other@.n < 0 ==> -(self@.d * other@.n) > 0) by (nonlinear_arith)
                requires
                    self@.d > 0,
            ;
        }
        if other.num >= 0 {
            Ratio { num: self.num * other.den, den: self.den * other.num }
        } else {
            Ratio { num: -(self.num * other.den), den: -(self.den * other.num) }
        }
    }

    pub fn neg(self) -> (r: Ratio)
        requires
            self.wf(),
            fits(-self@.n),
        ensures
            r.wf(),
            r@ == rat_neg(self@),
    {
        Ratio { num: -self.num, den: self.den }
    }

    /// Exact strict comparison of the denoted rational numbers.
    pub fn lt(self, other: Ratio) -> (r: bool)
        requires
            self.wf(),
            other.wf(),
            cmp_fits(self@, other@),
        ensures
            r == rat_lt(self@, other@),
    {
        self.num * other.den < other.num * self.den
    }

    /// Exact non-strict comparison of the denoted rational numbers.
    pub fn le(self, other: Ratio) -> (r: bool)
        requires
            self.wf(),
            other.wf(),
            cmp_fits(self@, other@),
        ensures
            r == rat_le(self@, other@),
    {
        self.num * other.den <= other.num * self.den
    }

    /// Exact equality of the denoted rational numbers.
    pub fn is_eq(self, other: Ratio) -> (r: bool)
        requires
            self.wf(),
            other.wf(),
            cmp_fits(self@, other@),
        ensures
            r == rat_eq(self@, other@),
    {
        self.num * other.den == other.num * self.den
    }
}

/// Greatest common divisor by Euclid's algorithm; positive whenever one
/// argument is.
fn gcd_u128(a0: u128, b0: u128) -> (g: u128)
    requires
        a0 > 0 || b0 > 0,
    ensures
        g > 0,
{
    let mut a = a0;
    let mut b = b0;
    while b != 0
        invariant
            a > 0 || b > 0,
        decreases b,
    {
        let t = a % b;
        a = b;
        b = t;
    }
    a
}

impl Ratio {
    /// Cancels a common factor of numerator and denominator; the denoted
    /// rational number is unchanged.
    pub fn reduce(self) -> (r: Ratio)
        requires
            self.wf(),
        ensures
            r.wf(),
            rat_eq(r@, self@),
    {
        if self.num == i128::MIN {
            return self;
        }
        let neg = self.num < 0;
        let a: u128 = if neg {
            (-self.num) as u128
        } else {
            self.num as u128
        };
        let d: u128 = self.den as u128;
        let g = gcd_u128(a, d);
        if a % g == 0 && d % g == 0 {
            let n2 = a / g;
            let d2 = d / g;
            proof {
                assert(n2 * g == a && d2 * g == d) by (nonlinear_arith)
                    requires
                        n2 == a as int / g as int,
                        d2 == d as int / g as int,
                        a as int % g as int == 0,
                        d as int % g as int == 0,
                        g > 0,
                ;
            }
            if d2 > 0 && n2 <= (i128::MAX as u128) && d2 <= (i128::MAX as u128) {
                let nn: i128 = if neg {
                    -(n2 as i128)
                } else {
                    n2 as i128
                };
                let dd: i128 = d2 as i128;
                proof {
                    if neg {
                        assert((-(n2 as int)) * (self.den as int) == (-(a as int)) * (d2 as int))
                            by (nonlinear_arith)
                            requires
                                n2 * g == a,
                                d2 * g == d,
                                self.den as int == d,
                        ;
                    } else {
                        assert((n2 as int) * (self.den as int) == (a as int) * (d2 as int))
                            by (nonlinear_arith)
                            requires
                                n2 * g == a,
                                d2 * g == d,
                                self.den as int == d,
                        ;
                    }
                }
                return Ratio { num: nn, den: dd };
            }
        }
        self
    }
}

/// Dividing by `b` and multiplying by `b` again gives back the start.
pub proof fn lemma_div_mul_cancel(a: Rat, b: Rat)
    requires
        rat_wf(a),
        rat_wf(b),
        b.n != 0,
    ensures
        rat_eq(rat_mul(rat_div(a, b), b), a),
{
    if b.n >= 0 {
        assert(((a.n * b.d) * b.n) * a.d == a.n * ((a.d * b.n) * b.d)) by (nonlinear_arith);
    } else {
        assert(((-(a.n * b.d)) * b.n) * a.d == a.n * ((-(a.d * b.n)) * b.d)) by (nonlinear_arith);
    }
}

} // verus!
