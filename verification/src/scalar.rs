//! Exact scalar arithmetic: bounded rational numbers.
//!
//! A `Scalar` is a fraction of two machine integers kept within fixed bounds,
//! and its mathematical meaning is the spec-level rational `Rat`. Operations
//! that could leave the bounds return `None` instead of a wrong value; on
//! inputs within the documented small range they always succeed.

use vstd::prelude::*;
use vstd::arithmetic::div_mod::lemma_fundamental_div_mod;

verus! {

/// Largest magnitude a stored numerator may have; also the largest stored
/// denominator (2^54). Keeps every pairwise product inside `i128`.
pub const MAX_COEF: i128 = 18014398509481984;

/// Inputs whose numerator and denominator stay within this bound (2^26) are
/// guaranteed to come through a single arithmetic operation successfully.
pub const SMALL_COEF: i128 = 67108864;

/// Reciprocal of the tolerance used by approximate equality: two scalars are
/// approximately equal when they differ by at most 1/100000.
pub const TOL_DEN: i128 = 100000;

/// Bound on the raw numerator magnitude and denominator accepted by
/// normalization (2^126).
pub const RAW_LIMIT: i128 = 85070591730234615865843651857942052864;

/// A mathematical rational number: numerator `n` over denominator `d`.
/// Spec-level only; well-formed values have `d > 0`.
pub struct Rat {
    pub n: int,
    pub d: int,
}

pub open spec fn rat_wf(a: Rat) -> bool {
    a.d > 0
}

/// Value equality of rationals, by cross multiplication.
pub open spec fn rat_eq(a: Rat, b: Rat) -> bool {
    a.n * b.d == b.n * a.d
}

pub open spec fn rat_add(a: Rat, b: Rat) -> Rat {
    Rat { n: a.n * b.d + b.n * a.d, d: a.d * b.d }
}

pub open spec fn rat_sub(a: Rat, b: Rat) -> Rat {
    Rat { n: a.n * b.d - b.n * a.d, d: a.d * b.d }
}

pub open spec fn rat_mul(a: Rat, b: Rat) -> Rat {
    Rat { n: a.n * b.n, d: a.d * b.d }
}

pub open spec fn rat_neg(a: Rat) -> Rat {
    Rat { n: -a.n, d: a.d }
}

/// Quotient of two rationals, with the sign moved into the numerator so that
/// a well-formed divisor with nonzero numerator yields a well-formed result.
pub open spec fn rat_div(a: Rat, b: Rat) -> Rat {
    if b.n >= 0 {
        Rat { n: a.n * b.d, d: a.d * b.n }
    } else {
        Rat { n: -(a.n * b.d), d: -(a.d * b.n) }
    }
}

/// Ordering by cross multiplication; meaningful for well-formed rationals.
pub open spec fn rat_le(a: Rat, b: Rat) -> bool {
    a.n * b.d <= b.n * a.d
}

pub open spec fn rat_lt(a: Rat, b: Rat) -> bool {
    a.n * b.d < b.n * a.d
}

pub open spec fn rat_int(i: int) -> Rat {
    Rat { n: i, d: 1 }
}

pub open spec fn rat_zero() -> Rat {
    rat_int(0)
}

pub open spec fn rat_one() -> Rat {
    rat_int(1)
}

pub open spec fn abs_int(x: int) -> int {
    if x < 0 {
        -x
    } else {
        x
    }
}

/// Componentwise approximate equality: |a - b| <= 1/TOL_DEN.
pub open spec fn rat_approx_eq(a: Rat, b: Rat) -> bool {
    abs_int(a.n * b.d - b.n * a.d) * (TOL_DEN as int) <= a.d * b.d
}

pub open spec fn rat_bounded(a: Rat, bound: int) -> bool {
    &&& -bound <= a.n <= bound
    &&& 0 < a.d <= bound
}

/// An exact rational scalar with bounded components.
#[derive(Clone, Copy, PartialEq, Debug)]
pub struct Scalar {
    pub n: i128,
    pub d: i128,
}

/// Well-formedness of a scalar: positive denominator, components within
/// `MAX_COEF`. Every constructor establishes it; every operation keeps it.
pub open spec fn sc_ok(s: Scalar) -> bool {
    rat_bounded(s@, MAX_COEF as int)
}

impl View for Scalar {
    type V = Rat;

    open spec fn view(&self) -> Rat {
        Rat { n: self.n as int, d: self.d as int }
    }
}

impl Scalar {
    /// The integer `v` as a scalar.
    pub fn from_int(v: i32) -> (r: Scalar)
        ensures
            r@ == rat_int(v as int),
            sc_ok(r),
    {
        Scalar { n: v as i128, d: 1 }
    }

    /// The fraction `n / d` as a scalar; `None` exactly when `d` is zero.
    pub fn new(n: i32, d: i32) -> (r: Option<Scalar>)
        ensures
            r.is_some() <==> d != 0,
            r matches Some(s) ==> rat_eq(s@, Rat { n: n as int, d: d as int }) && sc_ok(s),
    {
        if d == 0 {
            None
        } else {
            let (nn, dd): (i128, i128) = if d < 0 {
                (-(n as i128), -(d as i128))
            } else {
                (n as i128, d as i128)
            };
            let r = reduce(nn, dd);
            proof {
                if d < 0 {
                    assert((nn as int) * (d as int) == (n as int) * (dd as int))
                        by (nonlinear_arith)
                        requires
                            nn == -(n as int),
                            dd == -(d as int),
                    ;
                } else {
                    assert((nn as int) * (d as int) == (n as int) * (dd as int));
                }
                if let Some(s) = r {
                    lemma_req_trans(s@, Rat { n: nn as int, d: dd as int },
                        Rat { n: n as int, d: d as int });
                }
            }
            r
        }
    }

    /// Negation; always exact.
    pub fn neg(&self) -> (r: Scalar)
        requires
            sc_ok(*self),
        ensures
            r@ == rat_neg(self@),
            sc_ok(r),
    {
        Scalar { n: -self.n, d: self.d }
    }

    /// Sum. `Some` is guaranteed, with a bounded result, whenever twice the
    /// product of any bounds on the operands fits the scalar bound.
    pub fn add(&self, other: &Scalar) -> (r: Option<Scalar>)
        requires
            sc_ok(*self),
            sc_ok(*other),
        ensures
            r matches Some(s) ==> rat_eq(s@, rat_add(self@, other@)) && sc_ok(s),
            rat_bounded(self@, SMALL_COEF as int) && rat_bounded(other@, SMALL_COEF as int)
                ==> r.is_some(),
            forall|g1: int, g2: int|
                #![trigger rat_bounded(self@, g1), rat_bounded(other@, g2)]
                0 < g1 && 0 < g2 && rat_bounded(self@, g1) && rat_bounded(other@, g2) && 2 * (
                g1 * g2) <= MAX_COEF as int ==> (r matches Some(s) && rat_bounded(
                    s@,
                    2 * (g1 * g2),
                )),
    {
        proof {
            lemma_mul_bound(self.n as int, other.d as int, MAX_COEF as int, MAX_COEF as int);
            lemma_mul_bound(other.n as int, self.d as int, MAX_COEF as int, MAX_COEF as int);
            lemma_mul_bound(self.d as int, other.d as int, MAX_COEF as int, MAX_COEF as int);
            lemma_pos_mul(self.d as int, other.d as int);
            if rat_bounded(self@, SMALL_COEF as int) && rat_bounded(other@, SMALL_COEF as int) {
                lemma_mul_bound(self.n as int, other.d as int, SMALL_COEF as int,
                    SMALL_COEF as int);
                lemma_mul_bound(other.n as int, self.d as int, SMALL_COEF as int,
                    SMALL_COEF as int);
                lemma_mul_bound(self.d as int, other.d as int, SMALL_COEF as int,
                    SMALL_COEF as int);
            }
        }
        let n = self.n * other.d + other.n * self.d;
        let d = self.d * other.d;
        let r = reduce(n, d);
        proof {
            assert forall|g1: int, g2: int|
                0 < g1 && 0 < g2 && rat_bounded(self@, g1) && rat_bounded(other@, g2) && 2 * (
                g1 * g2) <= MAX_COEF as int implies (r matches Some(s) && rat_bounded(
                s@,
                2 * (g1 * g2),
            )) by {
                lemma_mul_bound(self@.n, other@.d, g1, g2);
                lemma_mul_bound(other@.n, self@.d, g2, g1);
                lemma_mul_bound(self@.d, other@.d, g1, g2);
            }
        }
        r
    }

    /// Difference. `Some` is guaranteed, with a bounded result, whenever
    /// twice the product of any bounds on the operands fits the scalar
    /// bound.
    pub fn sub(&self, other: &Scalar) -> (r: Option<Scalar>)
        requires
            sc_ok(*self),
            sc_ok(*other),
        ensures
            r matches Some(s) ==> rat_eq(s@, rat_sub(self@, other@)) && sc_ok(s),
            rat_bounded(self@, SMALL_COEF as int) && rat_bounded(other@, SMALL_COEF as int)
                ==> r.is_some(),
            forall|g1: int, g2: int|
                #![trigger rat_bounded(self@, g1), rat_bounded(other@, g2)]
                0 < g1 && 0 < g2 && rat_bounded(self@, g1) && rat_bounded(other@, g2) && 2 * (
                g1 * g2) <= MAX_COEF as int ==> (r matches Some(s) && rat_bounded(
                    s@,
                    2 * (g1 * g2),
                )),
    {
        proof {
            lemma_mul_bound(self.n as int, other.d as int, MAX_COEF as int, MAX_COEF as int);
            lemma_mul_bound(other.n as int, self.d as int, MAX_COEF as int, MAX_COEF as int);
            lemma_mul_bound(self.d as int, other.d as int, MAX_COEF as int, MAX_COEF as int);
            lemma_pos_mul(self.d as int, other.d as int);
            if rat_bounded(self@, SMALL_COEF as int) && rat_bounded(other@, SMALL_COEF as int) {
                lemma_mul_bound(self.n as int, other.d as int, SMALL_COEF as int,
                    SMALL_COEF as int);
                lemma_mul_bound(other.n as int, self.d as int, SMALL_COEF as int,
                    SMALL_COEF as int);
                lemma_mul_bound(self.d as int, other.d as int, SMALL_COEF as int,
                    SMALL_COEF as int);
            }
        }
        let n = self.n * other.d - other.n * self.d;
        let d = self.d * other.d;
        let r = reduce(n, d);
        proof {
            assert forall|g1: int, g2: int|
                0 < g1 && 0 < g2 && rat_bounded(self@, g1) && rat_bounded(other@, g2) && 2 * (
                g1 * g2) <= MAX_COEF as int implies (r matches Some(s) && rat_bounded(
                s@,
                2 * (g1 * g2),
            )) by {
                lemma_mul_bound(self@.n, other@.d, g1, g2);
                lemma_mul_bound(other@.n, self@.d, g2, g1);
                lemma_mul_bound(self@.d, other@.d, g1, g2);
            }
        }
        r
    }

    /// Product. `Some` is guaranteed, with a bounded result, whenever the
    /// product of any bounds on the operands fits the scalar bound.
    pub fn mul(&self, other: &Scalar) -> (r: Option<Scalar>)
        requires
            sc_ok(*self),
            sc_ok(*other),
        ensures
            r matches Some(s) ==> rat_eq(s@, rat_mul(self@, other@)) && sc_ok(s),
            rat_bounded(self@, SMALL_COEF as int) && rat_bounded(other@, SMALL_COEF as int)
                ==> r.is_some(),
            forall|g1: int, g2: int|
                #![trigger rat_bounded(self@, g1), rat_bounded(other@, g2)]
                0 < g1 && 0 < g2 && rat_bounded(self@, g1) && rat_bounded(other@, g2) && g1
                * g2 <= MAX_COEF as int ==> (r matches Some(s) && rat_bounded(s@, g1 * g2)),
    {
        proof {
            lemma_mul_bound(self.n as int, other.n as int, MAX_COEF as int, MAX_COEF as int);
            lemma_mul_bound(self.d as int, other.d as int, MAX_COEF as int, MAX_COEF as int);
            lemma_pos_mul(self.d as int, other.d as int);
            if rat_bounded(self@, SMALL_COEF as int) && rat_bounded(other@, SMALL_COEF as int) {
                lemma_mul_bound(self.n as int, other.n as int, SMALL_COEF as int,
                    SMALL_COEF as int);
                lemma_mul_bound(self.d as int, other.d as int, SMALL_COEF as int,
                    SMALL_COEF as int);
            }
        }
        let n = self.n * other.n;
        let d = self.d * other.d;
        let r = reduce(n, d);
        proof {
            assert forall|g1: int, g2: int|
                0 < g1 && 0 < g2 && rat_bounded(self@, g1) && rat_bounded(other@, g2) && g1
                * g2 <= MAX_COEF as int implies (r matches Some(s) && rat_bounded(
                s@,
                g1 * g2,
            )) by {
                lemma_mul_bound(self@.n, other@.n, g1, g2);
                lemma_mul_bound(self@.d, other@.d, g1, g2);
            }
        }
        r
    }

    /// Quotient; `None` when the divisor is zero or a bound is left.
    /// `Some` is guaranteed, with a bounded result, whenever the product of
    /// any bounds on the operands fits the scalar bound and the divisor is
    /// nonzero.
    pub fn div(&self, other: &Scalar) -> (r: Option<Scalar>)
        requires
            sc_ok(*self),
            sc_ok(*other),
        ensures
            r matches Some(s) ==> rat_eq(s@, rat_div(self@, other@)) && sc_ok(s),
            other@.n == 0 ==> r.is_none(),
            rat_bounded(self@, SMALL_COEF as int) && rat_bounded(other@, SMALL_COEF as int)
                && other@.n != 0 ==> r.is_some(),
            forall|g1: int, g2: int|
                #![trigger rat_bounded(self@, g1), rat_bounded(other@, g2)]
                0 < g1 && 0 < g2 && rat_bounded(self@, g1) && rat_bounded(other@, g2) && g1
                * g2 <= MAX_COEF as int && other@.n != 0 ==> (r matches Some(s) && rat_bounded(
                    s@,
                    g1 * g2,
                )),
    {
        proof {
            lemma_mul_bound(self.n as int, other.d as int, MAX_COEF as int, MAX_COEF as int);
            lemma_mul_bound(self.d as int, other.n as int, MAX_COEF as int, MAX_COEF as int);
            if rat_bounded(self@, SMALL_COEF as int) && rat_bounded(other@, SMALL_COEF as int) {
                lemma_mul_bound(self.n as int, other.d as int, SMALL_COEF as int,
                    SMALL_COEF as int);
                lemma_mul_bound(self.d as int, other.n as int, SMALL_COEF as int,
                    SMALL_COEF as int);
            }
        }
        if other.n == 0 {
            None
        } else {
            let n0 = self.n * other.d;
            let d0 = self.d * other.n;
            let (n, d): (i128, i128) = if d0 < 0 {
                (-n0, -d0)
            } else {
                (n0, d0)
            };
            proof {
                lemma_pos_mul_sign(self.d as int, other.n as int);
            }
            let r = reduce(n, d);
            proof {
                assert forall|g1: int, g2: int|
                    0 < g1 && 0 < g2 && rat_bounded(self@, g1) && rat_bounded(other@, g2) && g1
                    * g2 <= MAX_COEF as int && other@.n != 0 implies (r matches Some(s)
                    && rat_bounded(s@, g1 * g2)) by {
                    lemma_mul_bound(self@.n, other@.d, g1, g2);
                    lemma_mul_bound(self@.d, other@.n, g1, g2);
                }
            }
            r
        }
    }

    /// Strict order on scalar values.
    pub fn lt(&self, other: &Scalar) -> (r: bool)
        requires
            sc_ok(*self),
            sc_ok(*other),
        ensures
            r == rat_lt(self@, other@),
    {
        proof {
            lemma_mul_bound(self.n as int, other.d as int, MAX_COEF as int, MAX_COEF as int);
            lemma_mul_bound(other.n as int, self.d as int, MAX_COEF as int, MAX_COEF as int);
        }
        self.n * other.d < other.n * self.d
    }

    /// Non-strict order on scalar values.
    pub fn le(&self, other: &Scalar) -> (r: bool)
        requires
            sc_ok(*self),
            sc_ok(*other),
        ensures
            r == rat_le(self@, other@),
    {
        proof {
            lemma_mul_bound(self.n as int, other.d as int, MAX_COEF as int, MAX_COEF as int);
            lemma_mul_bound(other.n as int, self.d as int, MAX_COEF as int, MAX_COEF as int);
        }
        self.n * other.d <= other.n * self.d
    }

    /// Exact value equality.
    pub fn eq_rat(&self, other: &Scalar) -> (r: bool)
        requires
            sc_ok(*self),
            sc_ok(*other),
        ensures
            r == rat_eq(self@, other@),
    {
        proof {
            lemma_mul_bound(self.n as int, other.d as int, MAX_COEF as int, MAX_COEF as int);
            lemma_mul_bound(other.n as int, self.d as int, MAX_COEF as int, MAX_COEF as int);
        }
        self.n * other.d == other.n * self.d
    }

    /// Tolerance-based equality: the two values differ by at most 1/100000.
    pub fn approx_eq(&self, other: &Scalar) -> (r: bool)
        requires
            sc_ok(*self),
            sc_ok(*other),
        ensures
            r == rat_approx_eq(self@, other@),
    {
        proof {
            lemma_mul_bound(self.n as int, other.d as int, MAX_COEF as int, MAX_COEF as int);
            lemma_mul_bound(other.n as int, self.d as int, MAX_COEF as int, MAX_COEF as int);
            lemma_mul_bound(self.d as int, other.d as int, MAX_COEF as int, MAX_COEF as int);
        }
        let diff = self.n * other.d - other.n * self.d;
        let adiff = if diff < 0 {
            -diff
        } else {
            diff
        };
        proof {
            lemma_mul_bound(adiff as int, TOL_DEN as int,
                2 * (MAX_COEF as int) * (MAX_COEF as int), TOL_DEN as int);
        }
        adiff * TOL_DEN <= self.d * other.d
    }

    /// Whether the value is strictly positive.
    pub fn is_pos(&self) -> (r: bool)
        requires
            sc_ok(*self),
        ensures
            r == rat_lt(rat_zero(), self@),
    {
        self.n > 0
    }
}

/// Euclid's remainder loop; the result is only a candidate divisor, checked
/// by the caller before use.
fn gcd_candidate(a: u128, b: u128) -> u128 {
    let mut x = a;
    let mut y = b;
    while y > 0
        decreases y,
    {
        let t = x % y;
        x = y;
        y = t;
    }
    x
}

/// Brings a raw fraction with positive denominator back inside the scalar
/// bounds by dividing out a common divisor. `None` only when the result
/// still leaves the bounds; inputs already within the bounds always succeed.
pub(crate) fn reduce(n: i128, d: i128) -> (r: Option<Scalar>)
    requires
        1 <= d <= RAW_LIMIT,
        -RAW_LIMIT <= n <= RAW_LIMIT,
    ensures
        r matches Some(s) ==> rat_eq(s@, Rat { n: n as int, d: d as int }) && sc_ok(s),
        r matches Some(s) ==> abs_int(s@.n) <= abs_int(n as int) && s@.d <= d,
        -MAX_COEF <= n <= MAX_COEF && d <= MAX_COEF ==> r.is_some(),
{
    let neg = n < 0;
    let na: u128 = if neg {
        (-n) as u128
    } else {
        n as u128
    };
    let du: u128 = d as u128;
    let mut g = gcd_candidate(na, du);
    if !(g >= 1 && na % g == 0 && du % g == 0) {
        g = 1;
    }
    let q = na / g;
    let d2 = du / g;
    proof {
        lemma_fundamental_div_mod(na as int, g as int);
        lemma_fundamental_div_mod(du as int, g as int);
        assert(na as int == (g as int) * (q as int));
        assert(du as int == (g as int) * (d2 as int));
        assert(q as int <= na as int) by (nonlinear_arith)
            requires
                na as int == (g as int) * (q as int),
                g as int >= 1,
                q as int >= 0,
        ;
        assert(d2 as int <= du as int) by (nonlinear_arith)
            requires
                du as int == (g as int) * (d2 as int),
                g as int >= 1,
                d2 as int >= 0,
        ;
        assert(d2 as int >= 1) by (nonlinear_arith)
            requires
                du as int == (g as int) * (d2 as int),
                du as int >= 1,
                d2 as int >= 0,
        ;
        assert((q as int) * (d as int) == (na as int) * (d2 as int)) by (nonlinear_arith)
            requires
                na as int == (g as int) * (q as int),
                d as int == (g as int) * (d2 as int),
        ;
    }
    if q <= (MAX_COEF as u128) && d2 <= (MAX_COEF as u128) {
        let rn: i128 = if neg {
            -(q as i128)
        } else {
            q as i128
        };
        proof {
            assert((rn as int) * (d as int) == (n as int) * (d2 as int)) by (nonlinear_arith)
                requires
                    (q as int) * (d as int) == (na as int) * (d2 as int),
                    rn as int == if neg { -(q as int) } else { q as int },
                    na as int == if neg { -(n as int) } else { n as int },
            ;
        }
        Some(Scalar { n: rn, d: d2 as i128 })
    } else {
        None
    }
}

/// Magnitude bound of a product from magnitude bounds of its factors.
pub(crate) proof fn lemma_mul_bound(x: int, y: int, bx: int, by: int)
    requires
        -bx <= x <= bx,
        -by <= y <= by,
        0 <= bx,
        0 <= by,
    ensures
        -(bx * by) <= x * y <= bx * by,
{
    assert(-(bx * by) <= x * y <= bx * by) by (nonlinear_arith)
        requires
            -bx <= x <= bx,
            -by <= y <= by,
            0 <= bx,
            0 <= by,
    ;
}

/// A product of positives is positive.
pub(crate) proof fn lemma_pos_mul(x: int, y: int)
    requires
        x > 0,
        y > 0,
    ensures
        x * y > 0,
{
    assert(x * y > 0) by (nonlinear_arith)
        requires
            x > 0,
            y > 0,
    ;
}

/// Sign of a product with a positive left factor follows the right factor.
pub(crate) proof fn lemma_pos_mul_sign(x: int, y: int)
    requires
        x > 0,
        y != 0,
    ensures
        y > 0 ==> x * y > 0,
        y < 0 ==> x * y < 0,
{
    assert((y > 0 ==> x * y > 0) && (y < 0 ==> x * y < 0)) by (nonlinear_arith)
        requires
            x > 0,
            y != 0,
    ;
}

/// Strict-then-nonstrict order chains to nonstrict order.
pub proof fn lemma_lt_le_le(a: Rat, b: Rat, c: Rat)
    requires
        rat_lt(a, b),
        rat_le(b, c),
        a.d > 0,
        b.d > 0,
        c.d > 0,
    ensures
        rat_le(a, c),
{
    assert(a.n * c.d <= c.n * a.d) by (nonlinear_arith)
        requires
            a.n * b.d < b.n * a.d,
            b.n * c.d <= c.n * b.d,
            a.d > 0,
            b.d > 0,
            c.d > 0,
    ;
}

/// Adding a value equal to zero changes nothing.
pub proof fn lemma_add_zero_right(a: Rat, z: Rat)
    requires
        rat_wf(a),
        rat_wf(z),
        rat_eq(z, rat_zero()),
    ensures
        rat_eq(rat_add(a, z), a),
{
    assert(z.n == 0) by (nonlinear_arith)
        requires
            z.n * 1 == 0 * z.d,
    ;
    assert((a.n * z.d + 0 * a.d) * a.d == a.n * (a.d * z.d)) by (nonlinear_arith);
}

/// Adding to a value equal to zero gives the other summand.
pub proof fn lemma_add_zero_left(z: Rat, a: Rat)
    requires
        rat_wf(a),
        rat_wf(z),
        rat_eq(z, rat_zero()),
    ensures
        rat_eq(rat_add(z, a), a),
{
    assert(z.n == 0) by (nonlinear_arith)
        requires
            z.n * 1 == 0 * z.d,
    ;
    assert((0 * a.d + a.n * z.d) * a.d == a.n * (z.d * a.d)) by (nonlinear_arith);
}

/// Negations of value-equal rationals are value equal.
pub proof fn lemma_req_neg(a: Rat, b: Rat)
    requires
        rat_eq(a, b),
    ensures
        rat_eq(rat_neg(a), rat_neg(b)),
{
    assert((-a.n) * b.d == (-b.n) * a.d) by (nonlinear_arith)
        requires
            a.n * b.d == b.n * a.d,
    ;
}

/// Value equality of rationals is transitive across a well-formed middle.
pub proof fn lemma_req_trans(a: Rat, b: Rat, c: Rat)
    requires
        rat_eq(a, b),
        rat_eq(b, c),
        b.d != 0,
    ensures
        rat_eq(a, c),
{
    assert(a.n * c.d == c.n * a.d) by (nonlinear_arith)
        requires
            a.n * b.d == b.n * a.d,
            b.n * c.d == c.n * b.d,
            b.d != 0,
    ;
}

/// Sums of value-equal rationals are value equal.
pub proof fn lemma_req_add(a: Rat, a2: Rat, b: Rat, b2: Rat)
    requires
        rat_eq(a, a2),
        rat_eq(b, b2),
    ensures
        rat_eq(rat_add(a, b), rat_add(a2, b2)),
{
    let x = a.n * b.d;
    let y = b.n * a.d;
    let z = a2.d * b2.d;
    assert((x + y) * z == x * z + y * z) by (nonlinear_arith);
    assert((a.n * b.d) * (a2.d * b2.d) == (a.n * a2.d) * (b.d * b2.d)) by (nonlinear_arith);
    assert((b.n * a.d) * (a2.d * b2.d) == (b.n * b2.d) * (a.d * a2.d)) by (nonlinear_arith);
    assert((a.n * a2.d) * (b.d * b2.d) == (a2.n * a.d) * (b.d * b2.d));
    assert((b.n * b2.d) * (a.d * a2.d) == (b2.n * b.d) * (a.d * a2.d));
    let x2 = a2.n * b2.d;
    let y2 = b2.n * a2.d;
    let z2 = a.d * b.d;
    assert((x2 + y2) * z2 == x2 * z2 + y2 * z2) by (nonlinear_arith);
    assert((a2.n * b2.d) * (a.d * b.d) == (a2.n * a.d) * (b.d * b2.d)) by (nonlinear_arith);
    assert((b2.n * a2.d) * (a.d * b.d) == (b2.n * b.d) * (a.d * a2.d)) by (nonlinear_arith);
}

/// Differences of value-equal rationals are value equal.
pub proof fn lemma_req_sub(a: Rat, a2: Rat, b: Rat, b2: Rat)
    requires
        rat_eq(a, a2),
        rat_eq(b, b2),
    ensures
        rat_eq(rat_sub(a, b), rat_sub(a2, b2)),
{
    let x = a.n * b.d;
    let y = b.n * a.d;
    let z = a2.d * b2.d;
    assert((x - y) * z == x * z - y * z) by (nonlinear_arith);
    assert((a.n * b.d) * (a2.d * b2.d) == (a.n * a2.d) * (b.d * b2.d)) by (nonlinear_arith);
    assert((b.n * a.d) * (a2.d * b2.d) == (b.n * b2.d) * (a.d * a2.d)) by (nonlinear_arith);
    assert((a.n * a2.d) * (b.d * b2.d) == (a2.n * a.d) * (b.d * b2.d));
    assert((b.n * b2.d) * (a.d * a2.d) == (b2.n * b.d) * (a.d * a2.d));
    let x2 = a2.n * b2.d;
    let y2 = b2.n * a2.d;
    let z2 = a.d * b.d;
    assert((x2 - y2) * z2 == x2 * z2 - y2 * z2) by (nonlinear_arith);
    assert((a2.n * b2.d) * (a.d * b.d) == (a2.n * a.d) * (b.d * b2.d)) by (nonlinear_arith);
    assert((b2.n * a2.d) * (a.d * b.d) == (b2.n * b.d) * (a.d * a2.d)) by (nonlinear_arith);
}

/// Products of value-equal rationals are value equal.
pub proof fn lemma_req_mul(a: Rat, a2: Rat, b: Rat, b2: Rat)
    requires
        rat_eq(a, a2),
        rat_eq(b, b2),
    ensures
        rat_eq(rat_mul(a, b), rat_mul(a2, b2)),
{
    assert((a.n * b.n) * (a2.d * b2.d) == (a2.n * b2.n) * (a.d * b.d)) by (nonlinear_arith)
        requires
            a.n * a2.d == a2.n * a.d,
            b.n * b2.d == b2.n * b.d,
    ;
}

/// Order transports along value equality, for well-formed rationals.
pub proof fn lemma_req_le(a: Rat, a2: Rat, b: Rat, b2: Rat)
    requires
        rat_eq(a, a2),
        rat_eq(b, b2),
        rat_le(a, b),
        a.d > 0,
        a2.d > 0,
        b.d > 0,
        b2.d > 0,
    ensures
        rat_le(a2, b2),
{
    assert(a2.n * b2.d <= b2.n * a2.d) by (nonlinear_arith)
        requires
            a.n * a2.d == a2.n * a.d,
            b.n * b2.d == b2.n * b.d,
            a.n * b.d <= b.n * a.d,
            a.d > 0,
            a2.d > 0,
            b.d > 0,
            b2.d > 0,
    ;
}

/// Strict order transports along value equality, for well-formed rationals.
pub proof fn lemma_req_lt(a: Rat, a2: Rat, b: Rat, b2: Rat)
    requires
        rat_eq(a, a2),
        rat_eq(b, b2),
        rat_lt(a, b),
        a.d > 0,
        a2.d > 0,
        b.d > 0,
        b2.d > 0,
    ensures
        rat_lt(a2, b2),
{
    assert(a2.n * b2.d < b2.n * a2.d) by (nonlinear_arith)
        requires
            a.n * a2.d == a2.n * a.d,
            b.n * b2.d == b2.n * b.d,
            a.n * b.d < b.n * a.d,
            a.d > 0,
            a2.d > 0,
            b.d > 0,
            b2.d > 0,
    ;
}

} // verus!
