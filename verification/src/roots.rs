//! Verified square roots on scalars.
//!
//! Exact arithmetic has no exact square roots, so `sqrt_lower` returns an
//! approximation from below on a fixed grid: the result `s` of
//! `sqrt_lower(x)` satisfies `s >= 0`, `s * s <= x`, and
//! `x < (s + 1/SQRT_DEN)^2`. On a perfect square of the grid the result is
//! exact.

use vstd::prelude::*;
use crate::scalar::{
    Scalar, Rat, rat_eq, rat_le, rat_lt, rat_add, rat_mul, rat_zero, sc_ok, rat_wf,
    lemma_mul_bound, MAX_COEF, reduce,
};

verus! {

/// Reciprocal of the square-root grid step (10^7): approximation error is
/// below 1/SQRT_DEN, well under the comparison tolerance.
pub const SQRT_DEN: i128 = 10000000;

/// The grid step as a rational.
pub open spec fn sqrt_eps() -> Rat {
    Rat { n: 1, d: SQRT_DEN as int }
}

/// Integer square root by bisection: the greatest `r` with `r * r <= x`.
fn isqrt(x: u128) -> (r: u128)
    requires
        x < 0x40000000000000000000000000000000u128,
    ensures
        (r as int) * (r as int) <= x as int,
        (x as int) < (r as int + 1) * (r as int + 1),
        r <= 0x8000000000000000u128,
{
    let mut lo: u128 = 0;
    let mut hi: u128 = 0x8000000000000000u128;
    proof {
        assert(0x8000000000000000int * 0x8000000000000000int
            == 0x40000000000000000000000000000000int) by (nonlinear_arith);
    }
    while lo + 1 < hi
        invariant
            lo < hi <= 0x8000000000000000u128,
            (lo as int) * (lo as int) <= x as int,
            (x as int) < (hi as int) * (hi as int),
        decreases hi - lo,
    {
        let mid = lo + (hi - lo) / 2;
        proof {
            lemma_mul_bound(mid as int, mid as int, 0x8000000000000000, 0x8000000000000000);
        }
        if mid * mid <= x {
            lo = mid;
        } else {
            hi = mid;
        }
    }
    lo
}

impl Scalar {
    /// The largest grid rational whose square does not exceed `self`; the
    /// next grid step up already overshoots. Exact on grid squares, and it
    /// always answers on a nonnegative input.
    pub fn sqrt_lower(&self) -> (r: Option<Scalar>)
        requires
            sc_ok(*self),
            rat_le(rat_zero(), self@),
        ensures
            r.is_some(),
            r matches Some(s) ==> sc_ok(s) && rat_le(rat_zero(), s@) && rat_le(
                rat_mul(s@, s@),
                self@,
            ) && rat_lt(
                self@,
                rat_mul(rat_add(s@, sqrt_eps()), rat_add(s@, sqrt_eps())),
            ) && s@.d <= SQRT_DEN as int,
    {
        proof {
            lemma_mul_bound(self.n as int, SQRT_DEN as int * SQRT_DEN as int, MAX_COEF as int,
                SQRT_DEN as int * SQRT_DEN as int);
            assert(self.n >= 0) by (nonlinear_arith)
                requires
                    (self@.n) * 1 >= 0 * (self@.d),
            ;
            assert((self.n as int) * (SQRT_DEN as int * SQRT_DEN as int) >= 0)
                by (nonlinear_arith)
                requires
                    self.n as int >= 0,
            ;
        }
        let nk = self.n * (SQRT_DEN * SQRT_DEN);
        let f = (nk as u128) / (self.d as u128);
        proof {
            vstd::arithmetic::div_mod::lemma_fundamental_div_mod(nk as int, self.d as int);
            vstd::arithmetic::div_mod::lemma_div_pos_is_pos(nk as int, self.d as int);
            assert((f as int) * 1 <= nk as int) by (nonlinear_arith)
                requires
                    nk as int == (self.d as int) * (f as int) + (nk as int) % (self.d as int),
                    (nk as int) % (self.d as int) >= 0,
                    self.d >= 1,
                    f as int >= 0,
            ;
        }
        let q = isqrt(f);
        proof {
            assert(q as int <= MAX_COEF as int) by (nonlinear_arith)
                requires
                    (q as int) * (q as int) <= f as int,
                    f as int <= (MAX_COEF as int) * (MAX_COEF as int),
                    q as int >= 0,
                    MAX_COEF as int > 0,
            ;
        }
        let r = reduce(q as i128, SQRT_DEN);
        proof {
            if let Some(s) = r {
                lemma_sqrt_bounds(self@, s@, q as int, SQRT_DEN as int, f as int,
                    (nk as int) % (self.d as int));
            }
        }
        r
    }
}

/// Carries the integer square-root bracket through the floor division and
/// the rational value equality onto the returned scalar.
proof fn lemma_sqrt_bounds(x: Rat, s: Rat, q: int, k: int, f: int, rem: int)
    requires
        rat_wf(x),
        rat_wf(s),
        x.n >= 0,
        q >= 0,
        k >= 1,
        k == SQRT_DEN as int,
        x.n * (k * k) == x.d * f + rem,
        0 <= rem < x.d,
        q * q <= f,
        f < (q + 1) * (q + 1),
        rat_eq(s, Rat { n: q, d: k }),
    ensures
        rat_le(rat_zero(), s),
        rat_le(rat_mul(s, s), x),
        rat_lt(x, rat_mul(rat_add(s, sqrt_eps()), rat_add(s, sqrt_eps()))),
{
    let dkp = Rat { n: q, d: k };
    // sign of s
    assert(s.n >= 0) by (nonlinear_arith)
        requires
            s.n * k == q * s.d,
            q >= 0,
            k >= 1,
            s.d >= 1,
    ;
    assert(rat_le(rat_zero(), s));
    // lower bound: (q/k)^2 <= x
    assert((q * q) * x.d <= x.n * (k * k)) by (nonlinear_arith)
        requires
            q * q <= f,
            x.n * (k * k) == x.d * f + rem,
            rem >= 0,
            x.d >= 1,
    ;
    assert(rat_le(rat_mul(dkp, dkp), x));
    crate::scalar::lemma_req_mul(s, dkp, s, dkp);
    crate::scalar::lemma_pos_mul(k, k);
    crate::scalar::lemma_pos_mul(s.d, s.d);
    crate::scalar::lemma_req_le(rat_mul(dkp, dkp), rat_mul(s, s), x, x);
    // upper bound: x < ((q+1)/k)^2 <= (s + eps)^2
    let up = Rat { n: q + 1, d: k };
    assert(x.n * (k * k) < ((q + 1) * (q + 1)) * x.d) by (nonlinear_arith)
        requires
            f < (q + 1) * (q + 1),
            x.n * (k * k) == x.d * f + rem,
            rem < x.d,
            x.d >= 1,
    ;
    assert(rat_lt(x, rat_mul(up, up)));
    let se = rat_add(s, sqrt_eps());
    assert(se.n == s.n * k + s.d && se.d == s.d * k) by {
        assert(sqrt_eps().n == 1 && sqrt_eps().d == k);
    }
    assert((q + 1) * (s.d * k) <= (s.n * k + s.d) * k) by (nonlinear_arith)
        requires
            s.n * k == q * s.d,
            k >= 1,
            s.d >= 1,
    ;
    crate::detlaws::lemma_mul_subst(q + 1, se.d, s.d * k);
    crate::detlaws::lemma_mul_subst_left(se.n, s.n * k + s.d, k);
    assert(rat_le(up, se));
    assert(se.d >= 1) by (nonlinear_arith)
        requires
            se.d == s.d * k,
            s.d >= 1,
            k >= 1,
    ;
    assert(se.n >= 0) by (nonlinear_arith)
        requires
            se.n == s.n * k + s.d,
            s.n >= 0,
            s.d >= 1,
            k >= 1,
    ;
    lemma_square_le(up, se);
    crate::scalar::lemma_pos_mul(k, k);
    crate::scalar::lemma_pos_mul(se.d, se.d);
    lemma_lt_le_trans(x, rat_mul(up, up), rat_mul(se, se));
}

/// Squaring preserves order on nonnegative rationals.
proof fn lemma_square_le(a: Rat, b: Rat)
    requires
        a.d >= 1,
        b.d >= 1,
        a.n >= 0,
        rat_le(a, b),
    ensures
        rat_le(rat_mul(a, a), rat_mul(b, b)),
{
    assert((a.n * a.n) * (b.d * b.d) <= (b.n * b.n) * (a.d * a.d)) by (nonlinear_arith)
        requires
            a.n * b.d <= b.n * a.d,
            a.n >= 0,
            a.d >= 1,
            b.d >= 1,
    ;
}

/// A strict bound below a non-strict bound stays strict.
proof fn lemma_lt_le_trans(a: Rat, b: Rat, c: Rat)
    requires
        a.d >= 1,
        b.d >= 1,
        c.d >= 1,
        rat_lt(a, b),
        rat_le(b, c),
    ensures
        rat_lt(a, c),
{
    assert(a.n * c.d < c.n * a.d) by (nonlinear_arith)
        requires
            a.n * b.d < b.n * a.d,
            b.n * c.d <= c.n * b.d,
            a.d >= 1,
            b.d >= 1,
            c.d >= 1,
    ;
}

} // verus!
