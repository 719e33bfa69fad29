//! Homogeneous four-component tuples and the Point / Vector distinction.
//!
//! A tuple holds four exact scalars; the fourth, `w`, is one for a point
//! and zero for a vector, so one 4x4 matrix transforms both correctly. The
//! arithmetic combinations exposed on `Point` and `Vector` are exactly the
//! geometrically meaningful ones.

use vstd::prelude::*;
use crate::scalar::{
    Scalar, Rat, rat_eq, rat_add, rat_sub, rat_mul, rat_neg, rat_div, rat_le, rat_lt, rat_zero,
    rat_one, rat_wf, rat_approx_eq, rat_bounded, abs_int, sc_ok, MAX_COEF, lemma_pos_mul,
    lemma_mul_bound,
    lemma_req_add, lemma_req_sub,
    lemma_req_mul, lemma_req_trans, lemma_req_le, lemma_req_lt,
};
use crate::roots::{sqrt_eps, SQRT_DEN};
use crate::matrix::{Matrix4x4, MatVal, mv_entry, m4_ok, m4_bounded};

verus! {

/// Mathematical value of a tuple: four rationals.
pub struct TupVal {
    pub x: Rat,
    pub y: Rat,
    pub z: Rat,
    pub w: Rat,
}

pub open spec fn tv_wf(t: TupVal) -> bool {
    &&& rat_wf(t.x)
    &&& rat_wf(t.y)
    &&& rat_wf(t.z)
    &&& rat_wf(t.w)
}

/// The four-component dot product; the `w` component participates, so the
/// same operation serves vector dot products (where `w` is zero) and
/// matrix-row contraction against arbitrary tuples.
pub open spec fn tv_dot(a: TupVal, b: TupVal) -> Rat {
    rat_add(
        rat_add(rat_add(rat_mul(a.x, b.x), rat_mul(a.y, b.y)), rat_mul(a.z, b.z)),
        rat_mul(a.w, b.w),
    )
}

/// A point's mark: the fourth component holds one.
pub open spec fn is_point_val(t: TupVal) -> bool {
    rat_eq(t.w, rat_one())
}

/// A vector's mark: the fourth component holds zero.
pub open spec fn is_vector_val(t: TupVal) -> bool {
    rat_eq(t.w, rat_zero())
}

/// All four components within the given component bound.
pub open spec fn tv_bounded(t: TupVal, b: int) -> bool {
    &&& rat_bounded(t.x, b)
    &&& rat_bounded(t.y, b)
    &&& rat_bounded(t.z, b)
    &&& rat_bounded(t.w, b)
}

/// Componentwise tolerance equality.
pub open spec fn tv_approx(a: TupVal, b: TupVal) -> bool {
    &&& rat_approx_eq(a.x, b.x)
    &&& rat_approx_eq(a.y, b.y)
    &&& rat_approx_eq(a.z, b.z)
    &&& rat_approx_eq(a.w, b.w)
}

/// Row `i` of a matrix value, as a tuple of rationals.
pub open spec fn mv_row(m: MatVal, i: int) -> TupVal {
    TupVal {
        x: mv_entry(m, i, 0),
        y: mv_entry(m, i, 1),
        z: mv_entry(m, i, 2),
        w: mv_entry(m, i, 3),
    }
}

/// A homogeneous four-component tuple of exact scalars.
#[derive(Clone, Copy, PartialEq, Debug)]
pub struct Tup {
    pub x: Scalar,
    pub y: Scalar,
    pub z: Scalar,
    pub w: Scalar,
}

impl View for Tup {
    type V = TupVal;

    open spec fn view(&self) -> TupVal {
        TupVal { x: self.x@, y: self.y@, z: self.z@, w: self.w@ }
    }
}

/// Well-formedness of a tuple: all four scalars are well formed.
pub open spec fn tup_ok(t: Tup) -> bool {
    &&& sc_ok(t.x)
    &&& sc_ok(t.y)
    &&& sc_ok(t.z)
    &&& sc_ok(t.w)
}

/// The dot product of two well-formed tuples has a positive denominator.
pub proof fn lemma_tv_dot_wf(a: TupVal, b: TupVal)
    requires
        tv_wf(a),
        tv_wf(b),
    ensures
        rat_wf(tv_dot(a, b)),
{
    lemma_pos_mul(a.x.d, b.x.d);
    lemma_pos_mul(a.y.d, b.y.d);
    lemma_pos_mul(a.z.d, b.z.d);
    lemma_pos_mul(a.w.d, b.w.d);
    lemma_pos_mul(a.x.d * b.x.d, a.y.d * b.y.d);
    lemma_pos_mul((a.x.d * b.x.d) * (a.y.d * b.y.d), a.z.d * b.z.d);
    lemma_pos_mul(((a.x.d * b.x.d) * (a.y.d * b.y.d)) * (a.z.d * b.z.d), a.w.d * b.w.d);
}

/// The dot product of a well-formed tuple with itself is nonnegative.
pub proof fn lemma_tv_dot_self_nonneg(t: TupVal)
    requires
        tv_wf(t),
    ensures
        rat_le(rat_zero(), tv_dot(t, t)),
{
    lemma_square_rat_nonneg(t.x);
    lemma_square_rat_nonneg(t.y);
    lemma_square_rat_nonneg(t.z);
    lemma_square_rat_nonneg(t.w);
    lemma_pos_mul(t.x.d, t.x.d);
    lemma_pos_mul(t.y.d, t.y.d);
    lemma_pos_mul(t.z.d, t.z.d);
    lemma_pos_mul(t.w.d, t.w.d);
    lemma_rat_add_nonneg(rat_mul(t.x, t.x), rat_mul(t.y, t.y));
    lemma_rat_add_nonneg(rat_add(rat_mul(t.x, t.x), rat_mul(t.y, t.y)), rat_mul(t.z, t.z));
    lemma_rat_add_nonneg(
        rat_add(rat_add(rat_mul(t.x, t.x), rat_mul(t.y, t.y)), rat_mul(t.z, t.z)),
        rat_mul(t.w, t.w),
    );
}

/// A rational square is nonnegative.
proof fn lemma_square_rat_nonneg(a: Rat)
    requires
        rat_wf(a),
    ensures
        rat_le(rat_zero(), rat_mul(a, a)),
        rat_wf(rat_mul(a, a)),
{
    assert(0 * (a.d * a.d) <= (a.n * a.n) * 1 && a.d * a.d > 0) by (nonlinear_arith)
        requires
            a.d > 0,
    ;
}

/// A sum of nonnegative rationals is nonnegative.
proof fn lemma_rat_add_nonneg(a: Rat, b: Rat)
    requires
        rat_wf(a),
        rat_wf(b),
        rat_le(rat_zero(), a),
        rat_le(rat_zero(), b),
    ensures
        rat_le(rat_zero(), rat_add(a, b)),
        rat_wf(rat_add(a, b)),
{
    assert(0 * (a.d * b.d) <= (a.n * b.d + b.n * a.d) * 1 && a.d * b.d > 0) by (nonlinear_arith)
        requires
            a.d > 0,
            b.d > 0,
            0 * a.d <= a.n * 1,
            0 * b.d <= b.n * 1,
    ;
}

impl Tup {
    /// A tuple from its four components.
    pub fn new(x: Scalar, y: Scalar, z: Scalar, w: Scalar) -> (r: Tup)
        requires
            sc_ok(x),
            sc_ok(y),
            sc_ok(z),
            sc_ok(w),
        ensures
            tup_ok(r),
            r@ == (TupVal { x: x@, y: y@, z: z@, w: w@ }),
    {
        Tup { x, y, z, w }
    }

    /// Whether the tuple marks a location.
    pub fn is_point(&self) -> (r: bool)
        requires
            tup_ok(*self),
        ensures
            r == is_point_val(self@),
    {
        self.w.eq_rat(&Scalar::from_int(1))
    }

    /// Whether the tuple marks a direction.
    pub fn is_vector(&self) -> (r: bool)
        requires
            tup_ok(*self),
        ensures
            r == is_vector_val(self@),
    {
        self.w.eq_rat(&Scalar::from_int(0))
    }

    /// Componentwise sum.
    pub fn add(&self, other: &Tup) -> (r: Option<Tup>)
        requires
            tup_ok(*self),
            tup_ok(*other),
        ensures
            r matches Some(t) ==> tup_ok(t) && rat_eq(t@.x, rat_add(self@.x, other@.x)) && rat_eq(
                t@.y,
                rat_add(self@.y, other@.y),
            ) && rat_eq(t@.z, rat_add(self@.z, other@.z)) && rat_eq(
                t@.w,
                rat_add(self@.w, other@.w),
            ),
            forall|g1: int, g2: int|
                #![trigger tv_bounded(self@, g1), tv_bounded(other@, g2)]
                0 < g1 && 0 < g2 && tv_bounded(self@, g1) && tv_bounded(other@, g2) && 2 * (g1
                * g2) <= MAX_COEF as int ==> (r matches Some(t) && tv_bounded(
                    t@,
                    2 * (g1 * g2),
                )),
    {
        let x = match self.x.add(&other.x) {
            Some(v) => v,
            None => {
                return None;
            },
        };
        let y = match self.y.add(&other.y) {
            Some(v) => v,
            None => {
                return None;
            },
        };
        let z = match self.z.add(&other.z) {
            Some(v) => v,
            None => {
                return None;
            },
        };
        let w = match self.w.add(&other.w) {
            Some(v) => v,
            None => {
                return None;
            },
        };
        Some(Tup { x, y, z, w })
    }

    /// Componentwise negation; exact.
    pub fn neg(&self) -> (r: Tup)
        requires
            tup_ok(*self),
        ensures
            tup_ok(r),
            r@.x == rat_neg(self@.x),
            r@.y == rat_neg(self@.y),
            r@.z == rat_neg(self@.z),
            r@.w == rat_neg(self@.w),
    {
        Tup { x: self.x.neg(), y: self.y.neg(), z: self.z.neg(), w: self.w.neg() }
    }

    /// Componentwise scaling by a scalar.
    pub fn mul(&self, other: &Scalar) -> (r: Option<Tup>)
        requires
            tup_ok(*self),
            sc_ok(*other),
        ensures
            r matches Some(t) ==> tup_ok(t) && rat_eq(t@.x, rat_mul(self@.x, other@)) && rat_eq(
                t@.y,
                rat_mul(self@.y, other@),
            ) && rat_eq(t@.z, rat_mul(self@.z, other@)) && rat_eq(
                t@.w,
                rat_mul(self@.w, other@),
            ),
            forall|g1: int, g2: int|
                #![trigger tv_bounded(self@, g1), rat_bounded(other@, g2)]
                0 < g1 && 0 < g2 && tv_bounded(self@, g1) && rat_bounded(other@, g2) && g1 * g2
                <= MAX_COEF as int ==> (r matches Some(t) && tv_bounded(t@, g1 * g2)),
    {
        let x = match self.x.mul(other) {
            Some(v) => v,
            None => {
                return None;
            },
        };
        let y = match self.y.mul(other) {
            Some(v) => v,
            None => {
                return None;
            },
        };
        let z = match self.z.mul(other) {
            Some(v) => v,
            None => {
                return None;
            },
        };
        let w = match self.w.mul(other) {
            Some(v) => v,
            None => {
                return None;
            },
        };
        Some(Tup { x, y, z, w })
    }

    /// Four-component dot product.
    pub fn dot(&self, other: Tup) -> (r: Option<Scalar>)
        requires
            tup_ok(*self),
            tup_ok(other),
        ensures
            r matches Some(s) ==> sc_ok(s) && rat_eq(s@, tv_dot(self@, other@)),
            forall|g1: int, g2: int|
                #![trigger tv_bounded(self@, g1), tv_bounded(other@, g2)]
                0 < g1 && 0 < g2 && tv_bounded(self@, g1) && tv_bounded(other@, g2) && 8 * (((
                g1 * g2) * (g1 * g2)) * ((g1 * g2) * (g1 * g2))) <= MAX_COEF as int ==> (
                r matches Some(s) && rat_bounded(
                    s@,
                    8 * (((g1 * g2) * (g1 * g2)) * ((g1 * g2) * (g1 * g2))),
                )),
    {
        let p0 = match self.x.mul(&other.x) {
            Some(v) => v,
            None => {
                proof {
                    assert forall|g1: int, g2: int|
                        0 < g1 && 0 < g2 && tv_bounded(self@, g1) && tv_bounded(other@, g2)
                        && 8 * (((g1 * g2) * (g1 * g2)) * ((g1 * g2) * (g1 * g2)))
                        <= MAX_COEF as int implies false by {
                        lemma_dot_cap_arith(g1, g2);
                        assert(rat_bounded(self@.x, g1) && rat_bounded(self@.y, g1)
                            && rat_bounded(self@.z, g1) && rat_bounded(self@.w, g1));
                        assert(rat_bounded(other@.x, g2) && rat_bounded(other@.y, g2)
                            && rat_bounded(other@.z, g2) && rat_bounded(other@.w, g2));
                    }
                }
                return None;
            },
        };
        let p1 = match self.y.mul(&other.y) {
            Some(v) => v,
            None => {
                proof {
                    assert forall|g1: int, g2: int|
                        0 < g1 && 0 < g2 && tv_bounded(self@, g1) && tv_bounded(other@, g2)
                        && 8 * (((g1 * g2) * (g1 * g2)) * ((g1 * g2) * (g1 * g2)))
                        <= MAX_COEF as int implies false by {
                        lemma_dot_cap_arith(g1, g2);
                        assert(rat_bounded(self@.x, g1) && rat_bounded(self@.y, g1)
                            && rat_bounded(self@.z, g1) && rat_bounded(self@.w, g1));
                        assert(rat_bounded(other@.x, g2) && rat_bounded(other@.y, g2)
                            && rat_bounded(other@.z, g2) && rat_bounded(other@.w, g2));
                    }
                }
                return None;
            },
        };
        let p2 = match self.z.mul(&other.z) {
            Some(v) => v,
            None => {
                proof {
                    assert forall|g1: int, g2: int|
                        0 < g1 && 0 < g2 && tv_bounded(self@, g1) && tv_bounded(other@, g2)
                        && 8 * (((g1 * g2) * (g1 * g2)) * ((g1 * g2) * (g1 * g2)))
                        <= MAX_COEF as int implies false by {
                        lemma_dot_cap_arith(g1, g2);
                        assert(rat_bounded(self@.x, g1) && rat_bounded(self@.y, g1)
                            && rat_bounded(self@.z, g1) && rat_bounded(self@.w, g1));
                        assert(rat_bounded(other@.x, g2) && rat_bounded(other@.y, g2)
                            && rat_bounded(other@.z, g2) && rat_bounded(other@.w, g2));
                    }
                }
                return None;
            },
        };
        let p3 = match self.w.mul(&other.w) {
            Some(v) => v,
            None => {
                proof {
                    assert forall|g1: int, g2: int|
                        0 < g1 && 0 < g2 && tv_bounded(self@, g1) && tv_bounded(other@, g2)
                        && 8 * (((g1 * g2) * (g1 * g2)) * ((g1 * g2) * (g1 * g2)))
                        <= MAX_COEF as int implies false by {
                        lemma_dot_cap_arith(g1, g2);
                        assert(rat_bounded(self@.x, g1) && rat_bounded(self@.y, g1)
                            && rat_bounded(self@.z, g1) && rat_bounded(self@.w, g1));
                        assert(rat_bounded(other@.x, g2) && rat_bounded(other@.y, g2)
                            && rat_bounded(other@.z, g2) && rat_bounded(other@.w, g2));
                    }
                }
                return None;
            },
        };
        let a0 = match p0.add(&p1) {
            Some(v) => v,
            None => {
                proof {
                    assert forall|g1: int, g2: int|
                        0 < g1 && 0 < g2 && tv_bounded(self@, g1) && tv_bounded(other@, g2)
                        && 8 * (((g1 * g2) * (g1 * g2)) * ((g1 * g2) * (g1 * g2)))
                        <= MAX_COEF as int implies false by {
                        lemma_dot_cap_arith(g1, g2);
                        assert(rat_bounded(self@.x, g1) && rat_bounded(self@.y, g1)
                            && rat_bounded(self@.z, g1) && rat_bounded(self@.w, g1));
                        assert(rat_bounded(other@.x, g2) && rat_bounded(other@.y, g2)
                            && rat_bounded(other@.z, g2) && rat_bounded(other@.w, g2));
                    }
                }
                return None;
            },
        };
        let a1 = match a0.add(&p2) {
            Some(v) => v,
            None => {
                proof {
                    assert forall|g1: int, g2: int|
                        0 < g1 && 0 < g2 && tv_bounded(self@, g1) && tv_bounded(other@, g2)
                        && 8 * (((g1 * g2) * (g1 * g2)) * ((g1 * g2) * (g1 * g2)))
                        <= MAX_COEF as int implies false by {
                        lemma_dot_cap_arith(g1, g2);
                        assert(rat_bounded(self@.x, g1) && rat_bounded(self@.y, g1)
                            && rat_bounded(self@.z, g1) && rat_bounded(self@.w, g1));
                        assert(rat_bounded(other@.x, g2) && rat_bounded(other@.y, g2)
                            && rat_bounded(other@.z, g2) && rat_bounded(other@.w, g2));
                    }
                }
                return None;
            },
        };
        let a2 = match a1.add(&p3) {
            Some(v) => v,
            None => {
                proof {
                    assert forall|g1: int, g2: int|
                        0 < g1 && 0 < g2 && tv_bounded(self@, g1) && tv_bounded(other@, g2)
                        && 8 * (((g1 * g2) * (g1 * g2)) * ((g1 * g2) * (g1 * g2)))
                        <= MAX_COEF as int implies false by {
                        lemma_dot_cap_arith(g1, g2);
                        assert(rat_bounded(self@.x, g1) && rat_bounded(self@.y, g1)
                            && rat_bounded(self@.z, g1) && rat_bounded(self@.w, g1));
                        assert(rat_bounded(other@.x, g2) && rat_bounded(other@.y, g2)
                            && rat_bounded(other@.z, g2) && rat_bounded(other@.w, g2));
                    }
                }
                return None;
            },
        };
        proof {
            let mx = rat_mul(self@.x, other@.x);
            let my = rat_mul(self@.y, other@.y);
            let mz = rat_mul(self@.z, other@.z);
            let mw = rat_mul(self@.w, other@.w);
            lemma_pos_mul(p0@.d, p1@.d);
            lemma_req_add(p0@, mx, p1@, my);
            lemma_req_trans(a0@, rat_add(p0@, p1@), rat_add(mx, my));
            lemma_pos_mul(a0@.d, p2@.d);
            lemma_req_add(a0@, rat_add(mx, my), p2@, mz);
            lemma_req_trans(a1@, rat_add(a0@, p2@), rat_add(rat_add(mx, my), mz));
            lemma_pos_mul(a1@.d, p3@.d);
            lemma_req_add(a1@, rat_add(rat_add(mx, my), mz), p3@, mw);
            lemma_req_trans(a2@, rat_add(a1@, p3@), rat_add(rat_add(rat_add(mx, my), mz), mw));
            lemma_dot_stage_bounds(*self, other, Some(a2), p0@, p1@, p2@, p3@, a0@, a1@, a2@);
        }
        Some(a2)
    }

    /// Magnitude: the grid square root of the dot product with itself, with
    /// a proved two-sided bracket.
    pub fn mag(&self) -> (r: Option<Scalar>)
        requires
            tup_ok(*self),
        ensures
            r matches Some(s) ==> sc_ok(s) && rat_le(rat_zero(), s@) && rat_le(
                rat_mul(s@, s@),
                tv_dot(self@, self@),
            ) && rat_lt(
                tv_dot(self@, self@),
                rat_mul(rat_add(s@, sqrt_eps()), rat_add(s@, sqrt_eps())),
            ) && s@.d <= SQRT_DEN as int,
            forall|g: int|
                #![trigger tv_bounded(self@, g)]
                0 < g && tv_bounded(self@, g) && 8 * (((g * g) * (g * g)) * ((g * g) * (g * g))) <= MAX_COEF as int ==> r.is_some(),
    {
        let dt = match self.dot(*self) {
            Some(v) => v,
            None => {
                proof {
                    assert forall|g: int|
                        0 < g && tv_bounded(self@, g) && 8 * (((g * g) * (g * g)) * ((g * g) * (g * g))) <= MAX_COEF as int implies false by {
                        assert(tv_bounded(self@, g));
                    }
                }
                return None;
            },
        };
        proof {
            lemma_tv_dot_self_nonneg(self@);
            lemma_tv_dot_wf(self@, self@);
            lemma_req_le(rat_zero(), rat_zero(), tv_dot(self@, self@), dt@);
        }
        let r = dt.sqrt_lower();
        proof {
            if let Some(s) = r {
                lemma_pos_mul(s@.d, s@.d);
                lemma_req_le(rat_mul(s@, s@), rat_mul(s@, s@), dt@, tv_dot(self@, self@));
                lemma_pos_mul(rat_add(s@, sqrt_eps()).d, rat_add(s@, sqrt_eps()).d);
                lemma_req_lt(
                    dt@,
                    tv_dot(self@, self@),
                    rat_mul(rat_add(s@, sqrt_eps()), rat_add(s@, sqrt_eps())),
                    rat_mul(rat_add(s@, sqrt_eps()), rat_add(s@, sqrt_eps())),
                );
            }
        }
        r
    }

    /// Normalization: each component divided by a positive magnitude. The
    /// witness `s` is that magnitude, with its square-root bracket.
    pub fn norm(&self) -> (r: Option<Tup>)
        requires
            tup_ok(*self),
        ensures
            r matches Some(t) ==> tup_ok(t) && exists|s: Rat|
                {
                    &&& #[trigger] rat_wf(s)
                    &&& rat_lt(rat_zero(), s)
                    &&& rat_le(rat_mul(s, s), tv_dot(self@, self@))
                    &&& rat_lt(
                        tv_dot(self@, self@),
                        rat_mul(rat_add(s, sqrt_eps()), rat_add(s, sqrt_eps())),
                    )
                    &&& rat_eq(t@.x, rat_div(self@.x, s))
                    &&& rat_eq(t@.y, rat_div(self@.y, s))
                    &&& rat_eq(t@.z, rat_div(self@.z, s))
                    &&& rat_eq(t@.w, rat_div(self@.w, s))
                },
            forall|g: int|
                #![trigger tv_bounded(self@, g)]
                0 < g && tv_bounded(self@, g) && 8 * (((g * g) * (g * g)) * ((g * g) * (g * g))) <= MAX_COEF as int && g * ((3 * ((g * g) * (g * g))) * (SQRT_DEN as int))
                    <= MAX_COEF as int && rat_le(rat_one(), tv_dot(self@, self@))
                    ==> r.is_some(),
    {
        let m = match self.mag() {
            Some(v) => v,
            None => {
                proof {
                    assert forall|g: int|
                        0 < g && tv_bounded(self@, g) && 8 * (((g * g) * (g * g)) * ((g * g) * (g * g))) <= MAX_COEF as int implies false by {
                        assert(tv_bounded(self@, g));
                    }
                }
                return None;
            },
        };
        proof {
            lemma_tv_dot_wf(self@, self@);
            assert forall|g: int|
                0 < g && tv_bounded(self@, g) && 8 * (((g * g) * (g * g)) * ((g * g) * (g * g))) <= MAX_COEF as int && g * ((3 * ((g * g) * (g * g))) * (SQRT_DEN as int))
                <= MAX_COEF as int && rat_le(rat_one(), tv_dot(self@, self@)) implies m@.n >= 1
                && rat_bounded(m@, (3 * ((g * g) * (g * g))) * (SQRT_DEN as int)) && rat_bounded(self@.x, g) && rat_bounded(
                self@.y,
                g,
            ) && rat_bounded(self@.z, g) && rat_bounded(self@.w, g) by {
                assert(tv_bounded(self@, g));
                lemma_norm_mag_facts(self@, m@, g);
            }
        }
        if !m.is_pos() {
            return None;
        }
        let x = match self.x.div(&m) {
            Some(v) => v,
            None => {
                proof {
                    assert forall|g: int|
                        0 < g && tv_bounded(self@, g) && 8 * (((g * g) * (g * g)) * ((g * g) * (g * g))) <= MAX_COEF as int && g * ((3 * ((g * g) * (g * g))) * (SQRT_DEN as int))
                        <= MAX_COEF as int && rat_le(rat_one(), tv_dot(self@, self@)) implies false by {
                        assert(tv_bounded(self@, g));
                    }
                }
                return None;
            },
        };
        let y = match self.y.div(&m) {
            Some(v) => v,
            None => {
                proof {
                    assert forall|g: int|
                        0 < g && tv_bounded(self@, g) && 8 * (((g * g) * (g * g)) * ((g * g) * (g * g))) <= MAX_COEF as int && g * ((3 * ((g * g) * (g * g))) * (SQRT_DEN as int))
                        <= MAX_COEF as int && rat_le(rat_one(), tv_dot(self@, self@)) implies false by {
                        assert(tv_bounded(self@, g));
                    }
                }
                return None;
            },
        };
        let z = match self.z.div(&m) {
            Some(v) => v,
            None => {
                proof {
                    assert forall|g: int|
                        0 < g && tv_bounded(self@, g) && 8 * (((g * g) * (g * g)) * ((g * g) * (g * g))) <= MAX_COEF as int && g * ((3 * ((g * g) * (g * g))) * (SQRT_DEN as int))
                        <= MAX_COEF as int && rat_le(rat_one(), tv_dot(self@, self@)) implies false by {
                        assert(tv_bounded(self@, g));
                    }
                }
                return None;
            },
        };
        let w = match self.w.div(&m) {
            Some(v) => v,
            None => {
                proof {
                    assert forall|g: int|
                        0 < g && tv_bounded(self@, g) && 8 * (((g * g) * (g * g)) * ((g * g) * (g * g))) <= MAX_COEF as int && g * ((3 * ((g * g) * (g * g))) * (SQRT_DEN as int))
                        <= MAX_COEF as int && rat_le(rat_one(), tv_dot(self@, self@)) implies false by {
                        assert(tv_bounded(self@, g));
                    }
                }
                return None;
            },
        };
        let t = Tup { x, y, z, w };
        proof {
            assert(rat_wf(m@));
        }
        Some(t)
    }

    /// Componentwise tolerance equality.
    pub fn approx_eq(&self, other: &Tup) -> (r: bool)
        requires
            tup_ok(*self),
            tup_ok(*other),
        ensures
            r == tv_approx(self@, other@),
    {
        self.x.approx_eq(&other.x) && self.y.approx_eq(&other.y) && self.z.approx_eq(&other.z)
            && self.w.approx_eq(&other.w)
    }
}

impl Matrix4x4 {
    /// The matrix applied to a tuple as a column vector: each component is
    /// the dot product of the matching matrix row with the tuple.
    pub fn mul_tup(&self, t: &Tup) -> (r: Option<Tup>)
        requires
            m4_ok(*self),
            tup_ok(*t),
        ensures
            r matches Some(o) ==> tup_ok(o) && rat_eq(o@.x, tv_dot(mv_row(self@, 0), t@))
                && rat_eq(o@.y, tv_dot(mv_row(self@, 1), t@)) && rat_eq(
                o@.z,
                tv_dot(mv_row(self@, 2), t@),
            ) && rat_eq(o@.w, tv_dot(mv_row(self@, 3), t@)),
            forall|g1: int, g2: int|
                #![trigger m4_bounded(*self, g1), tv_bounded(t@, g2)]
                0 < g1 && 0 < g2 && m4_bounded(*self, g1) && tv_bounded(t@, g2) && 8 * (((g1 * g2) * (g1 * g2)) * ((g1 * g2) * (g1 * g2))) <= MAX_COEF as int ==> r.is_some(),
    {
        let r0 = Tup::new(self.at(0, 0), self.at(0, 1), self.at(0, 2), self.at(0, 3));
        let r1 = Tup::new(self.at(1, 0), self.at(1, 1), self.at(1, 2), self.at(1, 3));
        let r2 = Tup::new(self.at(2, 0), self.at(2, 1), self.at(2, 2), self.at(2, 3));
        let r3 = Tup::new(self.at(3, 0), self.at(3, 1), self.at(3, 2), self.at(3, 3));
        let x = match r0.dot(*t) {
            Some(v) => v,
            None => {
                proof {
                    assert forall|g1: int, g2: int|
                        0 < g1 && 0 < g2 && m4_bounded(*self, g1) && tv_bounded(t@, g2)
                        && 8 * (((g1 * g2) * (g1 * g2)) * ((g1 * g2) * (g1 * g2))) <= MAX_COEF as int implies false by {
                        assert(tv_bounded(r0@, g1) && tv_bounded(r1@, g1) && tv_bounded(
                            r2@, g1) && tv_bounded(r3@, g1));
                        assert(tv_bounded(t@, g2));
                    }
                }
                return None;
            },
        };
        let y = match r1.dot(*t) {
            Some(v) => v,
            None => {
                proof {
                    assert forall|g1: int, g2: int|
                        0 < g1 && 0 < g2 && m4_bounded(*self, g1) && tv_bounded(t@, g2)
                        && 8 * (((g1 * g2) * (g1 * g2)) * ((g1 * g2) * (g1 * g2))) <= MAX_COEF as int implies false by {
                        assert(tv_bounded(r0@, g1) && tv_bounded(r1@, g1) && tv_bounded(
                            r2@, g1) && tv_bounded(r3@, g1));
                        assert(tv_bounded(t@, g2));
                    }
                }
                return None;
            },
        };
        let z = match r2.dot(*t) {
            Some(v) => v,
            None => {
                proof {
                    assert forall|g1: int, g2: int|
                        0 < g1 && 0 < g2 && m4_bounded(*self, g1) && tv_bounded(t@, g2)
                        && 8 * (((g1 * g2) * (g1 * g2)) * ((g1 * g2) * (g1 * g2))) <= MAX_COEF as int implies false by {
                        assert(tv_bounded(r0@, g1) && tv_bounded(r1@, g1) && tv_bounded(
                            r2@, g1) && tv_bounded(r3@, g1));
                        assert(tv_bounded(t@, g2));
                    }
                }
                return None;
            },
        };
        let w = match r3.dot(*t) {
            Some(v) => v,
            None => {
                proof {
                    assert forall|g1: int, g2: int|
                        0 < g1 && 0 < g2 && m4_bounded(*self, g1) && tv_bounded(t@, g2)
                        && 8 * (((g1 * g2) * (g1 * g2)) * ((g1 * g2) * (g1 * g2))) <= MAX_COEF as int implies false by {
                        assert(tv_bounded(r0@, g1) && tv_bounded(r1@, g1) && tv_bounded(
                            r2@, g1) && tv_bounded(r3@, g1));
                        assert(tv_bounded(t@, g2));
                    }
                }
                return None;
            },
        };
        proof {
            assert(r0@ == mv_row(self@, 0));
            assert(r1@ == mv_row(self@, 1));
            assert(r2@ == mv_row(self@, 2));
            assert(r3@ == mv_row(self@, 3));
        }
        Some(Tup { x, y, z, w })
    }
}


/// The sum of a point mark and a vector mark is a point mark.
proof fn lemma_point_plus_vector(wp: Rat, wv: Rat, ws: Rat)
    requires
        rat_wf(wp),
        rat_wf(wv),
        rat_eq(wp, rat_one()),
        rat_eq(wv, rat_zero()),
        rat_eq(ws, rat_add(wp, wv)),
    ensures
        rat_eq(ws, rat_one()),
{
    lemma_req_add(wp, rat_one(), wv, rat_zero());
    lemma_pos_mul(wp.d, wv.d);
    lemma_req_trans(ws, rat_add(wp, wv), rat_add(rat_one(), rat_zero()));
}

/// The difference of two like marks is a vector mark; the difference of a
/// point mark and a vector mark is a point mark.
proof fn lemma_mark_sub(wa: Rat, wb: Rat, ws: Rat, a: Rat, b: Rat, c: Rat)
    requires
        rat_wf(wa),
        rat_wf(wb),
        rat_eq(wa, a),
        rat_eq(wb, b),
        rat_eq(ws, rat_sub(wa, wb)),
        rat_eq(rat_sub(a, b), c),
        rat_wf(rat_sub(a, b)),
    ensures
        rat_eq(ws, c),
{
    lemma_req_sub(wa, a, wb, b);
    lemma_pos_mul(wa.d, wb.d);
    lemma_req_trans(ws, rat_sub(wa, wb), rat_sub(a, b));
    lemma_req_trans(ws, rat_sub(a, b), c);
}

/// A location: a tuple whose fourth component holds one.
#[derive(Clone, Copy, PartialEq, Debug)]
pub struct Point(pub Tup);

/// A direction with magnitude: a tuple whose fourth component holds zero.
#[derive(Clone, Copy, PartialEq, Debug)]
pub struct Vector(pub Tup);

impl View for Point {
    type V = TupVal;

    open spec fn view(&self) -> TupVal {
        self.0@
    }
}

impl View for Vector {
    type V = TupVal;

    open spec fn view(&self) -> TupVal {
        self.0@
    }
}

/// Well-formedness of a point: tuple bounds and the point mark.
pub open spec fn pt_ok(p: Point) -> bool {
    &&& tup_ok(p.0)
    &&& is_point_val(p@)
}

/// Well-formedness of a vector: tuple bounds and the vector mark.
pub open spec fn vec_ok(v: Vector) -> bool {
    &&& tup_ok(v.0)
    &&& is_vector_val(v@)
}

impl Point {
    /// The point (x, y, z).
    pub fn new(x: Scalar, y: Scalar, z: Scalar) -> (r: Point)
        requires
            sc_ok(x),
            sc_ok(y),
            sc_ok(z),
        ensures
            pt_ok(r),
            r@.x == x@,
            r@.y == y@,
            r@.z == z@,
            r@.w == rat_one(),
    {
        Point(Tup::new(x, y, z, Scalar::from_int(1)))
    }

    /// Wraps a tuple that already carries the point mark.
    pub fn from_tup(t: Tup) -> (r: Point)
        requires
            tup_ok(t),
            is_point_val(t@),
        ensures
            pt_ok(r),
            r@ == t@,
    {
        Point(t)
    }

    /// The underlying tuple.
    pub fn to_tup(self) -> (r: Tup)
        requires
            pt_ok(self),
        ensures
            tup_ok(r),
            r@ == self@,
    {
        self.0
    }

    pub fn x(&self) -> (r: Scalar)
        requires
            pt_ok(*self),
        ensures
            sc_ok(r),
            r@ == self@.x,
    {
        self.0.x
    }

    pub fn y(&self) -> (r: Scalar)
        requires
            pt_ok(*self),
        ensures
            sc_ok(r),
            r@ == self@.y,
    {
        self.0.y
    }

    pub fn z(&self) -> (r: Scalar)
        requires
            pt_ok(*self),
        ensures
            sc_ok(r),
            r@ == self@.z,
    {
        self.0.z
    }

    /// Dot product of the underlying tuples.
    pub fn dot(&self, other: Point) -> (r: Option<Scalar>)
        requires
            pt_ok(*self),
            pt_ok(other),
        ensures
            r matches Some(s) ==> sc_ok(s) && rat_eq(s@, tv_dot(self@, other@)),
            forall|g1: int, g2: int|
                #![trigger tv_bounded(self@, g1), tv_bounded(other@, g2)]
                0 < g1 && 0 < g2 && tv_bounded(self@, g1) && tv_bounded(other@, g2) && 8 * (((g1 * g2) * (g1 * g2)) * ((g1 * g2) * (g1 * g2))) <= MAX_COEF as int
                    ==> r.is_some(),
    {
        let r = self.0.dot(other.0);
        proof {
            assert forall|g1: int, g2: int|
                0 < g1 && 0 < g2 && tv_bounded(self@, g1) && tv_bounded(other@, g2)
                && 8 * (((g1 * g2) * (g1 * g2)) * ((g1 * g2) * (g1 * g2))) <= MAX_COEF as int
                implies r.is_some() by {
                assert(tv_bounded(self.0@, g1) && tv_bounded(other.0@, g2));
            }
        }
        r
    }

    /// A point moved by a vector is a point.
    pub fn add(&self, other: Vector) -> (r: Option<Point>)
        requires
            pt_ok(*self),
            vec_ok(other),
        ensures
            r matches Some(p) ==> pt_ok(p) && rat_eq(p@.x, rat_add(self@.x, other@.x)) && rat_eq(
                p@.y,
                rat_add(self@.y, other@.y),
            ) && rat_eq(p@.z, rat_add(self@.z, other@.z)),
            forall|g1: int, g2: int|
                #![trigger tv_bounded(self@, g1), tv_bounded(other@, g2)]
                0 < g1 && 0 < g2 && tv_bounded(self@, g1) && tv_bounded(other@, g2) && 2 * (g1 * g2) <= MAX_COEF as int
                    ==> r.is_some(),
    {
        let t = match self.0.add(&other.0) {
            Some(v) => v,
            None => {
                proof {
                    assert forall|g1: int, g2: int|
                        0 < g1 && 0 < g2 && tv_bounded(self.0@, g1) && tv_bounded(other.0@, g2) && 2 * (g1 * g2) <= MAX_COEF as int
                        implies false by {
                        assert(tv_bounded(self.0@, g1) && tv_bounded(other.0@, g2));
                    }
                }
                return None;
            },
        };
        proof {
            lemma_point_plus_vector(self@.w, other@.w, t@.w);
        }
        Some(Point(t))
    }

    /// The displacement between two points is a vector.
    pub fn sub(&self, other: Point) -> (r: Option<Vector>)
        requires
            pt_ok(*self),
            pt_ok(other),
        ensures
            r matches Some(v) ==> vec_ok(v) && rat_eq(v@.x, rat_sub(self@.x, other@.x)) && rat_eq(
                v@.y,
                rat_sub(self@.y, other@.y),
            ) && rat_eq(v@.z, rat_sub(self@.z, other@.z)),
            forall|g1: int, g2: int|
                #![trigger tv_bounded(self@, g1), tv_bounded(other@, g2)]
                0 < g1 && 0 < g2 && tv_bounded(self@, g1) && tv_bounded(other@, g2) && 2 * (g1 * g2) <= MAX_COEF as int
                    ==> r.is_some(),
    {
        let flipped = other.0.neg();
        let t = match self.0.add(&flipped) {
            Some(v) => v,
            None => {
                proof {
                    assert forall|g1: int, g2: int|
                        0 < g1 && 0 < g2 && tv_bounded(self@, g1) && tv_bounded(other@, g2)
                        && 2 * (g1 * g2) <= MAX_COEF as int implies false by {
                        assert(tv_bounded(self.0@, g1));
                        assert(tv_bounded(flipped@, g2));
                    }
                }
                return None;
            },
        };
        proof {
            lemma_sub_via_neg(self@, other@, t@);
            lemma_mark_sub(self@.w, other@.w, t@.w, rat_one(), rat_one(), rat_zero());
        }
        Some(Vector(t))
    }

    /// A point moved back by a vector is a point.
    pub fn sub_vec(&self, other: Vector) -> (r: Option<Point>)
        requires
            pt_ok(*self),
            vec_ok(other),
        ensures
            r matches Some(p) ==> pt_ok(p) && rat_eq(p@.x, rat_sub(self@.x, other@.x)) && rat_eq(
                p@.y,
                rat_sub(self@.y, other@.y),
            ) && rat_eq(p@.z, rat_sub(self@.z, other@.z)),
            forall|g1: int, g2: int|
                #![trigger tv_bounded(self@, g1), tv_bounded(other@, g2)]
                0 < g1 && 0 < g2 && tv_bounded(self@, g1) && tv_bounded(other@, g2) && 2 * (g1 * g2) <= MAX_COEF as int
                    ==> r.is_some(),
    {
        let flipped = other.0.neg();
        let t = match self.0.add(&flipped) {
            Some(v) => v,
            None => {
                proof {
                    assert forall|g1: int, g2: int|
                        0 < g1 && 0 < g2 && tv_bounded(self@, g1) && tv_bounded(other@, g2)
                        && 2 * (g1 * g2) <= MAX_COEF as int implies false by {
                        assert(tv_bounded(self.0@, g1));
                        assert(tv_bounded(flipped@, g2));
                    }
                }
                return None;
            },
        };
        proof {
            lemma_sub_via_neg(self@, other@, t@);
            lemma_mark_sub(self@.w, other@.w, t@.w, rat_one(), rat_zero(), rat_one());
        }
        Some(Point(t))
    }

    /// Componentwise tolerance equality.
    pub fn approx_eq(&self, other: &Point) -> (r: bool)
        requires
            pt_ok(*self),
            pt_ok(*other),
        ensures
            r == tv_approx(self@, other@),
    {
        self.0.approx_eq(&other.0)
    }
}

/// Adding a negated tuple computes the componentwise difference.
proof fn lemma_sub_via_neg(a: TupVal, b: TupVal, t: TupVal)
    requires
        tv_wf(a),
        tv_wf(b),
        rat_eq(t.x, rat_add(a.x, rat_neg(b.x))),
        rat_eq(t.y, rat_add(a.y, rat_neg(b.y))),
        rat_eq(t.z, rat_add(a.z, rat_neg(b.z))),
        rat_eq(t.w, rat_add(a.w, rat_neg(b.w))),
    ensures
        rat_eq(t.x, rat_sub(a.x, b.x)),
        rat_eq(t.y, rat_sub(a.y, b.y)),
        rat_eq(t.z, rat_sub(a.z, b.z)),
        rat_eq(t.w, rat_sub(a.w, b.w)),
{
    lemma_add_neg_is_sub(a.x, b.x);
    lemma_add_neg_is_sub(a.y, b.y);
    lemma_add_neg_is_sub(a.z, b.z);
    lemma_add_neg_is_sub(a.w, b.w);
}

/// Adding a negation is subtraction, structurally.
proof fn lemma_add_neg_is_sub(a: Rat, b: Rat)
    ensures
        rat_add(a, rat_neg(b)) == rat_sub(a, b),
{
    assert(a.n * b.d + (-b.n) * a.d == a.n * b.d - b.n * a.d) by (nonlinear_arith);
}

impl Vector {
    /// The vector (x, y, z).
    pub fn new(x: Scalar, y: Scalar, z: Scalar) -> (r: Vector)
        requires
            sc_ok(x),
            sc_ok(y),
            sc_ok(z),
        ensures
            vec_ok(r),
            r@.x == x@,
            r@.y == y@,
            r@.z == z@,
            r@.w == rat_zero(),
    {
        Vector(Tup::new(x, y, z, Scalar::from_int(0)))
    }

    /// Wraps a tuple that already carries the vector mark.
    pub fn from_tup(t: Tup) -> (r: Vector)
        requires
            tup_ok(t),
            is_vector_val(t@),
        ensures
            vec_ok(r),
            r@ == t@,
    {
        Vector(t)
    }

    /// The underlying tuple.
    pub fn to_tup(self) -> (r: Tup)
        requires
            vec_ok(self),
        ensures
            tup_ok(r),
            r@ == self@,
    {
        self.0
    }

    pub fn x(&self) -> (r: Scalar)
        requires
            vec_ok(*self),
        ensures
            sc_ok(r),
            r@ == self@.x,
    {
        self.0.x
    }

    pub fn y(&self) -> (r: Scalar)
        requires
            vec_ok(*self),
        ensures
            sc_ok(r),
            r@ == self@.y,
    {
        self.0.y
    }

    pub fn z(&self) -> (r: Scalar)
        requires
            vec_ok(*self),
        ensures
            sc_ok(r),
            r@ == self@.z,
    {
        self.0.z
    }

    /// Magnitude of the underlying tuple; with a zero fourth component this
    /// is the three-dimensional Euclidean norm.
    pub fn mag(&self) -> (r: Option<Scalar>)
        requires
            vec_ok(*self),
        ensures
            r matches Some(s) ==> sc_ok(s) && rat_le(rat_zero(), s@) && rat_le(
                rat_mul(s@, s@),
                tv_dot(self@, self@),
            ) && rat_lt(
                tv_dot(self@, self@),
                rat_mul(rat_add(s@, sqrt_eps()), rat_add(s@, sqrt_eps())),
            ),
            forall|g: int|
                #![trigger tv_bounded(self@, g)]
                0 < g && tv_bounded(self@, g) && 8 * (((g * g) * (g * g)) * ((g * g) * (g * g))) <= MAX_COEF as int ==> r.is_some(),
    {
        let r = self.0.mag();
        proof {
            assert forall|g: int|
                0 < g && tv_bounded(self@, g) && 8 * (((g * g) * (g * g)) * ((g * g) * (g * g))) <= MAX_COEF as int implies r.is_some() by {
                assert(tv_bounded(self.0@, g));
            }
        }
        r
    }

    /// Normalization to (approximately) unit length; keeps the vector mark.
    pub fn norm(&self) -> (r: Option<Vector>)
        requires
            vec_ok(*self),
        ensures
            r matches Some(v) ==> vec_ok(v) && exists|s: Rat|
                {
                    &&& #[trigger] rat_wf(s)
                    &&& rat_lt(rat_zero(), s)
                    &&& rat_le(rat_mul(s, s), tv_dot(self@, self@))
                    &&& rat_lt(
                        tv_dot(self@, self@),
                        rat_mul(rat_add(s, sqrt_eps()), rat_add(s, sqrt_eps())),
                    )
                    &&& rat_eq(v@.x, rat_div(self@.x, s))
                    &&& rat_eq(v@.y, rat_div(self@.y, s))
                    &&& rat_eq(v@.z, rat_div(self@.z, s))
                },
    {
        let t = match self.0.norm() {
            Some(v) => v,
            None => {
                return None;
            },
        };
        proof {
            let s = choose|s: Rat|
                {
                    &&& #[trigger] rat_wf(s)
                    &&& rat_lt(rat_zero(), s)
                    &&& rat_le(rat_mul(s, s), tv_dot(self@, self@))
                    &&& rat_lt(
                        tv_dot(self@, self@),
                        rat_mul(rat_add(s, sqrt_eps()), rat_add(s, sqrt_eps())),
                    )
                    &&& rat_eq(t@.x, rat_div(self@.x, s))
                    &&& rat_eq(t@.y, rat_div(self@.y, s))
                    &&& rat_eq(t@.z, rat_div(self@.z, s))
                    &&& rat_eq(t@.w, rat_div(self@.w, s))
                };
            lemma_zero_div(self@.w, s, t@.w);
        }
        Some(Vector(t))
    }

    /// Dot product.
    pub fn dot(&self, other: Vector) -> (r: Option<Scalar>)
        requires
            vec_ok(*self),
            vec_ok(other),
        ensures
            r matches Some(s) ==> sc_ok(s) && rat_eq(s@, tv_dot(self@, other@)),
            forall|g1: int, g2: int|
                #![trigger tv_bounded(self@, g1), tv_bounded(other@, g2)]
                0 < g1 && 0 < g2 && tv_bounded(self@, g1) && tv_bounded(other@, g2) && 8 * (((g1 * g2) * (g1 * g2)) * ((g1 * g2) * (g1 * g2))) <= MAX_COEF as int
                    ==> r.is_some(),
    {
        let r = self.0.dot(other.0);
        proof {
            assert forall|g1: int, g2: int|
                0 < g1 && 0 < g2 && tv_bounded(self@, g1) && tv_bounded(other@, g2)
                && 8 * (((g1 * g2) * (g1 * g2)) * ((g1 * g2) * (g1 * g2))) <= MAX_COEF as int
                implies r.is_some() by {
                assert(tv_bounded(self.0@, g1) && tv_bounded(other.0@, g2));
            }
        }
        r
    }

    /// Cross product by the standard three-dimensional formula.
    pub fn cross(&self, other: Vector) -> (r: Option<Vector>)
        requires
            vec_ok(*self),
            vec_ok(other),
        ensures
            r matches Some(v) ==> vec_ok(v) && rat_eq(
                v@.x,
                rat_sub(rat_mul(self@.y, other@.z), rat_mul(self@.z, other@.y)),
            ) && rat_eq(
                v@.y,
                rat_sub(rat_mul(self@.z, other@.x), rat_mul(self@.x, other@.z)),
            ) && rat_eq(
                v@.z,
                rat_sub(rat_mul(self@.x, other@.y), rat_mul(self@.y, other@.x)),
            ),
            forall|g1: int, g2: int|
                #![trigger tv_bounded(self@, g1), tv_bounded(other@, g2)]
                0 < g1 && 0 < g2 && tv_bounded(self@, g1) && tv_bounded(other@, g2) && 2 * ((g1
                * g2) * (g1 * g2)) <= MAX_COEF as int ==> (r matches Some(v) && tv_bounded(
                    v@,
                    2 * ((g1 * g2) * (g1 * g2)),
                )),
    {
        let ax = match self.0.y.mul(&other.0.z) {
            Some(v) => v,
            None => {
                proof {
                    assert forall|g1: int, g2: int|
                        0 < g1 && 0 < g2 && tv_bounded(self@, g1) && tv_bounded(other@, g2)
                        && 2 * ((g1 * g2) * (g1 * g2)) <= MAX_COEF as int implies false by {
                        lemma_dot_cap_arith(g1, g2);
                        assert(rat_bounded(self@.x, g1) && rat_bounded(self@.y, g1)
                            && rat_bounded(self@.z, g1) && rat_bounded(self@.w, g1));
                        assert(rat_bounded(other@.x, g2) && rat_bounded(other@.y, g2)
                            && rat_bounded(other@.z, g2) && rat_bounded(other@.w, g2));
                    }
                }
                return None;
            },
        };
        let bx = match self.0.z.mul(&other.0.y) {
            Some(v) => v,
            None => {
                proof {
                    assert forall|g1: int, g2: int|
                        0 < g1 && 0 < g2 && tv_bounded(self@, g1) && tv_bounded(other@, g2)
                        && 2 * ((g1 * g2) * (g1 * g2)) <= MAX_COEF as int implies false by {
                        lemma_dot_cap_arith(g1, g2);
                        assert(rat_bounded(self@.x, g1) && rat_bounded(self@.y, g1)
                            && rat_bounded(self@.z, g1) && rat_bounded(self@.w, g1));
                        assert(rat_bounded(other@.x, g2) && rat_bounded(other@.y, g2)
                            && rat_bounded(other@.z, g2) && rat_bounded(other@.w, g2));
                    }
                }
                return None;
            },
        };
        let x = match ax.sub(&bx) {
            Some(v) => v,
            None => {
                proof {
                    assert forall|g1: int, g2: int|
                        0 < g1 && 0 < g2 && tv_bounded(self@, g1) && tv_bounded(other@, g2)
                        && 2 * ((g1 * g2) * (g1 * g2)) <= MAX_COEF as int implies false by {
                        lemma_dot_cap_arith(g1, g2);
                        assert(rat_bounded(self@.x, g1) && rat_bounded(self@.y, g1)
                            && rat_bounded(self@.z, g1) && rat_bounded(self@.w, g1));
                        assert(rat_bounded(other@.x, g2) && rat_bounded(other@.y, g2)
                            && rat_bounded(other@.z, g2) && rat_bounded(other@.w, g2));
                    }
                }
                return None;
            },
        };
        let ay = match self.0.z.mul(&other.0.x) {
            Some(v) => v,
            None => {
                proof {
                    assert forall|g1: int, g2: int|
                        0 < g1 && 0 < g2 && tv_bounded(self@, g1) && tv_bounded(other@, g2)
                        && 2 * ((g1 * g2) * (g1 * g2)) <= MAX_COEF as int implies false by {
                        lemma_dot_cap_arith(g1, g2);
                        assert(rat_bounded(self@.x, g1) && rat_bounded(self@.y, g1)
                            && rat_bounded(self@.z, g1) && rat_bounded(self@.w, g1));
                        assert(rat_bounded(other@.x, g2) && rat_bounded(other@.y, g2)
                            && rat_bounded(other@.z, g2) && rat_bounded(other@.w, g2));
                    }
                }
                return None;
            },
        };
        let by = match self.0.x.mul(&other.0.z) {
            Some(v) => v,
            None => {
                proof {
                    assert forall|g1: int, g2: int|
                        0 < g1 && 0 < g2 && tv_bounded(self@, g1) && tv_bounded(other@, g2)
                        && 2 * ((g1 * g2) * (g1 * g2)) <= MAX_COEF as int implies false by {
                        lemma_dot_cap_arith(g1, g2);
                        assert(rat_bounded(self@.x, g1) && rat_bounded(self@.y, g1)
                            && rat_bounded(self@.z, g1) && rat_bounded(self@.w, g1));
                        assert(rat_bounded(other@.x, g2) && rat_bounded(other@.y, g2)
                            && rat_bounded(other@.z, g2) && rat_bounded(other@.w, g2));
                    }
                }
                return None;
            },
        };
        let y = match ay.sub(&by) {
            Some(v) => v,
            None => {
                proof {
                    assert forall|g1: int, g2: int|
                        0 < g1 && 0 < g2 && tv_bounded(self@, g1) && tv_bounded(other@, g2)
                        && 2 * ((g1 * g2) * (g1 * g2)) <= MAX_COEF as int implies false by {
                        lemma_dot_cap_arith(g1, g2);
                        assert(rat_bounded(self@.x, g1) && rat_bounded(self@.y, g1)
                            && rat_bounded(self@.z, g1) && rat_bounded(self@.w, g1));
                        assert(rat_bounded(other@.x, g2) && rat_bounded(other@.y, g2)
                            && rat_bounded(other@.z, g2) && rat_bounded(other@.w, g2));
                    }
                }
                return None;
            },
        };
        let az = match self.0.x.mul(&other.0.y) {
            Some(v) => v,
            None => {
                proof {
                    assert forall|g1: int, g2: int|
                        0 < g1 && 0 < g2 && tv_bounded(self@, g1) && tv_bounded(other@, g2)
                        && 2 * ((g1 * g2) * (g1 * g2)) <= MAX_COEF as int implies false by {
                        lemma_dot_cap_arith(g1, g2);
                        assert(rat_bounded(self@.x, g1) && rat_bounded(self@.y, g1)
                            && rat_bounded(self@.z, g1) && rat_bounded(self@.w, g1));
                        assert(rat_bounded(other@.x, g2) && rat_bounded(other@.y, g2)
                            && rat_bounded(other@.z, g2) && rat_bounded(other@.w, g2));
                    }
                }
                return None;
            },
        };
        let bz = match self.0.y.mul(&other.0.x) {
            Some(v) => v,
            None => {
                proof {
                    assert forall|g1: int, g2: int|
                        0 < g1 && 0 < g2 && tv_bounded(self@, g1) && tv_bounded(other@, g2)
                        && 2 * ((g1 * g2) * (g1 * g2)) <= MAX_COEF as int implies false by {
                        lemma_dot_cap_arith(g1, g2);
                        assert(rat_bounded(self@.x, g1) && rat_bounded(self@.y, g1)
                            && rat_bounded(self@.z, g1) && rat_bounded(self@.w, g1));
                        assert(rat_bounded(other@.x, g2) && rat_bounded(other@.y, g2)
                            && rat_bounded(other@.z, g2) && rat_bounded(other@.w, g2));
                    }
                }
                return None;
            },
        };
        let z = match az.sub(&bz) {
            Some(v) => v,
            None => {
                proof {
                    assert forall|g1: int, g2: int|
                        0 < g1 && 0 < g2 && tv_bounded(self@, g1) && tv_bounded(other@, g2)
                        && 2 * ((g1 * g2) * (g1 * g2)) <= MAX_COEF as int implies false by {
                        lemma_dot_cap_arith(g1, g2);
                        assert(rat_bounded(self@.x, g1) && rat_bounded(self@.y, g1)
                            && rat_bounded(self@.z, g1) && rat_bounded(self@.w, g1));
                        assert(rat_bounded(other@.x, g2) && rat_bounded(other@.y, g2)
                            && rat_bounded(other@.z, g2) && rat_bounded(other@.w, g2));
                    }
                }
                return None;
            },
        };
        proof {
            lemma_pos_mul(ax@.d, bx@.d);
            lemma_req_sub(ax@, rat_mul(self@.y, other@.z), bx@, rat_mul(self@.z, other@.y));
            lemma_req_trans(x@, rat_sub(ax@, bx@),
                rat_sub(rat_mul(self@.y, other@.z), rat_mul(self@.z, other@.y)));
            lemma_pos_mul(ay@.d, by@.d);
            lemma_req_sub(ay@, rat_mul(self@.z, other@.x), by@, rat_mul(self@.x, other@.z));
            lemma_req_trans(y@, rat_sub(ay@, by@),
                rat_sub(rat_mul(self@.z, other@.x), rat_mul(self@.x, other@.z)));
            lemma_pos_mul(az@.d, bz@.d);
            lemma_req_sub(az@, rat_mul(self@.x, other@.y), bz@, rat_mul(self@.y, other@.x));
            lemma_req_trans(z@, rat_sub(az@, bz@),
                rat_sub(rat_mul(self@.x, other@.y), rat_mul(self@.y, other@.x)));
        }
        proof {
            assert forall|g1: int, g2: int|
                0 < g1 && 0 < g2 && tv_bounded(self@, g1) && tv_bounded(other@, g2) && 2 * ((g1
                * g2) * (g1 * g2)) <= MAX_COEF as int implies rat_bounded(
                x@,
                2 * ((g1 * g2) * (g1 * g2)),
            ) && rat_bounded(y@, 2 * ((g1 * g2) * (g1 * g2))) && rat_bounded(
                z@,
                2 * ((g1 * g2) * (g1 * g2)),
            ) && rat_bounded(rat_zero(), 2 * ((g1 * g2) * (g1 * g2))) by {
                let p = g1 * g2;
                assert(rat_bounded(self@.x, g1) && rat_bounded(self@.y, g1) && rat_bounded(
                    self@.z, g1) && rat_bounded(other@.x, g2) && rat_bounded(other@.y, g2)
                    && rat_bounded(other@.z, g2));
                assert(1 <= p && p <= 2 * (p * p)) by (nonlinear_arith)
                    requires
                        0 < g1,
                        0 < g2,
                        p == g1 * g2,
                ;
            }
        }
        Some(Vector(Tup::new(x, y, z, Scalar::from_int(0))))
    }

    /// Vector sum.
    pub fn add(&self, other: Vector) -> (r: Option<Vector>)
        requires
            vec_ok(*self),
            vec_ok(other),
        ensures
            r matches Some(v) ==> vec_ok(v) && rat_eq(v@.x, rat_add(self@.x, other@.x)) && rat_eq(
                v@.y,
                rat_add(self@.y, other@.y),
            ) && rat_eq(v@.z, rat_add(self@.z, other@.z)),
            forall|g1: int, g2: int|
                #![trigger tv_bounded(self@, g1), tv_bounded(other@, g2)]
                0 < g1 && 0 < g2 && tv_bounded(self@, g1) && tv_bounded(other@, g2) && 2 * (g1 * g2) <= MAX_COEF as int
                    ==> r.is_some(),
    {
        let t = match self.0.add(&other.0) {
            Some(v) => v,
            None => {
                proof {
                    assert forall|g1: int, g2: int|
                        0 < g1 && 0 < g2 && tv_bounded(self@, g1) && tv_bounded(other@, g2)
                        && 2 * (g1 * g2) <= MAX_COEF as int implies false by {
                        assert(tv_bounded(self.0@, g1) && tv_bounded(other.0@, g2));
                    }
                }
                return None;
            },
        };
        proof {
            lemma_req_add(self@.w, rat_zero(), other@.w, rat_zero());
            lemma_pos_mul(self@.w.d, other@.w.d);
            lemma_req_trans(t@.w, rat_add(self@.w, other@.w), rat_add(rat_zero(), rat_zero()));
        }
        Some(Vector(t))
    }

    /// Vector difference.
    pub fn sub(&self, other: Vector) -> (r: Option<Vector>)
        requires
            vec_ok(*self),
            vec_ok(other),
        ensures
            r matches Some(v) ==> vec_ok(v) && rat_eq(v@.x, rat_sub(self@.x, other@.x)) && rat_eq(
                v@.y,
                rat_sub(self@.y, other@.y),
            ) && rat_eq(v@.z, rat_sub(self@.z, other@.z)),
            forall|g1: int, g2: int|
                #![trigger tv_bounded(self@, g1), tv_bounded(other@, g2)]
                0 < g1 && 0 < g2 && tv_bounded(self@, g1) && tv_bounded(other@, g2) && 2 * (g1 * g2) <= MAX_COEF as int
                    ==> r.is_some(),
    {
        let flipped = other.0.neg();
        let t = match self.0.add(&flipped) {
            Some(v) => v,
            None => {
                proof {
                    assert forall|g1: int, g2: int|
                        0 < g1 && 0 < g2 && tv_bounded(self@, g1) && tv_bounded(other@, g2)
                        && 2 * (g1 * g2) <= MAX_COEF as int implies false by {
                        assert(tv_bounded(self.0@, g1));
                        assert(tv_bounded(flipped@, g2));
                    }
                }
                return None;
            },
        };
        proof {
            lemma_sub_via_neg(self@, other@, t@);
            lemma_mark_sub(self@.w, other@.w, t@.w, rat_zero(), rat_zero(), rat_zero());
        }
        Some(Vector(t))
    }

    /// Negation; exact.
    pub fn neg(&self) -> (r: Vector)
        requires
            vec_ok(*self),
        ensures
            vec_ok(r),
            r@.x == rat_neg(self@.x),
            r@.y == rat_neg(self@.y),
            r@.z == rat_neg(self@.z),
    {
        Vector(self.0.neg())
    }

    /// Scaling by a scalar keeps the vector mark.
    pub fn mul(&self, other: &Scalar) -> (r: Option<Vector>)
        requires
            vec_ok(*self),
            sc_ok(*other),
        ensures
            r matches Some(v) ==> vec_ok(v) && rat_eq(v@.x, rat_mul(self@.x, other@)) && rat_eq(
                v@.y,
                rat_mul(self@.y, other@),
            ) && rat_eq(v@.z, rat_mul(self@.z, other@)),
            forall|g1: int, g2: int|
                #![trigger tv_bounded(self@, g1), rat_bounded(other@, g2)]
                0 < g1 && 0 < g2 && tv_bounded(self@, g1) && rat_bounded(other@, g2) && g1 * g2
                    <= MAX_COEF as int ==> (r matches Some(v) && tv_bounded(v@, g1 * g2)),
    {
        let t = match self.0.mul(other) {
            Some(v) => v,
            None => {
                proof {
                    assert forall|g1: int, g2: int|
                        0 < g1 && 0 < g2 && tv_bounded(self@, g1) && rat_bounded(other@, g2)
                        && g1 * g2 <= MAX_COEF as int implies false by {
                        assert(tv_bounded(self.0@, g1) && rat_bounded(other@, g2));
                    }
                }
                return None;
            },
        };
        proof {
            lemma_req_mul(self@.w, rat_zero(), other@, other@);
            lemma_pos_mul(self@.w.d, other@.d);
            lemma_req_trans(t@.w, rat_mul(self@.w, other@), rat_mul(rat_zero(), other@));
            lemma_zero_mul(other@);
            lemma_req_trans(t@.w, rat_mul(rat_zero(), other@), rat_zero());
            assert forall|g1: int, g2: int|
                0 < g1 && 0 < g2 && tv_bounded(self@, g1) && rat_bounded(other@, g2) && g1 * g2
                <= MAX_COEF as int implies tv_bounded(t@, g1 * g2) by {
                assert(tv_bounded(self.0@, g1) && rat_bounded(other@, g2));
            }
        }
        Some(Vector(t))
    }

    /// Componentwise tolerance equality.
    pub fn approx_eq(&self, other: &Vector) -> (r: bool)
        requires
            vec_ok(*self),
            vec_ok(*other),
        ensures
            r == tv_approx(self@, other@),
    {
        self.0.approx_eq(&other.0)
    }
}

/// Zero times anything is zero in value.
proof fn lemma_zero_mul(b: Rat)
    ensures
        rat_eq(rat_mul(rat_zero(), b), rat_zero()),
{
    assert((0 * b.n) * 1 == 0 * (1 * b.d)) by (nonlinear_arith);
}

/// Zero divided by a positive value is zero in value.
proof fn lemma_zero_div(a: Rat, s: Rat, t: Rat)
    requires
        rat_wf(a),
        rat_wf(s),
        rat_lt(rat_zero(), s),
        rat_eq(a, rat_zero()),
        rat_eq(t, rat_div(a, s)),
    ensures
        rat_eq(t, rat_zero()),
{
    assert(a.n == 0) by (nonlinear_arith)
        requires
            a.n * 1 == 0 * a.d,
    ;
    assert(s.n > 0) by (nonlinear_arith)
        requires
            0 * s.d < s.n * 1,
    ;
    let dv = rat_div(a, s);
    assert(dv.n == 0 && dv.d > 0) by (nonlinear_arith)
        requires
            a.n == 0,
            s.n > 0,
            a.d > 0,
            dv.n == a.n * s.d,
            dv.d == a.d * s.n,
    ;
    assert(t.n == 0) by (nonlinear_arith)
        requires
            t.n * dv.d == dv.n * t.d,
            dv.n == 0,
            dv.d > 0,
    ;
}


/// Squared factors may be regrouped pairwise.
proof fn lemma_mul_sq_reorder(a: int, b: int)
    ensures
        (a * b) * (a * b) == (a * a) * (b * b),
{
    assert((a * b) * (a * b) == (a * a) * (b * b)) by (nonlinear_arith);
}

/// A quotient multiplied back by its positive divisor recovers the
/// dividend in value.
proof fn lemma_mul_back(nc: Rat, s: Rat, vc: Rat)
    requires
        rat_wf(nc),
        rat_wf(s),
        rat_wf(vc),
        s.n > 0,
        rat_eq(nc, rat_div(vc, s)),
    ensures
        rat_eq(rat_mul(nc, s), vc),
{
    assert((nc.n * s.n) * vc.d == vc.n * (nc.d * s.d)) by (nonlinear_arith)
        requires
            nc.n * (vc.d * s.n) == (vc.n * s.d) * nc.d,
            s.n > 0,
            s.d >= 1,
            vc.d >= 1,
            nc.d >= 1,
    ;
}

/// The square of a component quotient, scaled by the squared divisor,
/// recovers the squared component.
proof fn lemma_comp_square(nc: Rat, s: Rat, vc: Rat)
    requires
        rat_wf(nc),
        rat_wf(s),
        rat_wf(vc),
        s.n > 0,
        rat_eq(nc, rat_div(vc, s)),
    ensures
        rat_eq(rat_mul(rat_mul(nc, nc), rat_mul(s, s)), rat_mul(vc, vc)),
{
    lemma_mul_back(nc, s, vc);
    lemma_mul_sq_reorder(nc.n, s.n);
    lemma_mul_sq_reorder(nc.d, s.d);
    assert(rat_mul(rat_mul(nc, nc), rat_mul(s, s)) == rat_mul(rat_mul(nc, s), rat_mul(nc, s)));
    lemma_req_mul(rat_mul(nc, s), vc, rat_mul(nc, s), vc);
}

/// A sum times a factor equals the sum of the scaled summands in value.
#[verifier::rlimit(60)]
proof fn lemma_mul_add_dist(a: Rat, b: Rat, t: Rat)
    ensures
        rat_eq(rat_mul(rat_add(a, b), t), rat_add(rat_mul(a, t), rat_mul(b, t))),
{
    let x = (a.d * t.d) * (b.d * t.d);
    lemma_dist2_three(a.n * b.d, b.n * a.d, t.n, x);
    lemma_scaled_mono(a.n, b.d, t.n, a.d, t.d, b.d);
    lemma_scaled_mono(b.n, a.d, t.n, b.d, t.d, a.d);
    // align the inner grouping of the second summand with the shared factor
    assert((a.d * t.d) * (b.d * t.d) == (b.d * t.d) * (a.d * t.d)) by (nonlinear_arith);
    crate::detlaws::lemma_mul_subst(t.n, (a.d * t.d) * (b.d * t.d),
        (b.d * t.d) * (a.d * t.d));
    crate::detlaws::lemma_mul_subst(b.n * a.d, t.n * ((a.d * t.d) * (b.d * t.d)),
        t.n * ((b.d * t.d) * (a.d * t.d)));
    // align the trailing denominators of the second summand
    assert(b.d * a.d == a.d * b.d) by (nonlinear_arith);
    crate::detlaws::lemma_mul_subst_left(b.d * a.d, a.d * b.d, t.d);
    crate::detlaws::lemma_mul_subst((b.n * t.n) * (a.d * t.d), (b.d * a.d) * t.d,
        (a.d * b.d) * t.d);
    lemma_dist2_plain((a.n * t.n) * (b.d * t.d), (b.n * t.n) * (a.d * t.d), (a.d * b.d) * t.d);
}

/// Reorders the seven-factor monomial arising from scaling one summand of
/// a rational sum.
proof fn lemma_scaled_mono(an: int, bd: int, tn: int, ad: int, td: int, od: int)
    ensures
        (an * bd) * (tn * ((ad * td) * (od * td))) == ((an * tn) * (od * td)) * ((ad * bd)
            * td),
{
    let w = (ad * td) * (od * td);
    crate::detlaws::lemma_assoc(an * bd, tn, w);
    assert((an * bd) * tn == (an * tn) * bd) by (nonlinear_arith);
    crate::detlaws::lemma_mul_subst_left((an * bd) * tn, (an * tn) * bd, w);
    crate::detlaws::lemma_assoc(an * tn, bd, w);
    assert(bd * ((ad * td) * (od * td)) == (od * td) * ((ad * bd) * td)) by (nonlinear_arith);
    crate::detlaws::lemma_mul_subst(an * tn, bd * w, (od * td) * ((ad * bd) * td));
    crate::detlaws::lemma_assoc(an * tn, od * td, (ad * bd) * td);
}

/// Distributes two opaque summands over a product with a shared factor.
proof fn lemma_dist2_three(s1: int, s2: int, tn: int, x: int)
    ensures
        ((s1 + s2) * tn) * x == s1 * (tn * x) + s2 * (tn * x),
{
    assert(((s1 + s2) * tn) * x == s1 * (tn * x) + s2 * (tn * x)) by (nonlinear_arith);
}

/// Distributes two opaque summands over a single factor.
proof fn lemma_dist2_plain(v1: int, v2: int, y: int)
    ensures
        (v1 + v2) * y == v1 * y + v2 * y,
{
    assert((v1 + v2) * y == v1 * y + v2 * y) by (nonlinear_arith);
}

/// The dot product of the normalization with itself, scaled by the squared
/// magnitude, recovers the original dot product in value.
proof fn lemma_norm_dot_back(v: TupVal, n: TupVal, s: Rat)
    requires
        tv_wf(v),
        tv_wf(n),
        rat_wf(s),
        s.n > 0,
        rat_eq(n.x, rat_div(v.x, s)),
        rat_eq(n.y, rat_div(v.y, s)),
        rat_eq(n.z, rat_div(v.z, s)),
        rat_eq(n.w, rat_div(v.w, s)),
    ensures
        rat_eq(rat_mul(tv_dot(n, n), rat_mul(s, s)), tv_dot(v, v)),
{
    let t = rat_mul(s, s);
    let m1 = rat_mul(n.x, n.x);
    let m2 = rat_mul(n.y, n.y);
    let m3 = rat_mul(n.z, n.z);
    let m4 = rat_mul(n.w, n.w);
    let v1 = rat_mul(v.x, v.x);
    let v2 = rat_mul(v.y, v.y);
    let v3 = rat_mul(v.z, v.z);
    let v4 = rat_mul(v.w, v.w);
    lemma_comp_square(n.x, s, v.x);
    lemma_comp_square(n.y, s, v.y);
    lemma_comp_square(n.z, s, v.z);
    lemma_comp_square(n.w, s, v.w);
    // distribute the scale over the four-term sum
    lemma_mul_add_dist(rat_add(rat_add(m1, m2), m3), m4, t);
    lemma_mul_add_dist(rat_add(m1, m2), m3, t);
    lemma_mul_add_dist(m1, m2, t);
    // rebuild the scaled sum from the recovered squared components
    lemma_req_add(rat_mul(m1, t), v1, rat_mul(m2, t), v2);
    lemma_req_add(rat_add(rat_mul(m1, t), rat_mul(m2, t)), rat_add(v1, v2), rat_mul(m3, t),
        v3);
    lemma_req_add(
        rat_add(rat_add(rat_mul(m1, t), rat_mul(m2, t)), rat_mul(m3, t)),
        rat_add(rat_add(v1, v2), v3),
        rat_mul(m4, t),
        v4,
    );
    // chain the three distributions and the rebuilt sum
    let pm12 = rat_add(rat_mul(m1, t), rat_mul(m2, t));
    let pm123 = rat_add(rat_mul(rat_add(m1, m2), t), rat_mul(m3, t));
    let pm123b = rat_add(pm12, rat_mul(m3, t));
    lemma_req_add(rat_mul(rat_add(m1, m2), t), pm12, rat_mul(m3, t), rat_mul(m3, t));
    lemma_req_add(rat_mul(rat_add(rat_add(m1, m2), m3), t), pm123, rat_mul(m4, t),
        rat_mul(m4, t));
    lemma_req_add(pm123, pm123b, rat_mul(m4, t), rat_mul(m4, t));
    lemma_tv_wf_sq(n, s);
    lemma_req_trans(
        rat_mul(tv_dot(n, n), t),
        rat_add(rat_mul(rat_add(rat_add(m1, m2), m3), t), rat_mul(m4, t)),
        rat_add(pm123, rat_mul(m4, t)),
    );
    lemma_req_trans(
        rat_mul(tv_dot(n, n), t),
        rat_add(pm123, rat_mul(m4, t)),
        rat_add(pm123b, rat_mul(m4, t)),
    );
    lemma_req_trans(
        rat_mul(tv_dot(n, n), t),
        rat_add(pm123b, rat_mul(m4, t)),
        tv_dot(v, v),
    );
}

/// Positive denominators of the intermediate scaled sums.
proof fn lemma_tv_wf_sq(n: TupVal, s: Rat)
    requires
        tv_wf(n),
        rat_wf(s),
    ensures
        rat_add(
            rat_mul(rat_add(rat_add(rat_mul(n.x, n.x), rat_mul(n.y, n.y)), rat_mul(n.z, n.z)),
                rat_mul(s, s)),
            rat_mul(rat_mul(n.w, n.w), rat_mul(s, s)),
        ).d > 0,
        rat_add(
            rat_add(rat_mul(rat_add(rat_mul(n.x, n.x), rat_mul(n.y, n.y)), rat_mul(s, s)),
                rat_mul(rat_mul(n.z, n.z), rat_mul(s, s))),
            rat_mul(rat_mul(n.w, n.w), rat_mul(s, s)),
        ).d > 0,
        rat_add(
            rat_add(
                rat_add(rat_mul(rat_mul(n.x, n.x), rat_mul(s, s)),
                    rat_mul(rat_mul(n.y, n.y), rat_mul(s, s))),
                rat_mul(rat_mul(n.z, n.z), rat_mul(s, s)),
            ),
            rat_mul(rat_mul(n.w, n.w), rat_mul(s, s)),
        ).d > 0,
{
    lemma_pos_mul(s.d, s.d);
    lemma_pos_mul(n.x.d, n.x.d);
    lemma_pos_mul(n.y.d, n.y.d);
    lemma_pos_mul(n.z.d, n.z.d);
    lemma_pos_mul(n.w.d, n.w.d);
    lemma_pos_mul(n.x.d * n.x.d, n.y.d * n.y.d);
    lemma_pos_mul((n.x.d * n.x.d) * (n.y.d * n.y.d), n.z.d * n.z.d);
    lemma_pos_mul(((n.x.d * n.x.d) * (n.y.d * n.y.d)) * (n.z.d * n.z.d), s.d * s.d);
    lemma_pos_mul(n.x.d * n.x.d, s.d * s.d);
    lemma_pos_mul(n.y.d * n.y.d, s.d * s.d);
    lemma_pos_mul(n.z.d * n.z.d, s.d * s.d);
    lemma_pos_mul(n.w.d * n.w.d, s.d * s.d);
    lemma_pos_mul((n.x.d * n.x.d) * (n.y.d * n.y.d), s.d * s.d);
    lemma_pos_mul((((n.x.d * n.x.d) * (n.y.d * n.y.d)) * (n.z.d * n.z.d)) * (s.d * s.d),
        (n.w.d * n.w.d) * (s.d * s.d));
    lemma_pos_mul((n.x.d * n.x.d) * (s.d * s.d), (n.y.d * n.y.d) * (s.d * s.d));
    lemma_pos_mul(((n.x.d * n.x.d) * (n.y.d * n.y.d)) * (s.d * s.d),
        (n.z.d * n.z.d) * (s.d * s.d));
    lemma_pos_mul(((n.x.d * n.x.d) * (s.d * s.d)) * ((n.y.d * n.y.d) * (s.d * s.d)),
        (n.z.d * n.z.d) * (s.d * s.d));
    lemma_pos_mul(
        (((n.x.d * n.x.d) * (s.d * s.d)) * ((n.y.d * n.y.d) * (s.d * s.d))) * ((n.z.d * n.z.d)
            * (s.d * s.d)),
        (n.w.d * n.w.d) * (s.d * s.d),
    );
    lemma_pos_mul(
        (((n.x.d * n.x.d) * (n.y.d * n.y.d)) * (s.d * s.d)) * ((n.z.d * n.z.d) * (s.d * s.d)),
        (n.w.d * n.w.d) * (s.d * s.d),
    );
}


/// Arithmetic of the dot-product stage caps: every intermediate bound sits
/// below the final cap.
proof fn lemma_dot_cap_arith(g1: int, g2: int)
    requires
        0 < g1,
        0 < g2,
    ensures
        1 <= g1 * g2,
        g1 * g2 <= 8 * (((g1 * g2) * (g1 * g2)) * ((g1 * g2) * (g1 * g2))),
        2 * ((g1 * g2) * (g1 * g2)) <= 8 * (((g1 * g2) * (g1 * g2)) * ((g1 * g2) * (g1 * g2))),
        2 * ((2 * ((g1 * g2) * (g1 * g2))) * (g1 * g2)) <= 8 * (((g1 * g2) * (g1 * g2)) * ((g1
            * g2) * (g1 * g2))),
        2 * ((2 * ((2 * ((g1 * g2) * (g1 * g2))) * (g1 * g2))) * (g1 * g2)) == 8 * (((g1 * g2)
            * (g1 * g2)) * ((g1 * g2) * (g1 * g2))),
        2 * ((g1 * g2) * (g1 * g2)) >= g1 * g2,
{
    let p = g1 * g2;
    assert(1 <= p && p <= 8 * ((p * p) * (p * p)) && 2 * (p * p) <= 8 * ((p * p) * (p * p))
        && 2 * ((2 * (p * p)) * p) <= 8 * ((p * p) * (p * p)) && 2 * ((2 * ((2 * (p * p)) * p))
        * p) == 8 * ((p * p) * (p * p)) && 2 * (p * p) >= p) by (nonlinear_arith)
        requires
            0 < g1,
            0 < g2,
            p == g1 * g2,
    ;
}

/// Carries the operand bounds through the four products and three sums of
/// the dot product, so that within-bound operands always answer.
proof fn lemma_dot_stage_bounds(
    a: Tup,
    b: Tup,
    r: Option<Scalar>,
    p0: Rat,
    p1: Rat,
    p2: Rat,
    p3: Rat,
    a0: Rat,
    a1: Rat,
    a2: Rat,
)
    requires
        forall|g1: int, g2: int|
            #![trigger rat_bounded(a.x@, g1), rat_bounded(b.x@, g2)]
            0 < g1 && 0 < g2 && rat_bounded(a.x@, g1) && rat_bounded(b.x@, g2) && g1 * g2
                <= MAX_COEF as int ==> rat_bounded(p0, g1 * g2),
        forall|g1: int, g2: int|
            #![trigger rat_bounded(a.y@, g1), rat_bounded(b.y@, g2)]
            0 < g1 && 0 < g2 && rat_bounded(a.y@, g1) && rat_bounded(b.y@, g2) && g1 * g2
                <= MAX_COEF as int ==> rat_bounded(p1, g1 * g2),
        forall|g1: int, g2: int|
            #![trigger rat_bounded(a.z@, g1), rat_bounded(b.z@, g2)]
            0 < g1 && 0 < g2 && rat_bounded(a.z@, g1) && rat_bounded(b.z@, g2) && g1 * g2
                <= MAX_COEF as int ==> rat_bounded(p2, g1 * g2),
        forall|g1: int, g2: int|
            #![trigger rat_bounded(a.w@, g1), rat_bounded(b.w@, g2)]
            0 < g1 && 0 < g2 && rat_bounded(a.w@, g1) && rat_bounded(b.w@, g2) && g1 * g2
                <= MAX_COEF as int ==> rat_bounded(p3, g1 * g2),
        forall|g1: int, g2: int|
            #![trigger rat_bounded(p0, g1), rat_bounded(p1, g2)]
            0 < g1 && 0 < g2 && rat_bounded(p0, g1) && rat_bounded(p1, g2) && 2 * (g1 * g2)
                <= MAX_COEF as int ==> rat_bounded(a0, 2 * (g1 * g2)),
        forall|g1: int, g2: int|
            #![trigger rat_bounded(a0, g1), rat_bounded(p2, g2)]
            0 < g1 && 0 < g2 && rat_bounded(a0, g1) && rat_bounded(p2, g2) && 2 * (g1 * g2)
                <= MAX_COEF as int ==> rat_bounded(a1, 2 * (g1 * g2)),
        forall|g1: int, g2: int|
            #![trigger rat_bounded(a1, g1), rat_bounded(p3, g2)]
            0 < g1 && 0 < g2 && rat_bounded(a1, g1) && rat_bounded(p3, g2) && 2 * (g1 * g2)
                <= MAX_COEF as int ==> rat_bounded(a2, 2 * (g1 * g2)),
        r matches Some(s) && s@ == a2,
    ensures
        forall|g1: int, g2: int|
            #![trigger tv_bounded(a@, g1), tv_bounded(b@, g2)]
            0 < g1 && 0 < g2 && tv_bounded(a@, g1) && tv_bounded(b@, g2) && 8 * (((g1 * g2) * (
            g1 * g2)) * ((g1 * g2) * (g1 * g2))) <= MAX_COEF as int ==> (r matches Some(s)
                && rat_bounded(s@, 8 * (((g1 * g2) * (g1 * g2)) * ((g1 * g2) * (g1 * g2))))),
{
    assert forall|g1: int, g2: int|
        0 < g1 && 0 < g2 && tv_bounded(a@, g1) && tv_bounded(b@, g2) && 8 * (((g1 * g2) * (g1
        * g2)) * ((g1 * g2) * (g1 * g2))) <= MAX_COEF as int implies (r matches Some(s)
        && rat_bounded(s@, 8 * (((g1 * g2) * (g1 * g2)) * ((g1 * g2) * (g1 * g2))))) by {
        let p = g1 * g2;
        let cap = 8 * ((p * p) * (p * p));
        assert(rat_bounded(a.x@, g1) && rat_bounded(a.y@, g1) && rat_bounded(a.z@, g1)
            && rat_bounded(a.w@, g1));
        assert(rat_bounded(b.x@, g2) && rat_bounded(b.y@, g2) && rat_bounded(b.z@, g2)
            && rat_bounded(b.w@, g2));
        assert(1 <= p && p <= cap && 2 * (p * p) <= cap && 2 * ((2 * (p * p)) * p) <= cap && 2
            * ((2 * ((2 * (p * p)) * p)) * p) == cap) by (nonlinear_arith)
            requires
                0 < g1,
                0 < g2,
                p == g1 * g2,
                cap == 8 * ((p * p) * (p * p)),
        ;
        assert(rat_bounded(p0, p) && rat_bounded(p1, p) && rat_bounded(p2, p) && rat_bounded(
            p3, p));
        assert(rat_bounded(a0, 2 * (p * p)));
        assert(rat_bounded(a1, 2 * ((2 * (p * p)) * p)));
        assert(rat_bounded(a2, 2 * ((2 * ((2 * (p * p)) * p)) * p)));
    }
}

/// Facts about a bracketed magnitude of a bounded tuple whose squared
/// magnitude is at least one: the magnitude is a positive grid rational
/// within a computable bound, so every componentwise quotient by it fits.
proof fn lemma_norm_mag_facts(v: TupVal, m: Rat, g: int)
    requires
        tv_wf(v),
        rat_wf(m),
        0 < g,
        tv_bounded(v, g),
        rat_le(rat_zero(), m),
        rat_le(rat_mul(m, m), tv_dot(v, v)),
        rat_lt(tv_dot(v, v), rat_mul(rat_add(m, sqrt_eps()), rat_add(m, sqrt_eps()))),
        m.d <= SQRT_DEN as int,
        rat_le(rat_one(), tv_dot(v, v)),
    ensures
        m.n >= 1,
        rat_bounded(m, (3 * ((g * g) * (g * g))) * (SQRT_DEN as int)),
{
    let dv = tv_dot(v, v);
    let kk = SQRT_DEN as int;
    lemma_tv_dot_wf(v, v);
    // bound the unreduced dot numerator and denominator
    lemma_mul_bound(v.x.n, v.x.n, g, g);
    lemma_mul_bound(v.y.n, v.y.n, g, g);
    lemma_mul_bound(v.z.n, v.z.n, g, g);
    lemma_mul_bound(v.w.n, v.w.n, g, g);
    lemma_mul_bound(v.x.d, v.x.d, g, g);
    lemma_mul_bound(v.y.d, v.y.d, g, g);
    lemma_mul_bound(v.z.d, v.z.d, g, g);
    lemma_mul_bound(v.w.d, v.w.d, g, g);
    let m1 = rat_mul(v.x, v.x);
    let m2 = rat_mul(v.y, v.y);
    let m3 = rat_mul(v.z, v.z);
    let m4 = rat_mul(v.w, v.w);
    let a0 = rat_add(m1, m2);
    let a1 = rat_add(a0, m3);
    lemma_mul_bound(m1.n, m2.d, g * g, g * g);
    lemma_mul_bound(m2.n, m1.d, g * g, g * g);
    lemma_mul_bound(m1.d, m2.d, g * g, g * g);
    lemma_mul_bound(a0.n, m3.d, 2 * ((g * g) * (g * g)), g * g);
    lemma_mul_bound(m3.n, a0.d, g * g, (g * g) * (g * g));
    lemma_mul_bound(a0.d, m3.d, (g * g) * (g * g), g * g);
    assert((2 * ((g * g) * (g * g))) * (g * g) + (g * g) * ((g * g) * (g * g)) == 3 * (((g * g)
        * (g * g)) * (g * g))) by (nonlinear_arith);
    lemma_mul_bound(a1.n, m4.d, 3 * (((g * g) * (g * g)) * (g * g)), g * g);
    lemma_mul_bound(m4.n, a1.d, g * g, ((g * g) * (g * g)) * (g * g));
    lemma_mul_bound(a1.d, m4.d, ((g * g) * (g * g)) * (g * g), g * g);
    assert(abs_int(dv.n) <= 4 * (((g * g) * (g * g)) * ((g * g) * (g * g)))
        && 1 <= dv.d) by (nonlinear_arith)
        requires
            0 < g,
            abs_int(dv.n) <= 3 * (((g * g) * (g * g)) * (g * g)) * (g * g) + (g * g) * (((g
                * g) * (g * g)) * (g * g)),
            dv.d >= 1,
    ;
    // the magnitude is nonzero: a zero magnitude would put the squared
    // magnitude below the squared grid step, yet it is at least one
    assert(m.n >= 0);
    if m.n == 0 {
        let se = rat_add(m, sqrt_eps());
        assert(se.n == m.d && se.d == m.d * kk) by {
            assert(sqrt_eps().n == 1 && sqrt_eps().d == kk);
        }
        assert(false) by (nonlinear_arith)
            requires
                dv.n * ((m.d * kk) * (m.d * kk)) < (m.d * m.d) * dv.d,
                dv.d <= dv.n,
                m.d >= 1,
                kk >= 2,
                dv.d >= 1,
        ;
    }
    // the magnitude numerator fits the stated bound
    assert(m.n * m.n <= (4 * (((g * g) * (g * g)) * ((g * g) * (g * g)))) * (kk * kk))
        by (nonlinear_arith)
        requires
            (m.n * m.n) * dv.d <= dv.n * (m.d * m.d),
            dv.n <= 4 * (((g * g) * (g * g)) * ((g * g) * (g * g))),
            dv.d >= 1,
            1 <= m.d <= kk,
            m.n >= 1,
    ;
    assert(m.n <= (3 * ((g * g) * (g * g))) * kk && m.d <= (3 * ((g * g) * (g * g))) * kk)
        by (nonlinear_arith)
        requires
            m.n * m.n <= (4 * (((g * g) * (g * g)) * ((g * g) * (g * g)))) * (kk * kk),
            m.n >= 1,
            1 <= m.d <= kk,
            g >= 1,
            kk >= 1,
    ;
}

/// Law: normalizing a vector yields a tuple of magnitude one, up to the
/// comparison tolerance. `s` is the vector's magnitude (as `mag` brackets
/// it), `n` the normalization (componentwise quotient by `s`), and `u` the
/// magnitude of `n`; then `u` differs from one by at most 1/100000. Squared
/// magnitudes under one hundredth are excluded: there the root grid is too
/// coarse for the claim.
pub proof fn lemma_norm_unit_magnitude(v: TupVal, n: TupVal, s: Rat, u: Rat)
    requires
        tv_wf(v),
        tv_wf(n),
        rat_wf(s),
        rat_wf(u),
        rat_lt(rat_zero(), s),
        rat_le(rat_mul(s, s), tv_dot(v, v)),
        rat_lt(tv_dot(v, v), rat_mul(rat_add(s, sqrt_eps()), rat_add(s, sqrt_eps()))),
        rat_eq(n.x, rat_div(v.x, s)),
        rat_eq(n.y, rat_div(v.y, s)),
        rat_eq(n.z, rat_div(v.z, s)),
        rat_eq(n.w, rat_div(v.w, s)),
        rat_le(rat_zero(), u),
        rat_le(rat_mul(u, u), tv_dot(n, n)),
        rat_lt(tv_dot(n, n), rat_mul(rat_add(u, sqrt_eps()), rat_add(u, sqrt_eps()))),
        rat_le(Rat { n: 1, d: 100 }, tv_dot(v, v)),
    ensures
        rat_approx_eq(u, rat_one()),
{
    assert(s.n > 0) by (nonlinear_arith)
        requires
            0 * s.d < s.n * 1,
    ;
    assert(u.n >= 0) by (nonlinear_arith)
        requires
            0 * u.d <= u.n * 1,
    ;
    lemma_norm_dot_back(v, n, s);
    lemma_tv_dot_wf(v, v);
    lemma_tv_dot_wf(n, n);
    lemma_unit_bracket(tv_dot(v, v), tv_dot(n, n), s, u);
}

/// The numeric heart of the unit-magnitude law: if the square of `s`
/// brackets `m`, the square of `u` brackets `q`, and `q` scaled by the
/// square of `s` is `m`, with `m` at least one hundredth, then `u` is
/// within the comparison tolerance of one.
proof fn lemma_unit_bracket(m: Rat, q: Rat, s: Rat, u: Rat)
    requires
        rat_wf(m),
        rat_wf(q),
        rat_wf(s),
        rat_wf(u),
        s.n > 0,
        u.n >= 0,
        rat_eq(rat_mul(q, rat_mul(s, s)), m),
        rat_le(rat_mul(s, s), m),
        rat_lt(m, rat_mul(rat_add(s, sqrt_eps()), rat_add(s, sqrt_eps()))),
        rat_le(rat_mul(u, u), q),
        rat_lt(q, rat_mul(rat_add(u, sqrt_eps()), rat_add(u, sqrt_eps()))),
        rat_le(Rat { n: 1, d: 100 }, m),
    ensures
        rat_approx_eq(u, rat_one()),
{
    let kk = SQRT_DEN as int;
    let tt = crate::scalar::TOL_DEN as int;
    // one is at most q
    assert(q.d <= q.n) by (nonlinear_arith)
        requires
            (q.n * (s.n * s.n)) * m.d == m.n * (q.d * (s.d * s.d)),
            (s.n * s.n) * m.d <= m.n * (s.d * s.d),
            s.n > 0,
            m.d >= 1,
            s.d >= 1,
            q.d >= 1,
    ;
    // the upper bracket of q exceeds one
    assert((u.d * kk) * (u.d * kk) < (u.n * kk + u.d) * (u.n * kk + u.d)) by (nonlinear_arith)
        requires
            q.n * ((u.d * kk) * (u.d * kk)) < ((u.n * kk + u.d) * (u.n * kk + u.d)) * q.d,
            q.d <= q.n,
            q.d >= 1,
    ;
    // so its root exceeds one as well
    assert(u.d * kk < u.n * kk + u.d) by (nonlinear_arith)
        requires
            (u.d * kk) * (u.d * kk) < (u.n * kk + u.d) * (u.n * kk + u.d),
            u.d >= 1,
            u.n >= 0,
            kk >= 1,
    ;
    // hence the lower side of the tolerance band
    assert((u.d - u.n) * tt <= u.d) by (nonlinear_arith)
        requires
            u.d * kk < u.n * kk + u.d,
            u.d >= 1,
            kk == 100 * tt,
            tt >= 1,
    ;
    // the upper side, by contradiction
    if (u.n - u.d) * tt > u.d {
        // u exceeds one plus the tolerance, so its square does too
        assert((u.n * tt) * (u.n * tt) > (u.d * (tt + 1)) * (u.d * (tt + 1)))
            by (nonlinear_arith)
            requires
                u.n * tt > u.d * (tt + 1),
                u.d >= 1,
                tt >= 1,
        ;
        // so q exceeds the squared band edge
        assert(q.n * (tt * tt) > ((tt + 1) * (tt + 1)) * q.d) by (nonlinear_arith)
            requires
                (u.n * u.n) * q.d <= q.n * (u.d * u.d),
                (u.n * tt) * (u.n * tt) > (u.d * (tt + 1)) * (u.d * (tt + 1)),
                u.d >= 1,
                q.d >= 1,
                tt >= 1,
        ;
        // carrying the band through the scale brackets the magnitude root
        assert(((tt + 1) * (tt + 1)) * ((s.n * s.n) * m.d) < (tt * tt) * (m.n * (s.d * s.d)))
            by (nonlinear_arith)
            requires
                q.n * (tt * tt) > ((tt + 1) * (tt + 1)) * q.d,
                (q.n * (s.n * s.n)) * m.d == m.n * (q.d * (s.d * s.d)),
                s.n > 0,
                s.d >= 1,
                m.d >= 1,
                q.d >= 1,
                tt >= 1,
        ;
        assert(s.n * (100 * tt) < tt * s.d) by (nonlinear_arith)
            requires
                ((tt + 1) * (tt + 1)) * ((s.n * s.n) * m.d) < (tt * tt) * (m.n * (s.d * s.d)),
                m.n * ((s.d * kk) * (s.d * kk)) < ((s.n * kk + s.d) * (s.n * kk + s.d)) * m.d,
                kk == 100 * tt,
                s.n > 0,
                s.d >= 1,
                m.d >= 1,
                tt >= 1,
        ;
        assert(s.n * 100 < s.d) by (nonlinear_arith)
            requires
                s.n * (100 * tt) < tt * s.d,
                tt >= 1,
        ;
        // a root below one hundredth contradicts the magnitude floor
        assert(s.n * kk + s.d < s.d * (tt + 1)) by (nonlinear_arith)
            requires
                s.n * 100 < s.d,
                kk == 100 * tt,
                tt >= 1,
                s.d >= 1,
        ;
        assert((s.n * kk + s.d) * (s.n * kk + s.d) < (s.d * (tt + 1)) * (s.d * (tt + 1)))
            by (nonlinear_arith)
            requires
                s.n * kk + s.d < s.d * (tt + 1),
                s.n >= 0,
                s.d >= 1,
                kk >= 1,
                tt >= 1,
        ;
        assert(m.n * (kk * kk) < ((tt + 1) * (tt + 1)) * m.d) by (nonlinear_arith)
            requires
                m.n * ((s.d * kk) * (s.d * kk)) < ((s.n * kk + s.d) * (s.n * kk + s.d)) * m.d,
                (s.n * kk + s.d) * (s.n * kk + s.d) < (s.d * (tt + 1)) * (s.d * (tt + 1)),
                s.d >= 1,
                m.d >= 1,
                m.n >= 0,
        ;
        assert(false) by (nonlinear_arith)
            requires
                m.n * (kk * kk) < ((tt + 1) * (tt + 1)) * m.d,
                1 * m.d <= m.n * 100,
                m.d >= 1,
                kk == 100 * tt,
                tt == 100000,
        ;
    }
    assert(abs_int(u.n * 1 - 1 * u.d) * tt <= u.d * 1);
}

} // verus!
