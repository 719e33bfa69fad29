//! The unit sphere: centered at the origin with radius one in its own
//! object space, carrying one object-to-world transform.

use vstd::prelude::*;
use crate::scalar::{
    Scalar, Rat, rat_eq, rat_add, rat_sub, rat_mul, rat_neg, rat_div, rat_le, rat_lt, rat_zero,
    rat_one, rat_int, rat_wf, sc_ok, lemma_pos_mul, lemma_req_add, lemma_req_sub, lemma_req_mul,
    lemma_req_trans, lemma_req_le, lemma_req_lt,
};
use crate::matrix::{Matrix4x4, MatVal, mv_entry, mv_wf, mv_det4, mv_cof4, m4_ok, mv_is_identity};
use crate::tup::{Point, TupVal, tv_wf, tv_dot, mv_row, is_point_val,
    is_vector_val, lemma_tv_dot_wf};
use crate::rays::{Ray, ray_ok};
use crate::intersection::{Intersection, Intersections, xs_ok};
use crate::roots::sqrt_eps;

verus! {

/// A unit sphere with its object-to-world transform.
#[derive(Clone, Copy, PartialEq, Debug)]
pub struct Sphere {
    pub transform: Matrix4x4,
}

/// Well-formedness of a sphere.
pub open spec fn sphere_ok(s: Sphere) -> bool {
    m4_ok(s.transform)
}

impl Sphere {
    /// The unit sphere in world space: identity transform.
    pub fn new() -> (r: Sphere)
        ensures
            sphere_ok(r),
            mv_is_identity(r.transform@),
    {
        Sphere { transform: Matrix4x4::identity() }
    }

    /// A unit sphere carrying the given object-to-world transform.
    pub fn with_transform(transform: Matrix4x4) -> (r: Sphere)
        requires
            m4_ok(transform),
        ensures
            sphere_ok(r),
            r.transform == transform,
    {
        Sphere { transform }
    }
}


/// Row `i` of the inverse of `m`, written with the transposed-cofactor
/// entries over the (possibly negative) determinant; value equal to the
/// computed inverse's row whenever the inverse exists.
pub open spec fn inv_row(m: MatVal, i: int) -> TupVal {
    TupVal {
        x: Rat { n: mv_cof4(m, 0, i) * m.d, d: mv_det4(m) },
        y: Rat { n: mv_cof4(m, 1, i) * m.d, d: mv_det4(m) },
        z: Rat { n: mv_cof4(m, 2, i) * m.d, d: mv_det4(m) },
        w: Rat { n: mv_cof4(m, 3, i) * m.d, d: mv_det4(m) },
    }
}

/// A tuple carried into the sphere's object space by the inverse of `m`.
pub open spec fn sp_tx(m: MatVal, t: TupVal) -> TupVal {
    TupVal {
        x: tv_dot(inv_row(m, 0), t),
        y: tv_dot(inv_row(m, 1), t),
        z: tv_dot(inv_row(m, 2), t),
        w: tv_dot(inv_row(m, 3), t),
    }
}

/// The object-space vector from the sphere's center to the ray origin.
pub open spec fn sp_s2r(o2: TupVal) -> TupVal {
    TupVal {
        x: rat_sub(o2.x, rat_zero()),
        y: rat_sub(o2.y, rat_zero()),
        z: rat_sub(o2.z, rat_zero()),
        w: rat_sub(o2.w, rat_one()),
    }
}

/// Leading quadratic coefficient of the object-space intersection.
pub open spec fn sp_a(m: MatVal, d: TupVal) -> Rat {
    tv_dot(sp_tx(m, d), sp_tx(m, d))
}

/// Linear quadratic coefficient.
pub open spec fn sp_b(m: MatVal, o: TupVal, d: TupVal) -> Rat {
    rat_mul(rat_int(2), tv_dot(sp_tx(m, d), sp_s2r(sp_tx(m, o))))
}

/// Constant quadratic coefficient.
pub open spec fn sp_c(m: MatVal, o: TupVal) -> Rat {
    rat_sub(tv_dot(sp_s2r(sp_tx(m, o)), sp_s2r(sp_tx(m, o))), rat_one())
}

/// Discriminant of the object-space intersection quadratic.
pub open spec fn sp_disc(m: MatVal, o: TupVal, d: TupVal) -> Rat {
    rat_sub(
        rat_mul(sp_b(m, o, d), sp_b(m, o, d)),
        rat_mul(rat_int(4), rat_mul(sp_a(m, d), sp_c(m, o))),
    )
}

/// Dot products agree when both factors agree in value componentwise.
proof fn lemma_dot_congr2(a: TupVal, a2: TupVal, b: TupVal, b2: TupVal)
    requires
        rat_eq(a.x, a2.x),
        rat_eq(a.y, a2.y),
        rat_eq(a.z, a2.z),
        rat_eq(a.w, a2.w),
        rat_eq(b.x, b2.x),
        rat_eq(b.y, b2.y),
        rat_eq(b.z, b2.z),
        rat_eq(b.w, b2.w),
    ensures
        rat_eq(tv_dot(a, b), tv_dot(a2, b2)),
{
    lemma_req_mul(a.x, a2.x, b.x, b2.x);
    lemma_req_mul(a.y, a2.y, b.y, b2.y);
    lemma_req_mul(a.z, a2.z, b.z, b2.z);
    lemma_req_mul(a.w, a2.w, b.w, b2.w);
    lemma_req_add(rat_mul(a.x, b.x), rat_mul(a2.x, b2.x), rat_mul(a.y, b.y),
        rat_mul(a2.y, b2.y));
    lemma_req_add(
        rat_add(rat_mul(a.x, b.x), rat_mul(a.y, b.y)),
        rat_add(rat_mul(a2.x, b2.x), rat_mul(a2.y, b2.y)),
        rat_mul(a.z, b.z),
        rat_mul(a2.z, b2.z),
    );
    lemma_req_add(
        rat_add(rat_add(rat_mul(a.x, b.x), rat_mul(a.y, b.y)), rat_mul(a.z, b.z)),
        rat_add(rat_add(rat_mul(a2.x, b2.x), rat_mul(a2.y, b2.y)), rat_mul(a2.z, b2.z)),
        rat_mul(a.w, b.w),
        rat_mul(a2.w, b2.w),
    );
}

/// The denominator of a dot against an inverse row is a fourth power of
/// the determinant times positives, hence positive.
proof fn lemma_dot_den_pos(dd: int, a: int, b: int, c: int, e: int)
    requires
        dd != 0,
        a > 0,
        b > 0,
        c > 0,
        e > 0,
    ensures
        (((dd * a) * (dd * b)) * (dd * c)) * (dd * e) > 0,
{
    assert((dd * a) * (dd * b) > 0) by (nonlinear_arith)
        requires
            dd != 0,
            a > 0,
            b > 0,
    ;
    assert((dd * c) * (dd * e) > 0) by (nonlinear_arith)
        requires
            dd != 0,
            c > 0,
            e > 0,
    ;
    assert((((dd * a) * (dd * b)) * (dd * c)) * (dd * e) > 0) by (nonlinear_arith)
        requires
            (dd * a) * (dd * b) > 0,
            (dd * c) * (dd * e) > 0,
    ;
}

/// Well-formedness of the whole quadratic pipeline when the transform is
/// nonsingular.
proof fn lemma_pipeline_wf(m: MatVal, o: TupVal, d: TupVal)
    requires
        mv_wf(m, 4),
        mv_det4(m) != 0,
        tv_wf(o),
        tv_wf(d),
    ensures
        rat_wf(sp_tx(m, o).x),
        rat_wf(sp_tx(m, o).y),
        rat_wf(sp_tx(m, o).z),
        rat_wf(sp_tx(m, o).w),
        tv_wf(sp_tx(m, o)),
        tv_wf(sp_tx(m, d)),
        tv_wf(sp_s2r(sp_tx(m, o))),
        rat_wf(sp_a(m, d)),
        rat_wf(tv_dot(sp_tx(m, d), sp_s2r(sp_tx(m, o)))),
        rat_wf(sp_b(m, o, d)),
        rat_wf(tv_dot(sp_s2r(sp_tx(m, o)), sp_s2r(sp_tx(m, o)))),
        rat_wf(sp_c(m, o)),
        rat_wf(rat_mul(sp_b(m, o, d), sp_b(m, o, d))),
        rat_wf(rat_mul(sp_a(m, d), sp_c(m, o))),
        rat_wf(sp_disc(m, o, d)),
{
    let dd = mv_det4(m);
    lemma_dot_den_pos(dd, o.x.d, o.y.d, o.z.d, o.w.d);
    lemma_dot_den_pos(dd, d.x.d, d.y.d, d.z.d, d.w.d);
    assert(tv_dot(inv_row(m, 0), o).d == (((dd * o.x.d) * (dd * o.y.d)) * (dd * o.z.d)) * (dd
        * o.w.d));
    assert(tv_dot(inv_row(m, 1), o).d == (((dd * o.x.d) * (dd * o.y.d)) * (dd * o.z.d)) * (dd
        * o.w.d));
    assert(tv_dot(inv_row(m, 2), o).d == (((dd * o.x.d) * (dd * o.y.d)) * (dd * o.z.d)) * (dd
        * o.w.d));
    assert(tv_dot(inv_row(m, 3), o).d == (((dd * o.x.d) * (dd * o.y.d)) * (dd * o.z.d)) * (dd
        * o.w.d));
    assert(tv_dot(inv_row(m, 0), d).d == (((dd * d.x.d) * (dd * d.y.d)) * (dd * d.z.d)) * (dd
        * d.w.d));
    assert(tv_dot(inv_row(m, 1), d).d == (((dd * d.x.d) * (dd * d.y.d)) * (dd * d.z.d)) * (dd
        * d.w.d));
    assert(tv_dot(inv_row(m, 2), d).d == (((dd * d.x.d) * (dd * d.y.d)) * (dd * d.z.d)) * (dd
        * d.w.d));
    assert(tv_dot(inv_row(m, 3), d).d == (((dd * d.x.d) * (dd * d.y.d)) * (dd * d.z.d)) * (dd
        * d.w.d));
    let o2 = sp_tx(m, o);
    let d2 = sp_tx(m, d);
    let s2r = sp_s2r(o2);
    assert(rat_zero().d == 1);
    assert(rat_one().d == 1);
    assert(s2r.x.d == o2.x.d * 1);
    assert(s2r.y.d == o2.y.d * 1);
    assert(s2r.z.d == o2.z.d * 1);
    assert(s2r.w.d == o2.w.d * 1);
    lemma_mul_one(o2.x.d);
    lemma_mul_one(o2.y.d);
    lemma_mul_one(o2.z.d);
    lemma_mul_one(o2.w.d);
    assert(tv_wf(s2r));
    lemma_tv_dot_wf(d2, d2);
    lemma_tv_dot_wf(d2, s2r);
    lemma_tv_dot_wf(s2r, s2r);
    lemma_one_mul(tv_dot(d2, s2r).d);
    lemma_mul_one(tv_dot(s2r, s2r).d);
    lemma_pos_mul(sp_b(m, o, d).d, sp_b(m, o, d).d);
    lemma_pos_mul(sp_a(m, d).d, sp_c(m, o).d);
    lemma_one_mul(rat_mul(sp_a(m, d), sp_c(m, o)).d);
    lemma_pos_mul(
        rat_mul(sp_b(m, o, d), sp_b(m, o, d)).d,
        rat_mul(rat_int(4), rat_mul(sp_a(m, d), sp_c(m, o))).d,
    );
}

/// Multiplying by one changes nothing.
proof fn lemma_mul_one(x: int)
    ensures
        x * 1 == x,
{
}

/// One times anything is itself.
proof fn lemma_one_mul(x: int)
    ensures
        1 * x == x,
{
}

/// Multiplying a quotient back by its (nonzero) divisor recovers the
/// dividend in value.
proof fn lemma_div_cancel(t: Rat, u: Rat, ta: Rat)
    requires
        rat_wf(t),
        rat_wf(u),
        rat_wf(ta),
        ta.n != 0,
        rat_eq(t, rat_div(u, ta)),
    ensures
        rat_eq(rat_mul(t, ta), u),
{
    if ta.n > 0 {
        assert((t.n * ta.n) * u.d == u.n * (t.d * ta.d)) by (nonlinear_arith)
            requires
                t.n * (u.d * ta.n) == (u.n * ta.d) * t.d,
                ta.n > 0,
                ta.d > 0,
                u.d > 0,
                t.d > 0,
        ;
    } else {
        assert((t.n * ta.n) * u.d == u.n * (t.d * ta.d)) by (nonlinear_arith)
            requires
                t.n * (-(u.d * ta.n)) == (-(u.n * ta.d)) * t.d,
                ta.n < 0,
                ta.d > 0,
                u.d > 0,
                t.d > 0,
        ;
    }
}

/// The root below center is at most the root above it.
proof fn lemma_sub_le_add(nb: Rat, s: Rat)
    requires
        rat_wf(nb),
        rat_wf(s),
        rat_le(rat_zero(), s),
    ensures
        rat_le(rat_sub(nb, s), rat_add(nb, s)),
{
    assert(s.n >= 0) by (nonlinear_arith)
        requires
            0 * s.d <= s.n * 1,
    ;
    assert((nb.n * s.d - s.n * nb.d) * (nb.d * s.d) <= (nb.n * s.d + s.n * nb.d) * (nb.d
        * s.d)) by (nonlinear_arith)
        requires
            s.n >= 0,
            nb.d > 0,
            s.d > 0,
    ;
}

/// Cancels a positive common factor from an order between products.
proof fn lemma_cancel_pos_factor(t0: Rat, t1: Rat, ta: Rat)
    requires
        rat_wf(t0),
        rat_wf(t1),
        rat_wf(ta),
        rat_lt(rat_zero(), ta),
        rat_le(rat_mul(t0, ta), rat_mul(t1, ta)),
    ensures
        rat_le(t0, t1),
{
    assert(ta.n > 0) by (nonlinear_arith)
        requires
            0 * ta.d < ta.n * 1,
    ;
    assert(t0.n * t1.d <= t1.n * t0.d) by (nonlinear_arith)
        requires
            (t0.n * ta.n) * (t1.d * ta.d) <= (t1.n * ta.n) * (t0.d * ta.d),
            ta.n > 0,
            ta.d > 0,
            t0.d > 0,
            t1.d > 0,
    ;
}

impl Sphere {
    /// Intersects a ray with the sphere. The ray is carried into object
    /// space by the inverse transform and the canonical quadratic is
    /// solved exactly: a sphere whose transform is singular, a degenerate
    /// direction, or a negative discriminant yields no record; otherwise
    /// exactly two records come back in ascending parameter order, whose
    /// parameters satisfy `t * 2a = -b -/+ sq` for a square root bracket
    /// `sq` of the discriminant. `None` marks only an arithmetic bound.
    pub fn intersect(&self, ray: Ray) -> (r: Option<Intersections>)
        requires
            sphere_ok(*self),
            ray_ok(ray),
        ensures
            r matches Some(xs) ==> xs_ok(xs.xs@) && forall|i: int|
                0 <= i < xs.xs@.len() ==> (#[trigger] xs.xs@[i]).object == *self,
            r matches Some(xs) ==> (mv_det4(self.transform@) == 0 ==> xs.xs@.len() == 0),
            r matches Some(xs) ==> (mv_det4(self.transform@) != 0 && rat_eq(
                sp_a(self.transform@, ray.direction@),
                rat_zero(),
            ) ==> xs.xs@.len() == 0),
            r matches Some(xs) ==> (mv_det4(self.transform@) != 0 && !rat_eq(
                sp_a(self.transform@, ray.direction@),
                rat_zero(),
            ) && rat_lt(sp_disc(self.transform@, ray.origin@, ray.direction@), rat_zero())
                ==> xs.xs@.len() == 0),
            r matches Some(xs) ==> (mv_det4(self.transform@) != 0 && !rat_eq(
                sp_a(self.transform@, ray.direction@),
                rat_zero(),
            ) && !rat_lt(sp_disc(self.transform@, ray.origin@, ray.direction@), rat_zero())
                ==> xs.xs@.len() == 2 && rat_le(xs.xs@[0].t@, xs.xs@[1].t@) && exists|sq: Rat|
                {
                    let m = self.transform@;
                    let o = ray.origin@;
                    let d = ray.direction@;
                    &&& #[trigger] rat_wf(sq)
                    &&& rat_le(rat_zero(), sq)
                    &&& rat_le(rat_mul(sq, sq), sp_disc(m, o, d))
                    &&& rat_lt(
                        sp_disc(m, o, d),
                        rat_mul(
                            rat_add(sq, crate::roots::sqrt_eps()),
                            rat_add(sq, crate::roots::sqrt_eps()),
                        ),
                    )
                    &&& rat_eq(
                        rat_mul(xs.xs@[0].t@, rat_mul(rat_int(2), sp_a(m, d))),
                        rat_sub(rat_neg(sp_b(m, o, d)), sq),
                    )
                    &&& rat_eq(
                        rat_mul(xs.xs@[1].t@, rat_mul(rat_int(2), sp_a(m, d))),
                        rat_add(rat_neg(sp_b(m, o, d)), sq),
                    )
                }),
    {
        let ghost m = self.transform@;
        let ghost o = ray.origin@;
        let ghost d = ray.direction@;
        let det_s = match self.transform.determinant() {
            Some(v) => v,
            None => {
                return None;
            },
        };
        let ghost d4 = ((m.d * m.d) * m.d) * m.d;
        proof {
            lemma_pos_mul(m.d, m.d);
            lemma_pos_mul(m.d * m.d, m.d);
            lemma_pos_mul((m.d * m.d) * m.d, m.d);
        }
        if det_s.eq_rat(&Scalar::from_int(0)) {
            proof {
                assert(mv_det4(m) == 0) by (nonlinear_arith)
                    requires
                        det_s@.n * 1 == 0 * det_s@.d,
                        det_s@.n * d4 == mv_det4(m) * det_s@.d,
                        det_s@.d > 0,
                        d4 > 0,
                ;
            }
            return Some(Intersections::new(vec![]));
        }
        proof {
            assert(mv_det4(m) != 0) by (nonlinear_arith)
                requires
                    det_s@.n * 1 != 0 * det_s@.d,
                    det_s@.n * (((m.d * m.d) * m.d) * m.d) == mv_det4(m) * det_s@.d,
                    det_s@.d > 0,
                    (((m.d * m.d) * m.d) * m.d) > 0,
            ;
            lemma_pipeline_wf(m, o, d);
        }
        let inv = match self.transform.inverse() {
            Some(v) => v,
            None => {
                return None;
            },
        };
        let r2 = match ray.transform(&inv) {
            Some(v) => v,
            None => {
                return None;
            },
        };
        proof {
            lemma_tx_links(m, inv@, o, r2.origin@);
            lemma_tx_links(m, inv@, d, r2.direction@);
        }
        let zero = Scalar::from_int(0);
        let one = Scalar::from_int(1);
        let o_pt = Point::new(zero, zero, zero);
        let s2r = match r2.origin.sub(o_pt) {
            Some(v) => v,
            None => {
                return None;
            },
        };
        proof {
            lemma_s2r_links(m, o, r2.origin@, s2r@);
        }
        let a_s = match r2.direction.dot(r2.direction) {
            Some(v) => v,
            None => {
                return None;
            },
        };
        let dotds = match r2.direction.dot(s2r) {
            Some(v) => v,
            None => {
                return None;
            },
        };
        let two = Scalar::from_int(2);
        let b_s = match two.mul(&dotds) {
            Some(v) => v,
            None => {
                return None;
            },
        };
        let dss = match s2r.dot(s2r) {
            Some(v) => v,
            None => {
                return None;
            },
        };
        let c_s = match dss.sub(&one) {
            Some(v) => v,
            None => {
                return None;
            },
        };
        let b2 = match b_s.mul(&b_s) {
            Some(v) => v,
            None => {
                return None;
            },
        };
        let four = Scalar::from_int(4);
        let ac = match a_s.mul(&c_s) {
            Some(v) => v,
            None => {
                return None;
            },
        };
        let fac = match four.mul(&ac) {
            Some(v) => v,
            None => {
                return None;
            },
        };
        let disc_s = match b2.sub(&fac) {
            Some(v) => v,
            None => {
                return None;
            },
        };
        proof {
            let d2e = r2.direction@;
            let s2re = s2r@;
            let d2s = sp_tx(m, d);
            let s2rs = sp_s2r(sp_tx(m, o));
            lemma_dot_congr2(d2e, d2s, d2e, d2s);
            lemma_tv_dot_wf(d2e, d2e);
            lemma_req_trans(a_s@, tv_dot(d2e, d2e), sp_a(m, d));
            lemma_dot_congr2(d2e, d2s, s2re, s2rs);
            lemma_tv_dot_wf(d2e, s2re);
            lemma_req_trans(dotds@, tv_dot(d2e, s2re), tv_dot(d2s, s2rs));
            lemma_req_mul(two@, rat_int(2), dotds@, tv_dot(d2s, s2rs));
            lemma_pos_mul(two@.d, dotds@.d);
            lemma_req_trans(b_s@, rat_mul(two@, dotds@), sp_b(m, o, d));
            lemma_dot_congr2(s2re, s2rs, s2re, s2rs);
            lemma_tv_dot_wf(s2re, s2re);
            lemma_req_trans(dss@, tv_dot(s2re, s2re), tv_dot(s2rs, s2rs));
            lemma_req_sub(dss@, tv_dot(s2rs, s2rs), one@, rat_one());
            lemma_pos_mul(dss@.d, one@.d);
            lemma_req_trans(c_s@, rat_sub(dss@, one@), sp_c(m, o));
            lemma_req_mul(b_s@, sp_b(m, o, d), b_s@, sp_b(m, o, d));
            lemma_pos_mul(b_s@.d, b_s@.d);
            lemma_req_trans(b2@, rat_mul(b_s@, b_s@), rat_mul(sp_b(m, o, d), sp_b(m, o, d)));
            lemma_req_mul(a_s@, sp_a(m, d), c_s@, sp_c(m, o));
            lemma_pos_mul(a_s@.d, c_s@.d);
            lemma_req_trans(ac@, rat_mul(a_s@, c_s@), rat_mul(sp_a(m, d), sp_c(m, o)));
            lemma_req_mul(four@, rat_int(4), ac@, rat_mul(sp_a(m, d), sp_c(m, o)));
            lemma_pos_mul(four@.d, ac@.d);
            lemma_req_trans(fac@, rat_mul(four@, ac@),
                rat_mul(rat_int(4), rat_mul(sp_a(m, d), sp_c(m, o))));
            lemma_req_sub(b2@, rat_mul(sp_b(m, o, d), sp_b(m, o, d)), fac@,
                rat_mul(rat_int(4), rat_mul(sp_a(m, d), sp_c(m, o))));
            lemma_pos_mul(b2@.d, fac@.d);
            lemma_req_trans(disc_s@, rat_sub(b2@, fac@), sp_disc(m, o, d));
        }
        if a_s.eq_rat(&zero) {
            proof {
                lemma_req_trans(sp_a(m, d), a_s@, rat_zero());
            }
            return Some(Intersections::new(vec![]));
        }
        proof {
            if rat_eq(sp_a(m, d), rat_zero()) {
                lemma_req_trans(a_s@, sp_a(m, d), rat_zero());
            }
        }
        if disc_s.lt(&zero) {
            proof {
                lemma_req_lt(disc_s@, sp_disc(m, o, d), rat_zero(), rat_zero());
            }
            return Some(Intersections::new(vec![]));
        }
        proof {
            if rat_lt(sp_disc(m, o, d), rat_zero()) {
                lemma_req_lt(sp_disc(m, o, d), disc_s@, rat_zero(), rat_zero());
            }
        }
        let sq = match disc_s.sqrt_lower() {
            Some(v) => v,
            None => {
                return None;
            },
        };
        let nb = b_s.neg();
        let u0 = match nb.sub(&sq) {
            Some(v) => v,
            None => {
                return None;
            },
        };
        let u1 = match nb.add(&sq) {
            Some(v) => v,
            None => {
                return None;
            },
        };
        let ta = match two.mul(&a_s) {
            Some(v) => v,
            None => {
                return None;
            },
        };
        proof {
            lemma_two_a_pos(a_s@, sp_a(m, d), ta@, r2.direction@);
        }
        let t0 = match u0.div(&ta) {
            Some(v) => v,
            None => {
                return None;
            },
        };
        let t1 = match u1.div(&ta) {
            Some(v) => v,
            None => {
                return None;
            },
        };
        let xs = Intersections::new(vec![
            Intersection::new(t0, *self),
            Intersection::new(t1, *self),
        ]);
        proof {
            lemma_roots(m, o, d, a_s@, b_s@, disc_s@, sq@, nb@, u0@, u1@, ta@, t0@, t1@);
            assert(xs.xs@.len() == 2);
            assert(xs.xs@[0].t == t0 && xs.xs@[1].t == t1);
            assert(xs.xs@[0].object == *self && xs.xs@[1].object == *self);
            assert(rat_wf(sq@));
            assert forall|i: int| 0 <= i < xs.xs@.len() implies sc_ok(
                (#[trigger] xs.xs@[i]).t) by {
                assert(i == 0 || i == 1);
            }
            assert forall|i: int| 0 <= i < xs.xs@.len() implies (#[trigger] xs.xs@[i]).object
                == *self by {
                assert(i == 0 || i == 1);
            }
        }
        Some(xs)
    }
}

/// Links the executable object-space tuple to the specification pipeline.
proof fn lemma_tx_links(m: MatVal, nv: MatVal, t: TupVal, te: TupVal)
    requires
        mv_wf(m, 4),
        mv_wf(nv, 4),
        mv_det4(m) != 0,
        tv_wf(t),
        tv_wf(te),
        forall|i: int, j: int|
            0 <= i < 4 && 0 <= j < 4 ==> rat_eq(
                #[trigger] mv_entry(nv, i, j),
                Rat { n: mv_cof4(m, j, i) * m.d, d: mv_det4(m) },
            ),
        rat_eq(te.x, tv_dot(mv_row(nv, 0), t)),
        rat_eq(te.y, tv_dot(mv_row(nv, 1), t)),
        rat_eq(te.z, tv_dot(mv_row(nv, 2), t)),
        rat_eq(te.w, tv_dot(mv_row(nv, 3), t)),
    ensures
        rat_eq(te.x, sp_tx(m, t).x),
        rat_eq(te.y, sp_tx(m, t).y),
        rat_eq(te.z, sp_tx(m, t).z),
        rat_eq(te.w, sp_tx(m, t).w),
{
    lemma_dot_congr2(mv_row(nv, 0), inv_row(m, 0), t, t);
    lemma_dot_congr2(mv_row(nv, 1), inv_row(m, 1), t, t);
    lemma_dot_congr2(mv_row(nv, 2), inv_row(m, 2), t, t);
    lemma_dot_congr2(mv_row(nv, 3), inv_row(m, 3), t, t);
    crate::tup::lemma_tv_dot_wf(mv_row(nv, 0), t);
    crate::tup::lemma_tv_dot_wf(mv_row(nv, 1), t);
    crate::tup::lemma_tv_dot_wf(mv_row(nv, 2), t);
    crate::tup::lemma_tv_dot_wf(mv_row(nv, 3), t);
    lemma_req_trans(te.x, tv_dot(mv_row(nv, 0), t), sp_tx(m, t).x);
    lemma_req_trans(te.y, tv_dot(mv_row(nv, 1), t), sp_tx(m, t).y);
    lemma_req_trans(te.z, tv_dot(mv_row(nv, 2), t), sp_tx(m, t).z);
    lemma_req_trans(te.w, tv_dot(mv_row(nv, 3), t), sp_tx(m, t).w);
}

/// Links the executable center-to-origin vector to the specification.
proof fn lemma_s2r_links(m: MatVal, o: TupVal, oe: TupVal, se: TupVal)
    requires
        mv_wf(m, 4),
        mv_det4(m) != 0,
        tv_wf(o),
        tv_wf(oe),
        tv_wf(se),
        rat_eq(oe.x, sp_tx(m, o).x),
        rat_eq(oe.y, sp_tx(m, o).y),
        rat_eq(oe.z, sp_tx(m, o).z),
        rat_eq(oe.w, sp_tx(m, o).w),
        is_point_val(oe),
        is_vector_val(se),
        rat_eq(se.x, rat_sub(oe.x, rat_zero())),
        rat_eq(se.y, rat_sub(oe.y, rat_zero())),
        rat_eq(se.z, rat_sub(oe.z, rat_zero())),
    ensures
        rat_eq(se.x, sp_s2r(sp_tx(m, o)).x),
        rat_eq(se.y, sp_s2r(sp_tx(m, o)).y),
        rat_eq(se.z, sp_s2r(sp_tx(m, o)).z),
        rat_eq(se.w, sp_s2r(sp_tx(m, o)).w),
{
    lemma_pipeline_wf(m, o, o);
    let o2 = sp_tx(m, o);
    lemma_req_sub(oe.x, o2.x, rat_zero(), rat_zero());
    lemma_req_sub(oe.y, o2.y, rat_zero(), rat_zero());
    lemma_req_sub(oe.z, o2.z, rat_zero(), rat_zero());
    lemma_pos_mul(oe.x.d, 1);
    lemma_pos_mul(oe.y.d, 1);
    lemma_pos_mul(oe.z.d, 1);
    lemma_req_trans(se.x, rat_sub(oe.x, rat_zero()), sp_s2r(o2).x);
    lemma_req_trans(se.y, rat_sub(oe.y, rat_zero()), sp_s2r(o2).y);
    lemma_req_trans(se.z, rat_sub(oe.z, rat_zero()), sp_s2r(o2).z);
    // the fourth component: both sides are zero in value
    lemma_req_trans(o2.w, oe.w, rat_one());
    lemma_req_sub(o2.w, rat_one(), rat_one(), rat_one());
    lemma_pos_mul(o2.w.d, 1);
    assert(rat_eq(rat_sub(rat_one(), rat_one()), rat_zero()));
    lemma_req_trans(sp_s2r(o2).w, rat_sub(rat_one(), rat_one()), rat_zero());
    lemma_req_trans(se.w, rat_zero(), sp_s2r(o2).w);
}

/// Twice a nonzero sum of squares is positive, and so is its executable
/// image.
proof fn lemma_two_a_pos(av: Rat, sa: Rat, tav: Rat, d2e: TupVal)
    requires
        rat_wf(av),
        rat_wf(sa),
        rat_wf(tav),
        tv_wf(d2e),
        rat_eq(av, tv_dot(d2e, d2e)),
        rat_eq(av, sa),
        !rat_eq(av, rat_zero()),
        rat_eq(tav, rat_mul(rat_int(2), av)),
    ensures
        rat_lt(rat_zero(), av),
        rat_lt(rat_zero(), tav),
        rat_lt(rat_zero(), sa),
        tav.n != 0,
{
    crate::tup::lemma_tv_dot_self_nonneg(d2e);
    crate::tup::lemma_tv_dot_wf(d2e, d2e);
    lemma_req_le(rat_zero(), rat_zero(), tv_dot(d2e, d2e), av);
    assert(av.n > 0) by (nonlinear_arith)
        requires
            0 * av.d <= av.n * 1,
            av.n * 1 != 0 * av.d,
    ;
    assert(rat_lt(rat_zero(), av));
    lemma_req_lt(rat_zero(), rat_zero(), av, sa);
    assert(rat_lt(rat_zero(), rat_mul(rat_int(2), av))) by (nonlinear_arith)
        requires
            av.n > 0,
            av.d > 0,
            rat_lt(rat_zero(), rat_mul(rat_int(2), av)) == (0 * (1 * av.d) < (2 * av.n) * 1),
    ;
    lemma_pos_mul(1, av.d);
    lemma_req_lt(rat_zero(), rat_zero(), rat_mul(rat_int(2), av), tav);
    assert(tav.n > 0) by (nonlinear_arith)
        requires
            0 * tav.d < tav.n * 1,
    ;
}

/// Packages the root facts of the quadratic into the contract's shape.
proof fn lemma_roots(
    m: MatVal,
    o: TupVal,
    d: TupVal,
    av: Rat,
    bv: Rat,
    discv: Rat,
    sqv: Rat,
    nbv: Rat,
    u0v: Rat,
    u1v: Rat,
    tav: Rat,
    t0v: Rat,
    t1v: Rat,
)
    requires
        mv_wf(m, 4),
        mv_det4(m) != 0,
        tv_wf(o),
        tv_wf(d),
        rat_wf(av),
        rat_wf(bv),
        rat_wf(discv),
        rat_wf(sqv),
        rat_wf(nbv),
        rat_wf(u0v),
        rat_wf(u1v),
        rat_wf(tav),
        rat_wf(t0v),
        rat_wf(t1v),
        rat_eq(av, sp_a(m, d)),
        rat_eq(bv, sp_b(m, o, d)),
        rat_eq(discv, sp_disc(m, o, d)),
        nbv == rat_neg(bv),
        rat_le(rat_zero(), sqv),
        rat_le(rat_mul(sqv, sqv), discv),
        rat_lt(discv, rat_mul(rat_add(sqv, crate::roots::sqrt_eps()),
            rat_add(sqv, crate::roots::sqrt_eps()))),
        rat_eq(u0v, rat_sub(nbv, sqv)),
        rat_eq(u1v, rat_add(nbv, sqv)),
        rat_eq(tav, rat_mul(rat_int(2), av)),
        rat_lt(rat_zero(), tav),
        tav.n != 0,
        rat_eq(t0v, rat_div(u0v, tav)),
        rat_eq(t1v, rat_div(u1v, tav)),
    ensures
        rat_le(t0v, t1v),
        rat_le(rat_mul(sqv, sqv), sp_disc(m, o, d)),
        rat_lt(sp_disc(m, o, d), rat_mul(rat_add(sqv, crate::roots::sqrt_eps()),
            rat_add(sqv, crate::roots::sqrt_eps()))),
        rat_eq(rat_mul(t0v, rat_mul(rat_int(2), sp_a(m, d))),
            rat_sub(rat_neg(sp_b(m, o, d)), sqv)),
        rat_eq(rat_mul(t1v, rat_mul(rat_int(2), sp_a(m, d))),
            rat_add(rat_neg(sp_b(m, o, d)), sqv)),
{
    lemma_pipeline_wf(m, o, d);
    // transport the discriminant bracket
    lemma_pos_mul(sqv.d, sqv.d);
    lemma_req_le(rat_mul(sqv, sqv), rat_mul(sqv, sqv), discv, sp_disc(m, o, d));
    let se = rat_add(sqv, crate::roots::sqrt_eps());
    lemma_pos_mul(sqv.d, crate::roots::SQRT_DEN as int);
    lemma_pos_mul(se.d, se.d);
    lemma_req_lt(discv, sp_disc(m, o, d), rat_mul(se, se), rat_mul(se, se));
    // order of the roots
    lemma_sub_le_add(nbv, sqv);
    lemma_pos_mul(nbv.d, sqv.d);
    lemma_req_le(rat_sub(nbv, sqv), u0v, rat_add(nbv, sqv), u1v);
    lemma_div_cancel(t0v, u0v, tav);
    lemma_div_cancel(t1v, u1v, tav);
    lemma_pos_mul(t0v.d, tav.d);
    lemma_pos_mul(t1v.d, tav.d);
    lemma_req_le(u0v, rat_mul(t0v, tav), u1v, rat_mul(t1v, tav));
    lemma_cancel_pos_factor(t0v, t1v, tav);
    // the root equations against the specification coefficients
    lemma_req_mul(rat_int(2), rat_int(2), av, sp_a(m, d));
    lemma_pos_mul(1, av.d);
    lemma_req_trans(tav, rat_mul(rat_int(2), av), rat_mul(rat_int(2), sp_a(m, d)));
    crate::scalar::lemma_req_neg(bv, sp_b(m, o, d));
    lemma_req_mul(t0v, t0v, tav, rat_mul(rat_int(2), sp_a(m, d)));
    lemma_req_mul(t1v, t1v, tav, rat_mul(rat_int(2), sp_a(m, d)));
    lemma_req_trans(rat_mul(t0v, rat_mul(rat_int(2), sp_a(m, d))), rat_mul(t0v, tav), u0v);
    lemma_req_trans(rat_mul(t1v, rat_mul(rat_int(2), sp_a(m, d))), rat_mul(t1v, tav), u1v);
    lemma_req_sub(nbv, rat_neg(sp_b(m, o, d)), sqv, sqv);
    lemma_req_add(nbv, rat_neg(sp_b(m, o, d)), sqv, sqv);
    lemma_pos_mul(nbv.d, sqv.d);
    lemma_req_trans(u0v, rat_sub(nbv, sqv), rat_sub(rat_neg(sp_b(m, o, d)), sqv));
    lemma_req_trans(u1v, rat_add(nbv, sqv), rat_add(rat_neg(sp_b(m, o, d)), sqv));
    lemma_req_trans(rat_mul(t0v, rat_mul(rat_int(2), sp_a(m, d))), u0v,
        rat_sub(rat_neg(sp_b(m, o, d)), sqv));
    lemma_req_trans(rat_mul(t1v, rat_mul(rat_int(2), sp_a(m, d))), u1v,
        rat_add(rat_neg(sp_b(m, o, d)), sqv));
}

} // verus!
