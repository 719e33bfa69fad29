//! Parametric rays: an origin point and a direction vector.

use vstd::prelude::*;
use crate::scalar::{
    Scalar, rat_eq, rat_add, rat_mul, rat_bounded, sc_ok, MAX_COEF, lemma_pos_mul,
    lemma_req_add, lemma_req_trans,
};
use crate::matrix::{Matrix4x4, m4_ok};
use crate::tup::{
    Point, Vector, tv_bounded, tv_dot, mv_row, pt_ok, vec_ok,
};

verus! {

/// A ray: origin and direction, immutable once constructed.
#[derive(Clone, Copy, PartialEq, Debug)]
pub struct Ray {
    pub origin: Point,
    pub direction: Vector,
}

/// Well-formedness of a ray.
pub open spec fn ray_ok(r: Ray) -> bool {
    &&& pt_ok(r.origin)
    &&& vec_ok(r.direction)
}

impl Ray {
    /// A ray from its origin and direction.
    pub fn new(origin: Point, direction: Vector) -> (r: Ray)
        requires
            pt_ok(origin),
            vec_ok(direction),
        ensures
            ray_ok(r),
            r.origin == origin,
            r.direction == direction,
    {
        Ray { origin, direction }
    }

    /// The point at parameter `t`: origin plus `t` times the direction;
    /// defined for any `t`, including negative ones behind the origin.
    pub fn position(&self, t: Scalar) -> (r: Option<Point>)
        requires
            ray_ok(*self),
            sc_ok(t),
        ensures
            r matches Some(p) ==> pt_ok(p) && rat_eq(
                p@.x,
                rat_add(self.origin@.x, rat_mul(self.direction@.x, t@)),
            ) && rat_eq(
                p@.y,
                rat_add(self.origin@.y, rat_mul(self.direction@.y, t@)),
            ) && rat_eq(
                p@.z,
                rat_add(self.origin@.z, rat_mul(self.direction@.z, t@)),
            ),
            forall|g1: int, g2: int, g3: int|
                #![trigger tv_bounded(self.origin@, g1), tv_bounded(self.direction@, g2),
                    rat_bounded(t@, g3)]
                0 < g1 && 0 < g2 && 0 < g3 && tv_bounded(self.origin@, g1) && tv_bounded(
                    self.direction@,
                    g2,
                ) && rat_bounded(t@, g3) && 2 * (g1 * (g2 * g3)) <= MAX_COEF as int
                    ==> r.is_some(),
    {
        let d = match self.direction.mul(&t) {
            Some(v) => v,
            None => {
                proof {
                    assert forall|g1: int, g2: int, g3: int|
                        0 < g1 && 0 < g2 && 0 < g3 && tv_bounded(self.origin@, g1)
                        && tv_bounded(self.direction@, g2) && rat_bounded(t@, g3) && 2 * (g1 * (
                    g2 * g3)) <= MAX_COEF as int implies false by {
                        assert(tv_bounded(self.direction@, g2) && rat_bounded(t@, g3));
                        assert(g2 * g3 <= MAX_COEF as int) by (nonlinear_arith)
                            requires
                                0 < g1,
                                0 < g2,
                                0 < g3,
                                2 * (g1 * (g2 * g3)) <= MAX_COEF as int,
                        ;
                    }
                }
                return None;
            },
        };
        proof {
            assert forall|g1: int, g2: int, g3: int|
                0 < g1 && 0 < g2 && 0 < g3 && tv_bounded(self.origin@, g1) && tv_bounded(
                self.direction@, g2) && rat_bounded(t@, g3) && 2 * (g1 * (g2 * g3))
                <= MAX_COEF as int implies tv_bounded(d@, g2 * g3) by {
                assert(tv_bounded(self.direction@, g2) && rat_bounded(t@, g3));
                assert(g2 * g3 <= MAX_COEF as int) by (nonlinear_arith)
                    requires
                        0 < g1,
                        0 < g2,
                        0 < g3,
                        2 * (g1 * (g2 * g3)) <= MAX_COEF as int,
                ;
            }
        }
        let r = self.origin.add(d);
        proof {
            if let Some(p) = r {
                lemma_req_add(self.origin@.x, self.origin@.x, d@.x,
                    rat_mul(self.direction@.x, t@));
                lemma_req_add(self.origin@.y, self.origin@.y, d@.y,
                    rat_mul(self.direction@.y, t@));
                lemma_req_add(self.origin@.z, self.origin@.z, d@.z,
                    rat_mul(self.direction@.z, t@));
                lemma_pos_mul(self.origin@.x.d, d@.x.d);
                lemma_pos_mul(self.origin@.y.d, d@.y.d);
                lemma_pos_mul(self.origin@.z.d, d@.z.d);
                lemma_req_trans(p@.x, rat_add(self.origin@.x, d@.x),
                    rat_add(self.origin@.x, rat_mul(self.direction@.x, t@)));
                lemma_req_trans(p@.y, rat_add(self.origin@.y, d@.y),
                    rat_add(self.origin@.y, rat_mul(self.direction@.y, t@)));
                lemma_req_trans(p@.z, rat_add(self.origin@.z, d@.z),
                    rat_add(self.origin@.z, rat_mul(self.direction@.z, t@)));
            }
        }
        r
    }

    /// The ray transformed by a matrix: both the origin and the direction
    /// go through the matrix. An affine matrix keeps the point and vector
    /// marks; one that does not is refused.
    pub fn transform(&self, trans: &Matrix4x4) -> (r: Option<Ray>)
        requires
            ray_ok(*self),
            m4_ok(*trans),
        ensures
            r matches Some(r2) ==> ray_ok(r2) && rat_eq(
                r2.origin@.x,
                tv_dot(mv_row(trans@, 0), self.origin@),
            ) && rat_eq(r2.origin@.y, tv_dot(mv_row(trans@, 1), self.origin@)) && rat_eq(
                r2.origin@.z,
                tv_dot(mv_row(trans@, 2), self.origin@),
            ) && rat_eq(r2.origin@.w, tv_dot(mv_row(trans@, 3), self.origin@)) && rat_eq(
                r2.direction@.x,
                tv_dot(mv_row(trans@, 0), self.direction@),
            ) && rat_eq(r2.direction@.y, tv_dot(mv_row(trans@, 1), self.direction@)) && rat_eq(
                r2.direction@.z,
                tv_dot(mv_row(trans@, 2), self.direction@),
            ) && rat_eq(r2.direction@.w, tv_dot(mv_row(trans@, 3), self.direction@)),
    {
        let ot = match trans.mul_tup(&self.origin.to_tup()) {
            Some(v) => v,
            None => {
                return None;
            },
        };
        let dt = match trans.mul_tup(&self.direction.to_tup()) {
            Some(v) => v,
            None => {
                return None;
            },
        };
        if ot.is_point() && dt.is_vector() {
            Some(Ray { origin: Point::from_tup(ot), direction: Vector::from_tup(dt) })
        } else {
            None
        }
    }
}

} // verus!
