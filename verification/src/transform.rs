//! Named affine transform builders and their composition.
//!
//! Each builder is the identity with a few cells overwritten by the
//! standard affine formulas. Chaining a builder onto an existing matrix
//! pre-multiplies it, so chained transforms act on a tuple in the order
//! they were chained.

use vstd::prelude::*;
use crate::scalar::{
    Scalar, Rat, rat_eq, rat_add, rat_sub, rat_mul, rat_neg, rat_zero, rat_one, rat_wf,
    abs_int, sc_ok, lemma_pos_mul, lemma_req_add, lemma_req_mul, lemma_req_trans,
    lemma_add_zero_right, lemma_add_zero_left,
};
use crate::matrix::{
    Matrix4x4, MatVal, mv_entry, mv_wf, m4_ok, mul_entry_num, MAX_MAT,
};
use crate::tup::{TupVal, tv_wf, tv_dot, mv_row, is_point_val, is_vector_val};

verus! {

/// Entrywise: `c` holds the product `a * b` over the product denominator.
pub open spec fn is_product_of(c: MatVal, a: MatVal, b: MatVal) -> bool {
    forall|i: int, j: int|
        0 <= i < 4 && 0 <= j < 4 ==> rat_eq(
            #[trigger] mv_entry(c, i, j),
            Rat { n: mul_entry_num(a, b, i, j), d: a.d * b.d },
        )
}

/// The tuple a matrix sends a tuple to: each component is a row dotted
/// with the tuple.
pub open spec fn mv_apply(m: MatVal, t: TupVal) -> TupVal {
    TupVal {
        x: tv_dot(mv_row(m, 0), t),
        y: tv_dot(mv_row(m, 1), t),
        z: tv_dot(mv_row(m, 2), t),
        w: tv_dot(mv_row(m, 3), t),
    }
}

/// The cells of the translation matrix, up to value equality.
pub open spec fn mv_is_translation(m: MatVal, x: Rat, y: Rat, z: Rat) -> bool {
    &&& mv_wf(m, 4)
    &&& rat_eq(mv_entry(m, 0, 0), rat_one())
    &&& rat_eq(mv_entry(m, 0, 1), rat_zero())
    &&& rat_eq(mv_entry(m, 0, 2), rat_zero())
    &&& rat_eq(mv_entry(m, 0, 3), x)
    &&& rat_eq(mv_entry(m, 1, 0), rat_zero())
    &&& rat_eq(mv_entry(m, 1, 1), rat_one())
    &&& rat_eq(mv_entry(m, 1, 2), rat_zero())
    &&& rat_eq(mv_entry(m, 1, 3), y)
    &&& rat_eq(mv_entry(m, 2, 0), rat_zero())
    &&& rat_eq(mv_entry(m, 2, 1), rat_zero())
    &&& rat_eq(mv_entry(m, 2, 2), rat_one())
    &&& rat_eq(mv_entry(m, 2, 3), z)
    &&& rat_eq(mv_entry(m, 3, 0), rat_zero())
    &&& rat_eq(mv_entry(m, 3, 1), rat_zero())
    &&& rat_eq(mv_entry(m, 3, 2), rat_zero())
    &&& rat_eq(mv_entry(m, 3, 3), rat_one())
}

/// The cells of the scaling matrix, up to value equality.
pub open spec fn mv_is_scaling(m: MatVal, x: Rat, y: Rat, z: Rat) -> bool {
    &&& mv_wf(m, 4)
    &&& rat_eq(mv_entry(m, 0, 0), x)
    &&& rat_eq(mv_entry(m, 0, 1), rat_zero())
    &&& rat_eq(mv_entry(m, 0, 2), rat_zero())
    &&& rat_eq(mv_entry(m, 0, 3), rat_zero())
    &&& rat_eq(mv_entry(m, 1, 0), rat_zero())
    &&& rat_eq(mv_entry(m, 1, 1), y)
    &&& rat_eq(mv_entry(m, 1, 2), rat_zero())
    &&& rat_eq(mv_entry(m, 1, 3), rat_zero())
    &&& rat_eq(mv_entry(m, 2, 0), rat_zero())
    &&& rat_eq(mv_entry(m, 2, 1), rat_zero())
    &&& rat_eq(mv_entry(m, 2, 2), z)
    &&& rat_eq(mv_entry(m, 2, 3), rat_zero())
    &&& rat_eq(mv_entry(m, 3, 0), rat_zero())
    &&& rat_eq(mv_entry(m, 3, 1), rat_zero())
    &&& rat_eq(mv_entry(m, 3, 2), rat_zero())
    &&& rat_eq(mv_entry(m, 3, 3), rat_one())
}

/// The cells of the rotation x matrix, up to value equality.
pub open spec fn mv_is_rotation_x(m: MatVal, c: Rat, s: Rat) -> bool {
    &&& mv_wf(m, 4)
    &&& rat_eq(mv_entry(m, 0, 0), rat_one())
    &&& rat_eq(mv_entry(m, 0, 1), rat_zero())
    &&& rat_eq(mv_entry(m, 0, 2), rat_zero())
    &&& rat_eq(mv_entry(m, 0, 3), rat_zero())
    &&& rat_eq(mv_entry(m, 1, 0), rat_zero())
    &&& rat_eq(mv_entry(m, 1, 1), c)
    &&& rat_eq(mv_entry(m, 1, 2), rat_neg(s))
    &&& rat_eq(mv_entry(m, 1, 3), rat_zero())
    &&& rat_eq(mv_entry(m, 2, 0), rat_zero())
    &&& rat_eq(mv_entry(m, 2, 1), s)
    &&& rat_eq(mv_entry(m, 2, 2), c)
    &&& rat_eq(mv_entry(m, 2, 3), rat_zero())
    &&& rat_eq(mv_entry(m, 3, 0), rat_zero())
    &&& rat_eq(mv_entry(m, 3, 1), rat_zero())
    &&& rat_eq(mv_entry(m, 3, 2), rat_zero())
    &&& rat_eq(mv_entry(m, 3, 3), rat_one())
}

/// The cells of the rotation y matrix, up to value equality.
pub open spec fn mv_is_rotation_y(m: MatVal, c: Rat, s: Rat) -> bool {
    &&& mv_wf(m, 4)
    &&& rat_eq(mv_entry(m, 0, 0), c)
    &&& rat_eq(mv_entry(m, 0, 1), rat_zero())
    &&& rat_eq(mv_entry(m, 0, 2), s)
    &&& rat_eq(mv_entry(m, 0, 3), rat_zero())
    &&& rat_eq(mv_entry(m, 1, 0), rat_zero())
    &&& rat_eq(mv_entry(m, 1, 1), rat_one())
    &&& rat_eq(mv_entry(m, 1, 2), rat_zero())
    &&& rat_eq(mv_entry(m, 1, 3), rat_zero())
    &&& rat_eq(mv_entry(m, 2, 0), rat_neg(s))
    &&& rat_eq(mv_entry(m, 2, 1), rat_zero())
    &&& rat_eq(mv_entry(m, 2, 2), c)
    &&& rat_eq(mv_entry(m, 2, 3), rat_zero())
    &&& rat_eq(mv_entry(m, 3, 0), rat_zero())
    &&& rat_eq(mv_entry(m, 3, 1), rat_zero())
    &&& rat_eq(mv_entry(m, 3, 2), rat_zero())
    &&& rat_eq(mv_entry(m, 3, 3), rat_one())
}

/// The cells of the rotation z matrix, up to value equality.
pub open spec fn mv_is_rotation_z(m: MatVal, c: Rat, s: Rat) -> bool {
    &&& mv_wf(m, 4)
    &&& rat_eq(mv_entry(m, 0, 0), c)
    &&& rat_eq(mv_entry(m, 0, 1), rat_neg(s))
    &&& rat_eq(mv_entry(m, 0, 2), rat_zero())
    &&& rat_eq(mv_entry(m, 0, 3), rat_zero())
    &&& rat_eq(mv_entry(m, 1, 0), s)
    &&& rat_eq(mv_entry(m, 1, 1), c)
    &&& rat_eq(mv_entry(m, 1, 2), rat_zero())
    &&& rat_eq(mv_entry(m, 1, 3), rat_zero())
    &&& rat_eq(mv_entry(m, 2, 0), rat_zero())
    &&& rat_eq(mv_entry(m, 2, 1), rat_zero())
    &&& rat_eq(mv_entry(m, 2, 2), rat_one())
    &&& rat_eq(mv_entry(m, 2, 3), rat_zero())
    &&& rat_eq(mv_entry(m, 3, 0), rat_zero())
    &&& rat_eq(mv_entry(m, 3, 1), rat_zero())
    &&& rat_eq(mv_entry(m, 3, 2), rat_zero())
    &&& rat_eq(mv_entry(m, 3, 3), rat_one())
}

/// The cells of the shearing matrix, up to value equality.
pub open spec fn mv_is_shearing(m: MatVal, xy: Rat, xz: Rat, yx: Rat, yz: Rat, zx: Rat, zy: Rat) -> bool {
    &&& mv_wf(m, 4)
    &&& rat_eq(mv_entry(m, 0, 0), rat_one())
    &&& rat_eq(mv_entry(m, 0, 1), xy)
    &&& rat_eq(mv_entry(m, 0, 2), xz)
    &&& rat_eq(mv_entry(m, 0, 3), rat_zero())
    &&& rat_eq(mv_entry(m, 1, 0), yx)
    &&& rat_eq(mv_entry(m, 1, 1), rat_one())
    &&& rat_eq(mv_entry(m, 1, 2), yz)
    &&& rat_eq(mv_entry(m, 1, 3), rat_zero())
    &&& rat_eq(mv_entry(m, 2, 0), zx)
    &&& rat_eq(mv_entry(m, 2, 1), zy)
    &&& rat_eq(mv_entry(m, 2, 2), rat_one())
    &&& rat_eq(mv_entry(m, 2, 3), rat_zero())
    &&& rat_eq(mv_entry(m, 3, 0), rat_zero())
    &&& rat_eq(mv_entry(m, 3, 1), rat_zero())
    &&& rat_eq(mv_entry(m, 3, 2), rat_zero())
    &&& rat_eq(mv_entry(m, 3, 3), rat_one())
}

/// Translation by (x, y, z): moves points, leaves vectors alone.
pub fn translation(x: Scalar, y: Scalar, z: Scalar) -> (r: Option<Matrix4x4>)
    requires
        sc_ok(x),
        sc_ok(y),
        sc_ok(z),
    ensures
        r matches Some(m) ==> m4_ok(m) && mv_is_translation(m@, x@, y@, z@),
        x@.d == 1 && y@.d == 1 && z@.d == 1 && abs_int(x@.n) <= MAX_MAT as int && abs_int(y@.n) <= MAX_MAT as int && abs_int(z@.n) <= MAX_MAT as int ==> r.is_some(),
{
    let o = Scalar::from_int(1);
    let n = Scalar::from_int(0);
    Matrix4x4::new(
        o, n, n, x,
        n, o, n, y,
        n, n, o, z,
        n, n, n, o,
    )
}

/// Scaling by (x, y, z) along the axes.
pub fn scaling(x: Scalar, y: Scalar, z: Scalar) -> (r: Option<Matrix4x4>)
    requires
        sc_ok(x),
        sc_ok(y),
        sc_ok(z),
    ensures
        r matches Some(m) ==> m4_ok(m) && mv_is_scaling(m@, x@, y@, z@),
        x@.d == 1 && y@.d == 1 && z@.d == 1 && abs_int(x@.n) <= MAX_MAT as int && abs_int(y@.n) <= MAX_MAT as int && abs_int(z@.n) <= MAX_MAT as int ==> r.is_some(),
{
    let o = Scalar::from_int(1);
    let n = Scalar::from_int(0);
    Matrix4x4::new(
        x, n, n, n,
        n, y, n, n,
        n, n, z, n,
        n, n, n, o,
    )
}

/// Rotation about the x axis, given the cosine and sine of the angle.
pub fn rotation_x(c: Scalar, s: Scalar) -> (r: Option<Matrix4x4>)
    requires
        sc_ok(c),
        sc_ok(s),
    ensures
        r matches Some(m) ==> m4_ok(m) && mv_is_rotation_x(m@, c@, s@),
        c@.d == 1 && s@.d == 1 && abs_int(c@.n) <= MAX_MAT as int && abs_int(s@.n) <= MAX_MAT as int ==> r.is_some(),
{
    let o = Scalar::from_int(1);
    let n = Scalar::from_int(0);
    Matrix4x4::new(
        o, n, n, n,
        n, c, s.neg(), n,
        n, s, c, n,
        n, n, n, o,
    )
}

/// Rotation about the y axis, given the cosine and sine of the angle.
pub fn rotation_y(c: Scalar, s: Scalar) -> (r: Option<Matrix4x4>)
    requires
        sc_ok(c),
        sc_ok(s),
    ensures
        r matches Some(m) ==> m4_ok(m) && mv_is_rotation_y(m@, c@, s@),
        c@.d == 1 && s@.d == 1 && abs_int(c@.n) <= MAX_MAT as int && abs_int(s@.n) <= MAX_MAT as int ==> r.is_some(),
{
    let o = Scalar::from_int(1);
    let n = Scalar::from_int(0);
    Matrix4x4::new(
        c, n, s, n,
        n, o, n, n,
        s.neg(), n, c, n,
        n, n, n, o,
    )
}

/// Rotation about the z axis, given the cosine and sine of the angle.
pub fn rotation_z(c: Scalar, s: Scalar) -> (r: Option<Matrix4x4>)
    requires
        sc_ok(c),
        sc_ok(s),
    ensures
        r matches Some(m) ==> m4_ok(m) && mv_is_rotation_z(m@, c@, s@),
        c@.d == 1 && s@.d == 1 && abs_int(c@.n) <= MAX_MAT as int && abs_int(s@.n) <= MAX_MAT as int ==> r.is_some(),
{
    let o = Scalar::from_int(1);
    let n = Scalar::from_int(0);
    Matrix4x4::new(
        c, s.neg(), n, n,
        s, c, n, n,
        n, n, o, n,
        n, n, n, o,
    )
}

/// Shearing: each axis moved in proportion to the other two.
pub fn shearing(xy: Scalar, xz: Scalar, yx: Scalar, yz: Scalar, zx: Scalar, zy: Scalar) -> (r: Option<Matrix4x4>)
    requires
        sc_ok(xy),
        sc_ok(xz),
        sc_ok(yx),
        sc_ok(yz),
        sc_ok(zx),
        sc_ok(zy),
    ensures
        r matches Some(m) ==> m4_ok(m) && mv_is_shearing(m@, xy@, xz@, yx@, yz@, zx@, zy@),
        xy@.d == 1 && xz@.d == 1 && yx@.d == 1 && yz@.d == 1 && zx@.d == 1 && zy@.d == 1 && abs_int(xy@.n) <= MAX_MAT as int && abs_int(xz@.n) <= MAX_MAT as int && abs_int(yx@.n) <= MAX_MAT as int && abs_int(yz@.n) <= MAX_MAT as int && abs_int(zx@.n) <= MAX_MAT as int && abs_int(zy@.n) <= MAX_MAT as int ==> r.is_some(),
{
    let o = Scalar::from_int(1);
    let n = Scalar::from_int(0);
    Matrix4x4::new(
        o, xy, xz, n,
        yx, o, yz, n,
        zx, zy, o, n,
        n, n, n, o,
    )
}

impl Matrix4x4 {
    /// Pre-multiplies a translation onto the accumulated transform, so the
    /// translation acts last on a tuple.
    pub fn translate(self, x: Scalar, y: Scalar, z: Scalar) -> (r: Option<Matrix4x4>)
        requires
            m4_ok(self),
            sc_ok(x),
            sc_ok(y),
            sc_ok(z),
        ensures
            r matches Some(m) ==> m4_ok(m) && exists|t: MatVal|
                #[trigger] mv_is_translation(t, x@, y@, z@) && is_product_of(m@, t, self@),
    {
        let t = match translation(x, y, z) {
            Some(v) => v,
            None => {
                return None;
            },
        };
        let r = t.mul(&self);
        proof {
            if let Some(m) = r {
                assert(mv_is_translation(t@, x@, y@, z@) && is_product_of(m@, t@, self@));
            }
        }
        r
    }

    /// Pre-multiplies a scaling onto the accumulated transform.
    pub fn scale(self, x: Scalar, y: Scalar, z: Scalar) -> (r: Option<Matrix4x4>)
        requires
            m4_ok(self),
            sc_ok(x),
            sc_ok(y),
            sc_ok(z),
        ensures
            r matches Some(m) ==> m4_ok(m) && exists|t: MatVal|
                #[trigger] mv_is_scaling(t, x@, y@, z@) && is_product_of(m@, t, self@),
    {
        let t = match scaling(x, y, z) {
            Some(v) => v,
            None => {
                return None;
            },
        };
        let r = t.mul(&self);
        proof {
            if let Some(m) = r {
                assert(mv_is_scaling(t@, x@, y@, z@) && is_product_of(m@, t@, self@));
            }
        }
        r
    }

    /// Pre-multiplies a rotation about the x axis.
    pub fn rotate_x(self, c: Scalar, s: Scalar) -> (r: Option<Matrix4x4>)
        requires
            m4_ok(self),
            sc_ok(c),
            sc_ok(s),
        ensures
            r matches Some(m) ==> m4_ok(m) && exists|t: MatVal|
                #[trigger] mv_is_rotation_x(t, c@, s@) && is_product_of(m@, t, self@),
    {
        let t = match rotation_x(c, s) {
            Some(v) => v,
            None => {
                return None;
            },
        };
        let r = t.mul(&self);
        proof {
            if let Some(m) = r {
                assert(mv_is_rotation_x(t@, c@, s@) && is_product_of(m@, t@, self@));
            }
        }
        r
    }

    /// Pre-multiplies a rotation about the y axis.
    pub fn rotate_y(self, c: Scalar, s: Scalar) -> (r: Option<Matrix4x4>)
        requires
            m4_ok(self),
            sc_ok(c),
            sc_ok(s),
        ensures
            r matches Some(m) ==> m4_ok(m) && exists|t: MatVal|
                #[trigger] mv_is_rotation_y(t, c@, s@) && is_product_of(m@, t, self@),
    {
        let t = match rotation_y(c, s) {
            Some(v) => v,
            None => {
                return None;
            },
        };
        let r = t.mul(&self);
        proof {
            if let Some(m) = r {
                assert(mv_is_rotation_y(t@, c@, s@) && is_product_of(m@, t@, self@));
            }
        }
        r
    }

    /// Pre-multiplies a rotation about the z axis.
    pub fn rotate_z(self, c: Scalar, s: Scalar) -> (r: Option<Matrix4x4>)
        requires
            m4_ok(self),
            sc_ok(c),
            sc_ok(s),
        ensures
            r matches Some(m) ==> m4_ok(m) && exists|t: MatVal|
                #[trigger] mv_is_rotation_z(t, c@, s@) && is_product_of(m@, t, self@),
    {
        let t = match rotation_z(c, s) {
            Some(v) => v,
            None => {
                return None;
            },
        };
        let r = t.mul(&self);
        proof {
            if let Some(m) = r {
                assert(mv_is_rotation_z(t@, c@, s@) && is_product_of(m@, t@, self@));
            }
        }
        r
    }

    /// Pre-multiplies a shearing.
    pub fn shear(
        self,
        xy: Scalar, xz: Scalar,
        yx: Scalar, yz: Scalar,
        zx: Scalar, zy: Scalar,
    ) -> (r: Option<Matrix4x4>)
        requires
            m4_ok(self),
            sc_ok(xy),
            sc_ok(xz),
            sc_ok(yx),
            sc_ok(yz),
            sc_ok(zx),
            sc_ok(zy),
        ensures
            r matches Some(m) ==> m4_ok(m) && exists|t: MatVal|
                #[trigger] mv_is_shearing(t, xy@, xz@, yx@, yz@, zx@, zy@) && is_product_of(
                    m@,
                    t,
                    self@,
                ),
    {
        let t = match shearing(xy, xz, yx, yz, zx, zy) {
            Some(v) => v,
            None => {
                return None;
            },
        };
        let r = t.mul(&self);
        proof {
            if let Some(m) = r {
                assert(mv_is_shearing(t@, xy@, xz@, yx@, yz@, zx@, zy@) && is_product_of(m@, t@,
                    self@));
            }
        }
        r
    }
}


/// Dot products agree when the row entries agree in value.
proof fn lemma_dot_row_congr(r: TupVal, v: TupVal, p: TupVal)
    requires
        rat_eq(r.x, v.x),
        rat_eq(r.y, v.y),
        rat_eq(r.z, v.z),
        rat_eq(r.w, v.w),
    ensures
        rat_eq(tv_dot(r, p), tv_dot(v, p)),
{
    lemma_req_mul(r.x, v.x, p.x, p.x);
    lemma_req_mul(r.y, v.y, p.y, p.y);
    lemma_req_mul(r.z, v.z, p.z, p.z);
    lemma_req_mul(r.w, v.w, p.w, p.w);
    lemma_req_add(rat_mul(r.x, p.x), rat_mul(v.x, p.x), rat_mul(r.y, p.y), rat_mul(v.y, p.y));
    lemma_req_add(
        rat_add(rat_mul(r.x, p.x), rat_mul(r.y, p.y)),
        rat_add(rat_mul(v.x, p.x), rat_mul(v.y, p.y)),
        rat_mul(r.z, p.z),
        rat_mul(v.z, p.z),
    );
    lemma_req_add(
        rat_add(rat_add(rat_mul(r.x, p.x), rat_mul(r.y, p.y)), rat_mul(r.z, p.z)),
        rat_add(rat_add(rat_mul(v.x, p.x), rat_mul(v.y, p.y)), rat_mul(v.z, p.z)),
        rat_mul(r.w, p.w),
        rat_mul(v.w, p.w),
    );
}

/// Dot with the row (1, 0, 0, e): the first component plus e times the
/// fourth.
proof fn lemma_eval_sel_x(e: Rat, p: TupVal)
    requires
        rat_wf(e),
        tv_wf(p),
    ensures
        rat_eq(
            tv_dot(TupVal { x: rat_one(), y: rat_zero(), z: rat_zero(), w: e }, p),
            rat_add(p.x, rat_mul(e, p.w)),
        ),
{
    let v = TupVal { x: rat_one(), y: rat_zero(), z: rat_zero(), w: e };
    let m1 = rat_mul(v.x, p.x);
    let m2 = rat_mul(v.y, p.y);
    let m3 = rat_mul(v.z, p.z);
    assert(m1 == p.x);
    lemma_add_zero_right(p.x, m2);
    lemma_req_add(rat_add(m1, m2), p.x, m3, rat_zero());
    assert(rat_add(p.x, rat_zero()) == p.x);
    lemma_pos_mul(p.x.d, p.y.d);
    lemma_req_trans(rat_add(rat_add(m1, m2), m3), rat_add(p.x, rat_zero()), p.x);
    lemma_req_add(rat_add(rat_add(m1, m2), m3), p.x, rat_mul(v.w, p.w), rat_mul(e, p.w));
}

/// Dot with the row (0, 1, 0, e).
proof fn lemma_eval_sel_y(e: Rat, p: TupVal)
    requires
        rat_wf(e),
        tv_wf(p),
    ensures
        rat_eq(
            tv_dot(TupVal { x: rat_zero(), y: rat_one(), z: rat_zero(), w: e }, p),
            rat_add(p.y, rat_mul(e, p.w)),
        ),
{
    let v = TupVal { x: rat_zero(), y: rat_one(), z: rat_zero(), w: e };
    let m1 = rat_mul(v.x, p.x);
    let m2 = rat_mul(v.y, p.y);
    let m3 = rat_mul(v.z, p.z);
    assert(m2 == p.y);
    lemma_add_zero_left(m1, p.y);
    lemma_req_add(rat_add(m1, m2), p.y, m3, rat_zero());
    assert(rat_add(p.y, rat_zero()) == p.y);
    lemma_pos_mul(p.x.d, p.y.d);
    lemma_req_trans(rat_add(rat_add(m1, m2), m3), rat_add(p.y, rat_zero()), p.y);
    lemma_req_add(rat_add(rat_add(m1, m2), m3), p.y, rat_mul(v.w, p.w), rat_mul(e, p.w));
}

/// Dot with the row (0, 0, 1, e).
proof fn lemma_eval_sel_z(e: Rat, p: TupVal)
    requires
        rat_wf(e),
        tv_wf(p),
    ensures
        rat_eq(
            tv_dot(TupVal { x: rat_zero(), y: rat_zero(), z: rat_one(), w: e }, p),
            rat_add(p.z, rat_mul(e, p.w)),
        ),
{
    let v = TupVal { x: rat_zero(), y: rat_zero(), z: rat_one(), w: e };
    let m1 = rat_mul(v.x, p.x);
    let m2 = rat_mul(v.y, p.y);
    let m3 = rat_mul(v.z, p.z);
    assert(m3 == p.z);
    lemma_add_zero_right(m1, m2);
    lemma_pos_mul(p.x.d, p.y.d);
    lemma_req_trans(rat_add(m1, m2), m1, rat_zero());
    lemma_req_add(rat_add(m1, m2), rat_zero(), m3, p.z);
    assert(rat_add(rat_zero(), p.z) == p.z);
    lemma_req_trans(rat_add(rat_add(m1, m2), m3), rat_add(rat_zero(), p.z), p.z);
    lemma_req_add(rat_add(rat_add(m1, m2), m3), p.z, rat_mul(v.w, p.w), rat_mul(e, p.w));
}

/// Dot with the unit row (0, 0, 0, 1): the fourth component itself.
proof fn lemma_eval_unit_w(p: TupVal)
    requires
        tv_wf(p),
    ensures
        rat_eq(
            tv_dot(TupVal { x: rat_zero(), y: rat_zero(), z: rat_zero(), w: rat_one() }, p),
            p.w,
        ),
{
    let v = TupVal { x: rat_zero(), y: rat_zero(), z: rat_zero(), w: rat_one() };
    let m1 = rat_mul(v.x, p.x);
    let m2 = rat_mul(v.y, p.y);
    let m3 = rat_mul(v.z, p.z);
    let m4 = rat_mul(v.w, p.w);
    assert(m4 == p.w);
    lemma_add_zero_right(m1, m2);
    lemma_pos_mul(p.x.d, p.y.d);
    lemma_req_trans(rat_add(m1, m2), m1, rat_zero());
    lemma_req_add(rat_add(m1, m2), rat_zero(), m3, rat_zero());
    assert(rat_eq(rat_add(rat_zero(), rat_zero()), rat_zero()));
    lemma_pos_mul(m1.d, m2.d);
    lemma_pos_mul(rat_add(m1, m2).d, m3.d);
    lemma_req_trans(rat_add(rat_add(m1, m2), m3), rat_add(rat_zero(), rat_zero()), rat_zero());
    lemma_req_add(rat_add(rat_add(m1, m2), m3), rat_zero(), m4, p.w);
    lemma_pos_mul(rat_add(m1, m2).d, m3.d);
    lemma_pos_mul(rat_add(rat_add(m1, m2), m3).d, m4.d);
    lemma_add_zero_left(rat_zero(), p.w);
    lemma_req_trans(
        rat_add(rat_add(rat_add(m1, m2), m3), m4),
        rat_add(rat_zero(), p.w),
        p.w,
    );
}

/// Dot with the row (e, 0, 0, 0): e times the first component.
proof fn lemma_eval_scale_x(e: Rat, p: TupVal)
    requires
        rat_wf(e),
        tv_wf(p),
    ensures
        rat_eq(
            tv_dot(TupVal { x: e, y: rat_zero(), z: rat_zero(), w: rat_zero() }, p),
            rat_mul(e, p.x),
        ),
{
    let v = TupVal { x: e, y: rat_zero(), z: rat_zero(), w: rat_zero() };
    let m1 = rat_mul(v.x, p.x);
    let m2 = rat_mul(v.y, p.y);
    let m3 = rat_mul(v.z, p.z);
    let m4 = rat_mul(v.w, p.w);
    lemma_pos_mul(e.d, p.x.d);
    lemma_add_zero_right(m1, m2);
    lemma_req_add(rat_add(m1, m2), m1, m3, rat_zero());
    assert(rat_add(m1, rat_zero()) == m1);
    lemma_pos_mul(m1.d, m2.d);
    lemma_pos_mul(rat_add(m1, m2).d, m3.d);
    lemma_req_trans(rat_add(rat_add(m1, m2), m3), rat_add(m1, rat_zero()), m1);
    lemma_req_add(rat_add(rat_add(m1, m2), m3), m1, m4, rat_zero());
    lemma_pos_mul(rat_add(m1, m2).d, m3.d);
    lemma_pos_mul(rat_add(rat_add(m1, m2), m3).d, m4.d);
    lemma_req_trans(
        rat_add(rat_add(rat_add(m1, m2), m3), m4),
        rat_add(m1, rat_zero()),
        m1,
    );
}

/// Dot with the row (0, e, 0, 0).
proof fn lemma_eval_scale_y(e: Rat, p: TupVal)
    requires
        rat_wf(e),
        tv_wf(p),
    ensures
        rat_eq(
            tv_dot(TupVal { x: rat_zero(), y: e, z: rat_zero(), w: rat_zero() }, p),
            rat_mul(e, p.y),
        ),
{
    let v = TupVal { x: rat_zero(), y: e, z: rat_zero(), w: rat_zero() };
    let m1 = rat_mul(v.x, p.x);
    let m2 = rat_mul(v.y, p.y);
    let m3 = rat_mul(v.z, p.z);
    let m4 = rat_mul(v.w, p.w);
    lemma_pos_mul(e.d, p.y.d);
    lemma_add_zero_left(m1, m2);
    lemma_req_add(rat_add(m1, m2), m2, m3, rat_zero());
    assert(rat_add(m2, rat_zero()) == m2);
    lemma_pos_mul(m1.d, m2.d);
    lemma_pos_mul(rat_add(m1, m2).d, m3.d);
    lemma_req_trans(rat_add(rat_add(m1, m2), m3), rat_add(m2, rat_zero()), m2);
    lemma_req_add(rat_add(rat_add(m1, m2), m3), m2, m4, rat_zero());
    lemma_pos_mul(rat_add(m1, m2).d, m3.d);
    lemma_pos_mul(rat_add(rat_add(m1, m2), m3).d, m4.d);
    lemma_req_trans(
        rat_add(rat_add(rat_add(m1, m2), m3), m4),
        rat_add(m2, rat_zero()),
        m2,
    );
}

/// Dot with the row (0, 0, e, 0).
proof fn lemma_eval_scale_z(e: Rat, p: TupVal)
    requires
        rat_wf(e),
        tv_wf(p),
    ensures
        rat_eq(
            tv_dot(TupVal { x: rat_zero(), y: rat_zero(), z: e, w: rat_zero() }, p),
            rat_mul(e, p.z),
        ),
{
    let v = TupVal { x: rat_zero(), y: rat_zero(), z: e, w: rat_zero() };
    let m1 = rat_mul(v.x, p.x);
    let m2 = rat_mul(v.y, p.y);
    let m3 = rat_mul(v.z, p.z);
    let m4 = rat_mul(v.w, p.w);
    lemma_pos_mul(e.d, p.z.d);
    lemma_add_zero_right(m1, m2);
    lemma_pos_mul(p.x.d, p.y.d);
    lemma_req_trans(rat_add(m1, m2), m1, rat_zero());
    lemma_req_add(rat_add(m1, m2), rat_zero(), m3, m3);
    lemma_add_zero_left(rat_zero(), m3);
    lemma_pos_mul(m1.d, m2.d);
    lemma_pos_mul(rat_add(m1, m2).d, m3.d);
    lemma_req_trans(rat_add(rat_add(m1, m2), m3), rat_add(rat_zero(), m3), m3);
    lemma_req_add(rat_add(rat_add(m1, m2), m3), m3, m4, rat_zero());
    lemma_pos_mul(rat_add(m1, m2).d, m3.d);
    lemma_pos_mul(rat_add(rat_add(m1, m2), m3).d, m4.d);
    lemma_req_trans(
        rat_add(rat_add(rat_add(m1, m2), m3), m4),
        rat_add(m3, rat_zero()),
        m3,
    );
}

/// Applying a matrix to a well-formed tuple gives a well-formed tuple.
pub proof fn lemma_mv_apply_wf(m: MatVal, t: TupVal)
    requires
        mv_wf(m, 4),
        tv_wf(t),
    ensures
        tv_wf(mv_apply(m, t)),
{
    crate::tup::lemma_tv_dot_wf(mv_row(m, 0), t);
    crate::tup::lemma_tv_dot_wf(mv_row(m, 1), t);
    crate::tup::lemma_tv_dot_wf(mv_row(m, 2), t);
    crate::tup::lemma_tv_dot_wf(mv_row(m, 3), t);
}

/// A translation moves a point by exactly its offsets and keeps it a
/// point.
pub proof fn lemma_translation_applies(m: MatVal, x: Rat, y: Rat, z: Rat, p: TupVal)
    requires
        mv_is_translation(m, x, y, z),
        rat_wf(x),
        rat_wf(y),
        rat_wf(z),
        tv_wf(p),
        is_point_val(p),
    ensures
        rat_eq(mv_apply(m, p).x, rat_add(p.x, x)),
        rat_eq(mv_apply(m, p).y, rat_add(p.y, y)),
        rat_eq(mv_apply(m, p).z, rat_add(p.z, z)),
        is_point_val(mv_apply(m, p)),
{
    let v0 = TupVal { x: rat_one(), y: rat_zero(), z: rat_zero(), w: x };
    let v1 = TupVal { x: rat_zero(), y: rat_one(), z: rat_zero(), w: y };
    let v2 = TupVal { x: rat_zero(), y: rat_zero(), z: rat_one(), w: z };
    let v3 = TupVal { x: rat_zero(), y: rat_zero(), z: rat_zero(), w: rat_one() };
    lemma_dot_row_congr(mv_row(m, 0), v0, p);
    lemma_dot_row_congr(mv_row(m, 1), v1, p);
    lemma_dot_row_congr(mv_row(m, 2), v2, p);
    lemma_dot_row_congr(mv_row(m, 3), v3, p);
    lemma_eval_sel_x(x, p);
    lemma_eval_sel_y(y, p);
    lemma_eval_sel_z(z, p);
    lemma_eval_unit_w(p);
    crate::tup::lemma_tv_dot_wf(v0, p);
    crate::tup::lemma_tv_dot_wf(v1, p);
    crate::tup::lemma_tv_dot_wf(v2, p);
    crate::tup::lemma_tv_dot_wf(v3, p);
    lemma_req_trans(mv_apply(m, p).x, tv_dot(v0, p), rat_add(p.x, rat_mul(x, p.w)));
    lemma_req_trans(mv_apply(m, p).y, tv_dot(v1, p), rat_add(p.y, rat_mul(y, p.w)));
    lemma_req_trans(mv_apply(m, p).z, tv_dot(v2, p), rat_add(p.z, rat_mul(z, p.w)));
    lemma_req_trans(mv_apply(m, p).w, tv_dot(v3, p), p.w);
    lemma_req_trans(mv_apply(m, p).w, p.w, rat_one());
    lemma_offset_simpl(x, p.x, p.w);
    lemma_offset_simpl(y, p.y, p.w);
    lemma_offset_simpl(z, p.z, p.w);
    lemma_pos_mul(x.d, p.w.d);
    lemma_pos_mul(y.d, p.w.d);
    lemma_pos_mul(z.d, p.w.d);
    lemma_pos_mul(p.x.d, rat_mul(x, p.w).d);
    lemma_pos_mul(p.y.d, rat_mul(y, p.w).d);
    lemma_pos_mul(p.z.d, rat_mul(z, p.w).d);
    lemma_req_trans(mv_apply(m, p).x, rat_add(p.x, rat_mul(x, p.w)), rat_add(p.x, x));
    lemma_req_trans(mv_apply(m, p).y, rat_add(p.y, rat_mul(y, p.w)), rat_add(p.y, y));
    lemma_req_trans(mv_apply(m, p).z, rat_add(p.z, rat_mul(z, p.w)), rat_add(p.z, z));
}

/// An offset times a unit fourth component reduces to the offset.
proof fn lemma_offset_simpl(e: Rat, c: Rat, w: Rat)
    requires
        rat_wf(e),
        rat_wf(c),
        rat_wf(w),
        rat_eq(w, rat_one()),
    ensures
        rat_eq(rat_add(c, rat_mul(e, w)), rat_add(c, e)),
{
    lemma_req_mul(e, e, w, rat_one());
    assert(rat_mul(e, rat_one()) == e);
    lemma_req_add(c, c, rat_mul(e, w), e);
}

/// Translating by the offsets and then by their negations returns every
/// coordinate of a point exactly.
pub proof fn lemma_translation_round_trip(
    m: MatVal,
    mi: MatVal,
    x: Rat,
    y: Rat,
    z: Rat,
    p: TupVal,
)
    requires
        mv_is_translation(m, x, y, z),
        mv_is_translation(mi, rat_neg(x), rat_neg(y), rat_neg(z)),
        rat_wf(x),
        rat_wf(y),
        rat_wf(z),
        tv_wf(p),
        is_point_val(p),
    ensures
        rat_eq(mv_apply(mi, mv_apply(m, p)).x, p.x),
        rat_eq(mv_apply(mi, mv_apply(m, p)).y, p.y),
        rat_eq(mv_apply(mi, mv_apply(m, p)).z, p.z),
        is_point_val(mv_apply(mi, mv_apply(m, p))),
{
    let q = mv_apply(m, p);
    lemma_translation_applies(m, x, y, z, p);
    lemma_mv_apply_wf(m, p);
    lemma_translation_applies(mi, rat_neg(x), rat_neg(y), rat_neg(z), q);
    lemma_cancel_offset(q.x, p.x, x);
    lemma_cancel_offset(q.y, p.y, y);
    lemma_cancel_offset(q.z, p.z, z);
    lemma_mv_apply_wf(mi, q);
    lemma_pos_mul(q.x.d, x.d);
    lemma_pos_mul(q.y.d, y.d);
    lemma_pos_mul(q.z.d, z.d);
    lemma_req_trans(mv_apply(mi, q).x, rat_add(q.x, rat_neg(x)), p.x);
    lemma_req_trans(mv_apply(mi, q).y, rat_add(q.y, rat_neg(y)), p.y);
    lemma_req_trans(mv_apply(mi, q).z, rat_add(q.z, rat_neg(z)), p.z);
}

/// Adding an offset and then its negation cancels.
proof fn lemma_cancel_offset(qc: Rat, pc: Rat, e: Rat)
    requires
        rat_wf(qc),
        rat_wf(pc),
        rat_wf(e),
        rat_eq(qc, rat_add(pc, e)),
    ensures
        rat_eq(rat_add(qc, rat_neg(e)), pc),
{
    lemma_req_add(qc, rat_add(pc, e), rat_neg(e), rat_neg(e));
    assert(rat_eq(rat_add(rat_add(pc, e), rat_neg(e)), pc)) by (nonlinear_arith)
        requires
            pc.d > 0,
            e.d > 0,
            rat_eq(rat_add(rat_add(pc, e), rat_neg(e)), pc) == (((pc.n * e.d + e.n * pc.d) * e.d
                + (-e.n) * (pc.d * e.d)) * pc.d == pc.n * ((pc.d * e.d) * e.d)),
    ;
    lemma_pos_mul(qc.d, e.d);
    lemma_pos_mul(pc.d, e.d);
    lemma_pos_mul(rat_add(pc, e).d, e.d);
    lemma_req_trans(rat_add(qc, rat_neg(e)), rat_add(rat_add(pc, e), rat_neg(e)), pc);
}

/// A scaling multiplies each coordinate by its factor and keeps the
/// direction class: a vector stays a vector, a point stays a point.
pub proof fn lemma_scaling_applies(m: MatVal, sx: Rat, sy: Rat, sz: Rat, t: TupVal)
    requires
        mv_is_scaling(m, sx, sy, sz),
        rat_wf(sx),
        rat_wf(sy),
        rat_wf(sz),
        tv_wf(t),
    ensures
        rat_eq(mv_apply(m, t).x, rat_mul(sx, t.x)),
        rat_eq(mv_apply(m, t).y, rat_mul(sy, t.y)),
        rat_eq(mv_apply(m, t).z, rat_mul(sz, t.z)),
        rat_eq(mv_apply(m, t).w, t.w),
        is_vector_val(t) ==> is_vector_val(mv_apply(m, t)),
        is_point_val(t) ==> is_point_val(mv_apply(m, t)),
{
    let v0 = TupVal { x: sx, y: rat_zero(), z: rat_zero(), w: rat_zero() };
    let v1 = TupVal { x: rat_zero(), y: sy, z: rat_zero(), w: rat_zero() };
    let v2 = TupVal { x: rat_zero(), y: rat_zero(), z: sz, w: rat_zero() };
    let v3 = TupVal { x: rat_zero(), y: rat_zero(), z: rat_zero(), w: rat_one() };
    lemma_dot_row_congr(mv_row(m, 0), v0, t);
    lemma_dot_row_congr(mv_row(m, 1), v1, t);
    lemma_dot_row_congr(mv_row(m, 2), v2, t);
    lemma_dot_row_congr(mv_row(m, 3), v3, t);
    lemma_eval_scale_x(sx, t);
    lemma_eval_scale_y(sy, t);
    lemma_eval_scale_z(sz, t);
    lemma_eval_unit_w(t);
    crate::tup::lemma_tv_dot_wf(v0, t);
    crate::tup::lemma_tv_dot_wf(v1, t);
    crate::tup::lemma_tv_dot_wf(v2, t);
    crate::tup::lemma_tv_dot_wf(v3, t);
    lemma_req_trans(mv_apply(m, t).x, tv_dot(v0, t), rat_mul(sx, t.x));
    lemma_req_trans(mv_apply(m, t).y, tv_dot(v1, t), rat_mul(sy, t.y));
    lemma_req_trans(mv_apply(m, t).z, tv_dot(v2, t), rat_mul(sz, t.z));
    lemma_req_trans(mv_apply(m, t).w, tv_dot(v3, t), t.w);
    if is_vector_val(t) {
        lemma_req_trans(mv_apply(m, t).w, t.w, rat_zero());
    }
    if is_point_val(t) {
        lemma_req_trans(mv_apply(m, t).w, t.w, rat_one());
    }
}

} // verus!
