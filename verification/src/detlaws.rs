//! Integer determinant identities for fixed sizes.
//!
//! Determinants are defined by cofactor expansion along the first row. The
//! lemmas here establish the classical facts the matrix inverse rests on:
//! a Laplace regrouping into complementary 2x2 minors, antisymmetry under
//! row exchange, vanishing on a repeated row, and the adjugate identities
//! (a row times the cofactors of a row gives the determinant or zero).

use vstd::prelude::*;

verus! {

/// 2x2 determinant of rows (a, b) and (c, d) read row-major.
pub open spec fn det2f(a: int, b: int, c: int, d: int) -> int {
    a * d - b * c
}

/// 3x3 determinant of rows p, q, r, expanded along the first row.
pub open spec fn det3f(
    p0: int, p1: int, p2: int,
    q0: int, q1: int, q2: int,
    r0: int, r1: int, r2: int,
) -> int {
    p0 * det2f(q1, q2, r1, r2) - p1 * det2f(q0, q2, r0, r2) + p2 * det2f(q0, q1, r0, r1)
}

/// 4x4 determinant of rows w, x, y, z, expanded along the first row.
pub open spec fn det4f(
    w0: int, w1: int, w2: int, w3: int,
    x0: int, x1: int, x2: int, x3: int,
    y0: int, y1: int, y2: int, y3: int,
    z0: int, z1: int, z2: int, z3: int,
) -> int {
    w0 * det3f(x1, x2, x3, y1, y2, y3, z1, z2, z3)
        - w1 * det3f(x0, x2, x3, y0, y2, y3, z0, z2, z3)
        + w2 * det3f(x0, x1, x3, y0, y1, y3, z0, z1, z3)
        - w3 * det3f(x0, x1, x2, y0, y1, y2, z0, z1, z2)
}

/// Distributes a factor over an opaque two-term difference.
proof fn lemma_dist2t(w: int, s1: int, s2: int, m: int)
    requires
        m == s1 - s2,
    ensures
        w * m == w * s1 - w * s2,
{
    assert(w * m == w * s1 - w * s2) by (nonlinear_arith)
        requires
            m == s1 - s2,
    ;
}

/// Distributes a factor over an opaque three-term alternating sum.
proof fn lemma_dist3t(w: int, s1: int, s2: int, s3: int, m: int)
    requires
        m == s1 - s2 + s3,
    ensures
        w * m == w * s1 - w * s2 + w * s3,
{
    assert(w * m == w * s1 - w * s2 + w * s3) by (nonlinear_arith)
        requires
            m == s1 - s2 + s3,
    ;
}

/// Reassociation of a triple product.
pub(crate) proof fn lemma_assoc(a: int, b: int, c: int)
    ensures
        a * (b * c) == (a * b) * c,
{
    assert(a * (b * c) == (a * b) * c) by (nonlinear_arith);
}

/// The first two factors of a triple product may be exchanged.
proof fn lemma_swap_head(a: int, b: int, c: int)
    ensures
        a * (b * c) == b * (a * c),
{
    assert(a * (b * c) == b * (a * c)) by (nonlinear_arith);
}

/// The last two factors of a triple product may be exchanged.
proof fn lemma_swap_tail(a: int, b: int, c: int)
    ensures
        a * (b * c) == a * (c * b),
{
    assert(a * (b * c) == a * (c * b)) by (nonlinear_arith);
}

/// Distributes a factor over a three-term cofactor sum.
proof fn lemma_dist3(w: int, u: int, v: int, t: int, p: int, q: int, r: int, m: int)
    requires
        m == u * p - v * q + t * r,
    ensures
        w * m == (w * u) * p - (w * v) * q + (w * t) * r,
{
    lemma_dist3t(w, u * p, v * q, t * r, m);
    lemma_assoc(w, u, p);
    lemma_assoc(w, v, q);
    lemma_assoc(w, t, r);
}

/// Distributes a 2x2 bilinear coefficient over a shared minor.
proof fn lemma_bilin(a: int, b: int, c: int, d: int, p: int)
    ensures
        (a * b - c * d) * p == (a * b) * p - (c * d) * p,
{
    assert((a * b - c * d) * p == (a * b) * p - (c * d) * p) by (nonlinear_arith);
}

/// A factor applied to the negation of a term negates the product.
pub(crate) proof fn lemma_mul_negof(a: int, t: int, s: int)
    requires
        t == -s,
    ensures
        a * t == -(a * s),
{
    assert(a * t == -(a * s)) by (nonlinear_arith)
        requires
            t == -s,
    ;
}

/// A bilinear coefficient against itself with exchanged factors vanishes.
proof fn lemma_bilin_zero(a: int, b: int, p: int)
    ensures
        (a * b - b * a) * p == 0,
{
    assert((a * b - b * a) * p == 0) by (nonlinear_arith);
}

/// Exchanging the two rows of a bilinear coefficient flips the sign of its
/// product with the shared minor.
proof fn lemma_bilin_swap(wa: int, xb: int, wb: int, xa: int, p: int)
    ensures
        (xa * wb - xb * wa) * p == -((wa * xb - wb * xa) * p),
{
    assert((xa * wb - xb * wa) * p == -((wa * xb - wb * xa) * p)) by (nonlinear_arith);
}

/// Exchanging the first two rows of a 3x3 determinant flips its sign.
proof fn lemma_det3_swap01(
    p0: int, p1: int, p2: int,
    q0: int, q1: int, q2: int,
    r0: int, r1: int, r2: int,
)
    ensures
        det3f(p0, p1, p2, q0, q1, q2, r0, r1, r2)
            == -det3f(q0, q1, q2, p0, p1, p2, r0, r1, r2),
{
    lemma_dist2t(p0, q1 * r2, q2 * r1, det2f(q1, q2, r1, r2));
    lemma_dist2t(p1, q0 * r2, q2 * r0, det2f(q0, q2, r0, r2));
    lemma_dist2t(p2, q0 * r1, q1 * r0, det2f(q0, q1, r0, r1));
    lemma_dist2t(q0, p1 * r2, p2 * r1, det2f(p1, p2, r1, r2));
    lemma_dist2t(q1, p0 * r2, p2 * r0, det2f(p0, p2, r0, r2));
    lemma_dist2t(q2, p0 * r1, p1 * r0, det2f(p0, p1, r0, r1));
    lemma_swap_head(p0, q1, r2);
    lemma_swap_head(p0, q2, r1);
    lemma_swap_head(p1, q0, r2);
    lemma_swap_head(p1, q2, r0);
    lemma_swap_head(p2, q0, r1);
    lemma_swap_head(p2, q1, r0);
}

/// Exchanging the last two rows of a 3x3 determinant flips its sign.
proof fn lemma_det3_swap12(
    p0: int, p1: int, p2: int,
    q0: int, q1: int, q2: int,
    r0: int, r1: int, r2: int,
)
    ensures
        det3f(p0, p1, p2, q0, q1, q2, r0, r1, r2)
            == -det3f(p0, p1, p2, r0, r1, r2, q0, q1, q2),
{
    lemma_dist2t(p0, q1 * r2, q2 * r1, det2f(q1, q2, r1, r2));
    lemma_dist2t(p1, q0 * r2, q2 * r0, det2f(q0, q2, r0, r2));
    lemma_dist2t(p2, q0 * r1, q1 * r0, det2f(q0, q1, r0, r1));
    lemma_dist2t(p0, r1 * q2, r2 * q1, det2f(r1, r2, q1, q2));
    lemma_dist2t(p1, r0 * q2, r2 * q0, det2f(r0, r2, q0, q2));
    lemma_dist2t(p2, r0 * q1, r1 * q0, det2f(r0, r1, q0, q1));
    lemma_swap_tail(p0, q1, r2);
    lemma_swap_tail(p0, q2, r1);
    lemma_swap_tail(p1, q0, r2);
    lemma_swap_tail(p1, q2, r0);
    lemma_swap_tail(p2, q0, r1);
    lemma_swap_tail(p2, q1, r0);
    lemma_swap_tail(p0, r1, q2);
    lemma_swap_tail(p1, r0, q2);
    lemma_swap_tail(p2, r0, q1);
}

/// Laplace regrouping of the 4x4 determinant: complementary 2x2 minors of
/// the first two and the last two rows.
proof fn lemma_laplace(
    w0: int, w1: int, w2: int, w3: int,
    x0: int, x1: int, x2: int, x3: int,
    y0: int, y1: int, y2: int, y3: int,
    z0: int, z1: int, z2: int, z3: int,
)
    ensures
        det4f(w0, w1, w2, w3, x0, x1, x2, x3, y0, y1, y2, y3, z0, z1, z2, z3)
            == (w0 * x1 - w1 * x0) * det2f(y2, y3, z2, z3)
                - (w0 * x2 - w2 * x0) * det2f(y1, y3, z1, z3)
                + (w0 * x3 - w3 * x0) * det2f(y1, y2, z1, z2)
                + (w1 * x2 - w2 * x1) * det2f(y0, y3, z0, z3)
                - (w1 * x3 - w3 * x1) * det2f(y0, y2, z0, z2)
                + (w2 * x3 - w3 * x2) * det2f(y0, y1, z0, z1),
{
    let a = det2f(y2, y3, z2, z3);
    let b = det2f(y1, y3, z1, z3);
    let c = det2f(y1, y2, z1, z2);
    let d = det2f(y0, y3, z0, z3);
    let e = det2f(y0, y2, z0, z2);
    let f = det2f(y0, y1, z0, z1);
    let m0 = det3f(x1, x2, x3, y1, y2, y3, z1, z2, z3);
    let m1 = det3f(x0, x2, x3, y0, y2, y3, z0, z2, z3);
    let m2 = det3f(x0, x1, x3, y0, y1, y3, z0, z1, z3);
    let m3 = det3f(x0, x1, x2, y0, y1, y2, z0, z1, z2);
    lemma_dist3(w0, x1, x2, x3, a, b, c, m0);
    lemma_dist3(w1, x0, x2, x3, a, d, e, m1);
    lemma_dist3(w2, x0, x1, x3, b, d, f, m2);
    lemma_dist3(w3, x0, x1, x2, c, e, f, m3);
    lemma_bilin(w0, x1, w1, x0, a);
    lemma_bilin(w0, x2, w2, x0, b);
    lemma_bilin(w0, x3, w3, x0, c);
    lemma_bilin(w1, x2, w2, x1, d);
    lemma_bilin(w1, x3, w3, x1, e);
    lemma_bilin(w2, x3, w3, x2, f);
}

/// A 4x4 determinant with equal first and second rows is zero.
pub(crate) proof fn lemma_det4_repeat01(
    w0: int, w1: int, w2: int, w3: int,
    y0: int, y1: int, y2: int, y3: int,
    z0: int, z1: int, z2: int, z3: int,
)
    ensures
        det4f(w0, w1, w2, w3, w0, w1, w2, w3, y0, y1, y2, y3, z0, z1, z2, z3) == 0,
{
    lemma_laplace(w0, w1, w2, w3, w0, w1, w2, w3, y0, y1, y2, y3, z0, z1, z2, z3);
    lemma_bilin_zero(w0, w1, det2f(y2, y3, z2, z3));
    lemma_bilin_zero(w0, w2, det2f(y1, y3, z1, z3));
    lemma_bilin_zero(w0, w3, det2f(y1, y2, z1, z2));
    lemma_bilin_zero(w1, w2, det2f(y0, y3, z0, z3));
    lemma_bilin_zero(w1, w3, det2f(y0, y2, z0, z2));
    lemma_bilin_zero(w2, w3, det2f(y0, y1, z0, z1));
}

/// Exchanging the first two rows of a 4x4 determinant flips its sign.
pub(crate) proof fn lemma_det4_swap01(
    w0: int, w1: int, w2: int, w3: int,
    x0: int, x1: int, x2: int, x3: int,
    y0: int, y1: int, y2: int, y3: int,
    z0: int, z1: int, z2: int, z3: int,
)
    ensures
        det4f(w0, w1, w2, w3, x0, x1, x2, x3, y0, y1, y2, y3, z0, z1, z2, z3)
            == -det4f(x0, x1, x2, x3, w0, w1, w2, w3, y0, y1, y2, y3, z0, z1, z2, z3),
{
    lemma_laplace(w0, w1, w2, w3, x0, x1, x2, x3, y0, y1, y2, y3, z0, z1, z2, z3);
    lemma_laplace(x0, x1, x2, x3, w0, w1, w2, w3, y0, y1, y2, y3, z0, z1, z2, z3);
    lemma_bilin_swap(w0, x1, w1, x0, det2f(y2, y3, z2, z3));
    lemma_bilin_swap(w0, x2, w2, x0, det2f(y1, y3, z1, z3));
    lemma_bilin_swap(w0, x3, w3, x0, det2f(y1, y2, z1, z2));
    lemma_bilin_swap(w1, x2, w2, x1, det2f(y0, y3, z0, z3));
    lemma_bilin_swap(w1, x3, w3, x1, det2f(y0, y2, z0, z2));
    lemma_bilin_swap(w2, x3, w3, x2, det2f(y0, y1, z0, z1));
}

/// Exchanging the second and third rows of a 4x4 determinant flips its sign.
pub(crate) proof fn lemma_det4_swap12(
    w0: int, w1: int, w2: int, w3: int,
    x0: int, x1: int, x2: int, x3: int,
    y0: int, y1: int, y2: int, y3: int,
    z0: int, z1: int, z2: int, z3: int,
)
    ensures
        det4f(w0, w1, w2, w3, x0, x1, x2, x3, y0, y1, y2, y3, z0, z1, z2, z3)
            == -det4f(w0, w1, w2, w3, y0, y1, y2, y3, x0, x1, x2, x3, z0, z1, z2, z3),
{
    lemma_det3_swap01(x1, x2, x3, y1, y2, y3, z1, z2, z3);
    lemma_det3_swap01(x0, x2, x3, y0, y2, y3, z0, z2, z3);
    lemma_det3_swap01(x0, x1, x3, y0, y1, y3, z0, z1, z3);
    lemma_det3_swap01(x0, x1, x2, y0, y1, y2, z0, z1, z2);
    lemma_mul_negof(w0, det3f(y1, y2, y3, x1, x2, x3, z1, z2, z3),
        det3f(x1, x2, x3, y1, y2, y3, z1, z2, z3));
    lemma_mul_negof(w1, det3f(y0, y2, y3, x0, x2, x3, z0, z2, z3),
        det3f(x0, x2, x3, y0, y2, y3, z0, z2, z3));
    lemma_mul_negof(w2, det3f(y0, y1, y3, x0, x1, x3, z0, z1, z3),
        det3f(x0, x1, x3, y0, y1, y3, z0, z1, z3));
    lemma_mul_negof(w3, det3f(y0, y1, y2, x0, x1, x2, z0, z1, z2),
        det3f(x0, x1, x2, y0, y1, y2, z0, z1, z2));
}

/// Exchanging the third and fourth rows of a 4x4 determinant flips its sign.
pub(crate) proof fn lemma_det4_swap23(
    w0: int, w1: int, w2: int, w3: int,
    x0: int, x1: int, x2: int, x3: int,
    y0: int, y1: int, y2: int, y3: int,
    z0: int, z1: int, z2: int, z3: int,
)
    ensures
        det4f(w0, w1, w2, w3, x0, x1, x2, x3, y0, y1, y2, y3, z0, z1, z2, z3)
            == -det4f(w0, w1, w2, w3, x0, x1, x2, x3, z0, z1, z2, z3, y0, y1, y2, y3),
{
    lemma_det3_swap12(x1, x2, x3, y1, y2, y3, z1, z2, z3);
    lemma_det3_swap12(x0, x2, x3, y0, y2, y3, z0, z2, z3);
    lemma_det3_swap12(x0, x1, x3, y0, y1, y3, z0, z1, z3);
    lemma_det3_swap12(x0, x1, x2, y0, y1, y2, z0, z1, z2);
    lemma_mul_negof(w0, det3f(x1, x2, x3, z1, z2, z3, y1, y2, y3),
        det3f(x1, x2, x3, y1, y2, y3, z1, z2, z3));
    lemma_mul_negof(w1, det3f(x0, x2, x3, z0, z2, z3, y0, y2, y3),
        det3f(x0, x2, x3, y0, y2, y3, z0, z2, z3));
    lemma_mul_negof(w2, det3f(x0, x1, x3, z0, z1, z3, y0, y1, y3),
        det3f(x0, x1, x3, y0, y1, y3, z0, z1, z3));
    lemma_mul_negof(w3, det3f(x0, x1, x2, z0, z1, z2, y0, y1, y2),
        det3f(x0, x1, x2, y0, y1, y2, z0, z1, z2));
}

/// A 4x4 determinant with equal first and third rows is zero.
pub(crate) proof fn lemma_det4_repeat02(
    w0: int, w1: int, w2: int, w3: int,
    x0: int, x1: int, x2: int, x3: int,
    z0: int, z1: int, z2: int, z3: int,
)
    ensures
        det4f(w0, w1, w2, w3, x0, x1, x2, x3, w0, w1, w2, w3, z0, z1, z2, z3) == 0,
{
    lemma_det4_swap12(w0, w1, w2, w3, x0, x1, x2, x3, w0, w1, w2, w3, z0, z1, z2, z3);
    lemma_det4_repeat01(w0, w1, w2, w3, x0, x1, x2, x3, z0, z1, z2, z3);
}

/// A 4x4 determinant with equal first and fourth rows is zero.
pub(crate) proof fn lemma_det4_repeat03(
    w0: int, w1: int, w2: int, w3: int,
    x0: int, x1: int, x2: int, x3: int,
    y0: int, y1: int, y2: int, y3: int,
)
    ensures
        det4f(w0, w1, w2, w3, x0, x1, x2, x3, y0, y1, y2, y3, w0, w1, w2, w3) == 0,
{
    lemma_det4_swap23(w0, w1, w2, w3, x0, x1, x2, x3, y0, y1, y2, y3, w0, w1, w2, w3);
    lemma_det4_repeat02(w0, w1, w2, w3, x0, x1, x2, x3, y0, y1, y2, y3);
}

/// A 4x4 determinant with equal second and third rows is zero.
pub(crate) proof fn lemma_det4_repeat12(
    w0: int, w1: int, w2: int, w3: int,
    x0: int, x1: int, x2: int, x3: int,
    y0: int, y1: int, y2: int, y3: int,
)
    ensures
        det4f(w0, w1, w2, w3, x0, x1, x2, x3, x0, x1, x2, x3, y0, y1, y2, y3) == 0,
{
    lemma_det4_swap01(w0, w1, w2, w3, x0, x1, x2, x3, x0, x1, x2, x3, y0, y1, y2, y3);
    lemma_det4_repeat02(x0, x1, x2, x3, w0, w1, w2, w3, y0, y1, y2, y3);
}

/// A 4x4 determinant with equal second and fourth rows is zero.
pub(crate) proof fn lemma_det4_repeat13(
    w0: int, w1: int, w2: int, w3: int,
    x0: int, x1: int, x2: int, x3: int,
    y0: int, y1: int, y2: int, y3: int,
)
    ensures
        det4f(w0, w1, w2, w3, x0, x1, x2, x3, y0, y1, y2, y3, x0, x1, x2, x3) == 0,
{
    lemma_det4_swap23(w0, w1, w2, w3, x0, x1, x2, x3, y0, y1, y2, y3, x0, x1, x2, x3);
    lemma_det4_repeat12(w0, w1, w2, w3, x0, x1, x2, x3, y0, y1, y2, y3);
}

/// A 4x4 determinant with equal third and fourth rows is zero.
pub(crate) proof fn lemma_det4_repeat23(
    w0: int, w1: int, w2: int, w3: int,
    x0: int, x1: int, x2: int, x3: int,
    y0: int, y1: int, y2: int, y3: int,
)
    ensures
        det4f(w0, w1, w2, w3, x0, x1, x2, x3, y0, y1, y2, y3, y0, y1, y2, y3) == 0,
{
    lemma_det4_swap12(w0, w1, w2, w3, x0, x1, x2, x3, y0, y1, y2, y3, y0, y1, y2, y3);
    lemma_det4_repeat13(w0, w1, w2, w3, y0, y1, y2, y3, x0, x1, x2, x3);
}

/// Moving the third row to the front is an even permutation.
pub(crate) proof fn lemma_det4_move2(
    w0: int, w1: int, w2: int, w3: int,
    x0: int, x1: int, x2: int, x3: int,
    y0: int, y1: int, y2: int, y3: int,
    z0: int, z1: int, z2: int, z3: int,
)
    ensures
        det4f(y0, y1, y2, y3, w0, w1, w2, w3, x0, x1, x2, x3, z0, z1, z2, z3)
            == det4f(w0, w1, w2, w3, x0, x1, x2, x3, y0, y1, y2, y3, z0, z1, z2, z3),
{
    lemma_det4_swap01(y0, y1, y2, y3, w0, w1, w2, w3, x0, x1, x2, x3, z0, z1, z2, z3);
    lemma_det4_swap12(w0, w1, w2, w3, y0, y1, y2, y3, x0, x1, x2, x3, z0, z1, z2, z3);
}

/// Moving the fourth row to the front is an odd permutation.
pub(crate) proof fn lemma_det4_move3(
    w0: int, w1: int, w2: int, w3: int,
    x0: int, x1: int, x2: int, x3: int,
    y0: int, y1: int, y2: int, y3: int,
    z0: int, z1: int, z2: int, z3: int,
)
    ensures
        det4f(z0, z1, z2, z3, w0, w1, w2, w3, x0, x1, x2, x3, y0, y1, y2, y3)
            == -det4f(w0, w1, w2, w3, x0, x1, x2, x3, y0, y1, y2, y3, z0, z1, z2, z3),
{
    lemma_det4_swap01(z0, z1, z2, z3, w0, w1, w2, w3, x0, x1, x2, x3, y0, y1, y2, y3);
    lemma_det4_swap12(w0, w1, w2, w3, z0, z1, z2, z3, x0, x1, x2, x3, y0, y1, y2, y3);
    lemma_det4_swap23(w0, w1, w2, w3, x0, x1, x2, x3, z0, z1, z2, z3, y0, y1, y2, y3);
}

/// Equal right factors give equal products.
pub(crate) proof fn lemma_mul_subst(a: int, t: int, s: int)
    requires
        t == s,
    ensures
        a * t == a * s,
{
}

/// Equal left factors give equal products.
pub(crate) proof fn lemma_mul_subst_left(t: int, s: int, a: int)
    requires
        t == s,
    ensures
        t * a == s * a,
{
}

/// Distributes a factor over an opaque four-term sum.
pub(crate) proof fn lemma_dist4t(t0: int, t1: int, t2: int, t3: int, f: int)
    ensures
        (t0 + t1 + t2 + t3) * f == t0 * f + t1 * f + t2 * f + t3 * f,
{
    assert((t0 + t1 + t2 + t3) * f == t0 * f + t1 * f + t2 * f + t3 * f) by (nonlinear_arith);
}

/// Cancels a nonzero common right factor.
pub(crate) proof fn lemma_cancel_right(a: int, b: int, den: int)
    requires
        a * den == b * den,
        den != 0,
    ensures
        a == b,
{
    assert(a == b) by (nonlinear_arith)
        requires
            a * den == b * den,
            den != 0,
    ;
}

} // verus!
