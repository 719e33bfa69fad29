//! Fixed-size square matrices over exact rational scalars.
//!
//! A matrix keeps integer cells over one shared positive denominator, so its
//! determinant and cofactors are plain integer polynomials of the cells. The
//! 3x3 and 2x2 forms exist as minors for the cofactor expansion of the 4x4
//! determinant, exactly as the inverse construction uses them.

use vstd::prelude::*;
use crate::scalar::{
    Scalar, Rat, rat_eq, rat_wf, rat_bounded, rat_zero, rat_one, rat_int, rat_approx_eq, abs_int,
    sc_ok, lemma_mul_bound, lemma_pos_mul, lemma_req_neg, MAX_COEF, RAW_LIMIT, reduce,
};
use crate::detlaws::{det2f, det3f, det4f, lemma_det4_repeat01, lemma_det4_repeat02,
    lemma_det4_repeat03, lemma_det4_swap01, lemma_det4_move2, lemma_det4_move3,
    lemma_mul_negof, lemma_mul_subst, lemma_mul_subst_left, lemma_assoc, lemma_dist4t,
    lemma_cancel_right};

verus! {

/// Largest magnitude a matrix cell or denominator may take (2^30): small
/// enough that a 4x4 determinant of cells is computable exactly in `i128`.
pub const MAX_MAT: i128 = 1073741824;

/// Cells of both factors within this bound (2^14) guarantee that a matrix
/// product stays representable.
pub const SMALL_MAT: i128 = 16384;

/// Mathematical value of a matrix: integer cells over one denominator.
pub struct MatVal {
    pub e: Seq<Seq<int>>,
    pub d: int,
}

/// Structural well-formedness of an n-by-n matrix value.
pub open spec fn mv_wf(m: MatVal, n: int) -> bool {
    &&& m.e.len() == n
    &&& forall|i: int| 0 <= i < n ==> (#[trigger] m.e[i]).len() == n
    &&& m.d > 0
}

/// The rational held at row `i`, column `j`.
pub open spec fn mv_entry(m: MatVal, i: int, j: int) -> Rat {
    Rat { n: m.e[i][j], d: m.d }
}

/// Index adjustment that skips one removed row or column.
pub open spec fn skip_at(i: int, cut: int) -> int {
    if i < cut {
        i
    } else {
        i + 1
    }
}

/// Minor of a 4x4 matrix: the 3x3 determinant of the cells left after
/// removing row `r` and column `c` (an integer, over denominator `d^3`).
pub open spec fn mv_minor4(m: MatVal, r: int, c: int) -> int {
    det3f(
        m.e[skip_at(0, r)][skip_at(0, c)],
        m.e[skip_at(0, r)][skip_at(1, c)],
        m.e[skip_at(0, r)][skip_at(2, c)],
        m.e[skip_at(1, r)][skip_at(0, c)],
        m.e[skip_at(1, r)][skip_at(1, c)],
        m.e[skip_at(1, r)][skip_at(2, c)],
        m.e[skip_at(2, r)][skip_at(0, c)],
        m.e[skip_at(2, r)][skip_at(1, c)],
        m.e[skip_at(2, r)][skip_at(2, c)],
    )
}

/// Signed minor of a 4x4 matrix.
pub open spec fn mv_cof4(m: MatVal, r: int, c: int) -> int {
    if (r + c) % 2 == 1 {
        -mv_minor4(m, r, c)
    } else {
        mv_minor4(m, r, c)
    }
}

/// Determinant numerator of a 4x4 matrix: cofactor expansion along row 0.
/// The rational determinant is this integer over `d^4`.
pub open spec fn mv_det4(m: MatVal) -> int {
    m.e[0][0] * mv_minor4(m, 0, 0) - m.e[0][1] * mv_minor4(m, 0, 1)
        + m.e[0][2] * mv_minor4(m, 0, 2) - m.e[0][3] * mv_minor4(m, 0, 3)
}

/// Minor of a 3x3 matrix: the 2x2 determinant after removing row `r` and
/// column `c`.
pub open spec fn mv_minor3(m: MatVal, r: int, c: int) -> int {
    det2f(
        m.e[skip_at(0, r)][skip_at(0, c)],
        m.e[skip_at(0, r)][skip_at(1, c)],
        m.e[skip_at(1, r)][skip_at(0, c)],
        m.e[skip_at(1, r)][skip_at(1, c)],
    )
}

/// Signed minor of a 3x3 matrix.
pub open spec fn mv_cof3(m: MatVal, r: int, c: int) -> int {
    if (r + c) % 2 == 1 {
        -mv_minor3(m, r, c)
    } else {
        mv_minor3(m, r, c)
    }
}

/// Determinant numerator of a 3x3 matrix (over `d^3`).
pub open spec fn mv_det3(m: MatVal) -> int {
    m.e[0][0] * mv_minor3(m, 0, 0) - m.e[0][1] * mv_minor3(m, 0, 1)
        + m.e[0][2] * mv_minor3(m, 0, 2)
}

/// Determinant numerator of a 2x2 matrix (over `d^2`).
pub open spec fn mv_det2(m: MatVal) -> int {
    det2f(m.e[0][0], m.e[0][1], m.e[1][0], m.e[1][1])
}

/// Numerator of entry (i, j) of a matrix product; the product's shared
/// denominator is the product of the factors' denominators.
pub open spec fn mul_entry_num(a: MatVal, b: MatVal, i: int, j: int) -> int {
    a.e[i][0] * b.e[0][j] + a.e[i][1] * b.e[1][j] + a.e[i][2] * b.e[2][j]
        + a.e[i][3] * b.e[3][j]
}

/// Whether the matrix value holds the identity.
pub open spec fn mv_is_identity(m: MatVal) -> bool {
    &&& mv_wf(m, 4)
    &&& forall|i: int, j: int|
        0 <= i < 4 && 0 <= j < 4 ==> rat_eq(
            #[trigger] mv_entry(m, i, j),
            if i == j {
                rat_one()
            } else {
                rat_zero()
            },
        )
}

/// A 4x4 matrix: cells over one shared denominator.
#[derive(Clone, Copy, PartialEq, Debug)]
pub struct Matrix4x4 {
    pub e: [[i128; 4]; 4],
    pub d: i128,
}

/// A 3x3 matrix, used as a minor of the 4x4 form.
#[derive(Clone, Copy, PartialEq, Debug)]
pub struct Matrix3x3 {
    pub e: [[i128; 3]; 3],
    pub d: i128,
}

/// A 2x2 matrix, the base case of the cofactor expansion.
#[derive(Clone, Copy, PartialEq, Debug)]
pub struct Matrix2x2 {
    pub e: [[i128; 2]; 2],
    pub d: i128,
}

impl View for Matrix4x4 {
    type V = MatVal;

    open spec fn view(&self) -> MatVal {
        MatVal {
            e: Seq::new(4, |i: int| Seq::new(4, |j: int| self.e[i][j] as int)),
            d: self.d as int,
        }
    }
}

impl View for Matrix3x3 {
    type V = MatVal;

    open spec fn view(&self) -> MatVal {
        MatVal {
            e: Seq::new(3, |i: int| Seq::new(3, |j: int| self.e[i][j] as int)),
            d: self.d as int,
        }
    }
}

impl View for Matrix2x2 {
    type V = MatVal;

    open spec fn view(&self) -> MatVal {
        MatVal {
            e: Seq::new(2, |i: int| Seq::new(2, |j: int| self.e[i][j] as int)),
            d: self.d as int,
        }
    }
}

/// Cells and denominator of a 4x4 matrix within a given bound.
pub open spec fn m4_bounded(m: Matrix4x4, g: int) -> bool {
    &&& 1 <= m.d <= g
    &&& forall|i: int, j: int|
        0 <= i < 4 && 0 <= j < 4 ==> -g <= #[trigger] (m.e[i][j] as int) <= g
}

/// Bounded well-formedness of a 4x4 matrix.
pub open spec fn m4_ok(m: Matrix4x4) -> bool {
    &&& 1 <= m.d <= MAX_MAT
    &&& forall|i: int, j: int|
        0 <= i < 4 && 0 <= j < 4 ==> -MAX_MAT <= #[trigger] (m.e[i][j] as int) <= MAX_MAT
}

/// Bounded well-formedness of a 3x3 matrix.
pub open spec fn m3_ok(m: Matrix3x3) -> bool {
    &&& 1 <= m.d <= MAX_MAT
    &&& forall|i: int, j: int|
        0 <= i < 3 && 0 <= j < 3 ==> -MAX_MAT <= #[trigger] (m.e[i][j] as int) <= MAX_MAT
}

/// Bounded well-formedness of a 2x2 matrix.
pub open spec fn m2_ok(m: Matrix2x2) -> bool {
    &&& 1 <= m.d <= MAX_MAT
    &&& forall|i: int, j: int|
        0 <= i < 2 && 0 <= j < 2 ==> -MAX_MAT <= #[trigger] (m.e[i][j] as int) <= MAX_MAT
}

/// One step of merging denominators toward a shared one: a candidate common
/// multiple of `acc` and `d`, kept within the matrix bound.
fn merge_den(acc: i128, d: i128) -> (r: Option<i128>)
    requires
        1 <= acc <= MAX_MAT,
        1 <= d <= MAX_COEF,
    ensures
        r matches Some(l) ==> 1 <= l <= MAX_MAT,
        acc == d ==> r == Some(acc),
    {
    if acc == d {
        return Some(acc);
    }
    let mut g = gcd_pair(acc as u128, d as u128);
    if g < 1 || (acc as u128) % g != 0 {
        g = 1;
    }
    let q = (acc as u128) / g;
    if q > (MAX_MAT as u128) {
        return None;
    }
    proof {
        lemma_mul_bound(q as int, d as int, MAX_MAT as int, MAX_COEF as int);
    }
    let l = (q as i128) * d;
    if 1 <= l && l <= MAX_MAT {
        Some(l)
    } else {
        None
    }
}

/// Euclid's remainder loop on magnitudes; the result is only a candidate,
/// validated by callers before use.
fn gcd_pair(a: u128, b: u128) -> u128 {
    let mut x = a;
    let mut y = b;
    while y > 0
        decreases y,
    {
        let t = x % y;
        x = y;
        y = t;
    }
    x
}

/// Scales one numerator onto the shared denominator `l`: the result `v`
/// satisfies `v / l == n / d` exactly, or `None` when `l` is not a multiple
/// of `d` or the scaled cell leaves the bound.
fn scale_num(n: i128, d: i128, l: i128) -> (r: Option<i128>)
    requires
        -MAX_COEF <= n <= MAX_COEF,
        1 <= d <= MAX_COEF,
        1 <= l <= MAX_MAT,
    ensures
        r matches Some(v) ==> -MAX_MAT <= v <= MAX_MAT && (v as int) * (d as int) == (n as int)
            * (l as int),
        d == l && -MAX_MAT <= n <= MAX_MAT ==> r == Some(n),
{
    let f: i128 = if d == l {
        1
    } else {
        ((l as u128) / (d as u128)) as i128
    };
    proof {
        if d != l {
            vstd::arithmetic::div_mod::lemma_div_pos_is_pos(l as int, d as int);
            vstd::arithmetic::div_mod::lemma_div_is_ordered_by_denominator(l as int, 1, d as int);
            assert((l as int) / 1int == l as int);
        }
        lemma_mul_bound(f as int, d as int, MAX_MAT as int, MAX_COEF as int);
    }
    if f * d != l {
        return None;
    }
    proof {
        lemma_mul_bound(n as int, f as int, MAX_COEF as int, MAX_MAT as int);
    }
    let v = n * f;
    if -MAX_MAT <= v && v <= MAX_MAT {
        proof {
            lemma_scale_entry(n as int, f as int, d as int, l as int);
        }
        Some(v)
    } else {
        None
    }
}

/// Scaling a numerator onto a multiple of its denominator keeps the value.
proof fn lemma_scale_entry(n: int, f: int, d: int, l: int)
    requires
        l == f * d,
    ensures
        (n * f) * d == n * l,
{
    assert((n * f) * d == n * l) by (nonlinear_arith)
        requires
            l == f * d,
    ;
}


/// Case split over the sixteen cell positions of a 4x4 matrix; gives the
/// solver the concrete indices.
proof fn lemma_idx16(i: int, j: int)
    requires
        0 <= i < 4,
        0 <= j < 4,
    ensures
        (i == 0 || i == 1 || i == 2 || i == 3) && (j == 0 || j == 1 || j == 2 || j == 3),
{
}

/// Index adjustment that skips one removed row or column, executable form.
fn skip_idx(i: usize, cut: usize) -> (r: usize)
    requires
        i <= 2,
        cut <= 3,
    ensures
        r as int == skip_at(i as int, cut as int),
        r <= i + 1,
{
    if i < cut {
        i
    } else {
        i + 1
    }
}

/// Magnitude of a bounded signed number.
fn abs_mag(x: i128) -> (r: u128)
    requires
        -RAW_LIMIT <= x <= RAW_LIMIT,
    ensures
        r as int == abs_int(x as int),
{
    if x < 0 {
        (-x) as u128
    } else {
        x as u128
    }
}

/// Exact division facts for a checked divisor.
proof fn lemma_exact_div(a: int, g: int, q: int)
    requires
        a >= 0,
        g >= 1,
        a % g == 0,
        q == a / g,
    ensures
        a == g * q,
        0 <= q <= a,
{
    vstd::arithmetic::div_mod::lemma_fundamental_div_mod(a, g);
    vstd::arithmetic::div_mod::lemma_div_pos_is_pos(a, g);
    assert(q <= a) by (nonlinear_arith)
        requires
            a == g * q,
            g >= 1,
            q >= 0,
    ;
}

/// A positive number divided by a checked common divisor stays positive.
proof fn lemma_pos_den(d: int, g: int, d2: int)
    requires
        d >= 1,
        g >= 1,
        d == g * d2,
        d2 >= 0,
    ensures
        d2 >= 1,
{
    assert(d2 >= 1) by (nonlinear_arith)
        requires
            d >= 1,
            d == g * d2,
            d2 >= 0,
    ;
}

/// Dividing numerator and denominator by a shared divisor keeps the value,
/// with the numerator sign carried separately.
proof fn lemma_entry_eq(ev: int, av: int, q: int, nv: int, dv: int, d2: int, g: int)
    requires
        av == abs_int(ev),
        av == g * q,
        dv == g * d2,
        nv == (if ev < 0 { -q } else { q }),
    ensures
        nv * dv == ev * d2,
{
    if ev < 0 {
        assert(nv * dv == ev * d2) by (nonlinear_arith)
            requires
                nv == -q,
                ev == -av,
                av == g * q,
                dv == g * d2,
        ;
    } else {
        assert(nv * dv == ev * d2) by (nonlinear_arith)
            requires
                nv == q,
                ev == av,
                av == g * q,
                dv == g * d2,
        ;
    }
}

/// 2x2 integer determinant of bounded cells.
fn det2e(a: i128, b: i128, c: i128, d: i128) -> (r: i128)
    requires
        -MAX_MAT <= a <= MAX_MAT,
        -MAX_MAT <= b <= MAX_MAT,
        -MAX_MAT <= c <= MAX_MAT,
        -MAX_MAT <= d <= MAX_MAT,
    ensures
        r as int == det2f(a as int, b as int, c as int, d as int),
        -2 * (MAX_MAT as int) * (MAX_MAT as int) <= r as int <= 2 * (MAX_MAT as int) * (
        MAX_MAT as int),
{
    proof {
        lemma_mul_bound(a as int, d as int, MAX_MAT as int, MAX_MAT as int);
        lemma_mul_bound(b as int, c as int, MAX_MAT as int, MAX_MAT as int);
    }
    a * d - b * c
}

/// 3x3 integer determinant of bounded cells, by first-row expansion.
fn det3e(
    p0: i128, p1: i128, p2: i128,
    q0: i128, q1: i128, q2: i128,
    r0: i128, r1: i128, r2: i128,
) -> (r: i128)
    requires
        -MAX_MAT <= p0 <= MAX_MAT,
        -MAX_MAT <= p1 <= MAX_MAT,
        -MAX_MAT <= p2 <= MAX_MAT,
        -MAX_MAT <= q0 <= MAX_MAT,
        -MAX_MAT <= q1 <= MAX_MAT,
        -MAX_MAT <= q2 <= MAX_MAT,
        -MAX_MAT <= r0 <= MAX_MAT,
        -MAX_MAT <= r1 <= MAX_MAT,
        -MAX_MAT <= r2 <= MAX_MAT,
    ensures
        r as int == det3f(
            p0 as int, p1 as int, p2 as int,
            q0 as int, q1 as int, q2 as int,
            r0 as int, r1 as int, r2 as int,
        ),
        -6 * (MAX_MAT as int) * (MAX_MAT as int) * (MAX_MAT as int) <= r as int <= 6 * (
        MAX_MAT as int) * (MAX_MAT as int) * (MAX_MAT as int),
{
    let m0 = det2e(q1, q2, r1, r2);
    let m1 = det2e(q0, q2, r0, r2);
    let m2 = det2e(q0, q1, r0, r1);
    proof {
        lemma_mul_bound(p0 as int, m0 as int, MAX_MAT as int,
            2 * (MAX_MAT as int) * (MAX_MAT as int));
        lemma_mul_bound(p1 as int, m1 as int, MAX_MAT as int,
            2 * (MAX_MAT as int) * (MAX_MAT as int));
        lemma_mul_bound(p2 as int, m2 as int, MAX_MAT as int,
            2 * (MAX_MAT as int) * (MAX_MAT as int));
    }
    p0 * m0 - p1 * m1 + p2 * m2
}

/// Divides one signed cell by a checked common divisor.
fn div_cell(ev: i128, g: u128) -> (r: Option<i128>)
    requires
        -RAW_LIMIT <= ev <= RAW_LIMIT,
        g >= 1,
        abs_int(ev as int) % (g as int) == 0,
    ensures
        r matches Some(v) ==> (v as int) * (g as int) == ev as int && -MAX_MAT <= v <= MAX_MAT,
        -MAX_MAT <= ev <= MAX_MAT ==> r.is_some(),
{
    let a = abs_mag(ev);
    let q = a / g;
    proof {
        lemma_exact_div(a as int, g as int, q as int);
    }
    if q <= (MAX_MAT as u128) {
        let v: i128 = if ev < 0 {
            -(q as i128)
        } else {
            q as i128
        };
        proof {
            if ev < 0 {
                assert((v as int) * (g as int) == ev as int) by (nonlinear_arith)
                    requires
                        v as int == -(q as int),
                        ev as int == -(a as int),
                        a as int == (g as int) * (q as int),
                ;
            } else {
                assert((v as int) * (g as int) == ev as int) by (nonlinear_arith)
                    requires
                        v as int == q as int,
                        ev as int == a as int,
                        a as int == (g as int) * (q as int),
                ;
            }
        }
        Some(v)
    } else {
        None
    }
}

/// A cell divided by the shared divisor keeps its rational value over the
/// divided denominator.
proof fn lemma_cell_val(v: int, g: int, ev: int, d: int, d2: int)
    requires
        v * g == ev,
        d == g * d2,
    ensures
        v * d == ev * d2,
{
    assert(v * d == ev * d2) by (nonlinear_arith)
        requires
            v * g == ev,
            d == g * d2,
    ;
}

/// Entrywise value equality between a matrix and raw shared-denominator
/// cells.
pub open spec fn m4_represents(m: Matrix4x4, e: [[i128; 4]; 4], d: i128) -> bool {
    forall|i: int, j: int|
        0 <= i < 4 && 0 <= j < 4 ==> rat_eq(
            #[trigger] mv_entry(m@, i, j),
            Rat { n: e[i][j] as int, d: d as int },
        )
}

/// Packages sixteen explicit cell equalities into the entrywise statement.
proof fn lemma_m4_represents(m: Matrix4x4, e: [[i128; 4]; 4], d: i128)
    requires
        (m.e[0][0] as int) * (d as int) == (e[0][0] as int) * (m.d as int),
        (m.e[0][1] as int) * (d as int) == (e[0][1] as int) * (m.d as int),
        (m.e[0][2] as int) * (d as int) == (e[0][2] as int) * (m.d as int),
        (m.e[0][3] as int) * (d as int) == (e[0][3] as int) * (m.d as int),
        (m.e[1][0] as int) * (d as int) == (e[1][0] as int) * (m.d as int),
        (m.e[1][1] as int) * (d as int) == (e[1][1] as int) * (m.d as int),
        (m.e[1][2] as int) * (d as int) == (e[1][2] as int) * (m.d as int),
        (m.e[1][3] as int) * (d as int) == (e[1][3] as int) * (m.d as int),
        (m.e[2][0] as int) * (d as int) == (e[2][0] as int) * (m.d as int),
        (m.e[2][1] as int) * (d as int) == (e[2][1] as int) * (m.d as int),
        (m.e[2][2] as int) * (d as int) == (e[2][2] as int) * (m.d as int),
        (m.e[2][3] as int) * (d as int) == (e[2][3] as int) * (m.d as int),
        (m.e[3][0] as int) * (d as int) == (e[3][0] as int) * (m.d as int),
        (m.e[3][1] as int) * (d as int) == (e[3][1] as int) * (m.d as int),
        (m.e[3][2] as int) * (d as int) == (e[3][2] as int) * (m.d as int),
        (m.e[3][3] as int) * (d as int) == (e[3][3] as int) * (m.d as int),
    ensures
        m4_represents(m, e, d),
{
    assert forall|i: int, j: int| 0 <= i < 4 && 0 <= j < 4 implies rat_eq(
        #[trigger] mv_entry(m@, i, j), Rat { n: e[i][j] as int, d: d as int }) by {
        lemma_idx16(i, j);
    }
}

/// Packages sixteen explicit cell bounds into well-formedness.
proof fn lemma_m4_ok_cells(m: Matrix4x4)
    requires
        1 <= m.d <= MAX_MAT,
        -MAX_MAT <= m.e[0][0] <= MAX_MAT,
        -MAX_MAT <= m.e[0][1] <= MAX_MAT,
        -MAX_MAT <= m.e[0][2] <= MAX_MAT,
        -MAX_MAT <= m.e[0][3] <= MAX_MAT,
        -MAX_MAT <= m.e[1][0] <= MAX_MAT,
        -MAX_MAT <= m.e[1][1] <= MAX_MAT,
        -MAX_MAT <= m.e[1][2] <= MAX_MAT,
        -MAX_MAT <= m.e[1][3] <= MAX_MAT,
        -MAX_MAT <= m.e[2][0] <= MAX_MAT,
        -MAX_MAT <= m.e[2][1] <= MAX_MAT,
        -MAX_MAT <= m.e[2][2] <= MAX_MAT,
        -MAX_MAT <= m.e[2][3] <= MAX_MAT,
        -MAX_MAT <= m.e[3][0] <= MAX_MAT,
        -MAX_MAT <= m.e[3][1] <= MAX_MAT,
        -MAX_MAT <= m.e[3][2] <= MAX_MAT,
        -MAX_MAT <= m.e[3][3] <= MAX_MAT,
    ensures
        m4_ok(m),
{
    assert forall|i: int, j: int| 0 <= i < 4 && 0 <= j < 4 implies
        -MAX_MAT <= #[trigger] (m.e[i][j] as int) <= MAX_MAT by {
        lemma_idx16(i, j);
    }
}

/// Brings shared-denominator cells back inside the matrix bounds by
/// dividing out a common divisor of all seventeen numbers. Inputs already
/// within the bounds always succeed.
#[verifier::spinoff_prover]
fn reduce_mat(e: [[i128; 4]; 4], d: i128) -> (r: Option<Matrix4x4>)
    requires
        1 <= d <= RAW_LIMIT,
        forall|i: int, j: int|
            0 <= i < 4 && 0 <= j < 4 ==> -RAW_LIMIT <= #[trigger] (e[i][j] as int) <= RAW_LIMIT,
    ensures
        r matches Some(m) ==> m4_ok(m) && m4_represents(m, e, d),
        d <= MAX_MAT && (forall|i: int, j: int|
            0 <= i < 4 && 0 <= j < 4 ==> -MAX_MAT <= #[trigger] (e[i][j] as int) <= MAX_MAT)
            ==> r.is_some(),
{
    let a00 = abs_mag(e[0][0]);
    let a01 = abs_mag(e[0][1]);
    let a02 = abs_mag(e[0][2]);
    let a03 = abs_mag(e[0][3]);
    let a10 = abs_mag(e[1][0]);
    let a11 = abs_mag(e[1][1]);
    let a12 = abs_mag(e[1][2]);
    let a13 = abs_mag(e[1][3]);
    let a20 = abs_mag(e[2][0]);
    let a21 = abs_mag(e[2][1]);
    let a22 = abs_mag(e[2][2]);
    let a23 = abs_mag(e[2][3]);
    let a30 = abs_mag(e[3][0]);
    let a31 = abs_mag(e[3][1]);
    let a32 = abs_mag(e[3][2]);
    let a33 = abs_mag(e[3][3]);
    let mut g = d as u128;
    g = gcd_pair(a00, g);
    g = gcd_pair(a01, g);
    g = gcd_pair(a02, g);
    g = gcd_pair(a03, g);
    g = gcd_pair(a10, g);
    g = gcd_pair(a11, g);
    g = gcd_pair(a12, g);
    g = gcd_pair(a13, g);
    g = gcd_pair(a20, g);
    g = gcd_pair(a21, g);
    g = gcd_pair(a22, g);
    g = gcd_pair(a23, g);
    g = gcd_pair(a30, g);
    g = gcd_pair(a31, g);
    g = gcd_pair(a32, g);
    g = gcd_pair(a33, g);
    if !(g >= 1
        && (d as u128) % g == 0
        && a00 % g == 0
        && a01 % g == 0
        && a02 % g == 0
        && a03 % g == 0
        && a10 % g == 0
        && a11 % g == 0
        && a12 % g == 0
        && a13 % g == 0
        && a20 % g == 0
        && a21 % g == 0
        && a22 % g == 0
        && a23 % g == 0
        && a30 % g == 0
        && a31 % g == 0
        && a32 % g == 0
        && a33 % g == 0) {
        g = 1;
    }
    let d2 = (d as u128) / g;
    proof {
        lemma_exact_div(d as int, g as int, d2 as int);
        lemma_pos_den(d as int, g as int, d2 as int);
    }
    if d2 > (MAX_MAT as u128) {
        return None;
    }
    let n00 = match div_cell(e[0][0], g) {
        Some(v) => v,
        None => {
            return None;
        },
    };
    let n01 = match div_cell(e[0][1], g) {
        Some(v) => v,
        None => {
            return None;
        },
    };
    let n02 = match div_cell(e[0][2], g) {
        Some(v) => v,
        None => {
            return None;
        },
    };
    let n03 = match div_cell(e[0][3], g) {
        Some(v) => v,
        None => {
            return None;
        },
    };
    let n10 = match div_cell(e[1][0], g) {
        Some(v) => v,
        None => {
            return None;
        },
    };
    let n11 = match div_cell(e[1][1], g) {
        Some(v) => v,
        None => {
            return None;
        },
    };
    let n12 = match div_cell(e[1][2], g) {
        Some(v) => v,
        None => {
            return None;
        },
    };
    let n13 = match div_cell(e[1][3], g) {
        Some(v) => v,
        None => {
            return None;
        },
    };
    let n20 = match div_cell(e[2][0], g) {
        Some(v) => v,
        None => {
            return None;
        },
    };
    let n21 = match div_cell(e[2][1], g) {
        Some(v) => v,
        None => {
            return None;
        },
    };
    let n22 = match div_cell(e[2][2], g) {
        Some(v) => v,
        None => {
            return None;
        },
    };
    let n23 = match div_cell(e[2][3], g) {
        Some(v) => v,
        None => {
            return None;
        },
    };
    let n30 = match div_cell(e[3][0], g) {
        Some(v) => v,
        None => {
            return None;
        },
    };
    let n31 = match div_cell(e[3][1], g) {
        Some(v) => v,
        None => {
            return None;
        },
    };
    let n32 = match div_cell(e[3][2], g) {
        Some(v) => v,
        None => {
            return None;
        },
    };
    let n33 = match div_cell(e[3][3], g) {
        Some(v) => v,
        None => {
            return None;
        },
    };
    let m = Matrix4x4 {
        e: [[n00, n01, n02, n03],
        [n10, n11, n12, n13],
        [n20, n21, n22, n23],
        [n30, n31, n32, n33]],
        d: d2 as i128,
    };
    proof {
        lemma_cell_val(n00 as int, g as int, e[0][0] as int, d as int, d2 as int);
        lemma_cell_val(n01 as int, g as int, e[0][1] as int, d as int, d2 as int);
        lemma_cell_val(n02 as int, g as int, e[0][2] as int, d as int, d2 as int);
        lemma_cell_val(n03 as int, g as int, e[0][3] as int, d as int, d2 as int);
        lemma_cell_val(n10 as int, g as int, e[1][0] as int, d as int, d2 as int);
        lemma_cell_val(n11 as int, g as int, e[1][1] as int, d as int, d2 as int);
        lemma_cell_val(n12 as int, g as int, e[1][2] as int, d as int, d2 as int);
        lemma_cell_val(n13 as int, g as int, e[1][3] as int, d as int, d2 as int);
        lemma_cell_val(n20 as int, g as int, e[2][0] as int, d as int, d2 as int);
        lemma_cell_val(n21 as int, g as int, e[2][1] as int, d as int, d2 as int);
        lemma_cell_val(n22 as int, g as int, e[2][2] as int, d as int, d2 as int);
        lemma_cell_val(n23 as int, g as int, e[2][3] as int, d as int, d2 as int);
        lemma_cell_val(n30 as int, g as int, e[3][0] as int, d as int, d2 as int);
        lemma_cell_val(n31 as int, g as int, e[3][1] as int, d as int, d2 as int);
        lemma_cell_val(n32 as int, g as int, e[3][2] as int, d as int, d2 as int);
        lemma_cell_val(n33 as int, g as int, e[3][3] as int, d as int, d2 as int);
        lemma_m4_represents(m, e, d);
        lemma_m4_ok_cells(m);
    }
    Some(m)
}

/// Cells and denominator within the small bound: products of two such
/// matrices are always representable.
pub open spec fn m4_small(m: Matrix4x4) -> bool {
    &&& 1 <= m.d <= SMALL_MAT
    &&& forall|i: int, j: int|
        0 <= i < 4 && 0 <= j < 4 ==> -SMALL_MAT <= #[trigger] (m.e[i][j] as int) <= SMALL_MAT
}

/// Case split over the nine cell positions of a 3x3 matrix.
proof fn lemma_idx9(i: int, j: int)
    requires
        0 <= i < 3,
        0 <= j < 3,
    ensures
        (i == 0 || i == 1 || i == 2) && (j == 0 || j == 1 || j == 2),
{
}

/// Packages nine explicit cell bounds into well-formedness.
proof fn lemma_m3_ok_cells(m: Matrix3x3)
    requires
        1 <= m.d <= MAX_MAT,
        -MAX_MAT <= m.e[0][0] <= MAX_MAT,
        -MAX_MAT <= m.e[0][1] <= MAX_MAT,
        -MAX_MAT <= m.e[0][2] <= MAX_MAT,
        -MAX_MAT <= m.e[1][0] <= MAX_MAT,
        -MAX_MAT <= m.e[1][1] <= MAX_MAT,
        -MAX_MAT <= m.e[1][2] <= MAX_MAT,
        -MAX_MAT <= m.e[2][0] <= MAX_MAT,
        -MAX_MAT <= m.e[2][1] <= MAX_MAT,
        -MAX_MAT <= m.e[2][2] <= MAX_MAT,
    ensures
        m3_ok(m),
{
    assert forall|i: int, j: int| 0 <= i < 3 && 0 <= j < 3 implies
        -MAX_MAT <= #[trigger] (m.e[i][j] as int) <= MAX_MAT by {
        lemma_idx9(i, j);
    }
}

/// Packages four explicit cell bounds into well-formedness.
proof fn lemma_m2_ok_cells(m: Matrix2x2)
    requires
        1 <= m.d <= MAX_MAT,
        -MAX_MAT <= m.e[0][0] <= MAX_MAT,
        -MAX_MAT <= m.e[0][1] <= MAX_MAT,
        -MAX_MAT <= m.e[1][0] <= MAX_MAT,
        -MAX_MAT <= m.e[1][1] <= MAX_MAT,
    ensures
        m2_ok(m),
{
    assert forall|i: int, j: int| 0 <= i < 2 && 0 <= j < 2 implies
        -MAX_MAT <= #[trigger] (m.e[i][j] as int) <= MAX_MAT by {
        assert((i == 0 || i == 1) && (j == 0 || j == 1));
    }
}

/// One product entry of two 4x4 matrices, exact in the cells.
fn mule(a: &Matrix4x4, b: &Matrix4x4, i: usize, j: usize) -> (r: i128)
    requires
        m4_ok(*a),
        m4_ok(*b),
        i < 4,
        j < 4,
    ensures
        r as int == mul_entry_num(a@, b@, i as int, j as int),
        -4 * (MAX_MAT as int) * (MAX_MAT as int) <= r as int <= 4 * (MAX_MAT as int) * (
        MAX_MAT as int),
        m4_small(*a) && m4_small(*b) ==> -MAX_MAT <= r <= MAX_MAT,
{
    proof {
        lemma_mul_bound(a.e[i as int][0] as int, b.e[0][j as int] as int, MAX_MAT as int,
            MAX_MAT as int);
        lemma_mul_bound(a.e[i as int][1] as int, b.e[1][j as int] as int, MAX_MAT as int,
            MAX_MAT as int);
        lemma_mul_bound(a.e[i as int][2] as int, b.e[2][j as int] as int, MAX_MAT as int,
            MAX_MAT as int);
        lemma_mul_bound(a.e[i as int][3] as int, b.e[3][j as int] as int, MAX_MAT as int,
            MAX_MAT as int);
        if m4_small(*a) && m4_small(*b) {
            lemma_mul_bound(a.e[i as int][0] as int, b.e[0][j as int] as int, SMALL_MAT as int,
                SMALL_MAT as int);
            lemma_mul_bound(a.e[i as int][1] as int, b.e[1][j as int] as int, SMALL_MAT as int,
                SMALL_MAT as int);
            lemma_mul_bound(a.e[i as int][2] as int, b.e[2][j as int] as int, SMALL_MAT as int,
                SMALL_MAT as int);
            lemma_mul_bound(a.e[i as int][3] as int, b.e[3][j as int] as int, SMALL_MAT as int,
                SMALL_MAT as int);
        }
    }
    a.e[i][0] * b.e[0][j] + a.e[i][1] * b.e[1][j] + a.e[i][2] * b.e[2][j] + a.e[i][3] * b.e[3][j]
}

/// 4x4 integer determinant numerator, by cofactor expansion along row 0.
fn det4e(m: &Matrix4x4) -> (r: i128)
    requires
        m4_ok(*m),
    ensures
        r as int == mv_det4(m@),
        abs_int(r as int) <= 24 * (MAX_MAT as int) * (MAX_MAT as int) * (MAX_MAT as int) * (
        MAX_MAT as int),
{
    let m0 = det3e(
        m.e[1][1], m.e[1][2], m.e[1][3],
        m.e[2][1], m.e[2][2], m.e[2][3],
        m.e[3][1], m.e[3][2], m.e[3][3],
    );
    let m1 = det3e(
        m.e[1][0], m.e[1][2], m.e[1][3],
        m.e[2][0], m.e[2][2], m.e[2][3],
        m.e[3][0], m.e[3][2], m.e[3][3],
    );
    let m2 = det3e(
        m.e[1][0], m.e[1][1], m.e[1][3],
        m.e[2][0], m.e[2][1], m.e[2][3],
        m.e[3][0], m.e[3][1], m.e[3][3],
    );
    let m3 = det3e(
        m.e[1][0], m.e[1][1], m.e[1][2],
        m.e[2][0], m.e[2][1], m.e[2][2],
        m.e[3][0], m.e[3][1], m.e[3][2],
    );
    proof {
        let b3 = 6 * (MAX_MAT as int) * (MAX_MAT as int) * (MAX_MAT as int);
        lemma_mul_bound(m.e[0][0] as int, m0 as int, MAX_MAT as int, b3);
        lemma_mul_bound(m.e[0][1] as int, m1 as int, MAX_MAT as int, b3);
        lemma_mul_bound(m.e[0][2] as int, m2 as int, MAX_MAT as int, b3);
        lemma_mul_bound(m.e[0][3] as int, m3 as int, MAX_MAT as int, b3);
    }
    m.e[0][0] * m0 - m.e[0][1] * m1 + m.e[0][2] * m2 - m.e[0][3] * m3
}

impl Matrix4x4 {
    /// A matrix from sixteen scalars in row-major order, brought onto one
    /// shared denominator. Succeeds whenever all sixteen denominators are
    /// equal and everything is within the matrix bound; mixed denominators
    /// succeed when a small enough common multiple exists.
    pub fn new(
        e11: Scalar, e12: Scalar, e13: Scalar, e14: Scalar,
        e21: Scalar, e22: Scalar, e23: Scalar, e24: Scalar,
        e31: Scalar, e32: Scalar, e33: Scalar, e34: Scalar,
        e41: Scalar, e42: Scalar, e43: Scalar, e44: Scalar,
    ) -> (r: Option<Matrix4x4>)
        requires
            sc_ok(e11),
            sc_ok(e12),
            sc_ok(e13),
            sc_ok(e14),
            sc_ok(e21),
            sc_ok(e22),
            sc_ok(e23),
            sc_ok(e24),
            sc_ok(e31),
            sc_ok(e32),
            sc_ok(e33),
            sc_ok(e34),
            sc_ok(e41),
            sc_ok(e42),
            sc_ok(e43),
            sc_ok(e44),
        ensures
            r matches Some(m) ==> m4_ok(m)
                && rat_eq(mv_entry(m@, 0, 0), e11@)
                && rat_eq(mv_entry(m@, 0, 1), e12@)
                && rat_eq(mv_entry(m@, 0, 2), e13@)
                && rat_eq(mv_entry(m@, 0, 3), e14@)
                && rat_eq(mv_entry(m@, 1, 0), e21@)
                && rat_eq(mv_entry(m@, 1, 1), e22@)
                && rat_eq(mv_entry(m@, 1, 2), e23@)
                && rat_eq(mv_entry(m@, 1, 3), e24@)
                && rat_eq(mv_entry(m@, 2, 0), e31@)
                && rat_eq(mv_entry(m@, 2, 1), e32@)
                && rat_eq(mv_entry(m@, 2, 2), e33@)
                && rat_eq(mv_entry(m@, 2, 3), e34@)
                && rat_eq(mv_entry(m@, 3, 0), e41@)
                && rat_eq(mv_entry(m@, 3, 1), e42@)
                && rat_eq(mv_entry(m@, 3, 2), e43@)
                && rat_eq(mv_entry(m@, 3, 3), e44@)
                ,
            e11@.d <= MAX_MAT as int
                && e12@.d == e11@.d
                && e13@.d == e11@.d
                && e14@.d == e11@.d
                && e21@.d == e11@.d
                && e22@.d == e11@.d
                && e23@.d == e11@.d
                && e24@.d == e11@.d
                && e31@.d == e11@.d
                && e32@.d == e11@.d
                && e33@.d == e11@.d
                && e34@.d == e11@.d
                && e41@.d == e11@.d
                && e42@.d == e11@.d
                && e43@.d == e11@.d
                && e44@.d == e11@.d
                && abs_int(e11@.n) <= MAX_MAT as int
                && abs_int(e12@.n) <= MAX_MAT as int
                && abs_int(e13@.n) <= MAX_MAT as int
                && abs_int(e14@.n) <= MAX_MAT as int
                && abs_int(e21@.n) <= MAX_MAT as int
                && abs_int(e22@.n) <= MAX_MAT as int
                && abs_int(e23@.n) <= MAX_MAT as int
                && abs_int(e24@.n) <= MAX_MAT as int
                && abs_int(e31@.n) <= MAX_MAT as int
                && abs_int(e32@.n) <= MAX_MAT as int
                && abs_int(e33@.n) <= MAX_MAT as int
                && abs_int(e34@.n) <= MAX_MAT as int
                && abs_int(e41@.n) <= MAX_MAT as int
                && abs_int(e42@.n) <= MAX_MAT as int
                && abs_int(e43@.n) <= MAX_MAT as int
                && abs_int(e44@.n) <= MAX_MAT as int
                ==> r.is_some(),
    {
        if e11.d > MAX_MAT {
            return None;
        }
        let mut l = e11.d;
        l = match merge_den(l, e12.d) {
            Some(v) => v,
            None => {
                return None;
            },
        };
        l = match merge_den(l, e13.d) {
            Some(v) => v,
            None => {
                return None;
            },
        };
        l = match merge_den(l, e14.d) {
            Some(v) => v,
            None => {
                return None;
            },
        };
        l = match merge_den(l, e21.d) {
            Some(v) => v,
            None => {
                return None;
            },
        };
        l = match merge_den(l, e22.d) {
            Some(v) => v,
            None => {
                return None;
            },
        };
        l = match merge_den(l, e23.d) {
            Some(v) => v,
            None => {
                return None;
            },
        };
        l = match merge_den(l, e24.d) {
            Some(v) => v,
            None => {
                return None;
            },
        };
        l = match merge_den(l, e31.d) {
            Some(v) => v,
            None => {
                return None;
            },
        };
        l = match merge_den(l, e32.d) {
            Some(v) => v,
            None => {
                return None;
            },
        };
        l = match merge_den(l, e33.d) {
            Some(v) => v,
            None => {
                return None;
            },
        };
        l = match merge_den(l, e34.d) {
            Some(v) => v,
            None => {
                return None;
            },
        };
        l = match merge_den(l, e41.d) {
            Some(v) => v,
            None => {
                return None;
            },
        };
        l = match merge_den(l, e42.d) {
            Some(v) => v,
            None => {
                return None;
            },
        };
        l = match merge_den(l, e43.d) {
            Some(v) => v,
            None => {
                return None;
            },
        };
        l = match merge_den(l, e44.d) {
            Some(v) => v,
            None => {
                return None;
            },
        };
        let n00 = match scale_num(e11.n, e11.d, l) {
            Some(v) => v,
            None => {
                return None;
            },
        };
        let n01 = match scale_num(e12.n, e12.d, l) {
            Some(v) => v,
            None => {
                return None;
            },
        };
        let n02 = match scale_num(e13.n, e13.d, l) {
            Some(v) => v,
            None => {
                return None;
            },
        };
        let n03 = match scale_num(e14.n, e14.d, l) {
            Some(v) => v,
            None => {
                return None;
            },
        };
        let n10 = match scale_num(e21.n, e21.d, l) {
            Some(v) => v,
            None => {
                return None;
            },
        };
        let n11 = match scale_num(e22.n, e22.d, l) {
            Some(v) => v,
            None => {
                return None;
            },
        };
        let n12 = match scale_num(e23.n, e23.d, l) {
            Some(v) => v,
            None => {
                return None;
            },
        };
        let n13 = match scale_num(e24.n, e24.d, l) {
            Some(v) => v,
            None => {
                return None;
            },
        };
        let n20 = match scale_num(e31.n, e31.d, l) {
            Some(v) => v,
            None => {
                return None;
            },
        };
        let n21 = match scale_num(e32.n, e32.d, l) {
            Some(v) => v,
            None => {
                return None;
            },
        };
        let n22 = match scale_num(e33.n, e33.d, l) {
            Some(v) => v,
            None => {
                return None;
            },
        };
        let n23 = match scale_num(e34.n, e34.d, l) {
            Some(v) => v,
            None => {
                return None;
            },
        };
        let n30 = match scale_num(e41.n, e41.d, l) {
            Some(v) => v,
            None => {
                return None;
            },
        };
        let n31 = match scale_num(e42.n, e42.d, l) {
            Some(v) => v,
            None => {
                return None;
            },
        };
        let n32 = match scale_num(e43.n, e43.d, l) {
            Some(v) => v,
            None => {
                return None;
            },
        };
        let n33 = match scale_num(e44.n, e44.d, l) {
            Some(v) => v,
            None => {
                return None;
            },
        };
        let m = Matrix4x4 {
            e: [[n00, n01, n02, n03],
                [n10, n11, n12, n13],
                [n20, n21, n22, n23],
                [n30, n31, n32, n33]],
            d: l,
        };
        proof {
            lemma_m4_ok_cells(m);
        }
        Some(m)
    }

    /// The identity matrix.
    pub fn identity() -> (r: Matrix4x4)
        ensures
            m4_ok(r),
            mv_is_identity(r@),
            r@.d == 1,
    {
        let m = Matrix4x4 {
            e: [[1, 0, 0, 0], [0, 1, 0, 0], [0, 0, 1, 0], [0, 0, 0, 1]],
            d: 1,
        };
        proof {
            lemma_m4_ok_cells(m);
            assert forall|i: int, j: int| 0 <= i < 4 && 0 <= j < 4 implies rat_eq(
                #[trigger] mv_entry(m@, i, j),
                if i == j { rat_one() } else { rat_zero() },
            ) by {
                lemma_idx16(i, j);
            }
        }
        m
    }

    /// The cell at row `a`, column `b`, as a scalar.
    pub fn at(&self, a: usize, b: usize) -> (r: Scalar)
        requires
            m4_ok(*self),
            a < 4,
            b < 4,
        ensures
            sc_ok(r),
            r@ == mv_entry(self@, a as int, b as int),
    {
        Scalar { n: self.e[a][b], d: self.d }
    }

    /// The transpose: cell (i, j) holds what (j, i) held.
    pub fn transpose(&self) -> (r: Matrix4x4)
        requires
            m4_ok(*self),
        ensures
            m4_ok(r),
            r@.d == self@.d,
            forall|i: int, j: int|
                0 <= i < 4 && 0 <= j < 4 ==> #[trigger] r@.e[i][j] == self@.e[j][i],
    {
        let m = Matrix4x4 {
            e: [
                [self.e[0][0], self.e[1][0], self.e[2][0], self.e[3][0]],
                [self.e[0][1], self.e[1][1], self.e[2][1], self.e[3][1]],
                [self.e[0][2], self.e[1][2], self.e[2][2], self.e[3][2]],
                [self.e[0][3], self.e[1][3], self.e[2][3], self.e[3][3]],
            ],
            d: self.d,
        };
        proof {
            lemma_m4_ok_cells(m);
            assert forall|i: int, j: int| 0 <= i < 4 && 0 <= j < 4 implies #[trigger] m@.e[i][j]
                == self@.e[j][i] by {
                lemma_idx16(i, j);
            }
        }
        m
    }

    /// The 3x3 matrix left after removing row `row` and column `col`.
    pub fn submatrix(&self, row: usize, col: usize) -> (r: Matrix3x3)
        requires
            m4_ok(*self),
            row < 4,
            col < 4,
        ensures
            m3_ok(r),
            r@.d == self@.d,
            forall|i: int, j: int|
                0 <= i < 3 && 0 <= j < 3 ==> #[trigger] r@.e[i][j] == self@.e[skip_at(i,
                    row as int)][skip_at(j, col as int)],
    {
        let r0 = skip_idx(0, row);
        let r1 = skip_idx(1, row);
        let r2 = skip_idx(2, row);
        let c0 = skip_idx(0, col);
        let c1 = skip_idx(1, col);
        let c2 = skip_idx(2, col);
        let m = Matrix3x3 {
            e: [
                [self.e[r0][c0], self.e[r0][c1], self.e[r0][c2]],
                [self.e[r1][c0], self.e[r1][c1], self.e[r1][c2]],
                [self.e[r2][c0], self.e[r2][c1], self.e[r2][c2]],
            ],
            d: self.d,
        };
        proof {
            lemma_m3_ok_cells(m);
            assert forall|i: int, j: int| 0 <= i < 3 && 0 <= j < 3 implies #[trigger] m@.e[i][j]
                == self@.e[skip_at(i, row as int)][skip_at(j, col as int)] by {
                lemma_idx9(i, j);
            }
        }
        m
    }

    /// The minor at (row, col): determinant of the submatrix. Its value is
    /// an integer over the cube of the shared denominator.
    pub fn minor(&self, row: usize, col: usize) -> (r: Option<Scalar>)
        requires
            m4_ok(*self),
            row < 4,
            col < 4,
        ensures
            r matches Some(s) ==> sc_ok(s) && rat_eq(
                s@,
                Rat {
                    n: mv_minor4(self@, row as int, col as int),
                    d: self@.d * self@.d * self@.d,
                },
            ),
            abs_int(mv_minor4(self@, row as int, col as int)) <= MAX_COEF as int && self@.d
                * self@.d * self@.d <= MAX_COEF as int ==> r.is_some(),
    {
        let sub = self.submatrix(row, col);
        let r = sub.determinant();
        proof {
            assert(mv_det3(sub@) == mv_minor4(self@, row as int, col as int));
        }
        r
    }

    /// The cofactor at (row, col): the minor with the checkerboard sign.
    pub fn cofactor(&self, row: usize, col: usize) -> (r: Option<Scalar>)
        requires
            m4_ok(*self),
            row < 4,
            col < 4,
        ensures
            r matches Some(s) ==> sc_ok(s) && rat_eq(
                s@,
                Rat {
                    n: mv_cof4(self@, row as int, col as int),
                    d: self@.d * self@.d * self@.d,
                },
            ),
            abs_int(mv_minor4(self@, row as int, col as int)) <= MAX_COEF as int && self@.d
                * self@.d * self@.d <= MAX_COEF as int ==> r.is_some(),
    {
        let m = match self.minor(row, col) {
            Some(v) => v,
            None => {
                return None;
            },
        };
        let d3: Ghost<int> = Ghost(self@.d * self@.d * self@.d);
        if (row + col) % 2 == 1 {
            let n = m.neg();
            proof {
                lemma_req_neg(m@, Rat { n: mv_minor4(self@, row as int, col as int), d: d3@ });
                assert((row + col) as int % 2 == (row as int + col as int) % 2);
            }
            Some(n)
        } else {
            Some(m)
        }
    }

    /// The determinant, as a scalar: the integer cofactor expansion over the
    /// fourth power of the shared denominator.
    pub fn determinant(&self) -> (r: Option<Scalar>)
        requires
            m4_ok(*self),
        ensures
            r matches Some(s) ==> sc_ok(s) && rat_eq(
                s@,
                Rat {
                    n: mv_det4(self@),
                    d: self@.d * self@.d * self@.d * self@.d,
                },
            ),
            abs_int(mv_det4(self@)) <= MAX_COEF as int && self@.d * self@.d * self@.d * self@.d
                <= MAX_COEF as int ==> r.is_some(),
    {
        let v = det4e(self);
        proof {
            lemma_mul_bound(self.d as int, self.d as int, MAX_MAT as int, MAX_MAT as int);
            lemma_pos_mul(self.d as int, self.d as int);
            lemma_mul_bound((self.d * self.d) as int, (self.d * self.d) as int,
                (MAX_MAT as int) * (MAX_MAT as int), (MAX_MAT as int) * (MAX_MAT as int));
            lemma_pos_mul((self.d * self.d) as int, (self.d * self.d) as int);
        }
        let d2 = self.d * self.d;
        let d4 = d2 * d2;
        proof {
            assert(d4 as int == ((self@.d * self@.d) * self@.d) * self@.d) by (nonlinear_arith)
                requires
                    d4 as int == (self@.d * self@.d) * (self@.d * self@.d),
            ;
        }
        reduce(v, d4)
    }

    /// The matrix product `self * rhs`: entry (i, j) is the dot product of
    /// row i of `self` with column j of `rhs`, over the product of the two
    /// shared denominators. Small factors always succeed.
    pub fn mul(&self, rhs: &Matrix4x4) -> (r: Option<Matrix4x4>)
        requires
            m4_ok(*self),
            m4_ok(*rhs),
        ensures
            r matches Some(c) ==> m4_ok(c) && forall|i: int, j: int|
                0 <= i < 4 && 0 <= j < 4 ==> rat_eq(
                    #[trigger] mv_entry(c@, i, j),
                    Rat { n: mul_entry_num(self@, rhs@, i, j), d: self@.d * rhs@.d },
                ),
            m4_small(*self) && m4_small(*rhs) ==> r.is_some(),
    {
        let p00 = mule(self, rhs, 0, 0);
        let p01 = mule(self, rhs, 0, 1);
        let p02 = mule(self, rhs, 0, 2);
        let p03 = mule(self, rhs, 0, 3);
        let p10 = mule(self, rhs, 1, 0);
        let p11 = mule(self, rhs, 1, 1);
        let p12 = mule(self, rhs, 1, 2);
        let p13 = mule(self, rhs, 1, 3);
        let p20 = mule(self, rhs, 2, 0);
        let p21 = mule(self, rhs, 2, 1);
        let p22 = mule(self, rhs, 2, 2);
        let p23 = mule(self, rhs, 2, 3);
        let p30 = mule(self, rhs, 3, 0);
        let p31 = mule(self, rhs, 3, 1);
        let p32 = mule(self, rhs, 3, 2);
        let p33 = mule(self, rhs, 3, 3);
        proof {
            lemma_mul_bound(self.d as int, rhs.d as int, MAX_MAT as int, MAX_MAT as int);
            lemma_pos_mul(self.d as int, rhs.d as int);
            if m4_small(*self) && m4_small(*rhs) {
                lemma_mul_bound(self.d as int, rhs.d as int, SMALL_MAT as int, SMALL_MAT as int);
            }
        }
        let p = [[p00, p01, p02, p03],
            [p10, p11, p12, p13],
            [p20, p21, p22, p23],
            [p30, p31, p32, p33]];
        let dd = self.d * rhs.d;
        proof {
            assert forall|i: int, j: int| 0 <= i < 4 && 0 <= j < 4 implies
                -RAW_LIMIT <= #[trigger] (p[i][j] as int) <= RAW_LIMIT by {
                lemma_idx16(i, j);
            }
            if m4_small(*self) && m4_small(*rhs) {
                assert forall|i: int, j: int| 0 <= i < 4 && 0 <= j < 4 implies
                    -MAX_MAT <= #[trigger] (p[i][j] as int) <= MAX_MAT by {
                    lemma_idx16(i, j);
                }
            }
        }
        let r = reduce_mat(p, dd);
        proof {
            if let Some(c) = r {
                assert forall|i: int, j: int| 0 <= i < 4 && 0 <= j < 4 implies rat_eq(
                    #[trigger] mv_entry(c@, i, j),
                    Rat { n: mul_entry_num(self@, rhs@, i, j), d: self@.d * rhs@.d },
                ) by {
                    lemma_idx16(i, j);
                    assert(rat_eq(mv_entry(c@, i, j), Rat { n: p[i][j] as int, d: dd as int }));
                }
            }
        }
        r
    }

    /// Tolerance-based equality: every pair of cells differs by at most
    /// 1/100000 in value.
    pub fn approx_eq(&self, other: &Matrix4x4) -> (r: bool)
        requires
            m4_ok(*self),
            m4_ok(*other),
        ensures
            r == forall|i: int, j: int|
                0 <= i < 4 && 0 <= j < 4 ==> rat_approx_eq(
                    #[trigger] mv_entry(self@, i, j),
                    mv_entry(other@, i, j),
                ),
    {
        let mut i: usize = 0;
        while i < 4
            invariant
                m4_ok(*self),
                m4_ok(*other),
                i <= 4,
                forall|p: int, q: int|
                    0 <= p < i && 0 <= q < 4 ==> rat_approx_eq(
                        #[trigger] mv_entry(self@, p, q),
                        mv_entry(other@, p, q),
                    ),
            decreases 4 - i,
        {
            let mut j: usize = 0;
            while j < 4
                invariant
                    m4_ok(*self),
                    m4_ok(*other),
                    i < 4,
                    j <= 4,
                    forall|p: int, q: int|
                        0 <= p < i && 0 <= q < 4 ==> rat_approx_eq(
                            #[trigger] mv_entry(self@, p, q),
                            mv_entry(other@, p, q),
                        ),
                    forall|q: int|
                        0 <= q < j ==> rat_approx_eq(
                            #[trigger] mv_entry(self@, i as int, q),
                            mv_entry(other@, i as int, q),
                        ),
                decreases 4 - j,
            {
                if !self.at(i, j).approx_eq(&other.at(i, j)) {
                    return false;
                }
                j += 1;
            }
            i += 1;
        }
        true
    }
}

impl Matrix3x3 {
    /// A matrix from nine scalars in row-major order, brought onto one
    /// shared denominator.
    pub fn new(
        e11: Scalar, e12: Scalar, e13: Scalar,
        e21: Scalar, e22: Scalar, e23: Scalar,
        e31: Scalar, e32: Scalar, e33: Scalar,
    ) -> (r: Option<Matrix3x3>)
        requires
            sc_ok(e11),
            sc_ok(e12),
            sc_ok(e13),
            sc_ok(e21),
            sc_ok(e22),
            sc_ok(e23),
            sc_ok(e31),
            sc_ok(e32),
            sc_ok(e33),
        ensures
            r matches Some(m) ==> m3_ok(m)
                && rat_eq(mv_entry(m@, 0, 0), e11@)
                && rat_eq(mv_entry(m@, 0, 1), e12@)
                && rat_eq(mv_entry(m@, 0, 2), e13@)
                && rat_eq(mv_entry(m@, 1, 0), e21@)
                && rat_eq(mv_entry(m@, 1, 1), e22@)
                && rat_eq(mv_entry(m@, 1, 2), e23@)
                && rat_eq(mv_entry(m@, 2, 0), e31@)
                && rat_eq(mv_entry(m@, 2, 1), e32@)
                && rat_eq(mv_entry(m@, 2, 2), e33@)
                ,
            e11@.d <= MAX_MAT as int
                && e12@.d == e11@.d
                && e13@.d == e11@.d
                && e21@.d == e11@.d
                && e22@.d == e11@.d
                && e23@.d == e11@.d
                && e31@.d == e11@.d
                && e32@.d == e11@.d
                && e33@.d == e11@.d
                && abs_int(e11@.n) <= MAX_MAT as int
                && abs_int(e12@.n) <= MAX_MAT as int
                && abs_int(e13@.n) <= MAX_MAT as int
                && abs_int(e21@.n) <= MAX_MAT as int
                && abs_int(e22@.n) <= MAX_MAT as int
                && abs_int(e23@.n) <= MAX_MAT as int
                && abs_int(e31@.n) <= MAX_MAT as int
                && abs_int(e32@.n) <= MAX_MAT as int
                && abs_int(e33@.n) <= MAX_MAT as int
                ==> r.is_some(),
    {
        if e11.d > MAX_MAT {
            return None;
        }
        let mut l = e11.d;
        l = match merge_den(l, e12.d) {
            Some(v) => v,
            None => {
                return None;
            },
        };
        l = match merge_den(l, e13.d) {
            Some(v) => v,
            None => {
                return None;
            },
        };
        l = match merge_den(l, e21.d) {
            Some(v) => v,
            None => {
                return None;
            },
        };
        l = match merge_den(l, e22.d) {
            Some(v) => v,
            None => {
                return None;
            },
        };
        l = match merge_den(l, e23.d) {
            Some(v) => v,
            None => {
                return None;
            },
        };
        l = match merge_den(l, e31.d) {
            Some(v) => v,
            None => {
                return None;
            },
        };
        l = match merge_den(l, e32.d) {
            Some(v) => v,
            None => {
                return None;
            },
        };
        l = match merge_den(l, e33.d) {
            Some(v) => v,
            None => {
                return None;
            },
        };
        let n00 = match scale_num(e11.n, e11.d, l) {
            Some(v) => v,
            None => {
                return None;
            },
        };
        let n01 = match scale_num(e12.n, e12.d, l) {
            Some(v) => v,
            None => {
                return None;
            },
        };
        let n02 = match scale_num(e13.n, e13.d, l) {
            Some(v) => v,
            None => {
                return None;
            },
        };
        let n10 = match scale_num(e21.n, e21.d, l) {
            Some(v) => v,
            None => {
                return None;
            },
        };
        let n11 = match scale_num(e22.n, e22.d, l) {
            Some(v) => v,
            None => {
                return None;
            },
        };
        let n12 = match scale_num(e23.n, e23.d, l) {
            Some(v) => v,
            None => {
                return None;
            },
        };
        let n20 = match scale_num(e31.n, e31.d, l) {
            Some(v) => v,
            None => {
                return None;
            },
        };
        let n21 = match scale_num(e32.n, e32.d, l) {
            Some(v) => v,
            None => {
                return None;
            },
        };
        let n22 = match scale_num(e33.n, e33.d, l) {
            Some(v) => v,
            None => {
                return None;
            },
        };
        let m = Matrix3x3 {
            e: [[n00, n01, n02],
                [n10, n11, n12],
                [n20, n21, n22]],
            d: l,
        };
        proof {
            lemma_m3_ok_cells(m);
        }
        Some(m)
    }

    /// The cell at row `a`, column `b`, as a scalar.
    pub fn at(&self, a: usize, b: usize) -> (r: Scalar)
        requires
            m3_ok(*self),
            a < 3,
            b < 3,
        ensures
            sc_ok(r),
            r@ == mv_entry(self@, a as int, b as int),
    {
        Scalar { n: self.e[a][b], d: self.d }
    }

    /// The 2x2 matrix left after removing row `row` and column `col`.
    pub fn submatrix(&self, row: usize, col: usize) -> (r: Matrix2x2)
        requires
            m3_ok(*self),
            row < 3,
            col < 3,
        ensures
            m2_ok(r),
            r@.d == self@.d,
            forall|i: int, j: int|
                0 <= i < 2 && 0 <= j < 2 ==> #[trigger] r@.e[i][j] == self@.e[skip_at(i,
                    row as int)][skip_at(j, col as int)],
    {
        let r0 = skip_idx(0, row);
        let r1 = skip_idx(1, row);
        let c0 = skip_idx(0, col);
        let c1 = skip_idx(1, col);
        let m = Matrix2x2 {
            e: [[self.e[r0][c0], self.e[r0][c1]], [self.e[r1][c0], self.e[r1][c1]]],
            d: self.d,
        };
        proof {
            lemma_m2_ok_cells(m);
            assert forall|i: int, j: int| 0 <= i < 2 && 0 <= j < 2 implies #[trigger] m@.e[i][j]
                == self@.e[skip_at(i, row as int)][skip_at(j, col as int)] by {
                assert((i == 0 || i == 1) && (j == 0 || j == 1));
            }
        }
        m
    }

    /// The minor at (row, col): determinant of the submatrix, an integer
    /// over the square of the shared denominator.
    pub fn minor(&self, row: usize, col: usize) -> (r: Option<Scalar>)
        requires
            m3_ok(*self),
            row < 3,
            col < 3,
        ensures
            r matches Some(s) ==> sc_ok(s) && rat_eq(
                s@,
                Rat { n: mv_minor3(self@, row as int, col as int), d: self@.d * self@.d },
            ),
            abs_int(mv_minor3(self@, row as int, col as int)) <= MAX_COEF as int && self@.d
                * self@.d <= MAX_COEF as int ==> r.is_some(),
    {
        let sub = self.submatrix(row, col);
        let r = sub.determinant();
        proof {
            assert(mv_det2(sub@) == mv_minor3(self@, row as int, col as int));
        }
        r
    }

    /// The cofactor at (row, col): the minor with the checkerboard sign.
    pub fn cofactor(&self, row: usize, col: usize) -> (r: Option<Scalar>)
        requires
            m3_ok(*self),
            row < 3,
            col < 3,
        ensures
            r matches Some(s) ==> sc_ok(s) && rat_eq(
                s@,
                Rat { n: mv_cof3(self@, row as int, col as int), d: self@.d * self@.d },
            ),
            abs_int(mv_minor3(self@, row as int, col as int)) <= MAX_COEF as int && self@.d
                * self@.d <= MAX_COEF as int ==> r.is_some(),
    {
        let m = match self.minor(row, col) {
            Some(v) => v,
            None => {
                return None;
            },
        };
        let d2: Ghost<int> = Ghost(self@.d * self@.d);
        if (row + col) % 2 == 1 {
            let n = m.neg();
            proof {
                lemma_req_neg(m@, Rat { n: mv_minor3(self@, row as int, col as int), d: d2@ });
                assert((row + col) as int % 2 == (row as int + col as int) % 2);
            }
            Some(n)
        } else {
            Some(m)
        }
    }

    /// The determinant, as a scalar: the integer cofactor expansion over the
    /// cube of the shared denominator.
    pub fn determinant(&self) -> (r: Option<Scalar>)
        requires
            m3_ok(*self),
        ensures
            r matches Some(s) ==> sc_ok(s) && rat_eq(
                s@,
                Rat { n: mv_det3(self@), d: self@.d * self@.d * self@.d },
            ),
            abs_int(mv_det3(self@)) <= MAX_COEF as int && self@.d * self@.d * self@.d
                <= MAX_COEF as int ==> r.is_some(),
    {
        let v = det3e(
            self.e[0][0], self.e[0][1], self.e[0][2],
            self.e[1][0], self.e[1][1], self.e[1][2],
            self.e[2][0], self.e[2][1], self.e[2][2],
        );
        proof {
            lemma_mul_bound(self.d as int, self.d as int, MAX_MAT as int, MAX_MAT as int);
            lemma_pos_mul(self.d as int, self.d as int);
            lemma_mul_bound((self.d * self.d) as int, self.d as int,
                (MAX_MAT as int) * (MAX_MAT as int), MAX_MAT as int);
            lemma_pos_mul((self.d * self.d) as int, self.d as int);
        }
        let d3 = self.d * self.d * self.d;
        reduce(v, d3)
    }

    /// Tolerance-based equality of all nine cells.
    pub fn approx_eq(&self, other: &Matrix3x3) -> (r: bool)
        requires
            m3_ok(*self),
            m3_ok(*other),
        ensures
            r == forall|i: int, j: int|
                0 <= i < 3 && 0 <= j < 3 ==> rat_approx_eq(
                    #[trigger] mv_entry(self@, i, j),
                    mv_entry(other@, i, j),
                ),
    {
        let mut i: usize = 0;
        while i < 3
            invariant
                m3_ok(*self),
                m3_ok(*other),
                i <= 3,
                forall|p: int, q: int|
                    0 <= p < i && 0 <= q < 3 ==> rat_approx_eq(
                        #[trigger] mv_entry(self@, p, q),
                        mv_entry(other@, p, q),
                    ),
            decreases 3 - i,
        {
            let mut j: usize = 0;
            while j < 3
                invariant
                    m3_ok(*self),
                    m3_ok(*other),
                    i < 3,
                    j <= 3,
                    forall|p: int, q: int|
                        0 <= p < i && 0 <= q < 3 ==> rat_approx_eq(
                            #[trigger] mv_entry(self@, p, q),
                            mv_entry(other@, p, q),
                        ),
                    forall|q: int|
                        0 <= q < j ==> rat_approx_eq(
                            #[trigger] mv_entry(self@, i as int, q),
                            mv_entry(other@, i as int, q),
                        ),
                decreases 3 - j,
            {
                if !self.at(i, j).approx_eq(&other.at(i, j)) {
                    return false;
                }
                j += 1;
            }
            i += 1;
        }
        true
    }
}

impl Matrix2x2 {
    /// A matrix from four scalars in row-major order, brought onto one
    /// shared denominator.
    pub fn new(e11: Scalar, e12: Scalar, e21: Scalar, e22: Scalar) -> (r: Option<Matrix2x2>)
        requires
            sc_ok(e11),
            sc_ok(e12),
            sc_ok(e21),
            sc_ok(e22),
        ensures
            r matches Some(m) ==> m2_ok(m)
                && rat_eq(mv_entry(m@, 0, 0), e11@)
                && rat_eq(mv_entry(m@, 0, 1), e12@)
                && rat_eq(mv_entry(m@, 1, 0), e21@)
                && rat_eq(mv_entry(m@, 1, 1), e22@),
            e11@.d <= MAX_MAT as int
                && e12@.d == e11@.d
                && e21@.d == e11@.d
                && e22@.d == e11@.d
                && abs_int(e11@.n) <= MAX_MAT as int
                && abs_int(e12@.n) <= MAX_MAT as int
                && abs_int(e21@.n) <= MAX_MAT as int
                && abs_int(e22@.n) <= MAX_MAT as int
                ==> r.is_some(),
    {
        if e11.d > MAX_MAT {
            return None;
        }
        let mut l = e11.d;
        l = match merge_den(l, e12.d) {
            Some(v) => v,
            None => {
                return None;
            },
        };
        l = match merge_den(l, e21.d) {
            Some(v) => v,
            None => {
                return None;
            },
        };
        l = match merge_den(l, e22.d) {
            Some(v) => v,
            None => {
                return None;
            },
        };
        let n00 = match scale_num(e11.n, e11.d, l) {
            Some(v) => v,
            None => {
                return None;
            },
        };
        let n01 = match scale_num(e12.n, e12.d, l) {
            Some(v) => v,
            None => {
                return None;
            },
        };
        let n10 = match scale_num(e21.n, e21.d, l) {
            Some(v) => v,
            None => {
                return None;
            },
        };
        let n11 = match scale_num(e22.n, e22.d, l) {
            Some(v) => v,
            None => {
                return None;
            },
        };
        let m = Matrix2x2 {
            e: [[n00, n01], [n10, n11]],
            d: l,
        };
        proof {
            lemma_m2_ok_cells(m);
        }
        Some(m)
    }

    /// The cell at row `a`, column `b`, as a scalar.
    pub fn at(&self, a: usize, b: usize) -> (r: Scalar)
        requires
            m2_ok(*self),
            a < 2,
            b < 2,
        ensures
            sc_ok(r),
            r@ == mv_entry(self@, a as int, b as int),
    {
        Scalar { n: self.e[a][b], d: self.d }
    }

    /// The determinant, over the square of the denominator.
    pub fn determinant(&self) -> (r: Option<Scalar>)
        requires
            m2_ok(*self),
        ensures
            r matches Some(s) ==> sc_ok(s) && rat_eq(
                s@,
                Rat { n: mv_det2(self@), d: self@.d * self@.d },
            ),
            abs_int(mv_det2(self@)) <= MAX_COEF as int && self@.d * self@.d <= MAX_COEF as int
                ==> r.is_some(),
    {
        let v = det2e(self.e[0][0], self.e[0][1], self.e[1][0], self.e[1][1]);
        proof {
            lemma_mul_bound(self.d as int, self.d as int, MAX_MAT as int, MAX_MAT as int);
            lemma_pos_mul(self.d as int, self.d as int);
        }
        let d2 = self.d * self.d;
        reduce(v, d2)
    }

    /// Tolerance-based equality of all four cells.
    pub fn approx_eq(&self, other: &Matrix2x2) -> (r: bool)
        requires
            m2_ok(*self),
            m2_ok(*other),
        ensures
            r == forall|i: int, j: int|
                0 <= i < 2 && 0 <= j < 2 ==> rat_approx_eq(
                    #[trigger] mv_entry(self@, i, j),
                    mv_entry(other@, i, j),
                ),
    {
        let a = self.at(0, 0).approx_eq(&other.at(0, 0));
        let b = self.at(0, 1).approx_eq(&other.at(0, 1));
        let c = self.at(1, 0).approx_eq(&other.at(1, 0));
        let d = self.at(1, 1).approx_eq(&other.at(1, 1));
        let r = a && b && c && d;
        proof {
            if r {
                assert forall|i: int, j: int| 0 <= i < 2 && 0 <= j < 2 implies rat_approx_eq(
                    #[trigger] mv_entry(self@, i, j),
                    mv_entry(other@, i, j),
                ) by {
                    assert((i == 0 || i == 1) && (j == 0 || j == 1));
                }
            }
        }
        r
    }
}

/// A row of one matrix against the cofactors of a row of the same matrix:
/// the sums the adjugate construction is made of.
pub open spec fn adj_sum(m: MatVal, i: int, j: int) -> int {
    m.e[i][0] * mv_cof4(m, j, 0) + m.e[i][1] * mv_cof4(m, j, 1) + m.e[i][2] * mv_cof4(m, j, 2)
        + m.e[i][3] * mv_cof4(m, j, 3)
}

/// The cofactors of row 0 of a 4x4 matrix against each row.
proof fn lemma_adj_col0(m: MatVal)
    requires
        mv_wf(m, 4),
    ensures
        adj_sum(m, 0, 0) == mv_det4(m),
        adj_sum(m, 1, 0) == 0,
        adj_sum(m, 2, 0) == 0,
        adj_sum(m, 3, 0) == 0,
{
    lemma_mul_subst(m.e[0][0], mv_cof4(m, 0, 0), mv_minor4(m, 0, 0));
    lemma_mul_negof(m.e[0][1], mv_cof4(m, 0, 1), mv_minor4(m, 0, 1));
    lemma_mul_subst(m.e[0][2], mv_cof4(m, 0, 2), mv_minor4(m, 0, 2));
    lemma_mul_negof(m.e[0][3], mv_cof4(m, 0, 3), mv_minor4(m, 0, 3));
    assert(adj_sum(m, 0, 0) == det4f(m.e[0][0], m.e[0][1], m.e[0][2], m.e[0][3], m.e[1][0], m.e[1][1], m.e[1][2], m.e[1][3], m.e[2][0], m.e[2][1], m.e[2][2], m.e[2][3], m.e[3][0], m.e[3][1], m.e[3][2], m.e[3][3]));
    lemma_mul_subst(m.e[1][0], mv_cof4(m, 0, 0), mv_minor4(m, 0, 0));
    lemma_mul_negof(m.e[1][1], mv_cof4(m, 0, 1), mv_minor4(m, 0, 1));
    lemma_mul_subst(m.e[1][2], mv_cof4(m, 0, 2), mv_minor4(m, 0, 2));
    lemma_mul_negof(m.e[1][3], mv_cof4(m, 0, 3), mv_minor4(m, 0, 3));
    assert(adj_sum(m, 1, 0) == det4f(m.e[1][0], m.e[1][1], m.e[1][2], m.e[1][3], m.e[1][0], m.e[1][1], m.e[1][2], m.e[1][3], m.e[2][0], m.e[2][1], m.e[2][2], m.e[2][3], m.e[3][0], m.e[3][1], m.e[3][2], m.e[3][3]));
    lemma_mul_subst(m.e[2][0], mv_cof4(m, 0, 0), mv_minor4(m, 0, 0));
    lemma_mul_negof(m.e[2][1], mv_cof4(m, 0, 1), mv_minor4(m, 0, 1));
    lemma_mul_subst(m.e[2][2], mv_cof4(m, 0, 2), mv_minor4(m, 0, 2));
    lemma_mul_negof(m.e[2][3], mv_cof4(m, 0, 3), mv_minor4(m, 0, 3));
    assert(adj_sum(m, 2, 0) == det4f(m.e[2][0], m.e[2][1], m.e[2][2], m.e[2][3], m.e[1][0], m.e[1][1], m.e[1][2], m.e[1][3], m.e[2][0], m.e[2][1], m.e[2][2], m.e[2][3], m.e[3][0], m.e[3][1], m.e[3][2], m.e[3][3]));
    lemma_mul_subst(m.e[3][0], mv_cof4(m, 0, 0), mv_minor4(m, 0, 0));
    lemma_mul_negof(m.e[3][1], mv_cof4(m, 0, 1), mv_minor4(m, 0, 1));
    lemma_mul_subst(m.e[3][2], mv_cof4(m, 0, 2), mv_minor4(m, 0, 2));
    lemma_mul_negof(m.e[3][3], mv_cof4(m, 0, 3), mv_minor4(m, 0, 3));
    assert(adj_sum(m, 3, 0) == det4f(m.e[3][0], m.e[3][1], m.e[3][2], m.e[3][3], m.e[1][0], m.e[1][1], m.e[1][2], m.e[1][3], m.e[2][0], m.e[2][1], m.e[2][2], m.e[2][3], m.e[3][0], m.e[3][1], m.e[3][2], m.e[3][3]));
    lemma_det4_repeat01(m.e[1][0], m.e[1][1], m.e[1][2], m.e[1][3], m.e[2][0], m.e[2][1], m.e[2][2], m.e[2][3], m.e[3][0], m.e[3][1], m.e[3][2], m.e[3][3]);
    lemma_det4_repeat02(m.e[2][0], m.e[2][1], m.e[2][2], m.e[2][3], m.e[1][0], m.e[1][1], m.e[1][2], m.e[1][3], m.e[3][0], m.e[3][1], m.e[3][2], m.e[3][3]);
    lemma_det4_repeat03(m.e[3][0], m.e[3][1], m.e[3][2], m.e[3][3], m.e[1][0], m.e[1][1], m.e[1][2], m.e[1][3], m.e[2][0], m.e[2][1], m.e[2][2], m.e[2][3]);
}

/// The cofactors of row 1 of a 4x4 matrix against each row.
proof fn lemma_adj_col1(m: MatVal)
    requires
        mv_wf(m, 4),
    ensures
        adj_sum(m, 0, 1) == 0,
        adj_sum(m, 1, 1) == mv_det4(m),
        adj_sum(m, 2, 1) == 0,
        adj_sum(m, 3, 1) == 0,
{
    lemma_mul_negof(m.e[0][0], mv_cof4(m, 1, 0), mv_minor4(m, 1, 0));
    lemma_mul_subst(m.e[0][1], mv_cof4(m, 1, 1), mv_minor4(m, 1, 1));
    lemma_mul_negof(m.e[0][2], mv_cof4(m, 1, 2), mv_minor4(m, 1, 2));
    lemma_mul_subst(m.e[0][3], mv_cof4(m, 1, 3), mv_minor4(m, 1, 3));
    assert(adj_sum(m, 0, 1) == -det4f(m.e[0][0], m.e[0][1], m.e[0][2], m.e[0][3], m.e[0][0], m.e[0][1], m.e[0][2], m.e[0][3], m.e[2][0], m.e[2][1], m.e[2][2], m.e[2][3], m.e[3][0], m.e[3][1], m.e[3][2], m.e[3][3]));
    lemma_mul_negof(m.e[1][0], mv_cof4(m, 1, 0), mv_minor4(m, 1, 0));
    lemma_mul_subst(m.e[1][1], mv_cof4(m, 1, 1), mv_minor4(m, 1, 1));
    lemma_mul_negof(m.e[1][2], mv_cof4(m, 1, 2), mv_minor4(m, 1, 2));
    lemma_mul_subst(m.e[1][3], mv_cof4(m, 1, 3), mv_minor4(m, 1, 3));
    assert(adj_sum(m, 1, 1) == -det4f(m.e[1][0], m.e[1][1], m.e[1][2], m.e[1][3], m.e[0][0], m.e[0][1], m.e[0][2], m.e[0][3], m.e[2][0], m.e[2][1], m.e[2][2], m.e[2][3], m.e[3][0], m.e[3][1], m.e[3][2], m.e[3][3]));
    lemma_mul_negof(m.e[2][0], mv_cof4(m, 1, 0), mv_minor4(m, 1, 0));
    lemma_mul_subst(m.e[2][1], mv_cof4(m, 1, 1), mv_minor4(m, 1, 1));
    lemma_mul_negof(m.e[2][2], mv_cof4(m, 1, 2), mv_minor4(m, 1, 2));
    lemma_mul_subst(m.e[2][3], mv_cof4(m, 1, 3), mv_minor4(m, 1, 3));
    assert(adj_sum(m, 2, 1) == -det4f(m.e[2][0], m.e[2][1], m.e[2][2], m.e[2][3], m.e[0][0], m.e[0][1], m.e[0][2], m.e[0][3], m.e[2][0], m.e[2][1], m.e[2][2], m.e[2][3], m.e[3][0], m.e[3][1], m.e[3][2], m.e[3][3]));
    lemma_mul_negof(m.e[3][0], mv_cof4(m, 1, 0), mv_minor4(m, 1, 0));
    lemma_mul_subst(m.e[3][1], mv_cof4(m, 1, 1), mv_minor4(m, 1, 1));
    lemma_mul_negof(m.e[3][2], mv_cof4(m, 1, 2), mv_minor4(m, 1, 2));
    lemma_mul_subst(m.e[3][3], mv_cof4(m, 1, 3), mv_minor4(m, 1, 3));
    assert(adj_sum(m, 3, 1) == -det4f(m.e[3][0], m.e[3][1], m.e[3][2], m.e[3][3], m.e[0][0], m.e[0][1], m.e[0][2], m.e[0][3], m.e[2][0], m.e[2][1], m.e[2][2], m.e[2][3], m.e[3][0], m.e[3][1], m.e[3][2], m.e[3][3]));
    lemma_det4_repeat01(m.e[0][0], m.e[0][1], m.e[0][2], m.e[0][3], m.e[2][0], m.e[2][1], m.e[2][2], m.e[2][3], m.e[3][0], m.e[3][1], m.e[3][2], m.e[3][3]);
    lemma_det4_swap01(m.e[1][0], m.e[1][1], m.e[1][2], m.e[1][3], m.e[0][0], m.e[0][1], m.e[0][2], m.e[0][3], m.e[2][0], m.e[2][1], m.e[2][2], m.e[2][3], m.e[3][0], m.e[3][1], m.e[3][2], m.e[3][3]);
    lemma_det4_repeat02(m.e[2][0], m.e[2][1], m.e[2][2], m.e[2][3], m.e[0][0], m.e[0][1], m.e[0][2], m.e[0][3], m.e[3][0], m.e[3][1], m.e[3][2], m.e[3][3]);
    lemma_det4_repeat03(m.e[3][0], m.e[3][1], m.e[3][2], m.e[3][3], m.e[0][0], m.e[0][1], m.e[0][2], m.e[0][3], m.e[2][0], m.e[2][1], m.e[2][2], m.e[2][3]);
}

/// The cofactors of row 2 of a 4x4 matrix against each row.
proof fn lemma_adj_col2(m: MatVal)
    requires
        mv_wf(m, 4),
    ensures
        adj_sum(m, 0, 2) == 0,
        adj_sum(m, 1, 2) == 0,
        adj_sum(m, 2, 2) == mv_det4(m),
        adj_sum(m, 3, 2) == 0,
{
    lemma_mul_subst(m.e[0][0], mv_cof4(m, 2, 0), mv_minor4(m, 2, 0));
    lemma_mul_negof(m.e[0][1], mv_cof4(m, 2, 1), mv_minor4(m, 2, 1));
    lemma_mul_subst(m.e[0][2], mv_cof4(m, 2, 2), mv_minor4(m, 2, 2));
    lemma_mul_negof(m.e[0][3], mv_cof4(m, 2, 3), mv_minor4(m, 2, 3));
    assert(adj_sum(m, 0, 2) == det4f(m.e[0][0], m.e[0][1], m.e[0][2], m.e[0][3], m.e[0][0], m.e[0][1], m.e[0][2], m.e[0][3], m.e[1][0], m.e[1][1], m.e[1][2], m.e[1][3], m.e[3][0], m.e[3][1], m.e[3][2], m.e[3][3]));
    lemma_mul_subst(m.e[1][0], mv_cof4(m, 2, 0), mv_minor4(m, 2, 0));
    lemma_mul_negof(m.e[1][1], mv_cof4(m, 2, 1), mv_minor4(m, 2, 1));
    lemma_mul_subst(m.e[1][2], mv_cof4(m, 2, 2), mv_minor4(m, 2, 2));
    lemma_mul_negof(m.e[1][3], mv_cof4(m, 2, 3), mv_minor4(m, 2, 3));
    assert(adj_sum(m, 1, 2) == det4f(m.e[1][0], m.e[1][1], m.e[1][2], m.e[1][3], m.e[0][0], m.e[0][1], m.e[0][2], m.e[0][3], m.e[1][0], m.e[1][1], m.e[1][2], m.e[1][3], m.e[3][0], m.e[3][1], m.e[3][2], m.e[3][3]));
    lemma_mul_subst(m.e[2][0], mv_cof4(m, 2, 0), mv_minor4(m, 2, 0));
    lemma_mul_negof(m.e[2][1], mv_cof4(m, 2, 1), mv_minor4(m, 2, 1));
    lemma_mul_subst(m.e[2][2], mv_cof4(m, 2, 2), mv_minor4(m, 2, 2));
    lemma_mul_negof(m.e[2][3], mv_cof4(m, 2, 3), mv_minor4(m, 2, 3));
    assert(adj_sum(m, 2, 2) == det4f(m.e[2][0], m.e[2][1], m.e[2][2], m.e[2][3], m.e[0][0], m.e[0][1], m.e[0][2], m.e[0][3], m.e[1][0], m.e[1][1], m.e[1][2], m.e[1][3], m.e[3][0], m.e[3][1], m.e[3][2], m.e[3][3]));
    lemma_mul_subst(m.e[3][0], mv_cof4(m, 2, 0), mv_minor4(m, 2, 0));
    lemma_mul_negof(m.e[3][1], mv_cof4(m, 2, 1), mv_minor4(m, 2, 1));
    lemma_mul_subst(m.e[3][2], mv_cof4(m, 2, 2), mv_minor4(m, 2, 2));
    lemma_mul_negof(m.e[3][3], mv_cof4(m, 2, 3), mv_minor4(m, 2, 3));
    assert(adj_sum(m, 3, 2) == det4f(m.e[3][0], m.e[3][1], m.e[3][2], m.e[3][3], m.e[0][0], m.e[0][1], m.e[0][2], m.e[0][3], m.e[1][0], m.e[1][1], m.e[1][2], m.e[1][3], m.e[3][0], m.e[3][1], m.e[3][2], m.e[3][3]));
    lemma_det4_repeat01(m.e[0][0], m.e[0][1], m.e[0][2], m.e[0][3], m.e[1][0], m.e[1][1], m.e[1][2], m.e[1][3], m.e[3][0], m.e[3][1], m.e[3][2], m.e[3][3]);
    lemma_det4_repeat02(m.e[1][0], m.e[1][1], m.e[1][2], m.e[1][3], m.e[0][0], m.e[0][1], m.e[0][2], m.e[0][3], m.e[3][0], m.e[3][1], m.e[3][2], m.e[3][3]);
    lemma_det4_move2(m.e[0][0], m.e[0][1], m.e[0][2], m.e[0][3], m.e[1][0], m.e[1][1], m.e[1][2], m.e[1][3], m.e[2][0], m.e[2][1], m.e[2][2], m.e[2][3], m.e[3][0], m.e[3][1], m.e[3][2], m.e[3][3]);
    lemma_det4_repeat03(m.e[3][0], m.e[3][1], m.e[3][2], m.e[3][3], m.e[0][0], m.e[0][1], m.e[0][2], m.e[0][3], m.e[1][0], m.e[1][1], m.e[1][2], m.e[1][3]);
}

/// The cofactors of row 3 of a 4x4 matrix against each row.
proof fn lemma_adj_col3(m: MatVal)
    requires
        mv_wf(m, 4),
    ensures
        adj_sum(m, 0, 3) == 0,
        adj_sum(m, 1, 3) == 0,
        adj_sum(m, 2, 3) == 0,
        adj_sum(m, 3, 3) == mv_det4(m),
{
    lemma_mul_negof(m.e[0][0], mv_cof4(m, 3, 0), mv_minor4(m, 3, 0));
    lemma_mul_subst(m.e[0][1], mv_cof4(m, 3, 1), mv_minor4(m, 3, 1));
    lemma_mul_negof(m.e[0][2], mv_cof4(m, 3, 2), mv_minor4(m, 3, 2));
    lemma_mul_subst(m.e[0][3], mv_cof4(m, 3, 3), mv_minor4(m, 3, 3));
    assert(adj_sum(m, 0, 3) == -det4f(m.e[0][0], m.e[0][1], m.e[0][2], m.e[0][3], m.e[0][0], m.e[0][1], m.e[0][2], m.e[0][3], m.e[1][0], m.e[1][1], m.e[1][2], m.e[1][3], m.e[2][0], m.e[2][1], m.e[2][2], m.e[2][3]));
    lemma_mul_negof(m.e[1][0], mv_cof4(m, 3, 0), mv_minor4(m, 3, 0));
    lemma_mul_subst(m.e[1][1], mv_cof4(m, 3, 1), mv_minor4(m, 3, 1));
    lemma_mul_negof(m.e[1][2], mv_cof4(m, 3, 2), mv_minor4(m, 3, 2));
    lemma_mul_subst(m.e[1][3], mv_cof4(m, 3, 3), mv_minor4(m, 3, 3));
    assert(adj_sum(m, 1, 3) == -det4f(m.e[1][0], m.e[1][1], m.e[1][2], m.e[1][3], m.e[0][0], m.e[0][1], m.e[0][2], m.e[0][3], m.e[1][0], m.e[1][1], m.e[1][2], m.e[1][3], m.e[2][0], m.e[2][1], m.e[2][2], m.e[2][3]));
    lemma_mul_negof(m.e[2][0], mv_cof4(m, 3, 0), mv_minor4(m, 3, 0));
    lemma_mul_subst(m.e[2][1], mv_cof4(m, 3, 1), mv_minor4(m, 3, 1));
    lemma_mul_negof(m.e[2][2], mv_cof4(m, 3, 2), mv_minor4(m, 3, 2));
    lemma_mul_subst(m.e[2][3], mv_cof4(m, 3, 3), mv_minor4(m, 3, 3));
    assert(adj_sum(m, 2, 3) == -det4f(m.e[2][0], m.e[2][1], m.e[2][2], m.e[2][3], m.e[0][0], m.e[0][1], m.e[0][2], m.e[0][3], m.e[1][0], m.e[1][1], m.e[1][2], m.e[1][3], m.e[2][0], m.e[2][1], m.e[2][2], m.e[2][3]));
    lemma_mul_negof(m.e[3][0], mv_cof4(m, 3, 0), mv_minor4(m, 3, 0));
    lemma_mul_subst(m.e[3][1], mv_cof4(m, 3, 1), mv_minor4(m, 3, 1));
    lemma_mul_negof(m.e[3][2], mv_cof4(m, 3, 2), mv_minor4(m, 3, 2));
    lemma_mul_subst(m.e[3][3], mv_cof4(m, 3, 3), mv_minor4(m, 3, 3));
    assert(adj_sum(m, 3, 3) == -det4f(m.e[3][0], m.e[3][1], m.e[3][2], m.e[3][3], m.e[0][0], m.e[0][1], m.e[0][2], m.e[0][3], m.e[1][0], m.e[1][1], m.e[1][2], m.e[1][3], m.e[2][0], m.e[2][1], m.e[2][2], m.e[2][3]));
    lemma_det4_repeat01(m.e[0][0], m.e[0][1], m.e[0][2], m.e[0][3], m.e[1][0], m.e[1][1], m.e[1][2], m.e[1][3], m.e[2][0], m.e[2][1], m.e[2][2], m.e[2][3]);
    lemma_det4_repeat02(m.e[1][0], m.e[1][1], m.e[1][2], m.e[1][3], m.e[0][0], m.e[0][1], m.e[0][2], m.e[0][3], m.e[2][0], m.e[2][1], m.e[2][2], m.e[2][3]);
    lemma_det4_repeat03(m.e[2][0], m.e[2][1], m.e[2][2], m.e[2][3], m.e[0][0], m.e[0][1], m.e[0][2], m.e[0][3], m.e[1][0], m.e[1][1], m.e[1][2], m.e[1][3]);
    lemma_det4_move3(m.e[0][0], m.e[0][1], m.e[0][2], m.e[0][3], m.e[1][0], m.e[1][1], m.e[1][2], m.e[1][3], m.e[2][0], m.e[2][1], m.e[2][2], m.e[2][3], m.e[3][0], m.e[3][1], m.e[3][2], m.e[3][3]);
}

/// The adjugate identities: a row of the matrix against the cofactors of a
/// row gives the determinant on the diagonal and zero off it.
pub proof fn lemma_mv_adjugate(m: MatVal)
    requires
        mv_wf(m, 4),
    ensures
        forall|i: int, j: int|
            0 <= i < 4 && 0 <= j < 4 ==> #[trigger] adj_sum(m, i, j) == if i == j {
                mv_det4(m)
            } else {
                0
            },
{
    lemma_adj_col0(m);
    lemma_adj_col1(m);
    lemma_adj_col2(m);
    lemma_adj_col3(m);
    assert forall|i: int, j: int| 0 <= i < 4 && 0 <= j < 4 implies #[trigger] adj_sum(m, i, j)
        == if i == j { mv_det4(m) } else { 0 } by {
        lemma_idx16(i, j);
    }
}

/// One entry of the product of a matrix and its reduced adjugate equals the
/// corresponding identity entry, scaled by both denominators.
proof fn lemma_product_entry(
    e0: int, e1: int, e2: int, e3: int,
    v0: int, v1: int, v2: int, v3: int,
    p0: int, p1: int, p2: int, p3: int,
    c0: int, c1: int, c2: int, c3: int,
    d: int, nd: int, den: int, det: int, s: int, delta: int,
)
    requires
        v0 * den == p0 * nd,
        v1 * den == p1 * nd,
        v2 * den == p2 * nd,
        v3 * den == p3 * nd,
        p0 == s * (c0 * d),
        p1 == s * (c1 * d),
        p2 == s * (c2 * d),
        p3 == s * (c3 * d),
        e0 * c0 + e1 * c1 + e2 * c2 + e3 * c3 == delta * det,
        den == s * det,
        den > 0,
    ensures
        e0 * v0 + e1 * v1 + e2 * v2 + e3 * v3 == delta * (d * nd),
{
    lemma_dist4t(e0 * v0, e1 * v1, e2 * v2, e3 * v3, den);
    lemma_assoc(e0, v0, den);
    lemma_assoc(e1, v1, den);
    lemma_assoc(e2, v2, den);
    lemma_assoc(e3, v3, den);
    lemma_mul_subst(e0, v0 * den, p0 * nd);
    lemma_mul_subst(e1, v1 * den, p1 * nd);
    lemma_mul_subst(e2, v2 * den, p2 * nd);
    lemma_mul_subst(e3, v3 * den, p3 * nd);
    assert(e0 * (p0 * nd) == (e0 * c0) * (s * (d * nd))) by (nonlinear_arith)
        requires
            p0 == s * (c0 * d),
    ;
    assert(e1 * (p1 * nd) == (e1 * c1) * (s * (d * nd))) by (nonlinear_arith)
        requires
            p1 == s * (c1 * d),
    ;
    assert(e2 * (p2 * nd) == (e2 * c2) * (s * (d * nd))) by (nonlinear_arith)
        requires
            p2 == s * (c2 * d),
    ;
    assert(e3 * (p3 * nd) == (e3 * c3) * (s * (d * nd))) by (nonlinear_arith)
        requires
            p3 == s * (c3 * d),
    ;
    lemma_dist4t(e0 * c0, e1 * c1, e2 * c2, e3 * c3, s * (d * nd));
    lemma_mul_subst_left(e0 * c0 + e1 * c1 + e2 * c2 + e3 * c3, delta * det, s * (d * nd));
    assert((delta * det) * (s * (d * nd)) == (delta * (d * nd)) * den) by (nonlinear_arith)
        requires
            den == s * det,
    ;
    lemma_cancel_right(e0 * v0 + e1 * v1 + e2 * v2 + e3 * v3, delta * (d * nd), den);
}

/// A conditional negation written with an explicit sign factor.
proof fn lemma_signed_form(v: int, w: int, s: int)
    requires
        (s == 1 && v == w) || (s == -1 && v == -w),
    ensures
        v == s * w,
{
    assert(v == s * w) by (nonlinear_arith)
        requires
            (s == 1 && v == w) || (s == -1 && v == -w),
    ;
}

/// A sign applied to both sides of a fraction cancels in cross
/// multiplication.
proof fn lemma_sign_pair(w: int, det: int, s: int, p: int, den: int)
    requires
        p == s * w,
        den == s * det,
    ensures
        p * det == w * den,
{
    assert(p * det == w * den) by (nonlinear_arith)
        requires
            p == s * w,
            den == s * det,
    ;
}

impl Matrix4x4 {
    /// The inverse, by the transposed-cofactor construction: cell (c, r) of
    /// the inverse holds the cofactor at (r, c) divided by the determinant.
    /// A singular matrix has none; a nonsingular one whose adjugate and
    /// determinant fit the matrix bound is always inverted, and the product
    /// of the matrix with its inverse is exactly the identity.
    pub fn inverse(&self) -> (r: Option<Matrix4x4>)
        requires
            m4_ok(*self),
        ensures
            mv_det4(self@) == 0 ==> r.is_none(),
            r matches Some(n) ==> m4_ok(n) && mv_det4(self@) != 0,
            r matches Some(n) ==> forall|i: int, j: int|
                0 <= i < 4 && 0 <= j < 4 ==> rat_eq(
                    #[trigger] mv_entry(n@, i, j),
                    Rat { n: mv_cof4(self@, j, i) * self@.d, d: mv_det4(self@) },
                ),
            r matches Some(n) ==> forall|i: int, j: int|
                0 <= i < 4 && 0 <= j < 4 ==> rat_eq(
                    Rat { n: #[trigger] mul_entry_num(self@, n@, i, j), d: self@.d * n@.d },
                    if i == j {
                        rat_one()
                    } else {
                        rat_zero()
                    },
                ),
            mv_det4(self@) != 0 && abs_int(mv_det4(self@)) <= MAX_MAT as int && (forall|i: int,
                j: int|
                0 <= i < 4 && 0 <= j < 4 ==> abs_int(
                    #[trigger] mv_cof4(self@, i, j) * self@.d,
                ) <= MAX_MAT as int) ==> r.is_some(),
    {
        let det = det4e(self);
        if det == 0 {
            return None;
        }
        let mn00 = det3e(
            self.e[1][1], self.e[1][2], self.e[1][3],
            self.e[2][1], self.e[2][2], self.e[2][3],
            self.e[3][1], self.e[3][2], self.e[3][3],
        );
        let mn01 = det3e(
            self.e[1][0], self.e[1][2], self.e[1][3],
            self.e[2][0], self.e[2][2], self.e[2][3],
            self.e[3][0], self.e[3][2], self.e[3][3],
        );
        let mn02 = det3e(
            self.e[1][0], self.e[1][1], self.e[1][3],
            self.e[2][0], self.e[2][1], self.e[2][3],
            self.e[3][0], self.e[3][1], self.e[3][3],
        );
        let mn03 = det3e(
            self.e[1][0], self.e[1][1], self.e[1][2],
            self.e[2][0], self.e[2][1], self.e[2][2],
            self.e[3][0], self.e[3][1], self.e[3][2],
        );
        let mn10 = det3e(
            self.e[0][1], self.e[0][2], self.e[0][3],
            self.e[2][1], self.e[2][2], self.e[2][3],
            self.e[3][1], self.e[3][2], self.e[3][3],
        );
        let mn11 = det3e(
            self.e[0][0], self.e[0][2], self.e[0][3],
            self.e[2][0], self.e[2][2], self.e[2][3],
            self.e[3][0], self.e[3][2], self.e[3][3],
        );
        let mn12 = det3e(
            self.e[0][0], self.e[0][1], self.e[0][3],
            self.e[2][0], self.e[2][1], self.e[2][3],
            self.e[3][0], self.e[3][1], self.e[3][3],
        );
        let mn13 = det3e(
            self.e[0][0], self.e[0][1], self.e[0][2],
            self.e[2][0], self.e[2][1], self.e[2][2],
            self.e[3][0], self.e[3][1], self.e[3][2],
        );
        let mn20 = det3e(
            self.e[0][1], self.e[0][2], self.e[0][3],
            self.e[1][1], self.e[1][2], self.e[1][3],
            self.e[3][1], self.e[3][2], self.e[3][3],
        );
        let mn21 = det3e(
            self.e[0][0], self.e[0][2], self.e[0][3],
            self.e[1][0], self.e[1][2], self.e[1][3],
            self.e[3][0], self.e[3][2], self.e[3][3],
        );
        let mn22 = det3e(
            self.e[0][0], self.e[0][1], self.e[0][3],
            self.e[1][0], self.e[1][1], self.e[1][3],
            self.e[3][0], self.e[3][1], self.e[3][3],
        );
        let mn23 = det3e(
            self.e[0][0], self.e[0][1], self.e[0][2],
            self.e[1][0], self.e[1][1], self.e[1][2],
            self.e[3][0], self.e[3][1], self.e[3][2],
        );
        let mn30 = det3e(
            self.e[0][1], self.e[0][2], self.e[0][3],
            self.e[1][1], self.e[1][2], self.e[1][3],
            self.e[2][1], self.e[2][2], self.e[2][3],
        );
        let mn31 = det3e(
            self.e[0][0], self.e[0][2], self.e[0][3],
            self.e[1][0], self.e[1][2], self.e[1][3],
            self.e[2][0], self.e[2][2], self.e[2][3],
        );
        let mn32 = det3e(
            self.e[0][0], self.e[0][1], self.e[0][3],
            self.e[1][0], self.e[1][1], self.e[1][3],
            self.e[2][0], self.e[2][1], self.e[2][3],
        );
        let mn33 = det3e(
            self.e[0][0], self.e[0][1], self.e[0][2],
            self.e[1][0], self.e[1][1], self.e[1][2],
            self.e[2][0], self.e[2][1], self.e[2][2],
        );
        let cf00 = mn00;
        let cf01 = -mn01;
        let cf02 = mn02;
        let cf03 = -mn03;
        let cf10 = -mn10;
        let cf11 = mn11;
        let cf12 = -mn12;
        let cf13 = mn13;
        let cf20 = mn20;
        let cf21 = -mn21;
        let cf22 = mn22;
        let cf23 = -mn23;
        let cf30 = -mn30;
        let cf31 = mn31;
        let cf32 = -mn32;
        let cf33 = mn33;
        proof {
            assert(cf00 as int == mv_cof4(self@, 0, 0));
            assert(cf01 as int == mv_cof4(self@, 0, 1));
            assert(cf02 as int == mv_cof4(self@, 0, 2));
            assert(cf03 as int == mv_cof4(self@, 0, 3));
            assert(cf10 as int == mv_cof4(self@, 1, 0));
            assert(cf11 as int == mv_cof4(self@, 1, 1));
            assert(cf12 as int == mv_cof4(self@, 1, 2));
            assert(cf13 as int == mv_cof4(self@, 1, 3));
            assert(cf20 as int == mv_cof4(self@, 2, 0));
            assert(cf21 as int == mv_cof4(self@, 2, 1));
            assert(cf22 as int == mv_cof4(self@, 2, 2));
            assert(cf23 as int == mv_cof4(self@, 2, 3));
            assert(cf30 as int == mv_cof4(self@, 3, 0));
            assert(cf31 as int == mv_cof4(self@, 3, 1));
            assert(cf32 as int == mv_cof4(self@, 3, 2));
            assert(cf33 as int == mv_cof4(self@, 3, 3));
            let b3 = 6 * (MAX_MAT as int) * (MAX_MAT as int) * (MAX_MAT as int);
            lemma_mul_bound(cf00 as int, self.d as int, b3, MAX_MAT as int);
            lemma_mul_bound(cf01 as int, self.d as int, b3, MAX_MAT as int);
            lemma_mul_bound(cf02 as int, self.d as int, b3, MAX_MAT as int);
            lemma_mul_bound(cf03 as int, self.d as int, b3, MAX_MAT as int);
            lemma_mul_bound(cf10 as int, self.d as int, b3, MAX_MAT as int);
            lemma_mul_bound(cf11 as int, self.d as int, b3, MAX_MAT as int);
            lemma_mul_bound(cf12 as int, self.d as int, b3, MAX_MAT as int);
            lemma_mul_bound(cf13 as int, self.d as int, b3, MAX_MAT as int);
            lemma_mul_bound(cf20 as int, self.d as int, b3, MAX_MAT as int);
            lemma_mul_bound(cf21 as int, self.d as int, b3, MAX_MAT as int);
            lemma_mul_bound(cf22 as int, self.d as int, b3, MAX_MAT as int);
            lemma_mul_bound(cf23 as int, self.d as int, b3, MAX_MAT as int);
            lemma_mul_bound(cf30 as int, self.d as int, b3, MAX_MAT as int);
            lemma_mul_bound(cf31 as int, self.d as int, b3, MAX_MAT as int);
            lemma_mul_bound(cf32 as int, self.d as int, b3, MAX_MAT as int);
            lemma_mul_bound(cf33 as int, self.d as int, b3, MAX_MAT as int);
        }
        let a00 = cf00 * self.d;
        let a10 = cf01 * self.d;
        let a20 = cf02 * self.d;
        let a30 = cf03 * self.d;
        let a01 = cf10 * self.d;
        let a11 = cf11 * self.d;
        let a21 = cf12 * self.d;
        let a31 = cf13 * self.d;
        let a02 = cf20 * self.d;
        let a12 = cf21 * self.d;
        let a22 = cf22 * self.d;
        let a32 = cf23 * self.d;
        let a03 = cf30 * self.d;
        let a13 = cf31 * self.d;
        let a23 = cf32 * self.d;
        let a33 = cf33 * self.d;
        let neg = det < 0;
        let den: i128 = if neg { -det } else { det };
        let b00: i128 = if neg { -a00 } else { a00 };
        let b01: i128 = if neg { -a01 } else { a01 };
        let b02: i128 = if neg { -a02 } else { a02 };
        let b03: i128 = if neg { -a03 } else { a03 };
        let b10: i128 = if neg { -a10 } else { a10 };
        let b11: i128 = if neg { -a11 } else { a11 };
        let b12: i128 = if neg { -a12 } else { a12 };
        let b13: i128 = if neg { -a13 } else { a13 };
        let b20: i128 = if neg { -a20 } else { a20 };
        let b21: i128 = if neg { -a21 } else { a21 };
        let b22: i128 = if neg { -a22 } else { a22 };
        let b23: i128 = if neg { -a23 } else { a23 };
        let b30: i128 = if neg { -a30 } else { a30 };
        let b31: i128 = if neg { -a31 } else { a31 };
        let b32: i128 = if neg { -a32 } else { a32 };
        let b33: i128 = if neg { -a33 } else { a33 };
        let p = [[b00, b01, b02, b03],
            [b10, b11, b12, b13],
            [b20, b21, b22, b23],
            [b30, b31, b32, b33]];
        let sg: Ghost<int> = Ghost(if neg { -1int } else { 1int });
        proof {
            lemma_signed_form(den as int, mv_det4(self@), sg@);
            assert forall|i: int, j: int| 0 <= i < 4 && 0 <= j < 4 implies
                -RAW_LIMIT <= #[trigger] (p[i][j] as int) <= RAW_LIMIT by {
                lemma_idx16(i, j);
            }
            assert forall|i: int, j: int| 0 <= i < 4 && 0 <= j < 4 implies #[trigger] (
            p[i][j] as int) == sg@ * (mv_cof4(self@, j, i) * self@.d) by {
                lemma_idx16(i, j);
                lemma_signed_form(p[i][j] as int, mv_cof4(self@, j, i) * self@.d, sg@);
            }
            if abs_int(mv_det4(self@)) <= MAX_MAT as int && (forall|i: int, j: int|
                0 <= i < 4 && 0 <= j < 4 ==> abs_int(#[trigger] mv_cof4(self@, i, j) * self@.d)
                    <= MAX_MAT as int) {
                assert forall|i: int, j: int| 0 <= i < 4 && 0 <= j < 4 implies
                    -MAX_MAT <= #[trigger] (p[i][j] as int) <= MAX_MAT by {
                    lemma_idx16(i, j);
                    assert(abs_int(mv_cof4(self@, j, i) * self@.d) <= MAX_MAT as int);
                }
            }
        }
        let r = reduce_mat(p, den);
        proof {
            if let Some(n) = r {
                let m = self@;
                let det_i = mv_det4(m);
                assert forall|i: int, j: int| 0 <= i < 4 && 0 <= j < 4 implies rat_eq(
                    #[trigger] mv_entry(n@, i, j),
                    Rat { n: mv_cof4(m, j, i) * m.d, d: det_i },
                ) by {
                    lemma_idx16(i, j);
                    assert(rat_eq(mv_entry(n@, i, j), Rat { n: p[i][j] as int, d: den as int }));
                    lemma_sign_pair(mv_cof4(m, j, i) * m.d, det_i, sg@, p[i][j] as int,
                        den as int);
                    crate::scalar::lemma_req_trans(mv_entry(n@, i, j),
                        Rat { n: p[i][j] as int, d: den as int },
                        Rat { n: mv_cof4(m, j, i) * m.d, d: det_i });
                }
                lemma_mv_adjugate(m);
                assert forall|i: int, j: int| 0 <= i < 4 && 0 <= j < 4 implies rat_eq(
                    Rat { n: #[trigger] mul_entry_num(m, n@, i, j), d: m.d * n@.d },
                    if i == j { rat_one() } else { rat_zero() },
                ) by {
                    lemma_idx16(i, j);
                    let dl: int = if i == j { 1 } else { 0 };
                    assert(adj_sum(m, i, j) == dl * det_i) by {
                        if i == j {
                            assert(adj_sum(m, i, j) == det_i);
                        } else {
                            assert(adj_sum(m, i, j) == 0);
                        }
                    }
                    if j == 0 {
                        lemma_inv_col(m, n@, p, den as int, det_i, sg@, i, 0);
                    } else if j == 1 {
                        lemma_inv_col(m, n@, p, den as int, det_i, sg@, i, 1);
                    } else if j == 2 {
                        lemma_inv_col(m, n@, p, den as int, det_i, sg@, i, 2);
                    } else {
                        lemma_inv_col(m, n@, p, den as int, det_i, sg@, i, 3);
                    }
                    assert(mul_entry_num(m, n@, i, j) == dl * (m.d * n@.d));
                    assert((if i == j { rat_one() } else { rat_zero() }) == rat_int(dl));
                    assert(mul_entry_num(m, n@, i, j) * 1 == dl * (m.d * n@.d));
                    assert(rat_eq(Rat { n: mul_entry_num(m, n@, i, j), d: m.d * n@.d },
                        rat_int(dl)));
                }
            }
        }
        r
    }
}

/// Derives one product entry of matrix times reduced adjugate from the cell
/// relations and the adjugate identity.
proof fn lemma_inv_col(
    m: MatVal,
    n: MatVal,
    p: [[i128; 4]; 4],
    den: int,
    det: int,
    s: int,
    i: int,
    j: int,
)
    requires
        mv_wf(m, 4),
        mv_wf(n, 4),
        0 <= i < 4,
        0 <= j < 4,
        den > 0,
        den == s * det,
        forall|a: int, b: int|
            0 <= a < 4 && 0 <= b < 4 ==> rat_eq(
                #[trigger] mv_entry(n, a, b),
                Rat { n: p[a][b] as int, d: den },
            ),
        forall|a: int, b: int|
            0 <= a < 4 && 0 <= b < 4 ==> #[trigger] (p[a][b] as int) == s * (mv_cof4(m, b, a)
                * m.d),
        adj_sum(m, i, j) == (if i == j { 1int } else { 0int }) * det,
    ensures
        mul_entry_num(m, n, i, j) == (if i == j { 1int } else { 0int }) * (m.d * n.d),
{
    assert(rat_eq(mv_entry(n, 0, j), Rat { n: p[0][j] as int, d: den }));
    assert(rat_eq(mv_entry(n, 1, j), Rat { n: p[1][j] as int, d: den }));
    assert(rat_eq(mv_entry(n, 2, j), Rat { n: p[2][j] as int, d: den }));
    assert(rat_eq(mv_entry(n, 3, j), Rat { n: p[3][j] as int, d: den }));
    lemma_product_entry(
        m.e[i][0], m.e[i][1], m.e[i][2], m.e[i][3],
        n.e[0][j], n.e[1][j], n.e[2][j], n.e[3][j],
        p[0][j] as int, p[1][j] as int, p[2][j] as int, p[3][j] as int,
        mv_cof4(m, j, 0), mv_cof4(m, j, 1), mv_cof4(m, j, 2), mv_cof4(m, j, 3),
        m.d, n.d, den, det, s, if i == j { 1int } else { 0int },
    );
}

/// `b` holds the transpose of `a`: the cells exchanged across the diagonal
/// over the same denominator.
pub open spec fn mv_is_transpose(b: MatVal, a: MatVal) -> bool {
    &&& mv_wf(b, 4)
    &&& mv_wf(a, 4)
    &&& b.d == a.d
    &&& forall|i: int, j: int| 0 <= i < 4 && 0 <= j < 4 ==> #[trigger] b.e[i][j] == a.e[j][i]
}

/// Transposing twice gives back every cell of the original matrix exactly.
pub proof fn lemma_transpose_involution(a: MatVal, b: MatVal, c: MatVal)
    requires
        mv_is_transpose(b, a),
        mv_is_transpose(c, b),
    ensures
        c.d == a.d,
        forall|i: int, j: int| 0 <= i < 4 && 0 <= j < 4 ==> #[trigger] c.e[i][j] == a.e[i][j],
{
    assert forall|i: int, j: int| 0 <= i < 4 && 0 <= j < 4 implies #[trigger] c.e[i][j]
        == a.e[i][j] by {
        assert(c.e[i][j] == b.e[j][i]);
        assert(b.e[j][i] == a.e[i][j]);
    }
}

} // verus!
