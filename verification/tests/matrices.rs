use raytra::scalar::Scalar;
use raytra::matrix::{Matrix2x2, Matrix3x3, Matrix4x4};
use raytra::tup::Tup;

fn s(i: i32) -> Scalar {
    Scalar::from_int(i)
}

fn f(n: i32, d: i32) -> Scalar {
    Scalar::new(n, d).unwrap()
}

fn m4(c: [i32; 16]) -> Matrix4x4 {
    Matrix4x4::new(
        s(c[0]), s(c[1]), s(c[2]), s(c[3]),
        s(c[4]), s(c[5]), s(c[6]), s(c[7]),
        s(c[8]), s(c[9]), s(c[10]), s(c[11]),
        s(c[12]), s(c[13]), s(c[14]), s(c[15]),
    ).unwrap()
}

#[test]
fn matrix_new() {
    let m = Matrix4x4::new(
        s(1), s(2), s(3), s(4),
        f(11, 2), f(13, 2), f(15, 2), f(17, 2),
        s(9), s(10), s(11), s(12),
        f(27, 2), f(29, 2), f(31, 2), f(33, 2),
    ).unwrap();
    assert!(m.at(0, 0).eq_rat(&s(1)));
    assert!(m.at(0, 3).eq_rat(&s(4)));
    assert!(m.at(1, 0).eq_rat(&f(11, 2)));
    assert!(m.at(1, 2).eq_rat(&f(15, 2)));
    assert!(m.at(2, 2).eq_rat(&s(11)));
    assert!(m.at(3, 0).eq_rat(&f(27, 2)));
    assert!(m.at(3, 2).eq_rat(&f(31, 2)));

    let m = Matrix2x2::new(s(-3), s(5), s(1), s(-2)).unwrap();
    assert!(m.at(0, 0).eq_rat(&s(-3)));
    assert!(m.at(0, 1).eq_rat(&s(5)));
    assert!(m.at(1, 0).eq_rat(&s(1)));
    assert!(m.at(1, 1).eq_rat(&s(-2)));

    let m = Matrix3x3::new(s(-3), s(5), s(0), s(1), s(-2), s(-7), s(0), s(1), s(1)).unwrap();
    assert!(m.at(0, 0).eq_rat(&s(-3)));
    assert!(m.at(1, 1).eq_rat(&s(-2)));
    assert!(m.at(2, 2).eq_rat(&s(1)));
}

#[test]
fn eq() {
    let a = m4([1, 2, 3, 4, 5, 6, 7, 8, 9, 8, 7, 6, 5, 4, 3, 2]);
    let b = m4([1, 2, 3, 4, 5, 6, 7, 8, 9, 8, 7, 6, 5, 4, 3, 2]);
    assert!(a.approx_eq(&b));

    let a = m4([1, 2, 3, 4, 5, 6, 7, 8, 9, 8, 7, 6, 5, 4, 3, 2]);
    let b = m4([5, 6, 7, 8, 9, 8, 7, 6, 5, 4, 3, 2, 1, 2, 3, 4]);
    assert!(!a.approx_eq(&b));
}

#[test]
fn matrix_mul() {
    let a = m4([1, 2, 3, 4, 5, 6, 7, 8, 9, 8, 7, 6, 5, 4, 3, 2]);
    let b = m4([-2, 1, 2, 3, 3, 2, 1, -1, 4, 3, 6, 5, 1, 2, 7, 8]);

    let expected = m4([20, 22, 50, 48, 44, 54, 114, 108, 40, 58, 110, 102, 16, 26, 46, 42]);
    assert!(a.mul(&b).unwrap().approx_eq(&expected));
}

#[test]
fn mul_tup() {
    let a = m4([1, 2, 3, 4, 2, 4, 4, 2, 8, 6, 4, 1, 0, 0, 0, 1]);
    let b = Tup::new(s(1), s(2), s(3), s(1));

    assert!(a.mul_tup(&b).unwrap().approx_eq(&Tup::new(s(18), s(24), s(33), s(1))));
}

#[test]
fn mul_identity() {
    let a = m4([0, 1, 2, 4, 1, 2, 4, 8, 2, 4, 8, 16, 4, 8, 16, 32]);

    assert!(a.mul(&Matrix4x4::identity()).unwrap().approx_eq(&a));
}

#[test]
fn transpose() {
    let a = m4([0, 9, 3, 0, 9, 8, 0, 8, 1, 8, 5, 3, 0, 0, 5, 8]);
    let expected = m4([0, 9, 1, 0, 9, 8, 8, 0, 3, 0, 5, 5, 0, 8, 3, 8]);
    assert!(a.transpose().approx_eq(&expected));
    assert!(Matrix4x4::identity().transpose().approx_eq(&Matrix4x4::identity()));
}

#[test]
fn determinant() {
    let a = Matrix2x2::new(s(1), s(5), s(-3), s(2)).unwrap();
    assert!(a.determinant().unwrap().eq_rat(&s(17)));
}

#[test]
fn submatrix() {
    let a = Matrix3x3::new(s(1), s(5), s(0), s(-3), s(2), s(7), s(0), s(6), s(-3)).unwrap();
    let expected = Matrix2x2::new(s(-3), s(2), s(0), s(6)).unwrap();
    assert!(a.submatrix(0, 2).approx_eq(&expected));

    let a = m4([-6, 1, 1, 6, -8, 5, 8, 6, -1, 0, 8, 2, -7, 1, -1, 1]);
    let expected = Matrix3x3::new(s(-6), s(1), s(6), s(-8), s(8), s(6), s(-7), s(-1), s(1))
        .unwrap();
    assert!(a.submatrix(2, 1).approx_eq(&expected));
}

#[test]
fn minor() {
    let a = Matrix3x3::new(s(3), s(5), s(0), s(2), s(-1), s(-7), s(6), s(-1), s(5)).unwrap();
    let b = a.submatrix(1, 0);

    assert!(b.determinant().unwrap().eq_rat(&s(25)));
    assert!(a.minor(1, 0).unwrap().eq_rat(&s(25)));
}

#[test]
fn cofactor() {
    let a = Matrix3x3::new(s(3), s(5), s(0), s(2), s(-1), s(-7), s(6), s(-1), s(5)).unwrap();

    assert!(a.cofactor(0, 0).unwrap().eq_rat(&s(-12)));
    assert!(a.cofactor(1, 0).unwrap().eq_rat(&s(-25)));
}

#[test]
fn determinant3x3() {
    let a = Matrix3x3::new(s(1), s(2), s(6), s(-5), s(8), s(-4), s(2), s(6), s(4)).unwrap();

    assert!(a.cofactor(0, 0).unwrap().eq_rat(&s(56)));
    assert!(a.cofactor(0, 1).unwrap().eq_rat(&s(12)));
    assert!(a.cofactor(0, 2).unwrap().eq_rat(&s(-46)));
    assert!(a.determinant().unwrap().eq_rat(&s(-196)));
}

#[test]
fn determinant4x4() {
    let a = m4([-2, -8, 3, 5, -3, 1, 7, 3, 1, 2, -9, 6, -6, 7, 7, -9]);

    assert!(a.cofactor(0, 0).unwrap().eq_rat(&s(690)));
    assert!(a.cofactor(0, 1).unwrap().eq_rat(&s(447)));
    assert!(a.cofactor(0, 2).unwrap().eq_rat(&s(210)));
    assert!(a.cofactor(0, 3).unwrap().eq_rat(&s(51)));
    assert!(a.determinant().unwrap().eq_rat(&s(-4071)));
}

#[test]
fn invertable() {
    let a = m4([6, 4, 4, 4, 5, 5, 7, 6, 4, -9, 3, -7, 9, 1, 7, -6]);
    assert!(a.determinant().unwrap().eq_rat(&s(-2120)));
    assert!(a.inverse().is_some());

    let a = m4([-4, 2, -2, -3, 9, 6, 2, 6, 0, -5, 1, -5, 0, 0, 0, 0]);
    assert!(a.determinant().unwrap().eq_rat(&s(0)));
    assert!(a.inverse().is_none());
}

#[test]
fn inverse() {
    let a = m4([-5, 2, 6, -8, 1, -5, 1, 8, 7, 7, -6, -7, 1, -3, 7, 4]);

    let expected = Matrix4x4::new(
        f(21805, 100000), f(45113, 100000), f(24060, 100000), f(-4511, 100000),
        f(-80827, 100000), f(-145677, 100000), f(-44361, 100000), f(52068, 100000),
        f(-7895, 100000), f(-22368, 100000), f(-5263, 100000), f(19737, 100000),
        f(-52256, 100000), f(-81391, 100000), f(-30075, 100000), f(30639, 100000),
    ).unwrap();
    assert!(a.inverse().unwrap().approx_eq(&expected));

    let b = m4([8, 2, 2, 2, 3, -1, 7, 0, 7, 0, 5, 4, 6, -2, 0, 5]);
    let c = a.mul(&b).unwrap();
    assert!(b.inverse().is_some());
    assert!(c.mul(&b.inverse().unwrap()).unwrap().approx_eq(&a));
}
