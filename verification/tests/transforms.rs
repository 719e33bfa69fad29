use raytra::scalar::Scalar;
use raytra::matrix::Matrix4x4;
use raytra::transform::{rotation_x, rotation_y, rotation_z, scaling, shearing, translation};
use raytra::tup::{Point, Vector};

fn s(i: i32) -> Scalar {
    Scalar::from_int(i)
}

fn f(n: i32, d: i32) -> Scalar {
    Scalar::new(n, d).unwrap()
}

// cosine and sine of a quarter turn, exact
fn quarter() -> (Scalar, Scalar) {
    (s(0), s(1))
}

// cosine and sine of an eighth turn, on a 1/100000 grid
fn eighth() -> (Scalar, Scalar) {
    (f(70711, 100000), f(70711, 100000))
}

// half the square root of two, finely approximated
fn half_sqrt2() -> Scalar {
    f(7071068, 10000000)
}

fn apply_point(m: &Matrix4x4, p: Point) -> Point {
    let t = m.mul_tup(&p.to_tup()).unwrap();
    assert!(t.is_point());
    Point::from_tup(t)
}

fn apply_vector(m: &Matrix4x4, v: Vector) -> Vector {
    let t = m.mul_tup(&v.to_tup()).unwrap();
    assert!(t.is_vector());
    Vector::from_tup(t)
}

#[test]
fn transform_translate() {
    let t = translation(s(5), s(-3), s(2)).unwrap();
    let expected = Matrix4x4::new(
        s(1), s(0), s(0), s(5),
        s(0), s(1), s(0), s(-3),
        s(0), s(0), s(1), s(2),
        s(0), s(0), s(0), s(1),
    ).unwrap();
    assert!(t.approx_eq(&expected));

    let p = Point::new(s(-3), s(4), s(5));

    assert!(apply_point(&t, p).approx_eq(&Point::new(s(2), s(1), s(7))));
    assert!(apply_point(&t.inverse().unwrap(), p).approx_eq(&Point::new(s(-8), s(7), s(3))));

    let v = Vector::new(s(-3), s(4), s(5));
    assert!(apply_vector(&t, v).approx_eq(&v));
}

#[test]
fn transform_scale() {
    let t = scaling(s(2), s(3), s(4)).unwrap();
    let expected = Matrix4x4::new(
        s(2), s(0), s(0), s(0),
        s(0), s(3), s(0), s(0),
        s(0), s(0), s(4), s(0),
        s(0), s(0), s(0), s(1),
    ).unwrap();
    assert!(t.approx_eq(&expected));

    let p = Point::new(s(-4), s(6), s(8));
    assert!(apply_point(&t, p).approx_eq(&Point::new(s(-8), s(18), s(32))));
    assert!(apply_point(&t.inverse().unwrap(), p).approx_eq(&Point::new(s(-2), s(2), s(2))));

    let v = Vector::new(s(-4), s(6), s(8));
    assert!(apply_vector(&t, v).approx_eq(&Vector::new(s(-8), s(18), s(32))));
}

#[test]
fn reflect() {
    let t = scaling(s(-1), s(1), s(1)).unwrap();
    let p = Point::new(s(2), s(3), s(4));

    assert!(apply_point(&t, p).approx_eq(&Point::new(s(-2), s(3), s(4))));
}

#[test]
fn rotate() {
    let (c8, s8) = eighth();
    let (c4, s4) = quarter();
    let h = half_sqrt2();

    let p = Point::new(s(0), s(1), s(0));
    assert!(apply_point(&rotation_x(c8, s8).unwrap(), p)
        .approx_eq(&Point::new(s(0), h, h)));
    assert!(apply_point(&rotation_x(c4, s4).unwrap(), p)
        .approx_eq(&Point::new(s(0), s(0), s(1))));
    assert!(apply_point(&rotation_x(c8, s8).unwrap().inverse().unwrap(), p)
        .approx_eq(&Point::new(s(0), h, h.neg())));

    let p = Point::new(s(0), s(0), s(1));
    assert!(apply_point(&rotation_y(c8, s8).unwrap(), p)
        .approx_eq(&Point::new(h, s(0), h)));
    assert!(apply_point(&rotation_y(c4, s4).unwrap(), p)
        .approx_eq(&Point::new(s(1), s(0), s(0))));

    let p = Point::new(s(0), s(1), s(0));
    assert!(apply_point(&rotation_z(c8, s8).unwrap(), p)
        .approx_eq(&Point::new(h.neg(), h, s(0))));
    assert!(apply_point(&rotation_z(c4, s4).unwrap(), p)
        .approx_eq(&Point::new(s(-1), s(0), s(0))));
}

#[test]
fn shear() {
    let p = Point::new(s(2), s(3), s(4));

    let t = shearing(s(1), s(0), s(0), s(0), s(0), s(0)).unwrap();
    assert!(apply_point(&t, p).approx_eq(&Point::new(s(5), s(3), s(4))));

    let t = shearing(s(0), s(0), s(1), s(0), s(0), s(0)).unwrap();
    assert!(apply_point(&t, p).approx_eq(&Point::new(s(2), s(5), s(4))));

    let t = shearing(s(0), s(0), s(0), s(1), s(0), s(0)).unwrap();
    assert!(apply_point(&t, p).approx_eq(&Point::new(s(2), s(7), s(4))));

    let t = shearing(s(0), s(0), s(0), s(0), s(1), s(0)).unwrap();
    assert!(apply_point(&t, p).approx_eq(&Point::new(s(2), s(3), s(6))));

    let t = shearing(s(0), s(0), s(0), s(0), s(0), s(1)).unwrap();
    assert!(apply_point(&t, p).approx_eq(&Point::new(s(2), s(3), s(7))));
}

#[test]
fn chain() {
    let (c4, s4) = quarter();
    let p = Point::new(s(1), s(0), s(1));
    let t = Matrix4x4::identity()
        .rotate_x(c4, s4).unwrap()
        .scale(s(5), s(5), s(5)).unwrap()
        .translate(s(10), s(5), s(7)).unwrap();

    let composed = translation(s(10), s(5), s(7)).unwrap()
        .mul(&scaling(s(5), s(5), s(5)).unwrap()).unwrap()
        .mul(&rotation_x(c4, s4).unwrap()).unwrap();
    assert!(apply_point(&composed, p).approx_eq(&Point::new(s(15), s(0), s(7))));
    assert!(apply_point(&t, p).approx_eq(&Point::new(s(15), s(0), s(7))));
}
