use raytra::scalar::Scalar;
use raytra::tup::{Point, Tup, Vector};

fn s(i: i32) -> Scalar {
    Scalar::from_int(i)
}

fn f(n: i32, d: i32) -> Scalar {
    Scalar::new(n, d).unwrap()
}

#[test]
fn tup_point() {
    let a = Tup::new(f(43, 10), f(-42, 10), f(31, 10), s(1));

    assert!(a.x.eq_rat(&f(43, 10)));
    assert!(a.y.eq_rat(&f(-42, 10)));
    assert!(a.z.eq_rat(&f(31, 10)));
    assert!(a.w.eq_rat(&s(1)));

    assert!(a.is_point());
    assert!(!a.is_vector());
}

#[test]
fn tup_vector() {
    let a = Tup::new(f(43, 10), f(-42, 10), f(31, 10), s(0));

    assert!(a.x.eq_rat(&f(43, 10)));
    assert!(a.y.eq_rat(&f(-42, 10)));
    assert!(a.z.eq_rat(&f(31, 10)));
    assert!(a.w.eq_rat(&s(0)));

    assert!(!a.is_point());
    assert!(a.is_vector());
}

#[test]
fn point() {
    let p = Point::new(s(4), s(-4), s(3));
    assert_eq!(p.to_tup(), Tup::new(s(4), s(-4), s(3), s(1)));
}

#[test]
fn vector() {
    let v = Vector::new(s(4), s(-4), s(3));
    assert_eq!(v.to_tup(), Tup::new(s(4), s(-4), s(3), s(0)));
}

#[test]
fn tup_add() {
    let a = Tup::new(s(3), s(-2), s(5), s(1));
    let b = Tup::new(s(-2), s(3), s(1), s(0));

    assert!(a.add(&b).unwrap().approx_eq(&Tup::new(s(1), s(1), s(6), s(1))));

    let a = Point::new(s(3), s(-2), s(5));
    let b = Vector::new(s(-2), s(3), s(1));

    assert!(a.add(b).unwrap().approx_eq(&Point::new(s(1), s(1), s(6))));

    let a = Vector::new(s(3), s(-2), s(5));
    let b = Vector::new(s(-2), s(3), s(1));

    assert!(a.add(b).unwrap().approx_eq(&Vector::new(s(1), s(1), s(6))));
}

#[test]
fn tup_sub() {
    let a = Point::new(s(3), s(2), s(1));
    let b = Point::new(s(5), s(6), s(7));

    assert!(a.sub(b).unwrap().approx_eq(&Vector::new(s(-2), s(-4), s(-6))));

    let a = Point::new(s(3), s(2), s(1));
    let b = Vector::new(s(5), s(6), s(7));

    assert!(a.sub_vec(b).unwrap().approx_eq(&Point::new(s(-2), s(-4), s(-6))));

    let a = Vector::new(s(3), s(2), s(1));
    let b = Vector::new(s(5), s(6), s(7));

    assert!(a.sub(b).unwrap().approx_eq(&Vector::new(s(-2), s(-4), s(-6))));

    let a = Vector::new(s(0), s(0), s(0));
    let b = Vector::new(s(1), s(-2), s(3));

    assert!(a.sub(b).unwrap().approx_eq(&Vector::new(s(-1), s(2), s(-3))));
}

#[test]
fn neg() {
    let a = Tup::new(s(1), s(-2), s(3), s(-4));
    assert!(a.neg().approx_eq(&Tup::new(s(-1), s(2), s(-3), s(4))));

    let a = Vector::new(s(1), s(-2), s(3));
    assert!(a.neg().approx_eq(&Vector::new(s(-1), s(2), s(-3))));
}

#[test]
fn tup_mul() {
    let a = Vector::new(s(1), s(-2), s(3));
    assert!(a.mul(&f(7, 2)).unwrap().approx_eq(&Vector::new(f(7, 2), s(-7), f(21, 2))));

    let a = Vector::new(s(1), s(-2), s(3));
    assert!(a.mul(&f(1, 2)).unwrap().approx_eq(&Vector::new(f(1, 2), s(-1), f(3, 2))));
}

#[test]
fn magnitude() {
    let a = Vector::new(s(1), s(0), s(0));
    assert!(a.mag().unwrap().eq_rat(&s(1)));

    let a = Vector::new(s(0), s(1), s(0));
    assert!(a.mag().unwrap().eq_rat(&s(1)));

    let a = Vector::new(s(0), s(0), s(1));
    assert!(a.mag().unwrap().eq_rat(&s(1)));

    let a = Vector::new(s(1), s(2), s(3));
    assert!(a.mag().unwrap().approx_eq(&f(37416574, 10000000)));

    let a = Vector::new(s(-1), s(-2), s(-3));
    assert!(a.mag().unwrap().approx_eq(&f(37416574, 10000000)));
}

#[test]
fn normalize() {
    let a = Vector::new(s(4), s(0), s(0));
    assert!(a.norm().unwrap().approx_eq(&Vector::new(s(1), s(0), s(0))));

    let a = Vector::new(s(1), s(2), s(3));
    assert!(a.norm().unwrap().approx_eq(&Vector::new(
        f(2672612, 10000000),
        f(5345225, 10000000),
        f(8017837, 10000000),
    )));

    let a = Vector::new(s(1), s(2), s(3));
    assert!(a.norm().unwrap().mag().unwrap().approx_eq(&s(1)));
}

#[test]
fn dot() {
    let a = Vector::new(s(1), s(2), s(3));
    let b = Vector::new(s(2), s(3), s(4));
    assert!(a.dot(b).unwrap().eq_rat(&s(20)));
}

#[test]
fn cross() {
    let a = Vector::new(s(1), s(2), s(3));
    let b = Vector::new(s(2), s(3), s(4));
    assert!(a.cross(b).unwrap().approx_eq(&Vector::new(s(-1), s(2), s(-1))));
    assert!(b.cross(a).unwrap().approx_eq(&Vector::new(s(1), s(-2), s(1))));
}
