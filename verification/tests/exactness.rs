use raytra::scalar::Scalar;
use raytra::matrix::Matrix4x4;
use raytra::rays::Ray;
use raytra::sphere::Sphere;
use raytra::transform::{scaling, translation};
use raytra::tup::{Point, Vector};

fn s(i: i32) -> Scalar {
    Scalar::from_int(i)
}

fn f(n: i32, d: i32) -> Scalar {
    Scalar::new(n, d).unwrap()
}

#[test]
fn unit_magnitude_after_normalize() {
    let v = Vector::new(s(-7), s(11), f(5, 2));
    let n = v.norm().unwrap();
    assert!(n.mag().unwrap().approx_eq(&s(1)));
}

#[test]
fn translation_round_trip_exact() {
    let t = translation(s(12), s(-7), f(9, 4)).unwrap();
    let back = translation(s(-12), s(7), f(-9, 4)).unwrap();
    let p = Point::new(f(13, 8), s(-2), s(31));

    let moved = t.mul_tup(&p.to_tup()).unwrap();
    assert!(moved.x.eq_rat(&f(13 + 8 * 12, 8)));
    assert!(moved.y.eq_rat(&s(-9)));
    assert!(moved.z.eq_rat(&f(31 * 4 + 9, 4)));

    let returned = back.mul_tup(&moved).unwrap();
    assert!(returned.x.eq_rat(&f(13, 8)));
    assert!(returned.y.eq_rat(&s(-2)));
    assert!(returned.z.eq_rat(&s(31)));
    assert!(returned.is_point());
}

#[test]
fn undo_with_computed_inverse() {
    let t = translation(s(5), s(-3), s(2)).unwrap();
    let inv = t.inverse().unwrap();
    let p = Point::new(s(9), s(4), s(-1));

    let there = t.mul_tup(&p.to_tup()).unwrap();
    let back = inv.mul_tup(&there).unwrap();
    assert!(back.x.eq_rat(&s(9)));
    assert!(back.y.eq_rat(&s(4)));
    assert!(back.z.eq_rat(&s(-1)));
}

#[test]
fn scaling_keeps_direction_class() {
    let t = scaling(s(2), s(3), s(4)).unwrap();

    let v = Vector::new(s(1), s(-2), s(5));
    let tv = t.mul_tup(&v.to_tup()).unwrap();
    assert!(tv.is_vector());
    assert!(tv.x.eq_rat(&s(2)));
    assert!(tv.y.eq_rat(&s(-6)));
    assert!(tv.z.eq_rat(&s(20)));

    let p = Point::new(s(1), s(-2), s(5));
    let tp = t.mul_tup(&p.to_tup()).unwrap();
    assert!(tp.is_point());
    assert!(tp.x.eq_rat(&s(2)));
    assert!(tp.y.eq_rat(&s(-6)));
    assert!(tp.z.eq_rat(&s(20)));
}

#[test]
fn product_with_inverse_is_identity() {
    let a = Matrix4x4::new(
        s(3), s(-9), s(7), s(3),
        s(3), s(-8), s(2), s(-9),
        s(-4), s(4), s(4), s(1),
        s(-6), s(5), s(-1), s(1),
    ).unwrap();
    let inv = a.inverse().unwrap();
    assert!(a.mul(&inv).unwrap().approx_eq(&Matrix4x4::identity()));
}

#[test]
fn inverse_twice_returns_matrix() {
    let a = Matrix4x4::new(
        s(3), s(-9), s(7), s(3),
        s(3), s(-8), s(2), s(-9),
        s(-4), s(4), s(4), s(1),
        s(-6), s(5), s(-1), s(1),
    ).unwrap();
    let twice = a.inverse().unwrap().inverse().unwrap();
    assert!(twice.approx_eq(&a));
}

#[test]
fn transpose_twice_exact() {
    let a = Matrix4x4::new(
        s(0), s(9), s(3), s(0),
        s(9), s(8), s(0), s(8),
        s(1), s(8), s(5), s(3),
        s(0), s(0), s(5), s(8),
    ).unwrap();
    assert_eq!(a.transpose().transpose(), a);
}

#[test]
fn hit_selects_forward_root() {
    let r = Ray::new(Point::new(s(0), s(0), s(0)), Vector::new(s(0), s(0), s(1)));
    let sp = Sphere::new();
    let xs = sp.intersect(r).unwrap();
    assert!(xs.hit().unwrap().t.eq_rat(&s(1)));
}

#[test]
fn hit_absent_behind() {
    let r = Ray::new(Point::new(s(0), s(0), s(5)), Vector::new(s(0), s(0), s(1)));
    let sp = Sphere::new();
    let xs = sp.intersect(r).unwrap();
    assert!(xs.hit().is_none());
}

#[test]
fn zero_denominator_refused() {
    assert!(Scalar::new(1, 0).is_none());
    assert!(Scalar::new(0, 0).is_none());
    assert!(Scalar::new(7, -2).is_some());
}

#[test]
fn scalar_bound_overflow() {
    let big = Scalar::new(2000000000, 1).unwrap();
    assert!(big.mul(&big).is_none());
    assert!(big.add(&Scalar::from_int(1)).is_some());
}

#[test]
fn tolerance_boundary() {
    let z = Scalar::from_int(0);
    assert!(f(1, 100000).approx_eq(&z));
    assert!(!f(2, 100000).approx_eq(&z));
}

#[test]
fn singular_sphere_empty() {
    let singular = scaling(s(0), s(1), s(1)).unwrap();
    let sp = Sphere::with_transform(singular);
    let r = Ray::new(Point::new(s(0), s(0), s(-5)), Vector::new(s(0), s(0), s(1)));
    let xs = sp.intersect(r).unwrap();
    assert_eq!(xs.xs.len(), 0);
}

#[test]
fn degenerate_direction_empty() {
    let sp = Sphere::new();
    let r = Ray::new(Point::new(s(0), s(0), s(-5)), Vector::new(s(0), s(0), s(0)));
    let xs = sp.intersect(r).unwrap();
    assert_eq!(xs.xs.len(), 0);
}

#[test]
fn cross_is_antisymmetric() {
    let a = Vector::new(s(2), s(-1), s(4));
    let b = Vector::new(s(-3), s(5), s(1));
    let ab = a.cross(b).unwrap();
    let ba = b.cross(a).unwrap();
    assert!(ab.approx_eq(&ba.neg()));
}
