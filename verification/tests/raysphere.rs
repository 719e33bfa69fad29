use raytra::scalar::Scalar;
use raytra::matrix::Matrix4x4;
use raytra::rays::Ray;
use raytra::sphere::Sphere;
use raytra::transform::{scaling, translation};
use raytra::tup::{Point, Vector};

fn s(i: i32) -> Scalar {
    Scalar::from_int(i)
}

fn f(n: i32, d: i32) -> Scalar {
    Scalar::new(n, d).unwrap()
}

#[test]
fn ray() {
    let o = Point::new(s(1), s(2), s(3));
    let d = Vector::new(s(4), s(5), s(6));
    let r = Ray::new(o, d);

    assert_eq!(r.origin, o);
    assert_eq!(r.direction, d);
}

#[test]
fn distance() {
    let r = Ray::new(Point::new(s(2), s(3), s(4)), Vector::new(s(1), s(0), s(0)));
    assert!(r.position(s(0)).unwrap().approx_eq(&Point::new(s(2), s(3), s(4))));
    assert!(r.position(s(1)).unwrap().approx_eq(&Point::new(s(3), s(3), s(4))));
    assert!(r.position(s(-1)).unwrap().approx_eq(&Point::new(s(1), s(3), s(4))));
    assert!(r.position(f(5, 2)).unwrap().approx_eq(&Point::new(f(9, 2), s(3), s(4))));
}

#[test]
fn rays_translate() {
    let r = Ray::new(Point::new(s(1), s(2), s(3)), Vector::new(s(0), s(1), s(0)));
    let m = translation(s(3), s(4), s(5)).unwrap();
    let r2 = r.transform(&m).unwrap();

    assert!(r2.origin.approx_eq(&Point::new(s(4), s(6), s(8))));
    assert!(r2.direction.approx_eq(&Vector::new(s(0), s(1), s(0))));
}

#[test]
fn rays_scale() {
    let r = Ray::new(Point::new(s(1), s(2), s(3)), Vector::new(s(0), s(1), s(0)));
    let m = scaling(s(2), s(3), s(4)).unwrap();
    let r2 = r.transform(&m).unwrap();

    assert!(r2.origin.approx_eq(&Point::new(s(2), s(6), s(12))));
    assert!(r2.direction.approx_eq(&Vector::new(s(0), s(3), s(0))));
}

#[test]
fn intersect() {
    let r = Ray::new(Point::new(s(0), s(0), s(-5)), Vector::new(s(0), s(0), s(1)));
    let sp = Sphere::new();
    let is = sp.intersect(r).unwrap();

    assert_eq!(is.xs.len(), 2);
    assert!(is.xs[0].t.eq_rat(&s(4)));
    assert!(is.xs[1].t.eq_rat(&s(6)));
}

#[test]
fn intersect_tangent() {
    let r = Ray::new(Point::new(s(0), s(1), s(-5)), Vector::new(s(0), s(0), s(1)));
    let sp = Sphere::new();
    let is = sp.intersect(r).unwrap();

    assert_eq!(is.xs.len(), 2);
    assert!(is.xs[0].t.eq_rat(&s(5)));
    assert!(is.xs[1].t.eq_rat(&s(5)));
}

#[test]
fn intersect_miss() {
    let r = Ray::new(Point::new(s(0), s(2), s(-5)), Vector::new(s(0), s(0), s(1)));
    let sp = Sphere::new();
    let is = sp.intersect(r).unwrap();

    assert_eq!(is.xs.len(), 0);
}

#[test]
fn intersect_interior() {
    let r = Ray::new(Point::new(s(0), s(0), s(0)), Vector::new(s(0), s(0), s(1)));
    let sp = Sphere::new();
    let is = sp.intersect(r).unwrap();

    assert_eq!(is.xs.len(), 2);
    assert!(is.xs[0].t.eq_rat(&s(-1)));
    assert!(is.xs[1].t.eq_rat(&s(1)));
}

#[test]
fn intersect_behind() {
    let r = Ray::new(Point::new(s(0), s(0), s(5)), Vector::new(s(0), s(0), s(1)));
    let sp = Sphere::new();
    let is = sp.intersect(r).unwrap();

    assert_eq!(is.xs.len(), 2);
    assert!(is.xs[0].t.eq_rat(&s(-6)));
    assert!(is.xs[1].t.eq_rat(&s(-4)));
}

#[test]
fn intersect_objects() {
    let r = Ray::new(Point::new(s(0), s(0), s(-5)), Vector::new(s(0), s(0), s(1)));
    let sp = Sphere::new();
    let is = sp.intersect(r).unwrap();

    assert_eq!(is.xs.len(), 2);
    assert_eq!(is.xs[0].object, sp);
    assert_eq!(is.xs[1].object, sp);
}

#[test]
fn default_transform() {
    let sp = Sphere::new();
    assert_eq!(sp.transform, Matrix4x4::identity());
}

#[test]
fn change_transform() {
    let t = translation(s(2), s(3), s(4)).unwrap();
    let sp = Sphere::with_transform(t);

    assert_eq!(sp.transform, t);
}

#[test]
fn intersect_scaled() {
    let t = scaling(s(2), s(2), s(2)).unwrap();
    let sp = Sphere::with_transform(t);
    let r = Ray::new(Point::new(s(0), s(0), s(-5)), Vector::new(s(0), s(0), s(1)));
    let xs = sp.intersect(r).unwrap();

    assert_eq!(xs.xs.len(), 2);
    assert!(xs.xs[0].t.eq_rat(&s(3)));
    assert!(xs.xs[1].t.eq_rat(&s(7)));
}
