use raytra::scalar::Scalar;
use raytra::intersection::{Intersection, Intersections};
use raytra::sphere::Sphere;

fn s(i: i32) -> Scalar {
    Scalar::from_int(i)
}

fn f(n: i32, d: i32) -> Scalar {
    Scalar::new(n, d).unwrap()
}

#[test]
fn intersection() {
    let sp = Sphere::new();
    let i = Intersection::new(f(7, 2), sp);

    assert!(i.t.eq_rat(&f(7, 2)));
    assert_eq!(i.object, sp);
}

#[test]
fn intersections() {
    let sp = Sphere::new();
    let i1 = Intersection::new(s(1), sp);
    let i2 = Intersection::new(s(2), sp);
    let is = Intersections::new(vec![i1, i2]);

    assert_eq!(is.xs.len(), 2);
    assert!(is.xs[0].t.eq_rat(&s(1)));
    assert!(is.xs[1].t.eq_rat(&s(2)));
}

#[test]
fn hit() {
    let sp = Sphere::new();
    let i1 = Intersection::new(s(1), sp);
    let i2 = Intersection::new(s(2), sp);
    let xs = Intersections::new(vec![i1, i2]);

    assert_eq!(xs.hit().unwrap(), i1);

    let i1 = Intersection::new(s(-1), sp);
    let i2 = Intersection::new(s(2), sp);
    let xs = Intersections::new(vec![i1, i2]);

    assert_eq!(xs.hit().unwrap(), i2);

    let i1 = Intersection::new(s(5), sp);
    let i2 = Intersection::new(s(7), sp);
    let i3 = Intersection::new(s(-3), sp);
    let i4 = Intersection::new(s(2), sp);
    let xs = Intersections::new(vec![i1, i2, i3, i4]);

    assert_eq!(xs.hit().unwrap(), i4);
}

#[test]
#[should_panic]
fn hit_none() {
    let sp = Sphere::new();
    let i1 = Intersection::new(s(-1), sp);
    let i2 = Intersection::new(s(-2), sp);
    let xs = Intersections::new(vec![i1, i2]);

    assert_eq!(xs.hit().unwrap(), i2);
}
