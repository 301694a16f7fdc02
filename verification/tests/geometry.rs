use gamecore::geometry::{Frac, Ray, Rect, Vector};

#[test]
fn rotate_four_times_is_identity() {
    let original = Rect::new(Vector::new(2000, -3000, 500), Vector::new(1000, 2000, 3000));
    let mut r = original;
    r.rotate(&4);
    assert_eq!(r.center.x, original.center.x);
    assert_eq!(r.center.y, original.center.y);
    assert_eq!(r.center.z, original.center.z);
    assert_eq!(r.size.x, original.size.x);
    assert_eq!(r.size.y, original.size.y);
    assert_eq!(r.size.z, original.size.z);
}

#[test]
fn rotate_swaps_extents() {
    let mut r = Rect::new(Vector::new(1000, 0, 0), Vector::new(2000, 4000, 6000));
    r.rotate(&1);
    // (x, y) becomes (-y, x) and the x/y sizes swap.
    assert_eq!(r.center.x, 0);
    assert_eq!(r.center.y, 1000);
    assert_eq!(r.size.x, 4000);
    assert_eq!(r.size.y, 2000);
    assert_eq!(r.size.z, 6000);
}

#[test]
fn intersects_symmetric_and_reflexive() {
    let a = Rect::new(Vector::new(0, 0, 0), Vector::new(2000, 2000, 2000));
    let b = Rect::new(Vector::new(1500, 0, 0), Vector::new(2000, 2000, 2000));
    let zero = Vector::zero();
    assert!(a.intersects(&b, &zero, &zero));
    assert!(b.intersects(&a, &zero, &zero));
    assert!(a.intersects(&a, &zero, &zero));
    // Touching exactly is no overlap: the tests are strict.
    let c = Rect::new(Vector::new(2000, 0, 0), Vector::new(2000, 2000, 2000));
    assert!(!a.intersects(&c, &zero, &zero));
}

#[test]
fn slab_hit_from_inside_has_nonpositive_entry() {
    let rect = Rect::new(Vector::new(0, 0, 0), Vector::new(2000, 2000, 2000));
    let ray = Ray::new(Vector::new(0, 0, 0), Vector::new(1000, 500, 0), 1_000_000);
    let hit = rect.intersects_ray(&ray, &Vector::zero());
    let t = hit.expect("a ray from the centre must hit");
    assert!(t.num <= 0);
    assert!(t.den > 0);
}

#[test]
fn slab_miss_behind() {
    let rect = Rect::new(Vector::new(10_000, 0, 0), Vector::new(2000, 2000, 2000));
    // The box lies behind the ray: tmax < 0 is no hit.
    let ray = Ray::new(Vector::new(20_000, 0, 0), Vector::new(1000, 0, 0), 1_000_000);
    assert!(rect.intersects_ray(&ray, &Vector::zero()).is_none());
}

#[test]
fn frac_comparisons_are_exact() {
    let a = Frac { num: 1, den: 3 };
    let b = Frac { num: 2, den: 6 };
    let c = Frac { num: 1, den: 2 };
    assert!(a.le(&b));
    assert!(b.le(&a));
    assert!(a.lt(&c));
    assert!(!c.lt(&a));
}
