use gamecore::geometry::{Rect, Vector};
use gamecore::incremental_value::{IncrementalValue, IncrementalValueDiff};

#[test]
fn test_cached() {
    let mut iv = IncrementalValue::new(0);
    assert!(!iv.is_changed());

    iv.set(5);
    assert!(iv.is_changed()); // Uses previous value
    assert!(iv.is_changed()); // Uses cached value

    iv.committed();
    assert!(!iv.is_changed());
    assert!(!iv.is_changed());
}

#[test]
fn test_set_same_value() {
    let mut iv = IncrementalValue::new("my string".to_string());
    assert!(!iv.is_changed());

    iv.set("my string".to_string());
    assert!(!iv.is_changed());

    iv.set("my string 2".to_string());
    assert!(iv.is_changed());

    iv.committed();
    assert!(!iv.is_changed());

    let my_string = iv.get_mut();
    my_string.clone_from(&"my string 2".to_string());
    assert!(!iv.is_changed());

    let my_string = iv.get_mut();
    my_string.clone_from(&"my string 3".to_string());
    assert!(iv.is_changed());
}

#[test]
fn test_vec() {
    let mut iv = IncrementalValue::new(vec![0, 1, 2]);
    assert!(!iv.is_changed());

    iv.set(vec![0, 1, 2]);
    assert!(!iv.is_changed());

    iv.set(vec![1, 2, 3]);
    assert!(iv.is_changed());

    iv.committed();
    assert!(!iv.is_changed());
}

#[test]
fn test_bool() {
    let mut iv = IncrementalValue::new(true);
    assert!(!iv.is_changed());

    iv.set(false);
    assert!(iv.is_changed());
    assert!(iv.is_changed());
    assert!(iv.is_changed());

    iv.set(true);
    assert!(!iv.is_changed());
    assert!(!iv.is_changed());
    assert!(!iv.is_changed());

    iv.set(false);
    assert!(iv.is_changed());
    iv.committed();
    assert!(!iv.is_changed());
    assert!(!iv.is_changed());
    assert!(!iv.is_changed());
}

#[test]
fn diff_tracking_normal() {
    // The tolerance variant in milli-scaled integers, threshold one half.
    let mut iv = IncrementalValueDiff::new(0i64, 500i64);
    assert!(!iv.is_changed());

    iv.set(5000);
    assert!(iv.is_changed());

    iv.committed();
    assert!(!iv.is_changed());
}

#[test]
fn diff_tracking_range() {
    let mut iv = IncrementalValueDiff::new(0i64, 500i64);
    assert!(!iv.is_changed());

    iv.set(250);
    assert!(!iv.is_changed());

    iv.set(400);
    assert!(!iv.is_changed());

    iv.set(1000);
    assert!(iv.is_changed());

    iv.committed();
    assert!(!iv.is_changed());
}

#[test]
fn diff_tracking_at_least() {
    // A step of exactly the threshold counts; just below it does not.
    let mut iv = IncrementalValueDiff::new(0i64, 500i64);
    assert!(!iv.is_changed());

    iv.set(500);
    assert!(iv.is_changed());

    iv.set(1000);
    assert!(iv.is_changed());

    iv.set(250);
    assert!(!iv.is_changed());

    iv.committed();
    assert!(!iv.is_changed());
}

#[test]
fn test_vector() {
    let mut iv = IncrementalValue::new(Vector::zero());
    assert!(!iv.is_changed());

    iv.set(Vector::zero());
    assert!(!iv.is_changed());

    iv.set(Vector::new(1000, 1000, 1000));
    assert!(iv.is_changed());

    iv.committed();
    assert!(!iv.is_changed());
}

#[test]
fn test_rect() {
    let mut iv = IncrementalValue::new(Rect::new(Vector::zero(), Vector::zero()));
    assert!(!iv.is_changed());

    iv.set(Rect::new(Vector::zero(), Vector::zero()));
    assert!(!iv.is_changed());

    iv.set(Rect::new(Vector::new(1000, 1000, 1000), Vector::new(1000, 1000, 1000)));
    assert!(iv.is_changed());

    iv.committed();
    assert!(!iv.is_changed());
}

#[test]
fn incremental_value_test_vector() {
    let mut iv = IncrementalValueDiff::new(Vector::zero(), 500);
    assert!(!iv.is_changed());

    iv.set(Vector::zero());
    assert!(!iv.is_changed());

    iv.set(Vector::new(1000, 1000, 1000));
    assert!(iv.is_changed());

    iv.committed();
    assert!(!iv.is_changed());
}
