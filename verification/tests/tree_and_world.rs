use gamecore::geometry::{Ray, Rect, Vector};
use gamecore::quad_tree::{QuadTree, TreeBounds, TreeEntry};

fn entry(id: u64, x: i64, y: i64) -> TreeEntry {
    TreeEntry {
        id,
        pos: Vector::new(x, y, 0),
        bounding: Some(Rect::new(Vector::zero(), Vector::new(1000, 1000, 1000))),
        rects: vec![Rect::new(Vector::zero(), Vector::new(1000, 1000, 1000))],
        sleeping: false,
        is_static: false,
    }
}

fn fresh_tree() -> QuadTree {
    QuadTree::new(0, TreeBounds::new(-500_000, -500_000, 1_000_000, 1_000_000))
}

#[test]
fn insert_remove_round_trip() {
    let mut tree = fresh_tree();
    for i in 0..20u64 {
        tree.insert(entry(i, (i as i64) * 5_000, 0));
    }
    for i in 0..20u64 {
        let removed = tree.remove(i).expect("inserted entries are found");
        assert_eq!(removed.id, i);
    }
    assert!(tree.remove(0).is_none());
}

#[test]
fn rect_query_finds_exactly_the_overlapping() {
    let mut tree = fresh_tree();
    tree.insert(entry(1, 0, 0));
    tree.insert(entry(2, 10_000, 0));
    tree.insert(entry(3, 100_000, 100_000));
    let query = Rect::new(Vector::zero(), Vector::new(4_000, 4_000, 4_000));
    let hits = tree.query_rect_all(&query, &Vector::zero(), true, true, None);
    let ids: Vec<u64> = hits.iter().map(|e| e.id).collect();
    assert!(ids.contains(&1));
    assert!(!ids.contains(&2));
    assert!(!ids.contains(&3));
}

#[test]
fn rect_query_respects_exclusion() {
    let mut tree = fresh_tree();
    tree.insert(entry(1, 0, 0));
    tree.insert(entry(2, 500, 0));
    let query = Rect::new(Vector::zero(), Vector::new(4_000, 4_000, 4_000));
    let hits = tree.query_rect_all(&query, &Vector::zero(), true, true, Some(1));
    let ids: Vec<u64> = hits.iter().map(|e| e.id).collect();
    assert!(!ids.contains(&1));
    assert!(ids.contains(&2));
}

#[test]
fn ray_cast_returns_closest_hit() {
    let mut tree = fresh_tree();
    tree.insert(entry(1, 5_000, 0)); // near box: faces at 4.5 and 5.5 units
    tree.insert(entry(2, 20_000, 0)); // far box
    let ray = Ray::new(Vector::zero(), Vector::new(1_000, 0, 0), 1_000_000);
    let (id, t) = tree.cast_ray(&ray, None).expect("the ray crosses both boxes");
    assert_eq!(id, 1);
    // Entry exactly at the near face: t = 4500 / 1000.
    assert_eq!(t.num as i128 * 1_000, 4_500 * t.den as i128);
}

#[test]
fn ray_cast_skips_the_excluded_shooter() {
    let mut tree = fresh_tree();
    tree.insert(entry(7, 5_000, 0));
    tree.insert(entry(8, 20_000, 0));
    let ray = Ray::new(Vector::zero(), Vector::new(1_000, 0, 0), 1_000_000);
    let (id, _) = tree.cast_ray(&ray, Some(7)).expect("the far box still hits");
    assert_eq!(id, 8);
}

#[test]
fn collision_pairs_are_present_entities() {
    let mut tree = fresh_tree();
    tree.insert(entry(1, 0, 0));
    tree.insert(entry(2, 500, 0));
    let mut pairs = Vec::new();
    tree.collision_pairs(&mut pairs);
    assert!(pairs.contains(&(1, 2)));
}
