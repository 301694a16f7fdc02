use gamecore::entities::entity::{EntityBody, UPDATES_TO_SLEEP};
use gamecore::geometry::{Rect, Vector};

fn unit_box_body(x: i64, is_static: bool) -> EntityBody {
    let rect = Rect::new(Vector::zero(), Vector::new(1000, 1000, 1000));
    // A static body starts at rest: only movable boxes carry velocity.
    let vel = if is_static { Vector::zero() } else { Vector::new(100, 0, 0) };
    EntityBody::new(is_static, Vector::new(x, 0, 0), vel, 0, vec![rect])
}

#[test]
fn colliding_boxes_separate_exactly_on_x() {
    // Two unit boxes overlapping by 0.4 units along x.
    let mut a = unit_box_body(0, false);
    let mut b = unit_box_body(600, false);
    EntityBody::collide(&mut a, &mut b);
    let ca = a.get_pos().x;
    let cb = b.get_pos().x;
    assert_eq!(cb - ca, 1000); // exactly (size_a.x + size_b.x) / 2
    assert_eq!(a.get_vel().x, 0);
    assert_eq!(b.get_vel().x, 0);
}

#[test]
fn static_body_never_moves_in_collision() {
    let mut a = unit_box_body(0, true);
    let mut b = unit_box_body(600, false);
    EntityBody::collide(&mut a, &mut b);
    assert_eq!(a.get_pos().x, 0);
    // The movable body took the whole push.
    assert_eq!(b.get_pos().x, 1000);
}

#[test]
fn quiet_body_sleeps_on_eleventh_update() {
    let rect = Rect::new(Vector::zero(), Vector::new(1000, 1000, 1000));
    let mut body = EntityBody::new(
        false,
        Vector::zero(),
        Vector::zero(),
        0,
        vec![rect],
    );
    for i in 0..UPDATES_TO_SLEEP {
        body.physics_did_update();
        body.committed();
        assert!(!*body.is_sleeping(), "still awake after update {}", i + 1);
    }
    body.physics_did_update();
    assert!(*body.is_sleeping());
}

#[test]
fn integration_applies_gravity_then_velocity() {
    let rect = Rect::new(Vector::zero(), Vector::new(1000, 1000, 1000));
    let mut body = EntityBody::new(
        false,
        Vector::zero(),
        Vector::new(2000, 0, 0),
        0,
        vec![rect],
    );
    // One 33 ms substep under gravity of 10 units per second squared.
    body.integrate(33, 10_000);
    assert_eq!(body.get_vel().z, -330);
    assert_eq!(body.get_pos().x, 66);
    assert_eq!(body.get_pos().z, -10); // 330 * 33 / 1000, truncated
}

#[test]
fn static_and_sleeping_bodies_do_not_integrate() {
    let rect = Rect::new(Vector::zero(), Vector::new(1000, 1000, 1000));
    let mut fixed = EntityBody::new(true, Vector::new(5, 5, 5), Vector::zero(), 0, vec![rect]);
    fixed.integrate(33, 10_000);
    assert_eq!(fixed.get_pos().x, 5);
    assert_eq!(fixed.get_vel().z, 0);
}

#[test]
fn volume_is_sum_of_rect_volumes() {
    let r1 = Rect::new(Vector::zero(), Vector::new(2000, 1000, 500));
    let r2 = Rect::new(Vector::new(3000, 0, 0), Vector::new(1000, 1000, 1000));
    let body = EntityBody::new(false, Vector::zero(), Vector::zero(), 0, vec![r1, r2]);
    assert_eq!(body.volume(), 2000 * 1000 * 500 + 1000 * 1000 * 1000);
}
