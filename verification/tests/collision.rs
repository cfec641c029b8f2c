use space_invaders::collision_shape::{
    create_circle_collider, is_circle_collision, update_circle_collider, CircleCollider, Point,
};
use space_invaders::units::{travel, UNIT};

fn circle(x: i64, y: i64, radius: u32) -> CircleCollider {
    create_circle_collider(Point { x, y }, radius)
}

#[test]
fn create_sets_centre_and_radius() {
    let c = circle(3, -4, 20_000_000);
    assert_eq!(c.pos, Point { x: 3, y: -4 });
    assert_eq!(c.radius, 20_000_000);
}

#[test]
fn update_moves_centre_and_keeps_radius() {
    let mut c = circle(0, 0, 84_000_000);
    update_circle_collider(&mut c, Point { x: 12_933_592, y: 180_000_000 });
    assert_eq!(c, CircleCollider { pos: Point { x: 12_933_592, y: 180_000_000 }, radius: 84_000_000 });
}

#[test]
fn overlap_is_symmetric() {
    let shapes = vec![
        circle(0, 0, 20_000_000),
        circle(50_000_000, 0, 30_000_000),
        circle(50_000_001, 0, 30_000_000),
        circle(-30_000_000, 40_000_000, 0),
        circle(i64::MAX, i64::MIN, u32::MAX),
        circle(i64::MIN, i64::MAX, 1),
        circle(7, 7, 7),
    ];
    for a in shapes.iter() {
        for b in shapes.iter() {
            assert_eq!(is_circle_collision(a, b), is_circle_collision(b, a));
        }
    }
}

#[test]
fn circles_exactly_radius_sum_apart_overlap() {
    let a = circle(0, 0, 20_000_000);
    let b = circle(50_000_000, 0, 30_000_000);
    assert!(is_circle_collision(&a, &b));
    // 3-4-5 triangle: distance 50 units, radii 20 + 30.
    let c = circle(30_000_000, 40_000_000, 30_000_000);
    assert!(is_circle_collision(&a, &c));
}

#[test]
fn circles_just_beyond_radius_sum_do_not_overlap() {
    let a = circle(0, 0, 20_000_000);
    let b = circle(50_000_001, 0, 30_000_000);
    assert!(!is_circle_collision(&a, &b));
    let c = circle(30_000_000, 40_000_001, 30_000_000);
    assert!(!is_circle_collision(&a, &c));
    let d = circle(0, -50_000_001, 30_000_000);
    assert!(!is_circle_collision(&a, &d));
}

#[test]
fn identical_centres_always_overlap() {
    let a = circle(5, 5, 0);
    let b = circle(5, 5, 0);
    assert!(is_circle_collision(&a, &b));
    let c = circle(5, 5, 1);
    assert!(is_circle_collision(&a, &c));
}

#[test]
fn zero_radius_circles_apart_do_not_overlap() {
    let a = circle(5, 5, 0);
    let b = circle(5, 6, 0);
    assert!(!is_circle_collision(&a, &b));
}

#[test]
fn overlap_at_the_ends_of_the_coordinate_range() {
    let a = circle(i64::MIN, i64::MIN, u32::MAX);
    let b = circle(i64::MAX, i64::MAX, u32::MAX);
    assert!(!is_circle_collision(&a, &b));
    let c = circle(i64::MAX - 10, i64::MAX, 4);
    let d = circle(i64::MAX, i64::MAX, 6);
    assert!(is_circle_collision(&c, &d));
    let e = circle(i64::MAX - 11, i64::MAX, 4);
    assert!(!is_circle_collision(&e, &d));
    let f = circle(i64::MIN, 0, u32::MAX);
    let g = circle(i64::MIN + 2 * (u32::MAX as i64), 0, u32::MAX);
    assert!(is_circle_collision(&f, &g));
}

#[test]
fn travel_is_speed_times_time_rounded_down() {
    assert_eq!(UNIT, 1_000_000);
    assert_eq!(travel(400_000_000, 1_000_000), 400_000_000);
    assert_eq!(travel(400_166_670, 16_667), 6_669_577);
    assert_eq!(travel(776_000_000, 16_667), 12_933_592);
    assert_eq!(travel(0, u32::MAX), 0);
    assert_eq!(travel(5, 0), 0);
    assert_eq!(travel(999_999, 1), 0);
    assert_eq!(travel(u64::MAX, u32::MAX), (u64::MAX as u128) * (u32::MAX as u128) / 1_000_000);
}
