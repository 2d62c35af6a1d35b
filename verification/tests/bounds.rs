use mcworldgen::bounds::Bounds;
use mcworldgen::points::Point;

fn corner(x: i64, y: i64, z: i64) -> Point {
    Point { x, y, z }
}

fn boxed(min: Point, max: Point) -> Bounds {
    Bounds { min, max }
}

#[test]
fn center_rounds_down() {
    assert_eq!(boxed(corner(0, 0, 0), corner(1, 0, 0)).center(), corner(0, 0, 0));
    assert_eq!(boxed(corner(0, 0, 0), corner(4, 5, 6)).center(), corner(2, 2, 3));
    assert_eq!(boxed(corner(-5, -4, -3), corner(0, 0, 0)).center(), corner(-3, -2, -2));
    assert_eq!(boxed(corner(-3, -3, -3), corner(-2, -2, -2)).center(), corner(-3, -3, -3));
}

#[test]
fn center_of_an_inverted_box_rounds_down_too() {
    assert_eq!(boxed(corner(1, 0, 0), corner(0, 0, 0)).center(), corner(0, 0, 0));
    assert_eq!(boxed(corner(5, 5, 5), corner(0, 2, 4)).center(), corner(2, 3, 4));
}

#[test]
fn center_does_not_overflow_at_the_ends_of_the_range() {
    let whole = boxed(corner(i64::MIN, i64::MIN, 0), corner(i64::MAX, i64::MIN + 1, i64::MAX));
    assert_eq!(whole.center(), corner(-1, i64::MIN, i64::MAX / 2));
}

#[test]
fn from_point_is_a_box_of_one_position() {
    let p = corner(3, -4, 5);
    let b = Bounds::from_point(&p);
    assert_eq!(b, boxed(p, p));
    assert!(b.contains(&p));
    assert_eq!(b.center(), p);
    assert_eq!(Bounds::zero(), boxed(corner(0, 0, 0), corner(0, 0, 0)));
}

#[test]
fn expand_moves_each_face_outward() {
    let b = Bounds::from_point(&corner(0, 8, 0)).expand(&corner(100, 8, 100));
    assert_eq!(b, boxed(corner(-100, 0, -100), corner(100, 16, 100)));
    let c = boxed(corner(1, 2, 3), corner(4, 5, 6)).expand(&corner(1, 0, 2));
    assert_eq!(c, boxed(corner(0, 2, 1), corner(5, 5, 8)));
}

#[test]
fn checked_expand_refuses_what_leaves_the_range() {
    let b = Bounds::from_point(&corner(i64::MAX, 0, 0));
    assert_eq!(b.checked_expand(&corner(1, 0, 0)), None);
    assert_eq!(
        b.checked_expand(&corner(0, 1, 1)),
        Some(boxed(corner(i64::MAX, -1, -1), corner(i64::MAX, 1, 1)))
    );
    let low = Bounds::from_point(&corner(0, i64::MIN, 0));
    assert_eq!(low.checked_expand(&corner(0, 1, 0)), None);
}

#[test]
fn contains_includes_the_faces() {
    let b = boxed(corner(0, 0, 0), corner(2, 3, 4));
    assert!(b.contains(&corner(0, 0, 0)));
    assert!(b.contains(&corner(2, 3, 4)));
    assert!(b.contains(&corner(1, 1, 1)));
    assert!(!b.contains(&corner(-1, 0, 0)));
    assert!(!b.contains(&corner(3, 0, 0)));
    assert!(!b.contains(&corner(0, -1, 0)));
    assert!(!b.contains(&corner(0, 4, 0)));
    assert!(!b.contains(&corner(0, 0, -1)));
    assert!(!b.contains(&corner(0, 0, 5)));
}

#[test]
fn bounds_are_written_as_two_corners() {
    let b = boxed(corner(0, 0, 0), corner(1, 0, 0));
    assert_eq!(b.to_string(), "(0, 0, 0) -> (1, 0, 0)");
    let c = boxed(corner(-12, 5, -7), corner(340, 64, 9));
    assert_eq!(c.to_string(), "(-12, 5, -7) -> (340, 64, 9)");
    let d = boxed(corner(i64::MIN, 0, 0), corner(i64::MAX, 0, 0));
    assert_eq!(d.to_string(), "(-9223372036854775808, 0, 0) -> (9223372036854775807, 0, 0)");
}
