use termrender::fixed::{fix_add, fix_clamp, fix_div, fix_mul, fix_sub, ONE};
use termrender::math::{Lin, Surface};

#[test]
fn multiply_units() {
    assert_eq!(fix_mul(ONE, ONE), ONE);
    assert_eq!(fix_mul(3 * ONE, 2 * ONE), 6 * ONE);
    assert_eq!(fix_mul(-3 * ONE, 2 * ONE), -6 * ONE);
    assert_eq!(fix_mul(ONE / 2, ONE / 2), ONE / 4);
}

#[test]
fn divide_by_positive() {
    assert_eq!(fix_div(ONE, 2 * ONE), ONE / 2);
    assert_eq!(fix_div(-ONE, 2 * ONE), -ONE / 2);
    assert_eq!(fix_div(6 * ONE, 3 * ONE), 2 * ONE);
}

#[test]
fn saturating_edges() {
    assert_eq!(fix_add(i64::MAX, i64::MAX), i64::MAX);
    assert_eq!(fix_sub(i64::MIN, 1), i64::MIN);
    assert_eq!(fix_add(ONE, ONE), 2 * ONE);
}

#[test]
fn clamp_behaviour() {
    assert_eq!(fix_clamp(-5, 0, ONE), 0);
    assert_eq!(fix_clamp(2 * ONE, 0, ONE), ONE);
    assert_eq!(fix_clamp(17, 0, ONE), 17);
}

#[test]
fn line_through_two_points() {
    let l = Lin::from_points(0, 0, ONE, ONE);
    assert_eq!(l.k, ONE);
    assert_eq!(l.b, 0);
    assert_eq!(l.at(2 * ONE), 2 * ONE);
    let flat = Lin::from_points(0, 3 * ONE, 4 * ONE, 3 * ONE);
    assert_eq!(flat.at(ONE), 3 * ONE);
}

#[test]
fn plane_depth_interpolation() {
    // The plane z = 0.5 through three points; depth is 0.5 everywhere.
    let p0 = termrender::geom::Vec3 { x: -ONE, y: 0, z: ONE / 2 };
    let p1 = termrender::geom::Vec3 { x: ONE, y: 0, z: ONE / 2 };
    let p2 = termrender::geom::Vec3 { x: 0, y: ONE, z: ONE / 2 };
    let s = Surface::from_points(p0, p1, p2).unwrap();
    assert_eq!(s.at_x_y(0, 0), ONE / 2);
    assert_eq!(s.at_x_y(ONE / 4, -ONE / 3), ONE / 2);
}

#[test]
fn edge_on_plane_is_rejected() {
    // Three points on a vertical plane (x = 0): no usable depth fit.
    let p0 = termrender::geom::Vec3 { x: 0, y: 0, z: 0 };
    let p1 = termrender::geom::Vec3 { x: 0, y: ONE, z: 0 };
    let p2 = termrender::geom::Vec3 { x: 0, y: 0, z: ONE };
    assert!(Surface::from_points(p0, p1, p2).is_none());
}
