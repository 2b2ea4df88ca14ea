use pathtracer::aabb::AABB;
use pathtracer::hit::MaterialType;
use pathtracer::ray::{Rational, RationalPoint, Ray};
use pathtracer::triangle::Triangle;
use pathtracer::vector::{Components, Vector3};

fn v(x: i64, y: i64, z: i64) -> Vector3 {
    Vector3::new(x, y, z)
}

fn unit_box() -> AABB {
    AABB { min: v(-1, -1, -1), max: v(1, 1, 1) }
}

fn same_value(a: Rational, n: i128, d: i128) -> bool {
    a.num * d == n * a.den
}

fn same_point(p: RationalPoint, x: i128, y: i128, z: i128, w: i128) -> bool {
    p.x * w == x * p.w && p.y * w == y * p.w && p.z * w == z * p.w
}

#[test]
fn vector_formulas() {
    let a = v(1, 2, 3);
    let b = v(4, -5, 6);
    assert_eq!(a.dot(b), 4 - 10 + 18);
    assert_eq!(a.cross(b), v(2 * 6 - 3 * -5, 3 * 4 - 1 * 6, 1 * -5 - 2 * 4));
    assert_eq!(a.add(b), v(5, -3, 9));
    assert_eq!(a.subtract(b), v(-3, 7, -3));
    assert_eq!(a.multiply(3), v(3, 6, 9));
    assert_eq!(a.comp_multiply(b), v(4, -10, 18));
    assert_eq!(b.abs(), v(4, 5, 6));
    assert_eq!(a.add_scalar(2), v(3, 4, 5));
    assert_eq!(b.length_squared(), 16 + 25 + 36);
    assert_eq!(Vector3::zero(), v(0, 0, 0));
    assert_eq!(Vector3::from_single(7), v(7, 7, 7));
}

#[test]
fn largest_component_picks_the_largest_magnitude() {
    assert_eq!(v(-9, 2, 3).largest_component(), Components::X);
    assert_eq!(v(1, -9, 3).largest_component(), Components::Y);
    assert_eq!(v(1, 2, 9).largest_component(), Components::Z);
    assert_eq!(v(5, 5, 1).largest_component(), Components::Y);
    assert_eq!(v(1, -9, 3).largest_component_value(), -9);
    assert_eq!(v(1, -9, 3).only_largest_component(), v(0, -9, 0));
    assert_eq!(Components::X.next(), Components::Y);
    assert_eq!(Components::Z.next(), Components::X);
}

#[test]
fn aabb_trace_enters_box_in_front() {
    let ray = Ray::new(v(0, 0, -5), v(0, 0, 1));
    let t = unit_box().trace(&ray).expect("ray aimed at the box hits it");
    assert!(same_value(t, 4, 1));
    assert!(same_point(ray.point_at_param(t), 0, 0, -1, 1));
}

#[test]
fn aabb_trace_misses_box_beside_ray() {
    let ray = Ray::new(v(3, 0, -5), v(0, 0, 1));
    assert_eq!(unit_box().trace(&ray), None);
}

#[test]
fn aabb_trace_misses_box_behind_ray() {
    let ray = Ray::new(v(0, 0, 5), v(0, 0, 1));
    assert_eq!(unit_box().trace(&ray), None);
}

#[test]
fn aabb_trace_from_inside_uses_exit() {
    let ray = Ray::new(v(0, 0, 0), v(0, 0, 1));
    let t = unit_box().trace(&ray).expect("a ray inside the box meets it");
    assert!(same_value(t, 1, 1));
}

#[test]
fn aabb_trace_diagonal_ray() {
    let b = AABB { min: v(2, 2, 2), max: v(4, 4, 4) };
    let ray = Ray::new(v(0, 0, 0), v(1, 2, 1));
    let t = b.trace(&ray).expect("the ray touches the box at t = 2");
    assert!(same_value(t, 2, 1));
    let miss = Ray::new(v(0, 0, 0), v(1, 3, 1));
    assert_eq!(b.trace(&miss), None);
}

#[test]
fn aabb_union_contains_both_and_is_idempotent() {
    let a = AABB { min: v(0, -3, 2), max: v(1, 4, 5) };
    let b = AABB { min: v(-2, 0, 3), max: v(6, 1, 9) };
    let u = a.union(&b);
    assert_eq!(u, AABB { min: v(-2, -3, 2), max: v(6, 4, 9) });
    assert_eq!(a.union(&a), a);
}

fn floor_triangle() -> Triangle {
    // Counter-clockwise seen from above: normal points up (+y).
    Triangle::new(v(0, 0, 0), v(0, 0, 10), v(10, 0, 0), v(200, 200, 200), v(0, 0, 0), MaterialType::Diffuse)
}

#[test]
fn triangle_normal_and_bounds() {
    let t = floor_triangle();
    assert_eq!(t.normal, v(0, 100, 0));
    assert_eq!(t.centroid, v(10, 0, 10));
    assert_eq!(t.bounds(), AABB { min: v(0, 0, 0), max: v(10, 0, 10) });
}

#[test]
fn triangle_trace_front_face() {
    let t = floor_triangle();
    let ray = Ray::new(v(2, 5, 3), v(0, -1, 0));
    let h = t.trace(&ray).expect("downward ray hits the front face");
    assert!(same_point(h.pos, 2, 0, 3, 1));
    assert!(same_value(h.param, 5, 1));
    assert!(same_value(h.u, 3, 10));
    assert!(same_value(h.v, 2, 10));
}

#[test]
fn triangle_trace_rejects_back_face_and_outside() {
    let t = floor_triangle();
    assert!(t.trace(&Ray::new(v(2, -5, 3), v(0, 1, 0))).is_none());
    assert!(t.trace(&Ray::new(v(9, 5, 9), v(0, -1, 0))).is_none());
    assert!(t.trace(&Ray::new(v(2, 5, 3), v(1, 0, 0))).is_none());
}

#[test]
fn triangle_trace_scaled_direction_same_point() {
    let t = floor_triangle();
    let ray = Ray::new(v(1, 7, 1), v(1, -2, 1));
    let scaled = Ray::new(v(1, 7, 1), v(3, -6, 3));
    let h1 = t.trace(&ray).expect("hit");
    let h2 = t.trace(&scaled).expect("hit");
    assert!(same_point(h1.pos, 9, 0, 9, 2));
    assert!(same_point(h2.pos, 9, 0, 9, 2));
    assert!(same_value(h1.param, 7, 2));
    assert!(same_value(h2.param, 7, 6));
}
