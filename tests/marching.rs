use pathtracer::hit::MaterialType;
use pathtracer::ray::Ray;
use pathtracer::resolver::Resolver;
use pathtracer::ray_marcher::{isqrt, RayMarcher, SDFResult, SdfObject, Shape, DIR_UNIT};
use pathtracer::scene::SceneData;
use pathtracer::vector::Vector3;

fn v(x: i64, y: i64, z: i64) -> Vector3 {
    Vector3::new(x, y, z)
}

fn scene() -> SceneData {
    SceneData::new(v(0, 0, 0), v(0, 0, 1), 0, false)
}

fn sphere_marcher(radius: i64, max_steps: u32, max_distance: i64) -> RayMarcher {
    RayMarcher {
        max_steps,
        max_distance,
        epsilon: 1,
        scene: vec![SdfObject {
            shape: Shape::Sphere { center: v(0, 0, 0), radius },
            color: v(255, 0, 0),
            emit: v(0, 0, 0),
            t: MaterialType::Diffuse,
        }],
    }
}

#[test]
fn integer_square_root() {
    assert_eq!(isqrt(0), 0);
    assert_eq!(isqrt(1), 1);
    assert_eq!(isqrt(26), 5);
    assert_eq!(isqrt(35), 5);
    assert_eq!(isqrt(36), 6);
    assert_eq!(isqrt(1u128 << 80), 1u128 << 40);
    assert_eq!(isqrt((1u128 << 80) - 1), (1u128 << 40) - 1);
}

#[test]
fn distance_functions() {
    assert_eq!(SDFResult::sphere_dist(v(3, 4, 0), v(0, 0, 0), 2), 3);
    assert_eq!(SDFResult::sphere_dist(v(0, 0, 0), v(0, 0, 0), 2), -2);
    assert_eq!(SDFResult::plane_dist(v(0, 7, 0), 2, 1), 4);
    assert_eq!(SDFResult::plane_dist(v(0, -3, 0), 2, 1), 4);
    assert_eq!(SDFResult::box_dist(v(3, 4, 0), 1), 3);
    assert_eq!(SDFResult::box_dist(v(0, 0, 0), 2), -2);
}

#[test]
fn union_keeps_the_nearer_and_the_second_on_ties() {
    let a = SDFResult::new(3, v(1, 1, 1), v(0, 0, 0), MaterialType::Diffuse);
    let b = SDFResult::new(5, v(2, 2, 2), v(0, 0, 0), MaterialType::Reflective);
    let c = SDFResult::new(3, v(3, 3, 3), v(0, 0, 0), MaterialType::Lens);
    assert_eq!(a.union(b), a);
    assert_eq!(b.union(a), a);
    assert_eq!(a.union(c), c);
}

#[test]
fn marcher_hits_sphere_at_distance_minus_radius() {
    let m = sphere_marcher(5, 64, 100);
    let ray = Ray::new(v(0, 0, -20), v(0, 0, DIR_UNIT));
    let h = m.resolve(&ray, false, &scene()).expect("the sphere is in front");
    assert_eq!(h.param.num, 15);
    assert_eq!(h.param.den, DIR_UNIT as i128);
    assert_eq!((h.pos.x, h.pos.y, h.pos.z, h.pos.w), (0, 0, -5 * DIR_UNIT as i128, DIR_UNIT as i128));
    assert_eq!(h.normal, v(0, 0, -2 * DIR_UNIT));
    assert_eq!(h.color, v(255, 0, 0));
}

#[test]
fn marcher_hits_sphere_along_a_diagonal() {
    let m = sphere_marcher(10, 64, 200);
    // Unit direction (3, 4, 0) / 5, scaled.
    let d = v(3 * DIR_UNIT / 5, 4 * DIR_UNIT / 5, 0);
    let ray = Ray::new(v(-30, -40, 0), d);
    let h = m.resolve(&ray, false, &scene()).expect("aimed at the centre");
    let t = h.param.num as i64;
    assert!((39..=41).contains(&t), "distance {} is about 50 - 10", t);
}

#[test]
fn marcher_from_inside_with_refraction() {
    let m = sphere_marcher(5, 64, 100);
    let ray = Ray::new(v(0, 0, 0), v(0, 0, DIR_UNIT));
    let h = m.resolve(&ray, true, &scene()).expect("leaves the sphere");
    assert_eq!(h.param.num, 5);
}

#[test]
fn marcher_gives_up_past_max_distance_or_steps() {
    let ray = Ray::new(v(0, 0, -20), v(0, 0, DIR_UNIT));
    assert!(sphere_marcher(5, 64, 10).resolve(&ray, false, &scene()).is_none());
    assert!(sphere_marcher(5, 1, 100).resolve(&ray, false, &scene()).is_none());
    let away = Ray::new(v(0, 0, -20), v(0, 0, -DIR_UNIT));
    assert!(sphere_marcher(5, 64, 100).resolve(&away, false, &scene()).is_none());
}

#[test]
fn marcher_picks_the_nearest_object() {
    let m = RayMarcher {
        max_steps: 64,
        max_distance: 100,
        epsilon: 1,
        scene: vec![
            SdfObject { shape: Shape::Sphere { center: v(0, 0, 10), radius: 2 }, color: v(1, 1, 1), emit: v(0, 0, 0), t: MaterialType::Diffuse },
            SdfObject { shape: Shape::Plane { height: -3, thickness: 1 }, color: v(2, 2, 2), emit: v(0, 0, 0), t: MaterialType::Diffuse },
            SdfObject { shape: Shape::Cube { half: 1 }, color: v(3, 3, 3), emit: v(9, 9, 9), t: MaterialType::Lens },
        ],
    };
    let h = m.resolve(&Ray::new(v(0, 0, -10), v(0, 0, DIR_UNIT)), false, &scene()).expect("the cube is first");
    assert_eq!(h.param.num, 9);
    assert_eq!(h.emit, v(9, 9, 9));
    assert_eq!(h.material, MaterialType::Lens);
    let down = m.resolve(&Ray::new(v(20, 5, 0), v(0, -DIR_UNIT, 0)), false, &scene()).expect("the floor");
    assert_eq!(down.param.num, 7);
    assert_eq!(down.color, v(2, 2, 2));
}

#[test]
fn marcher_as_a_resolver_variant() {
    let r = Resolver::Marcher(sphere_marcher(5, 64, 100));
    let ray = Ray::new(v(0, 0, -20), v(0, 0, DIR_UNIT));
    let h = r.resolve(&ray, false, &scene()).expect("the sphere is in front");
    assert_eq!(h.param.num, 15);
    assert_eq!(r.resolve_all(&ray, false, &scene()).len(), 1);
    let inside = Ray::new(v(0, 0, 0), v(0, 0, DIR_UNIT));
    assert_eq!(r.resolve(&inside, true, &scene()).expect("exits").param.num, 5);
}
