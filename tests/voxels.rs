use pathtracer::hit::MaterialType;
use pathtracer::ray::Ray;
use pathtracer::scene::SceneData;
use pathtracer::vector::Vector3;
use pathtracer::voxel::{Voxel, VoxelTraversal};

fn v(x: i64, y: i64, z: i64) -> Vector3 {
    Vector3::new(x, y, z)
}

fn scene() -> SceneData {
    SceneData::new(v(0, 0, 0), v(1, 0, 0), 0, false)
}

fn grid(steps: u32, cells: &[(i32, i32, i32)]) -> VoxelTraversal {
    let mut g = VoxelTraversal::new(steps);
    for (i, c) in cells.iter().enumerate() {
        g.new_voxel(*c, v(i as i64, 0, 0), v(0, 0, 0), MaterialType::Diffuse);
    }
    g
}

#[test]
fn voxels_are_stored_and_replaced() {
    let mut g = grid(8, &[(1, 2, 3), (4, 5, 6)]);
    assert_eq!(g.get_voxel((1, 2, 3)).expect("stored").color, v(0, 0, 0));
    assert!(g.get_voxel((0, 0, 0)).is_none());
    g.new_voxel((1, 2, 3), v(7, 7, 7), v(1, 1, 1), MaterialType::Reflective);
    let r = g.get_voxel((1, 2, 3)).expect("replaced");
    assert_eq!(r.color, v(7, 7, 7));
    assert_eq!(g.get_voxel((4, 5, 6)).expect("kept").color, v(1, 0, 0));
    let fresh = Voxel::new((0, 0, 1), v(0, 0, 0), v(0, 0, 0), MaterialType::Lens);
    assert_eq!(fresh.pos, (0, 0, 1));
}

#[test]
fn cast_ray_walks_along_an_axis() {
    let g = grid(16, &[(5, 0, 0)]);
    let (vx, t) = g.cast_ray(&Ray::new(v(0, 0, 0), v(1, 0, 0)), &scene()).expect("in reach");
    assert_eq!(vx.pos, (5, 0, 0));
    assert_eq!((t.num, t.den), (5, 1));
    assert!(grid(3, &[(5, 0, 0)]).cast_ray(&Ray::new(v(0, 0, 0), v(1, 0, 0)), &scene()).is_none());
}

#[test]
fn cast_ray_backwards_and_at_the_start() {
    let g = grid(16, &[(-3, 0, 0)]);
    let (vx, t) = g.cast_ray(&Ray::new(v(0, 0, 0), v(-1, 0, 0)), &scene()).expect("in reach");
    assert_eq!(vx.pos, (-3, 0, 0));
    assert_eq!((t.num, t.den), (2, 1));
    let here = grid(16, &[(0, 0, 0)]);
    let (_, t0) = here.cast_ray(&Ray::new(v(0, 0, 0), v(0, 1, 0)), &scene()).expect("starts inside");
    assert_eq!(t0.num, 0);
}

#[test]
fn cast_ray_steps_through_a_diagonal() {
    let g = grid(16, &[(3, 1, 0)]);
    let ray = Ray::new(v(0, 0, 0), v(2, 1, 0));
    let (_, t) = g.cast_ray(&ray, &scene()).expect("in reach");
    assert_eq!((t.num, t.den), (3, 2));
    let h = g.resolve(&ray, &scene()).expect("hit");
    assert_eq!((h.pos.x, h.pos.y, h.pos.z, h.pos.w), (6, 3, 0, 2));
    assert_eq!(h.normal, v(0, 0, -2));
    assert!(g.resolve(&Ray::new(v(0, 0, 0), v(0, -1, 0)), &scene()).is_none());
}
