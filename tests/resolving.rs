use pathtracer::bvh::{generate_bvh, BvhError};
use pathtracer::hit::MaterialType;
use pathtracer::path_tracer::{BounceAction, BounceEvent, PathState, PathTracer};
use pathtracer::ray::{RationalPoint, Ray};
use pathtracer::renderer::{BasicRenderer, NormalRenderer, VolumetricRenderer};
use pathtracer::resolver::{AABBRayResolver, Dummy, MultiRayResolver, Resolver, TriangleResolver};
use pathtracer::scene::SceneData;
use pathtracer::snapshot::{Snapshot, SnapshotError};
use pathtracer::triangle::Triangle;
use pathtracer::vector::Vector3;

fn v(x: i64, y: i64, z: i64) -> Vector3 {
    Vector3::new(x, y, z)
}

fn same_point(p: RationalPoint, x: i128, y: i128, z: i128, w: i128) -> bool {
    p.x * w == x * p.w && p.y * w == y * p.w && p.z * w == z * p.w
}

fn scene(fog: bool) -> SceneData {
    SceneData::new(v(0, 0, -5), v(0, 0, 0), 50, fog)
}

/// A triangle facing -z, at depth `z`, spread along x from `x`.
fn facing(x: i64, z: i64, emit: i64) -> Triangle {
    Triangle::new(v(x, 0, z), v(x, 10, z), v(x + 10, 0, z), v(255, 255, 255), v(emit, emit, emit), MaterialType::Diffuse)
}

fn count(r: &Resolver) -> (usize, usize) {
    match r {
        Resolver::Bounded(b) => match &*b.inner {
            Resolver::Triangle(_) => (1, 0),
            Resolver::Multi(m) => {
                let mut leaves = 0;
                let mut internal = 1;
                for c in &m.inner {
                    let (l, i) = count(c);
                    leaves += l;
                    internal += i;
                }
                (leaves, internal)
            }
            _ => (0, 0),
        },
        _ => (0, 0),
    }
}

#[test]
fn bvh_needs_a_triangle() {
    assert_eq!(generate_bvh(Vec::new()).err(), Some(BvhError::NoTriangles));
}

#[test]
fn bvh_counts_leaves_and_internal_nodes() {
    for n in 1..9i64 {
        let ts: Vec<Triangle> = (0..n).map(|i| facing(20 * i, 5, 0)).collect();
        let b = generate_bvh(ts).expect("non-empty");
        let (leaves, internal) = count(&Resolver::Bounded(b));
        assert_eq!(leaves as i64, n);
        assert_eq!(internal as i64, n - 1);
    }
}

#[test]
fn bvh_splits_at_the_median_centroid() {
    let ts = vec![facing(60, 5, 0), facing(0, 5, 0), facing(40, 5, 0), facing(20, 5, 0)];
    let b = generate_bvh(ts).expect("non-empty");
    match &*b.inner {
        Resolver::Multi(m) => {
            assert_eq!(m.inner.len(), 2);
            match &m.inner[0] {
                Resolver::Bounded(left) => {
                    assert!(left.aabb.max.x < 40);
                }
                _ => panic!("left child is a box"),
            }
            match &m.inner[1] {
                Resolver::Bounded(right) => {
                    assert!(right.aabb.min.x >= 39);
                }
                _ => panic!("right child is a box"),
            }
        }
        _ => panic!("a root over four triangles is internal"),
    }
    assert_eq!(b.aabb.min.x, 0);
    assert_eq!(b.aabb.max.x, 70);
}

#[test]
fn bvh_leaf_box_has_margin() {
    let t = Triangle::new(v(0, 0, 0), v(200, 0, 0), v(0, 100, 0), v(1, 1, 1), v(0, 0, 0), MaterialType::Diffuse);
    let b = generate_bvh(vec![t]).expect("one triangle");
    assert_eq!(b.aabb.min, v(-2, -1, 0));
    assert_eq!(b.aabb.max, v(202, 101, 0));
}

#[test]
fn bvh_resolves_the_nearest_triangle() {
    let ts = vec![facing(0, 30, 7), facing(0, 10, 3), facing(0, 20, 5)];
    let r = Resolver::Bounded(generate_bvh(ts).expect("non-empty"));
    let ray = Ray::new(v(2, 2, -5), v(0, 0, 1));
    let h = r.resolve(&ray, false, &scene(false)).expect("hits the nearest");
    assert!(same_point(h.pos, 2, 2, 10, 1));
    assert_eq!(h.emit, v(3, 3, 3));
    let miss = Ray::new(v(50, 50, -5), v(0, 0, 1));
    assert!(r.resolve(&miss, false, &scene(false)).is_none());
}

#[test]
fn single_triangle_bvh_matches_triangle() {
    let t = facing(0, 10, 1);
    let bvh = Resolver::Bounded(generate_bvh(vec![t]).expect("one triangle"));
    let direct = Resolver::Triangle(TriangleResolver { triangle: t });
    for (o, d) in [(v(2, 2, -5), v(0, 0, 1)), (v(1, 3, 0), v(1, 1, 4)), (v(9, 9, -1), v(0, 0, 1))] {
        let ray = Ray::new(o, d);
        let a = bvh.resolve(&ray, false, &scene(false));
        let b = direct.resolve(&ray, false, &scene(false));
        match (a, b) {
            (Some(x), Some(y)) => assert!(same_point(x.pos, y.pos.x, y.pos.y, y.pos.z, y.pos.w)),
            (None, None) => {}
            _ => panic!("the two resolvers disagree"),
        }
    }
}

#[test]
fn multi_prefers_first_on_ties_and_nearest_otherwise() {
    let near = facing(0, 10, 1);
    let far = facing(0, 20, 2);
    let m = MultiRayResolver {
        inner: vec![
            Resolver::Triangle(TriangleResolver { triangle: far }),
            Resolver::Triangle(TriangleResolver { triangle: near }),
            Resolver::Triangle(TriangleResolver { triangle: facing(0, 10, 9) }),
        ],
    };
    let h = m.resolve(&Ray::new(v(1, 1, 0), v(0, 0, 1)), false, &scene(false)).expect("hit");
    assert_eq!(h.emit, v(1, 1, 1));
    assert!(MultiRayResolver { inner: Vec::new() }.resolve(&Ray::new(v(1, 1, 0), v(0, 0, 1)), false, &scene(false)).is_none());
}

#[test]
fn dummy_hits_where_the_ray_starts() {
    let b = AABBRayResolver::new(
        pathtracer::aabb::AABB { min: v(-1, -1, -1), max: v(1, 1, 1) },
        Resolver::Dummy(Dummy {}),
    );
    let h = b.resolve(&Ray::new(v(0, 0, -4), v(0, 0, 2)), false, &scene(false)).expect("box is hit");
    assert!(same_point(h.pos, 0, 0, -1, 1));
    assert_eq!(h.normal, v(0, 0, -2));
    assert_eq!(h.color, v(255, 255, 255));
}

#[test]
fn unlit_floor_registers_a_hit_with_no_emission() {
    let floor = Triangle::new(v(-10, 0, -10), v(-10, 0, 10), v(10, 0, -10), v(200, 200, 200), v(0, 0, 0), MaterialType::Diffuse);
    let tracer = PathTracer {
        resolver: Resolver::Bounded(generate_bvh(vec![floor]).expect("one triangle")),
        bounces: 1,
        samples: 1,
        epsilon: 1,
        depth_of_field: 0,
        dof: false,
    };
    let s = tracer.begin();
    let ray = Ray::new(v(-3, 4, -2), v(1, -2, 0));
    let h = tracer.resolve(s, &ray, &scene(false)).expect("the floor is hit");
    // o + t d with t = 2: (-3 + 2, 4 - 4, -2).
    assert!(same_point(h.pos, -1, 0, -2, 1));
    assert_eq!(h.emit, v(0, 0, 0));
    let (s2, a) = tracer.step(s, BounceEvent::Hit { fog_first: false, dark: false, entering: false }, &scene(false));
    assert_eq!(a, BounceAction::Surface { offset: 2, stop_after: true });
    assert!(s2.done);
}

#[test]
fn path_with_no_bounces_is_done_at_once() {
    let tracer = PathTracer {
        resolver: Resolver::Dummy(Dummy {}),
        bounces: 0,
        samples: 4,
        epsilon: 1,
        depth_of_field: 0,
        dof: false,
    };
    let s = tracer.begin();
    assert!(s.done);
    let (_, a) = tracer.step(s, BounceEvent::Hit { fog_first: false, dark: false, entering: false }, &scene(false));
    assert_eq!(a, BounceAction::Stop);
    assert!(PathTracer::needs_toneing());
}

#[test]
fn path_misses_stop_without_fog_and_scatter_with_it() {
    let tracer = PathTracer {
        resolver: Resolver::Dummy(Dummy {}),
        bounces: 3,
        samples: 1,
        epsilon: 2,
        depth_of_field: 0,
        dof: false,
    };
    let s = tracer.begin();
    assert_eq!(tracer.step(s, BounceEvent::Miss, &scene(false)).1, BounceAction::Stop);
    let (s2, a) = tracer.step(s, BounceEvent::Miss, &scene(true));
    assert_eq!(a, BounceAction::Scatter);
    assert_eq!(s2, PathState { bounce: 1, refraction: false, done: false });
    let (s3, a3) = tracer.step(s2, BounceEvent::Hit { fog_first: false, dark: false, entering: true }, &scene(true));
    assert_eq!(a3, BounceAction::Surface { offset: -4, stop_after: false });
    assert!(s3.refraction);
    let (_, a4) = tracer.step(s3, BounceEvent::Hit { fog_first: true, dark: false, entering: false }, &scene(true));
    assert_eq!(a4, BounceAction::Scatter);
    let (s5, a5) = tracer.step(s3, BounceEvent::Hit { fog_first: false, dark: true, entering: true }, &scene(false));
    assert_eq!(a5, BounceAction::Surface { offset: 4, stop_after: true });
    assert!(s5.done && s5.refraction);
}

#[test]
fn basic_renderer_misses_everything_without_fog() {
    let r = BasicRenderer { resolver: Resolver::Triangle(TriangleResolver { triangle: facing(0, 10, 0) }) };
    assert!(r.primary_hit(&Ray::new(v(50, 50, 0), v(0, 0, 1)), &scene(false)).is_none());
    assert!(!BasicRenderer::needs_toneing());
}

#[test]
fn normal_renderer_shows_normal_or_zero() {
    let r = NormalRenderer { resolver: Resolver::Triangle(TriangleResolver { triangle: facing(0, 10, 0) }) };
    assert_eq!(r.render(&Ray::new(v(1, 1, 0), v(0, 0, 1)), &scene(false)), v(0, 0, -100));
    assert_eq!(r.render(&Ray::new(v(50, 1, 0), v(0, 0, 1)), &scene(false)), v(0, 0, 0));
}

#[test]
fn snapshot_round_trip() {
    let blocks = vec![(1, -2, 3), (i32::MIN, i32::MAX, 0), (-1, 256, 65536)];
    let s = Snapshot { blocks: blocks.clone() };
    let bytes = s.to_bytes();
    assert_eq!(bytes.len(), 36);
    assert_eq!(&bytes[0..4], &[1, 0, 0, 0]);
    assert_eq!(&bytes[4..8], &[0xfe, 0xff, 0xff, 0xff]);
    let back = Snapshot::from_bytes(&bytes).expect("whole triples");
    assert_eq!(back.blocks, blocks);
}

#[test]
fn snapshot_rejects_partial_triple() {
    let bytes = vec![0u8; 13];
    assert_eq!(Snapshot::from_bytes(&bytes).err(), Some(SnapshotError::MalformedLength));
    assert_eq!(Snapshot::from_bytes(&Vec::new()).expect("empty is fine").blocks, Vec::new());
}

#[test]
fn resolve_all_lists_every_crossing() {
    let group = Resolver::Multi(MultiRayResolver {
        inner: vec![
            Resolver::Triangle(TriangleResolver { triangle: facing(0, 20, 2) }),
            Resolver::Triangle(TriangleResolver { triangle: facing(0, 10, 1) }),
            Resolver::Triangle(TriangleResolver { triangle: facing(50, 10, 1) }),
        ],
    });
    let hits = group.resolve_all(&Ray::new(v(1, 1, 0), v(0, 0, 1)), false, &scene(false));
    assert_eq!(hits.len(), 2);
    assert_eq!(hits[0].emit, v(2, 2, 2));
    assert_eq!(hits[1].emit, v(1, 1, 1));
    let single = Resolver::Bounded(generate_bvh(vec![facing(0, 10, 1)]).expect("one triangle"));
    assert_eq!(single.resolve_all(&Ray::new(v(1, 1, 0), v(0, 0, 1)), false, &scene(false)).len(), 1);
    assert_eq!(single.resolve_all(&Ray::new(v(1, 1, 20), v(0, 0, 1)), false, &scene(false)).len(), 0);
}

#[test]
fn volumetric_inside_by_parity() {
    let two = VolumetricRenderer {
        resolver: Resolver::Multi(MultiRayResolver {
            inner: vec![
                Resolver::Triangle(TriangleResolver { triangle: facing(0, 20, 0) }),
                Resolver::Triangle(TriangleResolver { triangle: facing(0, 10, 0) }),
            ],
        }),
        lamp: v(0, 0, 0),
        divisions: 4,
        density: 1000,
    };
    assert!(!two.is_inside(&Ray::new(v(1, 1, 0), v(0, 0, 1)), &scene(false)));
    let one = VolumetricRenderer {
        resolver: Resolver::Triangle(TriangleResolver { triangle: facing(0, 20, 0) }),
        lamp: v(0, 0, 0),
        divisions: 4,
        density: 1000,
    };
    assert!(one.is_inside(&Ray::new(v(1, 1, 0), v(0, 0, 1)), &scene(false)));
    assert!(VolumetricRenderer::needs_toneing());
    assert!(NormalRenderer::needs_toneing());
}
