use vstd::prelude::*;
use vstd::seq_lib::lemma_multiset_commutative;
use crate::aabb::{AABB, BOX_LIMIT};
use crate::resolver::{
    all_wf, triangle_result, AABBRayResolver, MultiRayResolver, Resolver, TriangleResolver,
};
use crate::ray::Ray;
use crate::triangle::Triangle;
use crate::vector::{Components, Vector3, COORD_LIMIT};

verus! {

/// Why a hierarchy could not be built.
#[derive(Clone, Copy, Debug, PartialEq, Eq, Structural)]
pub enum BvhError {
    /// A hierarchy needs at least one triangle.
    NoTriangles,
}

/// Share of a leaf box's extent added on each side, as a divisor.
pub const MARGIN_DIVISOR: i64 = 100;

/// A leaf's box: the triangle's tight bounds widened on each side by a
/// hundredth of their extent, so that grazing rays are not lost.
pub open spec fn leaf_box(t: Triangle) -> AABB {
    let b = t.bounds_spec();
    let mx = (b.max.x - b.min.x) / MARGIN_DIVISOR as int;
    let my = (b.max.y - b.min.y) / MARGIN_DIVISOR as int;
    let mz = (b.max.z - b.min.z) / MARGIN_DIVISOR as int;
    AABB {
        min: Vector3 { x: (b.min.x - mx) as i64, y: (b.min.y - my) as i64, z: (b.min.z - mz) as i64 },
        max: Vector3 { x: (b.max.x + mx) as i64, y: (b.max.y + my) as i64, z: (b.max.z + mz) as i64 },
    }
}

/// The leaf of a hierarchy that holds one triangle.
pub open spec fn leaf_node(t: Triangle) -> AABBRayResolver {
    AABBRayResolver {
        aabb: leaf_box(t),
        inner: Box::new(Resolver::Triangle(TriangleResolver { triangle: t })),
    }
}

/// The box of a node of a hierarchy.
pub open spec fn node_box(r: Resolver) -> AABB {
    match r {
        Resolver::Bounded(b) => b.aabb,
        _ => AABB { min: Vector3 { x: 0, y: 0, z: 0 }, max: Vector3 { x: 0, y: 0, z: 0 } },
    }
}

/// A hierarchy: a leaf box around one triangle, or a box that is the union of
/// the boxes of exactly two sub-hierarchies.
pub open spec fn is_bvh(r: Resolver) -> bool
    decreases r,
{
    match r {
        Resolver::Bounded(b) => match *b.inner {
            Resolver::Triangle(t) => b.aabb == leaf_box(t.triangle),
            Resolver::Multi(m) => m.inner@.len() == 2 && is_bvh(m.inner@[0]) && is_bvh(m.inner@[1])
                && b.aabb == node_box(m.inner@[0]).union_spec(node_box(m.inner@[1])),
            _ => false,
        },
        _ => false,
    }
}

/// The triangles of a hierarchy's leaves, left to right.
pub open spec fn bvh_leaves(r: Resolver) -> Seq<Triangle>
    decreases r,
{
    match r {
        Resolver::Bounded(b) => match *b.inner {
            Resolver::Triangle(t) => seq![t.triangle],
            Resolver::Multi(m) => if m.inner@.len() == 2 {
                bvh_leaves(m.inner@[0]) + bvh_leaves(m.inner@[1])
            } else {
                Seq::empty()
            },
            _ => Seq::empty(),
        },
        _ => Seq::empty(),
    }
}

/// The boxes of a hierarchy's leaves, left to right.
pub open spec fn bvh_leaf_boxes(r: Resolver) -> Seq<AABB>
    decreases r,
{
    match r {
        Resolver::Bounded(b) => match *b.inner {
            Resolver::Triangle(_) => seq![b.aabb],
            Resolver::Multi(m) => if m.inner@.len() == 2 {
                bvh_leaf_boxes(m.inner@[0]) + bvh_leaf_boxes(m.inner@[1])
            } else {
                Seq::empty()
            },
            _ => Seq::empty(),
        },
        _ => Seq::empty(),
    }
}

/// Each internal node splits its triangles at the median centroid on its
/// axis, the root on `axis` and each level below on the next axis: the left
/// child holds the lower half (rounded down) of the triangles, and no centroid
/// on the left lies beyond one on the right.
pub open spec fn median_split(r: Resolver, axis: Components) -> bool
    decreases r,
{
    match r {
        Resolver::Bounded(b) => match *b.inner {
            Resolver::Multi(m) => m.inner@.len() == 2 && {
                let l = bvh_leaves(m.inner@[0]);
                let h = bvh_leaves(m.inner@[1]);
                &&& l.len() == (l.len() + h.len()) / 2
                &&& forall|i: int, j: int|
                    0 <= i < l.len() && 0 <= j < h.len() ==> (#[trigger] l[i]).centroid.component(axis)
                        <= (#[trigger] h[j]).centroid.component(axis)
                &&& median_split(m.inner@[0], axis.next_spec())
                &&& median_split(m.inner@[1], axis.next_spec())
            },
            _ => true,
        },
        _ => true,
    }
}

/// An item of a sequence is an item of any reordering of it.
proof fn lemma_member(a: Seq<Triangle>, b: Seq<Triangle>, i: int) -> (j: int)
    requires
        a.to_multiset() == b.to_multiset(),
        0 <= i < a.len(),
    ensures
        0 <= j < b.len(),
        b[j] == a[i],
{
    a.to_multiset_ensures();
    b.to_multiset_ensures();
    assert(a.contains(a[i]));
    assert(a.to_multiset().count(a[i]) > 0);
    assert(b.to_multiset().count(a[i]) > 0);
    assert(b.contains(a[i]));
    choose|j: int| 0 <= j < b.len() && b[j] == a[i]
}

/// The number of a hierarchy's internal nodes.
pub open spec fn bvh_internal_count(r: Resolver) -> nat
    decreases r,
{
    match r {
        Resolver::Bounded(b) => match *b.inner {
            Resolver::Multi(m) => if m.inner@.len() == 2 {
                1 + bvh_internal_count(m.inner@[0]) + bvh_internal_count(m.inner@[1])
            } else {
                0
            },
            _ => 0,
        },
        _ => 0,
    }
}

/// On axis `c`, the lower face of `b` is the lower face of some box of `bs`,
/// and its upper face the upper face of some box of `bs`.
pub open spec fn attains(b: AABB, bs: Seq<AABB>, c: Components) -> bool {
    &&& exists|i: int| 0 <= i < bs.len() && b.min.component(c) == #[trigger] bs[i].min.component(c)
    &&& exists|i: int| 0 <= i < bs.len() && b.max.component(c) == #[trigger] bs[i].max.component(c)
}

/// `b` is the union of the boxes `bs`: it holds each of them, and each of its
/// faces is a face of one of them.
pub open spec fn is_union_of(b: AABB, bs: Seq<AABB>) -> bool {
    &&& bs.len() > 0
    &&& forall|i: int| 0 <= i < bs.len() ==> b.contains_box(#[trigger] bs[i])
    &&& attains(b, bs, Components::X)
    &&& attains(b, bs, Components::Y)
    &&& attains(b, bs, Components::Z)
}

/// Relies on `slice::select_nth_unstable_by_key`: the items are reordered, so
/// that the one at `index` has every item before it no greater and every item
/// after it no smaller, by the centroid component on `axis`.
#[verifier::external_body]
fn select_median(triangles: &mut Vec<Triangle>, index: usize, axis: Components)
    requires
        index < old(triangles)@.len(),
    ensures
        final(triangles)@.len() == old(triangles)@.len(),
        final(triangles)@.to_multiset() == old(triangles)@.to_multiset(),
        forall|i: int|
            0 <= i < index ==> (#[trigger] final(triangles)@[i]).centroid.component(axis)
                <= final(triangles)@[index as int].centroid.component(axis),
        forall|i: int|
            index < i < final(triangles)@.len() ==> (#[trigger] final(triangles)@[i]).centroid.component(
                axis,
            ) >= final(triangles)@[index as int].centroid.component(axis),
{
    triangles.select_nth_unstable_by_key(index, |t| t.centroid.get_component(axis));
}

/// The widened box of a leaf.
fn leaf_bounds(t: &Triangle) -> (r: AABB)
    requires
        t.wf(),
    ensures
        r == leaf_box(*t),
        r.wf(),
        r.bounded(),
{
    proof {
        lemma_leaf_box_ok(*t);
        let b = t.bounds_spec();
        lemma_widen(b.min.x as int, b.max.x as int);
        lemma_widen(b.min.y as int, b.max.y as int);
        lemma_widen(b.min.z as int, b.max.z as int);
    }
    let b = t.bounds();
    let mx = (b.max.x - b.min.x) / MARGIN_DIVISOR;
    let my = (b.max.y - b.min.y) / MARGIN_DIVISOR;
    let mz = (b.max.z - b.min.z) / MARGIN_DIVISOR;
    AABB {
        min: Vector3 { x: b.min.x - mx, y: b.min.y - my, z: b.min.z - mz },
        max: Vector3 { x: b.max.x + mx, y: b.max.y + my, z: b.max.z + mz },
    }
}

/// Builds a bounding-volume hierarchy over the triangles, splitting at the
/// median centroid on the axes X, Y, Z in turn.
pub fn generate_bvh(triangles: Vec<Triangle>) -> (r: Result<AABBRayResolver, BvhError>)
    requires
        forall|i: int| 0 <= i < triangles@.len() ==> (#[trigger] triangles@[i]).wf(),
    ensures
        triangles@.len() == 0 <==> r == Err::<AABBRayResolver, BvhError>(BvhError::NoTriangles),
        r matches Ok(b) ==> built_from(b, triangles@),
        r matches Ok(b) ==> median_split(Resolver::Bounded(b), Components::X),
{
    generate_bvh_on_axis(triangles, Components::X)
}

/// What the builder promises of a hierarchy built from `ts`.
pub open spec fn built_from(b: AABBRayResolver, ts: Seq<Triangle>) -> bool {
    let r = Resolver::Bounded(b);
    &&& r.wf()
    &&& is_bvh(r)
    &&& bvh_leaves(r).to_multiset() == ts.to_multiset()
    &&& bvh_leaves(r).len() == ts.len()
    &&& bvh_internal_count(r) + 1 == ts.len()
    &&& bvh_leaf_boxes(r).len() == ts.len()
    &&& forall|i: int| 0 <= i < ts.len() ==> bvh_leaf_boxes(r)[i] == leaf_box(#[trigger] bvh_leaves(r)[i])
    &&& is_union_of(b.aabb, bvh_leaf_boxes(r))
    &&& ts.len() == 1 ==> b == leaf_node(ts[0])
}

fn generate_bvh_on_axis(triangles: Vec<Triangle>, orientation: Components) -> (r: Result<
    AABBRayResolver,
    BvhError,
>)
    requires
        forall|i: int| 0 <= i < triangles@.len() ==> (#[trigger] triangles@[i]).wf(),
    ensures
        triangles@.len() == 0 <==> r == Err::<AABBRayResolver, BvhError>(BvhError::NoTriangles),
        r matches Ok(b) ==> built_from(b, triangles@),
        r matches Ok(b) ==> median_split(Resolver::Bounded(b), orientation),
    decreases triangles@.len(),
{
    let mut triangles = triangles;
    if triangles.len() < 1 {
        return Err(BvhError::NoTriangles);
    }
    if triangles.len() == 1 {
        let triangle = triangles[0];
        let aabb = leaf_bounds(&triangle);
        let r = AABBRayResolver::new(aabb, Resolver::Triangle(TriangleResolver { triangle }));
        proof {
            let rr = Resolver::Bounded(r);
            assert(bvh_leaves(rr) == seq![triangle]);
            assert(triangles@ == seq![triangle]);
            assert(bvh_leaf_boxes(rr) == seq![aabb]);
            lemma_union_of_single(aabb);
            assert(triangle.wf());
            assert(Resolver::Triangle(TriangleResolver { triangle }).wf());
            assert(rr.wf());
            assert(is_bvh(rr));
            assert(bvh_leaves(rr).to_multiset() == triangles@.to_multiset());
            assert(bvh_internal_count(rr) == 0);
            assert(r == leaf_node(triangles@[0]));
            assert(built_from(r, triangles@));
        }
        return Ok(r);
    }
    let ghost input = triangles@;
    let index = triangles.len() / 2;
    select_median(&mut triangles, index, orientation);
    let ghost selected = triangles@;
    let second = triangles.split_off(index);
    proof {
        assert(selected == triangles@ + second@);
        lemma_multiset_commutative(triangles@, second@);
        assert forall|i: int| 0 <= i < triangles@.len() implies (#[trigger] triangles@[i]).wf() by {
            assert(triangles@[i] == selected[i]);
            lemma_permuted_wf(input, selected, i);
        }
        assert forall|i: int| 0 <= i < second@.len() implies (#[trigger] second@[i]).wf() by {
            assert(second@[i] == selected[i + index]);
            lemma_permuted_wf(input, selected, i + index);
        }
    }
    let ghost first_half = triangles@;
    let bvh1 = match generate_bvh_on_axis(triangles, orientation.next()) {
        Ok(b) => b,
        Err(e) => return Err(e),
    };
    let bvh2 = match generate_bvh_on_axis(second, orientation.next()) {
        Ok(b) => b,
        Err(e) => return Err(e),
    };
    let bounds = bvh1.aabb.union(&bvh2.aabb);
    let ghost r1 = Resolver::Bounded(bvh1);
    let ghost r2 = Resolver::Bounded(bvh2);
    let multi = MultiRayResolver { inner: vec![Resolver::Bounded(bvh1), Resolver::Bounded(bvh2)] };
    let r = AABBRayResolver::new(bounds, Resolver::Multi(multi));
    proof {
        let rr = Resolver::Bounded(r);
        assert(multi.inner@ == seq![r1, r2]);
        assert(multi.inner@.drop_last() == seq![r1]);
        assert(seq![r1].drop_last() == Seq::<Resolver>::empty());
        assert(all_wf(Seq::<Resolver>::empty()));
        assert(all_wf(seq![r1]));
        assert(all_wf(multi.inner@));
        assert(bvh_leaves(rr) == bvh_leaves(r1) + bvh_leaves(r2));
        assert(bvh_leaf_boxes(rr) == bvh_leaf_boxes(r1) + bvh_leaf_boxes(r2));
        lemma_multiset_commutative(bvh_leaves(r1), bvh_leaves(r2));
        lemma_union_of_join(bvh1.aabb, bvh_leaf_boxes(r1), bvh2.aabb, bvh_leaf_boxes(r2));
        let n1 = bvh_leaves(r1).len();
        assert forall|i: int| 0 <= i < input.len() implies bvh_leaf_boxes(rr)[i] == leaf_box(
            #[trigger] bvh_leaves(rr)[i],
        ) by {
            if i < n1 {
                assert(bvh_leaf_boxes(r1)[i] == leaf_box(bvh_leaves(r1)[i]));
            } else {
                assert(bvh_leaf_boxes(r2)[i - n1] == leaf_box(bvh_leaves(r2)[i - n1]));
            }
        }
        assert(bounds.bounded());
        assert(Resolver::Multi(multi).wf());
        assert(rr.wf());
        assert(is_bvh(rr));
        assert(bvh_leaves(rr).to_multiset() == input.to_multiset());
        assert(bvh_internal_count(rr) + 1 == input.len());
        assert(is_union_of(r.aabb, bvh_leaf_boxes(rr)));
        let l = bvh_leaves(r1);
        let h = bvh_leaves(r2);
        assert forall|i: int, j: int|
            0 <= i < l.len() && 0 <= j < h.len() implies (#[trigger] l[i]).centroid.component(orientation)
                <= (#[trigger] h[j]).centroid.component(orientation) by {
            let a = lemma_member(l, first_half, i);
            let c = lemma_member(h, second@, j);
            assert(first_half[a] == selected[a]);
            assert(second@[c] == selected[c + index]);
        }
        assert(median_split(rr, orientation));
    }
    Ok(r)
}

/// A hierarchy's box holds the bounds of every triangle it was built from.
/// (It is the union of the leaf boxes, which widen those bounds by their
/// margins, so it equals the union of the tight bounds only where every
/// margin is zero.)
pub proof fn lemma_bvh_covers_triangles(b: AABBRayResolver, ts: Seq<Triangle>, i: int)
    requires
        built_from(b, ts),
        forall|j: int| 0 <= j < ts.len() ==> (#[trigger] ts[j]).wf(),
        0 <= i < ts.len(),
    ensures
        b.aabb.contains_box(ts[i].bounds_spec()),
{
    let r = Resolver::Bounded(b);
    let leaves = bvh_leaves(r);
    let k = lemma_member(ts, leaves, i);
    assert(bvh_leaf_boxes(r)[k] == leaf_box(leaves[k]));
    assert(b.aabb.contains_box(bvh_leaf_boxes(r)[k]));
    let bb = ts[i].bounds_spec();
    lemma_widen(bb.min.x as int, bb.max.x as int);
    lemma_widen(bb.min.y as int, bb.max.y as int);
    lemma_widen(bb.min.z as int, bb.max.z as int);
}

/// Joining two unions gives the union of all their boxes.
proof fn lemma_union_of_join(b1: AABB, bs1: Seq<AABB>, b2: AABB, bs2: Seq<AABB>)
    requires
        b1.wf(),
        b2.wf(),
        is_union_of(b1, bs1),
        is_union_of(b2, bs2),
    ensures
        is_union_of(b1.union_spec(b2), bs1 + bs2),
{
    let u = b1.union_spec(b2);
    let bs = bs1 + bs2;
    assert forall|i: int| 0 <= i < bs.len() implies u.contains_box(#[trigger] bs[i]) by {
        if i < bs1.len() {
            assert(bs[i] == bs1[i]);
            assert(b1.contains_box(bs1[i]));
        } else {
            assert(bs[i] == bs2[i - bs1.len()]);
            assert(b2.contains_box(bs2[i - bs1.len()]));
        }
    }
    lemma_attains_join(b1, bs1, b2, bs2, Components::X);
    lemma_attains_join(b1, bs1, b2, bs2, Components::Y);
    lemma_attains_join(b1, bs1, b2, bs2, Components::Z);
}

proof fn lemma_attains_join(b1: AABB, bs1: Seq<AABB>, b2: AABB, bs2: Seq<AABB>, c: Components)
    requires
        attains(b1, bs1, c),
        attains(b2, bs2, c),
    ensures
        attains(b1.union_spec(b2), bs1 + bs2, c),
{
    let u = b1.union_spec(b2);
    let bs = bs1 + bs2;
    let i1 = choose|i: int| 0 <= i < bs1.len() && b1.min.component(c) == #[trigger] bs1[i].min.component(c);
    let j1 = choose|i: int| 0 <= i < bs1.len() && b1.max.component(c) == #[trigger] bs1[i].max.component(c);
    let i2 = choose|i: int| 0 <= i < bs2.len() && b2.min.component(c) == #[trigger] bs2[i].min.component(c);
    let j2 = choose|i: int| 0 <= i < bs2.len() && b2.max.component(c) == #[trigger] bs2[i].max.component(c);
    assert(bs[i1] == bs1[i1]);
    assert(bs[j1] == bs1[j1]);
    assert(bs[i2 + bs1.len()] == bs2[i2]);
    assert(bs[j2 + bs1.len()] == bs2[j2]);
    if u.min.component(c) == b1.min.component(c) {
        assert(u.min.component(c) == bs[i1].min.component(c));
    } else {
        assert(u.min.component(c) == bs[i2 + bs1.len()].min.component(c));
    }
    if u.max.component(c) == b1.max.component(c) {
        assert(u.max.component(c) == bs[j1].max.component(c));
    } else {
        assert(u.max.component(c) == bs[j2 + bs1.len()].max.component(c));
    }
}

/// A hierarchy over one triangle resolves a ray that meets its leaf box
/// exactly as the triangle does.
pub proof fn lemma_single_triangle_bvh(t: Triangle, ray: Ray, refraction: bool)
    requires
        t.wf(),
        ray.wf(),
        leaf_box(t).entered_by(ray),
    ensures
        Resolver::Bounded(leaf_node(t)).resolve_spec(ray, refraction) == Resolver::Triangle(
            TriangleResolver { triangle: t },
        ).resolve_spec(ray, refraction),
        Resolver::Bounded(leaf_node(t)).resolve_spec(ray, refraction) == triangle_result(t, ray),
{
    lemma_leaf_box_ok(t);
    crate::aabb::lemma_trace_meaning(leaf_box(t), ray);
    let s = leaf_box(t).trace_spec(ray).unwrap();
    let moved = Ray { origin: ray.origin, dir: ray.dir, start: s };
    assert(t.trace_spec(moved) == t.trace_spec(ray));
    assert(triangle_result(t, moved) == triangle_result(t, ray));
    let leaf = Resolver::Triangle(TriangleResolver { triangle: t });
    assert(*leaf_node(t).inner == leaf);
    assert(leaf.resolve_spec(moved, refraction) == triangle_result(t, moved));
    assert(leaf.resolve_spec(ray, refraction) == triangle_result(t, ray));
}

proof fn lemma_leaf_box_ok(t: Triangle)
    requires
        t.wf(),
    ensures
        leaf_box(t).wf(),
        leaf_box(t).bounded(),
{
    let b = t.bounds_spec();
    lemma_widen(b.min.x as int, b.max.x as int);
    lemma_widen(b.min.y as int, b.max.y as int);
    lemma_widen(b.min.z as int, b.max.z as int);
}

/// Widening `[lo, hi]` by a hundredth of its extent stays ordered and within
/// `BOX_LIMIT`.
proof fn lemma_widen(lo: int, hi: int)
    requires
        -COORD_LIMIT <= lo <= hi <= COORD_LIMIT,
    ensures
        0 <= (hi - lo) / MARGIN_DIVISOR as int <= 1311,
        -BOX_LIMIT <= lo - (hi - lo) / MARGIN_DIVISOR as int,
        hi + (hi - lo) / MARGIN_DIVISOR as int <= BOX_LIMIT,
{
    let e = hi - lo;
    assert(0 <= e / 100 <= 1311) by (nonlinear_arith)
        requires
            0 <= e <= 131072,
    ;
}

proof fn lemma_union_of_single(b: AABB)
    ensures
        is_union_of(b, seq![b]),
{
    let bs = seq![b];
    assert(bs[0] == b);
    assert(b.min.component(Components::X) == bs[0].min.component(Components::X));
    assert(b.max.component(Components::X) == bs[0].max.component(Components::X));
    assert(b.min.component(Components::Y) == bs[0].min.component(Components::Y));
    assert(b.max.component(Components::Y) == bs[0].max.component(Components::Y));
    assert(b.min.component(Components::Z) == bs[0].min.component(Components::Z));
    assert(b.max.component(Components::Z) == bs[0].max.component(Components::Z));
}

/// An item of a reordering of well-formed triangles is well formed.
proof fn lemma_permuted_wf(input: Seq<Triangle>, perm: Seq<Triangle>, i: int)
    requires
        forall|j: int| 0 <= j < input.len() ==> (#[trigger] input[j]).wf(),
        perm.to_multiset() == input.to_multiset(),
        0 <= i < perm.len(),
    ensures
        perm[i].wf(),
{
    perm.to_multiset_ensures();
    input.to_multiset_ensures();
    assert(perm.contains(perm[i]));
    assert(perm.to_multiset().count(perm[i]) > 0);
    assert(input.to_multiset().count(perm[i]) > 0);
    assert(input.contains(perm[i]));
    let j = choose|j: int| 0 <= j < input.len() && input[j] == perm[i];
    assert(input[j].wf());
}

} // verus!
