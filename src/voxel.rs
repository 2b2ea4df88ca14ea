use vstd::prelude::*;
use crate::hit::{MaterialType, RayResult};
use crate::ray::{Rational, Ray};
use crate::scene::SceneData;
use crate::vector::{abs_int, Vector3, COORD_LIMIT};

verus! {

/// Largest number of cells a traversal may walk.
pub const MAX_STEPS: u32 = 1048576;

/// A voxel cell coordinate.
pub type Cell = (i32, i32, i32);

/// An occupied unit cell of a voxel grid and its surface.
#[derive(Clone, Copy, Debug)]
pub struct Voxel {
    pub pos: Cell,
    pub color: Vector3,
    pub emit: Vector3,
    pub t: MaterialType,
}

impl Voxel {
    pub fn new(pos: Cell, color: Vector3, emit: Vector3, t: MaterialType) -> (r: Self)
        ensures
            r == (Voxel { pos, color, emit, t }),
    {
        Voxel { pos, color, emit, t }
    }
}

/// A sparse voxel grid walked cell by cell along a ray.
#[derive(Debug)]
pub struct VoxelTraversal {
    voxels: Vec<Voxel>,
    steps: u32,
}

/// Which axis the walk crosses next, given the crossing counts `k` and the
/// direction `d`: the axis whose next boundary `k / |d|` comes first (an axis
/// the ray does not move along never does), the later axis on ties.
pub open spec fn next_axis(k: (int, int, int), d: (int, int, int)) -> int {
    let ax = abs_int(d.0);
    let ay = abs_int(d.1);
    let az = abs_int(d.2);
    let x_lt_y = d.0 != 0 && (d.1 == 0 || k.0 * ay < k.1 * ax);
    let x_lt_z = d.0 != 0 && (d.2 == 0 || k.0 * az < k.2 * ax);
    let y_lt_z = d.1 != 0 && (d.2 == 0 || k.1 * az < k.2 * ay);
    if x_lt_y {
        if x_lt_z {
            0
        } else {
            2
        }
    } else {
        if y_lt_z {
            1
        } else {
            2
        }
    }
}

pub open spec fn sign_step(a: int) -> int {
    if a >= 0 {
        1
    } else {
        -1
    }
}

/// The normal at a voxel hit: of the offset of the hit point from the cell's
/// centre (scaled by twice the parameter's denominator), the component of
/// largest magnitude alone.
pub open spec fn voxel_normal(ray: Ray, v: Voxel, t: Rational) -> Vector3 {
    let p = ray.point_at(t);
    let w = Vector3 {
        x: (2 * p.x - (2 * v.pos.0 + 1) * t.den) as i64,
        y: (2 * p.y - (2 * v.pos.1 + 1) * t.den) as i64,
        z: (2 * p.z - (2 * v.pos.2 + 1) * t.den) as i64,
    };
    let c = w.largest_component_spec();
    Vector3 {
        x: if c == crate::vector::Components::X { w.x } else { 0 },
        y: if c == crate::vector::Components::Y { w.y } else { 0 },
        z: if c == crate::vector::Components::Z { w.z } else { 0 },
    }
}

impl VoxelTraversal {
    /// Cell positions are unique and the step budget within `MAX_STEPS`.
    pub closed spec fn wf(&self) -> bool {
        &&& self.steps <= MAX_STEPS
        &&& forall|i: int, j: int|
            0 <= i < j < self.voxels@.len() ==> (#[trigger] self.voxels@[i]).pos != (#[trigger] self.voxels@[j]).pos
    }

    pub closed spec fn steps_spec(&self) -> u32 {
        self.steps
    }

    /// The voxel at a cell, if the cell is occupied.
    pub closed spec fn lookup(&self, pos: Cell) -> Option<Voxel> {
        if exists|i: int| 0 <= i < self.voxels@.len() && (#[trigger] self.voxels@[i]).pos == pos {
            Some(self.voxels@[choose|i: int| 0 <= i < self.voxels@.len() && (#[trigger] self.voxels@[i]).pos == pos])
        } else {
            None
        }
    }

    /// The walk from `cell`, with crossing counts `k`, for `n` more cells.
    pub closed spec fn walk_spec(&self, d: (int, int, int), cell: (int, int, int), k: (int, int, int), n: nat) -> Option<(Voxel, Rational)>
        decreases n,
    {
        if n == 0 {
            None
        } else {
            let a = next_axis(k, d);
            let (cell2, k2, t) = if a == 0 {
                ((cell.0 + sign_step(d.0), cell.1, cell.2), (k.0 + 1, k.1, k.2), Rational { num: k.0 as i128, den: abs_int(d.0) as i128 })
            } else if a == 1 {
                ((cell.0, cell.1 + sign_step(d.1), cell.2), (k.0, k.1 + 1, k.2), Rational { num: k.1 as i128, den: abs_int(d.1) as i128 })
            } else {
                ((cell.0, cell.1, cell.2 + sign_step(d.2)), (k.0, k.1, k.2 + 1), Rational { num: k.2 as i128, den: abs_int(d.2) as i128 })
            };
            match self.lookup((cell2.0 as i32, cell2.1 as i32, cell2.2 as i32)) {
                Some(v) => Some((v, t)),
                None => self.walk_spec(d, cell2, k2, (n - 1) as nat),
            }
        }
    }

    /// The first occupied cell along the ray and the parameter at which the
    /// ray enters it: the cell of the origin, then (for a ray with a negative
    /// component) that cell moved one back on each such axis, then up to
    /// `steps` cells of the grid walk.
    pub closed spec fn cast_spec(&self, ray: Ray) -> Option<(Voxel, Rational)> {
        let o = ray.origin@;
        let d = ray.dir@;
        let zero = Rational { num: 0, den: 1 };
        let start = (o.0 as i32, o.1 as i32, o.2 as i32);
        let back = (
            o.0 + if d.0 < 0 { -1int } else { 0 },
            o.1 + if d.1 < 0 { -1int } else { 0 },
            o.2 + if d.2 < 0 { -1int } else { 0 },
        );
        let neg = d.0 < 0 || d.1 < 0 || d.2 < 0;
        match self.lookup(start) {
            Some(v) => Some((v, zero)),
            None => {
                let cell = if neg { back } else { o };
                if neg && self.lookup((back.0 as i32, back.1 as i32, back.2 as i32)) is Some {
                    Some((self.lookup((back.0 as i32, back.1 as i32, back.2 as i32)).unwrap(), zero))
                } else {
                    self.walk_spec(d, cell, (1, 1, 1), self.steps as nat)
                }
            },
        }
    }

    pub fn new(steps: u32) -> (r: Self)
        requires
            steps <= MAX_STEPS,
        ensures
            r.wf(),
            r.steps_spec() == steps,
            forall|p: Cell| r.lookup(p) is None,
    {
        VoxelTraversal { voxels: Vec::new(), steps }
    }

    /// Occupies a cell, replacing the voxel that was there.
    pub fn new_voxel(&mut self, pos: Cell, color: Vector3, emit: Vector3, t: MaterialType)
        requires
            old(self).wf(),
        ensures
            final(self).wf(),
            final(self).steps_spec() == old(self).steps_spec(),
            final(self).lookup(pos) == Some(Voxel { pos, color, emit, t }),
            forall|p: Cell| p != pos ==> final(self).lookup(p) == old(self).lookup(p),
    {
        let v = Voxel::new(pos, color, emit, t);
        let mut i: usize = 0;
        while i < self.voxels.len()
            invariant
                self.voxels@ == old(self).voxels@,
                self.steps == old(self).steps,
                v == (Voxel { pos, color, emit, t }),
                self.wf(),
                i <= self.voxels@.len(),
                forall|j: int| 0 <= j < i ==> (#[trigger] self.voxels@[j]).pos != pos,
            decreases self.voxels@.len() - i,
        {
            let q = self.voxels[i].pos;
            if q.0 == pos.0 && q.1 == pos.1 && q.2 == pos.2 {
                let ghost before = self.voxels@;
                assert(before[i as int].pos == pos);
                self.voxels.set(i, v);
                proof {
                    assert(self.voxels@ == before.update(i as int, v));
                    assert forall|j: int| 0 <= j < self.voxels@.len() implies (#[trigger] self.voxels@[j]).pos
                        == before[j].pos by {
                        if j == i as int {
                            assert(self.voxels@[j] == v);
                            assert(v.pos == pos);
                            assert(before[j].pos == pos);
                        } else {
                            assert(self.voxels@[j] == before[j]);
                        }
                    }
                    assert forall|a: int, b: int|
                        0 <= a < b < self.voxels@.len() implies (#[trigger] self.voxels@[a]).pos
                            != (#[trigger] self.voxels@[b]).pos by {
                        assert(self.voxels@[a].pos == before[a].pos);
                        assert(self.voxels@[b].pos == before[b].pos);
                    }
                    assert(self.voxels@[i as int].pos == pos);
                    assert forall|p: Cell| p != pos implies self.lookup(p) == old(self).lookup(p) by {
                        if exists|j: int| 0 <= j < before.len() && (#[trigger] before[j]).pos == p {
                            let j = choose|j: int| 0 <= j < before.len() && (#[trigger] before[j]).pos == p;
                            assert(j != i as int);
                            assert(self.voxels@[j] == before[j]);
                            self.lemma_lookup_index(p, j);
                            old(self).lemma_lookup_index(p, j);
                        } else {
                            assert forall|j: int| 0 <= j < self.voxels@.len() implies (#[trigger] self.voxels@[j]).pos != p by {
                                assert(self.voxels@[j].pos == before[j].pos);
                            }
                        }
                    }
                    self.lemma_lookup_index(pos, i as int);
                }
                return;
            }
            i = i + 1;
        }
        let ghost before = self.voxels@;
        self.voxels.push(v);
        proof {
            let n = before.len() as int;
            assert(self.voxels@[n].pos == pos);
            assert forall|a: int, b: int|
                0 <= a < b < self.voxels@.len() implies (#[trigger] self.voxels@[a]).pos
                    != (#[trigger] self.voxels@[b]).pos by {
                if b == n {
                    assert(self.voxels@[a] == before[a]);
                }
            }
            assert forall|p: Cell| p != pos implies self.lookup(p) == old(self).lookup(p) by {
                if exists|j: int| 0 <= j < before.len() && (#[trigger] before[j]).pos == p {
                    let j = choose|j: int| 0 <= j < before.len() && (#[trigger] before[j]).pos == p;
                    assert(self.voxels@[j] == before[j]);
                    self.lemma_lookup_index(p, j);
                    old(self).lemma_lookup_index(p, j);
                } else {
                    assert forall|j: int| 0 <= j < self.voxels@.len() implies (#[trigger] self.voxels@[j]).pos != p by {
                        if j < n {
                            assert(self.voxels@[j] == before[j]);
                        }
                    }
                }
            }
            let c = choose|j: int| 0 <= j < self.voxels@.len() && (#[trigger] self.voxels@[j]).pos == pos;
            assert(c == n);
        }
    }

    proof fn lemma_lookup_index(&self, p: Cell, j: int)
        requires
            self.wf(),
            0 <= j < self.voxels@.len(),
            self.voxels@[j].pos == p,
        ensures
            self.lookup(p) == Some(self.voxels@[j]),
    {
        let c = choose|i: int| 0 <= i < self.voxels@.len() && (#[trigger] self.voxels@[i]).pos == p;
        if c != j {
            if c < j {
                assert(self.voxels@[c].pos != self.voxels@[j].pos);
            } else {
                assert(self.voxels@[j].pos != self.voxels@[c].pos);
            }
        }
    }

    /// The first occupied cell met by the ray, with the ray parameter at which
    /// the walk enters it (zero for the starting cells); `None` when the walk
    /// runs out of steps first.
    pub fn cast_ray(&self, ray: &Ray, _scene: &SceneData) -> (r: Option<(Voxel, Rational)>)
        requires
            self.wf(),
            ray.wf(),
            !ray.dir.is_zero(),
        ensures
            r == self.cast_spec(*ray),
            r matches Some((v, t)) ==> 0 < t.den <= COORD_LIMIT && 0 <= t.num <= MAX_STEPS + 1
                && abs_int(v.pos.0 as int) <= COORD_LIMIT + MAX_STEPS + 1
                && abs_int(v.pos.1 as int) <= COORD_LIMIT + MAX_STEPS + 1
                && abs_int(v.pos.2 as int) <= COORD_LIMIT + MAX_STEPS + 1,
    {
        let zero = Rational { num: 0, den: 1 };
        let mut x: i32 = ray.origin.x as i32;
        let mut y: i32 = ray.origin.y as i32;
        let mut z: i32 = ray.origin.z as i32;
        if let Some(v) = self.get_voxel((x, y, z)) {
            return Some((v, zero));
        }
        let d = ray.dir;
        let neg = d.x < 0 || d.y < 0 || d.z < 0;
        if neg {
            if d.x < 0 {
                x = x - 1;
            }
            if d.y < 0 {
                y = y - 1;
            }
            if d.z < 0 {
                z = z - 1;
            }
            if let Some(v) = self.get_voxel((x, y, z)) {
                return Some((v, zero));
            }
        }
        let step_x: i32 = if d.x >= 0 { 1 } else { -1 };
        let step_y: i32 = if d.y >= 0 { 1 } else { -1 };
        let step_z: i32 = if d.z >= 0 { 1 } else { -1 };
        let ax: i64 = if d.x < 0 { -d.x } else { d.x };
        let ay: i64 = if d.y < 0 { -d.y } else { d.y };
        let az: i64 = if d.z < 0 { -d.z } else { d.z };
        let mut kx: i64 = 1;
        let mut ky: i64 = 1;
        let mut kz: i64 = 1;
        let ghost dv = d@;
        let ghost cell0 = (x as int, y as int, z as int);
        proof {
            let o = ray.origin@;
            let back = (
                o.0 + if dv.0 < 0 { -1int } else { 0 },
                o.1 + if dv.1 < 0 { -1int } else { 0 },
                o.2 + if dv.2 < 0 { -1int } else { 0 },
            );
            assert(cell0 == (if neg { back } else { o }));
            assert((back.0 as i32, back.1 as i32, back.2 as i32) == (x, y, z) || !neg);
            assert(self.cast_spec(*ray) == self.walk_spec(dv, cell0, (1, 1, 1), self.steps as nat));
        }
        let mut i: u32 = 0;
        while i < self.steps
            invariant
                self.wf(),
                ray.wf(),
                dv == d@,
                d == ray.dir,
                self.cast_spec(*ray) == self.walk_spec(dv, cell0, (1, 1, 1), self.steps as nat),
                !d.is_zero(),
                ax == abs_int(d.x as int) && ay == abs_int(d.y as int) && az == abs_int(d.z as int),
                step_x == sign_step(d.x as int) && step_y == sign_step(d.y as int) && step_z == sign_step(d.z as int),
                i <= self.steps,
                1 <= kx <= 1 + i && 1 <= ky <= 1 + i && 1 <= kz <= 1 + i,
                abs_int(x as int) <= COORD_LIMIT + 1 + i,
                abs_int(y as int) <= COORD_LIMIT + 1 + i,
                abs_int(z as int) <= COORD_LIMIT + 1 + i,
                self.walk_spec(dv, (x as int, y as int, z as int), (kx as int, ky as int, kz as int), (self.steps - i) as nat)
                    == self.walk_spec(dv, cell0, (1, 1, 1), self.steps as nat),
            decreases self.steps - i,
        {
            proof {
                let b: int = MAX_STEPS as int + 1;
                crate::vector::lemma_mul_bound(kx as int, ay as int, b, COORD_LIMIT as int);
                crate::vector::lemma_mul_bound(ky as int, ax as int, b, COORD_LIMIT as int);
                crate::vector::lemma_mul_bound(kx as int, az as int, b, COORD_LIMIT as int);
                crate::vector::lemma_mul_bound(kz as int, ax as int, b, COORD_LIMIT as int);
                crate::vector::lemma_mul_bound(ky as int, az as int, b, COORD_LIMIT as int);
                crate::vector::lemma_mul_bound(kz as int, ay as int, b, COORD_LIMIT as int);
            }
            let ghost c0 = (x as int, y as int, z as int);
            let ghost k0 = (kx as int, ky as int, kz as int);
            let ghost n = (self.steps - i) as nat;
            let x_lt_y = d.x != 0 && (d.y == 0 || kx * ay < ky * ax);
            let x_lt_z = d.x != 0 && (d.z == 0 || kx * az < kz * ax);
            let y_lt_z = d.y != 0 && (d.z == 0 || ky * az < kz * ay);
            let t;
            if x_lt_y && x_lt_z {
                x = x + step_x;
                t = Rational { num: kx as i128, den: ax as i128 };
                kx = kx + 1;
            } else if !x_lt_y && y_lt_z {
                y = y + step_y;
                t = Rational { num: ky as i128, den: ay as i128 };
                ky = ky + 1;
            } else {
                z = z + step_z;
                t = Rational { num: kz as i128, den: az as i128 };
                kz = kz + 1;
            }
            proof {
                let c1 = (x as int, y as int, z as int);
                assert((c1.0 as i32, c1.1 as i32, c1.2 as i32) == (x, y, z));
                assert(self.walk_spec(dv, c0, k0, n) == match self.lookup((x, y, z)) {
                    Some(v) => Some((v, t)),
                    None => self.walk_spec(dv, c1, (kx as int, ky as int, kz as int), (n - 1) as nat),
                });
            }
            if let Some(v) = self.get_voxel((x, y, z)) {
                return Some((v, t));
            }
            i = i + 1;
        }
        None
    }

    /// Resolves a ray against the grid: the point where the walk enters the
    /// first occupied cell, with the cell's surface; the normal is the axis of
    /// largest offset of that point from the cell's centre, scaled.
    pub fn resolve(&self, ray: &Ray, scene: &SceneData) -> (r: Option<RayResult>)
        requires
            self.wf(),
            ray.wf(),
            !ray.dir.is_zero(),
        ensures
            r matches Some(h) ==> self.cast_spec(*ray) matches Some((v, t)) && h == (RayResult {
                pos: ray.point_at(t),
                param: t,
                color: v.color,
                normal: voxel_normal(*ray, v, t),
                emit: v.emit,
                material: v.t,
            }),
            r is None <==> self.cast_spec(*ray) is None,
    {
        let (voxel, t) = match self.cast_ray(ray, scene) {
            Some(c) => c,
            None => return None,
        };
        let p = ray.point_at_param(t);
        proof {
            let c = COORD_LIMIT as int;
            let b = MAX_STEPS as int + 1;
            crate::vector::lemma_mul_bound(ray.origin.x as int, t.den as int, c, c);
            crate::vector::lemma_mul_bound(ray.origin.y as int, t.den as int, c, c);
            crate::vector::lemma_mul_bound(ray.origin.z as int, t.den as int, c, c);
            crate::vector::lemma_mul_bound(ray.dir.x as int, t.num as int, c, b);
            crate::vector::lemma_mul_bound(ray.dir.y as int, t.num as int, c, b);
            crate::vector::lemma_mul_bound(ray.dir.z as int, t.num as int, c, b);
            crate::vector::lemma_mul_bound(2 * voxel.pos.0 as int + 1, t.den as int, 4 * c + 4 * b, c);
            crate::vector::lemma_mul_bound(2 * voxel.pos.1 as int + 1, t.den as int, 4 * c + 4 * b, c);
            crate::vector::lemma_mul_bound(2 * voxel.pos.2 as int + 1, t.den as int, 4 * c + 4 * b, c);
        }
        let ox = 2 * p.x - (2 * voxel.pos.0 as i128 + 1) * t.den;
        let oy = 2 * p.y - (2 * voxel.pos.1 as i128 + 1) * t.den;
        let oz = 2 * p.z - (2 * voxel.pos.2 as i128 + 1) * t.den;
        let w = Vector3::new(ox as i64, oy as i64, oz as i64);
        let normal = w.only_largest_component();
        Some(RayResult { pos: p, param: t, color: voxel.color, normal, emit: voxel.emit, material: voxel.t })
    }

    /// The voxel at a cell, if the cell is occupied.
    pub fn get_voxel(&self, pos: Cell) -> (r: Option<Voxel>)
        requires
            self.wf(),
        ensures
            r == self.lookup(pos),
    {
        let mut i: usize = 0;
        while i < self.voxels.len()
            invariant
                self.wf(),
                i <= self.voxels@.len(),
                forall|j: int| 0 <= j < i ==> (#[trigger] self.voxels@[j]).pos != pos,
            decreases self.voxels@.len() - i,
        {
            let q = self.voxels[i].pos;
            if q.0 == pos.0 && q.1 == pos.1 && q.2 == pos.2 {
                proof {
                    let c = choose|j: int| 0 <= j < self.voxels@.len() && (#[trigger] self.voxels@[j]).pos == pos;
                    assert(c == i as int);
                }
                return Some(self.voxels[i]);
            }
            i = i + 1;
        }
        None
    }
}

} // verus!
