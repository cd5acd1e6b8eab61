use vstd::prelude::*;
use crate::chunk_map::{is_world_bounds, ChunkMap, VoxelAabb};
use crate::voxel::{IVec3, WorldVoxel};
use crate::world::VoxelWorld;
use crate::entry::{entry_start, trace_start};
use vstd::arithmetic::div_mod::{lemma_fundamental_div_mod, lemma_hoist_over_denominator};

verus! {

/// A signed 64-bit integer triple: a grid cell, or a scaled point.
#[derive(Clone, Copy, Debug, PartialEq, Eq, Structural, Hash)]
pub struct I64Vec3 {
    pub x: i64,
    pub y: i64,
    pub z: i64,
}

/// Bound on the magnitude of a ray's scaled origin.
pub const ORIGIN_LIMIT: i64 = 0x100_0000_0000;
/// Bound on the scale of a ray and on each component of its direction.
pub const DIRECTION_LIMIT: i64 = 0x10_0000;

/// A ray whose origin is the exact rational point `origin / scale` and
/// whose points are `(origin + t * direction) / scale` for `t >= 0`.
#[derive(Clone, Copy, Debug, PartialEq, Eq, Structural)]
pub struct Ray {
    pub origin: I64Vec3,
    pub scale: i64,
    pub direction: I64Vec3,
}

impl Ray {
    pub open spec fn wf(&self) -> bool {
        &&& 1 <= self.scale <= DIRECTION_LIMIT
        &&& -ORIGIN_LIMIT <= self.origin.x <= ORIGIN_LIMIT
        &&& -ORIGIN_LIMIT <= self.origin.y <= ORIGIN_LIMIT
        &&& -ORIGIN_LIMIT <= self.origin.z <= ORIGIN_LIMIT
        &&& -DIRECTION_LIMIT <= self.direction.x <= DIRECTION_LIMIT
        &&& -DIRECTION_LIMIT <= self.direction.y <= DIRECTION_LIMIT
        &&& -DIRECTION_LIMIT <= self.direction.z <= DIRECTION_LIMIT
        &&& (self.direction.x != 0 || self.direction.y != 0 || self.direction.z != 0)
    }

    /// A ray from `origin / scale` along `direction`; `None` where the scale
    /// is not positive, a component is out of bounds or the direction is zero.
    pub fn new(origin: I64Vec3, scale: i64, direction: I64Vec3) -> (r: Option<Ray>)
        ensures
            r matches Some(ray) ==> ray.wf() && ray.origin == origin && ray.scale == scale
                && ray.direction == direction,
            r is None <==> !(Ray { origin, scale, direction }).wf(),
    {
        let ray = Ray { origin, scale, direction };
        if 1 <= scale && scale <= DIRECTION_LIMIT && -ORIGIN_LIMIT <= origin.x && origin.x
            <= ORIGIN_LIMIT && -ORIGIN_LIMIT <= origin.y && origin.y <= ORIGIN_LIMIT
            && -ORIGIN_LIMIT <= origin.z && origin.z <= ORIGIN_LIMIT && -DIRECTION_LIMIT
            <= direction.x && direction.x <= DIRECTION_LIMIT && -DIRECTION_LIMIT <= direction.y
            && direction.y <= DIRECTION_LIMIT && -DIRECTION_LIMIT <= direction.z && direction.z
            <= DIRECTION_LIMIT && (direction.x != 0 || direction.y != 0 || direction.z != 0) {
            Some(ray)
        } else {
            None
        }
    }
}

/// A caller's acceptance test over candidate hits; it must be pure.
pub trait FilterFn {
    spec fn accepts(&self, pos: IVec3, voxel: WorldVoxel) -> bool;

    fn call(&self, pos: IVec3, voxel: WorldVoxel) -> (r: bool)
        ensures
            r == self.accepts(pos, voxel),
    ;
}

/// Accepts every candidate.
pub struct AcceptAll;

impl FilterFn for AcceptAll {
    open spec fn accepts(&self, pos: IVec3, voxel: WorldVoxel) -> bool {
        true
    }

    fn call(&self, pos: IVec3, voxel: WorldVoxel) -> (r: bool) {
        true
    }
}

/// Rejects solid voxels of one material, accepts the rest.
pub struct RejectMaterial {
    pub material: u8,
}

impl FilterFn for RejectMaterial {
    open spec fn accepts(&self, pos: IVec3, voxel: WorldVoxel) -> bool {
        voxel != WorldVoxel::Solid(self.material)
    }

    fn call(&self, pos: IVec3, voxel: WorldVoxel) -> (r: bool) {
        voxel != WorldVoxel::Solid(self.material)
    }
}

/// The first accepted solid voxel along a ray.
#[derive(Clone, Copy, Debug, PartialEq, Eq, Structural)]
pub struct VoxelRaycastResult {
    /// The hit voxel's position.
    pub position: IVec3,
    /// The outward normal of the face through which the ray entered the
    /// voxel; `None` where the ray starts inside it.
    pub normal: Option<IVec3>,
    pub voxel: WorldVoxel,
}

impl VoxelRaycastResult {
    /// The position of the hit voxel.
    pub fn voxel_pos(&self) -> (r: IVec3)
        ensures
            r == self.position,
    {
        self.position
    }

    /// The normal of the face hit.
    pub fn voxel_normal(&self) -> (r: Option<IVec3>)
        ensures
            r == self.normal,
    {
        self.normal
    }
}

pub open spec fn sign(d: int) -> int {
    if d > 0 {
        1
    } else if d < 0 {
        -1
    } else {
        0
    }
}

pub open spec fn abs(d: int) -> int {
    if d < 0 {
        -d
    } else {
        d
    }
}

/// The ray parameter at which the ray leaves cell coordinate `c` on one
/// axis, times `|d|`, for origin numerator `o` and scale `s`.
pub open spec fn exit_time(c: int, o: int, d: int, s: int) -> int {
    if d > 0 {
        (c + 1) * s - o
    } else {
        o - c * s
    }
}

/// Whether the crossing `ta / |da|` comes no later than `tb / |db|`; an axis
/// with zero direction is never crossed.
pub open spec fn no_later(ta: int, da: int, tb: int, db: int) -> bool {
    db == 0 || (da != 0 && ta * abs(db) <= tb * abs(da))
}

/// The axis (0, 1 or 2 for x, y, z) whose boundary the ray crosses next
/// from cell `c`; ties go to x, then y.
pub open spec fn next_axis(ray: Ray, c: I64Vec3) -> int {
    let s = ray.scale as int;
    let tx = exit_time(c.x as int, ray.origin.x as int, ray.direction.x as int, s);
    let ty = exit_time(c.y as int, ray.origin.y as int, ray.direction.y as int, s);
    let tz = exit_time(c.z as int, ray.origin.z as int, ray.direction.z as int, s);
    let (dx, dy, dz) = (ray.direction.x as int, ray.direction.y as int, ray.direction.z as int);
    if dx != 0 && no_later(tx, dx, ty, dy) && no_later(tx, dx, tz, dz) {
        0
    } else if dy != 0 && no_later(ty, dy, tz, dz) {
        1
    } else {
        2
    }
}

/// The cell after `c` along the ray and the normal of the face entered.
pub open spec fn step_cell(ray: Ray, c: I64Vec3) -> (I64Vec3, IVec3) {
    let a = next_axis(ray, c);
    let (dx, dy, dz) = (ray.direction.x as int, ray.direction.y as int, ray.direction.z as int);
    if a == 0 {
        (I64Vec3 { x: (c.x + sign(dx)) as i64, ..c }, IVec3 { x: -sign(dx) as i32, y: 0, z: 0 })
    } else if a == 1 {
        (I64Vec3 { y: (c.y + sign(dy)) as i64, ..c }, IVec3 { x: 0, y: -sign(dy) as i32, z: 0 })
    } else {
        (I64Vec3 { z: (c.z + sign(dz)) as i64, ..c }, IVec3 { x: 0, y: 0, z: -sign(dz) as i32 })
    }
}

/// The cell holding the ray's origin.
pub open spec fn start_cell(ray: Ray) -> I64Vec3 {
    I64Vec3 {
        x: (ray.origin.x as int / ray.scale as int) as i64,
        y: (ray.origin.y as int / ray.scale as int) as i64,
        z: (ray.origin.z as int / ray.scale as int) as i64,
    }
}

/// Whether, on one axis, coordinate `c` moving with direction `d` can never
/// again lie in `[lo, hi)`.
pub open spec fn axis_done(c: int, d: int, lo: int, hi: int) -> bool {
    (d > 0 && c >= hi) || (d < 0 && c < lo) || (d == 0 && !(lo <= c < hi))
}

/// Whether the walk from `c` can never again meet the box.
pub open spec fn walk_done(ray: Ray, b: VoxelAabb, c: I64Vec3) -> bool {
    axis_done(c.x as int, ray.direction.x as int, b.min_x as int, b.max_x as int)
        || axis_done(c.y as int, ray.direction.y as int, b.min_y as int, b.max_y as int)
        || axis_done(c.z as int, ray.direction.z as int, b.min_z as int, b.max_z as int)
}

pub open spec fn axis_left(c: int, d: int, lo: int, hi: int) -> int {
    if d > 0 {
        hi - c
    } else if d < 0 {
        c - lo + 1
    } else {
        0
    }
}

/// The number of steps the walk from `c` can still take.
pub open spec fn steps_left(ray: Ray, b: VoxelAabb, c: I64Vec3) -> int {
    axis_left(c.x as int, ray.direction.x as int, b.min_x as int, b.max_x as int) + axis_left(
        c.y as int,
        ray.direction.y as int,
        b.min_y as int,
        b.max_y as int,
    ) + axis_left(c.z as int, ray.direction.z as int, b.min_z as int, b.max_z as int)
}

/// The voxel position of a cell.
pub open spec fn cell_pos(c: I64Vec3) -> IVec3 {
    IVec3 { x: c.x as i32, y: c.y as i32, z: c.z as i32 }
}

/// The hit reported at cell `c`, entered through `face`, if its voxel is set,
/// accepted by the filter and solid.
pub open spec fn hit_at<F: FilterFn>(
    w: VoxelWorld,
    f: F,
    b: VoxelAabb,
    c: I64Vec3,
    face: Option<IVec3>,
) -> Option<VoxelRaycastResult> {
    let p = cell_pos(c);
    let v = w.voxel_at(p);
    if b.holds_cell(c.x as int, c.y as int, c.z as int) && !(v is Unset) && f.accepts(p, v)
        && v.is_solid_spec() {
        Some(VoxelRaycastResult { position: p, normal: face, voxel: v })
    } else {
        None
    }
}

/// The first hit of the cell-by-cell walk from `c`, entered through `face`,
/// over the cells of box `b`.
pub open spec fn dda_walk<F: FilterFn>(
    w: VoxelWorld,
    f: F,
    ray: Ray,
    b: VoxelAabb,
    c: I64Vec3,
    face: Option<IVec3>,
) -> Option<VoxelRaycastResult>
    decreases steps_left(ray, b, c),
{
    if walk_done(ray, b, c) || steps_left(ray, b, c) <= 0 {
        None
    } else if hit_at(w, f, b, c, face) is Some {
        hit_at(w, f, b, c, face)
    } else {
        let (n, nf) = step_cell(ray, c);
        if 0 <= steps_left(ray, b, n) < steps_left(ray, b, c) {
            dda_walk(w, f, ray, b, n, Some(nf))
        } else {
            None
        }
    }
}

/// The DDA cast over box `b`: the walk from the cell where the ray enters
/// the box, or nothing where the ray misses it.
pub open spec fn dda_cast<F: FilterFn>(w: VoxelWorld, f: F, ray: Ray, b: VoxelAabb) -> Option<
    VoxelRaycastResult,
> {
    match entry_start(ray, b) {
        Some((c, face)) => dda_walk(w, f, ray, b, c, face),
        None => None,
    }
}

/// The loaded chunks determine their bounding box.
pub proof fn lemma_world_bounds_unique(m: ChunkMap, b1: VoxelAabb, b2: VoxelAabb)
    requires
        is_world_bounds(m, b1),
        is_world_bounds(m, b2),
    ensures
        b1 == b2,
{
    let c1 = choose|c: IVec3| #[trigger] m.chunk_at(c) is Some && b1.min_x == 32 * c.x;
    let c2 = choose|c: IVec3| #[trigger] m.chunk_at(c) is Some && b2.min_x == 32 * c.x;
    let d1 = choose|c: IVec3| #[trigger] m.chunk_at(c) is Some && b1.min_y == 32 * c.y;
    let d2 = choose|c: IVec3| #[trigger] m.chunk_at(c) is Some && b2.min_y == 32 * c.y;
    let e1 = choose|c: IVec3| #[trigger] m.chunk_at(c) is Some && b1.min_z == 32 * c.z;
    let e2 = choose|c: IVec3| #[trigger] m.chunk_at(c) is Some && b2.min_z == 32 * c.z;
    let f1 = choose|c: IVec3| #[trigger] m.chunk_at(c) is Some && b1.max_x == 32 * c.x + 32;
    let f2 = choose|c: IVec3| #[trigger] m.chunk_at(c) is Some && b2.max_x == 32 * c.x + 32;
    let g1 = choose|c: IVec3| #[trigger] m.chunk_at(c) is Some && b1.max_y == 32 * c.y + 32;
    let g2 = choose|c: IVec3| #[trigger] m.chunk_at(c) is Some && b2.max_y == 32 * c.y + 32;
    let h1 = choose|c: IVec3| #[trigger] m.chunk_at(c) is Some && b1.max_z == 32 * c.z + 32;
    let h2 = choose|c: IVec3| #[trigger] m.chunk_at(c) is Some && b2.max_z == 32 * c.z + 32;
}

proof fn lemma_next_axis_moves(ray: Ray, c: I64Vec3)
    requires
        ray.wf(),
    ensures
        next_axis(ray, c) == 0 ==> ray.direction.x != 0,
        next_axis(ray, c) == 1 ==> ray.direction.y != 0,
        next_axis(ray, c) == 2 ==> ray.direction.z != 0,
{
}

/// Each step of the walk leaves one step fewer to take.
proof fn lemma_step_progress(ray: Ray, b: VoxelAabb, c: I64Vec3)
    requires
        ray.wf(),
        !walk_done(ray, b, c),
        -ORIGIN_LIMIT <= c.x <= ORIGIN_LIMIT,
        -ORIGIN_LIMIT <= c.y <= ORIGIN_LIMIT,
        -ORIGIN_LIMIT <= c.z <= ORIGIN_LIMIT,
    ensures
        steps_left(ray, b, c) > 0,
        0 <= steps_left(ray, b, step_cell(ray, c).0) < steps_left(ray, b, c),
{
    lemma_next_axis_moves(ray, c);
}

pub(crate) fn floor_div_wide(n: i128, m: i128) -> (r: i128)
    requires
        -0x1000_0000_0000_0000 <= n <= 0x1000_0000_0000_0000,
        1 <= m <= 0x100_0000_0000,
    ensures
        r as int == n as int / m as int,
        n >= 0 ==> 0 <= r <= n,
        n < 0 ==> n <= r < 0,
{
    let k: i128 = 0x2000_0000_0000_0000;
    proof {
        assert(0 <= n + k * m <= 0x1000_0000_0000_0000 + 0x2000_0000_0000_0000 * 0x100_0000_0000)
            by (nonlinear_arith)
            requires
                -0x1000_0000_0000_0000 <= n <= 0x1000_0000_0000_0000,
                1 <= m <= 0x100_0000_0000,
                k == 0x2000_0000_0000_0000,
        ;
    }
    let shifted = (n + k * m) as u128;
    let q = shifted / (m as u128);
    proof {
        lemma_hoist_over_denominator(n as int, k as int, m as nat);
        lemma_fundamental_div_mod(n as int, m as int);
        let qq = n as int / m as int;
        let rr = n as int % m as int;
        assert((n >= 0 ==> 0 <= qq <= n) && (n < 0 ==> n <= qq < 0)) by (nonlinear_arith)
            requires
                n == m * qq + rr,
                0 <= rr < m,
                1 <= m,
        ;
    }
    q as i128 - k
}

fn floor_div(o: i64, s: i64) -> (r: i64)
    requires
        -ORIGIN_LIMIT <= o <= ORIGIN_LIMIT,
        1 <= s <= DIRECTION_LIMIT,
    ensures
        r as int == o as int / s as int,
        -ORIGIN_LIMIT <= r <= ORIGIN_LIMIT,
{
    floor_div_wide(o as i128, s as i128) as i64
}

/// The cell holding the ray's origin.
pub fn origin_cell(ray: &Ray) -> (r: I64Vec3)
    requires
        ray.wf(),
    ensures
        r == start_cell(*ray),
        -ORIGIN_LIMIT <= r.x <= ORIGIN_LIMIT,
        -ORIGIN_LIMIT <= r.y <= ORIGIN_LIMIT,
        -ORIGIN_LIMIT <= r.z <= ORIGIN_LIMIT,
{
    I64Vec3 {
        x: floor_div(ray.origin.x, ray.scale),
        y: floor_div(ray.origin.y, ray.scale),
        z: floor_div(ray.origin.z, ray.scale),
    }
}

pub(crate) fn exit_time_exec(c: i64, o: i64, d: i64, s: i64) -> (r: i128)
    requires
        -ORIGIN_LIMIT <= c <= ORIGIN_LIMIT,
        -ORIGIN_LIMIT <= o <= ORIGIN_LIMIT,
        1 <= s <= DIRECTION_LIMIT,
    ensures
        r == exit_time(c as int, o as int, d as int, s as int),
        -0x2000_0000_0000_0000 <= r <= 0x2000_0000_0000_0000,
{
    proof {
        assert(-0x100_0000_0000 * 0x10_0000 <= (c + 1) * s <= (0x100_0000_0000 + 1) * 0x10_0000)
            by (nonlinear_arith)
            requires
                -ORIGIN_LIMIT <= c <= ORIGIN_LIMIT,
                1 <= s <= DIRECTION_LIMIT,
        ;
        assert(-0x100_0000_0000 * 0x10_0000 <= c * s <= 0x100_0000_0000 * 0x10_0000)
            by (nonlinear_arith)
            requires
                -ORIGIN_LIMIT <= c <= ORIGIN_LIMIT,
                1 <= s <= DIRECTION_LIMIT,
        ;
    }
    if d > 0 {
        (c as i128 + 1) * s as i128 - o as i128
    } else {
        o as i128 - c as i128 * s as i128
    }
}

pub(crate) fn no_later_exec(ta: i128, da: i64, tb: i128, db: i64) -> (r: bool)
    requires
        -0x4000_0000_0000_0000 <= ta <= 0x4000_0000_0000_0000,
        -0x4000_0000_0000_0000 <= tb <= 0x4000_0000_0000_0000,
        -DIRECTION_LIMIT <= da <= DIRECTION_LIMIT,
        -DIRECTION_LIMIT <= db <= DIRECTION_LIMIT,
    ensures
        r == no_later(ta as int, da as int, tb as int, db as int),
{
    if db == 0 {
        true
    } else if da == 0 {
        false
    } else {
        let ada: i128 = if da < 0 { -(da as i128) } else { da as i128 };
        let adb: i128 = if db < 0 { -(db as i128) } else { db as i128 };
        proof {
            assert(-0x4000_0000_0000_0000 * 0x10_0000 <= ta * adb <= 0x4000_0000_0000_0000 * 0x10_0000)
                by (nonlinear_arith)
                requires
                    -0x4000_0000_0000_0000 <= ta <= 0x4000_0000_0000_0000,
                    0 <= adb <= 0x10_0000,
            ;
            assert(-0x4000_0000_0000_0000 * 0x10_0000 <= tb * ada <= 0x4000_0000_0000_0000 * 0x10_0000)
                by (nonlinear_arith)
                requires
                    -0x4000_0000_0000_0000 <= tb <= 0x4000_0000_0000_0000,
                    0 <= ada <= 0x10_0000,
            ;
        }
        ta * adb <= tb * ada
    }
}

pub(crate) fn sign_exec(d: i64) -> (r: i64)
    ensures
        r == sign(d as int),
{
    if d > 0 {
        1
    } else if d < 0 {
        -1
    } else {
        0
    }
}

/// The cell after `c` along the ray, and the normal of the face entered.
pub fn next_cell(ray: &Ray, c: I64Vec3) -> (r: (I64Vec3, IVec3))
    requires
        ray.wf(),
        -ORIGIN_LIMIT <= c.x <= ORIGIN_LIMIT,
        -ORIGIN_LIMIT <= c.y <= ORIGIN_LIMIT,
        -ORIGIN_LIMIT <= c.z <= ORIGIN_LIMIT,
    ensures
        r == step_cell(*ray, c),
{
    let s = ray.scale;
    let (dx, dy, dz) = (ray.direction.x, ray.direction.y, ray.direction.z);
    let tx = exit_time_exec(c.x, ray.origin.x, dx, s);
    let ty = exit_time_exec(c.y, ray.origin.y, dy, s);
    let tz = exit_time_exec(c.z, ray.origin.z, dz, s);
    if dx != 0 && no_later_exec(tx, dx, ty, dy) && no_later_exec(tx, dx, tz, dz) {
        let g = sign_exec(dx);
        (I64Vec3 { x: c.x + g, ..c }, IVec3 { x: -g as i32, y: 0, z: 0 })
    } else if dy != 0 && no_later_exec(ty, dy, tz, dz) {
        let g = sign_exec(dy);
        (I64Vec3 { y: c.y + g, ..c }, IVec3 { x: 0, y: -g as i32, z: 0 })
    } else {
        let g = sign_exec(dz);
        (I64Vec3 { z: c.z + g, ..c }, IVec3 { x: 0, y: 0, z: -g as i32 })
    }
}

fn walk_done_exec(ray: &Ray, b: &VoxelAabb, c: I64Vec3) -> (r: bool)
    ensures
        r == walk_done(*ray, *b, c),
{
    let (dx, dy, dz) = (ray.direction.x, ray.direction.y, ray.direction.z);
    (dx > 0 && c.x >= b.max_x) || (dx < 0 && c.x < b.min_x) || (dx == 0 && !(b.min_x <= c.x
        && c.x < b.max_x)) || (dy > 0 && c.y >= b.max_y) || (dy < 0 && c.y < b.min_y) || (dy == 0
        && !(b.min_y <= c.y && c.y < b.max_y)) || (dz > 0 && c.z >= b.max_z) || (dz < 0 && c.z
        < b.min_z) || (dz == 0 && !(b.min_z <= c.z && c.z < b.max_z))
}

impl VoxelWorld {
    /// The first voxel along the ray, within the box of loaded chunks, that
    /// is set, accepted by `filter` and solid; the walk starts where the ray
    /// enters that box and visits cells in the order the ray passes through
    /// them. With no chunk loaded, or a ray that misses the box, `None`.
    pub fn raycast<F: FilterFn>(&self, ray: &Ray, filter: &F) -> (r: Option<VoxelRaycastResult>)
        requires
            self.wf(),
            ray.wf(),
        ensures
            self.chunks().is_vacant() ==> r is None,
            forall|b: VoxelAabb|
                #[trigger] is_world_bounds(self.chunks(), b) ==> r == dda_cast(
                    *self,
                    *filter,
                    *ray,
                    b,
                ),
    {
        let b = match self.chunk_map().world_bounds() {
            Some(b) => b,
            None => {
                return None;
            },
        };
        proof {
            assert forall|b2: VoxelAabb| #[trigger] is_world_bounds(self.chunks(), b2) implies b2
                == b by {
                lemma_world_bounds_unique(self.chunks(), b, b2);
            }
        }
        let (c0, face0) = match trace_start(ray, &b) {
            Some(start) => start,
            None => {
                return None;
            },
        };
        let get_voxel = self.get_voxel_fn();
        let mut c = c0;
        let mut face: Option<IVec3> = face0;
        loop
            invariant
                ray.wf(),
                b.in_cell_range(),
                is_world_bounds(self.chunks(), b),
                !self.chunks().is_vacant(),
                forall|b2: VoxelAabb| #[trigger] is_world_bounds(self.chunks(), b2) ==> b2 == b,
                get_voxel.wf(),
                forall|q: IVec3| #[trigger] get_voxel.voxel_at(q) == self.voxel_at(q),
                entry_start(*ray, b) == Some((c0, face0)),
                -ORIGIN_LIMIT <= c.x <= ORIGIN_LIMIT,
                -ORIGIN_LIMIT <= c.y <= ORIGIN_LIMIT,
                -ORIGIN_LIMIT <= c.z <= ORIGIN_LIMIT,
                dda_walk(*self, *filter, *ray, b, c, face) == dda_walk(
                    *self,
                    *filter,
                    *ray,
                    b,
                    c0,
                    face0,
                ),
            decreases steps_left(*ray, b, c),
        {
            if walk_done_exec(ray, &b, c) {
                assert(dda_walk(*self, *filter, *ray, b, c, face) is None);
                return None;
            }
            proof {
                lemma_step_progress(*ray, b, c);
            }
            if b.min_x <= c.x && c.x < b.max_x && b.min_y <= c.y && c.y < b.max_y && b.min_z <= c.z
                && c.z < b.max_z {
                let p = IVec3 { x: c.x as i32, y: c.y as i32, z: c.z as i32 };
                let v = get_voxel.get(p);
                if !v.is_unset() && filter.call(p, v) && v.is_solid() {
                    assert(p == cell_pos(c));
                    assert(hit_at(*self, *filter, b, c, face) == Some(
                        VoxelRaycastResult { position: p, normal: face, voxel: v },
                    ));
                    return Some(VoxelRaycastResult { position: p, normal: face, voxel: v });
                }
            }
            let (n, nf) = next_cell(ray, c);
            c = n;
            face = Some(nf);
        }
    }
}

/// A reusable DDA cast over one world.
pub struct Raycaster<'a> {
    pub world: &'a VoxelWorld,
}

impl<'a> Raycaster<'a> {
    /// The same cast as `VoxelWorld::raycast` on the held world.
    pub fn cast<F: FilterFn>(&self, ray: &Ray, filter: &F) -> (r: Option<VoxelRaycastResult>)
        requires
            self.world.wf(),
            ray.wf(),
        ensures
            self.world.chunks().is_vacant() ==> r is None,
            forall|b: VoxelAabb|
                #[trigger] is_world_bounds(self.world.chunks(), b) ==> r == dda_cast(
                    *self.world,
                    *filter,
                    *ray,
                    b,
                ),
    {
        self.world.raycast(ray, filter)
    }
}

impl VoxelWorld {
    /// A reusable DDA cast over this world.
    pub fn raycast_fn(&self) -> (r: Raycaster<'_>)
        ensures
            *r.world == *self,
    {
        Raycaster { world: self }
    }
}

} // verus!
