use vstd::prelude::*;
use crate::chunk_map::VoxelAabb;
use crate::raycast::{
    dda_walk, start_cell, step_cell, steps_left, I64Vec3, abs, exit_time, exit_time_exec, floor_div_wide, sign, sign_exec, FilterFn, Ray,
    VoxelRaycastResult, DIRECTION_LIMIT, ORIGIN_LIMIT,
};
use vstd::arithmetic::div_mod::lemma_fundamental_div_mod;
use crate::raycast::{cell_pos, dda_cast, hit_at, next_axis, no_later, walk_done};
use crate::entry::{coord_at, entry_axis, entry_start, entry_time, inner_cell, slab_enter};
use crate::voxel::{IVec3, WorldVoxel};
use crate::world::VoxelWorld;

verus! {

/// Samples taken per unit of the ray parameter.
pub const STEPS_PER_UNIT: i64 = 100;
/// Number of times a hit is moved toward the ray along its face normal.
pub const REFINE_STEPS: u32 = 3;

/// The ray parameter at which the ray enters cell coordinate `v` on one
/// axis, times `|d|`.
pub open spec fn enter_time(v: int, o: int, d: int, s: int) -> int {
    if d > 0 {
        v * s - o
    } else {
        o - (v + 1) * s
    }
}

/// Whether the entry `ta / |da|` comes no earlier than `tb / |db|`; an axis
/// with zero direction never decides the entry.
pub open spec fn no_earlier(ta: int, da: int, tb: int, db: int) -> bool {
    db == 0 || (da != 0 && tb * abs(da) <= ta * abs(db))
}

/// The outward normal of the face of the unit cube at `v` through which the
/// ray's line enters it: on the axis whose slab it enters last.
pub open spec fn entry_normal(ray: Ray, v: IVec3) -> IVec3 {
    let s = ray.scale as int;
    let (dx, dy, dz) = (ray.direction.x as int, ray.direction.y as int, ray.direction.z as int);
    let tx = enter_time(v.x as int, ray.origin.x as int, dx, s);
    let ty = enter_time(v.y as int, ray.origin.y as int, dy, s);
    let tz = enter_time(v.z as int, ray.origin.z as int, dz, s);
    if dx != 0 && no_earlier(tx, dx, ty, dy) && no_earlier(tx, dx, tz, dz) {
        IVec3 { x: -sign(dx) as i32, y: 0, z: 0 }
    } else if dy != 0 && no_earlier(ty, dy, tz, dz) {
        IVec3 { x: 0, y: -sign(dy) as i32, z: 0 }
    } else {
        IVec3 { x: 0, y: 0, z: -sign(dz) as i32 }
    }
}

/// Whether an axis without motion keeps the ray inside the cube's slab.
pub open spec fn slab_holds(v: int, o: int, d: int, s: int) -> bool {
    d != 0 || (v * s <= o < (v + 1) * s)
}

/// Whether entering on one axis comes no later than leaving on another.
pub open spec fn enters_before(ea: int, da: int, xb: int, db: int) -> bool {
    da == 0 || db == 0 || ea * abs(db) <= xb * abs(da)
}

/// Whether the ray, for parameters `t >= 0`, meets the unit cube whose
/// minimum corner is `(x, y, z)`.
pub open spec fn ray_meets_cell(ray: Ray, x: int, y: int, z: int) -> bool {
    let s = ray.scale as int;
    let (ox, oy, oz) = (ray.origin.x as int, ray.origin.y as int, ray.origin.z as int);
    let (dx, dy, dz) = (ray.direction.x as int, ray.direction.y as int, ray.direction.z as int);
    let (ex, ey, ez) = (enter_time(x, ox, dx, s), enter_time(y, oy, dy, s), enter_time(z, oz, dz, s));
    let (xx, xy, xz) = (exit_time(x, ox, dx, s), exit_time(y, oy, dy, s), exit_time(z, oz, dz, s));
    &&& slab_holds(x, ox, dx, s) && slab_holds(y, oy, dy, s) && slab_holds(z, oz, dz, s)
    &&& enters_before(ex, dx, xy, dy) && enters_before(ex, dx, xz, dz)
    &&& enters_before(ey, dy, xx, dx) && enters_before(ey, dy, xz, dz)
    &&& enters_before(ez, dz, xx, dx) && enters_before(ez, dz, xy, dy)
    &&& (dx == 0 || xx >= 0) && (dy == 0 || xy >= 0) && (dz == 0 || xz >= 0)
}

/// Whether the ray, for parameters `t >= 0`, meets the unit cube at `v`.
pub open spec fn ray_meets_cube(ray: Ray, v: IVec3) -> bool {
    ray_meets_cell(ray, v.x as int, v.y as int, v.z as int)
}

/// `v` moved by `n`, where that stays on the `i32` grid.
pub open spec fn moved(v: IVec3, n: IVec3) -> Option<IVec3> {
    let (x, y, z) = (v.x + n.x, v.y + n.y, v.z + n.z);
    if i32::MIN <= x <= i32::MAX && i32::MIN <= y <= i32::MAX && i32::MIN <= z <= i32::MAX {
        Some(IVec3 { x: x as i32, y: y as i32, z: z as i32 })
    } else {
        None
    }
}

/// Moves a hit at `v`, with normal `n` and value `voxel`, onto the solid
/// neighbour in the normal's direction, at most `3 - done` more times.
pub open spec fn refine(
    w: VoxelWorld,
    ray: Ray,
    v: IVec3,
    n: IVec3,
    voxel: WorldVoxel,
    done: nat,
) -> (IVec3, IVec3, WorldVoxel)
    decreases 3 - done,
{
    if done < 3 && moved(v, n) is Some && w.voxel_at(moved(v, n).unwrap()).is_solid_spec() {
        let a = moved(v, n).unwrap();
        let n2 = if ray_meets_cube(ray, a) {
            entry_normal(ray, a)
        } else {
            n
        };
        refine(w, ray, a, n2, w.voxel_at(a), done + 1)
    } else {
        (v, n, voxel)
    }
}

/// The cell coordinate of sample `k` on one axis: the floor of
/// `(o + (k / 100) * d) / s`.
pub open spec fn sample_axis(o: int, d: int, s: int, k: int) -> int {
    (100 * o + k * d) / (100 * s)
}

/// The chunk coordinate of sample `k`, when it is one of the grid.
pub open spec fn sample_chunk(ray: Ray, k: int) -> IVec3 {
    let s = ray.scale as int;
    IVec3 {
        x: (sample_axis(ray.origin.x as int, ray.direction.x as int, s, k) / 32) as i32,
        y: (sample_axis(ray.origin.y as int, ray.direction.y as int, s, k) / 32) as i32,
        z: (sample_axis(ray.origin.z as int, ray.direction.z as int, s, k) / 32) as i32,
    }
}

/// Whether sample `k` lies in a chunk of the grid.
pub open spec fn sample_on_grid(ray: Ray, k: int) -> bool {
    let s = ray.scale as int;
    let (x, y, z) = (
        sample_axis(ray.origin.x as int, ray.direction.x as int, s, k) / 32,
        sample_axis(ray.origin.y as int, ray.direction.y as int, s, k) / 32,
        sample_axis(ray.origin.z as int, ray.direction.z as int, s, k) / 32,
    );
    -0x400_0000 <= x < 0x400_0000 && -0x400_0000 <= y < 0x400_0000 && -0x400_0000 <= z
        < 0x400_0000
}

/// The voxel position of sample `k`.
pub open spec fn sample_voxel(ray: Ray, k: int) -> IVec3 {
    let s = ray.scale as int;
    IVec3 {
        x: sample_axis(ray.origin.x as int, ray.direction.x as int, s, k) as i32,
        y: sample_axis(ray.origin.y as int, ray.direction.y as int, s, k) as i32,
        z: sample_axis(ray.origin.z as int, ray.direction.z as int, s, k) as i32,
    }
}

/// The hit reported at sample `k`: a solid voxel in a loaded chunk not
/// flagged empty, refined, then accepted by the filter.
pub open spec fn sample_hit<F: FilterFn>(w: VoxelWorld, f: F, ray: Ray, k: int) -> Option<
    VoxelRaycastResult,
> {
    let v = sample_voxel(ray, k);
    let voxel = w.voxel_at(v);
    if sample_on_grid(ray, k) && (w.chunks().chunk_at(sample_chunk(ray, k)) matches Some(d)
        && !d.empty_flag()) && voxel.is_solid_spec() {
        let (p, n, value) = refine(w, ray, v, entry_normal(ray, v), voxel, 0);
        if f.accepts(p, value) {
            Some(VoxelRaycastResult { position: p, normal: Some(n), voxel: value })
        } else {
            None
        }
    } else {
        None
    }
}

/// The first hit among samples `k, k + 1, ..` below `count`.
pub open spec fn march<F: FilterFn>(w: VoxelWorld, f: F, ray: Ray, k: int, count: int) -> Option<
    VoxelRaycastResult,
>
    decreases count - k,
{
    if k >= count {
        None
    } else if sample_hit(w, f, ray, k) is Some {
        sample_hit(w, f, ray, k)
    } else {
        march(w, f, ray, k + 1, count)
    }
}

fn enter_time_exec(v: i32, o: i64, d: i64, s: i64) -> (r: i128)
    requires
        -ORIGIN_LIMIT <= o <= ORIGIN_LIMIT,
        1 <= s <= DIRECTION_LIMIT,
    ensures
        r == enter_time(v as int, o as int, d as int, s as int),
        -0x4000_0000_0000_0000 <= r <= 0x4000_0000_0000_0000,
{
    let t = exit_time_exec(v as i64, o, d, s);
    proof {
        assert(v * s == (v + 1) * s - s) by (nonlinear_arith);
    }
    t - s as i128
}

fn abs_exec(d: i64) -> (r: i128)
    requires
        -DIRECTION_LIMIT <= d <= DIRECTION_LIMIT,
    ensures
        r == abs(d as int),
        0 <= r <= DIRECTION_LIMIT,
{
    if d < 0 {
        -(d as i128)
    } else {
        d as i128
    }
}

proof fn lemma_product_bound(t: int, a: int)
    requires
        -0x4000_0000_0000_0000 <= t <= 0x4000_0000_0000_0000,
        0 <= a <= DIRECTION_LIMIT,
    ensures
        -0x4000_0000_0000_0000 * 0x10_0000 <= t * a <= 0x4000_0000_0000_0000 * 0x10_0000,
{
    assert(-0x4000_0000_0000_0000 * 0x10_0000 <= t * a <= 0x4000_0000_0000_0000 * 0x10_0000)
        by (nonlinear_arith)
        requires
            -0x4000_0000_0000_0000 <= t <= 0x4000_0000_0000_0000,
            0 <= a <= 0x10_0000,
    ;
}

pub(crate) fn no_earlier_exec(ta: i128, da: i64, tb: i128, db: i64) -> (r: bool)
    requires
        -0x4000_0000_0000_0000 <= ta <= 0x4000_0000_0000_0000,
        -0x4000_0000_0000_0000 <= tb <= 0x4000_0000_0000_0000,
        -DIRECTION_LIMIT <= da <= DIRECTION_LIMIT,
        -DIRECTION_LIMIT <= db <= DIRECTION_LIMIT,
    ensures
        r == no_earlier(ta as int, da as int, tb as int, db as int),
{
    if db == 0 {
        true
    } else if da == 0 {
        false
    } else {
        let (ada, adb) = (abs_exec(da), abs_exec(db));
        proof {
            lemma_product_bound(tb as int, ada as int);
            lemma_product_bound(ta as int, adb as int);
        }
        tb * ada <= ta * adb
    }
}

fn enters_before_exec(ea: i128, da: i64, xb: i128, db: i64) -> (r: bool)
    requires
        -0x4000_0000_0000_0000 <= ea <= 0x4000_0000_0000_0000,
        -0x4000_0000_0000_0000 <= xb <= 0x4000_0000_0000_0000,
        -DIRECTION_LIMIT <= da <= DIRECTION_LIMIT,
        -DIRECTION_LIMIT <= db <= DIRECTION_LIMIT,
    ensures
        r == enters_before(ea as int, da as int, xb as int, db as int),
{
    if da == 0 || db == 0 {
        true
    } else {
        let (ada, adb) = (abs_exec(da), abs_exec(db));
        proof {
            lemma_product_bound(ea as int, adb as int);
            lemma_product_bound(xb as int, ada as int);
        }
        ea * adb <= xb * ada
    }
}

/// The outward normal of the face through which the ray's line enters the
/// unit cube at `v`.
pub fn hit_normal(ray: &Ray, v: IVec3) -> (r: IVec3)
    requires
        ray.wf(),
    ensures
        r == entry_normal(*ray, v),
{
    let s = ray.scale;
    let (dx, dy, dz) = (ray.direction.x, ray.direction.y, ray.direction.z);
    let tx = enter_time_exec(v.x, ray.origin.x, dx, s);
    let ty = enter_time_exec(v.y, ray.origin.y, dy, s);
    let tz = enter_time_exec(v.z, ray.origin.z, dz, s);
    if dx != 0 && no_earlier_exec(tx, dx, ty, dy) && no_earlier_exec(tx, dx, tz, dz) {
        IVec3 { x: -sign_exec(dx) as i32, y: 0, z: 0 }
    } else if dy != 0 && no_earlier_exec(ty, dy, tz, dz) {
        IVec3 { x: 0, y: -sign_exec(dy) as i32, z: 0 }
    } else {
        IVec3 { x: 0, y: 0, z: -sign_exec(dz) as i32 }
    }
}

/// Whether the ray meets the unit cube at `v`.
pub fn meets_cube(ray: &Ray, v: IVec3) -> (r: bool)
    requires
        ray.wf(),
    ensures
        r == ray_meets_cube(*ray, v),
{
    let s = ray.scale;
    let (ox, oy, oz) = (ray.origin.x, ray.origin.y, ray.origin.z);
    let (dx, dy, dz) = (ray.direction.x, ray.direction.y, ray.direction.z);
    let (ex, ey, ez) = (
        enter_time_exec(v.x, ox, dx, s),
        enter_time_exec(v.y, oy, dy, s),
        enter_time_exec(v.z, oz, dz, s),
    );
    let (xx, xy, xz) = (
        exit_time_exec(v.x as i64, ox, dx, s),
        exit_time_exec(v.y as i64, oy, dy, s),
        exit_time_exec(v.z as i64, oz, dz, s),
    );
    let slabs = (dx != 0 || (ex < 0 && xx >= 0)) && (dy != 0 || (ey < 0 && xy >= 0)) && (dz != 0
        || (ez < 0 && xz >= 0));
    proof {
        assert(slab_holds(v.x as int, ox as int, dx as int, s as int) == (dx != 0 || (ex < 0 && xx >= 0)));
        assert(slab_holds(v.y as int, oy as int, dy as int, s as int) == (dy != 0 || (ey < 0 && xy >= 0)));
        assert(slab_holds(v.z as int, oz as int, dz as int, s as int) == (dz != 0 || (ez < 0 && xz >= 0)));
    }
    slabs && enters_before_exec(ex, dx, xy, dy) && enters_before_exec(ex, dx, xz, dz)
        && enters_before_exec(ey, dy, xx, dx) && enters_before_exec(ey, dy, xz, dz)
        && enters_before_exec(ez, dz, xx, dx) && enters_before_exec(ez, dz, xy, dy) && (dx == 0
        || xx >= 0) && (dy == 0 || xy >= 0) && (dz == 0 || xz >= 0)
}

impl VoxelWorld {
    /// Moves a hit onto solid neighbours toward the ray, at most three times.
    pub fn refine_hit(&self, ray: &Ray, v: IVec3, n: IVec3, voxel: WorldVoxel) -> (r: (
        IVec3,
        IVec3,
        WorldVoxel,
    ))
        requires
            self.wf(),
            ray.wf(),
        ensures
            r == refine(*self, *ray, v, n, voxel, 0),
    {
        let mut steps: u32 = 0;
        let (mut cv, mut cn, mut cvox) = (v, n, voxel);
        while steps < REFINE_STEPS
            invariant
                self.wf(),
                ray.wf(),
                steps <= 3,
                refine(*self, *ray, cv, cn, cvox, steps as nat) == refine(*self, *ray, v, n, voxel, 0),
            decreases 3 - steps,
        {
            let (x, y, z) = (
                cv.x as i64 + cn.x as i64,
                cv.y as i64 + cn.y as i64,
                cv.z as i64 + cn.z as i64,
            );
            if !(i32::MIN as i64 <= x && x <= i32::MAX as i64 && i32::MIN as i64 <= y && y
                <= i32::MAX as i64 && i32::MIN as i64 <= z && z <= i32::MAX as i64) {
                return (cv, cn, cvox);
            }
            let a = IVec3 { x: x as i32, y: y as i32, z: z as i32 };
            assert(moved(cv, cn) == Some(a));
            let adjacent = self.get_voxel(a);
            if !adjacent.is_solid() {
                return (cv, cn, cvox);
            }
            let n2 = if meets_cube(ray, a) {
                hit_normal(ray, a)
            } else {
                cn
            };
            cv = a;
            cn = n2;
            cvox = adjacent;
            steps += 1;
        }
        (cv, cn, cvox)
    }

    fn sample_hit_exec<F: FilterFn>(&self, ray: &Ray, filter: &F, k: i64) -> (r: Option<
        VoxelRaycastResult,
    >)
        requires
            self.wf(),
            ray.wf(),
            0 <= k <= 100 * 0xFFFF_FFFF,
        ensures
            r == sample_hit(*self, *filter, *ray, k as int),
    {
        let s100 = 100 * ray.scale as i128;
        proof {

            assert(-0x800_0000_0000_0000 <= k * ray.direction.x <= 0x800_0000_0000_0000)
                by (nonlinear_arith)
                requires
                    0 <= k <= 100 * 0xFFFF_FFFF,
                    -DIRECTION_LIMIT <= ray.direction.x <= DIRECTION_LIMIT,
            ;
            assert(-0x800_0000_0000_0000 <= k * ray.direction.y <= 0x800_0000_0000_0000)
                by (nonlinear_arith)
                requires
                    0 <= k <= 100 * 0xFFFF_FFFF,
                    -DIRECTION_LIMIT <= ray.direction.y <= DIRECTION_LIMIT,
            ;
            assert(-0x800_0000_0000_0000 <= k * ray.direction.z <= 0x800_0000_0000_0000)
                by (nonlinear_arith)
                requires
                    0 <= k <= 100 * 0xFFFF_FFFF,
                    -DIRECTION_LIMIT <= ray.direction.z <= DIRECTION_LIMIT,
            ;
        }
        let cx = floor_div_wide(
            100 * ray.origin.x as i128 + k as i128 * ray.direction.x as i128,
            s100,
        );
        let cy = floor_div_wide(
            100 * ray.origin.y as i128 + k as i128 * ray.direction.y as i128,
            s100,
        );
        let cz = floor_div_wide(
            100 * ray.origin.z as i128 + k as i128 * ray.direction.z as i128,
            s100,
        );
        let (qx, qy, qz) = (floor_div_wide(cx, 32), floor_div_wide(cy, 32), floor_div_wide(cz, 32));
        if !(-0x400_0000 <= qx && qx < 0x400_0000 && -0x400_0000 <= qy && qy < 0x400_0000
            && -0x400_0000 <= qz && qz < 0x400_0000) {
            return None;
        }
        proof {
            lemma_fundamental_div_mod(cx as int, 32);
            lemma_fundamental_div_mod(cy as int, 32);
            lemma_fundamental_div_mod(cz as int, 32);
        }
        let chunk = IVec3 { x: qx as i32, y: qy as i32, z: qz as i32 };
        assert(chunk == sample_chunk(*ray, k as int));
        match self.chunk_map().get(chunk) {
            Some(d) => {
                if d.is_empty() {
                    return None;
                }
            },
            None => {
                return None;
            },
        }
        let v = IVec3 { x: cx as i32, y: cy as i32, z: cz as i32 };
        assert(v == sample_voxel(*ray, k as int));
        let voxel = self.get_voxel(v);
        if !voxel.is_solid() {
            return None;
        }
        let n0 = hit_normal(ray, v);
        let (p, n, value) = self.refine_hit(ray, v, n0, voxel);
        if filter.call(p, value) {
            Some(VoxelRaycastResult { position: p, normal: Some(n), voxel: value })
        } else {
            None
        }
    }

    /// The stepped cast: samples the ray at parameters `k / 100` below
    /// `max_distance`, so at steps of one hundredth of `direction / scale`, skipping samples in chunks that are not loaded or
    /// flagged empty, and reports the first solid sample, refined toward
    /// the ray and accepted by `filter`. It can miss a feature thinner than
    /// the step.
    pub fn old_raycast<F: FilterFn>(&self, ray: &Ray, filter: &F, max_distance: u32) -> (r: Option<
        VoxelRaycastResult,
    >)
        requires
            self.wf(),
            ray.wf(),
        ensures
            r == march(*self, *filter, *ray, 0, 100 * max_distance),
    {
        let count: i64 = STEPS_PER_UNIT * max_distance as i64;
        let mut k: i64 = 0;
        while k < count
            invariant
                self.wf(),
                ray.wf(),
                count == 100 * max_distance,
                0 <= k <= count,
                march(*self, *filter, *ray, k as int, count as int) == march(
                    *self,
                    *filter,
                    *ray,
                    0,
                    count as int,
                ),
            decreases count - k,
        {
            if let Some(hit) = self.sample_hit_exec(ray, filter, k) {
                return Some(hit);
            }
            k += 1;
        }
        None
    }
}

/// A reusable stepped cast over one world, up to a fixed parameter distance.
pub struct SteppedRaycaster<'a> {
    pub world: &'a VoxelWorld,
    pub max_distance: u32,
}

impl<'a> SteppedRaycaster<'a> {
    /// The same cast as `VoxelWorld::old_raycast` on the held world.
    pub fn cast<F: FilterFn>(&self, ray: &Ray, filter: &F) -> (r: Option<VoxelRaycastResult>)
        requires
            self.world.wf(),
            ray.wf(),
        ensures
            r == march(*self.world, *filter, *ray, 0, 100 * self.max_distance),
    {
        self.world.old_raycast(ray, filter, self.max_distance)
    }
}

impl VoxelWorld {
    /// A reusable stepped cast over this world.
    pub fn old_raycast_fn(&self, max_distance: u32) -> (r: SteppedRaycaster<'_>)
        ensures
            *r.world == *self,
            r.max_distance == max_distance,
    {
        SteppedRaycaster { world: self, max_distance }
    }
}

proof fn lemma_refine_solid(
    w: VoxelWorld,
    ray: Ray,
    v: IVec3,
    n: IVec3,
    voxel: WorldVoxel,
    done: nat,
)
    requires
        done <= 3,
        voxel == w.voxel_at(v),
        voxel.is_solid_spec(),
    ensures
        refine(w, ray, v, n, voxel, done).2 == w.voxel_at(refine(w, ray, v, n, voxel, done).0),
        refine(w, ray, v, n, voxel, done).2.is_solid_spec(),
    decreases 3 - done,
{
    if done < 3 && moved(v, n) is Some && w.voxel_at(moved(v, n).unwrap()).is_solid_spec() {
        let a = moved(v, n).unwrap();
        let n2 = if ray_meets_cube(ray, a) {
            entry_normal(ray, a)
        } else {
            n
        };
        lemma_refine_solid(w, ray, a, n2, w.voxel_at(a), done + 1);
    }
}

proof fn lemma_march_sound<F: FilterFn>(w: VoxelWorld, f: F, ray: Ray, k: int, count: int)
    ensures
        march(w, f, ray, k, count) matches Some(h) ==> h.voxel == w.voxel_at(h.position)
            && h.voxel.is_solid_spec() && f.accepts(h.position, h.voxel),
    decreases count - k,
{
    if k < count {
        if sample_hit(w, f, ray, k) is Some {
            let v = sample_voxel(ray, k);
            lemma_refine_solid(w, ray, v, entry_normal(ray, v), w.voxel_at(v), 0);
        } else {
            lemma_march_sound(w, f, ray, k + 1, count);
        }
    }
}

proof fn lemma_dda_sound<F: FilterFn>(
    w: VoxelWorld,
    f: F,
    ray: Ray,
    b: VoxelAabb,
    c: I64Vec3,
    face: Option<IVec3>,
)
    ensures
        dda_walk(w, f, ray, b, c, face) matches Some(h) ==> h.voxel == w.voxel_at(h.position)
            && h.voxel.is_solid_spec() && f.accepts(h.position, h.voxel),
    decreases steps_left(ray, b, c),
{
    let (n, nf) = step_cell(ray, c);
    if 0 <= steps_left(ray, b, n) < steps_left(ray, b, c) {
        lemma_dda_sound(w, f, ray, b, n, Some(nf));
    }
}

/// Both casts hold a candidate to the same test: whatever either reports is
/// a solid voxel of the world, with the world's value there, that the
/// filter accepts.
pub proof fn lemma_casts_report_accepted_solids<F: FilterFn>(
    w: VoxelWorld,
    f: F,
    ray: Ray,
    b: VoxelAabb,
    max_distance: u32,
)
    ensures
        dda_cast(w, f, ray, b) matches Some(h) ==> h.voxel == w.voxel_at(h.position)
            && h.voxel.is_solid_spec() && f.accepts(h.position, h.voxel),
        march(w, f, ray, 0, 100 * max_distance) matches Some(h) ==> h.voxel == w.voxel_at(
            h.position,
        ) && h.voxel.is_solid_spec() && f.accepts(h.position, h.voxel),
{
    if let Some((c, face)) = entry_start(ray, b) {
        lemma_dda_sound(w, f, ray, b, c, face);
    }
    lemma_march_sound(w, f, ray, 0, 100 * max_distance as int);
}

proof fn lemma_cross_le(e: int, x: int, a: int, b: int)
    requires
        e <= 0,
        x >= 0,
        a >= 0,
        b >= 0,
    ensures
        e * a <= x * b,
{
    assert(e * a <= 0 && 0 <= x * b) by (nonlinear_arith)
        requires
            e <= 0,
            x >= 0,
            a >= 0,
            b >= 0,
    ;
}

proof fn lemma_cross_shift(e: int, x: int, s: int, a: int, b: int)
    requires
        e * a <= x * b,
        s >= 0,
        b >= 0,
    ensures
        e * a <= (x + s) * b,
{
    assert((x + s) * b == x * b + s * b && s * b >= 0) by (nonlinear_arith)
        requires
            s >= 0,
            b >= 0,
    ;
}

/// `a / da <= b / db` and `b / db < c / dc` give `a / da < c / dc`, for
/// positive denominators, in cross-multiplied form.
proof fn lemma_cross_trans(a: int, da: int, b: int, db: int, c: int, dc: int)
    requires
        da > 0,
        db > 0,
        dc > 0,
        a * db <= b * da,
        b * dc < c * db,
    ensures
        a * dc < c * da,
{
    assert(a * db * dc <= b * da * dc) by (nonlinear_arith)
        requires
            a * db <= b * da,
            dc > 0,
    ;
    assert(b * dc * da < c * db * da) by (nonlinear_arith)
        requires
            b * dc < c * db,
            da > 0,
    ;
    assert(a * dc * db < c * da * db) by (nonlinear_arith)
        requires
            a * db * dc <= b * da * dc,
            b * dc * da < c * db * da,
    ;
    assert(a * dc < c * da) by (nonlinear_arith)
        requires
            a * dc * db < c * da * db,
            db > 0,
    ;
}

proof fn lemma_axis_step(c: int, o: int, d: int, s: int)
    requires
        d != 0,
    ensures
        enter_time(c + sign(d), o, d, s) == exit_time(c, o, d, s),
        exit_time(c + sign(d), o, d, s) == exit_time(c, o, d, s) + s,
{
    assert((c + 1 + 1) * s == (c + 1) * s + s && (c - 1) * s == c * s - s) by (nonlinear_arith);
}

/// The axis that the walk crosses next is crossed no later than any other.
proof fn lemma_next_axis_first(ray: Ray, c: I64Vec3)
    requires
        ray.wf(),
    ensures
        ({
            let s = ray.scale as int;
            let (dx, dy, dz) = (ray.direction.x as int, ray.direction.y as int, ray.direction.z as int);
            let tx = exit_time(c.x as int, ray.origin.x as int, dx, s);
            let ty = exit_time(c.y as int, ray.origin.y as int, dy, s);
            let tz = exit_time(c.z as int, ray.origin.z as int, dz, s);
            let a = next_axis(ray, c);
            &&& a == 0 ==> dx != 0 && no_later(tx, dx, ty, dy) && no_later(tx, dx, tz, dz)
            &&& a == 1 ==> dy != 0 && no_later(ty, dy, tx, dx) && no_later(ty, dy, tz, dz)
            &&& a == 2 ==> dz != 0 && no_later(tz, dz, tx, dx) && no_later(tz, dz, ty, dy)
        }),
{
    let s = ray.scale as int;
    let (dx, dy, dz) = (ray.direction.x as int, ray.direction.y as int, ray.direction.z as int);
    let tx = exit_time(c.x as int, ray.origin.x as int, dx, s);
    let ty = exit_time(c.y as int, ray.origin.y as int, dy, s);
    let tz = exit_time(c.z as int, ray.origin.z as int, dz, s);
    let a = next_axis(ray, c);
    if a == 1 && dx != 0 && !no_later(tx, dx, tz, dz) && no_later(tx, dx, ty, dy) {
        lemma_cross_trans(ty, abs(dy), tz, abs(dz), tx, abs(dx));
    }
    if a == 2 && dx != 0 && dy != 0 && no_later(tx, dx, tz, dz) {
        lemma_cross_trans(tz, abs(dz), ty, abs(dy), tx, abs(dx));
    }
}

/// The cell holding the ray's origin is met by the ray.
pub proof fn lemma_start_cell_meets_ray(ray: Ray)
    requires
        ray.wf(),
    ensures
        ray_meets_cell(ray, start_cell(ray).x as int, start_cell(ray).y as int, start_cell(ray).z as int),
{
    let s = ray.scale as int;
    let c = start_cell(ray);
    lemma_fundamental_div_mod(ray.origin.x as int, s);
    lemma_fundamental_div_mod(ray.origin.y as int, s);
    lemma_fundamental_div_mod(ray.origin.z as int, s);
    let (ox, oy, oz) = (ray.origin.x as int, ray.origin.y as int, ray.origin.z as int);
    let (dx, dy, dz) = (ray.direction.x as int, ray.direction.y as int, ray.direction.z as int);
    let (cx, cy, cz) = (ox / s, oy / s, oz / s);
    assert(cx * s <= ox < (cx + 1) * s && cy * s <= oy < (cy + 1) * s && cz * s <= oz < (cz + 1)
        * s) by (nonlinear_arith)
        requires
            ox == s * cx + ox % s,
            oy == s * cy + oy % s,
            oz == s * cz + oz % s,
            0 <= ox % s < s,
            0 <= oy % s < s,
            0 <= oz % s < s,
    ;
    assert(-ORIGIN_LIMIT <= cx <= ORIGIN_LIMIT && -ORIGIN_LIMIT <= cy <= ORIGIN_LIMIT
        && -ORIGIN_LIMIT <= cz <= ORIGIN_LIMIT) by (nonlinear_arith)
        requires
            cx * s <= ox < (cx + 1) * s,
            cy * s <= oy < (cy + 1) * s,
            cz * s <= oz < (cz + 1) * s,
            1 <= s,
            -ORIGIN_LIMIT <= ox <= ORIGIN_LIMIT,
            -ORIGIN_LIMIT <= oy <= ORIGIN_LIMIT,
            -ORIGIN_LIMIT <= oz <= ORIGIN_LIMIT,
    ;
    assert(c.x as int == cx && c.y as int == cy && c.z as int == cz);
    let (ex, ey, ez) = (enter_time(cx, ox, dx, s), enter_time(cy, oy, dy, s), enter_time(cz, oz, dz, s));
    let (xx, xy, xz) = (exit_time(cx, ox, dx, s), exit_time(cy, oy, dy, s), exit_time(cz, oz, dz, s));
    assert(ex <= 0 && ey <= 0 && ez <= 0 && xx >= 0 && xy >= 0 && xz >= 0);
    lemma_cross_le(ex, xy, abs(dy), abs(dx));
    lemma_cross_le(ex, xz, abs(dz), abs(dx));
    lemma_cross_le(ey, xx, abs(dx), abs(dy));
    lemma_cross_le(ey, xz, abs(dz), abs(dy));
    lemma_cross_le(ez, xx, abs(dx), abs(dz));
    lemma_cross_le(ez, xy, abs(dy), abs(dz));
}

/// A step of the walk keeps it on cells that the ray meets.
pub proof fn lemma_step_meets_ray(ray: Ray, c: I64Vec3)
    requires
        ray.wf(),
        -ORIGIN_LIMIT <= c.x <= ORIGIN_LIMIT,
        -ORIGIN_LIMIT <= c.y <= ORIGIN_LIMIT,
        -ORIGIN_LIMIT <= c.z <= ORIGIN_LIMIT,
        ray_meets_cell(ray, c.x as int, c.y as int, c.z as int),
    ensures
        ray_meets_cell(
            ray,
            step_cell(ray, c).0.x as int,
            step_cell(ray, c).0.y as int,
            step_cell(ray, c).0.z as int,
        ),
{
    let s = ray.scale as int;
    let (ox, oy, oz) = (ray.origin.x as int, ray.origin.y as int, ray.origin.z as int);
    let (dx, dy, dz) = (ray.direction.x as int, ray.direction.y as int, ray.direction.z as int);
    let (cx, cy, cz) = (c.x as int, c.y as int, c.z as int);
    let (ex, ey, ez) = (enter_time(cx, ox, dx, s), enter_time(cy, oy, dy, s), enter_time(cz, oz, dz, s));
    let (xx, xy, xz) = (exit_time(cx, ox, dx, s), exit_time(cy, oy, dy, s), exit_time(cz, oz, dz, s));
    lemma_next_axis_first(ray, c);
    let a = next_axis(ray, c);
    if a == 0 {
        lemma_axis_step(cx, ox, dx, s);
        if dy != 0 {
            lemma_cross_shift(ey, xx, s, abs(dx), abs(dy));
        }
        if dz != 0 {
            lemma_cross_shift(ez, xx, s, abs(dx), abs(dz));
        }
    } else if a == 1 {
        lemma_axis_step(cy, oy, dy, s);
        if dx != 0 {
            lemma_cross_shift(ex, xy, s, abs(dy), abs(dx));
        }
        if dz != 0 {
            lemma_cross_shift(ez, xy, s, abs(dy), abs(dz));
        }
    } else {
        lemma_axis_step(cz, oz, dz, s);
        if dx != 0 {
            lemma_cross_shift(ex, xz, s, abs(dz), abs(dx));
        }
        if dy != 0 {
            lemma_cross_shift(ey, xz, s, abs(dz), abs(dy));
        }
    }
}

proof fn lemma_walk_on_ray<F: FilterFn>(
    w: VoxelWorld,
    f: F,
    ray: Ray,
    b: VoxelAabb,
    c: I64Vec3,
    face: Option<IVec3>,
)
    requires
        ray.wf(),
        b.in_cell_range(),
        -ORIGIN_LIMIT <= c.x <= ORIGIN_LIMIT,
        -ORIGIN_LIMIT <= c.y <= ORIGIN_LIMIT,
        -ORIGIN_LIMIT <= c.z <= ORIGIN_LIMIT,
        ray_meets_cell(ray, c.x as int, c.y as int, c.z as int),
    ensures
        dda_walk(w, f, ray, b, c, face) matches Some(h) ==> ray_meets_cube(ray, h.position),
    decreases steps_left(ray, b, c),
{
    if !walk_done(ray, b, c) && steps_left(ray, b, c) > 0 {
        if hit_at(w, f, b, c, face) is Some {
            assert(cell_pos(c).x == c.x && cell_pos(c).y == c.y && cell_pos(c).z == c.z);
        } else {
            let (n, nf) = step_cell(ray, c);
            if 0 <= steps_left(ray, b, n) < steps_left(ray, b, c) {
                lemma_step_meets_ray(ray, c);
                lemma_walk_on_ray(w, f, ray, b, n, Some(nf));
            }
        }
    }
}

/// On an axis, the point at parameter `tn / td` lies in the closed extent
/// of cell coordinate `c`, given in cross-multiplied form.
pub open spec fn brackets(c: int, o: int, d: int, s: int, tn: int, td: int) -> bool {
    c * (s * td) <= o * td + tn * d <= (c + 1) * (s * td)
}

proof fn lemma_bracket_times(c: int, o: int, d: int, s: int, tn: int, td: int)
    requires
        d != 0,
        td >= 1,
        s >= 1,
        brackets(c, o, d, s, tn, td),
    ensures
        enter_time(c, o, d, s) * td <= tn * abs(d) <= exit_time(c, o, d, s) * td,
{
    assert(enter_time(c, o, d, s) * td <= tn * abs(d) <= exit_time(c, o, d, s) * td)
        by (nonlinear_arith)
        requires
            d != 0,
            c * (s * td) <= o * td + tn * d <= (c + 1) * (s * td),
            enter_time(c, o, d, s) == if d > 0 { c * s - o } else { o - (c + 1) * s },
            exit_time(c, o, d, s) == if d > 0 { (c + 1) * s - o } else { o - c * s },
            abs(d) == if d < 0 { -d } else { d },
    ;
}

proof fn lemma_coord_brackets(o: int, d: int, s: int, tn: int, td: int)
    requires
        s >= 1,
        td >= 1,
    ensures
        brackets(coord_at(o, d, s, tn, td), o, d, s, tn, td),
        o * td + tn * d < (coord_at(o, d, s, tn, td) + 1) * (s * td),
{
    let m = s * td;
    assert(m >= 1) by (nonlinear_arith)
        requires
            m == s * td,
            s >= 1,
            td >= 1,
    ;
    let n = o * td + tn * d;
    lemma_fundamental_div_mod(n, m);
    vstd::arithmetic::div_mod::lemma_mod_bound(n, m);
    let q = n / m;
    assert((q + 1) * m == q * m + m && m * q == q * m) by (nonlinear_arith);
}

proof fn lemma_still_slab(c: int, o: int, s: int, tn: int, td: int)
    requires
        s >= 1,
        td >= 1,
        brackets(c, o, 0, s, tn, td),
        o * td + tn * 0 < (c + 1) * (s * td),
    ensures
        c * s <= o < (c + 1) * s,
{
    assert(c * s <= o < (c + 1) * s) by (nonlinear_arith)
        requires
            td >= 1,
            c * (s * td) <= o * td,
            o * td < (c + 1) * (s * td),
    ;
}

proof fn lemma_cross_via(e: int, di: int, x: int, dj: int, tn: int, td: int)
    requires
        td >= 1,
        di >= 0,
        dj >= 0,
        e * td <= tn * di,
        tn * dj <= x * td,
    ensures
        e * dj <= x * di,
{
    assert(e * dj <= x * di) by (nonlinear_arith)
        requires
            td >= 1,
            di >= 0,
            dj >= 0,
            e * td <= tn * di,
            tn * dj <= x * td,
    ;
}

/// The cell where the walk enters the loaded box is met by the ray.
pub proof fn lemma_entry_cell_meets_ray(ray: Ray, b: VoxelAabb)
    requires
        ray.wf(),
        b.in_cell_range(),
    ensures
        entry_start(ray, b) matches Some((c, _)) ==> ray_meets_cell(
            ray,
            c.x as int,
            c.y as int,
            c.z as int,
        ),
{
    let c0 = start_cell(ray);
    let (tn, td) = entry_time(ray, b);
    lemma_start_cell_meets_ray(ray);
    if b.holds_cell(c0.x as int, c0.y as int, c0.z as int) || tn <= 0 {
        return;
    }
    if entry_start(ray, b) is None {
        return;
    }
    let s = ray.scale as int;
    let (ox, oy, oz) = (ray.origin.x as int, ray.origin.y as int, ray.origin.z as int);
    let (dx, dy, dz) = (ray.direction.x as int, ray.direction.y as int, ray.direction.z as int);
    let a = entry_axis(ray, b);
    let c = entry_start(ray, b).unwrap().0;
    let (cx, cy, cz) = (c.x as int, c.y as int, c.z as int);
    assert(td >= 1);
    assert(cx == if a == 0 { inner_cell(dx, b.min_x as int, b.max_x as int) } else { coord_at(ox, dx, s, tn, td) });
    assert(cy == if a == 1 { inner_cell(dy, b.min_y as int, b.max_y as int) } else { coord_at(oy, dy, s, tn, td) });
    assert(cz == if a == 2 { inner_cell(dz, b.min_z as int, b.max_z as int) } else { coord_at(oz, dz, s, tn, td) });
    // the entry axis
    if a == 0 {
        assert(cx == inner_cell(dx, b.min_x as int, b.max_x as int));
        assert(brackets(cx, ox, dx, s, tn, td)) by (nonlinear_arith)
            requires
                dx != 0,
                td == abs(dx),
                tn == slab_enter(ox, dx, s, b.min_x as int, b.max_x as int),
                cx == inner_cell(dx, b.min_x as int, b.max_x as int),
                s >= 1,
        ;
    } else {
        lemma_coord_brackets(ox, dx, s, tn, td);
    }
    if a == 1 {
        assert(brackets(cy, oy, dy, s, tn, td)) by (nonlinear_arith)
            requires
                dy != 0,
                td == abs(dy),
                tn == slab_enter(oy, dy, s, b.min_y as int, b.max_y as int),
                cy == inner_cell(dy, b.min_y as int, b.max_y as int),
                s >= 1,
        ;
    } else {
        lemma_coord_brackets(oy, dy, s, tn, td);
    }
    if a == 2 {
        assert(brackets(cz, oz, dz, s, tn, td)) by (nonlinear_arith)
            requires
                dz != 0,
                td == abs(dz),
                tn == slab_enter(oz, dz, s, b.min_z as int, b.max_z as int),
                cz == inner_cell(dz, b.min_z as int, b.max_z as int),
                s >= 1,
        ;
    } else {
        lemma_coord_brackets(oz, dz, s, tn, td);
    }
    let (ex, ey, ez) = (enter_time(cx, ox, dx, s), enter_time(cy, oy, dy, s), enter_time(cz, oz, dz, s));
    let (xx, xy, xz) = (exit_time(cx, ox, dx, s), exit_time(cy, oy, dy, s), exit_time(cz, oz, dz, s));
    if dx != 0 {
        lemma_bracket_times(cx, ox, dx, s, tn, td);
    } else {
        lemma_still_slab(cx, ox, s, tn, td);
    }
    if dy != 0 {
        lemma_bracket_times(cy, oy, dy, s, tn, td);
    } else {
        lemma_still_slab(cy, oy, s, tn, td);
    }
    if dz != 0 {
        lemma_bracket_times(cz, oz, dz, s, tn, td);
    } else {
        lemma_still_slab(cz, oz, s, tn, td);
    }
    if dx != 0 && dy != 0 {
        lemma_cross_via(ex, abs(dx), xy, abs(dy), tn, td);
        lemma_cross_via(ey, abs(dy), xx, abs(dx), tn, td);
    }
    if dx != 0 && dz != 0 {
        lemma_cross_via(ex, abs(dx), xz, abs(dz), tn, td);
        lemma_cross_via(ez, abs(dz), xx, abs(dx), tn, td);
    }
    if dy != 0 && dz != 0 {
        lemma_cross_via(ey, abs(dy), xz, abs(dz), tn, td);
        lemma_cross_via(ez, abs(dz), xy, abs(dy), tn, td);
    }
    assert(tn * abs(dx) >= 0 && tn * abs(dy) >= 0 && tn * abs(dz) >= 0) by (nonlinear_arith)
        requires
            tn > 0,
    ;
    assert((dx == 0 || xx >= 0) && (dy == 0 || xy >= 0) && (dz == 0 || xz >= 0)) by (nonlinear_arith)
        requires
            td >= 1,
            dx != 0 ==> tn * abs(dx) <= xx * td,
            dy != 0 ==> tn * abs(dy) <= xy * td,
            dz != 0 ==> tn * abs(dz) <= xz * td,
            tn * abs(dx) >= 0 && tn * abs(dy) >= 0 && tn * abs(dz) >= 0,
    ;
    assert(slab_holds(cx, ox, dx, s) && slab_holds(cy, oy, dy, s) && slab_holds(cz, oz, dz, s));
    assert(enters_before(ex, dx, xy, dy) && enters_before(ex, dx, xz, dz));
    assert(enters_before(ey, dy, xx, dx) && enters_before(ey, dy, xz, dz));
    assert(enters_before(ez, dz, xx, dx) && enters_before(ez, dz, xy, dy));
    assert(ray_meets_cell(ray, cx, cy, cz));
}

/// The DDA cast is exact: the voxel it reports is one that the ray itself
/// passes through, never a neighbour of the ray's path.
pub proof fn lemma_dda_hit_on_ray<F: FilterFn>(w: VoxelWorld, f: F, ray: Ray, b: VoxelAabb)
    requires
        ray.wf(),
        b.in_cell_range(),
    ensures
        dda_cast(w, f, ray, b) matches Some(h) ==> ray_meets_cube(ray, h.position),
{
    lemma_entry_cell_meets_ray(ray, b);
    if let Some((c, face)) = entry_start(ray, b) {
        if c == start_cell(ray) {
            lemma_start_cell_bounded(ray);
        }
        lemma_walk_on_ray(w, f, ray, b, c, face);
    }
}

proof fn lemma_start_cell_bounded(ray: Ray)
    requires
        ray.wf(),
    ensures
        -ORIGIN_LIMIT <= start_cell(ray).x <= ORIGIN_LIMIT,
        -ORIGIN_LIMIT <= start_cell(ray).y <= ORIGIN_LIMIT,
        -ORIGIN_LIMIT <= start_cell(ray).z <= ORIGIN_LIMIT,
{
    lemma_fundamental_div_mod(ray.origin.x as int, ray.scale as int);
    lemma_fundamental_div_mod(ray.origin.y as int, ray.scale as int);
    lemma_fundamental_div_mod(ray.origin.z as int, ray.scale as int);
    let s = ray.scale as int;
    let (ox, oy, oz) = (ray.origin.x as int, ray.origin.y as int, ray.origin.z as int);
    assert(-ORIGIN_LIMIT <= ox / s <= ORIGIN_LIMIT && -ORIGIN_LIMIT <= oy / s <= ORIGIN_LIMIT
        && -ORIGIN_LIMIT <= oz / s <= ORIGIN_LIMIT) by (nonlinear_arith)
        requires
            ox == s * (ox / s) + ox % s,
            oy == s * (oy / s) + oy % s,
            oz == s * (oz / s) + oz % s,
            0 <= ox % s < s,
            0 <= oy % s < s,
            0 <= oz % s < s,
            1 <= s,
            -ORIGIN_LIMIT <= ox <= ORIGIN_LIMIT,
            -ORIGIN_LIMIT <= oy <= ORIGIN_LIMIT,
            -ORIGIN_LIMIT <= oz <= ORIGIN_LIMIT,
    ;
}

/// Whether sample `k` falls in a loaded chunk that is not flagged empty.
pub open spec fn sample_in_live_chunk(w: VoxelWorld, ray: Ray, k: int) -> bool {
    sample_on_grid(ray, k) && (w.chunks().chunk_at(sample_chunk(ray, k)) matches Some(d)
        && !d.empty_flag())
}

/// The stepped cast skips chunks that are absent or flagged empty: when no
/// sample falls in any other chunk it reports nothing, whatever the write
/// buffer or the overlay hold.
pub proof fn lemma_stepped_skips_dead_chunks<F: FilterFn>(
    w: VoxelWorld,
    f: F,
    ray: Ray,
    k: int,
    count: int,
)
    requires
        forall|j: int| k <= j < count ==> !#[trigger] sample_in_live_chunk(w, ray, j),
    ensures
        march(w, f, ray, k, count) is None,
    decreases count - k,
{
    if k < count {
        assert(!sample_in_live_chunk(w, ray, k));
        lemma_stepped_skips_dead_chunks(w, f, ray, k + 1, count);
    }
}

/// With no chunk loaded, the stepped cast reports nothing.
pub proof fn lemma_stepped_empty_world<F: FilterFn>(w: VoxelWorld, f: F, ray: Ray, max_distance: u32)
    requires
        w.chunks().is_vacant(),
    ensures
        march(w, f, ray, 0, 100 * max_distance) is None,
{
    assert forall|j: int| 0 <= j < 100 * max_distance implies !#[trigger] sample_in_live_chunk(
        w,
        ray,
        j,
    ) by {
        assert(w.chunks().chunk_at(sample_chunk(ray, j)) is None);
    }
    lemma_stepped_skips_dead_chunks(w, f, ray, 0, 100 * max_distance as int);
}

/// The walk advances in ray order through shared faces: it leaves a cell
/// on the axis whose boundary the ray crosses first, moves one cell along
/// that axis only, and enters the next cell at the very parameter at which
/// it left the current one.
pub proof fn lemma_walk_in_ray_order(ray: Ray, c: I64Vec3)
    requires
        ray.wf(),
        -ORIGIN_LIMIT <= c.x <= ORIGIN_LIMIT,
        -ORIGIN_LIMIT <= c.y <= ORIGIN_LIMIT,
        -ORIGIN_LIMIT <= c.z <= ORIGIN_LIMIT,
    ensures
        ({
            let s = ray.scale as int;
            let (ox, oy, oz) = (ray.origin.x as int, ray.origin.y as int, ray.origin.z as int);
            let (dx, dy, dz) = (ray.direction.x as int, ray.direction.y as int, ray.direction.z as int);
            let (tx, ty, tz) = (
                exit_time(c.x as int, ox, dx, s),
                exit_time(c.y as int, oy, dy, s),
                exit_time(c.z as int, oz, dz, s),
            );
            let n = step_cell(ray, c).0;
            let a = next_axis(ray, c);
            &&& a == 0 ==> dx != 0 && no_later(tx, dx, ty, dy) && no_later(tx, dx, tz, dz)
                && n == (I64Vec3 { x: (c.x + sign(dx)) as i64, ..c }) && enter_time(
                n.x as int,
                ox,
                dx,
                s,
            ) == tx
            &&& a == 1 ==> dy != 0 && no_later(ty, dy, tx, dx) && no_later(ty, dy, tz, dz)
                && n == (I64Vec3 { y: (c.y + sign(dy)) as i64, ..c }) && enter_time(
                n.y as int,
                oy,
                dy,
                s,
            ) == ty
            &&& a == 2 ==> dz != 0 && no_later(tz, dz, tx, dx) && no_later(tz, dz, ty, dy)
                && n == (I64Vec3 { z: (c.z + sign(dz)) as i64, ..c }) && enter_time(
                n.z as int,
                oz,
                dz,
                s,
            ) == tz
        }),
{
    lemma_next_axis_first(ray, c);
    let s = ray.scale as int;
    let a = next_axis(ray, c);
    if a == 0 {
        lemma_axis_step(c.x as int, ray.origin.x as int, ray.direction.x as int, s);
    } else if a == 1 {
        lemma_axis_step(c.y as int, ray.origin.y as int, ray.direction.y as int, s);
    } else {
        lemma_axis_step(c.z as int, ray.origin.z as int, ray.direction.z as int, s);
    }
}

} // verus!
