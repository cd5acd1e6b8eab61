use vstd::prelude::*;
use vstd::arithmetic::div_mod::lemma_fundamental_div_mod;
use crate::chunk_map::VoxelAabb;
use crate::marching::{no_earlier, no_earlier_exec};
use crate::raycast::{origin_cell, sign, sign_exec, start_cell, I64Vec3, Ray, DIRECTION_LIMIT, ORIGIN_LIMIT};
use crate::voxel::IVec3;

verus! {

/// The ray parameter at which the ray enters the slab `[lo, hi)` of one
/// axis, times `|d|`, for a moving axis.
pub open spec fn slab_enter(o: int, d: int, s: int, lo: int, hi: int) -> int {
    if d > 0 {
        lo * s - o
    } else {
        o - hi * s
    }
}

/// The axis (0, 1 or 2) whose slab of `b` the ray enters last; ties go to
/// x, then y.
pub open spec fn entry_axis(ray: Ray, b: VoxelAabb) -> int {
    let s = ray.scale as int;
    let (dx, dy, dz) = (ray.direction.x as int, ray.direction.y as int, ray.direction.z as int);
    let tx = slab_enter(ray.origin.x as int, dx, s, b.min_x as int, b.max_x as int);
    let ty = slab_enter(ray.origin.y as int, dy, s, b.min_y as int, b.max_y as int);
    let tz = slab_enter(ray.origin.z as int, dz, s, b.min_z as int, b.max_z as int);
    if dx != 0 && no_earlier(tx, dx, ty, dy) && no_earlier(tx, dx, tz, dz) {
        0
    } else if dy != 0 && no_earlier(ty, dy, tz, dz) {
        1
    } else {
        2
    }
}

/// The parameter at which the ray enters box `b`, as a numerator over the
/// entry axis's `|d|`, and that denominator.
pub open spec fn entry_time(ray: Ray, b: VoxelAabb) -> (int, int) {
    let s = ray.scale as int;
    let a = entry_axis(ray, b);
    if a == 0 {
        (slab_enter(ray.origin.x as int, ray.direction.x as int, s, b.min_x as int, b.max_x as int), abs_of(ray.direction.x as int))
    } else if a == 1 {
        (slab_enter(ray.origin.y as int, ray.direction.y as int, s, b.min_y as int, b.max_y as int), abs_of(ray.direction.y as int))
    } else {
        (slab_enter(ray.origin.z as int, ray.direction.z as int, s, b.min_z as int, b.max_z as int), abs_of(ray.direction.z as int))
    }
}

pub open spec fn abs_of(d: int) -> int {
    if d < 0 {
        -d
    } else {
        d
    }
}

/// The cell coordinate, on one axis, of the ray's point at parameter
/// `tn / td`.
pub open spec fn coord_at(o: int, d: int, s: int, tn: int, td: int) -> int {
    (o * td + tn * d) / (s * td)
}

/// The cell, on the entry axis, just inside the box.
pub open spec fn inner_cell(d: int, lo: int, hi: int) -> int {
    if d > 0 {
        lo
    } else {
        hi - 1
    }
}

/// Whether every coordinate of `c` lies within one cell of the box.
pub open spec fn near_box(b: VoxelAabb, c: I64Vec3) -> bool {
    &&& b.min_x - 1 <= c.x <= b.max_x
    &&& b.min_y - 1 <= c.y <= b.max_y
    &&& b.min_z - 1 <= c.z <= b.max_z
}

/// Where the walk over box `b` starts, and the face entered there: the
/// origin's cell when the origin lies in the box or the ray enters no later
/// than its start; otherwise the cell where the ray enters the box, through
/// the face of the slab entered last. `None` when that entry point lies away
/// from the box, so the ray misses it.
pub open spec fn entry_start(ray: Ray, b: VoxelAabb) -> Option<(I64Vec3, Option<IVec3>)> {
    let c0 = start_cell(ray);
    let (tn, td) = entry_time(ray, b);
    if b.holds_cell(c0.x as int, c0.y as int, c0.z as int) || tn <= 0 {
        Some((c0, None))
    } else {
        let s = ray.scale as int;
        let (ox, oy, oz) = (ray.origin.x as int, ray.origin.y as int, ray.origin.z as int);
        let (dx, dy, dz) = (ray.direction.x as int, ray.direction.y as int, ray.direction.z as int);
        let a = entry_axis(ray, b);
        let cx = if a == 0 { inner_cell(dx, b.min_x as int, b.max_x as int) } else { coord_at(ox, dx, s, tn, td) };
        let cy = if a == 1 { inner_cell(dy, b.min_y as int, b.max_y as int) } else { coord_at(oy, dy, s, tn, td) };
        let cz = if a == 2 { inner_cell(dz, b.min_z as int, b.max_z as int) } else { coord_at(oz, dz, s, tn, td) };
        let c = I64Vec3 { x: cx as i64, y: cy as i64, z: cz as i64 };
        let face = if a == 0 {
            IVec3 { x: -sign(dx) as i32, y: 0, z: 0 }
        } else if a == 1 {
            IVec3 { x: 0, y: -sign(dy) as i32, z: 0 }
        } else {
            IVec3 { x: 0, y: 0, z: -sign(dz) as i32 }
        };
        if b.min_x - 1 <= cx <= b.max_x && b.min_y - 1 <= cy <= b.max_y && b.min_z - 1 <= cz <= b.max_z {
            Some((c, Some(face)))
        } else {
            None
        }
    }
}

fn floor_div_big(n: i128, m: i128) -> (r: i128)
    requires
        -0x10_0000_0000_0000_0000_0000 <= n <= 0x10_0000_0000_0000_0000_0000,
        1 <= m <= 0x100_0000_0000,
    ensures
        r as int == n as int / m as int,
{
    proof {
        lemma_fundamental_div_mod(n as int, m as int);
    }
    if n >= 0 {
        (n as u128 / m as u128) as i128
    } else {
        let q = ((-n) as u128 + (m - 1) as u128) / m as u128;
        proof {
            let qq = q as int;
            let x = -n + m - 1;
            assert(qq == x / (m as int));
            lemma_fundamental_div_mod(x, m as int);
            vstd::arithmetic::div_mod::lemma_mod_pos_bound(x, m as int);
            assert(0 <= n + m * qq < m);
            assert((-qq) * m == -(m * qq)) by (nonlinear_arith);
            vstd::arithmetic::div_mod::lemma_fundamental_div_mod_converse(n as int, m as int, -qq, n + m * qq);
        }
        -(q as i128)
    }
}

fn slab_enter_exec(o: i64, d: i64, s: i64, lo: i64, hi: i64) -> (r: i128)
    requires
        -ORIGIN_LIMIT <= o <= ORIGIN_LIMIT,
        1 <= s <= DIRECTION_LIMIT,
        -0x8000_0000 <= lo <= 0x8000_0000,
        -0x8000_0000 <= hi <= 0x8000_0000,
    ensures
        r == slab_enter(o as int, d as int, s as int, lo as int, hi as int),
        -0x4000_0000_0000_0000 <= r <= 0x4000_0000_0000_0000,
{
    proof {
        assert(-0x8000_0000 * 0x10_0000 <= lo * s <= 0x8000_0000 * 0x10_0000) by (nonlinear_arith)
            requires -0x8000_0000 <= lo <= 0x8000_0000, 1 <= s <= DIRECTION_LIMIT;
        assert(-0x8000_0000 * 0x10_0000 <= hi * s <= 0x8000_0000 * 0x10_0000) by (nonlinear_arith)
            requires -0x8000_0000 <= hi <= 0x8000_0000, 1 <= s <= DIRECTION_LIMIT;
    }
    if d > 0 {
        lo as i128 * s as i128 - o as i128
    } else {
        o as i128 - hi as i128 * s as i128
    }
}

fn coord_at_exec(o: i64, d: i64, s: i64, tn: i128, td: i128) -> (r: i128)
    requires
        -ORIGIN_LIMIT <= o <= ORIGIN_LIMIT,
        -DIRECTION_LIMIT <= d <= DIRECTION_LIMIT,
        1 <= s <= DIRECTION_LIMIT,
        -0x4000_0000_0000_0000 <= tn <= 0x4000_0000_0000_0000,
        1 <= td <= DIRECTION_LIMIT,
    ensures
        r == coord_at(o as int, d as int, s as int, tn as int, td as int),
{
    proof {
        assert(-0x100_0000_0000 * 0x10_0000 <= o * td <= 0x100_0000_0000 * 0x10_0000) by (nonlinear_arith)
            requires -ORIGIN_LIMIT <= o <= ORIGIN_LIMIT, 1 <= td <= DIRECTION_LIMIT;
        assert(-0x4000_0000_0000_0000 * 0x10_0000 <= tn * d <= 0x4000_0000_0000_0000 * 0x10_0000) by (nonlinear_arith)
            requires -0x4000_0000_0000_0000 <= tn <= 0x4000_0000_0000_0000, -DIRECTION_LIMIT <= d <= DIRECTION_LIMIT;
        assert(1 <= s * td <= 0x10_0000 * 0x10_0000) by (nonlinear_arith)
            requires 1 <= s <= DIRECTION_LIMIT, 1 <= td <= DIRECTION_LIMIT;
    }
    floor_div_big(o as i128 * td + tn * d as i128, s as i128 * td)
}

/// Where the walk over box `b` starts, and the face entered there.
pub fn trace_start(ray: &Ray, b: &VoxelAabb) -> (r: Option<(I64Vec3, Option<IVec3>)>)
    requires
        ray.wf(),
        b.in_cell_range(),
    ensures
        r == entry_start(*ray, *b),
        r matches Some((c, _)) ==> -ORIGIN_LIMIT <= c.x <= ORIGIN_LIMIT && -ORIGIN_LIMIT <= c.y
            <= ORIGIN_LIMIT && -ORIGIN_LIMIT <= c.z <= ORIGIN_LIMIT,
{
    let c0 = origin_cell(ray);
    let s = ray.scale;
    let (ox, oy, oz) = (ray.origin.x, ray.origin.y, ray.origin.z);
    let (dx, dy, dz) = (ray.direction.x, ray.direction.y, ray.direction.z);
    let tx = slab_enter_exec(ox, dx, s, b.min_x, b.max_x);
    let ty = slab_enter_exec(oy, dy, s, b.min_y, b.max_y);
    let tz = slab_enter_exec(oz, dz, s, b.min_z, b.max_z);
    let a: u8 = if dx != 0 && no_earlier_exec(tx, dx, ty, dy) && no_earlier_exec(tx, dx, tz, dz) {
        0
    } else if dy != 0 && no_earlier_exec(ty, dy, tz, dz) {
        1
    } else {
        2
    };
    assert(a as int == entry_axis(*ray, *b));
    let (tn, d_a) = if a == 0 {
        (tx, dx)
    } else if a == 1 {
        (ty, dy)
    } else {
        (tz, dz)
    };
    let td: i128 = if d_a < 0 { -(d_a as i128) } else { d_a as i128 };
    assert((tn as int, td as int) == entry_time(*ray, *b));
    let inside = b.min_x <= c0.x && c0.x < b.max_x && b.min_y <= c0.y && c0.y < b.max_y
        && b.min_z <= c0.z && c0.z < b.max_z;
    if inside || tn <= 0 {
        return Some((c0, None));
    }
    assert(d_a != 0);
    let cx: i128 = if a == 0 {
        if dx > 0 { b.min_x as i128 } else { b.max_x as i128 - 1 }
    } else {
        coord_at_exec(ox, dx, s, tn, td)
    };
    let cy: i128 = if a == 1 {
        if dy > 0 { b.min_y as i128 } else { b.max_y as i128 - 1 }
    } else {
        coord_at_exec(oy, dy, s, tn, td)
    };
    let cz: i128 = if a == 2 {
        if dz > 0 { b.min_z as i128 } else { b.max_z as i128 - 1 }
    } else {
        coord_at_exec(oz, dz, s, tn, td)
    };
    if !(b.min_x as i128 - 1 <= cx && cx <= b.max_x as i128 && b.min_y as i128 - 1 <= cy && cy
        <= b.max_y as i128 && b.min_z as i128 - 1 <= cz && cz <= b.max_z as i128) {
        return None;
    }
    let face = if a == 0 {
        IVec3 { x: -sign_exec(dx) as i32, y: 0, z: 0 }
    } else if a == 1 {
        IVec3 { x: 0, y: -sign_exec(dy) as i32, z: 0 }
    } else {
        IVec3 { x: 0, y: 0, z: -sign_exec(dz) as i32 }
    };
    Some((I64Vec3 { x: cx as i64, y: cy as i64, z: cz as i64 }, Some(face)))
}

} // verus!
