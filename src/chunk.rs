use vstd::prelude::*;
use vstd::arithmetic::div_mod::lemma_fundamental_div_mod_converse;
use crate::voxel::{IVec3, WorldVoxel};

verus! {

/// Edge length of a chunk, in voxels.
pub const CHUNK_SIZE: i32 = 32;
/// Number of voxels held by one chunk.
pub const CHUNK_VOLUME: usize = 32768;

/// Floor division by the chunk edge length.
pub open spec fn chunk_axis(v: int) -> int {
    v / 32
}

/// The chunk that owns voxel position `p`.
pub open spec fn chunk_of(p: IVec3) -> IVec3 {
    IVec3 {
        x: chunk_axis(p.x as int) as i32,
        y: chunk_axis(p.y as int) as i32,
        z: chunk_axis(p.z as int) as i32,
    }
}

/// The position of `p` inside its chunk, each axis in `[0, 32)`.
pub open spec fn local_of(p: IVec3) -> IVec3 {
    IVec3 { x: (p.x % 32) as i32, y: (p.y % 32) as i32, z: (p.z % 32) as i32 }
}

/// Whether `l` is a position inside a chunk.
pub open spec fn is_local(l: IVec3) -> bool {
    0 <= l.x < 32 && 0 <= l.y < 32 && 0 <= l.z < 32
}

/// Whether `c` is the chunk of some voxel position with `i32` coordinates.
pub open spec fn is_chunk_coord(c: IVec3) -> bool {
    -0x400_0000 <= c.x < 0x400_0000 && -0x400_0000 <= c.y < 0x400_0000 && -0x400_0000 <= c.z
        < 0x400_0000
}

/// Index of a local position in a chunk's voxel array.
pub open spec fn local_index(l: IVec3) -> int {
    (l.x * 32 + l.y) * 32 + l.z
}

fn chunk_axis_exec(v: i32) -> (r: (i32, i32))
    ensures
        r.0 as int == chunk_axis(v as int),
        r.1 as int == v as int % 32,
        -0x400_0000 <= r.0 < 0x400_0000,
        0 <= r.1 < 32,
{
    let shifted = (v as i64 + 0x8000_0000) as u64;
    let q = shifted / 32;
    let m = shifted % 32;
    proof {
        lemma_fundamental_div_mod_converse(v as int, 32, q - 0x400_0000, m as int);
    }
    ((q as i64 - 0x400_0000) as i32, m as i32)
}

/// Splits a voxel position into its chunk coordinate and its position
/// inside that chunk.
pub fn chunk_voxel_position(p: IVec3) -> (r: (IVec3, IVec3))
    ensures
        r.0 == chunk_of(p),
        r.1 == local_of(p),
        is_local(r.1),
        is_chunk_coord(r.0),
{
    let (cx, lx) = chunk_axis_exec(p.x);
    let (cy, ly) = chunk_axis_exec(p.y);
    let (cz, lz) = chunk_axis_exec(p.z);
    (IVec3 { x: cx, y: cy, z: cz }, IVec3 { x: lx, y: ly, z: lz })
}

fn local_index_exec(l: IVec3) -> (r: usize)
    requires
        is_local(l),
    ensures
        r as int == local_index(l),
        r < CHUNK_VOLUME,
{
    ((l.x as usize * 32 + l.y as usize) * 32 + l.z as usize)
}

/// The voxels of one chunk.
pub struct ChunkData {
    position: IVec3,
    voxels: Vec<WorldVoxel>,
    is_empty: bool,
}

impl ChunkData {
    /// The chunk coordinate.
    pub closed spec fn pos(&self) -> IVec3 {
        self.position
    }

    /// Every voxel value, indexed by `local_index`.
    pub closed spec fn voxels(&self) -> Seq<WorldVoxel> {
        self.voxels@
    }

    /// The fast-path flag: when set, no voxel of the chunk is solid.
    pub closed spec fn empty_flag(&self) -> bool {
        self.is_empty
    }

    pub open spec fn wf(&self) -> bool {
        &&& is_chunk_coord(self.pos())
        &&& self.voxels().len() == CHUNK_VOLUME
        &&& self.empty_flag() ==> forall|i: int|
            0 <= i < CHUNK_VOLUME ==> !(#[trigger] self.voxels()[i]).is_solid_spec()
    }

    /// The voxel at local position `l`.
    pub open spec fn voxel_at(&self, l: IVec3) -> WorldVoxel {
        self.voxels()[local_index(l)]
    }

    /// A chunk at `position` whose every voxel is `voxel`.
    pub fn filled(position: IVec3, voxel: WorldVoxel) -> (r: ChunkData)
        requires
            is_chunk_coord(position),
        ensures
            r.wf(),
            r.pos() == position,
            forall|l: IVec3| is_local(l) ==> #[trigger] r.voxel_at(l) == voxel,
            r.empty_flag() == !voxel.is_solid_spec(),
    {
        let voxels = vec![voxel; CHUNK_VOLUME];
        let r = ChunkData { position, voxels, is_empty: !voxel.is_solid() };
        assert forall|l: IVec3| is_local(l) implies #[trigger] r.voxel_at(l) == voxel by {
            assert(0 <= local_index(l) < CHUNK_VOLUME) by (nonlinear_arith)
                requires
                    is_local(l),
            ;
        }
        r
    }

    /// The chunk coordinate.
    pub fn position(&self) -> (r: IVec3)
        ensures
            r == self.pos(),
    {
        self.position
    }

    /// Whether the fast-path flag says that no voxel is solid.
    pub fn is_empty(&self) -> (r: bool)
        ensures
            r == self.empty_flag(),
    {
        self.is_empty
    }

    /// The voxel at local position `l`.
    pub fn get_voxel(&self, l: IVec3) -> (r: WorldVoxel)
        requires
            self.wf(),
            is_local(l),
        ensures
            r == self.voxel_at(l),
    {
        self.voxels[local_index_exec(l)]
    }

    /// Stores `v` at local position `l`; the other voxels are kept.
    pub fn set_voxel(&mut self, l: IVec3, v: WorldVoxel)
        requires
            old(self).wf(),
            is_local(l),
        ensures
            final(self).wf(),
            final(self).pos() == old(self).pos(),
            final(self).voxel_at(l) == v,
            forall|m: IVec3|
                is_local(m) && m != l ==> #[trigger] final(self).voxel_at(m) == old(self).voxel_at(
                    m,
                ),
            final(self).empty_flag() == (old(self).empty_flag() && !v.is_solid_spec()),
    {
        let i = local_index_exec(l);
        self.voxels.set(i, v);
        self.is_empty = self.is_empty && !v.is_solid();
        assert forall|m: IVec3| is_local(m) && m != l implies local_index(m) != local_index(l) by {
            assert(local_index(m) != local_index(l)) by (nonlinear_arith)
                requires
                    is_local(m),
                    is_local(l),
                    m != l,
            ;
        }
    }

    /// Whether voxel position `p` lies inside this chunk.
    pub fn encloses(&self, p: IVec3) -> (r: bool)
        requires
            self.wf(),
        ensures
            r == (chunk_of(p) == self.pos()),
    {
        let (c, _) = chunk_voxel_position(p);
        c == self.position
    }
}

} // verus!
