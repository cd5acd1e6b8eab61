use vstd::prelude::*;
use crate::chunk::{chunk_of, chunk_voxel_position, local_of, ChunkData};
use crate::chunk_map::ChunkMap;
use crate::edits::{lookup, lemma_lookup_push, ModifiedVoxels, VoxelWriteBuffer};
use crate::random::random_in_range;
use crate::voxel::{IVec3, WorldVoxel};

verus! {

/// Lowest `y` that the downward surface search still tests.
pub const SURFACE_SEARCH_FLOOR: i32 = -256;
/// Height from which a column search starts.
pub const SURFACE_SEARCH_CEILING: i32 = 256;
/// Number of samples that the random surface search draws before it gives up.
pub const RANDOM_SURFACE_ATTEMPTS: u32 = 100;

/// The composed value at `p`: the oldest pending edit, else the overlay,
/// else the loaded chunk's terrain, else `Unset`.
pub open spec fn resolve(
    buffer: Seq<(IVec3, WorldVoxel)>,
    overlay: ModifiedVoxels,
    chunks: ChunkMap,
    p: IVec3,
) -> WorldVoxel {
    if let Some(v) = lookup(buffer, p) {
        v
    } else if let Some(v) = overlay.value_at(p) {
        v
    } else if let Some(d) = chunks.chunk_at(chunk_of(p)) {
        d.voxel_at(local_of(p))
    } else {
        WorldVoxel::Unset
    }
}

/// The position directly above `p`.
pub open spec fn above(p: IVec3) -> IVec3 {
    IVec3 { x: p.x, y: (p.y + 1) as i32, z: p.z }
}

/// The position directly below `p`.
pub open spec fn below(p: IVec3) -> IVec3 {
    IVec3 { x: p.x, y: (p.y - 1) as i32, z: p.z }
}

/// Whether `p` is solid and the voxel above it is `Unset` or `Air`; at the
/// top of the grid nothing is above, which counts as empty.
pub open spec fn is_surface(w: VoxelWorld, p: IVec3) -> bool {
    w.voxel_at(p).is_solid_spec() && (p.y == i32::MAX || w.voxel_at(above(p)).is_empty_spec())
}

/// The first surface voxel met walking down from `p`, testing `p` itself and
/// then each lower position down to `y = -256`.
pub open spec fn column_surface(w: VoxelWorld, p: IVec3) -> Option<(IVec3, WorldVoxel)>
    decreases p.y + 0x8000_0000,
{
    if is_surface(w, p) {
        Some((p, w.voxel_at(p)))
    } else if p.y <= -256 {
        None
    } else {
        column_surface(w, below(p))
    }
}

/// The surface search from `p`: only a start that is `Unset` or `Air` is
/// searched; any other start gives nothing.
pub open spec fn closest_surface(w: VoxelWorld, p: IVec3) -> Option<(IVec3, WorldVoxel)> {
    if w.voxel_at(p).is_empty_spec() {
        column_surface(w, p)
    } else {
        None
    }
}

/// Whether an offset is inside the upper half ball of the given radius.
pub open spec fn in_upper_hemisphere(radius: int, dx: int, dy: int, dz: int) -> bool {
    dy >= 0 && dx * dx + dy * dy + dz * dz <= radius * radius
}

/// `c` moved by the offset `(dx, dy, dz)`.
pub open spec fn offset(c: IVec3, dx: int, dy: int, dz: int) -> IVec3 {
    IVec3 { x: (c.x + dx) as i32, y: (c.y + dy) as i32, z: (c.z + dz) as i32 }
}

/// Whether every offset within `radius` of `c` keeps `i32` coordinates.
pub open spec fn radius_fits(c: IVec3, radius: int) -> bool {
    &&& i32::MIN <= c.x - radius && c.x + radius <= i32::MAX
    &&& i32::MIN <= c.y - radius && c.y + radius <= i32::MAX
    &&& i32::MIN <= c.z - radius && c.z + radius <= i32::MAX
}

/// Handles to the three tiers that a lookup composes; it reads them as they
/// are when it is called and changes none of them.
pub struct VoxelResolver<'a> {
    pub chunk_map: &'a ChunkMap,
    pub modified_voxels: &'a ModifiedVoxels,
    pub write_buffer: &'a VoxelWriteBuffer,
}

impl<'a> VoxelResolver<'a> {
    pub open spec fn wf(&self) -> bool {
        self.chunk_map.wf() && self.write_buffer.wf()
    }

    pub open spec fn voxel_at(&self, p: IVec3) -> WorldVoxel {
        resolve(self.write_buffer.pending(), *self.modified_voxels, *self.chunk_map, p)
    }

    /// The composed value at `p`.
    pub fn get(&self, p: IVec3) -> (r: WorldVoxel)
        requires
            self.wf(),
        ensures
            r == self.voxel_at(p),
    {
        let (chunk_pos, local) = chunk_voxel_position(p);
        if let Some(v) = self.write_buffer.get(p) {
            return v;
        }
        if let Some(v) = self.modified_voxels.get_voxel(p) {
            return v;
        }
        match self.chunk_map.get(chunk_pos) {
            Some(d) => d.get_voxel(local),
            None => WorldVoxel::Unset,
        }
    }
}

/// One world: its chunk store, its modification overlay and its write buffer.
/// Readers share `&VoxelWorld`; loading or unloading a chunk and queueing an
/// edit take `&mut VoxelWorld`, so no reader ever sees a chunk half written.
pub struct VoxelWorld {
    chunk_map: ChunkMap,
    modified_voxels: ModifiedVoxels,
    voxel_write_buffer: VoxelWriteBuffer,
}

impl VoxelWorld {
    pub closed spec fn chunks(&self) -> ChunkMap {
        self.chunk_map
    }

    pub closed spec fn overlay(&self) -> ModifiedVoxels {
        self.modified_voxels
    }

    pub closed spec fn buffer(&self) -> Seq<(IVec3, WorldVoxel)> {
        self.voxel_write_buffer.pending()
    }

    pub closed spec fn buffer_store(&self) -> VoxelWriteBuffer {
        self.voxel_write_buffer
    }

    pub open spec fn wf(&self) -> bool {
        self.chunks().wf() && self.buffer_store().wf()
    }

    /// The composed value at `p`.
    pub open spec fn voxel_at(&self, p: IVec3) -> WorldVoxel {
        resolve(self.buffer(), self.overlay(), self.chunks(), p)
    }

    /// A world with no chunk loaded, an empty overlay and no pending edit.
    pub fn new() -> (r: VoxelWorld)
        ensures
            r.wf(),
            r.chunks().is_vacant(),
            r.buffer().len() == 0,
            forall|p: IVec3| #[trigger] r.overlay().value_at(p) is None,
            forall|p: IVec3| #[trigger] r.voxel_at(p) == WorldVoxel::Unset,
    {
        let r = VoxelWorld {
            chunk_map: ChunkMap::new(),
            modified_voxels: ModifiedVoxels::new(),
            voxel_write_buffer: VoxelWriteBuffer::new(),
        };
        assert forall|p: IVec3| #[trigger] r.voxel_at(p) == WorldVoxel::Unset by {
            assert(r.chunks().chunk_at(chunk_of(p)) is None);
            assert(r.overlay().value_at(p) is None);
        }
        r
    }

    /// The chunk store.
    pub fn chunk_map(&self) -> (r: &ChunkMap)
        ensures
            *r == self.chunks(),
    {
        &self.chunk_map
    }

    /// Loads a chunk of terrain, replacing any chunk at its coordinate.
    pub fn insert_chunk(&mut self, chunk: ChunkData)
        requires
            old(self).wf(),
            chunk.wf(),
        ensures
            final(self).wf(),
            final(self).chunks().chunk_at(chunk.pos()) == Some(chunk),
            forall|c: IVec3|
                c != chunk.pos() ==> #[trigger] final(self).chunks().chunk_at(c) == old(
                    self,
                ).chunks().chunk_at(c),
            final(self).overlay() == old(self).overlay(),
            final(self).buffer() == old(self).buffer(),
    {
        self.chunk_map.insert(chunk);
    }

    /// Unloads the chunk at coordinate `c`.
    pub fn remove_chunk(&mut self, c: IVec3)
        requires
            old(self).wf(),
        ensures
            final(self).wf(),
            final(self).chunks().chunk_at(c) is None,
            forall|e: IVec3|
                e != c ==> #[trigger] final(self).chunks().chunk_at(e) == old(
                    self,
                ).chunks().chunk_at(e),
            final(self).overlay() == old(self).overlay(),
            final(self).buffer() == old(self).buffer(),
    {
        self.chunk_map.remove(c);
    }

    /// Sets an overlay value that takes precedence over terrain at `p`.
    pub fn set_modified_voxel(&mut self, p: IVec3, v: WorldVoxel)
        requires
            old(self).wf(),
        ensures
            final(self).wf(),
            final(self).overlay().value_at(p) == Some(v),
            forall|q: IVec3|
                q != p ==> #[trigger] final(self).overlay().value_at(q) == old(
                    self,
                ).overlay().value_at(q),
            final(self).chunks() == old(self).chunks(),
            final(self).buffer() == old(self).buffer(),
    {
        self.modified_voxels.set_voxel(p, v);
    }

    /// A resolver over this world's three tiers.
    pub fn get_voxel_fn(&self) -> (r: VoxelResolver<'_>)
        requires
            self.wf(),
        ensures
            r.wf(),
            forall|p: IVec3| #[trigger] r.voxel_at(p) == self.voxel_at(p),
    {
        VoxelResolver {
            chunk_map: &self.chunk_map,
            modified_voxels: &self.modified_voxels,
            write_buffer: &self.voxel_write_buffer,
        }
    }

    /// The voxel at `p`: `Unset` where no tier holds a value.
    pub fn get_voxel(&self, p: IVec3) -> (r: WorldVoxel)
        requires
            self.wf(),
        ensures
            r == self.voxel_at(p),
    {
        self.get_voxel_fn().get(p)
    }

    /// Queues an edit at `p`. A lookup sees it at once, unless an older
    /// pending edit at `p` is still queued.
    pub fn set_voxel(&mut self, p: IVec3, v: WorldVoxel)
        requires
            old(self).wf(),
        ensures
            final(self).wf(),
            final(self).buffer() == old(self).buffer().push((p, v)),
            final(self).chunks() == old(self).chunks(),
            final(self).overlay() == old(self).overlay(),
            final(self).voxel_at(p) == if lookup(old(self).buffer(), p) is Some {
                old(self).voxel_at(p)
            } else {
                v
            },
            forall|q: IVec3| q != p ==> #[trigger] final(self).voxel_at(q) == old(self).voxel_at(q),
    {
        let ghost s = self.buffer();
        self.voxel_write_buffer.push(p, v);
        proof {
            lemma_lookup_push(s, (p, v), p);
            assert forall|q: IVec3| q != p implies #[trigger] self.voxel_at(q) == resolve(
                s,
                self.overlay(),
                self.chunks(),
                q,
            ) by {
                lemma_lookup_push(s, (p, v), q);
            }
        }
    }
}

impl VoxelWorld {
    /// The closest surface voxel at or below `p`, if the voxel at `p` is
    /// `Unset` or `Air`; the walk stops below `y = -256`.
    pub fn get_closest_surface_voxel(&self, p: IVec3) -> (r: Option<(IVec3, WorldVoxel)>)
        requires
            self.wf(),
        ensures
            r == closest_surface(*self, p),
            r matches Some((q, v)) ==> {
                &&& q.x == p.x && q.z == p.z && q.y <= p.y
                &&& q.y == p.y || q.y >= SURFACE_SEARCH_FLOOR
                &&& is_surface(*self, q)
                &&& v == self.voxel_at(q)
            },
    {
        let get_voxel = self.get_voxel_fn();
        let current_voxel = get_voxel.get(p);
        if current_voxel.is_unset() || current_voxel.is_air() {
            let mut pos = p;
            loop
                invariant
                    get_voxel.wf(),
                    self.voxel_at(p).is_empty_spec(),
                    forall|q: IVec3| #[trigger] get_voxel.voxel_at(q) == self.voxel_at(q),
                    pos.x == p.x && pos.z == p.z && pos.y <= p.y,
                    pos.y == p.y || pos.y >= SURFACE_SEARCH_FLOOR,
                    column_surface(*self, pos) == column_surface(*self, p),
                decreases pos.y + 0x8000_0000,
            {
                let here = get_voxel.get(pos);
                let open_above = if pos.y == i32::MAX {
                    true
                } else {
                    let up = get_voxel.get(IVec3 { x: pos.x, y: pos.y + 1, z: pos.z });
                    up.is_unset() || up.is_air()
                };
                if here.is_solid() && open_above {
                    assert(is_surface(*self, pos));
                    return Some((pos, here));
                }
                if pos.y <= SURFACE_SEARCH_FLOOR {
                    return None;
                }
                pos = IVec3 { x: pos.x, y: pos.y - 1, z: pos.z };
            }
        }
        None
    }

    /// The surface search from the top of the column at `(x, z)`.
    pub fn get_surface_voxel_at_2d_pos(&self, x: i32, z: i32) -> (r: Option<(IVec3, WorldVoxel)>)
        requires
            self.wf(),
        ensures
            r == closest_surface(*self, IVec3 { x, y: SURFACE_SEARCH_CEILING, z }),
    {
        self.get_closest_surface_voxel(IVec3 { x, y: SURFACE_SEARCH_CEILING, z })
    }

    /// One attempt of the random surface search: an offset outside the upper
    /// half ball of radius `radius` is rejected, any other is searched from.
    pub fn surface_from_sample(&self, center: IVec3, radius: u32, dx: i64, dy: i64, dz: i64) -> (r:
        Option<(IVec3, WorldVoxel)>)
        requires
            self.wf(),
            radius_fits(center, radius as int),
            -radius <= dx <= radius,
            -radius <= dy <= radius,
            -radius <= dz <= radius,
        ensures
            r == if in_upper_hemisphere(radius as int, dx as int, dy as int, dz as int) {
                closest_surface(*self, offset(center, dx as int, dy as int, dz as int))
            } else {
                None
            },
    {
        if dy < 0 {
            return None;
        }
        let (x, y, z) = (dx as i128, dy as i128, dz as i128);
        let rr = radius as i128;
        proof {
            lemma_square_bound(x as int, rr as int);
            lemma_square_bound(y as int, rr as int);
            lemma_square_bound(z as int, rr as int);
            lemma_square_bound(rr as int, rr as int);
        }
        if x * x + y * y + z * z > rr * rr {
            return None;
        }
        let pos = IVec3 {
            x: (center.x as i64 + dx) as i32,
            y: (center.y as i64 + dy) as i32,
            z: (center.z as i64 + dz) as i32,
        };
        self.get_closest_surface_voxel(pos)
    }

    /// A surface voxel found from a random position in the upper half ball of
    /// radius `radius` around `center`; `None` after 100 fruitless attempts.
    pub fn get_random_surface_voxel(&self, center: IVec3, radius: u32) -> (r: Option<
        (IVec3, WorldVoxel),
    >)
        requires
            self.wf(),
            radius_fits(center, radius as int),
        ensures
            r matches Some(found) ==> exists|dx: int, dy: int, dz: int|
                in_upper_hemisphere(radius as int, dx, dy, dz) && closest_surface(
                    *self,
                    #[trigger] offset(center, dx, dy, dz),
                ) == Some(found),
            radius == 0 ==> r == closest_surface(*self, center),
    {
        let mut tries: u32 = 0;
        let r = radius as i64;
        while tries < RANDOM_SURFACE_ATTEMPTS
            invariant
                self.wf(),
                radius_fits(center, radius as int),
                r == radius,
                tries > 0 && radius == 0 ==> closest_surface(*self, center) is None,
            decreases RANDOM_SURFACE_ATTEMPTS - tries,
        {
            tries += 1;
            let dx = random_in_range(-r, r);
            let dy = random_in_range(-r, r);
            let dz = random_in_range(-r, r);
            assert(radius == 0 ==> offset(center, dx as int, dy as int, dz as int) == center);
            if let Some(found) = self.surface_from_sample(center, radius, dx, dy, dz) {
                assert(in_upper_hemisphere(radius as int, dx as int, dy as int, dz as int));
                assert(closest_surface(*self, offset(center, dx as int, dy as int, dz as int))
                    == Some(found));
                return Some(found);
            }
        }
        None
    }
}

proof fn lemma_square_bound(x: int, r: int)
    requires
        -r <= x <= r,
        r <= 0x1_0000_0000,
    ensures
        0 <= x * x <= r * r,
        r * r <= 0x1_0000_0000_0000_0000,
{
    assert(0 <= x * x <= r * r) by (nonlinear_arith)
        requires
            -r <= x <= r,
    ;
    assert(r * r <= 0x1_0000_0000_0000_0000) by (nonlinear_arith)
        requires
            0 <= r <= 0x1_0000_0000,
    ;
}

/// A column with no solid voxel from `p` down to `y = -256` has no surface
/// voxel: the search never looks further down.
pub proof fn lemma_surface_search_floor(w: VoxelWorld, p: IVec3)
    requires
        forall|y: int|
            -256 <= y <= p.y ==> !(#[trigger] w.voxel_at(IVec3 { x: p.x, y: y as i32, z: p.z })).is_solid_spec(),
        !w.voxel_at(p).is_solid_spec(),
    ensures
        closest_surface(w, p) is None,
    decreases p.y + 0x8000_0000,
{
    if p.y > -256 {
        let q = below(p);
        assert(q == IVec3 { x: p.x, y: (p.y - 1) as i32, z: p.z });
        lemma_surface_search_floor(w, q);
        assert(!is_surface(w, p));
    }
    if w.voxel_at(p).is_empty_spec() {
        assert(column_surface(w, p) is None) by {
            if p.y > -256 {
                lemma_column_floor(w, below(p));
            }
        }
    }
}

proof fn lemma_column_floor(w: VoxelWorld, p: IVec3)
    requires
        forall|y: int|
            -256 <= y <= p.y ==> !(#[trigger] w.voxel_at(IVec3 { x: p.x, y: y as i32, z: p.z })).is_solid_spec(),
        !w.voxel_at(p).is_solid_spec(),
    ensures
        column_surface(w, p) is None,
    decreases p.y + 0x8000_0000,
{
    if p.y > -256 {
        let q = below(p);
        assert(w.voxel_at(IVec3 { x: p.x, y: (p.y - 1) as i32, z: p.z }) == w.voxel_at(q));
        lemma_column_floor(w, q);
    }
}

proof fn lemma_column_above_floor(w1: VoxelWorld, w2: VoxelWorld, p: IVec3)
    requires
        p.y >= -256,
        forall|q: IVec3| q.y >= -256 ==> #[trigger] w1.voxel_at(q) == w2.voxel_at(q),
    ensures
        column_surface(w1, p) == column_surface(w2, p),
    decreases p.y + 0x8000_0000,
{
    assert(w1.voxel_at(p) == w2.voxel_at(p));
    if p.y < i32::MAX {
        assert(w1.voxel_at(above(p)) == w2.voxel_at(above(p)));
    }
    if p.y > -256 {
        lemma_column_above_floor(w1, w2, below(p));
    }
}

/// The surface search never looks below `y = -256`: from a start at or
/// above that depth, two worlds that agree there give the same result.
pub proof fn lemma_surface_search_ignores_depths(w1: VoxelWorld, w2: VoxelWorld, p: IVec3)
    requires
        p.y >= -256,
        forall|q: IVec3| q.y >= -256 ==> #[trigger] w1.voxel_at(q) == w2.voxel_at(q),
    ensures
        closest_surface(w1, p) == closest_surface(w2, p),
{
    assert(w1.voxel_at(p) == w2.voxel_at(p));
    lemma_column_above_floor(w1, w2, p);
}

/// How the composed value at any position is chosen: a pending edit wins
/// over the overlay, the overlay over terrain, and terrain over `Unset`.
pub proof fn lemma_composition_precedence(w: VoxelWorld, p: IVec3)
    ensures
        lookup(w.buffer(), p) matches Some(v) ==> w.voxel_at(p) == v,
        lookup(w.buffer(), p) is None ==> (w.overlay().value_at(p) matches Some(v) ==> w.voxel_at(
            p,
        ) == v),
        lookup(w.buffer(), p) is None && w.overlay().value_at(p) is None ==> (w.chunks().chunk_at(
            chunk_of(p),
        ) matches Some(d) ==> w.voxel_at(p) == d.voxel_at(local_of(p))),
        lookup(w.buffer(), p) is None && w.overlay().value_at(p) is None && w.chunks().chunk_at(
            chunk_of(p),
        ) is None ==> w.voxel_at(p) == WorldVoxel::Unset,
{
}

} // verus!
