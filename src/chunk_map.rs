use vstd::prelude::*;
use crate::chunk::{ChunkData, is_chunk_coord};
use crate::voxel::IVec3;
use crate::edits::{lemma_pos_key_in_range, lemma_pos_key_injective, pos_key, pos_key_of};
use std::collections::HashMap;

verus! {

/// An axis-aligned box of voxel cells: a cell `p` lies in it when
/// `min <= p < max` on every axis.
#[derive(Clone, Copy, Debug, PartialEq, Eq, Structural)]
pub struct VoxelAabb {
    pub min_x: i64,
    pub min_y: i64,
    pub min_z: i64,
    pub max_x: i64,
    pub max_y: i64,
    pub max_z: i64,
}

impl VoxelAabb {
    /// Whether the cells of chunk `c` all lie in the box.
    pub open spec fn holds_chunk(self, c: IVec3) -> bool {
        &&& self.min_x <= 32 * c.x && 32 * c.x + 32 <= self.max_x
        &&& self.min_y <= 32 * c.y && 32 * c.y + 32 <= self.max_y
        &&& self.min_z <= 32 * c.z && 32 * c.z + 32 <= self.max_z
    }

    /// Whether every corner lies within the range of `i32` cells.
    pub open spec fn in_cell_range(self) -> bool {
        &&& -0x8000_0000 <= self.min_x < self.max_x <= 0x8000_0000
        &&& -0x8000_0000 <= self.min_y < self.max_y <= 0x8000_0000
        &&& -0x8000_0000 <= self.min_z < self.max_z <= 0x8000_0000
    }

    /// Whether cell `(x, y, z)` lies in the box.
    pub open spec fn holds_cell(self, x: int, y: int, z: int) -> bool {
        self.min_x <= x < self.max_x && self.min_y <= y < self.max_y && self.min_z <= z
            < self.max_z
    }

    fn cover(&mut self, c: IVec3)
        requires
            is_chunk_coord(c),
        ensures
            final(self).holds_chunk(c),
            final(self).min_x == if 32 * c.x < old(self).min_x { 32 * c.x } else { old(self).min_x as int },
            final(self).min_y == if 32 * c.y < old(self).min_y { 32 * c.y } else { old(self).min_y as int },
            final(self).min_z == if 32 * c.z < old(self).min_z { 32 * c.z } else { old(self).min_z as int },
            final(self).max_x == if 32 * c.x + 32 > old(self).max_x { 32 * c.x + 32 } else { old(self).max_x as int },
            final(self).max_y == if 32 * c.y + 32 > old(self).max_y { 32 * c.y + 32 } else { old(self).max_y as int },
            final(self).max_z == if 32 * c.z + 32 > old(self).max_z { 32 * c.z + 32 } else { old(self).max_z as int },
    {
        let (x, y, z) = (c.x as i64 * 32, c.y as i64 * 32, c.z as i64 * 32);
        if x < self.min_x {
            self.min_x = x;
        }
        if y < self.min_y {
            self.min_y = y;
        }
        if z < self.min_z {
            self.min_z = z;
        }
        if x + 32 > self.max_x {
            self.max_x = x + 32;
        }
        if y + 32 > self.max_y {
            self.max_y = y + 32;
        }
        if z + 32 > self.max_z {
            self.max_z = z + 32;
        }
    }
}

/// Whether `b` is the smallest box of cells around the loaded chunks of `m`.
pub open spec fn is_world_bounds(m: ChunkMap, b: VoxelAabb) -> bool {
    &&& forall|c: IVec3| #[trigger] m.chunk_at(c) is Some ==> b.holds_chunk(c)
    &&& exists|c: IVec3| #[trigger] m.chunk_at(c) is Some && b.min_x == 32 * c.x
    &&& exists|c: IVec3| #[trigger] m.chunk_at(c) is Some && b.min_y == 32 * c.y
    &&& exists|c: IVec3| #[trigger] m.chunk_at(c) is Some && b.min_z == 32 * c.z
    &&& exists|c: IVec3| #[trigger] m.chunk_at(c) is Some && b.max_x == 32 * c.x + 32
    &&& exists|c: IVec3| #[trigger] m.chunk_at(c) is Some && b.max_y == 32 * c.y + 32
    &&& exists|c: IVec3| #[trigger] m.chunk_at(c) is Some && b.max_z == 32 * c.z + 32
}

/// Terrain data of the loaded chunks, keyed by packed chunk coordinate,
/// with the list of loaded coordinates beside it.
pub struct ChunkMap {
    chunks: HashMap<u128, ChunkData>,
    loaded: Vec<IVec3>,
}

impl ChunkMap {
    /// The chunks, by packed coordinate.
    pub closed spec fn table(&self) -> Map<u128, ChunkData> {
        self.chunks@
    }

    /// The loaded coordinates, in loading order.
    pub closed spec fn coords(&self) -> Seq<IVec3> {
        self.loaded@
    }

    /// The loaded chunk at coordinate `c`, if any.
    pub open spec fn chunk_at(&self, c: IVec3) -> Option<ChunkData> {
        if self.table().contains_key(pos_key(c) as u128) {
            Some(self.table()[pos_key(c) as u128])
        } else {
            None
        }
    }

    /// Whether no chunk is loaded.
    pub open spec fn is_vacant(&self) -> bool {
        forall|c: IVec3| #[trigger] self.chunk_at(c) is None
    }

    pub open spec fn wf(&self) -> bool {
        &&& forall|c: IVec3| #[trigger]
            self.chunk_at(c) matches Some(d) ==> d.wf() && d.pos() == c
        &&& forall|j: int, k: int|
            0 <= j < k < self.coords().len() ==> self.coords()[j] != self.coords()[k]
        &&& forall|j: int|
            0 <= j < self.coords().len() ==> (#[trigger] self.chunk_at(self.coords()[j])) is Some
        &&& forall|c: IVec3| #[trigger]
            self.chunk_at(c) is Some ==> exists|j: int|
                0 <= j < self.coords().len() && self.coords()[j] == c
    }

    /// A store with no chunk loaded.
    pub fn new() -> (r: ChunkMap)
        ensures
            r.wf(),
            r.is_vacant(),
    {
        let r = ChunkMap { chunks: HashMap::new(), loaded: Vec::new() };
        assert(r.table() == Map::<u128, ChunkData>::empty());
        r
    }

    /// Number of loaded chunks.
    pub fn len(&self) -> (r: usize)
        requires
            self.wf(),
        ensures
            (r == 0) == self.is_vacant(),
    {
        if self.loaded.len() > 0 {
            assert(self.chunk_at(self.coords()[0]) is Some);
        }
        self.loaded.len()
    }

    /// The loaded chunk at coordinate `c`; absence is the steady state of
    /// regions that were never generated or were evicted.
    pub fn get(&self, c: IVec3) -> (r: Option<&ChunkData>)
        requires
            self.wf(),
        ensures
            r matches Some(d) ==> self.chunk_at(c) == Some(*d),
            r is None ==> self.chunk_at(c) is None,
    {
        broadcast use vstd::std_specs::hash::group_hash_axioms;

        self.chunks.get(&pos_key_of(c))
    }

    fn index_of(&self, c: IVec3) -> (r: Option<usize>)
        ensures
            r matches Some(i) ==> i < self.coords().len() && self.coords()[i as int] == c,
            r is None ==> forall|j: int| 0 <= j < self.coords().len() ==> self.coords()[j] != c,
    {
        let mut i: usize = 0;
        while i < self.loaded.len()
            invariant
                i <= self.coords().len(),
                forall|j: int| 0 <= j < i ==> self.coords()[j] != c,
            decreases self.coords().len() - i,
        {
            if self.loaded[i] == c {
                return Some(i);
            }
            i += 1;
        }
        None
    }

    /// Loads `chunk` at its coordinate, replacing any chunk held there.
    pub fn insert(&mut self, chunk: ChunkData)
        requires
            old(self).wf(),
            chunk.wf(),
        ensures
            final(self).wf(),
            final(self).chunk_at(chunk.pos()) == Some(chunk),
            forall|c: IVec3|
                c != chunk.pos() ==> #[trigger] final(self).chunk_at(c) == old(self).chunk_at(c),
    {
        broadcast use vstd::std_specs::hash::group_hash_axioms;

        let p = chunk.position();
        let k = pos_key_of(p);
        let was_loaded = self.chunks.contains_key(&k);
        if !was_loaded {
            self.loaded.push(p);
        }
        self.chunks.insert(k, chunk);
        proof {
            assert forall|c: IVec3| c != p implies #[trigger] self.chunk_at(c) == old(self).chunk_at(c) by {
                if pos_key(c) as u128 == k {
                    lemma_pos_key_in_range(c);
                    lemma_pos_key_in_range(p);
                    lemma_pos_key_injective(p, c);
                }
            }
            assert(self.chunk_at(p) == Some(chunk));
            assert forall|j: int| 0 <= j < self.coords().len() implies (#[trigger] self.chunk_at(
                self.coords()[j],
            )) is Some by {
                if j < old(self).coords().len() {
                    assert(self.coords()[j] == old(self).coords()[j]);
                    assert(old(self).chunk_at(old(self).coords()[j]) is Some);
                }
            }
            assert forall|c: IVec3| #[trigger] self.chunk_at(c) is Some implies exists|j: int|
                0 <= j < self.coords().len() && self.coords()[j] == c by {
                if c == p {
                    if was_loaded {
                        assert(old(self).chunk_at(p) is Some);
                        let j = choose|j: int| 0 <= j < old(self).coords().len() && old(self).coords()[j] == p;
                        assert(self.coords()[j] == p);
                    } else {
                        assert(self.coords()[self.coords().len() - 1] == p);
                    }
                } else {
                    assert(old(self).chunk_at(c) is Some);
                    let j = choose|j: int| 0 <= j < old(self).coords().len() && old(self).coords()[j] == c;
                    assert(self.coords()[j] == c);
                }
            }
            if !was_loaded {
                assert forall|j: int| 0 <= j < old(self).coords().len() implies old(self).coords()[j] != p by {
                    assert(old(self).chunk_at(old(self).coords()[j]) is Some);
                }
            }
        }
    }

    /// Unloads the chunk at coordinate `c`, if one is loaded.
    pub fn remove(&mut self, c: IVec3)
        requires
            old(self).wf(),
        ensures
            final(self).wf(),
            final(self).chunk_at(c) is None,
            forall|e: IVec3| e != c ==> #[trigger] final(self).chunk_at(e) == old(self).chunk_at(e),
    {
        broadcast use vstd::std_specs::hash::group_hash_axioms;

        let k = pos_key_of(c);
        let found = self.index_of(c);
        let ghost idx: int = if let Some(i) = found { i as int } else { -1 };
        if let Some(i) = found {
            self.loaded.remove(i);
        }
        self.chunks.remove(&k);
        proof {
            assert forall|e: IVec3| e != c implies #[trigger] self.chunk_at(e) == old(self).chunk_at(e) by {
                if pos_key(e) as u128 == k {
                    lemma_pos_key_in_range(c);
                    lemma_pos_key_in_range(e);
                    lemma_pos_key_injective(c, e);
                }
            }
            assert(self.chunk_at(c) is None);
            let os = old(self).coords();
            let ns = self.coords();
            if found is None {
                assert(old(self).chunk_at(c) is None) by {
                    if old(self).chunk_at(c) is Some {
                        let j = choose|j: int| 0 <= j < os.len() && os[j] == c;
                    }
                }
                assert(ns == os);
            } else {
                assert(ns =~= os.remove(idx));
            }
            assert forall|j: int| 0 <= j < ns.len() implies (#[trigger] self.chunk_at(ns[j])) is Some by {
                let oj = if found is None || j < idx { j } else { j + 1 };
                assert(ns[j] == os[oj]);
                assert(old(self).chunk_at(os[oj]) is Some);
                if os[oj] == c {
                    assert(oj == idx);
                }
            }
            assert forall|j: int, l: int| 0 <= j < l < ns.len() implies ns[j] != ns[l] by {
                let oj = if found is None || j < idx { j } else { j + 1 };
                let ol = if found is None || l < idx { l } else { l + 1 };
                assert(ns[j] == os[oj] && ns[l] == os[ol]);
            }
            assert forall|e: IVec3| #[trigger] self.chunk_at(e) is Some implies exists|j: int|
                0 <= j < ns.len() && ns[j] == e by {
                assert(old(self).chunk_at(e) is Some);
                let oj = choose|j: int| 0 <= j < os.len() && os[j] == e;
                if found is None || oj < idx {
                    assert(ns[oj] == e);
                } else {
                    assert(oj != idx);
                    assert(ns[oj - 1] == e);
                }
            }
        }
    }

    /// The smallest box of cells that encloses every loaded chunk; `None`
    /// when no chunk is loaded.
    pub fn world_bounds(&self) -> (r: Option<VoxelAabb>)
        requires
            self.wf(),
        ensures
            r is None <==> self.is_vacant(),
            r matches Some(b) ==> is_world_bounds(*self, b) && b.in_cell_range(),
    {
        let ghost s = self.coords();
        if self.len() == 0 {
            return None;
        }
        let c0 = self.loaded[0];
        assert(self.chunk_at(s[0]) is Some);
        assert(is_chunk_coord(c0));
        let mut b = VoxelAabb {
            min_x: c0.x as i64 * 32,
            min_y: c0.y as i64 * 32,
            min_z: c0.z as i64 * 32,
            max_x: c0.x as i64 * 32 + 32,
            max_y: c0.y as i64 * 32 + 32,
            max_z: c0.z as i64 * 32 + 32,
        };
        let mut i: usize = 1;
        while i < self.loaded.len()
            invariant
                1 <= i <= s.len(),
                s == self.coords(),
                self.wf(),
                b.in_cell_range(),
                forall|j: int| 0 <= j < i ==> b.holds_chunk(#[trigger] s[j]),
                exists|j: int| 0 <= j < i && b.min_x == 32 * (#[trigger] s[j]).x,
                exists|j: int| 0 <= j < i && b.min_y == 32 * (#[trigger] s[j]).y,
                exists|j: int| 0 <= j < i && b.min_z == 32 * (#[trigger] s[j]).z,
                exists|j: int| 0 <= j < i && b.max_x == 32 * (#[trigger] s[j]).x + 32,
                exists|j: int| 0 <= j < i && b.max_y == 32 * (#[trigger] s[j]).y + 32,
                exists|j: int| 0 <= j < i && b.max_z == 32 * (#[trigger] s[j]).z + 32,
            decreases s.len() - i,
        {
            let c = self.loaded[i];
            assert(self.chunk_at(s[i as int]) is Some);
            b.cover(c);
            i += 1;
        }
        proof {
            assert forall|c: IVec3| #[trigger] self.chunk_at(c) is Some implies b.holds_chunk(c) by {
                let j = choose|j: int| 0 <= j < s.len() && s[j] == c;
            }
            let jx = choose|j: int| 0 <= j < s.len() && b.min_x == 32 * (#[trigger] s[j]).x;
            assert(self.chunk_at(s[jx]) is Some);
            let jy = choose|j: int| 0 <= j < s.len() && b.min_y == 32 * (#[trigger] s[j]).y;
            assert(self.chunk_at(s[jy]) is Some);
            let jz = choose|j: int| 0 <= j < s.len() && b.min_z == 32 * (#[trigger] s[j]).z;
            assert(self.chunk_at(s[jz]) is Some);
            let kx = choose|j: int| 0 <= j < s.len() && b.max_x == 32 * (#[trigger] s[j]).x + 32;
            assert(self.chunk_at(s[kx]) is Some);
            let ky = choose|j: int| 0 <= j < s.len() && b.max_y == 32 * (#[trigger] s[j]).y + 32;
            assert(self.chunk_at(s[ky]) is Some);
            let kz = choose|j: int| 0 <= j < s.len() && b.max_z == 32 * (#[trigger] s[j]).z + 32;
            assert(self.chunk_at(s[kz]) is Some);
        }
        Some(b)
    }
}

} // verus!
