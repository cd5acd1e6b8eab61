use vstd::prelude::*;

verus! {

/// A signed integer coordinate in world units; a voxel position names the
/// minimum corner of its unit cube.
#[derive(Clone, Copy, Debug, PartialEq, Eq, Structural, Hash)]
pub struct IVec3 {
    pub x: i32,
    pub y: i32,
    pub z: i32,
}

impl IVec3 {
    pub fn new(x: i32, y: i32, z: i32) -> (r: IVec3)
        ensures
            r == (IVec3 { x, y, z }),
    {
        IVec3 { x, y, z }
    }
}

/// The value stored at one voxel position.
#[derive(Clone, Copy, Debug, PartialEq, Eq, Structural)]
pub enum WorldVoxel {
    /// No data was ever computed for this position.
    Unset,
    /// Computed and empty.
    Air,
    /// Computed and filled with the given material.
    Solid(u8),
}

impl WorldVoxel {
    pub open spec fn is_solid_spec(self) -> bool {
        self is Solid
    }

    pub open spec fn is_empty_spec(self) -> bool {
        self is Unset || self is Air
    }

    pub fn is_solid(&self) -> (r: bool)
        ensures
            r == self.is_solid_spec(),
    {
        matches!(self, WorldVoxel::Solid(_))
    }

    pub fn is_unset(&self) -> (r: bool)
        ensures
            r == (*self is Unset),
    {
        matches!(self, WorldVoxel::Unset)
    }

    pub fn is_air(&self) -> (r: bool)
        ensures
            r == (*self is Air),
    {
        matches!(self, WorldVoxel::Air)
    }
}

/// Notice that a chunk is about to be spawned, despawned or remeshed; the
/// entity is the host's opaque handle.
#[derive(Debug, PartialEq, Eq, Structural)]
pub struct ChunkEvent {
    pub chunk_key: IVec3,
    pub entity: u64,
}

impl ChunkEvent {
    pub fn new(chunk_key: IVec3, entity: u64) -> (r: ChunkEvent)
        ensures
            r == (ChunkEvent { chunk_key, entity }),
    {
        ChunkEvent { chunk_key, entity }
    }

    pub fn clone(&self) -> (r: ChunkEvent)
        ensures
            r == *self,
    {
        ChunkEvent { chunk_key: self.chunk_key, entity: self.entity }
    }
}

} // verus!
