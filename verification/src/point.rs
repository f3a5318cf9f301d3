use vstd::prelude::*;

verus! {

/// A voxel position in world space.
#[derive(Debug, Clone, Copy, PartialEq, Eq, Hash, Structural)]
pub struct WorldPoint {
    pub x: i32,
    pub y: i32,
    pub z: i32,
}

/// A cell index inside one chunk's grid.
#[derive(Debug, Clone, Copy, PartialEq, Eq, Hash, Structural)]
pub struct LocalPoint {
    pub x: usize,
    pub y: usize,
    pub z: usize,
}

/// The horizontal world position of a chunk's lowest corner.
#[derive(Debug, Clone, Copy, PartialEq, Eq, Hash, Structural)]
pub struct ChunkOrigin {
    pub x: i32,
    pub y: i32,
}

/// The place of a chunk on the chunk grid, counted in chunks.
#[derive(Debug, Clone, Copy, PartialEq, Eq, Hash, Structural)]
pub struct ChunkIndex {
    pub x: i32,
    pub y: i32,
}

impl WorldPoint {
    /// The world point `(x, y, z)`.
    pub fn new(x: i32, y: i32, z: i32) -> (r: Self)
        ensures
            r == (WorldPoint { x, y, z }),
    {
        WorldPoint { x, y, z }
    }
}

impl LocalPoint {
    /// The cell index `(x, y, z)`.
    pub fn new(x: usize, y: usize, z: usize) -> (r: Self)
        ensures
            r == (LocalPoint { x, y, z }),
    {
        LocalPoint { x, y, z }
    }
}

impl ChunkIndex {
    /// The grid place `(x, y)`.
    pub fn new(x: i32, y: i32) -> (r: Self)
        ensures
            r == (ChunkIndex { x, y }),
    {
        ChunkIndex { x, y }
    }
}

impl ChunkOrigin {
    /// The origin `(x, y)`.
    pub fn new(x: i32, y: i32) -> (r: Self)
        ensures
            r == (ChunkOrigin { x, y }),
    {
        ChunkOrigin { x, y }
    }
}

} // verus!
