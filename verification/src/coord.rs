use vstd::prelude::*;
use crate::point::{ChunkIndex, ChunkOrigin, LocalPoint, WorldPoint};

verus! {

/// The number of cells along each horizontal axis of a chunk.
pub const CHUNK_WIDTH: usize = 16;

/// The number of layers of a chunk.
pub const CHUNK_HEIGHT: usize = 256;

/// The world height of a chunk's lowest layer.
pub const BOTTOM_DEPTH: i32 = -128;

/// A coordinate that does not lie in the chunk it was resolved against.
#[derive(Debug, Clone, Copy, PartialEq, Eq, Structural)]
pub struct BoundsError;

/// A voxel coordinate, either relative to a chunk's grid or absolute.
#[derive(Debug, Clone, Copy, PartialEq, Eq, Structural)]
pub enum ChunkCoord {
    Local(LocalPoint),
    World(WorldPoint),
}

impl LocalPoint {
    /// Whether the index names a cell of a chunk's grid.
    pub open spec fn in_grid(&self) -> bool {
        self.x < CHUNK_WIDTH && self.y < CHUNK_WIDTH && self.z < CHUNK_HEIGHT
    }
}

impl ChunkOrigin {
    /// Whether the origin lies on the chunk grid.
    pub open spec fn aligned(&self) -> bool {
        self.x as int % (CHUNK_WIDTH as int) == 0 && self.y as int % (CHUNK_WIDTH as int) == 0
    }

    /// Whether the world position `(x, y, z)` lies in the chunk at this origin.
    pub open spec fn covers(&self, x: int, y: int, z: int) -> bool {
        &&& self.x <= x < self.x + CHUNK_WIDTH
        &&& self.y <= y < self.y + CHUNK_WIDTH
        &&& BOTTOM_DEPTH <= z < BOTTOM_DEPTH + CHUNK_HEIGHT
    }

    /// Whether the world point `p` lies in the chunk at this origin.
    pub open spec fn contains(&self, p: WorldPoint) -> bool {
        self.covers(p.x as int, p.y as int, p.z as int)
    }

    /// The cell of the chunk at this origin that holds world point `p`.
    pub open spec fn local_of(&self, p: WorldPoint) -> LocalPoint
        recommends
            self.contains(p),
    {
        LocalPoint {
            x: (p.x - self.x) as usize,
            y: (p.y - self.y) as usize,
            z: (p.z - BOTTOM_DEPTH) as usize,
        }
    }

    /// Whether every cell of the chunk at this origin has world coordinates
    /// in the integer range.
    pub open spec fn fits(&self) -> bool {
        self.x + CHUNK_WIDTH - 1 <= i32::MAX && self.y + CHUNK_WIDTH - 1 <= i32::MAX
    }

    /// The world point of cell `l` of the chunk at this origin.
    pub open spec fn world_of(&self, l: LocalPoint) -> WorldPoint
        recommends
            l.in_grid(),
            self.fits(),
    {
        WorldPoint {
            x: (self.x + l.x) as i32,
            y: (self.y + l.y) as i32,
            z: (l.z + BOTTOM_DEPTH) as i32,
        }
    }

    /// An origin on the chunk grid leaves room for its whole chunk.
    pub proof fn lemma_aligned_fits(self)
        requires
            self.aligned(),
        ensures
            self.fits(),
    {
    }
}

impl ChunkIndex {
    /// Whether the chunk at this grid place has an origin in the integer range.
    pub open spec fn in_world(&self) -> bool {
        &&& i32::MIN <= self.x * CHUNK_WIDTH <= i32::MAX
        &&& i32::MIN <= self.y * CHUNK_WIDTH <= i32::MAX
    }

    /// The origin of the chunk at this grid place.
    pub open spec fn spec_origin(&self) -> ChunkOrigin
        recommends
            self.in_world(),
    {
        ChunkOrigin { x: (self.x * CHUNK_WIDTH) as i32, y: (self.y * CHUNK_WIDTH) as i32 }
    }

    /// The origin of the chunk at this grid place.
    #[verifier::when_used_as_spec(spec_origin)]
    pub fn origin(&self) -> (o: ChunkOrigin)
        requires
            self.in_world(),
        ensures
            o == self.spec_origin(),
            o.aligned(),
    {
        let x: i64 = self.x as i64 * CHUNK_WIDTH as i64;
        let y: i64 = self.y as i64 * CHUNK_WIDTH as i64;
        ChunkOrigin { x: x as i32, y: y as i32 }
    }
}

impl ChunkCoord {
    /// The cell that the coordinate names in the chunk at `origin`, or the
    /// bounds error where it names none.
    pub open spec fn spec_to_local(self, origin: ChunkOrigin) -> Result<LocalPoint, BoundsError> {
        match self {
            ChunkCoord::Local(l) => if l.in_grid() {
                Ok(l)
            } else {
                Err(BoundsError)
            },
            ChunkCoord::World(p) => if origin.contains(p) {
                Ok(origin.local_of(p))
            } else {
                Err(BoundsError)
            },
        }
    }

    /// The world position `(x, y, z)` that the coordinate names, seen from the
    /// chunk at `origin`.
    pub open spec fn position(self, origin: ChunkOrigin) -> (int, int, int) {
        match self {
            ChunkCoord::Local(l) => (origin.x + l.x, origin.y + l.y, BOTTOM_DEPTH + l.z),
            ChunkCoord::World(p) => (p.x as int, p.y as int, p.z as int),
        }
    }

    /// Whether the coordinate has a world point in the integer range.
    pub open spec fn has_world(self, origin: ChunkOrigin) -> bool {
        match self {
            ChunkCoord::Local(l) => {
                &&& origin.x + l.x <= i32::MAX
                &&& origin.y + l.y <= i32::MAX
                &&& l.z + BOTTOM_DEPTH <= i32::MAX
            },
            ChunkCoord::World(_) => true,
        }
    }

    /// The world point that the coordinate names, seen from the chunk at `origin`.
    pub open spec fn spec_to_world(self, origin: ChunkOrigin) -> WorldPoint
        recommends
            self.has_world(origin),
    {
        match self {
            ChunkCoord::Local(l) => origin.world_of(l),
            ChunkCoord::World(p) => p,
        }
    }

    /// Resolves the coordinate against the chunk at `chunk_origin`. A world
    /// point is shifted by the origin and by the bottom depth; the result is
    /// an error exactly when the coordinate lies outside the chunk's grid.
    pub fn to_local(self, chunk_origin: ChunkOrigin) -> (r: Result<LocalPoint, BoundsError>)
        ensures
            r == self.spec_to_local(chunk_origin),
    {
        match self {
            ChunkCoord::Local(pos) => {
                if pos.x < CHUNK_WIDTH && pos.y < CHUNK_WIDTH && pos.z < CHUNK_HEIGHT {
                    Ok(pos)
                } else {
                    Err(BoundsError)
                }
            },
            ChunkCoord::World(pos) => {
                let dx: i64 = pos.x as i64 - chunk_origin.x as i64;
                let dy: i64 = pos.y as i64 - chunk_origin.y as i64;
                let dz: i64 = pos.z as i64 - BOTTOM_DEPTH as i64;
                if dx < 0 || dx >= CHUNK_WIDTH as i64 || dy < 0 || dy >= CHUNK_WIDTH as i64 || dz
                    < 0 || dz >= CHUNK_HEIGHT as i64 {
                    Err(BoundsError)
                } else {
                    Ok(LocalPoint { x: dx as usize, y: dy as usize, z: dz as usize })
                }
            },
        }
    }

    /// The world point of the coordinate, seen from the chunk at `chunk_origin`.
    pub fn to_world(self, chunk_origin: ChunkOrigin) -> (p: WorldPoint)
        requires
            self.has_world(chunk_origin),
        ensures
            p == self.spec_to_world(chunk_origin),
    {
        match self {
            ChunkCoord::Local(pos) => {
                let x: i64 = chunk_origin.x as i64 + pos.x as i64;
                let y: i64 = chunk_origin.y as i64 + pos.y as i64;
                let z: i64 = pos.z as i64 + BOTTOM_DEPTH as i64;
                WorldPoint { x: x as i32, y: y as i32, z: z as i32 }
            },
            ChunkCoord::World(pos) => pos,
        }
    }

    /// A world point inside a chunk resolves to a cell of that chunk, and the
    /// cell resolves back to the same world point.
    pub proof fn lemma_world_local_roundtrip(p: WorldPoint, origin: ChunkOrigin)
        requires
            origin.contains(p),
        ensures
            ChunkCoord::World(p).spec_to_local(origin) is Ok,
            ChunkCoord::World(p).spec_to_local(origin).unwrap().in_grid(),
            ChunkCoord::Local(ChunkCoord::World(p).spec_to_local(origin).unwrap()).has_world(
                origin,
            ),
            ChunkCoord::Local(
                ChunkCoord::World(p).spec_to_local(origin).unwrap(),
            ).spec_to_world(origin) == p,
    {
    }

    /// A cell of a chunk whose world point is in range resolves to that world
    /// point, and the world point resolves back to the same cell.
    pub proof fn lemma_local_world_roundtrip(l: LocalPoint, origin: ChunkOrigin)
        requires
            l.in_grid(),
            origin.fits(),
        ensures
            ChunkCoord::Local(l).has_world(origin),
            origin.contains(ChunkCoord::Local(l).spec_to_world(origin)),
            ChunkCoord::World(ChunkCoord::Local(l).spec_to_world(origin)).spec_to_local(origin)
                == Ok::<LocalPoint, BoundsError>(l),
    {
    }
}

impl From<WorldPoint> for ChunkCoord {
    fn from(value: WorldPoint) -> (c: Self) {
        ChunkCoord::World(value)
    }
}

impl vstd::std_specs::convert::FromSpecImpl<WorldPoint> for ChunkCoord {
    open spec fn obeys_from_spec() -> bool {
        true
    }

    open spec fn from_spec(value: WorldPoint) -> Self {
        ChunkCoord::World(value)
    }
}

/// The coordinate of cell `(x, y, z)` of a chunk's grid.
pub fn chunk_coord_local(x: usize, y: usize, z: usize) -> (c: ChunkCoord)
    ensures
        c == ChunkCoord::Local(LocalPoint { x, y, z }),
{
    ChunkCoord::Local(LocalPoint { x, y, z })
}

/// The coordinate of world point `(x, y, z)`.
pub fn chunk_coord_global(x: i32, y: i32, z: i32) -> (c: ChunkCoord)
    ensures
        c == ChunkCoord::World(WorldPoint { x, y, z }),
{
    ChunkCoord::World(WorldPoint { x, y, z })
}

} // verus!
