use vstd::prelude::*;
use crate::block::{Block, BlockFace};
use crate::coord::{BoundsError, ChunkCoord, BOTTOM_DEPTH, CHUNK_HEIGHT, CHUNK_WIDTH};
use crate::manager::{ChunkManager, ManagerView};
use crate::point::{ChunkOrigin, LocalPoint, WorldPoint};

verus! {

/// The number of cells of a chunk.
pub const CHUNK_VOLUME: usize = 65536;

/// The place of cell `l` in a chunk's storage: layers from the bottom, rows
/// within a layer, cells within a row.
pub open spec fn flat_index(l: LocalPoint) -> int {
    (l.z * CHUNK_WIDTH + l.y) * CHUNK_WIDTH + l.x
}

/// What a chunk is: its origin and the content of its cells in storage order.
pub struct ChunkView {
    pub origin: ChunkOrigin,
    pub cells: Seq<Option<Block>>,
}

impl ChunkView {
    /// The origin lies on the chunk grid and every cell has its place.
    pub open spec fn wf(self) -> bool {
        self.origin.aligned() && self.cells.len() == CHUNK_VOLUME
    }

    /// The content of cell `l`.
    pub open spec fn cell(self, l: LocalPoint) -> Option<Block>
        recommends
            l.in_grid(),
    {
        self.cells[flat_index(l)]
    }

    /// The storage place of the cell at world position `(x, y, z)`.
    pub open spec fn point_index(self, x: int, y: int, z: int) -> int
        recommends
            self.origin.covers(x, y, z),
    {
        ((z - BOTTOM_DEPTH) * CHUNK_WIDTH + (y - self.origin.y)) * CHUNK_WIDTH + (x
            - self.origin.x)
    }

    /// The world position of the cell at storage place `k`.
    pub open spec fn index_point(self, k: int) -> (int, int, int)
        recommends
            0 <= k < CHUNK_VOLUME,
    {
        (
            self.origin.x + k % (CHUNK_WIDTH as int),
            self.origin.y + (k / (CHUNK_WIDTH as int)) % (CHUNK_WIDTH as int),
            BOTTOM_DEPTH + k / (CHUNK_WIDTH as int * CHUNK_WIDTH as int),
        )
    }

    /// The block at world position `(x, y, z)`: none where the position lies
    /// outside the chunk or its cell is empty.
    pub open spec fn at(self, x: int, y: int, z: int) -> Option<Block> {
        if self.origin.covers(x, y, z) {
            self.cells[self.point_index(x, y, z)]
        } else {
            None
        }
    }

    /// Whether a block stands at world position `(x, y, z)` in this chunk.
    pub open spec fn occupied(self, x: int, y: int, z: int) -> bool {
        self.at(x, y, z) is Some
    }

    /// Whether the face `face` of the voxel at `(x, y, z)` is exposed. It is
    /// hidden exactly when a block stands across it. A neighbour outside this
    /// chunk is looked up in `context`; without a context it counts as absent.
    pub open spec fn exposed(
        self,
        x: int,
        y: int,
        z: int,
        face: BlockFace,
        context: Option<ManagerView>,
    ) -> bool {
        let nx = x + face.offset().0;
        let ny = y + face.offset().1;
        let nz = z + face.offset().2;
        if self.origin.covers(nx, ny, nz) {
            !self.occupied(nx, ny, nz)
        } else {
            match context {
                Some(m) => !m.block_at(nx, ny, nz),
                None => true,
            }
        }
    }

    /// The six exposure flags of the voxel at `(x, y, z)`, in the enumeration
    /// order of the faces.
    pub open spec fn exposure(self, x: int, y: int, z: int, context: Option<ManagerView>) -> Seq<
        bool,
    > {
        Seq::new(6, |i: int| self.exposed(x, y, z, BlockFace::spec_from_index(i), context))
    }

    /// The block `b`, standing at `(x, y, z)`, with its flags brought up to date.
    pub open spec fn refreshed(
        self,
        b: Block,
        x: int,
        y: int,
        z: int,
        context: Option<ManagerView>,
    ) -> Block {
        Block::with_faces(b.block_type, self.exposure(x, y, z, context))
    }

    /// The position next to `(x, y, z)` across `face`.
    pub open spec fn neighbour(x: int, y: int, z: int, face: BlockFace) -> (int, int, int) {
        (x + face.offset().0, y + face.offset().1, z + face.offset().2)
    }

    /// The positions next to `(x, y, z)` across the first `n` faces of the
    /// enumeration order.
    pub open spec fn around_upto(x: int, y: int, z: int, n: int) -> Set<(int, int, int)> {
        Set::new(
            |p: (int, int, int)|
                {
                    ||| 0 < n && p == Self::neighbour(x, y, z, BlockFace::XPos)
                    ||| 1 < n && p == Self::neighbour(x, y, z, BlockFace::XNeg)
                    ||| 2 < n && p == Self::neighbour(x, y, z, BlockFace::YPos)
                    ||| 3 < n && p == Self::neighbour(x, y, z, BlockFace::YNeg)
                    ||| 4 < n && p == Self::neighbour(x, y, z, BlockFace::ZPos)
                    ||| 5 < n && p == Self::neighbour(x, y, z, BlockFace::ZNeg)
                },
        )
    }

    /// The six positions next to `(x, y, z)`.
    pub open spec fn around(x: int, y: int, z: int) -> Set<(int, int, int)> {
        Self::around_upto(x, y, z, 6)
    }

    /// The positions of the cells at the first `n` storage places.
    pub open spec fn region_upto(self, n: int) -> Set<(int, int, int)> {
        Set::new(
            |p: (int, int, int)|
                self.origin.covers(p.0, p.1, p.2) && self.point_index(p.0, p.1, p.2) < n,
        )
    }

    /// The chunk with the flags of every block in `region` brought up to date,
    /// and nothing else changed.
    pub open spec fn refreshed_in(
        self,
        region: Set<(int, int, int)>,
        context: Option<ManagerView>,
    ) -> ChunkView {
        ChunkView {
            origin: self.origin,
            cells: Seq::new(
                self.cells.len(),
                |k: int|
                    match self.cells[k] {
                        Some(b) => if region.contains(self.index_point(k)) {
                            Some(
                                self.refreshed(
                                    b,
                                    self.index_point(k).0,
                                    self.index_point(k).1,
                                    self.index_point(k).2,
                                    context,
                                ),
                            )
                        } else {
                            Some(b)
                        },
                        None => None,
                    },
            ),
        }
    }

    /// The chunk after `block` was placed at `(x, y, z)`: the block stands
    /// there, and its flags and those of its six neighbours are up to date.
    pub open spec fn placed(self, x: int, y: int, z: int, block: Block) -> ChunkView {
        self.with_cell(x, y, z, Some(block)).refreshed_in(
            Self::around(x, y, z).insert((x, y, z)),
            None,
        )
    }

    /// The chunk after the block at `(x, y, z)` was taken away: the cell is
    /// empty, and the flags of its six neighbours are up to date.
    pub open spec fn cleared(self, x: int, y: int, z: int) -> ChunkView {
        self.with_cell(x, y, z, None).refreshed_in(Self::around(x, y, z), None)
    }

    /// The chunk with the cell at `(x, y, z)` holding `content`; the same
    /// chunk where the position lies outside it.
    pub open spec fn with_cell(self, x: int, y: int, z: int, content: Option<Block>) -> ChunkView {
        if self.origin.covers(x, y, z) {
            ChunkView {
                origin: self.origin,
                cells: self.cells.update(self.point_index(x, y, z), content),
            }
        } else {
            self
        }
    }

    /// Whether both chunks have blocks in the same places, of the same materials.
    pub open spec fn same_blocks(self, other: ChunkView) -> bool {
        &&& self.origin == other.origin
        &&& self.cells.len() == other.cells.len()
        &&& forall|k: int|
            0 <= k < self.cells.len() ==> (#[trigger] self.cells[k] is Some) == (
            other.cells[k] is Some)
        &&& forall|k: int|
            0 <= k < self.cells.len() && self.cells[k] is Some ==> (
            #[trigger] self.cells[k]).unwrap().block_type == other.cells[k].unwrap().block_type
    }
}

impl ChunkView {
    /// Positions in the chunk and storage places correspond one to one.
    pub proof fn lemma_index_point(self, k: int)
        requires
            self.wf(),
            0 <= k < CHUNK_VOLUME,
        ensures
            self.origin.covers(
                self.index_point(k).0,
                self.index_point(k).1,
                self.index_point(k).2,
            ),
            self.point_index(self.index_point(k).0, self.index_point(k).1, self.index_point(k).2)
                == k,
    {
    }

    /// Each position in the chunk has a storage place, and that place is its own.
    pub proof fn lemma_point_index(self, x: int, y: int, z: int)
        requires
            self.wf(),
            self.origin.covers(x, y, z),
        ensures
            0 <= self.point_index(x, y, z) < CHUNK_VOLUME,
            self.index_point(self.point_index(x, y, z)) == (x, y, z),
    {
    }

    /// Exposure depends only on where blocks stand.
    pub proof fn lemma_exposure_same_blocks(
        self,
        other: ChunkView,
        x: int,
        y: int,
        z: int,
        context: Option<ManagerView>,
    )
        requires
            self.wf(),
            self.same_blocks(other),
        ensures
            self.exposure(x, y, z, context) == other.exposure(x, y, z, context),
    {
        assert forall|i: int| 0 <= i < 6 implies self.exposed(
            x,
            y,
            z,
            BlockFace::spec_from_index(i),
            context,
        ) == other.exposed(x, y, z, BlockFace::spec_from_index(i), context) by {
            let face = BlockFace::spec_from_index(i);
            let nx = x + face.offset().0;
            let ny = y + face.offset().1;
            let nz = z + face.offset().2;
            if self.origin.covers(nx, ny, nz) {
                self.lemma_point_index(nx, ny, nz);
            }
        }
        assert(self.exposure(x, y, z, context) =~= other.exposure(x, y, z, context));
    }

    /// Bringing flags up to date moves no block and changes no material.
    pub proof fn lemma_refreshed_same_blocks(
        self,
        region: Set<(int, int, int)>,
        context: Option<ManagerView>,
    )
        requires
            self.wf(),
        ensures
            self.same_blocks(self.refreshed_in(region, context)),
            self.refreshed_in(region, context).wf(),
    {
        let r = self.refreshed_in(region, context);
        assert forall|k: int| 0 <= k < self.cells.len() implies (#[trigger] self.cells[k] is Some)
            == (r.cells[k] is Some) by {}
        assert forall|k: int| 0 <= k < self.cells.len() && self.cells[k] is Some implies (
        #[trigger] self.cells[k]).unwrap().block_type == r.cells[k].unwrap().block_type by {
            let p = self.index_point(k);
            let b = self.cells[k].unwrap();
            Block::lemma_with_faces(b.block_type, self.exposure(p.0, p.1, p.2, context));
        }
    }

    /// The block at a position after the flags in `region` were brought up to date.
    pub proof fn lemma_refreshed_at(
        self,
        region: Set<(int, int, int)>,
        context: Option<ManagerView>,
        x: int,
        y: int,
        z: int,
    )
        requires
            self.wf(),
        ensures
            self.refreshed_in(region, context).at(x, y, z) == (match self.at(x, y, z) {
                Some(b) => if region.contains((x, y, z)) {
                    Some(self.refreshed(b, x, y, z, context))
                } else {
                    Some(b)
                },
                None => None,
            }),
    {
        if self.origin.covers(x, y, z) {
            self.lemma_point_index(x, y, z);
        }
    }

    /// A pass over no position changes nothing.
    pub proof fn lemma_refreshed_nowhere(self, context: Option<ManagerView>)
        requires
            self.wf(),
        ensures
            self.refreshed_in(Set::empty(), context) == self,
    {
        assert(self.refreshed_in(Set::empty(), context).cells =~= self.cells);
    }

    /// A pass is decided by the positions of its region that lie in the chunk.
    pub proof fn lemma_refreshed_congruent(
        self,
        first: Set<(int, int, int)>,
        second: Set<(int, int, int)>,
        context: Option<ManagerView>,
    )
        requires
            self.wf(),
            forall|x: int, y: int, z: int|
                self.origin.covers(x, y, z) ==> (first.contains((x, y, z)) == second.contains(
                    (x, y, z),
                )),
        ensures
            self.refreshed_in(first, context) == self.refreshed_in(second, context),
    {
        let a = self.refreshed_in(first, context);
        let b = self.refreshed_in(second, context);
        assert forall|k: int| 0 <= k < self.cells.len() implies a.cells[k] == b.cells[k] by {
            self.lemma_index_point(k);
            let p = self.index_point(k);
            assert(first.contains((p.0, p.1, p.2)) == second.contains((p.0, p.1, p.2)));
        }
        assert(a.cells =~= b.cells);
    }

    /// Two passes over two regions amount to one pass over both.
    pub proof fn lemma_refreshed_twice(
        self,
        first: Set<(int, int, int)>,
        second: Set<(int, int, int)>,
        context: Option<ManagerView>,
    )
        requires
            self.wf(),
        ensures
            self.refreshed_in(first, context).refreshed_in(second, context) == self.refreshed_in(
                first.union(second),
                context,
            ),
    {
        let mid = self.refreshed_in(first, context);
        let both = mid.refreshed_in(second, context);
        let once = self.refreshed_in(first.union(second), context);
        self.lemma_refreshed_same_blocks(first, context);
        assert forall|k: int| 0 <= k < self.cells.len() implies both.cells[k] == once.cells[k] by {
            let p = self.index_point(k);
            assert(mid.index_point(k) == p);
            self.lemma_exposure_same_blocks(mid, p.0, p.1, p.2, context);
            if self.cells[k] is Some && second.contains(p) {
                let b = self.cells[k].unwrap();
                assert(mid.cells[k].unwrap().block_type == b.block_type);
            }
        }
        assert(both.cells =~= once.cells);
    }
}

impl ChunkView {
    /// A block whose flags were brought up to date keeps its material, and
    /// each of its faces shows exactly when it is exposed.
    pub proof fn lemma_refreshed_block(
        self,
        b: Block,
        x: int,
        y: int,
        z: int,
        context: Option<ManagerView>,
        face: BlockFace,
    )
        ensures
            self.refreshed(b, x, y, z, context).block_type == b.block_type,
            self.refreshed(b, x, y, z, context).spec_visible(face) == self.exposed(
                x,
                y,
                z,
                face,
                context,
            ),
    {
        Block::lemma_with_faces(b.block_type, self.exposure(x, y, z, context));
        BlockFace::lemma_index_roundtrip(face);
    }

    /// After a block was placed, it stands at its position with its material,
    /// and each of its faces shows exactly when no block of the chunk stands
    /// across it.
    pub proof fn lemma_placed_block(self, x: int, y: int, z: int, block: Block, face: BlockFace)
        requires
            self.wf(),
            self.origin.covers(x, y, z),
        ensures
            self.placed(x, y, z, block).at(x, y, z) is Some,
            self.placed(x, y, z, block).at(x, y, z).unwrap().block_type == block.block_type,
            self.placed(x, y, z, block).at(x, y, z).unwrap().spec_visible(face) == !self.occupied(
                x + face.offset().0,
                y + face.offset().1,
                z + face.offset().2,
            ),
    {
        let filled = self.with_cell(x, y, z, Some(block));
        let region = Self::around(x, y, z).insert((x, y, z));
        self.lemma_point_index(x, y, z);
        filled.lemma_refreshed_at(region, None, x, y, z);
        filled.lemma_refreshed_block(block, x, y, z, None, face);
        let n = Self::neighbour(x, y, z, face);
        if self.origin.covers(n.0, n.1, n.2) {
            self.lemma_point_index(n.0, n.1, n.2);
        }
    }

    /// After a block was placed at `(x, y, z)`, a block that stood next to it
    /// across `face` still stands there with its material, and each of its
    /// faces shows exactly when no block of the chunk, the new one included,
    /// stands across it.
    pub proof fn lemma_placed_neighbour(
        self,
        x: int,
        y: int,
        z: int,
        block: Block,
        face: BlockFace,
        side: BlockFace,
    )
        requires
            self.wf(),
            self.origin.covers(x, y, z),
            self.occupied(x + face.offset().0, y + face.offset().1, z + face.offset().2),
        ensures
            ({
                let q = Self::neighbour(x, y, z, face);
                let r = Self::neighbour(q.0, q.1, q.2, side);
                let after = self.placed(x, y, z, block).at(q.0, q.1, q.2);
                &&& after is Some
                &&& after.unwrap().block_type == self.at(q.0, q.1, q.2).unwrap().block_type
                &&& after.unwrap().spec_visible(side) == !(r == (x, y, z) || self.occupied(
                    r.0,
                    r.1,
                    r.2,
                ))
            }),
    {
        let filled = self.with_cell(x, y, z, Some(block));
        let region = Self::around(x, y, z).insert((x, y, z));
        let q = Self::neighbour(x, y, z, face);
        let r = Self::neighbour(q.0, q.1, q.2, side);
        self.lemma_point_index(x, y, z);
        self.lemma_point_index(q.0, q.1, q.2);
        filled.lemma_refreshed_at(region, None, q.0, q.1, q.2);
        assert(Self::around(x, y, z).contains(q));
        let b = self.at(q.0, q.1, q.2).unwrap();
        assert(filled.at(q.0, q.1, q.2) == Some(b));
        filled.lemma_refreshed_block(b, q.0, q.1, q.2, None, side);
        if self.origin.covers(r.0, r.1, r.2) {
            self.lemma_point_index(r.0, r.1, r.2);
        }
    }

    /// Placing a block changes nothing at a position that is neither its own
    /// nor next to it.
    pub proof fn lemma_placed_elsewhere(
        self,
        x: int,
        y: int,
        z: int,
        block: Block,
        px: int,
        py: int,
        pz: int,
    )
        requires
            self.wf(),
            self.origin.covers(x, y, z),
            (px, py, pz) != (x, y, z),
            !Self::around(x, y, z).contains((px, py, pz)),
        ensures
            self.placed(x, y, z, block).at(px, py, pz) == self.at(px, py, pz),
    {
        let filled = self.with_cell(x, y, z, Some(block));
        let region = Self::around(x, y, z).insert((x, y, z));
        self.lemma_point_index(x, y, z);
        filled.lemma_refreshed_at(region, None, px, py, pz);
        if self.origin.covers(px, py, pz) {
            self.lemma_point_index(px, py, pz);
        }
    }

    /// After a block was taken away, its cell is empty, and a block next to
    /// it across `face` keeps its material and shows each of its faces exactly
    /// when no block of the chunk stands across it.
    pub proof fn lemma_cleared_neighbour(
        self,
        x: int,
        y: int,
        z: int,
        face: BlockFace,
        side: BlockFace,
    )
        requires
            self.wf(),
            self.origin.covers(x, y, z),
        ensures
            self.cleared(x, y, z).at(x, y, z) is None,
            ({
                let q = Self::neighbour(x, y, z, face);
                let r = Self::neighbour(q.0, q.1, q.2, side);
                let after = self.cleared(x, y, z).at(q.0, q.1, q.2);
                &&& after is Some == self.occupied(q.0, q.1, q.2)
                &&& after is Some ==> after.unwrap().block_type == self.at(
                    q.0,
                    q.1,
                    q.2,
                ).unwrap().block_type
                &&& after is Some ==> after.unwrap().spec_visible(side) == (r == (x, y, z)
                    || !self.occupied(r.0, r.1, r.2))
            }),
    {
        let emptied = self.with_cell(x, y, z, None);
        let region = Self::around(x, y, z);
        let q = Self::neighbour(x, y, z, face);
        let r = Self::neighbour(q.0, q.1, q.2, side);
        self.lemma_point_index(x, y, z);
        emptied.lemma_refreshed_at(region, None, x, y, z);
        emptied.lemma_refreshed_at(region, None, q.0, q.1, q.2);
        assert(region.contains(q));
        if self.origin.covers(q.0, q.1, q.2) {
            self.lemma_point_index(q.0, q.1, q.2);
            if self.at(q.0, q.1, q.2) is Some {
                let b = self.at(q.0, q.1, q.2).unwrap();
                assert(emptied.at(q.0, q.1, q.2) == Some(b));
                emptied.lemma_refreshed_block(b, q.0, q.1, q.2, None, side);
            }
        }
        if self.origin.covers(r.0, r.1, r.2) {
            self.lemma_point_index(r.0, r.1, r.2);
        }
    }

    /// Taking a block away changes nothing at a position that is neither its
    /// own nor next to it.
    pub proof fn lemma_cleared_elsewhere(self, x: int, y: int, z: int, px: int, py: int, pz: int)
        requires
            self.wf(),
            self.origin.covers(x, y, z),
            (px, py, pz) != (x, y, z),
            !Self::around(x, y, z).contains((px, py, pz)),
        ensures
            self.cleared(x, y, z).at(px, py, pz) == self.at(px, py, pz),
    {
        let emptied = self.with_cell(x, y, z, None);
        self.lemma_point_index(x, y, z);
        emptied.lemma_refreshed_at(Self::around(x, y, z), None, px, py, pz);
        if self.origin.covers(px, py, pz) {
            self.lemma_point_index(px, py, pz);
        }
    }
}

/// The view of the manager that an exposure pass may consult.
pub open spec fn context_view(chunk_manager: Option<&ChunkManager>) -> Option<ManagerView> {
    match chunk_manager {
        Some(m) => Some(m@),
        None => None,
    }
}

/// Whether the manager offered to an exposure pass, if any, is well formed.
pub open spec fn context_wf(chunk_manager: Option<&ChunkManager>) -> bool {
    match chunk_manager {
        Some(m) => m.wf(),
        None => true,
    }
}

/// Why a block could not be placed.
#[derive(Debug, Clone, Copy, PartialEq, Eq, Structural)]
pub enum SetBlockError {
    /// The position lies in no cell that could take the block.
    OutOfBounds,
    /// A block already stands at the position.
    Occupied,
}

/// Why no block could be removed.
#[derive(Debug, Clone, Copy, PartialEq, Eq, Structural)]
pub enum RemoveBlockError {
    /// The position lies in no cell that could hold a block.
    OutOfBounds,
    /// No block stands at the position.
    Empty,
}

/// The voxels of one vertical column of the world, 16 by 16 cells wide and
/// 256 layers high.
#[derive(Debug, Clone)]
pub struct Chunk {
    origin: ChunkOrigin,
    blocks: Vec<Option<Block>>,
}

impl View for Chunk {
    type V = ChunkView;

    closed spec fn view(&self) -> ChunkView {
        ChunkView { origin: self.origin, cells: self.blocks@ }
    }
}

/// The storage place of a cell of the grid.
fn cell_index(l: LocalPoint) -> (k: usize)
    requires
        l.in_grid(),
    ensures
        k == flat_index(l),
        k < CHUNK_VOLUME,
{
    (l.z * CHUNK_WIDTH + l.y) * CHUNK_WIDTH + l.x
}

impl Chunk {
    /// The chunk's origin lies on the chunk grid and every cell has its place.
    pub open spec fn wf(&self) -> bool {
        self@.wf()
    }

    /// The chunk's origin.
    pub fn origin(&self) -> (o: ChunkOrigin)
        ensures
            o == self@.origin,
    {
        self.origin
    }

    /// What the chunk holds at `loc`: the content of the cell, or the bounds
    /// error where `loc` names no cell of this chunk.
    pub open spec fn spec_get(&self, loc: ChunkCoord) -> Result<Option<Block>, BoundsError> {
        match loc.spec_to_local(self@.origin) {
            Ok(l) => Ok(self@.cell(l)),
            Err(e) => Err(e),
        }
    }

    /// The content of the cell at `loc`, by reference; the bounds error
    /// where `loc` names no cell of this chunk.
    pub fn get_ref(&self, loc: ChunkCoord) -> (r: Result<&Option<Block>, BoundsError>)
        requires
            self.wf(),
        ensures
            r is Ok <==> self.spec_get(loc) is Ok,
            r is Ok ==> *r.unwrap() == self.spec_get(loc).unwrap(),
    {
        match loc.to_local(self.origin) {
            Ok(local_loc) => Ok(&self.blocks[cell_index(local_loc)]),
            Err(e) => Err(e),
        }
    }

    /// The content of the cell at `loc`; the bounds error where `loc` names
    /// no cell of this chunk.
    pub fn get(&self, loc: ChunkCoord) -> (r: Result<Option<Block>, BoundsError>)
        requires
            self.wf(),
        ensures
            r == self.spec_get(loc),
    {
        match loc.to_local(self.origin) {
            Ok(local_loc) => Ok(self.blocks[cell_index(local_loc)]),
            Err(e) => Err(e),
        }
    }

    /// Whether a block stands at `coord` in this chunk.
    pub fn block_at(&self, coord: ChunkCoord) -> (r: bool)
        requires
            self.wf(),
        ensures
            r == (self.spec_get(coord) matches Ok(Some(_))),
    {
        match self.get_ref(coord) {
            Ok(Some(_)) => true,
            _ => false,
        }
    }

    /// Whether world position `(x, y, z)` lies in this chunk.
    fn covers_point(&self, x: i64, y: i64, z: i64) -> (r: bool)
        requires
            self.wf(),
        ensures
            r == self@.origin.covers(x as int, y as int, z as int),
    {
        let ox: i64 = self.origin.x as i64;
        let oy: i64 = self.origin.y as i64;
        let oz: i64 = BOTTOM_DEPTH as i64;
        ox <= x && x < ox + CHUNK_WIDTH as i64 && oy <= y && y < oy + CHUNK_WIDTH as i64 && oz <= z
            && z < oz + CHUNK_HEIGHT as i64
    }

    /// The storage place of the cell at world position `(x, y, z)`.
    fn index_of_point(&self, x: i64, y: i64, z: i64) -> (k: usize)
        requires
            self.wf(),
            self@.origin.covers(x as int, y as int, z as int),
        ensures
            k == self@.point_index(x as int, y as int, z as int),
            k < CHUNK_VOLUME,
    {
        let lx: i64 = x - self.origin.x as i64;
        let ly: i64 = y - self.origin.y as i64;
        let lz: i64 = z - BOTTOM_DEPTH as i64;
        cell_index(LocalPoint { x: lx as usize, y: ly as usize, z: lz as usize })
    }

    /// The world position of the cell at storage place `k`.
    fn point_of_index(&self, k: usize) -> (p: (i64, i64, i64))
        requires
            self.wf(),
            k < CHUNK_VOLUME,
        ensures
            (p.0 as int, p.1 as int, p.2 as int) == self@.index_point(k as int),
    {
        let x: i64 = self.origin.x as i64 + (k % CHUNK_WIDTH) as i64;
        let y: i64 = self.origin.y as i64 + ((k / CHUNK_WIDTH) % CHUNK_WIDTH) as i64;
        let z: i64 = BOTTOM_DEPTH as i64 + (k / (CHUNK_WIDTH * CHUNK_WIDTH)) as i64;
        (x, y, z)
    }

    /// Whether the face `face` of the voxel at `(x, y, z)` is exposed.
    fn face_exposed(
        &self,
        x: i64,
        y: i64,
        z: i64,
        face: BlockFace,
        chunk_manager: Option<&ChunkManager>,
    ) -> (v: bool)
        requires
            self.wf(),
            context_wf(chunk_manager),
            i32::MIN <= x <= i32::MAX,
            i32::MIN <= y <= i32::MAX,
            i32::MIN <= z <= i32::MAX,
        ensures
            v == self@.exposed(x as int, y as int, z as int, face, context_view(chunk_manager)),
    {
        let d = face.unit_offset();
        let nx: i64 = x + d.0;
        let ny: i64 = y + d.1;
        let nz: i64 = z + d.2;
        if self.covers_point(nx, ny, nz) {
            let k = self.index_of_point(nx, ny, nz);
            self.blocks[k].is_none()
        } else {
            match chunk_manager {
                Some(m) => {
                    if nx < i32::MIN as i64 || nx > i32::MAX as i64 || ny < i32::MIN as i64 || ny
                        > i32::MAX as i64 || nz < i32::MIN as i64 || nz > i32::MAX as i64 {
                        true
                    } else {
                        !m.block_at(WorldPoint { x: nx as i32, y: ny as i32, z: nz as i32 })
                    }
                },
                None => true,
            }
        }
    }

    /// Brings the flags of the block at storage place `k`, if there is one, up to date.
    fn refresh_index(&mut self, k: usize, chunk_manager: Option<&ChunkManager>)
        requires
            old(self).wf(),
            context_wf(chunk_manager),
            k < CHUNK_VOLUME,
        ensures
            final(self)@ == old(self)@.refreshed_in(
                set![old(self)@.index_point(k as int)],
                context_view(chunk_manager),
            ),
    {
        let ghost before = self@;
        let ghost context = context_view(chunk_manager);
        let ghost region = set![before.index_point(k as int)];
        proof {
            before.lemma_index_point(k as int);
        }
        match self.blocks[k] {
            Some(b) => {
                let p = self.point_of_index(k);
                let faces = BlockFace::iter();
                let mut updated: Block = b;
                let mut i: usize = 0;
                while i < 6
                    invariant
                        i <= 6,
                        self@ == before,
                        self.wf(),
                        context_wf(chunk_manager),
                        context == context_view(chunk_manager),
                        (p.0 as int, p.1 as int, p.2 as int) == before.index_point(k as int),
                        before.origin.covers(p.0 as int, p.1 as int, p.2 as int),
                        forall|j: int| 0 <= j < 6 ==> faces[j] == BlockFace::spec_from_index(j),
                        updated.block_type == b.block_type,
                        updated.faces().len() == 6,
                        forall|j: int|
                            0 <= j < i ==> updated.faces()[j] == before.exposure(
                                p.0 as int,
                                p.1 as int,
                                p.2 as int,
                                context,
                            )[j],
                    decreases 6 - i,
                {
                    let face = faces[i];
                    let v = self.face_exposed(p.0, p.1, p.2, face, chunk_manager);
                    updated.set_visible(face, v);
                    i += 1;
                }
                self.blocks[k] = Some(updated);
                proof {
                    let goal = before.refreshed_in(region, context);
                    let flags = before.exposure(p.0 as int, p.1 as int, p.2 as int, context);
                    Block::lemma_with_faces(b.block_type, flags);
                    assert(updated.faces() =~= flags);
                    Block::lemma_ext(
                        updated,
                        before.refreshed(b, p.0 as int, p.1 as int, p.2 as int, context),
                    );
                    assert forall|j: int| 0 <= j < CHUNK_VOLUME implies self@.cells[j]
                        == goal.cells[j] by {
                        before.lemma_index_point(j);
                    }
                    assert(self@.cells =~= goal.cells);
                }
            },
            None => {
                proof {
                    let goal = before.refreshed_in(region, context);
                    assert forall|j: int| 0 <= j < CHUNK_VOLUME implies self@.cells[j]
                        == goal.cells[j] by {
                        before.lemma_index_point(j);
                    }
                    assert(self@.cells =~= goal.cells);
                }
            },
        }
    }

    /// Brings the six visibility flags of the block at `pos` up to date: a
    /// face is hidden exactly when a block stands across it. Where `pos`
    /// names no block of this chunk, nothing changes.
    pub fn update_exposure_block(&mut self, pos: ChunkCoord, chunk_manager: Option<&ChunkManager>)
        requires
            old(self).wf(),
            context_wf(chunk_manager),
        ensures
            final(self).wf(),
            final(self)@ == old(self)@.refreshed_in(
                set![pos.position(old(self)@.origin)],
                context_view(chunk_manager),
            ),
    {
        let ghost before = self@;
        let ghost context = context_view(chunk_manager);
        match pos.to_local(self.origin) {
            Ok(l) => {
                let k = cell_index(l);
                proof {
                    before.lemma_index_point(k as int);
                    let p = pos.position(before.origin);
                    before.lemma_point_index(p.0, p.1, p.2);
                    assert(before.index_point(k as int) == p);
                }
                self.refresh_index(k, chunk_manager);
            },
            Err(_) => {
                proof {
                    let p = pos.position(before.origin);
                    assert(!before.origin.covers(p.0, p.1, p.2));
                    before.lemma_refreshed_congruent(set![p], Set::empty(), context);
                    before.lemma_refreshed_nowhere(context);
                }
            },
        }
        proof {
            before.lemma_refreshed_same_blocks(set![pos.position(before.origin)], context);
        }
    }

    /// The world position that `pos` names, where one of its neighbours may
    /// lie in this chunk.
    fn centre_of(&self, pos: ChunkCoord) -> (c: Option<(i64, i64, i64)>)
        requires
            self.wf(),
        ensures
            c matches Some(p) ==> (p.0 as int, p.1 as int, p.2 as int) == pos.position(
                self@.origin,
            ) && -0x1_0000_0000 <= p.0 <= 0x1_0000_0000 && -0x1_0000_0000 <= p.1 <= 0x1_0000_0000
                && -0x1_0000_0000 <= p.2 <= 0x1_0000_0000,
            c is None ==> forall|x: int, y: int, z: int|
                #![trigger self@.origin.covers(x, y, z)]
                ChunkView::around(
                    pos.position(self@.origin).0,
                    pos.position(self@.origin).1,
                    pos.position(self@.origin).2,
                ).contains((x, y, z)) ==> !self@.origin.covers(x, y, z),
    {
        match pos {
            ChunkCoord::World(p) => Some((p.x as i64, p.y as i64, p.z as i64)),
            ChunkCoord::Local(l) => {
                if l.x <= CHUNK_WIDTH && l.y <= CHUNK_WIDTH && l.z <= CHUNK_HEIGHT {
                    Some(
                        (
                            self.origin.x as i64 + l.x as i64,
                            self.origin.y as i64 + l.y as i64,
                            BOTTOM_DEPTH as i64 + l.z as i64,
                        ),
                    )
                } else {
                    None
                }
            },
        }
    }

    /// Brings the flags of the six neighbours of `pos` up to date, as far as
    /// they are blocks of this chunk.
    pub fn update_exposure_around(&mut self, pos: ChunkCoord, chunk_manager: Option<&ChunkManager>)
        requires
            old(self).wf(),
            context_wf(chunk_manager),
        ensures
            final(self).wf(),
            final(self)@ == old(self)@.refreshed_in(
                ChunkView::around(
                    pos.position(old(self)@.origin).0,
                    pos.position(old(self)@.origin).1,
                    pos.position(old(self)@.origin).2,
                ),
                context_view(chunk_manager),
            ),
    {
        let ghost before = self@;
        let ghost context = context_view(chunk_manager);
        let ghost c = pos.position(before.origin);
        match self.centre_of(pos) {
            Some(p) => {
                let faces = BlockFace::iter();
                let mut i: usize = 0;
                proof {
                    before.lemma_refreshed_congruent(
                        ChunkView::around_upto(c.0, c.1, c.2, 0),
                        Set::empty(),
                        context,
                    );
                    before.lemma_refreshed_nowhere(context);
                }
                while i < 6
                    invariant
                        i <= 6,
                        before.wf(),
                        self.wf(),
                        context_wf(chunk_manager),
                        context == context_view(chunk_manager),
                        (p.0 as int, p.1 as int, p.2 as int) == c,
                        -0x1_0000_0000 <= p.0 <= 0x1_0000_0000,
                        -0x1_0000_0000 <= p.1 <= 0x1_0000_0000,
                        -0x1_0000_0000 <= p.2 <= 0x1_0000_0000,
                        forall|j: int| 0 <= j < 6 ==> faces[j] == BlockFace::spec_from_index(j),
                        self@ == before.refreshed_in(
                            ChunkView::around_upto(c.0, c.1, c.2, i as int),
                            context,
                        ),
                    decreases 6 - i,
                {
                    let face = faces[i];
                    let d = face.unit_offset();
                    let nx: i64 = p.0 + d.0;
                    let ny: i64 = p.1 + d.1;
                    let nz: i64 = p.2 + d.2;
                    let ghost done = ChunkView::around_upto(c.0, c.1, c.2, i as int);
                    let ghost next = ChunkView::around_upto(c.0, c.1, c.2, i + 1);
                    let ghost n = (nx as int, ny as int, nz as int);
                    proof {
                        assert(face == BlockFace::spec_from_index(i as int));
                        assert(n == ChunkView::neighbour(c.0, c.1, c.2, face));
                        assert forall|q: (int, int, int)| next.contains(q) == done.insert(
                            n,
                        ).contains(q) by {
                            if i == 0 {
                            } else if i == 1 {
                            } else if i == 2 {
                            } else if i == 3 {
                            } else if i == 4 {
                            } else {
                            }
                        }
                        assert(next =~= done.insert(n));
                        assert(done.insert(n) =~= done.union(set![n]));
                    }
                    if self.covers_point(nx, ny, nz) {
                        let k = self.index_of_point(nx, ny, nz);
                        proof {
                            before.lemma_point_index(n.0, n.1, n.2);
                            assert(self@.index_point(k as int) == n);
                            before.lemma_refreshed_twice(done, set![n], context);
                        }
                        self.refresh_index(k, chunk_manager);
                    } else {
                        proof {
                            before.lemma_refreshed_congruent(done, next, context);
                        }
                    }
                    proof {
                        before.lemma_refreshed_same_blocks(next, context);
                    }
                    i += 1;
                }
            },
            None => {
                proof {
                    before.lemma_refreshed_congruent(
                        ChunkView::around(c.0, c.1, c.2),
                        Set::empty(),
                        context,
                    );
                    before.lemma_refreshed_nowhere(context);
                }
            },
        }
    }

    /// Brings the flags of every block of the chunk up to date.
    pub fn update_exposure_chunk(&mut self, chunk_manager: Option<&ChunkManager>)
        requires
            old(self).wf(),
            context_wf(chunk_manager),
        ensures
            final(self).wf(),
            final(self)@ == old(self)@.refreshed_in(Set::full(), context_view(chunk_manager)),
    {
        let ghost before = self@;
        let ghost context = context_view(chunk_manager);
        let mut k: usize = 0;
        proof {
            before.lemma_refreshed_congruent(before.region_upto(0), Set::empty(), context);
            before.lemma_refreshed_nowhere(context);
        }
        while k < CHUNK_VOLUME
            invariant
                k <= CHUNK_VOLUME,
                before.wf(),
                self.wf(),
                context_wf(chunk_manager),
                context == context_view(chunk_manager),
                self@ == before.refreshed_in(before.region_upto(k as int), context),
            decreases CHUNK_VOLUME - k,
        {
            let ghost done = before.region_upto(k as int);
            let ghost next = before.region_upto(k + 1);
            let ghost p = before.index_point(k as int);
            proof {
                before.lemma_index_point(k as int);
                assert(next =~= done.union(set![p]));
                before.lemma_refreshed_twice(done, set![p], context);
                before.lemma_refreshed_same_blocks(next, context);
            }
            self.refresh_index(k, chunk_manager);
            k += 1;
        }
        proof {
            assert forall|x: int, y: int, z: int| before.origin.covers(x, y, z) implies (
            before.region_upto(CHUNK_VOLUME as int).contains((x, y, z)) == Set::<
                (int, int, int),
            >::full().contains((x, y, z))) by {
                before.lemma_point_index(x, y, z);
            }
            before.lemma_refreshed_congruent(
                before.region_upto(CHUNK_VOLUME as int),
                Set::full(),
                context,
            );
        }
    }

    /// Replaces the content of the cell at `block_loc` by what `f` makes of
    /// it. Nothing happens where `block_loc` lies outside this chunk.
    pub fn mutate_block<F>(&mut self, block_loc: WorldPoint, f: F) where
        F: FnOnce(Option<Block>) -> Option<Block>,

        requires
            old(self).wf(),
            old(self)@.origin.contains(block_loc) ==> f.requires(
                (old(self)@.cell(old(self)@.origin.local_of(block_loc)),),
            ),
        ensures
            final(self).wf(),
            !old(self)@.origin.contains(block_loc) ==> final(self)@ == old(self)@,
            old(self)@.origin.contains(block_loc) ==> f.ensures(
                (old(self)@.cell(old(self)@.origin.local_of(block_loc)),),
                final(self)@.cell(old(self)@.origin.local_of(block_loc)),
            ) && final(self)@ == old(self)@.with_cell(
                block_loc.x as int,
                block_loc.y as int,
                block_loc.z as int,
                final(self)@.cell(old(self)@.origin.local_of(block_loc)),
            ),
    {
        match ChunkCoord::World(block_loc).to_local(self.origin) {
            Ok(l) => {
                let k = cell_index(l);
                let content = f(self.blocks[k]);
                self.blocks[k] = content;
            },
            Err(_) => {},
        }
    }

    /// Places `block` at `loc`. This succeeds only into an empty cell of this
    /// chunk; the flags of the block and of its six neighbours in this chunk
    /// are then brought up to date, with neighbours outside the chunk taken
    /// as absent. On failure the chunk is unchanged.
    pub fn set_block(&mut self, loc: WorldPoint, block: Block) -> (r: Result<(), SetBlockError>)
        requires
            old(self).wf(),
        ensures
            final(self).wf(),
            !old(self)@.origin.contains(loc) ==> r == Err::<(), SetBlockError>(
                SetBlockError::OutOfBounds,
            ) && final(self)@ == old(self)@,
            old(self)@.occupied(loc.x as int, loc.y as int, loc.z as int) ==> r == Err::<
                (),
                SetBlockError,
            >(SetBlockError::Occupied) && final(self)@ == old(self)@,
            old(self)@.origin.contains(loc) && !old(self)@.occupied(
                loc.x as int,
                loc.y as int,
                loc.z as int,
            ) ==> r == Ok::<(), SetBlockError>(()) && final(self)@ == old(self)@.placed(
                loc.x as int,
                loc.y as int,
                loc.z as int,
                block,
            ),
    {
        let coord = ChunkCoord::World(loc);
        let ghost before = self@;
        match coord.to_local(self.origin) {
            Ok(l) => {
                let k = cell_index(l);
                if self.blocks[k].is_some() {
                    Err(SetBlockError::Occupied)
                } else {
                    self.blocks[k] = Some(block);
                    let ghost filled = self@;
                    proof {
                        assert(filled == before.with_cell(
                            loc.x as int,
                            loc.y as int,
                            loc.z as int,
                            Some(block),
                        ));
                    }
                    self.update_exposure_block(coord, None);
                    self.update_exposure_around(coord, None);
                    proof {
                        let here = (loc.x as int, loc.y as int, loc.z as int);
                        let ring = ChunkView::around(here.0, here.1, here.2);
                        filled.lemma_refreshed_twice(set![here], ring, None);
                        assert(set![here].union(ring) =~= ring.insert(here));
                    }
                    Ok(())
                }
            },
            Err(_) => Err(SetBlockError::OutOfBounds),
        }
    }

    /// Takes the block at `loc` away and returns it. This succeeds only where
    /// a block stands at `loc` in this chunk; the flags of its six neighbours
    /// in this chunk are then brought up to date. On failure the chunk is
    /// unchanged.
    pub fn remove_block(&mut self, loc: WorldPoint) -> (r: Result<Block, RemoveBlockError>)
        requires
            old(self).wf(),
        ensures
            final(self).wf(),
            !old(self)@.origin.contains(loc) ==> r == Err::<Block, RemoveBlockError>(
                RemoveBlockError::OutOfBounds,
            ) && final(self)@ == old(self)@,
            old(self)@.origin.contains(loc) && !old(self)@.occupied(
                loc.x as int,
                loc.y as int,
                loc.z as int,
            ) ==> r == Err::<Block, RemoveBlockError>(RemoveBlockError::Empty) && final(self)@
                == old(self)@,
            old(self)@.occupied(loc.x as int, loc.y as int, loc.z as int) ==> r == Ok::<
                Block,
                RemoveBlockError,
            >(old(self)@.at(loc.x as int, loc.y as int, loc.z as int).unwrap()) && final(self)@
                == old(self)@.cleared(loc.x as int, loc.y as int, loc.z as int),
    {
        let coord = ChunkCoord::World(loc);
        match coord.to_local(self.origin) {
            Ok(l) => {
                let k = cell_index(l);
                match self.blocks[k] {
                    Some(block) => {
                        self.blocks[k] = None;
                        self.update_exposure_around(coord, None);
                        Ok(block)
                    },
                    None => Err(RemoveBlockError::Empty),
                }
            },
            Err(_) => Err(RemoveBlockError::OutOfBounds),
        }
    }

    /// The chunk at `origin` whose cells hold `blocks`, in storage order.
    pub(crate) fn from_cells(origin: ChunkOrigin, blocks: Vec<Option<Block>>) -> (chunk: Self)
        requires
            origin.aligned(),
            blocks@.len() == CHUNK_VOLUME,
        ensures
            chunk.wf(),
            chunk@ == (ChunkView { origin, cells: blocks@ }),
    {
        Self { origin, blocks }
    }

    /// A chunk at `origin` without any block.
    pub fn gen_empty_chunk(origin: ChunkOrigin) -> (chunk: Self)
        requires
            origin.aligned(),
        ensures
            chunk.wf(),
            chunk@.origin == origin,
            chunk@.cells == Seq::new(CHUNK_VOLUME as nat, |k: int| None::<Block>),
    {
        let blocks: Vec<Option<Block>> = vec![None; CHUNK_VOLUME];
        assert(blocks@ =~= Seq::new(CHUNK_VOLUME as nat, |k: int| None::<Block>));
        Self { origin, blocks }
    }
}

} // verus!
