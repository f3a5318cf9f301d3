use vstd::prelude::*;
use crate::block::{Block, BlockFace, BlockType};
use crate::chunk::{Chunk, ChunkView, CHUNK_VOLUME};
use crate::coord::{BOTTOM_DEPTH, CHUNK_WIDTH};
use crate::point::ChunkOrigin;

verus! {

/// The number of layers, counted from the bottom, that generation fills with stone.
pub const SOLID_FILL_HEIGHT: usize = 123;

/// The number of layers above the stone over which generation scatters dirt.
pub const SCATTER_LAYERS: usize = 3;

/// The number of random draws that generating one chunk takes: one for each
/// column and scatter layer.
pub const SCATTER_DRAWS: usize = 768;

/// Calls `rand::random_ratio`, which returns `true` with probability
/// `numerator / denominator` and panics unless `numerator <= denominator` and
/// `denominator > 0`. Nothing is known of the outcome but what the function
/// documents: it is `true` where the two are equal and `false` where the
/// numerator is zero.
#[verifier::external_body]
fn random_ratio(numerator: u32, denominator: u32) -> (hit: bool)
    requires
        denominator != 0,
        numerator <= denominator,
    ensures
        numerator == denominator ==> hit,
        numerator == 0 ==> !hit,
{
    rand::random_ratio(numerator, denominator)
}

/// The place, among the draws of one chunk, of the draw for scatter layer
/// `layer` of the column at cell `(x, y)`.
pub open spec fn scatter_index(x: int, y: int, layer: int) -> int {
    (x * CHUNK_WIDTH + y) * SCATTER_LAYERS + layer
}

/// What generation puts into cell `(x, y, z)` of a chunk, given the draws
/// `scatter`: stone below the fill height; above it, in each scatter layer,
/// dirt where the draw of that layer and of every scatter layer below it in
/// the same column came out true, so that no block floats; nothing higher up.
pub open spec fn terrain_cell(x: int, y: int, z: int, scatter: Seq<bool>) -> Option<Block> {
    if z < SOLID_FILL_HEIGHT {
        Some(Block::spec_new(BlockType::Stone))
    } else if z < SOLID_FILL_HEIGHT + SCATTER_LAYERS && scatter[scatter_index(x, y, 0)] && (z
        >= SOLID_FILL_HEIGHT + 1 ==> scatter[scatter_index(x, y, 1)]) && (z >= SOLID_FILL_HEIGHT
        + 2 ==> scatter[scatter_index(x, y, 2)]) {
        Some(Block::spec_new(BlockType::Dirt))
    } else {
        None
    }
}

/// Generation leaves no block floating: above the bottom layer, a cell is
/// filled only where the cell below it is.
pub proof fn lemma_terrain_rests(x: int, y: int, z: int, scatter: Seq<bool>)
    requires
        z > 0,
        terrain_cell(x, y, z, scatter) is Some,
    ensures
        terrain_cell(x, y, z - 1, scatter) is Some,
{
}

impl ChunkView {
    /// The blocks that generation puts into the chunk at `origin`, given the
    /// draws `scatter`, before any face is shown.
    pub open spec fn terrain(origin: ChunkOrigin, scatter: Seq<bool>) -> ChunkView {
        ChunkView {
            origin,
            cells: Seq::new(
                CHUNK_VOLUME as nat,
                |k: int|
                    terrain_cell(
                        k % (CHUNK_WIDTH as int),
                        (k / (CHUNK_WIDTH as int)) % (CHUNK_WIDTH as int),
                        k / (CHUNK_WIDTH as int * CHUNK_WIDTH as int),
                        scatter,
                    ),
            ),
        }
    }

    /// Whether the chunk is what generation makes at its origin for some draws.
    pub open spec fn is_generated(self) -> bool {
        exists|scatter: Seq<bool>|
            scatter.len() == SCATTER_DRAWS && self == #[trigger] Self::generated(
                self.origin,
                scatter,
            )
    }

    /// What stands at a position of a generated chunk: the block that the
    /// terrain has there, showing each face exactly when no block of the
    /// chunk stands across it.
    pub proof fn lemma_generated_at(
        origin: ChunkOrigin,
        scatter: Seq<bool>,
        x: int,
        y: int,
        z: int,
        face: BlockFace,
    )
        requires
            origin.aligned(),
            origin.covers(x, y, z),
        ensures
            ({
                let made = Self::generated(origin, scatter);
                let raw = terrain_cell(x - origin.x, y - origin.y, z - BOTTOM_DEPTH, scatter);
                &&& made.wf()
                &&& made.at(x, y, z) is Some == raw is Some
                &&& raw is Some ==> made.at(x, y, z).unwrap().block_type
                    == raw.unwrap().block_type
                &&& raw is Some ==> made.at(x, y, z).unwrap().spec_visible(face) == !made.occupied(
                    x + face.offset().0,
                    y + face.offset().1,
                    z + face.offset().2,
                )
            }),
    {
        let land = Self::terrain(origin, scatter);
        let made = Self::generated(origin, scatter);
        let n = Self::neighbour(x, y, z, face);
        land.lemma_point_index(x, y, z);
        land.lemma_refreshed_same_blocks(Set::full(), None);
        land.lemma_refreshed_at(Set::full(), None, x, y, z);
        land.lemma_refreshed_at(Set::full(), None, n.0, n.1, n.2);
        if land.at(x, y, z) is Some {
            let b = land.at(x, y, z).unwrap();
            land.lemma_refreshed_block(b, x, y, z, None, face);
            Block::lemma_with_faces(b.block_type, Seq::new(6, |i: int| false));
        }
    }

    /// The chunk that generation makes at `origin`, given the draws `scatter`:
    /// its terrain, with the flags of every block up to date.
    pub open spec fn generated(origin: ChunkOrigin, scatter: Seq<bool>) -> ChunkView {
        Self::terrain(origin, scatter).refreshed_in(Set::full(), None)
    }
}

/// What generation puts into the cell at storage place `k`.
fn terrain_at(k: usize, scatter: &Vec<bool>) -> (content: Option<Block>)
    requires
        k < CHUNK_VOLUME,
        scatter@.len() == SCATTER_DRAWS,
    ensures
        content == terrain_cell(
            k as int % (CHUNK_WIDTH as int),
            (k as int / (CHUNK_WIDTH as int)) % (CHUNK_WIDTH as int),
            k as int / (CHUNK_WIDTH as int * CHUNK_WIDTH as int),
            scatter@,
        ),
{
    let x: usize = k % CHUNK_WIDTH;
    let y: usize = (k / CHUNK_WIDTH) % CHUNK_WIDTH;
    let z: usize = k / (CHUNK_WIDTH * CHUNK_WIDTH);
    if z < SOLID_FILL_HEIGHT {
        Some(Block::new(BlockType::Stone))
    } else if z < SOLID_FILL_HEIGHT + SCATTER_LAYERS {
        let base: usize = (x * CHUNK_WIDTH + y) * SCATTER_LAYERS;
        let filled = scatter[base] && (z < SOLID_FILL_HEIGHT + 1 || scatter[base + 1]) && (z
            < SOLID_FILL_HEIGHT + 2 || scatter[base + 2]);
        if filled {
            Some(Block::new(BlockType::Dirt))
        } else {
            None
        }
    } else {
        None
    }
}

impl Chunk {
    /// Generates the chunk at `origin` from the given draws: stone up to the
    /// fill height, dirt scattered over the three layers above it, and every
    /// face shown that no block of the chunk covers.
    pub fn gen_scattered_chunk(origin: ChunkOrigin, scatter: &Vec<bool>) -> (chunk: Self)
        requires
            origin.aligned(),
            scatter@.len() == SCATTER_DRAWS,
        ensures
            chunk.wf(),
            chunk@ == ChunkView::generated(origin, scatter@),
    {
        let mut blocks: Vec<Option<Block>> = Vec::new();
        let mut k: usize = 0;
        while k < CHUNK_VOLUME
            invariant
                k <= CHUNK_VOLUME,
                scatter@.len() == SCATTER_DRAWS,
                blocks@.len() == k,
                forall|j: int|
                    0 <= j < k ==> blocks@[j] == ChunkView::terrain(origin, scatter@).cells[j],
            decreases CHUNK_VOLUME - k,
        {
            blocks.push(terrain_at(k, scatter));
            k += 1;
        }
        assert(blocks@ =~= ChunkView::terrain(origin, scatter@).cells);
        let mut chunk = Chunk::from_cells(origin, blocks);
        chunk.update_exposure_chunk(None);
        chunk
    }

    /// Generates the chunk at `origin`. Each of the three layers above the
    /// stone gets a block with probability 4/10 in each column, and only
    /// where the cell below it is filled.
    pub fn gen_default_chunk(origin: ChunkOrigin) -> (chunk: Self)
        requires
            origin.aligned(),
        ensures
            chunk.wf(),
            chunk@.origin == origin,
            chunk@.is_generated(),
    {
        let mut scatter: Vec<bool> = Vec::new();
        let mut i: usize = 0;
        while i < SCATTER_DRAWS
            invariant
                i <= SCATTER_DRAWS,
                scatter@.len() == i,
            decreases SCATTER_DRAWS - i,
        {
            scatter.push(random_ratio(4, 10));
            i += 1;
        }
        let chunk = Chunk::gen_scattered_chunk(origin, &scatter);
        proof {
            assert(chunk@ == ChunkView::generated(origin, scatter@));
        }
        chunk
    }
}

} // verus!
