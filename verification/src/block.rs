use vstd::prelude::*;
use crate::point::WorldPoint;

verus! {

/// The material of a voxel.
#[derive(Debug, Clone, Copy, PartialEq, Eq, Structural)]
pub enum BlockType {
    Dirt,
    Stone,
}

impl BlockType {
    /// The name under which the material's texture is registered.
    pub open spec fn spec_tex_label(&self) -> Seq<char> {
        match self {
            BlockType::Dirt => "dirt"@,
            BlockType::Stone => "stone"@,
        }
    }

    /// The name under which the material's texture is registered.
    pub fn tex_label(&self) -> (label: &'static str)
        ensures
            label@ == self.spec_tex_label(),
    {
        match self {
            BlockType::Dirt => "dirt",
            BlockType::Stone => "stone",
        }
    }
}

/// One of the six sides of a voxel, named by the axis and direction of its
/// outward normal.
#[derive(Debug, Clone, Copy, PartialEq, Eq, Structural)]
pub enum BlockFace {
    XPos,
    XNeg,
    YPos,
    YNeg,
    ZPos,
    ZNeg,
}

impl BlockFace {
    /// The position of the face in the fixed enumeration order.
    pub open spec fn spec_index(&self) -> int {
        match self {
            BlockFace::XPos => 0,
            BlockFace::XNeg => 1,
            BlockFace::YPos => 2,
            BlockFace::YNeg => 3,
            BlockFace::ZPos => 4,
            BlockFace::ZNeg => 5,
        }
    }

    /// The face at position `i` of the enumeration order.
    pub open spec fn spec_from_index(i: int) -> BlockFace {
        if i == 0 {
            BlockFace::XPos
        } else if i == 1 {
            BlockFace::XNeg
        } else if i == 2 {
            BlockFace::YPos
        } else if i == 3 {
            BlockFace::YNeg
        } else if i == 4 {
            BlockFace::ZPos
        } else {
            BlockFace::ZNeg
        }
    }

    /// The unit step, as `(dx, dy, dz)`, from a voxel to its neighbour across
    /// this face.
    pub open spec fn offset(&self) -> (int, int, int) {
        match self {
            BlockFace::XPos => (1, 0, 0),
            BlockFace::XNeg => (-1, 0, 0),
            BlockFace::YPos => (0, 1, 0),
            BlockFace::YNeg => (0, -1, 0),
            BlockFace::ZPos => (0, 0, 1),
            BlockFace::ZNeg => (0, 0, -1),
        }
    }

    /// Whether the neighbour of `loc` across this face has coordinates that
    /// fit the world's integer range.
    pub open spec fn has_adjacent(&self, loc: WorldPoint) -> bool {
        &&& i32::MIN <= loc.x + self.offset().0 <= i32::MAX
        &&& i32::MIN <= loc.y + self.offset().1 <= i32::MAX
        &&& i32::MIN <= loc.z + self.offset().2 <= i32::MAX
    }

    /// The position of the face in the fixed enumeration order.
    pub fn index(&self) -> (i: usize)
        ensures
            i == self.spec_index(),
            i < 6,
    {
        match self {
            BlockFace::XPos => 0,
            BlockFace::XNeg => 1,
            BlockFace::YPos => 2,
            BlockFace::YNeg => 3,
            BlockFace::ZPos => 4,
            BlockFace::ZNeg => 5,
        }
    }

    /// The unit step from a voxel to its neighbour across this face.
    pub fn unit_offset(&self) -> (d: (i64, i64, i64))
        ensures
            d.0 == self.offset().0,
            d.1 == self.offset().1,
            d.2 == self.offset().2,
    {
        match self {
            BlockFace::XPos => (1, 0, 0),
            BlockFace::XNeg => (-1, 0, 0),
            BlockFace::YPos => (0, 1, 0),
            BlockFace::YNeg => (0, -1, 0),
            BlockFace::ZPos => (0, 0, 1),
            BlockFace::ZNeg => (0, 0, -1),
        }
    }

    /// All six faces, in enumeration order.
    pub fn iter() -> (faces: [BlockFace; 6])
        ensures
            forall|i: int| 0 <= i < 6 ==> faces[i] == BlockFace::spec_from_index(i),
    {
        [
            BlockFace::XPos,
            BlockFace::XNeg,
            BlockFace::YPos,
            BlockFace::YNeg,
            BlockFace::ZPos,
            BlockFace::ZNeg,
        ]
    }

    /// The neighbour of `loc` across this face.
    pub fn adjacent_loc_from(&self, loc: WorldPoint) -> (adj: WorldPoint)
        requires
            self.has_adjacent(loc),
        ensures
            adj.x == loc.x + self.offset().0,
            adj.y == loc.y + self.offset().1,
            adj.z == loc.z + self.offset().2,
    {
        match self {
            BlockFace::XPos => WorldPoint { x: loc.x + 1, y: loc.y, z: loc.z },
            BlockFace::XNeg => WorldPoint { x: loc.x - 1, y: loc.y, z: loc.z },
            BlockFace::YPos => WorldPoint { x: loc.x, y: loc.y + 1, z: loc.z },
            BlockFace::YNeg => WorldPoint { x: loc.x, y: loc.y - 1, z: loc.z },
            BlockFace::ZPos => WorldPoint { x: loc.x, y: loc.y, z: loc.z + 1 },
            BlockFace::ZNeg => WorldPoint { x: loc.x, y: loc.y, z: loc.z - 1 },
        }
    }

    /// Every face has a place in the enumeration order, and the order names
    /// each face once.
    pub proof fn lemma_index_roundtrip(face: BlockFace)
        ensures
            0 <= face.spec_index() < 6,
            BlockFace::spec_from_index(face.spec_index()) == face,
    {
    }
}

/// A voxel: its material and, for each face, whether the face is exposed.
#[derive(Debug, Clone, Copy)]
pub struct Block {
    pub block_type: BlockType,
    pub visible_arr: [bool; 6],
}

impl Block {
    /// The six visibility flags in the enumeration order of the faces.
    pub open spec fn faces(&self) -> Seq<bool> {
        self.visible_arr@
    }

    /// Whether the block shows its face `face`.
    pub open spec fn spec_visible(&self, face: BlockFace) -> bool {
        self.faces()[face.spec_index()]
    }

    /// A block of the given material and flags.
    pub closed spec fn with_faces(block_type: BlockType, faces: Seq<bool>) -> Block
        recommends
            faces.len() == 6,
    {
        Block {
            block_type,
            visible_arr: [faces[0], faces[1], faces[2], faces[3], faces[4], faces[5]],
        }
    }

    /// A block is its material and its six flags, nothing more.
    pub proof fn lemma_with_faces(block_type: BlockType, faces: Seq<bool>)
        requires
            faces.len() == 6,
        ensures
            Block::with_faces(block_type, faces).block_type == block_type,
            Block::with_faces(block_type, faces).faces() == faces,
    {
        let b = Block::with_faces(block_type, faces);
        assert(b.visible_arr@ =~= faces);
    }

    /// Two blocks with the same material and the same flags are the same block.
    pub proof fn lemma_ext(a: Block, b: Block)
        requires
            a.block_type == b.block_type,
            a.faces() == b.faces(),
        ensures
            a == b,
    {
        assert(a.visible_arr =~= b.visible_arr);
    }

    /// The block of the given material with every face hidden.
    pub open spec fn spec_new(block_type: BlockType) -> Block {
        Block::with_faces(block_type, Seq::new(6, |i: int| false))
    }

    /// A block with every face hidden.
    pub fn new(block_type: BlockType) -> (b: Self)
        ensures
            b == Block::spec_new(block_type),
            b.block_type == block_type,
            b.faces() == Seq::new(6, |i: int| false),
    {
        let b = Self { block_type, visible_arr: [false; 6] };
        proof {
            assert(b.visible_arr@ =~= Seq::new(6, |i: int| false));
            Block::lemma_with_faces(block_type, Seq::new(6, |i: int| false));
            Block::lemma_ext(b, Block::spec_new(block_type));
        }
        b
    }

    /// Whether the block shows its face `face`.
    #[verifier::when_used_as_spec(spec_visible)]
    pub fn visible(&self, face: BlockFace) -> (v: bool)
        ensures
            v == self.spec_visible(face),
    {
        self.visible_arr[face.index()]
    }

    /// Shows or hides the face `face`.
    pub fn set_visible(&mut self, face: BlockFace, visibility: bool)
        ensures
            final(self).block_type == old(self).block_type,
            final(self).faces() == old(self).faces().update(face.spec_index(), visibility),
    {
        self.visible_arr[face.index()] = visibility;
    }
}

} // verus!
