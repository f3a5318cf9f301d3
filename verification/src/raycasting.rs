use vstd::prelude::*;
use crate::chunk::{Chunk, ChunkView};
use crate::coord::ChunkCoord;
use crate::point::WorldPoint;

pub use crate::block::BlockFace;

verus! {

/// A ray, given by the voxels in which its equally spaced sample points lie,
/// from its start onward.
#[derive(Debug, Clone)]
pub struct Ray {
    pub steps: Vec<WorldPoint>,
}

/// What a ray met.
#[derive(Debug, Clone, Copy, PartialEq, Eq, Structural)]
pub enum RayResult {
    /// The ray met the block at `loc` at its sample number `step`.
    Block { loc: WorldPoint, step: usize },
    Entity,
    /// The ray met nothing.
    Miss,
}

/// The face through which a ray that runs toward the positive or the
/// negative end of axis `axis` (0 for x, 1 for y, 2 for z) enters a block:
/// the face that looks against the ray.
pub open spec fn entry_face(axis: int, toward_positive: bool) -> BlockFace {
    if axis == 0 {
        if toward_positive {
            BlockFace::XNeg
        } else {
            BlockFace::XPos
        }
    } else if axis == 1 {
        if toward_positive {
            BlockFace::YNeg
        } else {
            BlockFace::YPos
        }
    } else {
        if toward_positive {
            BlockFace::ZNeg
        } else {
            BlockFace::ZPos
        }
    }
}

/// The face of a block that a ray struck, given what the geometry of the
/// collision has settled: whether the collision point lies in the block,
/// along which axis the ray entered it last, and whether it runs toward
/// the positive end of that axis. There is no face where the point lies
/// outside the block.
pub fn get_colliding_face(inside: bool, axis: usize, toward_positive: bool) -> (face: Option<
    BlockFace,
>)
    requires
        axis < 3,
    ensures
        face == (if inside {
            Some(entry_face(axis as int, toward_positive))
        } else {
            None
        }),
{
    if !inside {
        return None;
    }
    if axis == 0 {
        if toward_positive {
            Some(BlockFace::XNeg)
        } else {
            Some(BlockFace::XPos)
        }
    } else if axis == 1 {
        if toward_positive {
            Some(BlockFace::YNeg)
        } else {
            Some(BlockFace::YPos)
        }
    } else {
        if toward_positive {
            Some(BlockFace::ZNeg)
        } else {
            Some(BlockFace::ZPos)
        }
    }
}

/// The entry face lies on the axis of entry, and the step across it leads
/// against the ray.
pub proof fn lemma_entry_face(axis: int, toward_positive: bool)
    requires
        0 <= axis < 3,
    ensures
        ({
            let d = entry_face(axis, toward_positive).offset();
            let along = if axis == 0 {
                d.0
            } else if axis == 1 {
                d.1
            } else {
                d.2
            };
            &&& along == (if toward_positive {
                -1int
            } else {
                1int
            })
            &&& d.0 * d.0 + d.1 * d.1 + d.2 * d.2 == 1
        }),
{
}

impl ChunkView {
    /// What a ray meets in this chunk from its sample number `from` onward:
    /// the block in the first sample voxel that is occupied, or nothing
    /// once a sample leaves the chunk or the samples run out.
    pub open spec fn march(self, steps: Seq<WorldPoint>, from: int) -> RayResult
        decreases steps.len() - from,
    {
        if from < 0 || from >= steps.len() {
            RayResult::Miss
        } else if !self.origin.contains(steps[from]) {
            RayResult::Miss
        } else if self.occupied(steps[from].x as int, steps[from].y as int, steps[from].z as int) {
            RayResult::Block { loc: steps[from], step: from as usize }
        } else {
            self.march(steps, from + 1)
        }
    }

    /// Whether the samples from number `from` up to, not including, number
    /// `to` all lie in empty cells of this chunk.
    pub open spec fn clear_between(self, steps: Seq<WorldPoint>, from: int, to: int) -> bool {
        forall|j: int|
            from <= j < to ==> self.origin.contains(#[trigger] steps[j]) && !self.occupied(
                steps[j].x as int,
                steps[j].y as int,
                steps[j].z as int,
            )
    }

    /// A ray meets a block exactly where its first sample that does not lie in
    /// an empty cell of the chunk lies in an occupied one, and then that
    /// block; in every other case it meets nothing.
    pub proof fn lemma_march(self, steps: Seq<WorldPoint>, from: int)
        requires
            0 <= from <= steps.len(),
            steps.len() <= usize::MAX,
        ensures
            match self.march(steps, from) {
                RayResult::Block { loc, step } => {
                    &&& from <= step < steps.len()
                    &&& loc == steps[step as int]
                    &&& self.occupied(loc.x as int, loc.y as int, loc.z as int)
                    &&& self.clear_between(steps, from, step as int)
                },
                RayResult::Entity => false,
                RayResult::Miss => {
                    ||| self.clear_between(steps, from, steps.len() as int)
                    ||| exists|i: int|
                        from <= i < steps.len() && !self.origin.contains(#[trigger] steps[i])
                            && self.clear_between(steps, from, i)
                },
            },
        decreases steps.len() - from,
    {
        if from < steps.len() && self.origin.contains(steps[from]) && !self.occupied(
            steps[from].x as int,
            steps[from].y as int,
            steps[from].z as int,
        ) {
            self.lemma_march(steps, from + 1);
            match self.march(steps, from + 1) {
                RayResult::Miss => {
                    if !self.clear_between(steps, from + 1, steps.len() as int) {
                        let i = choose|i: int|
                            from + 1 <= i < steps.len() && !self.origin.contains(
                                #[trigger] steps[i],
                            ) && self.clear_between(steps, from + 1, i);
                        assert(from <= i < steps.len() && !self.origin.contains(steps[i])
                            && self.clear_between(steps, from, i));
                    }
                },
                _ => {},
            }
        } else if from < steps.len() && !self.origin.contains(steps[from]) {
            assert(from <= from < steps.len() && !self.origin.contains(steps[from])
                && self.clear_between(steps, from, from));
        }
    }
}

impl Chunk {
    /// Walks the samples of `ray` in order. The first sample whose voxel
    /// holds a block of this chunk gives that block; a sample outside the
    /// chunk ends the walk with nothing, and so does the end of the samples.
    pub fn cast_ray(&self, ray: &Ray) -> (r: RayResult)
        requires
            self.wf(),
        ensures
            r == self@.march(ray.steps@, 0),
    {
        let mut i: usize = 0;
        while i < ray.steps.len()
            invariant
                self.wf(),
                i <= ray.steps@.len(),
                self@.march(ray.steps@, 0) == self@.march(ray.steps@, i as int),
            decreases ray.steps@.len() - i,
        {
            let test_pos = ray.steps[i];
            match self.get(ChunkCoord::World(test_pos)) {
                Ok(Some(_)) => {
                    proof {
                        self@.origin.lemma_aligned_fits();
                    }
                    return RayResult::Block { loc: test_pos, step: i };
                },
                Ok(None) => {},
                Err(_) => {
                    return RayResult::Miss;
                },
            }
            i += 1;
        }
        RayResult::Miss
    }
}

} // verus!
