use vstd::prelude::*;
use crate::block::{Block, BlockFace};
use crate::chunk::{Chunk, ChunkView, CHUNK_VOLUME};
use crate::manager::ManagerView;
use crate::coord::{chunk_coord_local, BOTTOM_DEPTH, CHUNK_HEIGHT, CHUNK_WIDTH};
use crate::point::WorldPoint;
use crate::seqs::{lemma_add_contains, lemma_push_contains};

verus! {

/// One face of one block, as handed to a renderer.
#[derive(Debug, Clone)]
pub struct RenderInstance {
    /// The world position of the block.
    pub position: WorldPoint,
    /// The name of the texture of the block's material.
    pub label: String,
    /// Which face of the block this is.
    pub face: BlockFace,
}

/// What a render instance is: its position, the characters of its label, its face.
pub struct RenderInstanceView {
    pub position: WorldPoint,
    pub label: Seq<char>,
    pub face: BlockFace,
}

impl View for RenderInstance {
    type V = RenderInstanceView;

    open spec fn view(&self) -> RenderInstanceView {
        RenderInstanceView { position: self.position, label: self.label@, face: self.face }
    }
}

/// The views of a sequence of render instances.
pub open spec fn instance_views(instances: Seq<RenderInstance>) -> Seq<RenderInstanceView> {
    instances.map_values(|r: RenderInstance| r@)
}

/// The instance that shows face `face` of block `b` at world position `(x, y, z)`.
pub open spec fn face_instance(b: Block, x: int, y: int, z: int, face: BlockFace)
    -> RenderInstanceView {
    RenderInstanceView {
        position: WorldPoint { x: x as i32, y: y as i32, z: z as i32 },
        label: b.block_type.spec_tex_label(),
        face,
    }
}

/// The instances of the visible ones among the first `n` faces of block `b`
/// at `(x, y, z)`, in the enumeration order of the faces.
pub open spec fn face_instances(b: Block, x: int, y: int, z: int, n: int) -> Seq<
    RenderInstanceView,
>
    decreases n,
{
    if n <= 0 {
        Seq::empty()
    } else {
        let before = face_instances(b, x, y, z, n - 1);
        let face = BlockFace::spec_from_index(n - 1);
        if b.spec_visible(face) {
            before.push(face_instance(b, x, y, z, face))
        } else {
            before
        }
    }
}

impl ChunkView {
    /// The world position of the cell that comes at place `t` when the chunk
    /// is walked column by column, each column from the bottom up, the
    /// columns by `x` and then by `y`.
    pub open spec fn scan_point(self, t: int) -> (int, int, int) {
        (
            self.origin.x + t / (CHUNK_WIDTH as int * CHUNK_HEIGHT as int),
            self.origin.y + (t / (CHUNK_HEIGHT as int)) % (CHUNK_WIDTH as int),
            BOTTOM_DEPTH + t % (CHUNK_HEIGHT as int),
        )
    }

    /// The place of world position `(x, y, z)` in that walk.
    pub open spec fn scan_index(self, x: int, y: int, z: int) -> int {
        ((x - self.origin.x) * CHUNK_WIDTH + (y - self.origin.y)) * CHUNK_HEIGHT + (z
            - BOTTOM_DEPTH)
    }

    /// The instances of the block at `(x, y, z)`, one for each visible face;
    /// none where no block stands there.
    pub open spec fn cell_instances(self, x: int, y: int, z: int) -> Seq<RenderInstanceView> {
        match self.at(x, y, z) {
            Some(b) => face_instances(b, x, y, z, 6),
            None => Seq::empty(),
        }
    }

    /// The instances of the first `t` cells of the walk.
    pub open spec fn instances_upto(self, t: int) -> Seq<RenderInstanceView>
        decreases t,
    {
        if t <= 0 {
            Seq::empty()
        } else {
            self.instances_upto(t - 1) + self.cell_instances(
                self.scan_point(t - 1).0,
                self.scan_point(t - 1).1,
                self.scan_point(t - 1).2,
            )
        }
    }

    /// The instances of the chunk: one for each visible face of each block.
    pub open spec fn instances(self) -> Seq<RenderInstanceView> {
        self.instances_upto(CHUNK_VOLUME as int)
    }
}

/// The instances of the first `n` faces of a block are those of its visible
/// faces among them.
proof fn lemma_face_instances(b: Block, x: int, y: int, z: int, n: int, inst: RenderInstanceView)
    requires
        0 <= n <= 6,
    ensures
        face_instances(b, x, y, z, n).contains(inst) <==> inst == face_instance(
            b,
            x,
            y,
            z,
            inst.face,
        ) && inst.face.spec_index() < n && b.spec_visible(inst.face),
    decreases n,
{
    if n > 0 {
        let face = BlockFace::spec_from_index(n - 1);
        lemma_face_instances(b, x, y, z, n - 1, inst);
        BlockFace::lemma_index_roundtrip(inst.face);
        if b.spec_visible(face) {
            lemma_push_contains(
                face_instances(b, x, y, z, n - 1),
                face_instance(b, x, y, z, face),
                inst,
            );
        }
    }
}

impl ChunkView {
    /// Whether `inst` shows a visible face of a block of this chunk: a block
    /// stands at its position, has the material that its label names, and
    /// shows its face.
    pub open spec fn shows(self, inst: RenderInstanceView) -> bool {
        match self.at(inst.position.x as int, inst.position.y as int, inst.position.z as int) {
            Some(b) => b.spec_visible(inst.face) && inst.label == b.block_type.spec_tex_label(),
            None => false,
        }
    }

    /// The walk passes each cell of the chunk once.
    pub proof fn lemma_scan(self, t: int)
        requires
            self.wf(),
            0 <= t < CHUNK_VOLUME,
        ensures
            self.origin.covers(self.scan_point(t).0, self.scan_point(t).1, self.scan_point(t).2),
            self.scan_index(self.scan_point(t).0, self.scan_point(t).1, self.scan_point(t).2) == t,
    {
    }

    /// The instances of the first `t` cells of the walk are those that show
    /// a visible face of a block in one of these cells.
    proof fn lemma_instances_upto(self, t: int, inst: RenderInstanceView)
        requires
            self.wf(),
            0 <= t <= CHUNK_VOLUME,
        ensures
            self.instances_upto(t).contains(inst) <==> self.shows(inst) && self.scan_index(
                inst.position.x as int,
                inst.position.y as int,
                inst.position.z as int,
            ) < t,
        decreases t,
    {
        if t > 0 {
            let p = self.scan_point(t - 1);
            self.lemma_instances_upto(t - 1, inst);
            self.lemma_scan(t - 1);
            self.origin.lemma_aligned_fits();
            lemma_add_contains(
                self.instances_upto(t - 1),
                self.cell_instances(p.0, p.1, p.2),
                inst,
            );
            match self.at(p.0, p.1, p.2) {
                Some(b) => {
                    lemma_face_instances(b, p.0, p.1, p.2, 6, inst);
                    BlockFace::lemma_index_roundtrip(inst.face);
                },
                None => {},
            }
        }
    }

    /// The instances of a chunk are exactly those that show a visible face
    /// of one of its blocks.
    pub proof fn lemma_instances(self, inst: RenderInstanceView)
        requires
            self.wf(),
        ensures
            self.instances().contains(inst) <==> self.shows(inst),
    {
        self.lemma_instances_upto(CHUNK_VOLUME as int, inst);
    }

    /// A chunk without blocks has no instances.
    pub proof fn lemma_instances_of_empty(self)
        requires
            self.wf(),
            forall|x: int, y: int, z: int| !self.occupied(x, y, z),
        ensures
            self.instances() == Seq::<RenderInstanceView>::empty(),
    {
        if self.instances().len() > 0 {
            let inst = self.instances()[0];
            assert(self.instances().contains(inst));
            self.lemma_instances(inst);
            assert(self.occupied(
                inst.position.x as int,
                inst.position.y as int,
                inst.position.z as int,
            ));
        }
        assert(self.instances() =~= Seq::<RenderInstanceView>::empty());
    }

    /// A block with a block of the chunk across each of its six faces has no
    /// instance once its flags are up to date.
    pub proof fn lemma_enclosed_block_hidden(
        self,
        x: int,
        y: int,
        z: int,
        region: Set<(int, int, int)>,
        context: Option<ManagerView>,
        inst: RenderInstanceView,
    )
        requires
            self.wf(),
            region.contains((x, y, z)),
            forall|face: BlockFace|
                self.occupied(
                    x + (#[trigger] face.offset()).0,
                    y + face.offset().1,
                    z + face.offset().2,
                ),
            self.refreshed_in(region, context).instances().contains(inst),
        ensures
            (inst.position.x as int, inst.position.y as int, inst.position.z as int) != (x, y, z),
    {
        let after = self.refreshed_in(region, context);
        self.lemma_refreshed_same_blocks(region, context);
        after.lemma_instances(inst);
        if (inst.position.x as int, inst.position.y as int, inst.position.z as int) == (x, y, z) {
            self.lemma_refreshed_at(region, context, x, y, z);
            let b = self.at(x, y, z).unwrap();
            self.lemma_refreshed_block(b, x, y, z, context, inst.face);
            assert(self.occupied(
                x + inst.face.offset().0,
                y + inst.face.offset().1,
                z + inst.face.offset().2,
            ));
        }
    }
}

impl Chunk {
    /// One instance for each visible face of each block of the chunk, in the
    /// order of the walk and, within a block, of the faces. The result is
    /// computed afresh on every call.
    pub fn gen_instances(&self) -> (instances: Vec<RenderInstance>)
        requires
            self.wf(),
        ensures
            instance_views(instances@) == self@.instances(),
    {
        let mut result: Vec<RenderInstance> = Vec::new();
        let faces = BlockFace::iter();
        let mut t: usize = 0;
        assert(instance_views(result@) =~= self@.instances_upto(0));
        while t < CHUNK_VOLUME
            invariant
                t <= CHUNK_VOLUME,
                self.wf(),
                forall|j: int| 0 <= j < 6 ==> faces[j] == BlockFace::spec_from_index(j),
                instance_views(result@) == self@.instances_upto(t as int),
            decreases CHUNK_VOLUME - t,
        {
            let x: usize = t / (CHUNK_WIDTH * CHUNK_HEIGHT);
            let y: usize = (t / CHUNK_HEIGHT) % CHUNK_WIDTH;
            let z: usize = t % CHUNK_HEIGHT;
            let coord = chunk_coord_local(x, y, z);
            let ghost p = self@.scan_point(t as int);
            let ghost done = self@.instances_upto(t as int);
            proof {
                self@.origin.lemma_aligned_fits();
                assert(self@.origin.covers(p.0, p.1, p.2));
            }
            match self.get(coord) {
                Ok(Some(block)) => {
                    let position = coord.to_world(self.origin());
                    let mut i: usize = 0;
                    assert(instance_views(result@) =~= done + face_instances(
                        block,
                        p.0,
                        p.1,
                        p.2,
                        0,
                    ));
                    while i < 6
                        invariant
                            i <= 6,
                            forall|j: int|
                                0 <= j < 6 ==> faces[j] == BlockFace::spec_from_index(j),
                            position == (WorldPoint {
                                x: p.0 as i32,
                                y: p.1 as i32,
                                z: p.2 as i32,
                            }),
                            instance_views(result@) == done + face_instances(
                                block,
                                p.0,
                                p.1,
                                p.2,
                                i as int,
                            ),
                        decreases 6 - i,
                    {
                        let face = faces[i];
                        let ghost shown = instance_views(result@);
                        if block.visible(face) {
                            let instance = RenderInstance {
                                position,
                                label: block.block_type.tex_label().to_owned(),
                                face,
                            };
                            result.push(instance);
                            assert(instance_views(result@) =~= shown.push(
                                face_instance(block, p.0, p.1, p.2, face),
                            ));
                        }
                        assert(instance_views(result@) =~= done + face_instances(
                            block,
                            p.0,
                            p.1,
                            p.2,
                            i + 1,
                        ));
                        i += 1;
                    }
                    assert(self@.at(p.0, p.1, p.2) == Some(block));
                },
                _ => {
                    assert(self@.at(p.0, p.1, p.2) is None);
                    assert(instance_views(result@) =~= done + Seq::empty());
                },
            }
            t += 1;
        }
        result
    }
}

} // verus!
