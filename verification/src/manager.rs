use vstd::prelude::*;
use crate::block::Block;
use crate::chunk::{Chunk, ChunkView, RemoveBlockError, SetBlockError};
use crate::coord::{ChunkCoord, CHUNK_WIDTH};
use crate::model::{instance_views, RenderInstance, RenderInstanceView};
use crate::point::{ChunkIndex, ChunkOrigin, WorldPoint};
use crate::raycasting::{Ray, RayResult};
use crate::seqs::{lemma_add_contains, lemma_push_contains, lemma_remove_contains};
use crate::streaming::{gen_chunk_origins_near_player, in_camera_view, near_player, stands_over};

verus! {

/// How far around the observer chunks are generated and shown, in chunk widths.
#[derive(Debug, Clone, Copy, PartialEq, Eq, Structural)]
pub struct ChunkManagerConfig {
    pub gen_dist: u32,
    pub render_dist: u32,
}

impl Default for ChunkManagerConfig {
    fn default() -> (config: Self)
        ensures
            config == (ChunkManagerConfig { gen_dist: 2, render_dist: 2 }),
    {
        Self { gen_dist: 2, render_dist: 2 }
    }
}

/// The grid place of the chunk that owns world column `(x, y)`: both
/// coordinates divided by the chunk width, rounded down.
pub open spec fn chunk_key(x: int, y: int) -> (int, int) {
    (x / (CHUNK_WIDTH as int), y / (CHUNK_WIDTH as int))
}

/// The origin of the chunk that owns world column `(x, y)`.
pub open spec fn owning_origin(x: int, y: int) -> ChunkOrigin
    recommends
        i32::MIN <= x <= i32::MAX,
        i32::MIN <= y <= i32::MAX,
{
    ChunkOrigin {
        x: (chunk_key(x, y).0 * CHUNK_WIDTH) as i32,
        y: (chunk_key(x, y).1 * CHUNK_WIDTH) as i32,
    }
}

/// The owning chunk of a world column lies on the chunk grid and holds the
/// column, and no other chunk on the grid does.
pub proof fn lemma_owning_origin(x: int, y: int, other: ChunkOrigin)
    requires
        i32::MIN <= x <= i32::MAX,
        i32::MIN <= y <= i32::MAX,
    ensures
        owning_origin(x, y).aligned(),
        owning_origin(x, y).x <= x < owning_origin(x, y).x + CHUNK_WIDTH,
        owning_origin(x, y).y <= y < owning_origin(x, y).y + CHUNK_WIDTH,
        other.aligned() && other.x <= x < other.x + CHUNK_WIDTH && other.y <= y < other.y
            + CHUNK_WIDTH ==> other == owning_origin(x, y),
{
}

/// What a manager is: its live chunks by origin, the origins it shows, and
/// its configuration.
pub struct ManagerView {
    pub chunks: Map<ChunkOrigin, ChunkView>,
    pub render_keys: Set<ChunkOrigin>,
    pub config: ChunkManagerConfig,
}

impl ManagerView {
    /// The chunk that owns world column `(x, y)`, if it is live.
    pub open spec fn chunk_for(self, x: int, y: int) -> Option<ChunkView> {
        if i32::MIN <= x <= i32::MAX && i32::MIN <= y <= i32::MAX && self.chunks.contains_key(
            owning_origin(x, y),
        ) {
            Some(self.chunks[owning_origin(x, y)])
        } else {
            None
        }
    }

    /// The manager finds a block at a position exactly when a block stands
    /// there in one of its live chunks.
    pub proof fn lemma_block_at(self, x: int, y: int, z: int)
        requires
            self.wf(),
        ensures
            self.block_at(x, y, z) <==> exists|o: ChunkOrigin| #[trigger]
                self.chunks.contains_key(o) && self.chunks[o].occupied(x, y, z),
    {
        if self.block_at(x, y, z) {
            let o = owning_origin(x, y);
            assert(self.chunks.contains_key(o) && self.chunks[o].occupied(x, y, z));
        }
        if exists|o: ChunkOrigin| #[trigger]
            self.chunks.contains_key(o) && self.chunks[o].occupied(x, y, z) {
            let o = choose|o: ChunkOrigin| #[trigger]
                self.chunks.contains_key(o) && self.chunks[o].occupied(x, y, z);
            assert(self.chunks[o].wf() && self.chunks[o].origin == o);
            lemma_owning_origin(x, y, o);
        }
    }

    /// Every live chunk is well formed and kept under its own origin, and
    /// every shown origin names a live chunk.
    pub open spec fn wf(self) -> bool {
        &&& forall|o: ChunkOrigin| #[trigger]
            self.chunks.contains_key(o) ==> self.chunks[o].wf() && self.chunks[o].origin == o
        &&& forall|o: ChunkOrigin| #[trigger]
            self.render_keys.contains(o) ==> self.chunks.contains_key(o)
    }

    /// The manager with `chunk` kept under its origin.
    pub open spec fn with_chunk(self, chunk: ChunkView) -> ManagerView {
        ManagerView {
            chunks: self.chunks.insert(chunk.origin, chunk),
            render_keys: self.render_keys,
            config: self.config,
        }
    }

    /// The instances of the live chunks among the first `n` origins of
    /// `order`, chunk after chunk.
    pub open spec fn instances_along(self, order: Seq<ChunkOrigin>, n: int) -> Seq<
        RenderInstanceView,
    >
        decreases n,
    {
        if n <= 0 {
            Seq::empty()
        } else if self.chunks.contains_key(order[n - 1]) {
            self.instances_along(order, n - 1) + self.chunks[order[n - 1]].instances()
        } else {
            self.instances_along(order, n - 1)
        }
    }

    /// The instances along an order of origins are exactly those that a live
    /// chunk at one of these origins shows.
    pub proof fn lemma_instances_along(
        self,
        order: Seq<ChunkOrigin>,
        n: int,
        inst: RenderInstanceView,
    )
        requires
            self.wf(),
            0 <= n <= order.len(),
        ensures
            self.instances_along(order, n).contains(inst) <==> exists|j: int|
                0 <= j < n && self.chunks.contains_key(#[trigger] order[j])
                    && self.chunks[order[j]].shows(inst),
        decreases n,
    {
        if n > 0 {
            let o = order[n - 1];
            self.lemma_instances_along(order, n - 1, inst);
            if self.chunks.contains_key(o) {
                self.chunks[o].lemma_instances(inst);
                lemma_add_contains(
                    self.instances_along(order, n - 1),
                    self.chunks[o].instances(),
                    inst,
                );
            }
            if self.instances_along(order, n).contains(inst) {
                if self.instances_along(order, n - 1).contains(inst) {
                    let j = choose|j: int|
                        0 <= j < n - 1 && self.chunks.contains_key(#[trigger] order[j])
                            && self.chunks[order[j]].shows(inst);
                    assert(0 <= j < n && self.chunks.contains_key(order[j])
                        && self.chunks[order[j]].shows(inst));
                } else {
                    assert(0 <= n - 1 < n && self.chunks.contains_key(order[n - 1])
                        && self.chunks[order[n - 1]].shows(inst));
                }
            }
            if exists|j: int|
                0 <= j < n && self.chunks.contains_key(#[trigger] order[j])
                    && self.chunks[order[j]].shows(inst) {
                let j = choose|j: int|
                    0 <= j < n && self.chunks.contains_key(#[trigger] order[j])
                        && self.chunks[order[j]].shows(inst);
                if j < n - 1 {
                    assert(self.instances_along(order, n - 1).contains(inst));
                }
            }
        }
    }

    /// What a ray meets in this world: it is cast in the chunk that owns its
    /// first sample, and in no other.
    pub open spec fn cast(self, steps: Seq<WorldPoint>) -> RayResult {
        if steps.len() == 0 {
            RayResult::Miss
        } else {
            match self.chunk_for(steps[0].x as int, steps[0].y as int) {
                Some(c) => c.march(steps, 0),
                None => RayResult::Miss,
            }
        }
    }

    /// The manager without the chunk at `origin`, shown or not.
    pub open spec fn without_chunk(self, origin: ChunkOrigin) -> ManagerView {
        ManagerView {
            chunks: self.chunks.remove(origin),
            render_keys: self.render_keys.remove(origin),
            config: self.config,
        }
    }

    /// Whether the manager finds a block at world position `(x, y, z)`.
    pub open spec fn block_at(self, x: int, y: int, z: int) -> bool {
        &&& i32::MIN <= x <= i32::MAX
        &&& i32::MIN <= y <= i32::MAX
        &&& i32::MIN <= z <= i32::MAX
        &&& match self.chunk_for(x, y) {
            Some(c) => c.occupied(x, y, z),
            None => false,
        }
    }
}

/// The live chunks of a world, and which of them are shown.
pub struct ChunkManager {
    chunks: Vec<Chunk>,
    render_keys: Vec<ChunkOrigin>,
    config: ChunkManagerConfig,
}

/// Whether `o` is among the first `n` entries of `list`.
spec fn listed_before(list: Seq<ChunkOrigin>, n: int, o: ChunkOrigin) -> bool {
    exists|j: int| 0 <= j < n && list[j] == o
}

/// One entry more is listed with each step along a list.
proof fn lemma_listed_step(list: Seq<ChunkOrigin>, n: int, o: ChunkOrigin)
    requires
        0 <= n < list.len(),
    ensures
        listed_before(list, n + 1, o) <==> listed_before(list, n, o) || list[n] == o,
{
    if listed_before(list, n + 1, o) {
        let j = choose|j: int| 0 <= j < n + 1 && list[j] == o;
        if j < n {
            assert(0 <= j < n && list[j] == o);
        }
    }
    if listed_before(list, n, o) {
        let j = choose|j: int| 0 <= j < n && list[j] == o;
        assert(0 <= j < n + 1 && list[j] == o);
    }
    if list[n] == o {
        assert(0 <= n < n + 1 && list[n] == o);
    }
}

/// What is listed before the end of a list is what the list holds.
proof fn lemma_listed_all(list: Seq<ChunkOrigin>, o: ChunkOrigin)
    ensures
        listed_before(list, list.len() as int, o) <==> list.contains(o),
{
    if listed_before(list, list.len() as int, o) {
        let j = choose|j: int| 0 <= j < list.len() && list[j] == o;
        assert(list[j] == o);
    }
    if list.contains(o) {
        let j = choose|j: int| 0 <= j < list.len() && list[j] == o;
        assert(0 <= j < list.len() && list[j] == o);
    }
}

/// The place of `origin` in `list`, if it is there.
fn position_of_origin(list: &Vec<ChunkOrigin>, origin: ChunkOrigin) -> (r: Option<usize>)
    ensures
        match r {
            Some(i) => i < list@.len() && list@[i as int] == origin,
            None => !list@.contains(origin),
        },
{
    let mut i: usize = 0;
    while i < list.len()
        invariant
            i <= list@.len(),
            forall|j: int| 0 <= j < i ==> list@[j] != origin,
        decreases list@.len() - i,
    {
        if list[i] == origin {
            return Some(i);
        }
        i += 1;
    }
    None
}

/// Whether `origin` is among `list`.
fn contains_origin(list: &Vec<ChunkOrigin>, origin: ChunkOrigin) -> (r: bool)
    ensures
        r == list@.contains(origin),
{
    position_of_origin(list, origin).is_some()
}

/// A coordinate divided by the chunk width, rounded down.
fn floor_div_width(v: i32) -> (q: i32)
    ensures
        q == v as int / (CHUNK_WIDTH as int),
{
    if v >= 0 {
        v / 16
    } else {
        let m: i64 = -(v as i64);
        let q: i64 = (m + 15) / 16;
        (-q) as i32
    }
}

/// The grid place of the chunk that owns a block.
pub fn block_to_chunk(block_pos: WorldPoint) -> (key: ChunkIndex)
    ensures
        key.x == chunk_key(block_pos.x as int, block_pos.y as int).0,
        key.y == chunk_key(block_pos.x as int, block_pos.y as int).1,
        key.in_world(),
        key.spec_origin() == owning_origin(block_pos.x as int, block_pos.y as int),
{
    ChunkIndex { x: floor_div_width(block_pos.x), y: floor_div_width(block_pos.y) }
}

impl ChunkManager {
    /// The origins of the live chunks, in storage order.
    pub closed spec fn origins(&self) -> Seq<ChunkOrigin> {
        Seq::new(self.chunks@.len(), |i: int| self.chunks@[i]@.origin)
    }

    /// The live chunks are well formed and no two share an origin; the shown
    /// origins are distinct and each names a live chunk.
    pub closed spec fn wf(&self) -> bool {
        &&& forall|i: int| 0 <= i < self.chunks@.len() ==> (#[trigger] self.chunks@[i]).wf()
        &&& self.origins().no_duplicates()
        &&& self.render_keys@.no_duplicates()
        &&& forall|i: int|
            0 <= i < self.render_keys@.len() ==> self.origins().contains(
                #[trigger] self.render_keys@[i],
            )
    }
}

impl View for ChunkManager {
    type V = ManagerView;

    closed spec fn view(&self) -> ManagerView {
        ManagerView {
            chunks: Map::new(
                |o: ChunkOrigin| self.origins().contains(o),
                |o: ChunkOrigin| self.chunks@[self.origins().index_of(o)]@,
            ),
            render_keys: self.render_keys@.to_set(),
            config: self.config,
        }
    }
}

impl ChunkManager {
    /// Each stored chunk is the live chunk at its origin, and there are no others.
    proof fn lemma_lookup(&self)
        requires
            self.wf(),
        ensures
            forall|i: int|
                0 <= i < self.chunks@.len() ==> self@.chunks.contains_key(
                    #[trigger] self.chunks@[i]@.origin,
                ) && self@.chunks[self.chunks@[i]@.origin] == self.chunks@[i]@,
            forall|o: ChunkOrigin| #[trigger]
                self@.chunks.contains_key(o) ==> exists|i: int|
                    0 <= i < self.chunks@.len() && self.chunks@[i]@.origin == o,
            self@.render_keys == self.render_keys@.to_set(),
            self@.config == self.config,
    {
        assert forall|i: int| 0 <= i < self.chunks@.len() implies self@.chunks.contains_key(
            #[trigger] self.chunks@[i]@.origin,
        ) && self@.chunks[self.chunks@[i]@.origin] == self.chunks@[i]@ by {
            let o = self.chunks@[i]@.origin;
            assert(self.origins()[i] == o);
            let k = self.origins().index_of(o);
            assert(self.origins()[k] == o);
        }
        assert forall|o: ChunkOrigin| #[trigger] self@.chunks.contains_key(o) implies exists|
            i: int,
        |
            0 <= i < self.chunks@.len() && self.chunks@[i]@.origin == o by {
            let k = choose|k: int| 0 <= k < self.origins().len() && self.origins()[k] == o;
            assert(self.chunks@[k]@.origin == o);
        }
    }

    /// A well-formed manager has a well-formed view.
    pub proof fn lemma_view_wf(&self)
        requires
            self.wf(),
        ensures
            self@.wf(),
    {
        self.lemma_lookup();
        assert forall|o: ChunkOrigin| #[trigger]
            self@.chunks.contains_key(o) implies self@.chunks[o].wf() && self@.chunks[o].origin
            == o by {
            let i = choose|i: int| 0 <= i < self.chunks@.len() && self.chunks@[i]@.origin == o;
            assert(self.chunks@[i].wf());
        }
        assert forall|o: ChunkOrigin| #[trigger]
            self@.render_keys.contains(o) implies self@.chunks.contains_key(o) by {
            let i = choose|i: int| 0 <= i < self.render_keys@.len() && self.render_keys@[i] == o;
            assert(self.origins().contains(self.render_keys@[i]));
        }
    }

    /// A manager in which one stored chunk was changed, its origin kept, is
    /// the manager with the new chunk in the place of the old one.
    proof fn lemma_replaced(before: &ChunkManager, after: &ChunkManager, i: int)
        requires
            before.wf(),
            0 <= i < before.chunks@.len(),
            after.chunks@.len() == before.chunks@.len(),
            forall|j: int|
                0 <= j < before.chunks@.len() && j != i ==> after.chunks@[j] == before.chunks@[j],
            after.chunks@[i].wf(),
            after.chunks@[i]@.origin == before.chunks@[i]@.origin,
            after.render_keys == before.render_keys,
            after.config == before.config,
        ensures
            after.wf(),
            after@ == before@.with_chunk(after.chunks@[i]@),
    {
        assert(after.origins() =~= before.origins());
        assert forall|j: int| 0 <= j < after.chunks@.len() implies (
        #[trigger] after.chunks@[j]).wf() by {
            if j != i {
                assert(before.chunks@[j].wf());
            }
        }
        before.lemma_lookup();
        after.lemma_lookup();
        let goal = before@.with_chunk(after.chunks@[i]@);
        assert forall|o: ChunkOrigin| after@.chunks.contains_key(o) == goal.chunks.contains_key(
            o,
        ) by {
            if after@.chunks.contains_key(o) {
                let j = choose|j: int|
                    0 <= j < after.chunks@.len() && after.chunks@[j]@.origin == o;
                assert(before.chunks@[j]@.origin == o);
            }
            if goal.chunks.contains_key(o) && o != after.chunks@[i]@.origin {
                let j = choose|j: int|
                    0 <= j < before.chunks@.len() && before.chunks@[j]@.origin == o;
                assert(after.chunks@[j]@.origin == o);
            }
        }
        assert forall|o: ChunkOrigin| after@.chunks.contains_key(o) implies after@.chunks[o]
            == goal.chunks[o] by {
            let j = choose|j: int| 0 <= j < after.chunks@.len() && after.chunks@[j]@.origin == o;
            assert(before.chunks@[j]@.origin == o);
        }
        assert(after@.chunks =~= goal.chunks);
    }

    /// A manager to which a chunk with a new origin was added is the manager
    /// with that chunk.
    proof fn lemma_pushed(before: &ChunkManager, after: &ChunkManager)
        requires
            before.wf(),
            after.chunks@.len() == before.chunks@.len() + 1,
            forall|j: int| 0 <= j < before.chunks@.len() ==> after.chunks@[j] == before.chunks@[j],
            after.chunks@.last().wf(),
            !before@.chunks.contains_key(after.chunks@.last()@.origin),
            after.render_keys == before.render_keys,
            after.config == before.config,
        ensures
            after.wf(),
            after@ == before@.with_chunk(after.chunks@.last()@),
    {
        let n = before.chunks@.len() as int;
        let fresh = after.chunks@[n]@.origin;
        before.lemma_lookup();
        assert(after.origins() =~= before.origins().push(fresh));
        assert forall|j: int| 0 <= j < n implies before.origins()[j] != fresh by {
            assert(before.chunks@[j]@.origin == before.origins()[j]);
        }
        assert(after.origins().no_duplicates());
        assert forall|j: int| 0 <= j < after.chunks@.len() implies (
        #[trigger] after.chunks@[j]).wf() by {
            if j < n {
                assert(before.chunks@[j].wf());
            }
        }
        assert forall|j: int| 0 <= j < after.render_keys@.len() implies after.origins().contains(
            #[trigger] after.render_keys@[j],
        ) by {
            let o = before.render_keys@[j];
            assert(before.origins().contains(o));
            let k = choose|k: int| 0 <= k < before.origins().len() && before.origins()[k] == o;
            assert(after.origins()[k] == o);
        }
        after.lemma_lookup();
        let goal = before@.with_chunk(after.chunks@[n]@);
        assert forall|o: ChunkOrigin| after@.chunks.contains_key(o) == goal.chunks.contains_key(
            o,
        ) by {
            if after@.chunks.contains_key(o) {
                let j = choose|j: int|
                    0 <= j < after.chunks@.len() && after.chunks@[j]@.origin == o;
                if j < n {
                    assert(before.chunks@[j]@.origin == o);
                }
            }
            if goal.chunks.contains_key(o) && o != fresh {
                let j = choose|j: int|
                    0 <= j < before.chunks@.len() && before.chunks@[j]@.origin == o;
                assert(after.chunks@[j]@.origin == o);
            }
        }
        assert forall|o: ChunkOrigin| after@.chunks.contains_key(o) implies after@.chunks[o]
            == goal.chunks[o] by {
            let j = choose|j: int| 0 <= j < after.chunks@.len() && after.chunks@[j]@.origin == o;
            if j < n {
                assert(before.chunks@[j]@.origin == o);
            }
        }
        assert(after@.chunks =~= goal.chunks);
    }

    /// The storage place of the live chunk at `origin`, if there is one.
    fn find(&self, origin: ChunkOrigin) -> (r: Option<usize>)
        requires
            self.wf(),
        ensures
            r is Some <==> self@.chunks.contains_key(origin),
            r matches Some(i) ==> i < self.chunks@.len() && self.chunks@[i as int]@.origin == origin
                && self.chunks@[i as int]@ == self@.chunks[origin],
    {
        let mut i: usize = 0;
        while i < self.chunks.len()
            invariant
                self.wf(),
                i <= self.chunks@.len(),
                forall|j: int| 0 <= j < i ==> self.chunks@[j]@.origin != origin,
            decreases self.chunks@.len() - i,
        {
            if self.chunks[i].origin() == origin {
                proof {
                    self.lemma_lookup();
                }
                return Some(i);
            }
            i += 1;
        }
        proof {
            self.lemma_lookup();
        }
        None
    }

    /// The storage place of the chunk that owns `loc`.
    fn find_for(&self, loc: WorldPoint) -> (r: Option<usize>)
        requires
            self.wf(),
        ensures
            r is Some <==> self@.chunk_for(loc.x as int, loc.y as int) is Some,
            r matches Some(i) ==> i < self.chunks@.len() && self.chunks@[i as int].wf()
                && self.chunks@[i as int]@ == self@.chunk_for(loc.x as int, loc.y as int).unwrap(),
    {
        self.find(block_to_chunk(loc).origin())
    }

    /// A manager without chunks.
    pub fn new(config: ChunkManagerConfig) -> (manager: Self)
        ensures
            manager.wf(),
            manager@.chunks == Map::<ChunkOrigin, ChunkView>::empty(),
            manager@.render_keys == Set::<ChunkOrigin>::empty(),
            manager@.config == config,
    {
        let manager = ChunkManager { chunks: Vec::new(), render_keys: Vec::new(), config };
        proof {
            assert(manager.origins() =~= Seq::empty());
            assert(manager@.chunks =~= Map::<ChunkOrigin, ChunkView>::empty());
            assert(manager@.render_keys =~= Set::<ChunkOrigin>::empty());
        }
        manager
    }

    /// The manager's configuration.
    pub fn config(&self) -> (config: ChunkManagerConfig)
        ensures
            config == self@.config,
    {
        self.config
    }

    /// Whether a chunk is live at `origin`.
    pub fn contains_chunk(&self, origin: ChunkOrigin) -> (r: bool)
        requires
            self.wf(),
        ensures
            r == self@.chunks.contains_key(origin),
    {
        self.find(origin).is_some()
    }

    /// The live chunk at `origin`.
    pub fn chunk(&self, origin: ChunkOrigin) -> (r: Option<&Chunk>)
        requires
            self.wf(),
        ensures
            r is Some <==> self@.chunks.contains_key(origin),
            r matches Some(c) ==> c.wf() && c@ == self@.chunks[origin],
    {
        match self.find(origin) {
            Some(i) => Some(&self.chunks[i]),
            None => None,
        }
    }

    /// Drops the live chunk at `origin` and hands it out; it is no longer
    /// shown. Nothing changes where no chunk is live there.
    pub fn remove_chunk(&mut self, origin: ChunkOrigin) -> (r: Option<Chunk>)
        requires
            old(self).wf(),
        ensures
            final(self).wf(),
            r is Some <==> old(self)@.chunks.contains_key(origin),
            r matches Some(c) ==> c.wf() && c@ == old(self)@.chunks[origin] && final(self)@
                == old(self)@.without_chunk(origin),
            r is None ==> final(self)@ == old(self)@,
    {
        let ghost before = *self;
        match self.find(origin) {
            Some(i) => {
                proof {
                    before.lemma_lookup();
                }
                let chunk = self.chunks.remove(i);
                match position_of_origin(&self.render_keys, origin) {
                    Some(k) => {
                        let _ = self.render_keys.remove(k);
                        proof {
                            assert forall|q: ChunkOrigin|
                                self.render_keys@.contains(q) <==> before.render_keys@.contains(q)
                                    && q != origin by {
                                lemma_remove_contains(before.render_keys@, k as int, q);
                            }
                            lemma_remove_contains(before.render_keys@, k as int, origin);
                        }
                    },
                    None => {},
                }
                proof {
                    assert(self.origins() =~= before.origins().remove(i as int));
                    lemma_remove_contains(before.origins(), i as int, origin);
                    assert forall|j: int| 0 <= j < self.chunks@.len() implies (
                    #[trigger] self.chunks@[j]).wf() by {
                        let j0 = if j < i { j } else { j + 1 };
                        assert(before.chunks@[j0].wf());
                    }
                    assert forall|q: ChunkOrigin|
                        self.render_keys@.contains(q) <==> before.render_keys@.contains(q) && q
                            != origin by {}
                    assert forall|j: int|
                        0 <= j < self.render_keys@.len() implies self.origins().contains(
                        #[trigger] self.render_keys@[j],
                    ) by {
                        let q = self.render_keys@[j];
                        assert(self.render_keys@.contains(q));
                        assert(before.render_keys@.contains(q));
                        let t = choose|t: int|
                            0 <= t < before.render_keys@.len() && before.render_keys@[t] == q;
                        assert(before.origins().contains(before.render_keys@[t]));
                        let m = choose|m: int|
                            0 <= m < before.origins().len() && before.origins()[m] == q;
                        assert(before.origins()[i as int] == origin);
                        let m1 = if m < i { m } else { m - 1 };
                        assert(self.origins()[m1] == q);
                    }
                    self.lemma_lookup();
                    let goal = before@.without_chunk(origin);
                    assert forall|q: ChunkOrigin|
                        self@.chunks.contains_key(q) == goal.chunks.contains_key(q) by {
                        if self@.chunks.contains_key(q) {
                            let j = choose|j: int|
                                0 <= j < self.chunks@.len() && self.chunks@[j]@.origin == q;
                            let j0 = if j < i { j } else { j + 1 };
                            assert(before.chunks@[j0]@.origin == q);
                            assert(before.origins()[j0] == q);
                            assert(before.origins()[i as int] == origin);
                        }
                        if goal.chunks.contains_key(q) {
                            let j0 = choose|j0: int|
                                0 <= j0 < before.chunks@.len() && before.chunks@[j0]@.origin == q;
                            let j = if j0 < i { j0 } else { j0 - 1 };
                            assert(self.chunks@[j]@.origin == q);
                        }
                    }
                    assert forall|q: ChunkOrigin|
                        self@.chunks.contains_key(q) implies self@.chunks[q]
                        == goal.chunks[q] by {
                        let j = choose|j: int|
                            0 <= j < self.chunks@.len() && self.chunks@[j]@.origin == q;
                        let j0 = if j < i { j } else { j + 1 };
                        assert(self.chunks@[j] == before.chunks@[j0]);
                        assert(before.chunks@[j0]@.origin == q);
                        assert(before.origins()[j0] == q);
                        assert(before.origins()[i as int] == origin);
                        assert(q != origin);
                        assert(self@.chunks[self.chunks@[j]@.origin] == self.chunks@[j]@);
                        assert(before@.chunks[before.chunks@[j0]@.origin] == before.chunks@[j0]@);
                    }
                    assert(self@.chunks =~= goal.chunks);
                    assert(self@.render_keys =~= goal.render_keys);
                }
                Some(chunk)
            },
            None => None,
        }
    }

    /// Takes `chunk` in as a live chunk, unless one is live at its origin
    /// already: then nothing changes. Tells whether the chunk was taken in.
    pub fn insert_chunk(&mut self, chunk: Chunk) -> (inserted: bool)
        requires
            old(self).wf(),
            chunk.wf(),
        ensures
            final(self).wf(),
            inserted == !old(self)@.chunks.contains_key(chunk@.origin),
            inserted ==> final(self)@ == old(self)@.with_chunk(chunk@),
            !inserted ==> final(self)@ == old(self)@,
    {
        if self.find(chunk.origin()).is_some() {
            false
        } else {
            let ghost before = *self;
            self.chunks.push(chunk);
            proof {
                Self::lemma_pushed(&before, self);
            }
            true
        }
    }

    /// The order in which the shown chunks hand out their instances.
    pub closed spec fn render_order(&self) -> Seq<ChunkOrigin> {
        self.render_keys@
    }

    /// The order of the shown chunks names each shown origin once, and no other.
    pub proof fn lemma_render_order(&self)
        requires
            self.wf(),
        ensures
            self.render_order().no_duplicates(),
            self.render_order().to_set() == self@.render_keys,
    {
    }

    /// Generates the chunks that are missing within the generation distance
    /// of `observer`, and shows the live chunks within the render distance
    /// that are in view: those over which the observer stands, and those of
    /// `corners_in_view`, the origins of the chunks with a corner in the
    /// field of view. No live chunk is generated anew or dropped.
    pub fn update(&mut self, observer: WorldPoint, corners_in_view: &Vec<ChunkOrigin>)
        requires
            old(self).wf(),
        ensures
            final(self).wf(),
            final(self)@.config == old(self)@.config,
            forall|o: ChunkOrigin|
                #![trigger final(self)@.chunks.contains_key(o)]
                final(self)@.chunks.contains_key(o) <==> old(self)@.chunks.contains_key(o)
                    || near_player(observer, old(self)@.config.gen_dist as int, o),
            forall|o: ChunkOrigin|
                #![trigger final(self)@.chunks[o]]
                old(self)@.chunks.contains_key(o) ==> final(self)@.chunks[o]
                    == old(self)@.chunks[o],
            forall|o: ChunkOrigin|
                #![trigger final(self)@.chunks[o]]
                final(self)@.chunks.contains_key(o) && !old(self)@.chunks.contains_key(o)
                    ==> final(self)@.chunks[o].is_generated(),
            forall|o: ChunkOrigin|
                #![trigger final(self)@.render_keys.contains(o)]
                final(self)@.render_keys.contains(o) <==> near_player(
                    observer,
                    old(self)@.config.render_dist as int,
                    o,
                ) && final(self)@.chunks.contains_key(o) && (stands_over(observer, o)
                    || corners_in_view@.contains(o)),
    {
        let ghost before = *self;
        let wanted = gen_chunk_origins_near_player(observer, self.config.gen_dist);
        let mut n: usize = 0;
        proof {
            before.lemma_lookup();
        }
        while n < wanted.len()
            invariant
                before.wf(),
                self.wf(),
                n <= wanted@.len(),
                self.config == before.config,
                self.render_keys == before.render_keys,
                forall|o: ChunkOrigin|
                    wanted@.contains(o) <==> near_player(
                        observer,
                        before.config.gen_dist as int,
                        o,
                    ),
                forall|o: ChunkOrigin|
                    #![trigger self@.chunks.contains_key(o)]
                    self@.chunks.contains_key(o) <==> before@.chunks.contains_key(o)
                        || listed_before(wanted@, n as int, o),
                forall|o: ChunkOrigin|
                    #![trigger self@.chunks[o]]
                    before@.chunks.contains_key(o) ==> self@.chunks[o] == before@.chunks[o],
                forall|o: ChunkOrigin|
                    #![trigger self@.chunks[o]]
                    self@.chunks.contains_key(o) && !before@.chunks.contains_key(o)
                        ==> self@.chunks[o].is_generated(),
            decreases wanted@.len() - n,
        {
            let new_origin = wanted[n];
            let ghost prev = *self;
            proof {
                assert(wanted@.contains(new_origin));
            }
            if self.find(new_origin).is_none() {
                let chunk = Chunk::gen_default_chunk(new_origin);
                let ghost made = chunk@;
                self.chunks.push(chunk);
                proof {
                    Self::lemma_pushed(&prev, self);
                    assert(self@.chunks == prev@.chunks.insert(new_origin, made));
                    assert forall|o: ChunkOrigin|
                        #![trigger self@.chunks.contains_key(o)]
                        self@.chunks.contains_key(o) <==> before@.chunks.contains_key(o)
                            || listed_before(wanted@, n + 1, o) by {
                        assert(prev@.chunks.contains_key(o) <==> before@.chunks.contains_key(o)
                            || listed_before(wanted@, n as int, o));
                        lemma_listed_step(wanted@, n as int, o);
                    }
                    assert forall|o: ChunkOrigin|
                        #![trigger self@.chunks[o]]
                        before@.chunks.contains_key(o) implies self@.chunks[o]
                        == before@.chunks[o] by {
                        assert(prev@.chunks.contains_key(o));
                        assert(prev@.chunks[o] == before@.chunks[o]);
                    }
                    assert forall|o: ChunkOrigin|
                        #![trigger self@.chunks[o]]
                        self@.chunks.contains_key(o) && !before@.chunks.contains_key(
                            o,
                        ) implies self@.chunks[o].is_generated() by {
                        if o != new_origin {
                            assert(prev@.chunks.contains_key(o));
                            assert(prev@.chunks[o].is_generated());
                        }
                    }
                }
            } else {
                proof {
                    assert forall|o: ChunkOrigin|
                        #![trigger self@.chunks.contains_key(o)]
                        self@.chunks.contains_key(o) <==> before@.chunks.contains_key(o)
                            || listed_before(wanted@, n + 1, o) by {
                        lemma_listed_step(wanted@, n as int, o);
                    }
                }
            }
            n += 1;
        }
        let ghost grown = *self;
        let shown = gen_chunk_origins_near_player(observer, self.config.render_dist);
        let mut keys: Vec<ChunkOrigin> = Vec::new();
        let mut m: usize = 0;
        while m < shown.len()
            invariant
                self.wf(),
                *self == grown,
                m <= shown@.len(),
                shown@.no_duplicates(),
                keys@.no_duplicates(),
                forall|o: ChunkOrigin|
                    #![trigger keys@.contains(o)]
                    keys@.contains(o) <==> listed_before(shown@, m as int, o)
                        && self@.chunks.contains_key(o) && (stands_over(observer, o)
                        || corners_in_view@.contains(o)),
            decreases shown@.len() - m,
        {
            let o = shown[m];
            let ghost kept = keys@;
            let live = self.find(o).is_some();
            let seen = in_camera_view(observer, o, contains_origin(corners_in_view, o));
            proof {
                if listed_before(shown@, m as int, o) {
                    let j = choose|j: int| 0 <= j < m && shown@[j] == o;
                    assert(shown@[j] == shown@[m as int]);
                }
                assert(!kept.contains(o));
            }
            if live && seen {
                keys.push(o);
                proof {
                    assert(keys@ == kept.push(o));
                    assert forall|q: ChunkOrigin|
                        #![trigger keys@.contains(q)]
                        keys@.contains(q) <==> kept.contains(q) || q == o by {
                        lemma_push_contains(kept, o, q);
                    }
                }
            }
            proof {
                assert forall|q: ChunkOrigin|
                    #![trigger keys@.contains(q)]
                    keys@.contains(q) <==> listed_before(shown@, m + 1, q)
                        && self@.chunks.contains_key(q) && (stands_over(observer, q)
                        || corners_in_view@.contains(q)) by {
                    lemma_listed_step(shown@, m as int, q);
                    assert(kept.contains(q) <==> listed_before(shown@, m as int, q)
                        && self@.chunks.contains_key(q) && (stands_over(observer, q)
                        || corners_in_view@.contains(q)));
                }
            }
            m += 1;
        }
        self.render_keys = keys;
        proof {
            assert(self.origins() =~= grown.origins());
            assert forall|i: int| 0 <= i < self.chunks@.len() implies (
            #[trigger] self.chunks@[i]).wf() by {
                assert(grown.chunks@[i].wf());
            }
            grown.lemma_lookup();
            assert(self@.chunks =~= grown@.chunks);
            assert forall|i: int| 0 <= i < self.render_keys@.len() implies self.origins().contains(
                #[trigger] self.render_keys@[i],
            ) by {
                let o = self.render_keys@[i];
                assert(keys@.contains(o));
                assert(grown@.chunks.contains_key(o));
                let k = choose|k: int|
                    0 <= k < grown.chunks@.len() && grown.chunks@[k]@.origin == o;
                assert(self.origins()[k] == o);
            }
            self.lemma_lookup();
            assert forall|o: ChunkOrigin|
                #![trigger self@.render_keys.contains(o)]
                self@.render_keys.contains(o) <==> near_player(
                    observer,
                    before@.config.render_dist as int,
                    o,
                ) && self@.chunks.contains_key(o) && (stands_over(observer, o)
                    || corners_in_view@.contains(o)) by {
                lemma_listed_all(shown@, o);
                assert(self@.render_keys.contains(o) == keys@.contains(o));
            }
            assert forall|o: ChunkOrigin|
                #![trigger self@.chunks.contains_key(o)]
                self@.chunks.contains_key(o) <==> before@.chunks.contains_key(o) || near_player(
                    observer,
                    before@.config.gen_dist as int,
                    o,
                ) by {
                lemma_listed_all(wanted@, o);
            }
        }
    }

    /// The instances of the shown chunks, chunk after chunk in the order of
    /// the shown chunks.
    pub fn gen_instances(&self) -> (instances: Vec<RenderInstance>)
        requires
            self.wf(),
        ensures
            instance_views(instances@) == self@.instances_along(
                self.render_order(),
                self.render_order().len() as int,
            ),
    {
        let mut instances: Vec<RenderInstance> = Vec::new();
        let mut i: usize = 0;
        assert(instance_views(instances@) =~= self@.instances_along(self.render_order(), 0));
        while i < self.render_keys.len()
            invariant
                self.wf(),
                i <= self.render_keys@.len(),
                instance_views(instances@) == self@.instances_along(self.render_order(), i as int),
            decreases self.render_keys@.len() - i,
        {
            let ghost done = instances@;
            match self.find(self.render_keys[i]) {
                Some(k) => {
                    let mut more = self.chunks[k].gen_instances();
                    let ghost added = more@;
                    instances.append(&mut more);
                    assert(instance_views(instances@) =~= instance_views(done) + instance_views(
                        added,
                    ));
                },
                None => {},
            }
            i += 1;
        }
        instances
    }

    /// Whether a block stands at `loc`. False where the chunk that owns
    /// `loc` is not live or the cell is empty.
    pub fn block_at(&self, loc: WorldPoint) -> (r: bool)
        requires
            self.wf(),
        ensures
            r == self@.block_at(loc.x as int, loc.y as int, loc.z as int),
    {
        match self.find_for(loc) {
            Some(i) => {
                let chunk = &self.chunks[i];
                match chunk.get(ChunkCoord::World(loc)) {
                    Ok(Some(_)) => true,
                    _ => false,
                }
            },
            None => false,
        }
    }

    /// Casts `ray` in the chunk that owns the ray's first sample, and in no
    /// other. A ray without samples, or whose chunk is not live, meets
    /// nothing.
    pub fn cast_ray(&self, ray: &Ray) -> (r: RayResult)
        requires
            self.wf(),
        ensures
            r == self@.cast(ray.steps@),
    {
        if ray.steps.len() == 0 {
            return RayResult::Miss;
        }
        match self.find_for(ray.steps[0]) {
            Some(i) => self.chunks[i].cast_ray(ray),
            None => RayResult::Miss,
        }
    }

    /// Replaces the content of the cell at `block_loc`, in the chunk that
    /// owns it, by what `f` makes of it. Nothing happens where that chunk is
    /// not live or `block_loc` lies above or below it.
    pub fn mutate_block<F>(&mut self, block_loc: WorldPoint, f: F) where
        F: FnOnce(Option<Block>) -> Option<Block>,

        requires
            old(self).wf(),
            match old(self)@.chunk_for(block_loc.x as int, block_loc.y as int) {
                Some(c) => c.origin.contains(block_loc) ==> f.requires(
                    (c.cell(c.origin.local_of(block_loc)),),
                ),
                None => true,
            },
        ensures
            final(self).wf(),
            match old(self)@.chunk_for(block_loc.x as int, block_loc.y as int) {
                Some(c) => if c.origin.contains(block_loc) {
                    let l = c.origin.local_of(block_loc);
                    let after = final(self)@.chunks[c.origin];
                    &&& f.ensures((c.cell(l),), after.cell(l))
                    &&& after == c.with_cell(
                        block_loc.x as int,
                        block_loc.y as int,
                        block_loc.z as int,
                        after.cell(l),
                    )
                    &&& final(self)@ == old(self)@.with_chunk(after)
                } else {
                    final(self)@ == old(self)@
                },
                None => final(self)@ == old(self)@,
            },
    {
        let ghost before = *self;
        match self.find_for(block_loc) {
            Some(i) => {
                self.chunks[i].mutate_block(block_loc, f);
                proof {
                    Self::lemma_replaced(&before, self, i as int);
                    before.lemma_view_wf();
                    let c = before.chunks@[i as int]@;
                    if !c.origin.contains(block_loc) {
                        assert(before@.chunks.insert(c.origin, c) =~= before@.chunks);
                    }
                }
            },
            None => {},
        }
    }

    /// Places `block` at `loc` in the chunk that owns it. Where that chunk
    /// is not live the position is out of bounds; otherwise the outcome is
    /// the chunk's.
    pub fn set_block(&mut self, loc: WorldPoint, block: Block) -> (r: Result<(), SetBlockError>)
        requires
            old(self).wf(),
        ensures
            final(self).wf(),
            match old(self)@.chunk_for(loc.x as int, loc.y as int) {
                Some(c) => if !c.origin.contains(loc) {
                    r == Err::<(), SetBlockError>(SetBlockError::OutOfBounds) && final(self)@
                        == old(self)@
                } else if c.occupied(loc.x as int, loc.y as int, loc.z as int) {
                    r == Err::<(), SetBlockError>(SetBlockError::Occupied) && final(self)@
                        == old(self)@
                } else {
                    r == Ok::<(), SetBlockError>(()) && final(self)@ == old(self)@.with_chunk(
                        c.placed(loc.x as int, loc.y as int, loc.z as int, block),
                    )
                },
                None => r == Err::<(), SetBlockError>(SetBlockError::OutOfBounds) && final(self)@
                    == old(self)@,
            },
    {
        let ghost before = *self;
        match self.find_for(loc) {
            Some(i) => {
                let r = self.chunks[i].set_block(loc, block);
                proof {
                    Self::lemma_replaced(&before, self, i as int);
                    before.lemma_view_wf();
                    let c = before.chunks@[i as int]@;
                    if r is Err {
                        assert(before@.chunks.insert(c.origin, c) =~= before@.chunks);
                    }
                }
                r
            },
            None => Err(SetBlockError::OutOfBounds),
        }
    }

    /// Takes the block at `loc` out of the chunk that owns it. Where that
    /// chunk is not live the position is out of bounds; otherwise the
    /// outcome is the chunk's.
    pub fn remove_block(&mut self, loc: WorldPoint) -> (r: Result<Block, RemoveBlockError>)
        requires
            old(self).wf(),
        ensures
            final(self).wf(),
            match old(self)@.chunk_for(loc.x as int, loc.y as int) {
                Some(c) => if !c.origin.contains(loc) {
                    r == Err::<Block, RemoveBlockError>(RemoveBlockError::OutOfBounds)
                        && final(self)@ == old(self)@
                } else if !c.occupied(loc.x as int, loc.y as int, loc.z as int) {
                    r == Err::<Block, RemoveBlockError>(RemoveBlockError::Empty) && final(self)@
                        == old(self)@
                } else {
                    r == Ok::<Block, RemoveBlockError>(
                        c.at(loc.x as int, loc.y as int, loc.z as int).unwrap(),
                    ) && final(self)@ == old(self)@.with_chunk(
                        c.cleared(loc.x as int, loc.y as int, loc.z as int),
                    )
                },
                None => r == Err::<Block, RemoveBlockError>(RemoveBlockError::OutOfBounds)
                    && final(self)@ == old(self)@,
            },
    {
        let ghost before = *self;
        match self.find_for(loc) {
            Some(i) => {
                let r = self.chunks[i].remove_block(loc);
                proof {
                    Self::lemma_replaced(&before, self, i as int);
                    before.lemma_view_wf();
                    let c = before.chunks@[i as int]@;
                    if r is Err {
                        assert(before@.chunks.insert(c.origin, c) =~= before@.chunks);
                    }
                }
                r
            },
            None => Err(RemoveBlockError::OutOfBounds),
        }
    }
}

impl Default for ChunkManager {
    fn default() -> (manager: Self)
        ensures
            manager.wf(),
            manager@.chunks == Map::<ChunkOrigin, ChunkView>::empty(),
            manager@.render_keys == Set::<ChunkOrigin>::empty(),
            manager@.config == (ChunkManagerConfig { gen_dist: 2, render_dist: 2 }),
    {
        ChunkManager::new(ChunkManagerConfig::default())
    }
}

} // verus!
