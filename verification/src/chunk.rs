use vstd::prelude::*;
use vstd::std_specs::hash::*;
use vstd::std_specs::iter::IteratorSpec;
use std::collections::HashMap;
use std::collections::HashSet;
use crate::fog::FogOfWarConfig;
use crate::laws::law_eviction_keeps_settled;
use crate::laws::law_visibility_settles;
use crate::mapper::lemma_square_bounded;
use crate::mapper::world_to_chunk;
use crate::sight::visible_keys;
use crate::sight::visible_region;

verus! {

broadcast use vstd::std_specs::hash::group_hash_axioms;

/// A point of the world, in whole world units.
#[derive(Clone, Copy, Debug, PartialEq, Eq, Structural)]
pub struct WorldPos {
    pub x: i32,
    pub y: i32,
}

/// A point of the world in half units, so that the centre of a chunk of
/// odd size is written in whole numbers: each field is twice the
/// coordinate.
#[derive(Clone, Copy, Debug, PartialEq, Eq, Structural)]
pub struct HalfPos {
    pub twice_x: i128,
    pub twice_y: i128,
}

/// Address of one square cell of the world grid.
#[derive(Clone, Copy, Debug, PartialEq, Eq, Hash, Structural)]
pub struct ChunkCoord {
    pub x: i32,
    pub y: i32,
}

/// What the player knows of a chunk.
#[derive(Clone, Copy, Debug, PartialEq, Eq, Structural)]
pub enum ChunkVisibility {
    /// Never seen.
    Unexplored,
    /// Seen before, out of sight now.
    Explored,
    /// In sight of a provider now.
    Visible,
}

/// State kept for a loaded chunk.
#[derive(Clone, Copy, Debug, PartialEq, Eq, Structural)]
pub struct FogChunk {
    pub visibility: ChunkVisibility,
    /// When the chunk last went out of sight, in milliseconds; for a chunk
    /// that was loaded in sight, the time of its loading; 0 for a chunk that
    /// was loaded out of sight.
    pub last_visible_time: u64,
}

/// Something that uncovers the fog around it.
#[derive(Clone, Copy, Debug, PartialEq, Eq, Structural)]
pub struct VisionProvider {
    pub position: WorldPos,
    /// How far the provider sees, in world units.
    pub range: u32,
}

impl ChunkCoord {
    /// The coordinate as one number: both parts shifted to be non-negative,
    /// `x` in the upper 32 bits and `y` in the lower.
    pub open spec fn spec_key(self) -> u64 {
        ((self.x + 0x8000_0000) * 0x1_0000_0000 + (self.y + 0x8000_0000)) as u64
    }

    /// The coordinate that a number stands for.
    pub open spec fn spec_from_key(k: u64) -> ChunkCoord {
        ChunkCoord {
            x: (k / 0x1_0000_0000 - 0x8000_0000) as i32,
            y: (k % 0x1_0000_0000 - 0x8000_0000) as i32,
        }
    }

    /// Every coordinate has its own number, and every number is one.
    pub proof fn lemma_key_bijective()
        ensures
            forall|c: ChunkCoord| #[trigger] ChunkCoord::spec_from_key(c.spec_key()) == c,
            forall|k: u64| #[trigger] ChunkCoord::spec_from_key(k).spec_key() == k,
            forall|a: ChunkCoord, b: ChunkCoord|
                #[trigger] a.spec_key() == #[trigger] b.spec_key() ==> a == b,
    {
        assert forall|c: ChunkCoord| #[trigger] ChunkCoord::spec_from_key(c.spec_key()) == c by {
            let hi = c.x + 0x8000_0000;
            let lo = c.y + 0x8000_0000;
            let k = hi * 0x1_0000_0000 + lo;
            assert(0 <= k <= u64::MAX);
            assert(k / 0x1_0000_0000 == hi);
            assert(k % 0x1_0000_0000 == lo);
        }
        assert forall|a: ChunkCoord, b: ChunkCoord|
            #[trigger] a.spec_key() == #[trigger] b.spec_key() implies a == b by {
            assert(ChunkCoord::spec_from_key(a.spec_key()) == a);
            assert(ChunkCoord::spec_from_key(b.spec_key()) == b);
        }
    }

    /// The coordinate as one number.
    pub fn key(self) -> (k: u64)
        ensures
            k == self.spec_key(),
    {
        let hi: u64 = (self.x as i64 + 0x8000_0000) as u64;
        let lo: u64 = (self.y as i64 + 0x8000_0000) as u64;
        hi * 0x1_0000_0000 + lo
    }

    /// The coordinate that a number stands for.
    pub fn from_key(k: u64) -> (c: ChunkCoord)
        ensures
            c == ChunkCoord::spec_from_key(k),
            c.spec_key() == k,
    {
        let hi: i64 = (k / 0x1_0000_0000) as i64;
        let lo: i64 = (k % 0x1_0000_0000) as i64;
        ChunkCoord { x: (hi - 0x8000_0000) as i32, y: (lo - 0x8000_0000) as i32 }
    }
}

impl FogChunk {
    /// The state of a loaded chunk after a pass that found it in sight or
    /// not. A chunk that goes out of sight is stamped with the time; no
    /// chunk ever goes back to unexplored.
    pub open spec fn spec_observe(self, seen: bool, now: u64) -> FogChunk {
        match (self.visibility, seen) {
            (ChunkVisibility::Visible, false) => FogChunk {
                visibility: ChunkVisibility::Explored,
                last_visible_time: now,
            },
            (ChunkVisibility::Unexplored, true) | (ChunkVisibility::Explored, true) => FogChunk {
                visibility: ChunkVisibility::Visible,
                last_visible_time: self.last_visible_time,
            },
            _ => self,
        }
    }

    /// The state a chunk is loaded with: visible and stamped with the time
    /// if it is in sight, else explored with the time unknown, written as 0.
    pub open spec fn spec_fresh(seen: bool, now: u64) -> FogChunk {
        if seen {
            FogChunk { visibility: ChunkVisibility::Visible, last_visible_time: now }
        } else {
            FogChunk { visibility: ChunkVisibility::Explored, last_visible_time: 0 }
        }
    }

    /// Whether a chunk outside the load range may be dropped: an explored
    /// one once more than the grace period has passed since it went out of
    /// sight, an unexplored one at once, a visible one never.
    pub open spec fn spec_droppable(self, now: u64, grace_period: u64) -> bool {
        match self.visibility {
            ChunkVisibility::Explored => now - self.last_visible_time > grace_period,
            ChunkVisibility::Unexplored => true,
            ChunkVisibility::Visible => false,
        }
    }

    /// The state of a loaded chunk after a pass that found it in sight or
    /// not.
    pub fn observe(self, seen: bool, now: u64) -> (next: FogChunk)
        ensures
            next == self.spec_observe(seen, now),
    {
        match (self.visibility, seen) {
            (ChunkVisibility::Visible, false) => FogChunk {
                visibility: ChunkVisibility::Explored,
                last_visible_time: now,
            },
            (ChunkVisibility::Unexplored, true) | (ChunkVisibility::Explored, true) => FogChunk {
                visibility: ChunkVisibility::Visible,
                last_visible_time: self.last_visible_time,
            },
            _ => self,
        }
    }

    /// The state a chunk is loaded with.
    pub fn fresh(seen: bool, now: u64) -> (chunk: FogChunk)
        ensures
            chunk == FogChunk::spec_fresh(seen, now),
    {
        if seen {
            FogChunk { visibility: ChunkVisibility::Visible, last_visible_time: now }
        } else {
            FogChunk { visibility: ChunkVisibility::Explored, last_visible_time: 0 }
        }
    }

    /// Whether a chunk outside the load range may be dropped.
    pub fn droppable(&self, now: u64, grace_period: u64) -> (b: bool)
        ensures
            b == self.spec_droppable(now, grace_period),
    {
        match self.visibility {
            ChunkVisibility::Explored => now > self.last_visible_time && now
                - self.last_visible_time > grace_period,
            ChunkVisibility::Unexplored => true,
            ChunkVisibility::Visible => false,
        }
    }
}

/// What the registry holds, as mathematics.
pub struct FogState {
    /// The loaded chunks and their states.
    pub active: Map<ChunkCoord, FogChunk>,
    /// The chunks in sight at the last pass.
    pub visible: Set<ChunkCoord>,
    /// The chunks that were ever in sight.
    pub explored: Set<ChunkCoord>,
}

/// The registry of chunks: which are loaded and in what state, which are in
/// sight, and which were ever seen.
pub struct FogChunkManager {
    active: HashMap<u64, FogChunk>,
    visible: HashSet<u64>,
    explored: HashSet<u64>,
}

impl View for FogChunkManager {
    type V = FogState;

    closed spec fn view(&self) -> FogState {
        FogState {
            active: Map::new(
                |c: ChunkCoord| self.active@.contains_key(c.spec_key()),
                |c: ChunkCoord| self.active@[c.spec_key()],
            ),
            visible: Set::new(|c: ChunkCoord| self.visible@.contains(c.spec_key())),
            explored: Set::new(|c: ChunkCoord| self.explored@.contains(c.spec_key())),
        }
    }
}

/// How far from the camera's chunk a chunk is kept whatever its state: the
/// view range and a margin of two chunks, so that a chunk at the edge is
/// not loaded and dropped in turn.
pub open spec fn load_range(view_range: u32) -> int {
    view_range + 2
}

impl ChunkCoord {
    /// Whether the chunk lies further than `reach` chunks from `center`, by
    /// the straight line between the two.
    pub open spec fn spec_beyond(self, center: ChunkCoord, reach: int) -> bool {
        let dx = self.x - center.x;
        let dy = self.y - center.y;
        dx * dx + dy * dy > reach * reach
    }
}

impl FogState {
    /// Nothing loaded, nothing seen.
    pub open spec fn empty() -> FogState {
        FogState { active: Map::empty(), visible: Set::empty(), explored: Set::empty() }
    }

    /// What holds between two ticks: every visible chunk is explored and
    /// loaded, and the loaded chunks marked visible are the visible ones.
    pub open spec fn settled(self) -> bool {
        &&& self.visible.subset_of(self.explored)
        &&& self.visible.subset_of(self.active.dom())
        &&& forall|c: ChunkCoord| #[trigger]
            self.active.contains_key(c) ==> (self.active[c].visibility == ChunkVisibility::Visible
                <==> self.visible.contains(c))
    }

    /// The registry after a visibility pass that found the chunks of `seen`
    /// in sight at time `now`. They become the visible set and join the
    /// explored set; each loaded chunk moves on by `spec_observe`; each
    /// explored chunk that was not loaded is loaded by `spec_fresh`.
    pub open spec fn after_visibility(self, seen: Set<ChunkCoord>, now: u64) -> FogState {
        let explored = self.explored.union(seen);
        FogState {
            active: Map::new(
                |c: ChunkCoord| self.active.contains_key(c) || explored.contains(c),
                |c: ChunkCoord|
                    if self.active.contains_key(c) {
                        self.active[c].spec_observe(seen.contains(c), now)
                    } else {
                        FogChunk::spec_fresh(seen.contains(c), now)
                    },
            ),
            visible: seen,
            explored,
        }
    }

    /// Whether the lifecycle pass drops the loaded chunk at `coord`: it lies
    /// beyond the load range around the camera's chunk and its state lets it
    /// go.
    pub open spec fn evicts(
        self,
        coord: ChunkCoord,
        camera: WorldPos,
        config: FogOfWarConfig,
        now: u64,
    ) -> bool {
        &&& self.active.contains_key(coord)
        &&& coord.spec_beyond(
            ChunkCoord::spec_of(camera, config.chunk_size()),
            load_range(config.view_range()),
        )
        &&& self.active[coord].spec_droppable(now, config.grace_period())
    }

    /// The registry after a lifecycle pass at time `now`. Without a camera
    /// nothing changes. With one, the chunks that `evicts` names are
    /// unloaded; the others, and the visible and explored sets, stay.
    pub open spec fn after_eviction(
        self,
        camera: Option<WorldPos>,
        config: FogOfWarConfig,
        now: u64,
    ) -> FogState {
        match camera {
            None => self,
            Some(pos) => FogState {
                active: Map::new(
                    |c: ChunkCoord| self.active.contains_key(c) && !self.evicts(c, pos, config, now),
                    |c: ChunkCoord| self.active[c],
                ),
                visible: self.visible,
                explored: self.explored,
            },
        }
    }
}

/// The members of a set, each once, in no particular order.
fn members_of(set: &HashSet<u64>) -> (list: Vec<u64>)
    ensures
        list@.to_set() == set@,
        list@.no_duplicates(),
{
    let mut list: Vec<u64> = Vec::new();
    for k in it: set.iter()
        invariant
            it.seq() == spec_hash_keys_iter(set).remaining(),
            list@ == it.seq().take(it.index() as int).unref(),
    {
        list.push(*k);
    }
    proof {
        let full = spec_hash_keys_iter(set).remaining();
        assert(full.take(full.len() as int) == full);
    }
    list
}

/// The keys of a map, each once, in no particular order.
fn keys_of(map: &HashMap<u64, FogChunk>) -> (list: Vec<u64>)
    ensures
        list@.to_set() == map@.dom(),
        list@.no_duplicates(),
{
    let mut list: Vec<u64> = Vec::new();
    for k in it: map.keys()
        invariant
            it.seq() == spec_keys_iter(map).remaining(),
            list@ == it.seq().take(it.index() as int).unref(),
    {
        list.push(*k);
    }
    proof {
        let full = spec_keys_iter(map).remaining();
        assert(full.take(full.len() as int) == full);
    }
    list
}

/// The coordinates that the numbers stand for, in the same order.
fn coords_of(keys: &Vec<u64>) -> (list: Vec<ChunkCoord>)
    ensures
        list@.len() == keys@.len(),
        forall|i: int|
            0 <= i < keys@.len() ==> #[trigger] list@[i] == ChunkCoord::spec_from_key(keys@[i]),
{
    let mut list: Vec<ChunkCoord> = Vec::new();
    let mut i: usize = 0;
    while i < keys.len()
        invariant
            i <= keys.len(),
            list@.len() == i,
            forall|j: int| 0 <= j < i ==> #[trigger] list@[j] == ChunkCoord::spec_from_key(keys@[j]),
        decreases keys.len() - i,
    {
        list.push(ChunkCoord::from_key(keys[i]));
        i = i + 1;
    }
    list
}

/// A list of numbers without repeats that covers a set of numbers stands
/// for a list of coordinates without repeats that covers the set of their
/// coordinates.
proof fn lemma_coords_cover(
    keys: Seq<u64>,
    list: Seq<ChunkCoord>,
    key_set: Set<u64>,
    coord_set: Set<ChunkCoord>,
)
    requires
        keys.to_set() == key_set,
        keys.no_duplicates(),
        list.len() == keys.len(),
        forall|i: int| 0 <= i < keys.len() ==> #[trigger] list[i] == ChunkCoord::spec_from_key(keys[i]),
        forall|c: ChunkCoord| coord_set.contains(c) <==> key_set.contains(c.spec_key()),
    ensures
        list.to_set() == coord_set,
        list.no_duplicates(),
{
    ChunkCoord::lemma_key_bijective();
    assert forall|i: int, j: int| 0 <= i < list.len() && 0 <= j < list.len() && i != j implies list[i]
        != list[j] by {
        assert(list[i].spec_key() == keys[i]);
        assert(list[j].spec_key() == keys[j]);
    }
    assert forall|c: ChunkCoord| list.to_set().contains(c) <==> coord_set.contains(c) by {
        if list.to_set().contains(c) {
            assert(list.contains(c));
            let i = choose|i: int| 0 <= i < list.len() && list[i] == c;
            assert(list[i].spec_key() == keys[i]);
            assert(keys.contains(keys[i]));
            assert(keys.to_set().contains(keys[i]));
        }
        if coord_set.contains(c) {
            assert(keys.to_set().contains(c.spec_key()));
            assert(keys.contains(c.spec_key()));
            let i = choose|i: int| 0 <= i < keys.len() && keys[i] == c.spec_key();
            assert(list[i] == c);
            assert(list.contains(c));
        }
    }
    assert(list.to_set() =~= coord_set);
}

impl Default for FogChunkManager {
    /// A registry with nothing loaded and nothing seen.
    fn default() -> (manager: FogChunkManager)
        ensures
            manager@ == FogState::empty(),
    {
        FogChunkManager::new()
    }
}

impl FogChunkManager {
    /// A registry with nothing loaded and nothing seen.
    pub fn new() -> (manager: FogChunkManager)
        ensures
            manager@ == FogState::empty(),
    {
        let manager = FogChunkManager {
            active: HashMap::new(),
            visible: HashSet::new(),
            explored: HashSet::new(),
        };
        proof {
            assert(manager@.active =~= Map::empty());
            assert(manager@.visible =~= Set::empty());
            assert(manager@.explored =~= Set::empty());
        }
        manager
    }

    /// The state of a chunk, if the chunk is loaded.
    pub fn get(&self, coord: ChunkCoord) -> (found: Option<FogChunk>)
        ensures
            found == if self@.active.contains_key(coord) {
                Some(self@.active[coord])
            } else {
                None
            },
    {
        let k: u64 = coord.key();
        match self.active.get(&k) {
            Some(chunk) => Some(*chunk),
            None => None,
        }
    }

    /// Whether the chunk was in sight at the last pass.
    pub fn is_visible(&self, coord: ChunkCoord) -> (b: bool)
        ensures
            b == self@.visible.contains(coord),
    {
        let k: u64 = coord.key();
        self.visible.contains(&k)
    }

    /// Whether the chunk was ever in sight.
    pub fn is_explored(&self, coord: ChunkCoord) -> (b: bool)
        ensures
            b == self@.explored.contains(coord),
    {
        let k: u64 = coord.key();
        self.explored.contains(&k)
    }

    /// The chunks in sight at the last pass, each once, in no particular
    /// order.
    pub fn visible_chunks(&self) -> (list: Vec<ChunkCoord>)
        ensures
            list@.to_set() == self@.visible,
            list@.no_duplicates(),
    {
        let keys = members_of(&self.visible);
        let list = coords_of(&keys);
        proof {
            lemma_coords_cover(keys@, list@, self.visible@, self@.visible);
        }
        list
    }

    /// The chunks that were ever in sight, each once, in no particular
    /// order.
    pub fn explored_chunks(&self) -> (list: Vec<ChunkCoord>)
        ensures
            list@.to_set() == self@.explored,
            list@.no_duplicates(),
    {
        let keys = members_of(&self.explored);
        let list = coords_of(&keys);
        proof {
            lemma_coords_cover(keys@, list@, self.explored@, self@.explored);
        }
        list
    }

    /// The loaded chunks, each once, in no particular order.
    pub fn active_chunks(&self) -> (list: Vec<ChunkCoord>)
        ensures
            list@.to_set() == self@.active.dom(),
            list@.no_duplicates(),
    {
        let keys = keys_of(&self.active);
        let list = coords_of(&keys);
        proof {
            lemma_coords_cover(keys@, list@, self.active@.dom(), self@.active.dom());
        }
        list
    }

    /// Loads the chunk with the given state, or overwrites the state of a
    /// loaded chunk. The sets of visible and explored chunks stay as they
    /// are.
    pub fn upsert(&mut self, coord: ChunkCoord, visibility: ChunkVisibility, last_visible_time: u64)
        ensures
            final(self)@.active == old(self)@.active.insert(
                coord,
                FogChunk { visibility, last_visible_time },
            ),
            final(self)@.visible == old(self)@.visible,
            final(self)@.explored == old(self)@.explored,
    {
        let k: u64 = coord.key();
        self.active.insert(k, FogChunk { visibility, last_visible_time });
        proof {
            ChunkCoord::lemma_key_bijective();
            assert(self@.active =~= old(self)@.active.insert(
                coord,
                FogChunk { visibility, last_visible_time },
            ));
        }
    }

    /// Unloads the chunk and returns the state it had, if it was loaded.
    /// The sets of visible and explored chunks stay as they are.
    pub fn remove(&mut self, coord: ChunkCoord) -> (removed: Option<FogChunk>)
        ensures
            final(self)@.active == old(self)@.active.remove(coord),
            final(self)@.visible == old(self)@.visible,
            final(self)@.explored == old(self)@.explored,
            removed == if old(self)@.active.contains_key(coord) {
                Some(old(self)@.active[coord])
            } else {
                None
            },
    {
        let k: u64 = coord.key();
        let removed = self.active.remove(&k);
        proof {
            ChunkCoord::lemma_key_bijective();
            assert(self@.active =~= old(self)@.active.remove(coord));
        }
        removed
    }
}

impl ChunkCoord {
    /// Whether the chunk lies further than `reach` chunks from `center`, by
    /// the straight line between the two.
    pub fn beyond(&self, center: ChunkCoord, reach: u64) -> (b: bool)
        ensures
            b == self.spec_beyond(center, reach as int),
    {
        let dx: i128 = self.x as i128 - center.x as i128;
        let dy: i128 = self.y as i128 - center.y as i128;
        let r: i128 = reach as i128;
        proof {
            lemma_square_bounded(dx as int, 0x1_0000_0000);
            lemma_square_bounded(dy as int, 0x1_0000_0000);
        }
        if reach >= 0x2_0000_0000 {
            proof {
                assert(r * r >= 0x2_0000_0000 * 0x2_0000_0000) by (nonlinear_arith)
                    requires
                        r >= 0x2_0000_0000,
                ;
            }
            false
        } else {
            proof {
                lemma_square_bounded(r as int, 0x2_0000_0000);
            }
            dx * dx + dy * dy > r * r
        }
    }
}

/// Whether `k` is one of the first `count` numbers of the list.
spec fn among_first(list: Seq<u64>, count: int, k: u64) -> bool {
    exists|j: int| 0 <= j < count && #[trigger] list[j] == k
}

/// One more number of the list is looked at: `k` is among them if it was
/// before or is the new one.
proof fn lemma_among_next(list: Seq<u64>, count: int, k: u64)
    requires
        0 <= count < list.len(),
    ensures
        among_first(list, count + 1, k) <==> among_first(list, count, k) || list[count] == k,
{
    if among_first(list, count + 1, k) {
        let j = choose|j: int| 0 <= j < count + 1 && #[trigger] list[j] == k;
        if j < count {
            assert(among_first(list, count, k));
        }
    }
    if among_first(list, count, k) {
        let j = choose|j: int| 0 <= j < count && #[trigger] list[j] == k;
        assert(among_first(list, count + 1, k));
    }
    if list[count] == k {
        assert(among_first(list, count + 1, k));
    }
}

/// To be among all numbers of the list is to be in the list.
proof fn lemma_among_all(list: Seq<u64>, k: u64)
    ensures
        among_first(list, list.len() as int, k) <==> list.contains(k),
        among_first(list, list.len() as int, k) <==> list.to_set().contains(k),
{
    if list.contains(k) {
        let j = choose|j: int| 0 <= j < list.len() && list[j] == k;
        assert(among_first(list, list.len() as int, k));
    }
    if among_first(list, list.len() as int, k) {
        let j = choose|j: int| 0 <= j < list.len() && #[trigger] list[j] == k;
        assert(list.contains(k));
    }
}

/// Adds the members of `source` to `target`.
fn absorb(target: &mut HashSet<u64>, source: &HashSet<u64>)
    ensures
        final(target)@ == old(target)@.union(source@),
{
    let list = members_of(source);
    let ghost before = target@;
    let mut i: usize = 0;
    while i < list.len()
        invariant
            i <= list.len(),
            forall|k: u64| #[trigger]
                target@.contains(k) <==> before.contains(k) || among_first(list@, i as int, k),
        decreases list.len() - i,
    {
        let k: u64 = list[i];
        let ghost prev = target@;
        target.insert(k);
        proof {
            assert(target@ == prev.insert(k));
            assert forall|q: u64| #[trigger]
                target@.contains(q) <==> before.contains(q) || among_first(
                    list@,
                    i + 1,
                    q,
                ) by {
                assert(prev.contains(q) <==> before.contains(q) || among_first(
                    list@,
                    i as int,
                    q,
                ));
                lemma_among_next(list@, i as int, q);
            }
        }
        i = i + 1;
    }
    proof {
        assert forall|k: u64| among_first(list@, list.len() as int, k) <==> source@.contains(k) by {
            lemma_among_all(list@, k);
        }
        assert(target@ =~= before.union(source@));
    }
}

/// Moves every loaded chunk on by one visibility pass.
fn observe_all(active: &mut HashMap<u64, FogChunk>, seen: &HashSet<u64>, now: u64)
    ensures
        final(active)@.dom() == old(active)@.dom(),
        forall|k: u64| #[trigger]
            old(active)@.contains_key(k) ==> final(active)@[k] == old(active)@[k].spec_observe(
                seen@.contains(k),
                now,
            ),
{
    let keys = keys_of(active);
    let ghost before = active@;
    let mut i: usize = 0;
    while i < keys.len()
        invariant
            i <= keys.len(),
            keys@.no_duplicates(),
            keys@.to_set() == before.dom(),
            active@.dom() == before.dom(),
            forall|j: int|
                0 <= j < i ==> active@[#[trigger] keys@[j]] == before[keys@[j]].spec_observe(
                    seen@.contains(keys@[j]),
                    now,
                ),
            forall|j: int| i <= j < keys.len() ==> active@[#[trigger] keys@[j]] == before[keys@[j]],
        decreases keys.len() - i,
    {
        let k: u64 = keys[i];
        let in_sight: bool = seen.contains(&k);
        let ghost prev = active@;
        proof {
            assert(keys@.to_set().contains(keys@[i as int]));
        }
        match active.get(&k) {
            Some(chunk) => {
                let next = chunk.observe(in_sight, now);
                active.insert(k, next);
                proof {
                    assert(active@ == prev.insert(k, next));
                    assert(active@.dom() =~= before.dom());
                }
            },
            None => {},
        }
        i = i + 1;
    }
    proof {
        assert forall|k: u64| #[trigger] before.contains_key(k) implies active@[k]
            == before[k].spec_observe(seen@.contains(k), now) by {
            assert(keys@.to_set().contains(k));
            assert(keys@.contains(k));
            let j = choose|j: int| 0 <= j < keys@.len() && keys@[j] == k;
            assert(active@[keys@[j]] == before[keys@[j]].spec_observe(
                seen@.contains(keys@[j]),
                now,
            ));
        }
    }
}

/// Loads every chunk of `wanted` that is not loaded, in the state of a
/// chunk that is new to the registry.
fn load_missing(
    active: &mut HashMap<u64, FogChunk>,
    wanted: &HashSet<u64>,
    seen: &HashSet<u64>,
    now: u64,
)
    ensures
        forall|k: u64| #[trigger]
            final(active)@.contains_key(k) <==> old(active)@.contains_key(k) || wanted@.contains(
                k,
            ),
        forall|k: u64| #[trigger]
            old(active)@.contains_key(k) ==> final(active)@[k] == old(active)@[k],
        forall|k: u64|
            !old(active)@.contains_key(k) && #[trigger] wanted@.contains(k) ==> final(active)@[k]
                == FogChunk::spec_fresh(seen@.contains(k), now),
{
    let list = members_of(wanted);
    let ghost before = active@;
    let mut i: usize = 0;
    while i < list.len()
        invariant
            i <= list.len(),
            forall|k: u64| #[trigger]
                active@.contains_key(k) <==> before.contains_key(k) || among_first(
                    list@,
                    i as int,
                    k,
                ),
            forall|k: u64| #[trigger] before.contains_key(k) ==> active@[k] == before[k],
            forall|k: u64|
                !before.contains_key(k) && #[trigger] active@.contains_key(k) ==> active@[k]
                    == FogChunk::spec_fresh(seen@.contains(k), now),
        decreases list.len() - i,
    {
        let k: u64 = list[i];
        let ghost prev = active@;
        if !active.contains_key(&k) {
            let chunk = FogChunk::fresh(seen.contains(&k), now);
            active.insert(k, chunk);
            proof {
                assert(active@ == prev.insert(k, chunk));
            }
        }
        proof {
            assert forall|q: u64| #[trigger]
                active@.contains_key(q) <==> before.contains_key(q) || among_first(
                    list@,
                    i + 1,
                    q,
                ) by {
                assert(prev.contains_key(q) <==> before.contains_key(q) || among_first(
                    list@,
                    i as int,
                    q,
                ));
                lemma_among_next(list@, i as int, q);
            }
        }
        i = i + 1;
    }
    proof {
        assert forall|k: u64| among_first(list@, list.len() as int, k) <==> wanted@.contains(k) by {
            lemma_among_all(list@, k);
        }
        assert forall|k: u64| !before.contains_key(k) && #[trigger] wanted@.contains(k) implies active@[k]
            == FogChunk::spec_fresh(seen@.contains(k), now) by {
            assert(among_first(list@, list.len() as int, k));
            assert(active@.contains_key(k));
        }
    }
}

/// One visibility pass at time `now`. The chunks that the providers uncover
/// become the visible set and join the explored set. Every loaded chunk
/// that went out of sight becomes explored and is stamped with `now`; every
/// loaded chunk that came into sight becomes visible. Every explored chunk
/// that is not loaded is loaded: visible and stamped with `now` if it is in
/// sight, else explored with time 0.
pub fn update_chunk_visibility(
    manager: &mut FogChunkManager,
    providers: &[VisionProvider],
    config: &FogOfWarConfig,
    now: u64,
)
    ensures
        final(manager)@ == old(manager)@.after_visibility(
            visible_region(providers@, *config),
            now,
        ),
        final(manager)@.visible == visible_region(providers@, *config),
        final(manager)@.visible.subset_of(final(manager)@.explored),
        old(manager)@.explored.subset_of(final(manager)@.explored),
        final(manager)@.settled(),
{
    let seen = visible_keys(providers, config);
    let ghost region = visible_region(providers@, *config);
    let ghost before = manager@;
    let ghost loaded = manager.active@;
    observe_all(&mut manager.active, &seen, now);
    let ghost observed = manager.active@;
    absorb(&mut manager.explored, &seen);
    load_missing(&mut manager.active, &manager.explored, &seen, now);
    manager.visible = seen;
    proof {
        ChunkCoord::lemma_key_bijective();
        let after = before.after_visibility(region, now);
        assert(manager@.visible =~= after.visible);
        assert(manager@.explored =~= after.explored);
        assert forall|c: ChunkCoord|
            manager@.active.contains_key(c) <==> #[trigger] after.active.contains_key(c) by {
            let k = c.spec_key();
            assert(manager.active@.contains_key(k) <==> observed.contains_key(k)
                || manager.explored@.contains(k));
        }
        assert forall|c: ChunkCoord| #[trigger] after.active.contains_key(c) implies manager@.active[c]
            == after.active[c] by {
            let k = c.spec_key();
            assert(manager.active@.contains_key(k) <==> observed.contains_key(k)
                || manager.explored@.contains(k));
            if loaded.contains_key(k) {
                assert(observed.contains_key(k));
                assert(observed[k] == loaded[k].spec_observe(seen@.contains(k), now));
                assert(manager.active@[k] == observed[k]);
            } else {
                assert(!observed.contains_key(k));
                assert(manager.explored@.contains(k));
            }
        }
        assert(manager@.active =~= after.active);
        law_visibility_settles(before, region, now);
    }
}

/// Whether the lifecycle pass drops the chunk with the number `k`.
spec fn key_evicted(
    active: Map<u64, FogChunk>,
    k: u64,
    home: ChunkCoord,
    reach: int,
    now: u64,
    grace_period: u64,
) -> bool {
    &&& active.contains_key(k)
    &&& ChunkCoord::spec_from_key(k).spec_beyond(home, reach)
    &&& active[k].spec_droppable(now, grace_period)
}

/// The numbers of the loaded chunks that the lifecycle pass drops.
fn find_doomed(
    active: &HashMap<u64, FogChunk>,
    home: ChunkCoord,
    reach: u64,
    now: u64,
    grace_period: u64,
) -> (doomed: Vec<u64>)
    ensures
        forall|k: u64|
            doomed@.contains(k) <==> #[trigger] key_evicted(
                active@,
                k,
                home,
                reach as int,
                now,
                grace_period,
            ),
{
    let keys = keys_of(active);
    let mut doomed: Vec<u64> = Vec::new();
    let mut i: usize = 0;
    while i < keys.len()
        invariant
            i <= keys.len(),
            keys@.to_set() == active@.dom(),
            forall|m: int|
                0 <= m < doomed.len() ==> key_evicted(
                    active@,
                    #[trigger] doomed@[m],
                    home,
                    reach as int,
                    now,
                    grace_period,
                ),
            forall|j: int|
                0 <= j < i && key_evicted(
                    active@,
                    #[trigger] keys@[j],
                    home,
                    reach as int,
                    now,
                    grace_period,
                ) ==> doomed@.contains(keys@[j]),
        decreases keys.len() - i,
    {
        let k: u64 = keys[i];
        let coord = ChunkCoord::from_key(k);
        let ghost prev = doomed@;
        match active.get(&k) {
            Some(chunk) => {
                if coord.beyond(home, reach) && chunk.droppable(now, grace_period) {
                    doomed.push(k);
                    proof {
                        assert(doomed@[prev.len() as int] == k);
                        assert forall|j: int|
                            0 <= j < i && key_evicted(
                                active@,
                                #[trigger] keys@[j],
                                home,
                                reach as int,
                                now,
                                grace_period,
                            ) implies doomed@.contains(keys@[j]) by {
                            assert(prev.contains(keys@[j]));
                            let m = choose|m: int| 0 <= m < prev.len() && prev[m] == keys@[j];
                            assert(doomed@[m] == keys@[j]);
                        }
                    }
                }
            },
            None => {},
        }
        i = i + 1;
    }
    proof {
        assert forall|k: u64|
            doomed@.contains(k) <==> #[trigger] key_evicted(
                active@,
                k,
                home,
                reach as int,
                now,
                grace_period,
            ) by {
            if doomed@.contains(k) {
                let m = choose|m: int| 0 <= m < doomed@.len() && doomed@[m] == k;
                assert(key_evicted(active@, doomed@[m], home, reach as int, now, grace_period));
            }
            if key_evicted(active@, k, home, reach as int, now, grace_period) {
                assert(keys@.to_set().contains(k));
                assert(keys@.contains(k));
                let j = choose|j: int| 0 <= j < keys@.len() && keys@[j] == k;
                assert(key_evicted(active@, keys@[j], home, reach as int, now, grace_period));
            }
        }
    }
    doomed
}

/// Unloads the chunks whose numbers are listed.
fn drop_all(active: &mut HashMap<u64, FogChunk>, doomed: &Vec<u64>)
    ensures
        forall|k: u64| #[trigger]
            final(active)@.contains_key(k) <==> old(active)@.contains_key(k) && !doomed@.contains(
                k,
            ),
        forall|k: u64| #[trigger]
            final(active)@.contains_key(k) ==> final(active)@[k] == old(active)@[k],
{
    let ghost before = active@;
    let mut i: usize = 0;
    while i < doomed.len()
        invariant
            i <= doomed.len(),
            forall|k: u64| #[trigger]
                active@.contains_key(k) <==> before.contains_key(k) && !among_first(
                    doomed@,
                    i as int,
                    k,
                ),
            forall|k: u64| #[trigger] active@.contains_key(k) ==> active@[k] == before[k],
        decreases doomed.len() - i,
    {
        let k: u64 = doomed[i];
        let ghost prev = active@;
        active.remove(&k);
        proof {
            assert(active@ == prev.remove(k));
            assert forall|q: u64| #[trigger]
                active@.contains_key(q) <==> before.contains_key(q) && !among_first(
                    doomed@,
                    i + 1,
                    q,
                ) by {
                assert(prev.contains_key(q) <==> before.contains_key(q) && !among_first(
                    doomed@,
                    i as int,
                    q,
                ));
                lemma_among_next(doomed@, i as int, q);
            }
        }
        i = i + 1;
    }
    proof {
        assert forall|k: u64| among_first(doomed@, doomed.len() as int, k) <==> doomed@.contains(
            k,
        ) by {
            lemma_among_all(doomed@, k);
        }
    }
}

/// One lifecycle pass at time `now`. Without a camera nothing changes. With
/// one, every loaded chunk that lies beyond the load range around the
/// camera's chunk is unloaded if it is unexplored, or explored and out of
/// sight for more than the grace period. A visible chunk is never unloaded,
/// and the visible and explored sets stay as they are.
pub fn manage_chunks(
    manager: &mut FogChunkManager,
    camera: Option<WorldPos>,
    config: &FogOfWarConfig,
    now: u64,
)
    ensures
        final(manager)@ == old(manager)@.after_eviction(camera, *config, now),
        camera is None ==> final(manager)@ == old(manager)@,
        final(manager)@.visible == old(manager)@.visible,
        final(manager)@.explored == old(manager)@.explored,
        old(manager)@.settled() ==> final(manager)@.settled(),
{
    proof {
        if old(manager)@.settled() {
            law_eviction_keeps_settled(old(manager)@, camera, *config, now);
        }
    }
    let pos = match camera {
        Some(pos) => pos,
        None => {
            return ;
        },
    };
    let home = world_to_chunk(pos, config.chunk_size());
    let reach: u64 = config.view_range() as u64 + 2;
    let grace_period: u64 = config.grace_period();
    let ghost before = manager@;
    let ghost loaded = manager.active@;
    let doomed = find_doomed(&manager.active, home, reach, now, grace_period);
    drop_all(&mut manager.active, &doomed);
    proof {
        ChunkCoord::lemma_key_bijective();
        let after = before.after_eviction(camera, *config, now);
        assert forall|c: ChunkCoord|
            manager@.active.contains_key(c) <==> #[trigger] after.active.contains_key(c) by {
            let k = c.spec_key();
            assert(manager.active@.contains_key(k) <==> loaded.contains_key(k)
                && !doomed@.contains(k));
            assert(doomed@.contains(k) <==> key_evicted(
                loaded,
                k,
                home,
                reach as int,
                now,
                grace_period,
            ));
            assert(ChunkCoord::spec_from_key(k) == c);
        }
        assert forall|c: ChunkCoord| #[trigger] after.active.contains_key(c) implies manager@.active[c]
            == after.active[c] by {
            let k = c.spec_key();
            assert(manager@.active.contains_key(c));
            assert(manager.active@.contains_key(k));
        }
        assert(manager@.active =~= after.active);
        assert(manager@.visible =~= after.visible);
        assert(manager@.explored =~= after.explored);
    }
}

} // verus!
