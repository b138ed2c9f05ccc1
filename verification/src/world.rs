use crate::chunk::{fresh_chunk, Chunk};
use crate::config::{StreamingConfig, WorldConfig};
use crate::coords::{chunk_distance_sq, distance_fits_i32, BlockCoord, ChunkCoord, CHUNK_SIZE_X, CHUNK_SIZE_Z};
use crate::order::{insert_ranked, nearer_first, ranked_before, ranked_from, strictly_ranked, RankedChunk};
use crate::manager::lists_entries_of;
use crate::fxmap::{map_contains_key, map_entries, map_get, map_get_mut, map_insert, map_new};
use crate::generator::{terrain_block, terrain_defined_at, TerrainGenerator};
use crate::budget::FrameBudget;
use crate::manager::{ChunkManager, ManagerView};
use crate::metrics::WorldCounters;
use crate::state::ChunkState;
use crate::region::RegionStore;
use crate::visibility::{is_nearest_visible, nearest_visible_coords, view_disc_fits_i32};
use crate::voxel::{BlockId, Voxel, AIR};
use rustc_hash::FxHashMap;
use vstd::prelude::*;

verus! {

/// std's I/O error, carried through unchanged.
#[verifier::external_type_specification]
#[verifier::external_body]
pub struct ExIoError(std::io::Error);

/// The chunk column that holds `b`.
pub open spec fn chunk_of(b: BlockCoord) -> ChunkCoord {
    ChunkCoord { x: (b.x as int / CHUNK_SIZE_X as int) as i32, z: (b.z as int / CHUNK_SIZE_Z as int) as i32 }
}

/// The chunk at offset `(dx, dz)` from `c`.
pub open spec fn chunk_offset(c: ChunkCoord, dx: int, dz: int) -> ChunkCoord {
    ChunkCoord { x: (c.x + dx) as i32, z: (c.z + dz) as i32 }
}

/// `seq![c]` when `present` holds, otherwise the empty sequence.
pub open spec fn chunk_if(present: bool, c: ChunkCoord) -> Seq<ChunkCoord> {
    if present {
        seq![c]
    } else {
        Seq::empty()
    }
}

/// `m` after each chunk of `cs`, in order, is set to state `s`.
pub open spec fn states_set_to(m: Map<(i32, i32), ChunkState>, cs: Seq<ChunkCoord>, s: ChunkState) -> Map<(i32, i32), ChunkState>
    decreases cs.len(),
{
    if cs.len() == 0 {
        m
    } else {
        states_set_to(m, cs.drop_last(), s).insert(cs.last().key(), s)
    }
}

/// `m` after a freshly generated chunk is stored for each chunk of `cs`, in order.
pub open spec fn chunks_generated(m: Map<(i32, i32), Chunk>, cs: Seq<ChunkCoord>) -> Map<(i32, i32), Chunk>
    decreases cs.len(),
{
    if cs.len() == 0 {
        m
    } else {
        chunks_generated(m, cs.drop_last()).insert(cs.last().key(), fresh_chunk(cs.last()))
    }
}

/// Holds of the keys of chunks that rank before chunk `c` by distance to `center`.
pub open spec fn ranks_before_chunk(center: ChunkCoord, c: ChunkCoord) -> spec_fn((i32, i32)) -> bool {
    |k: (i32, i32)| nearer_first(center, ChunkCoord::from_key(k), c)
}

/// The number of chunks of `keys` that rank before chunk `c` by distance to `center`.
pub open spec fn distance_rank(center: ChunkCoord, keys: Set<(i32, i32)>, c: ChunkCoord) -> nat {
    keys.filter(ranks_before_chunk(center, c)).len()
}

/// The chunk under `k` ranked by its distance to `center`.
pub open spec fn ranked_entry(center: ChunkCoord, k: (i32, i32)) -> RankedChunk {
    (chunk_distance_sq(center, ChunkCoord::from_key(k)) as i32, ChunkCoord::from_key(k))
}

/// Whether the chunk at position `j` of the ranked list `r` is evicted: it lies beyond
/// `keep_sq`, or `max_active` chunks rank before it.
pub open spec fn evicts_at(r: Seq<RankedChunk>, j: int, keep_sq: int, max_active: int) -> bool {
    r[j].0 > keep_sq || j >= max_active
}

/// Two positions of a strictly ranked list never hold the same chunk.
proof fn lemma_ranked_keys_distinct(center: ChunkCoord, r: Seq<RankedChunk>, i: int, j: int)
    requires
        strictly_ranked(r),
        ranked_from(center, r),
        0 <= i < r.len(),
        0 <= j < r.len(),
        r[i].1.key() == r[j].1.key(),
    ensures
        i == j,
{
    assert(r[i].1 == r[j].1);
    assert(r[i] == r[j]);
    if i < j {
        assert(ranked_before(r[i], r[j]));
    } else if j < i {
        assert(ranked_before(r[j], r[i]));
    }
}

/// In a strictly ranked list of all the chunks of `keys`, a chunk's position is its
/// distance rank.
proof fn lemma_rank_is_index(center: ChunkCoord, r: Seq<RankedChunk>, keys: Set<(i32, i32)>, j: int)
    requires
        strictly_ranked(r),
        ranked_from(center, r),
        forall|k: (i32, i32)| keys.contains(k) <==> exists|i: int| 0 <= i < r.len() && (#[trigger] r[i]).1.key() == k,
        0 <= j < r.len(),
    ensures
        distance_rank(center, keys, r[j].1) == j,
{
    let pre = r.take(j).map_values(|x: RankedChunk| x.1.key());
    assert(keys.filter(ranks_before_chunk(center, r[j].1)) =~= pre.to_set()) by {
        assert forall|k: (i32, i32)| keys.filter(ranks_before_chunk(center, r[j].1)).contains(k) implies pre.to_set().contains(k) by {
            let i = choose|i: int| 0 <= i < r.len() && (#[trigger] r[i]).1.key() == k;
            assert(ChunkCoord::from_key(k) == r[i].1);
            assert(r[i].0 == chunk_distance_sq(center, r[i].1));
            assert(r[j].0 == chunk_distance_sq(center, r[j].1));
            assert(ranked_before(r[i], r[j]));
            if i >= j {
                if i > j {
                    assert(ranked_before(r[j], r[i]));
                }
                assert(false);
            }
            assert(pre[i] == k);
        }
        assert forall|k: (i32, i32)| pre.to_set().contains(k) implies keys.filter(ranks_before_chunk(center, r[j].1)).contains(k) by {
            let i = choose|i: int| 0 <= i < pre.len() && pre[i] == k;
            assert(r[i].1.key() == k);
            assert(keys.contains(k));
            assert(ChunkCoord::from_key(k) == r[i].1);
            assert(ranked_before(r[i], r[j]));
            assert(r[i].0 == chunk_distance_sq(center, r[i].1));
            assert(r[j].0 == chunk_distance_sq(center, r[j].1));
        }
    }
    assert(pre.no_duplicates()) by {
        assert forall|a: int, b: int| 0 <= a < pre.len() && 0 <= b < pre.len() && a != b implies pre[a] != pre[b] by {
            if pre[a] == pre[b] {
                lemma_ranked_keys_distinct(center, r, a, b);
            }
        }
    }
    pre.unique_seq_to_set();
}

/// The abstract state of a `World`.
pub struct WorldView {
    pub config: WorldConfig,
    pub streaming: StreamingConfig,
    pub generator: TerrainGenerator,
    pub store_root: Seq<char>,
    pub manager: ManagerView,
    /// The loaded chunks, by chunk key.
    pub loaded: Map<(i32, i32), Chunk>,
    /// The blocks edited by the player, by block key.
    pub modified: Map<(i32, i32, i32), BlockId>,
}

impl WorldView {
    /// How many chunks one call of `pump_generation` generates: as many as are queued,
    /// up to the per-frame generation limit.
    pub open spec fn generation_jobs(self) -> int {
        let queued = self.manager.requested.len() as int;
        let limit = self.streaming.max_generation_jobs_per_frame as int;
        if queued < limit {
            queued
        } else {
            limit
        }
    }

    /// Whether the loaded chunk under `k` stays loaded when chunks far from `center` are
    /// evicted: it lies within the keep radius and fewer than `max_active_chunks` loaded
    /// chunks rank before it.
    pub open spec fn kept_near(self, center: ChunkCoord, k: (i32, i32)) -> bool {
        let c = ChunkCoord::from_key(k);
        &&& self.loaded.contains_key(k)
        &&& chunk_distance_sq(center, c) <= self.streaming.keep_radius * self.streaming.keep_radius
        &&& distance_rank(center, self.loaded.dom(), c) < self.streaming.max_active_chunks
    }

    /// Whether the loaded chunk under `k` is unloaded when chunks far from `center` are evicted.
    pub open spec fn evicted_far(self, center: ChunkCoord, k: (i32, i32)) -> bool {
        self.loaded.contains_key(k) && !self.kept_near(center, k)
    }

    /// Whether the distances that eviction around `center` computes fit in `i32`.
    pub open spec fn eviction_fits_i32(self, center: ChunkCoord) -> bool {
        &&& self.streaming.keep_radius * self.streaming.keep_radius <= i32::MAX
        &&& forall|k: (i32, i32)| #[trigger] self.loaded.contains_key(k) ==> distance_fits_i32(center, ChunkCoord::from_key(k))
    }

    /// Whether chunk `c` is loaded.
    pub open spec fn is_loaded(self, c: ChunkCoord) -> bool {
        self.loaded.contains_key(c.key())
    }

    /// The block at `b`: air outside the vertical range, the edited block where the
    /// player changed one, and the generated terrain otherwise.
    pub open spec fn block_id_at(self, b: BlockCoord) -> BlockId {
        if !(0 <= b.y < self.config.vertical_height) {
            AIR
        } else if self.modified.contains_key(b.key()) {
            self.modified[b.key()]
        } else {
            terrain_block(self.generator.sea_level as int, b.y as int)
        }
    }

    /// Whether the block at `b` can be sampled without `i32` overflow in the generator.
    pub open spec fn can_sample(self, b: BlockCoord) -> bool {
        ||| !(0 <= b.y < self.config.vertical_height)
        ||| self.modified.contains_key(b.key())
        ||| terrain_defined_at(self.generator.sea_level, b.y)
    }

    /// Everything but the streaming state and the loaded chunks is as in `other`.
    pub open spec fn same_settings(self, other: WorldView) -> bool {
        &&& self.config == other.config
        &&& self.streaming == other.streaming
        &&& self.generator == other.generator
        &&& self.store_root == other.store_root
        &&& self.modified == other.modified
    }

    /// The chunks whose mesh must be rebuilt when the block at `b` changes: its own
    /// chunk, and each loaded neighbouring chunk whose border `b` lies on.
    pub open spec fn chunks_to_remesh(self, b: BlockCoord) -> Seq<ChunkCoord> {
        let c = chunk_of(b);
        let lx = b.x - c.x * CHUNK_SIZE_X;
        let lz = b.z - c.z * CHUNK_SIZE_Z;
        let west = chunk_offset(c, -1, 0);
        let east = chunk_offset(c, 1, 0);
        let north = chunk_offset(c, 0, -1);
        let south = chunk_offset(c, 0, 1);
        seq![c] + chunk_if(lx == 0 && self.is_loaded(west), west) + chunk_if(
            lx == CHUNK_SIZE_X - 1 && self.is_loaded(east),
            east,
        ) + chunk_if(lz == 0 && self.is_loaded(north), north) + chunk_if(
            lz == CHUNK_SIZE_Z - 1 && self.is_loaded(south),
            south,
        )
    }
}

/// The streamed voxel world: configuration, terrain generator, chunk store,
/// streaming state, the loaded chunks and the blocks edited by the player.
#[derive(Debug)]
pub struct World {
    pub config: WorldConfig,
    pub streaming: StreamingConfig,
    pub generator: TerrainGenerator,
    pub store: RegionStore,
    pub manager: ChunkManager,
    loaded_chunks: FxHashMap<(i32, i32), Chunk>,
    pub modified_blocks: FxHashMap<(i32, i32, i32), BlockId>,
}

impl View for World {
    type V = WorldView;

    closed spec fn view(&self) -> WorldView {
        WorldView {
            config: self.config,
            streaming: self.streaming,
            generator: self.generator,
            store_root: self.store.root_path(),
            manager: self.manager@,
            loaded: self.loaded_chunks@,
            modified: self.modified_blocks@,
        }
    }
}

impl World {
    /// An empty world with the given settings, storing chunks under `save_root`.
    pub fn new(config: WorldConfig, streaming: StreamingConfig, seed: u64, save_root: String) -> (w: Self)
        ensures
            w@.config == config,
            w@.streaming == streaming,
            w@.generator.sea_level == config.sea_level,
            w@.store_root == save_root@,
            w@.manager.states.is_empty(),
            w@.manager.requested.len() == 0,
            w@.manager.pending_mesh.len() == 0,
            w@.loaded.is_empty(),
            w@.modified.is_empty(),
    {
        Self {
            generator: TerrainGenerator::new(seed, config.sea_level),
            store: RegionStore::new(save_root),
            manager: ChunkManager::new(),
            loaded_chunks: map_new(),
            modified_blocks: map_new(),
            config,
            streaming,
        }
    }

    /// Requests, in order, the chunks that `nearest_visible_coords` lists around `center`
    /// for the load radius and the active chunk limit.
    pub fn request_visible_chunks(&mut self, center: ChunkCoord)
        requires
            view_disc_fits_i32(center, old(self)@.streaming.load_radius),
        ensures
            exists|list: Seq<ChunkCoord>|
                #![trigger old(self)@.manager.request_all(list)]
                is_nearest_visible(
                    center,
                    old(self)@.streaming.load_radius,
                    old(self)@.streaming.max_active_chunks,
                    list,
                ) && final(self)@.manager == old(self)@.manager.request_all(list),
            final(self)@.same_settings(old(self)@),
            final(self)@.loaded == old(self)@.loaded,
    {
        let coords = nearest_visible_coords(center, self.streaming.load_radius, self.streaming.max_active_chunks);
        let mut i: usize = 0;
        while i < coords.len()
            invariant
                i <= coords@.len(),
                self@.manager == old(self)@.manager.request_all(coords@.take(i as int)),
                self@.same_settings(old(self)@),
                self@.loaded == old(self)@.loaded,
            decreases coords@.len() - i,
        {
            assert(coords@.take(i + 1).drop_last() =~= coords@.take(i as int));
            self.manager.request(coords[i]);
            i = i + 1;
        }
        assert(coords@.take(coords@.len() as int) =~= coords@);
    }

    /// Generates the chunks at the front of the generation queue, as many as the
    /// per-frame limit allows: each is loaded as a fresh chunk and queued for meshing.
    /// Returns the counters of the streaming states afterwards.
    pub fn pump_generation(&mut self) -> (counters: WorldCounters)
        ensures
            ({
                let n = old(self)@.generation_jobs();
                let taken = old(self)@.manager.requested.take(n);
                &&& final(self)@.manager.states == states_set_to(old(self)@.manager.states, taken, ChunkState::Meshing)
                &&& final(self)@.manager.requested == old(self)@.manager.requested.skip(n)
                &&& final(self)@.manager.pending_mesh == old(self)@.manager.pending_mesh + taken
                &&& final(self)@.loaded == chunks_generated(old(self)@.loaded, taken)
            }),
            final(self)@.same_settings(old(self)@),
            counters == final(self)@.manager.counters(),
    {
        let mut budget = FrameBudget::new(self.streaming.max_generation_jobs_per_frame);
        let ghost start = self@;
        let ghost mut k: int = 0;
        loop
            invariant_except_break
                0 <= k <= start.manager.requested.len(),
                budget@ + k == start.streaming.max_generation_jobs_per_frame,
            invariant
                0 <= k <= start.manager.requested.len(),
                k <= start.streaming.max_generation_jobs_per_frame,
                self@.streaming == start.streaming,
                self@.same_settings(start),
                self@.manager.states == states_set_to(
                    start.manager.states,
                    start.manager.requested.take(k),
                    ChunkState::Meshing,
                ),
                self@.manager.requested == start.manager.requested.skip(k),
                self@.manager.pending_mesh == start.manager.pending_mesh + start.manager.requested.take(k),
                self@.loaded == chunks_generated(start.loaded, start.manager.requested.take(k)),
            ensures
                k == start.generation_jobs(),
            decreases start.manager.requested.len() - k,
        {
            if !budget.try_take(1) {
                break;
            }
            let coord = match self.manager.pop_requested() {
                Some(c) => c,
                None => {
                    break;
                },
            };
            let ghost taken = start.manager.requested.take(k);
            assert(coord == start.manager.requested[k]);
            assert(start.manager.requested.take(k + 1) == taken.push(coord)) by {
                assert(start.manager.requested.take(k + 1) =~= taken.push(coord));
            }
            assert(start.manager.requested.take(k + 1).drop_last() =~= taken);
            self.manager.mark_generating(coord);
            let chunk = self.generator.generate_chunk(coord);
            map_insert(&mut self.loaded_chunks, (coord.x, coord.z), chunk);
            self.manager.mark_meshing(coord);
            proof {
                assert(self@.manager.requested =~= start.manager.requested.skip(k + 1));
                assert(self@.manager.pending_mesh =~= start.manager.pending_mesh + start.manager.requested.take(k + 1));
                k = k + 1;
            }
        }
        self.manager.counters()
    }

    /// Unloads every loaded chunk that lies beyond the keep radius of `center` or that is
    /// not among the `max_active_chunks` loaded chunks nearest to it, and marks the
    /// unloaded chunks as evicting.
    pub fn evict_far_chunks(&mut self, center: ChunkCoord)
        requires
            old(self)@.eviction_fits_i32(center),
        ensures
            forall|k: (i32, i32)| #[trigger] final(self)@.loaded.contains_key(k) == old(self)@.kept_near(center, k),
            forall|k: (i32, i32)| #[trigger] final(self)@.loaded.contains_key(k) ==> final(self)@.loaded[k] == old(self)@.loaded[k],
            final(self)@.manager.states == old(self)@.manager.states.union_prefer_right(
                Map::new(|k: (i32, i32)| old(self)@.evicted_far(center, k), |k: (i32, i32)| ChunkState::Evicting),
            ),
            final(self)@.manager.requested == old(self)@.manager.requested,
            final(self)@.manager.pending_mesh == old(self)@.manager.pending_mesh,
            final(self)@.same_settings(old(self)@),
            final(self)@.loaded.len() <= old(self)@.streaming.max_active_chunks,
    {
        proof {
            assert(0 <= self.streaming.keep_radius * self.streaming.keep_radius) by (nonlinear_arith);
        }
        let keep_distance_sq = self.streaming.keep_radius * self.streaming.keep_radius;
        let entries = map_entries(&self.loaded_chunks);
        let ghost start = self@;
        assert(lists_entries_of(entries@, start.loaded)) by {
            assert forall|j: int| 0 <= j < entries@.len() implies #[trigger] start.loaded.contains_key(entries@[j].0)
                && start.loaded[entries@[j].0] == entries@[j].1 by {
                assert(self.loaded_chunks@.contains_key(entries@[j].0));
            }
        }
        let mut ranked: Vec<RankedChunk> = Vec::new();
        let mut i: usize = 0;
        while i < entries.len()
            invariant
                i <= entries@.len(),
                self@ == start,
                start.eviction_fits_i32(center),
                lists_entries_of(entries@, start.loaded),
                strictly_ranked(ranked@),
                ranked_from(center, ranked@),
                forall|x: RankedChunk| #[trigger] ranked@.contains(x) <==> exists|j: int|
                    0 <= j < i && x == ranked_entry(center, #[trigger] entries@[j].0),
            decreases entries@.len() - i,
        {
            let key = entries[i].0;
            let coord = ChunkCoord::new(key.0, key.1);
            assert(start.loaded.contains_key(entries@[i as int].0));
            let d = center.distance_squared(coord);
            let ghost before = ranked@;
            assert(!ranked@.contains((d, coord))) by {
                if ranked@.contains((d, coord)) {
                    let j = choose|j: int| 0 <= j < i && (d, coord) == ranked_entry(center, #[trigger] entries@[j].0);
                    assert(entries@[j].0 == entries@[i as int].0);
                }
            }
            insert_ranked(&mut ranked, (d, coord));
            proof {
                assert((d, coord) == ranked_entry(center, entries@[i as int].0));
                assert forall|x: RankedChunk| #[trigger] ranked@.contains(x) <==> exists|j: int|
                    0 <= j < i + 1 && x == ranked_entry(center, #[trigger] entries@[j].0) by {
                    assert(ranked@.to_set().contains(x) == ranked@.contains(x));
                    assert(before.to_set().contains(x) == before.contains(x));
                    if ranked@.contains(x) && x != (d, coord) {
                        assert(before.contains(x));
                    }
                }
                assert forall|j: int| 0 <= j < ranked@.len() implies (#[trigger] ranked@[j]).0 == chunk_distance_sq(center, ranked@[j].1) by {
                    assert(ranked@.to_set().contains(ranked@[j]));
                    if ranked@[j] != (d, coord) {
                        assert(before.to_set().contains(ranked@[j]));
                        let m = choose|m: int| 0 <= m < before.len() && before[m] == ranked@[j];
                        assert(ranked_from(center, before));
                        assert(before[m].0 == chunk_distance_sq(center, before[m].1));
                    }
                }
            }
            i = i + 1;
        }
        proof {
            assert forall|k: (i32, i32)| start.loaded.contains_key(k) <==> exists|j: int|
                0 <= j < ranked@.len() && (#[trigger] ranked@[j]).1.key() == k by {
                if start.loaded.contains_key(k) {
                    let e = choose|e: int| 0 <= e < entries@.len() && entries@[e].0 == k;
                    let x = ranked_entry(center, k);
                    assert(x == ranked_entry(center, entries@[e].0));
                    assert(ranked@.contains(x));
                    let j = choose|j: int| 0 <= j < ranked@.len() && ranked@[j] == x;
                    assert(ranked@[j].1.key() == k);
                }
                if exists|j: int| 0 <= j < ranked@.len() && (#[trigger] ranked@[j]).1.key() == k {
                    let j = choose|j: int| 0 <= j < ranked@.len() && (#[trigger] ranked@[j]).1.key() == k;
                    assert(ranked@.contains(ranked@[j]));
                    let e = choose|e: int| 0 <= e < entries@.len() && ranked@[j] == ranked_entry(center, #[trigger] entries@[e].0);
                    assert(start.loaded.contains_key(entries@[e].0));
                }
            }
        }
        let max_active = self.streaming.max_active_chunks;
        let ghost mut evicted: Set<(i32, i32)> = Set::empty();
        let mut idx: usize = 0;
        while idx < ranked.len()
            invariant
                idx <= ranked@.len(),
                keep_distance_sq == start.streaming.keep_radius * start.streaming.keep_radius,
                max_active == start.streaming.max_active_chunks,
                self@.same_settings(start),
                self@.streaming == start.streaming,
                self@.manager.requested == start.manager.requested,
                self@.manager.pending_mesh == start.manager.pending_mesh,
                self@.loaded == start.loaded.remove_keys(evicted),
                self@.manager.states == start.manager.states.union_prefer_right(
                    Map::new(|k: (i32, i32)| evicted.contains(k), |k: (i32, i32)| ChunkState::Evicting),
                ),
                forall|k: (i32, i32)| evicted.contains(k) <==> exists|j: int|
                    0 <= j < idx && (#[trigger] ranked@[j]).1.key() == k && evicts_at(ranked@, j, keep_distance_sq as int, max_active as int),
            decreases ranked@.len() - idx,
        {
            let (d, coord) = ranked[idx];
            let ghost prev = evicted;
            if d > keep_distance_sq || idx >= max_active {
                self.manager.mark_evicting(coord);
                crate::fxmap::map_remove(&mut self.loaded_chunks, (coord.x, coord.z));
                proof {
                    evicted = evicted.insert(coord.key());
                }
            }
            proof {
                assert forall|k: (i32, i32)| evicted.contains(k) <==> exists|j: int|
                    0 <= j < idx + 1 && (#[trigger] ranked@[j]).1.key() == k && evicts_at(ranked@, j, keep_distance_sq as int, max_active as int) by {
                    if exists|j: int| 0 <= j < idx + 1 && (#[trigger] ranked@[j]).1.key() == k && evicts_at(ranked@, j, keep_distance_sq as int, max_active as int) {
                        let j = choose|j: int| 0 <= j < idx + 1 && (#[trigger] ranked@[j]).1.key() == k && evicts_at(ranked@, j, keep_distance_sq as int, max_active as int);
                        if j < idx {
                            assert(prev.contains(k));
                        }
                    }
                }
                assert(self@.loaded =~= start.loaded.remove_keys(evicted));
                assert(self@.manager.states =~= start.manager.states.union_prefer_right(
                    Map::new(|k: (i32, i32)| evicted.contains(k), |k: (i32, i32)| ChunkState::Evicting),
                ));
            }
            idx = idx + 1;
        }
        proof {
            let keep_sq = keep_distance_sq as int;
            let max = max_active as int;
            assert forall|j: int| 0 <= j < ranked@.len() implies distance_rank(center, start.loaded.dom(), (#[trigger] ranked@[j]).1) == j by {
                lemma_rank_is_index(center, ranked@, start.loaded.dom(), j);
            }
            assert forall|k: (i32, i32)| evicted.contains(k) == start.evicted_far(center, k) by {
                if start.loaded.contains_key(k) {
                    let j = choose|j: int| 0 <= j < ranked@.len() && (#[trigger] ranked@[j]).1.key() == k;
                    assert(ChunkCoord::from_key(k) == ranked@[j].1);
                    assert(ranked@[j].0 == chunk_distance_sq(center, ranked@[j].1));
                    if evicted.contains(k) {
                        let j2 = choose|j2: int| 0 <= j2 < ranked@.len() && (#[trigger] ranked@[j2]).1.key() == k && evicts_at(ranked@, j2, keep_sq, max);
                        lemma_ranked_keys_distinct(center, ranked@, j, j2);
                    } else {
                        assert(!evicts_at(ranked@, j, keep_sq, max));
                    }
                } else {
                    if evicted.contains(k) {
                        let j2 = choose|j2: int| 0 <= j2 < ranked@.len() && (#[trigger] ranked@[j2]).1.key() == k && evicts_at(ranked@, j2, keep_sq, max);
                        assert(false);
                    }
                }
            }
            assert(self@.manager.states =~= start.manager.states.union_prefer_right(
                Map::new(|k: (i32, i32)| start.evicted_far(center, k), |k: (i32, i32)| ChunkState::Evicting),
            ));
            assert forall|k: (i32, i32)| #[trigger] self@.loaded.contains_key(k) == start.kept_near(center, k) by {
                assert(start.evicted_far(center, k) == (start.loaded.contains_key(k) && !start.kept_near(center, k)));
            }
            let firsts = ranked@.take(if max < ranked@.len() { max } else { ranked@.len() as int }).map_values(
                |x: RankedChunk| x.1.key(),
            );
            assert(self@.loaded.dom().subset_of(firsts.to_set())) by {
                assert forall|k: (i32, i32)| self@.loaded.dom().contains(k) implies firsts.to_set().contains(k) by {
                    let j = choose|j: int| 0 <= j < ranked@.len() && (#[trigger] ranked@[j]).1.key() == k;
                    assert(!evicted.contains(k));
                    assert(!evicts_at(ranked@, j, keep_sq, max));
                    assert(firsts[j] == k);
                }
            }
            firsts.lemma_cardinality_of_set();
            vstd::set_lib::lemma_len_subset(self@.loaded.dom(), firsts.to_set());
        }
    }

    /// Marks `coord` as resident.
    pub fn mark_chunk_resident(&mut self, coord: ChunkCoord)
        ensures
            final(self)@.manager == old(self)@.manager.mark(coord, ChunkState::Resident),
            final(self)@.same_settings(old(self)@),
            final(self)@.loaded == old(self)@.loaded,
    {
        self.manager.mark_resident(coord);
    }

    /// Sets the block at `coord` to `block_id` and queues the affected chunks for meshing.
    /// Positions outside the vertical range, and blocks that already hold `block_id`, are
    /// left alone.
    pub fn set_block(&mut self, coord: BlockCoord, block_id: BlockId)
        requires
            old(self)@.can_sample(coord),
        ensures
            !(0 <= coord.y < old(self)@.config.vertical_height) || old(self)@.block_id_at(coord) == block_id
                ==> final(self)@ == old(self)@,
            (0 <= coord.y < old(self)@.config.vertical_height) && old(self)@.block_id_at(coord) != block_id ==> {
                &&& final(self)@.modified == old(self)@.modified.insert(coord.key(), block_id)
                &&& final(self)@.manager == old(self)@.manager.mark_meshing_all(old(self)@.chunks_to_remesh(coord))
                &&& final(self)@.config == old(self)@.config
                &&& final(self)@.streaming == old(self)@.streaming
                &&& final(self)@.generator == old(self)@.generator
                &&& final(self)@.store_root == old(self)@.store_root
                &&& final(self)@.loaded == old(self)@.loaded
            },
            (0 <= coord.y < old(self)@.config.vertical_height) && old(self)@.block_id_at(coord) != block_id ==> {
                &&& forall|d: ChunkCoord| #[trigger] final(self)@.manager.state_of(d) == (if remeshed_by_edit(
                    old(self)@,
                    coord,
                    d,
                ) {
                    Some(ChunkState::Meshing)
                } else {
                    old(self)@.manager.state_of(d)
                })
                &&& forall|d: ChunkCoord|
                    remeshed_by_edit(old(self)@, coord, d) ==> #[trigger] final(self)@.manager.pending_mesh.contains(d)
                &&& final(self)@.manager.pending_mesh.take(old(self)@.manager.pending_mesh.len() as int)
                    == old(self)@.manager.pending_mesh
                &&& forall|i: int|
                    old(self)@.manager.pending_mesh.len() <= i < final(self)@.manager.pending_mesh.len() ==> remeshed_by_edit(
                        old(self)@,
                        coord,
                        #[trigger] final(self)@.manager.pending_mesh[i],
                    )
                &&& final(self)@.manager.requested == old(self)@.manager.requested
            },
            0 <= coord.y < old(self)@.config.vertical_height ==> final(self)@.block_id_at(coord) == block_id,
            forall|b: BlockCoord| b != coord ==> #[trigger] final(self)@.block_id_at(b) == old(self)@.block_id_at(b),
    {
        if !(0 <= coord.y && coord.y < self.config.vertical_height) {
            return;
        }
        if self.sample_block(coord).id == block_id {
            return;
        }
        let ghost before = self@;
        map_insert(&mut self.modified_blocks, (coord.x, coord.y, coord.z), block_id);
        let chunk_coord = ChunkCoord::from_block(coord);
        self.manager.mark_meshing(chunk_coord);
        let origin = chunk_coord.world_origin();
        let lx = coord.x - origin.x;
        let lz = coord.z - origin.z;
        let ghost c = chunk_of(coord);
        let ghost west = chunk_offset(c, -1, 0);
        let ghost east = chunk_offset(c, 1, 0);
        let ghost north = chunk_offset(c, 0, -1);
        let ghost south = chunk_offset(c, 0, 1);
        let ghost s0 = seq![c];
        let ghost s1 = s0 + chunk_if(lx == 0 && before.is_loaded(west), west);
        let ghost s2 = s1 + chunk_if(lx == CHUNK_SIZE_X - 1 && before.is_loaded(east), east);
        let ghost s3 = s2 + chunk_if(lz == 0 && before.is_loaded(north), north);
        let ghost s4 = s3 + chunk_if(lz == CHUNK_SIZE_Z - 1 && before.is_loaded(south), south);
        assert(chunk_coord == c);
        assert(s0.drop_last() =~= Seq::<ChunkCoord>::empty());
        assert(s0.last() == c);
        assert(before.manager.mark_meshing_all(s0.drop_last()) == before.manager);
        assert(self@.manager == before.manager.mark_meshing_all(s0));
        if lx == 0 {
            self.dirty_chunk(ChunkCoord::new(chunk_coord.x - 1, chunk_coord.z));
        }
        assert(self@.manager == before.manager.mark_meshing_all(s1)) by {
            if lx == 0 && before.is_loaded(west) {
                assert(s1.drop_last() =~= s0);
            } else {
                assert(s1 =~= s0);
            }
        }
        if lx == CHUNK_SIZE_X - 1 {
            self.dirty_chunk(ChunkCoord::new(chunk_coord.x + 1, chunk_coord.z));
        }
        assert(self@.manager == before.manager.mark_meshing_all(s2)) by {
            if lx == CHUNK_SIZE_X - 1 && before.is_loaded(east) {
                assert(s2.drop_last() =~= s1);
            } else {
                assert(s2 =~= s1);
            }
        }
        if lz == 0 {
            self.dirty_chunk(ChunkCoord::new(chunk_coord.x, chunk_coord.z - 1));
        }
        assert(self@.manager == before.manager.mark_meshing_all(s3)) by {
            if lz == 0 && before.is_loaded(north) {
                assert(s3.drop_last() =~= s2);
            } else {
                assert(s3 =~= s2);
            }
        }
        if lz == CHUNK_SIZE_Z - 1 {
            self.dirty_chunk(ChunkCoord::new(chunk_coord.x, chunk_coord.z + 1));
        }
        assert(self@.manager == before.manager.mark_meshing_all(s4)) by {
            if lz == CHUNK_SIZE_Z - 1 && before.is_loaded(south) {
                assert(s4.drop_last() =~= s3);
            } else {
                assert(s4 =~= s3);
            }
        }
        assert(s4 == before.chunks_to_remesh(coord));
        proof {
            an_edit_remeshes_the_chunks_it_touches(before, coord);
            crate::manager::marking_for_meshing_queues_each_chunk(before.manager, s4);
            let old_q = before.manager.pending_mesh;
            let q = self@.manager.pending_mesh;
            assert(q.take(old_q.len() as int) =~= old_q);
            assert forall|d: ChunkCoord| remeshed_by_edit(before, coord, d) implies #[trigger] q.contains(d) by {
                assert(s4.contains(d));
                let k = choose|k: int| 0 <= k < s4.len() && s4[k] == d;
                assert(q[old_q.len() + k] == d);
            }
            assert forall|i: int| old_q.len() <= i < q.len() implies remeshed_by_edit(before, coord, #[trigger] q[i]) by {
                assert(q[i] == s4[i - old_q.len()]);
                assert(s4.contains(q[i]));
            }
        }
        assert forall|b: BlockCoord| b != coord implies #[trigger] self@.block_id_at(b) == before.block_id_at(b) by {
            assert(b.key() != coord.key());
        }
    }

    /// Queues `coord` for meshing if it is loaded.
    fn dirty_chunk(&mut self, coord: ChunkCoord)
        ensures
            final(self)@.manager == if old(self)@.is_loaded(coord) {
                old(self)@.manager.mark_meshing(coord)
            } else {
                old(self)@.manager
            },
            final(self).config == old(self).config,
            final(self).streaming == old(self).streaming,
            final(self).generator == old(self).generator,
            final(self).store == old(self).store,
            final(self)@.modified == old(self)@.modified,
            final(self)@.loaded == old(self)@.loaded,
    {
        if map_contains_key(&self.loaded_chunks, (coord.x, coord.z)) {
            self.manager.mark_meshing(coord);
        }
    }

    /// The voxel at `block`.
    pub fn sample_block(&self, block: BlockCoord) -> (v: Voxel)
        requires
            self@.can_sample(block),
        ensures
            v.id == self@.block_id_at(block),
    {
        if !(0 <= block.y && block.y < self.config.vertical_height) {
            return Voxel::new(AIR);
        }
        if let Some(id) = map_get(&self.modified_blocks, (block.x, block.y, block.z)) {
            return Voxel::new(*id);
        }
        Voxel::new(self.generator.block_at(block))
    }

    /// The loaded chunk at `coord`, if any.
    pub fn loaded_chunk(&self, coord: ChunkCoord) -> (r: Option<&Chunk>)
        ensures
            match r {
                Some(c) => self@.is_loaded(coord) && *c == self@.loaded[coord.key()],
                None => !self@.is_loaded(coord),
            },
    {
        map_get(&self.loaded_chunks, (coord.x, coord.z))
    }

    /// The loaded chunk at `coord`, if any, for modification in place.
    pub fn loaded_chunk_mut(&mut self, coord: ChunkCoord) -> (r: Option<&mut Chunk>)
        ensures
            final(self)@.same_settings(old(self)@),
            final(self)@.manager == old(self)@.manager,
            match r {
                Some(c) => {
                    &&& old(self)@.is_loaded(coord)
                    &&& *c == old(self)@.loaded[coord.key()]
                    &&& final(self)@.loaded == old(self)@.loaded.insert(coord.key(), *final(c))
                },
                None => !old(self)@.is_loaded(coord) && final(self)@.loaded == old(self)@.loaded,
            },
    {
        map_get_mut(&mut self.loaded_chunks, (coord.x, coord.z))
    }

    /// Every loaded chunk with its position, each once, in no particular order.
    pub fn loaded_chunks_iter(&self) -> (r: Vec<(ChunkCoord, Chunk)>)
        ensures
            forall|i: int|
                0 <= i < r@.len() ==> self@.loaded.contains_key((#[trigger] r@[i]).0.key()) && self@.loaded[r@[i].0.key()]
                    == r@[i].1,
            forall|k: (i32, i32)| #[trigger] self@.loaded.contains_key(k) ==> exists|i: int| 0 <= i < r@.len() && r@[i].0.key() == k,
            forall|i: int, j: int| 0 <= i < r@.len() && 0 <= j < r@.len() && i != j ==> r@[i].0 != r@[j].0,
    {
        let entries = map_entries(&self.loaded_chunks);
        let mut r: Vec<(ChunkCoord, Chunk)> = Vec::new();
        let mut i: usize = 0;
        while i < entries.len()
            invariant
                i <= entries@.len(),
                r@.len() == i,
                forall|j: int| 0 <= j < i ==> (#[trigger] r@[j]).0.key() == entries@[j].0 && r@[j].1 == entries@[j].1,
            decreases entries@.len() - i,
        {
            let (key, chunk) = entries[i];
            r.push((ChunkCoord::new(key.0, key.1), chunk));
            i = i + 1;
        }
        proof {
            assert forall|k: (i32, i32)| #[trigger] self@.loaded.contains_key(k) implies exists|i: int|
                0 <= i < r@.len() && r@[i].0.key() == k by {
                assert(self.loaded_chunks@.contains_key(k));
                let i = choose|i: int| 0 <= i < entries@.len() && entries@[i].0 == k;
                assert(r@[i].0.key() == k);
            }
            assert forall|i: int, j: int| 0 <= i < r@.len() && 0 <= j < r@.len() && i != j implies r@[i].0 != r@[j].0 by {
                assert(r@[i].0.key() == entries@[i].0);
                assert(r@[j].0.key() == entries@[j].0);
            }
        }
        r
    }

    /// Saving edited chunks is not done yet: nothing is written and zero chunks are reported.
    pub fn save_dirty_chunks(&mut self) -> (r: std::io::Result<usize>)
        ensures
            r is Ok && r->Ok_0 == 0,
            final(self)@ == old(self)@,
    {
        Ok(0)
    }
}

/// Streaming never changes a block: states that share their settings and edits (as
/// requesting, generating, evicting and marking chunks all leave them) read the same
/// block everywhere.
pub proof fn streaming_keeps_every_block(a: WorldView, b: WorldView)
    requires
        a.same_settings(b),
    ensures
        forall|blk: BlockCoord| #[trigger] a.block_id_at(blk) == b.block_id_at(blk),
{
}

/// Eviction keeps the nearest chunks: when a loaded chunk stays loaded, so does every
/// loaded chunk that ranks before it by distance to the center.
pub proof fn eviction_keeps_nearer_chunks(w: WorldView, center: ChunkCoord, kept: (i32, i32), nearer: (i32, i32))
    requires
        w.loaded.dom().finite(),
        w.kept_near(center, kept),
        w.loaded.contains_key(nearer),
        nearer_first(center, ChunkCoord::from_key(nearer), ChunkCoord::from_key(kept)),
    ensures
        w.kept_near(center, nearer),
{
    let c_kept = ChunkCoord::from_key(kept);
    let c_near = ChunkCoord::from_key(nearer);
    let before_near = w.loaded.dom().filter(ranks_before_chunk(center, c_near));
    let before_kept = w.loaded.dom().filter(ranks_before_chunk(center, c_kept));
    assert(before_near.insert(nearer).subset_of(before_kept)) by {
        assert forall|k: (i32, i32)| before_near.insert(nearer).contains(k) implies before_kept.contains(k) by {
            if k != nearer {
                assert(nearer_first(center, ChunkCoord::from_key(k), c_near));
            }
        }
    }
    assert(!before_near.contains(nearer));
    vstd::set_lib::lemma_len_subset(before_near.insert(nearer), before_kept);
    w.loaded.dom().lemma_len_filter(ranks_before_chunk(center, c_near));
}

/// Eviction settles at once: after chunks far from `center` were evicted (`after` keeps
/// exactly the chunks of `before` that `kept_near` keeps), evicting around the same center
/// again keeps every chunk still loaded.
pub proof fn evicting_again_keeps_everything(before: WorldView, after: WorldView, center: ChunkCoord)
    requires
        before.loaded.dom().finite(),
        after.streaming == before.streaming,
        forall|k: (i32, i32)| #[trigger] after.loaded.contains_key(k) == before.kept_near(center, k),
    ensures
        forall|k: (i32, i32)| #[trigger] after.loaded.contains_key(k) ==> after.kept_near(center, k),
{
    assert forall|k: (i32, i32)| #[trigger] after.loaded.contains_key(k) implies after.kept_near(center, k) by {
        let c = ChunkCoord::from_key(k);
        let f = ranks_before_chunk(center, c);
        assert(after.loaded.dom().filter(f).subset_of(before.loaded.dom().filter(f))) by {
            assert forall|j: (i32, i32)| after.loaded.dom().filter(f).contains(j) implies before.loaded.dom().filter(f).contains(j) by {
                assert(after.loaded.contains_key(j));
                assert(before.kept_near(center, j));
            }
        }
        before.loaded.dom().lemma_len_filter(f);
        vstd::set_lib::lemma_len_subset(after.loaded.dom().filter(f), before.loaded.dom().filter(f));
    }
}

/// Chunk `d` must be re-meshed when the block at `b` changes: `d` is the chunk column that
/// holds `b`, or a loaded chunk next to it across a border of that column on which `b` lies
/// (the block's local x or z is 0 or the last one, 31).
pub open spec fn remeshed_by_edit(w: WorldView, b: BlockCoord, d: ChunkCoord) -> bool {
    let cx = b.x as int / CHUNK_SIZE_X as int;
    let cz = b.z as int / CHUNK_SIZE_Z as int;
    let lx = b.x - cx * CHUNK_SIZE_X;
    let lz = b.z - cz * CHUNK_SIZE_Z;
    ||| d.x == cx && d.z == cz
    ||| lx == 0 && d.x == cx - 1 && d.z == cz && w.is_loaded(d)
    ||| lx == CHUNK_SIZE_X - 1 && d.x == cx + 1 && d.z == cz && w.is_loaded(d)
    ||| lz == 0 && d.x == cx && d.z == cz - 1 && w.is_loaded(d)
    ||| lz == CHUNK_SIZE_Z - 1 && d.x == cx && d.z == cz + 1 && w.is_loaded(d)
}

/// An edit re-meshes exactly the chunks it touches: the chunks listed for re-meshing when
/// the block at `b` changes are its own chunk and the loaded chunks across each border of
/// that chunk on which `b` lies, each listed once.
pub proof fn an_edit_remeshes_the_chunks_it_touches(w: WorldView, b: BlockCoord)
    ensures
        forall|d: ChunkCoord| #[trigger] w.chunks_to_remesh(b).contains(d) == remeshed_by_edit(w, b, d),
        w.chunks_to_remesh(b).no_duplicates(),
{
    let x = b.x as int;
    let z = b.z as int;
    assert(x == (x / 32) * 32 + x % 32 && 0 <= x % 32 < 32) by (nonlinear_arith);
    assert(z == (z / 32) * 32 + z % 32 && 0 <= z % 32 < 32) by (nonlinear_arith);
    assert(-67108864 <= x / 32 <= 67108863) by (nonlinear_arith)
        requires
            i32::MIN <= x <= i32::MAX,
    ;
    assert(-67108864 <= z / 32 <= 67108863) by (nonlinear_arith)
        requires
            i32::MIN <= z <= i32::MAX,
    ;
    let c = chunk_of(b);
    let lx = b.x - c.x * CHUNK_SIZE_X;
    let lz = b.z - c.z * CHUNK_SIZE_Z;
    let west = chunk_offset(c, -1, 0);
    let east = chunk_offset(c, 1, 0);
    let north = chunk_offset(c, 0, -1);
    let south = chunk_offset(c, 0, 1);
    let s = w.chunks_to_remesh(b);
    let s1 = seq![c] + chunk_if(lx == 0 && w.is_loaded(west), west);
    let s2 = s1 + chunk_if(lx == CHUNK_SIZE_X - 1 && w.is_loaded(east), east);
    let s3 = s2 + chunk_if(lz == 0 && w.is_loaded(north), north);
    assert(s == s3 + chunk_if(lz == CHUNK_SIZE_Z - 1 && w.is_loaded(south), south));
    assert forall|d: ChunkCoord| #[trigger] s.contains(d) == remeshed_by_edit(w, b, d) by {
        if remeshed_by_edit(w, b, d) {
            if d.x == c.x && d.z == c.z {
                assert(s[0] == d);
            } else if lx == 0 && d == west && w.is_loaded(d) {
                assert(s[1] == d);
            } else if lx == CHUNK_SIZE_X - 1 && d == east && w.is_loaded(d) {
                assert(s[s1.len() as int] == d);
            } else if lz == 0 && d == north && w.is_loaded(d) {
                assert(s[s2.len() as int] == d);
            } else {
                assert(s[s3.len() as int] == d);
            }
        }
        if s.contains(d) {
            let k = choose|k: int| 0 <= k < s.len() && s[k] == d;
            if k == 0 {
            } else if k < s1.len() {
                assert(s1[k] == d);
            } else if k < s2.len() {
                assert(s2[k] == d);
            } else if k < s3.len() {
                assert(s3[k] == d);
            } else {
                assert(s[k] == south);
            }
        }
    }
    assert forall|i: int, j: int| 0 <= i < s.len() && 0 <= j < s.len() && i != j implies s[i] != s[j] by {
        if i < s1.len() {
            assert(s[i] == s1[i]);
        }
        if j < s1.len() {
            assert(s[j] == s1[j]);
        }
    }
}

} // verus!
