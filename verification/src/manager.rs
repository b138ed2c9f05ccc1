use crate::coords::ChunkCoord;
use crate::fxmap::{map_entries, map_get, map_insert, map_new};
use crate::metrics::WorldCounters;
use crate::state::ChunkState;
use rustc_hash::FxHashMap;
use std::collections::VecDeque;
use vstd::prelude::*;

verus! {

/// The abstract state of a `ChunkManager`: the streaming state of every tracked
/// chunk, the queue of chunks waiting to be generated and the queue of chunks
/// waiting to be meshed.
pub struct ManagerView {
    pub states: Map<(i32, i32), ChunkState>,
    pub requested: Seq<ChunkCoord>,
    pub pending_mesh: Seq<ChunkCoord>,
}

impl ManagerView {
    /// The state of chunk `c`, if it is tracked.
    pub open spec fn state_of(self, c: ChunkCoord) -> Option<ChunkState> {
        if self.states.contains_key(c.key()) {
            Some(self.states[c.key()])
        } else {
            None
        }
    }

    /// Requesting `c`: a chunk that is not tracked yet becomes `Requested` and joins the
    /// generation queue; a tracked chunk is left as it is.
    pub open spec fn request(self, c: ChunkCoord) -> ManagerView {
        if self.states.contains_key(c.key()) {
            self
        } else {
            ManagerView {
                states: self.states.insert(c.key(), ChunkState::Requested),
                requested: self.requested.push(c),
                pending_mesh: self.pending_mesh,
            }
        }
    }

    /// Requesting every chunk of `cs`, in order.
    pub open spec fn request_all(self, cs: Seq<ChunkCoord>) -> ManagerView
        decreases cs.len(),
    {
        if cs.len() == 0 {
            self
        } else {
            self.request_all(cs.drop_last()).request(cs.last())
        }
    }

    /// Setting the state of `c` to `s`, leaving both queues alone.
    pub open spec fn mark(self, c: ChunkCoord, s: ChunkState) -> ManagerView {
        ManagerView {
            states: self.states.insert(c.key(), s),
            requested: self.requested,
            pending_mesh: self.pending_mesh,
        }
    }

    /// Marking `c` as `Meshing` and appending it to the meshing queue.
    pub open spec fn mark_meshing(self, c: ChunkCoord) -> ManagerView {
        ManagerView {
            states: self.states.insert(c.key(), ChunkState::Meshing),
            requested: self.requested,
            pending_mesh: self.pending_mesh.push(c),
        }
    }

    /// Marking every chunk of `cs` as `Meshing`, in order.
    pub open spec fn mark_meshing_all(self, cs: Seq<ChunkCoord>) -> ManagerView
        decreases cs.len(),
    {
        if cs.len() == 0 {
            self
        } else {
            self.mark_meshing_all(cs.drop_last()).mark_meshing(cs.last())
        }
    }

    /// The number of tracked chunks in state `s`.
    pub open spec fn count(self, s: ChunkState) -> nat {
        self.states.dom().filter(in_state(self.states, s)).len()
    }

    /// The counters that describe this state.
    pub open spec fn counters(self) -> WorldCounters {
        WorldCounters {
            requested: self.count(ChunkState::Requested) as usize,
            generating: self.count(ChunkState::Generating) as usize,
            meshing: self.count(ChunkState::Meshing) as usize,
            resident: self.count(ChunkState::Resident) as usize,
            evicting: self.count(ChunkState::Evicting) as usize,
        }
    }
}

/// Holds of the keys that `states` maps to `s`.
pub open spec fn in_state(states: Map<(i32, i32), ChunkState>, s: ChunkState) -> spec_fn((i32, i32)) -> bool {
    |k: (i32, i32)| states[k] == s
}

/// The number of entries of `e` whose state is `s`.
pub open spec fn count_entries(e: Seq<((i32, i32), ChunkState)>, s: ChunkState) -> nat
    decreases e.len(),
{
    if e.len() == 0 {
        0
    } else {
        count_entries(e.drop_last(), s) + if e.last().1 == s {
            1nat
        } else {
            0nat
        }
    }
}

/// The keys that occur in `e`.
pub open spec fn entry_keys<V>(e: Seq<((i32, i32), V)>) -> Set<(i32, i32)> {
    Set::new(|k: (i32, i32)| exists|i: int| 0 <= i < e.len() && e[i].0 == k)
}

/// `e` lists entries of `m`, each key at most once.
pub open spec fn lists_entries_of<V>(e: Seq<((i32, i32), V)>, m: Map<(i32, i32), V>) -> bool {
    &&& forall|i: int| 0 <= i < e.len() ==> #[trigger] m.contains_key(e[i].0) && m[e[i].0] == e[i].1
    &&& forall|i: int, j: int| 0 <= i < e.len() && 0 <= j < e.len() && i != j ==> e[i].0 != e[j].0
}

/// Counting entries of a listing of `m` counts the keys of `m` in that state.
proof fn lemma_count_entries(e: Seq<((i32, i32), ChunkState)>, m: Map<(i32, i32), ChunkState>, s: ChunkState)
    requires
        lists_entries_of(e, m),
    ensures
        entry_keys(e).finite(),
        count_entries(e, s) == entry_keys(e).filter(in_state(m, s)).len(),
    decreases e.len(),
{
    let f = in_state(m, s);
    if e.len() == 0 {
        assert(entry_keys(e) =~= Set::empty());
        assert(entry_keys(e).filter(f) =~= Set::empty());
    } else {
        let p = e.drop_last();
        assert(lists_entries_of(p, m)) by {
            assert forall|i: int| 0 <= i < p.len() implies #[trigger] m.contains_key(p[i].0) && m[p[i].0] == p[i].1 by {
                assert(p[i] == e[i]);
            }
        }
        lemma_count_entries(p, m, s);
        let last = e.last();
        assert(entry_keys(e) =~= entry_keys(p).insert(last.0)) by {
            assert forall|k: (i32, i32)| entry_keys(e).contains(k) implies entry_keys(p).insert(last.0).contains(k) by {
                let i = choose|i: int| 0 <= i < e.len() && e[i].0 == k;
                if i < e.len() - 1 {
                    assert(p[i] == e[i]);
                }
            }
            assert forall|k: (i32, i32)| entry_keys(p).insert(last.0).contains(k) implies entry_keys(e).contains(k) by {
                if k != last.0 {
                    let i = choose|i: int| 0 <= i < p.len() && p[i].0 == k;
                    assert(e[i] == p[i]);
                } else {
                    assert(e[e.len() - 1].0 == k);
                }
            }
        }
        assert(!entry_keys(p).contains(last.0)) by {
            if entry_keys(p).contains(last.0) {
                let i = choose|i: int| 0 <= i < p.len() && p[i].0 == last.0;
                assert(e[i] == p[i]);
                assert(e[i].0 == e[e.len() - 1].0);
            }
        }
        assert(m.contains_key(e[e.len() - 1].0));
        if last.1 == s {
            assert(entry_keys(e).filter(f) =~= entry_keys(p).filter(f).insert(last.0));
        } else {
            assert(entry_keys(e).filter(f) =~= entry_keys(p).filter(f));
        }
    }
}

/// Counting the entries of a complete listing of the states gives `count`.
proof fn lemma_count_matches(e: Seq<((i32, i32), ChunkState)>, v: ManagerView, s: ChunkState)
    requires
        lists_entries_of(e, v.states),
        entry_keys(e) == v.states.dom(),
    ensures
        count_entries(e, s) == v.count(s),
{
    lemma_count_entries(e, v.states, s);

}

/// Requesting a chunk twice has the effect of requesting it once.
pub proof fn request_is_idempotent(v: ManagerView, c: ChunkCoord)
    ensures
        v.request(c).request(c) == v.request(c),
{
}

/// After a series of requests every requested chunk is tracked, and chunks that were
/// tracked before keep their state.
pub proof fn request_all_tracks_every_chunk(v: ManagerView, cs: Seq<ChunkCoord>)
    ensures
        forall|i: int| 0 <= i < cs.len() ==> v.request_all(cs).state_of(#[trigger] cs[i]) is Some,
        forall|k: (i32, i32)| #[trigger] v.states.contains_key(k) ==> v.request_all(cs).states.contains_key(k)
            && v.request_all(cs).states[k] == v.states[k],
    decreases cs.len(),
{
    if cs.len() > 0 {
        request_all_tracks_every_chunk(v, cs.drop_last());
        assert forall|i: int| 0 <= i < cs.len() implies v.request_all(cs).state_of(#[trigger] cs[i]) is Some by {
            if i < cs.len() - 1 {
                assert(cs.drop_last()[i] == cs[i]);
            }
        }
    }
}

/// Requesting every chunk of `cs` once more changes nothing.
pub proof fn requesting_again_changes_nothing(v: ManagerView, cs: Seq<ChunkCoord>)
    ensures
        v.request_all(cs).request_all(cs) == v.request_all(cs),
{
    request_all_tracks_every_chunk(v, cs);
    lemma_request_all_tracked(v.request_all(cs), cs);
}

/// Requesting chunks that are all tracked already changes nothing.
proof fn lemma_request_all_tracked(w: ManagerView, cs: Seq<ChunkCoord>)
    requires
        forall|i: int| 0 <= i < cs.len() ==> w.state_of(#[trigger] cs[i]) is Some,
    ensures
        w.request_all(cs) == w,
    decreases cs.len(),
{
    if cs.len() > 0 {
        assert forall|i: int| 0 <= i < cs.drop_last().len() implies w.state_of(#[trigger] cs.drop_last()[i]) is Some by {
            assert(cs.drop_last()[i] == cs[i]);
        }
        lemma_request_all_tracked(w, cs.drop_last());
        assert(w.state_of(cs[cs.len() - 1]) is Some);
    }
}

/// The generation queue holds each chunk at most once, and only tracked chunks.
pub open spec fn queue_is_consistent(v: ManagerView) -> bool {
    &&& forall|i: int, j: int| 0 <= i < j < v.requested.len() ==> #[trigger] v.requested[i] != #[trigger] v.requested[j]
    &&& forall|i: int| 0 <= i < v.requested.len() ==> v.states.contains_key((#[trigger] v.requested[i]).key())
}

/// Requests keep the generation queue consistent: however often a chunk is requested,
/// it is queued for generation at most once.
pub proof fn requests_queue_each_chunk_once(v: ManagerView, cs: Seq<ChunkCoord>)
    requires
        queue_is_consistent(v),
    ensures
        queue_is_consistent(v.request_all(cs)),
    decreases cs.len(),
{
    if cs.len() > 0 {
        requests_queue_each_chunk_once(v, cs.drop_last());
        let w = v.request_all(cs.drop_last());
        let c = cs.last();
        if !w.states.contains_key(c.key()) {
            let q = w.requested.push(c);
            assert forall|i: int| 0 <= i < q.len() - 1 implies #[trigger] q[i] != c by {
                assert(q[i] == w.requested[i]);
                assert(w.states.contains_key(w.requested[i].key()));
            }
            assert forall|i: int, j: int| 0 <= i < j < q.len() implies #[trigger] q[i] != #[trigger] q[j] by {
                if j < q.len() - 1 {
                    assert(q[i] == w.requested[i]);
                    assert(q[j] == w.requested[j]);
                } else {
                    assert(q[j] == c);
                }
            }
            assert forall|i: int| 0 <= i < q.len() implies w.request(c).states.contains_key((#[trigger] q[i]).key()) by {
                if i < q.len() - 1 {
                    assert(q[i] == w.requested[i]);
                }
            }
        }
    }
}

/// Marking chunks for meshing appends them to the meshing queue, sets each of them to
/// `Meshing`, and leaves the generation queue and every other chunk's state alone.
pub proof fn marking_for_meshing_queues_each_chunk(v: ManagerView, cs: Seq<ChunkCoord>)
    ensures
        v.mark_meshing_all(cs).pending_mesh == v.pending_mesh + cs,
        v.mark_meshing_all(cs).requested == v.requested,
        forall|d: ChunkCoord| #[trigger] v.mark_meshing_all(cs).state_of(d) == (if cs.contains(d) {
            Some(ChunkState::Meshing)
        } else {
            v.state_of(d)
        }),
    decreases cs.len(),
{
    if cs.len() > 0 {
        let p = cs.drop_last();
        let last = cs.last();
        marking_for_meshing_queues_each_chunk(v, p);
        assert(v.mark_meshing_all(cs).pending_mesh =~= v.pending_mesh + cs);
        assert forall|d: ChunkCoord| #[trigger] v.mark_meshing_all(cs).state_of(d) == (if cs.contains(d) {
            Some(ChunkState::Meshing)
        } else {
            v.state_of(d)
        }) by {
            assert(v.mark_meshing_all(p).state_of(d) == (if p.contains(d) {
                Some(ChunkState::Meshing)
            } else {
                v.state_of(d)
            }));
            if d == last {
                assert(cs[cs.len() - 1] == d);
            } else {
                assert(d.key() != last.key());
                if p.contains(d) {
                    let k = choose|k: int| 0 <= k < p.len() && p[k] == d;
                    assert(cs[k] == d);
                }
                if cs.contains(d) {
                    let k = choose|k: int| 0 <= k < cs.len() && cs[k] == d;
                    assert(k < cs.len() - 1);
                    assert(p[k] == d);
                }
            }
        }
    }
}

/// Tracks the streaming state of chunks and the queues of chunks waiting for
/// generation and for meshing.
#[derive(Debug)]
pub struct ChunkManager {
    states: FxHashMap<(i32, i32), ChunkState>,
    requested: VecDeque<ChunkCoord>,
    pending_mesh: VecDeque<ChunkCoord>,
}

impl View for ChunkManager {
    type V = ManagerView;

    closed spec fn view(&self) -> ManagerView {
        ManagerView {
            states: self.states@,
            requested: self.requested@,
            pending_mesh: self.pending_mesh@,
        }
    }
}

impl ChunkManager {
    /// A manager that tracks nothing.
    pub fn new() -> (m: Self)
        ensures
            m@.states.is_empty(),
            m@.requested.len() == 0,
            m@.pending_mesh.len() == 0,
    {
        Self { states: map_new(), requested: VecDeque::new(), pending_mesh: VecDeque::new() }
    }

    /// Starts tracking `coord` as `Requested` and queues it for generation, unless it is
    /// already tracked.
    pub fn request(&mut self, coord: ChunkCoord)
        ensures
            final(self)@ == old(self)@.request(coord),
    {
        if crate::fxmap::map_contains_key(&self.states, (coord.x, coord.z)) {
            return;
        }
        map_insert(&mut self.states, (coord.x, coord.z), ChunkState::Requested);
        self.requested.push_back(coord);
    }

    /// Marks `coord` as being generated.
    pub fn mark_generating(&mut self, coord: ChunkCoord)
        ensures
            final(self)@ == old(self)@.mark(coord, ChunkState::Generating),
    {
        map_insert(&mut self.states, (coord.x, coord.z), ChunkState::Generating);
    }

    /// Marks `coord` as needing a mesh and queues it for meshing.
    pub fn mark_meshing(&mut self, coord: ChunkCoord)
        ensures
            final(self)@ == old(self)@.mark_meshing(coord),
    {
        map_insert(&mut self.states, (coord.x, coord.z), ChunkState::Meshing);
        self.pending_mesh.push_back(coord);
    }

    /// Marks `coord` as resident.
    pub fn mark_resident(&mut self, coord: ChunkCoord)
        ensures
            final(self)@ == old(self)@.mark(coord, ChunkState::Resident),
    {
        map_insert(&mut self.states, (coord.x, coord.z), ChunkState::Resident);
    }

    /// Marks `coord` as being evicted.
    pub fn mark_evicting(&mut self, coord: ChunkCoord)
        ensures
            final(self)@ == old(self)@.mark(coord, ChunkState::Evicting),
    {
        map_insert(&mut self.states, (coord.x, coord.z), ChunkState::Evicting);
    }

    /// Takes the oldest chunk off the generation queue.
    pub fn pop_requested(&mut self) -> (r: Option<ChunkCoord>)
        ensures
            old(self)@.requested.len() == 0 ==> r is None && final(self)@ == old(self)@,
            old(self)@.requested.len() > 0 ==> {
                &&& r == Some(old(self)@.requested[0])
                &&& final(self)@ == (ManagerView {
                    states: old(self)@.states,
                    requested: old(self)@.requested.drop_first(),
                    pending_mesh: old(self)@.pending_mesh,
                })
            },
    {
        self.requested.pop_front()
    }

    /// Takes the oldest chunk off the meshing queue.
    pub fn pop_pending_mesh(&mut self) -> (r: Option<ChunkCoord>)
        ensures
            old(self)@.pending_mesh.len() == 0 ==> r is None && final(self)@ == old(self)@,
            old(self)@.pending_mesh.len() > 0 ==> {
                &&& r == Some(old(self)@.pending_mesh[0])
                &&& final(self)@ == (ManagerView {
                    states: old(self)@.states,
                    requested: old(self)@.requested,
                    pending_mesh: old(self)@.pending_mesh.drop_first(),
                })
            },
    {
        self.pending_mesh.pop_front()
    }

    /// How many tracked chunks are in each state.
    pub fn counters(&self) -> (c: WorldCounters)
        ensures
            c == self@.counters(),
            c.requested + c.generating + c.meshing + c.resident + c.evicting == self@.states.len(),
    {
        let entries = map_entries(&self.states);
        let mut counters = WorldCounters::default();
        let mut i: usize = 0;
        while i < entries.len()
            invariant
                i <= entries@.len(),
                counters.requested == count_entries(entries@.take(i as int), ChunkState::Requested),
                counters.generating == count_entries(entries@.take(i as int), ChunkState::Generating),
                counters.meshing == count_entries(entries@.take(i as int), ChunkState::Meshing),
                counters.resident == count_entries(entries@.take(i as int), ChunkState::Resident),
                counters.evicting == count_entries(entries@.take(i as int), ChunkState::Evicting),
                counters.requested + counters.generating + counters.meshing + counters.resident
                    + counters.evicting == i,
            decreases entries@.len() - i,
        {
            let ghost prefix = entries@.take(i as int);
            assert(entries@.take(i + 1).drop_last() =~= prefix);
            match entries[i].1 {
                ChunkState::Requested => counters.requested = counters.requested + 1,
                ChunkState::Generating => counters.generating = counters.generating + 1,
                ChunkState::Meshing => counters.meshing = counters.meshing + 1,
                ChunkState::Resident => counters.resident = counters.resident + 1,
                ChunkState::Evicting => counters.evicting = counters.evicting + 1,
            }
            i = i + 1;
        }
        proof {
            let e = entries@;
            assert(e.take(e.len() as int) =~= e);
            assert(lists_entries_of(e, self.states@));
            assert(entry_keys(e) =~= self.states@.dom()) by {
                assert forall|k: (i32, i32)| self.states@.dom().contains(k) implies entry_keys(e).contains(k) by {
                    assert(self.states@.contains_key(k));
                }
            }
            lemma_count_matches(e, self@, ChunkState::Requested);
            lemma_count_matches(e, self@, ChunkState::Generating);
            lemma_count_matches(e, self@, ChunkState::Meshing);
            lemma_count_matches(e, self@, ChunkState::Resident);
            lemma_count_matches(e, self@, ChunkState::Evicting);
            let ks = e.map_values(|p: ((i32, i32), ChunkState)| p.0);
            assert(ks.no_duplicates());
            assert(ks.to_set() =~= self.states@.dom()) by {
                assert forall|k: (i32, i32)| self.states@.dom().contains(k) implies ks.to_set().contains(k) by {
                    let j = choose|j: int| 0 <= j < e.len() && e[j].0 == k;
                    assert(ks[j] == k);
                }
            }
            ks.unique_seq_to_set();
        }
        counters
    }

    /// Whether `coord` is tracked and in state `expected`.
    pub fn has_state(&self, coord: ChunkCoord, expected: ChunkState) -> (r: bool)
        ensures
            r == (self@.state_of(coord) == Some(expected)),
    {
        match self.state(coord) {
            Some(s) => s == expected,
            None => false,
        }
    }

    /// The state of `coord`, if it is tracked.
    pub fn state(&self, coord: ChunkCoord) -> (r: Option<ChunkState>)
        ensures
            r == self@.state_of(coord),
    {
        match map_get(&self.states, (coord.x, coord.z)) {
            Some(s) => Some(*s),
            None => None,
        }
    }
}

} // verus!
