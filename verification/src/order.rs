//! Chunks ranked by distance to a center, with x and then z breaking ties.
use crate::coords::{chunk_distance_sq, ChunkCoord};
use vstd::prelude::*;

verus! {

/// A chunk together with its squared distance to some center.
pub type RankedChunk = (i32, ChunkCoord);

/// `a` comes before `b`: smaller distance first, then smaller x, then smaller z.
pub open spec fn ranked_before(a: RankedChunk, b: RankedChunk) -> bool {
    ||| a.0 < b.0
    ||| a.0 == b.0 && a.1.x < b.1.x
    ||| a.0 == b.0 && a.1.x == b.1.x && a.1.z < b.1.z
}

/// Chunk `a` comes before chunk `b` when ranked by their distance to `center`.
pub open spec fn nearer_first(center: ChunkCoord, a: ChunkCoord, b: ChunkCoord) -> bool {
    let da = chunk_distance_sq(center, a);
    let db = chunk_distance_sq(center, b);
    ||| da < db
    ||| da == db && a.x < b.x
    ||| da == db && a.x == b.x && a.z < b.z
}

/// Every entry carries the squared distance of its chunk to `center`.
pub open spec fn ranked_from(center: ChunkCoord, s: Seq<RankedChunk>) -> bool {
    forall|i: int| 0 <= i < s.len() ==> (#[trigger] s[i]).0 == chunk_distance_sq(center, s[i].1)
}

/// The entries are in strictly increasing rank.
pub open spec fn strictly_ranked(s: Seq<RankedChunk>) -> bool {
    forall|i: int, j: int| 0 <= i < j < s.len() ==> ranked_before(#[trigger] s[i], #[trigger] s[j])
}

/// Whether `a` ranks before `b`.
pub fn ranks_before(a: &RankedChunk, b: &RankedChunk) -> (r: bool)
    ensures
        r == ranked_before(*a, *b),
{
    a.0 < b.0 || (a.0 == b.0 && (a.1.x < b.1.x || (a.1.x == b.1.x && a.1.z < b.1.z)))
}

/// Inserts `e` into the strictly ranked `v`, keeping it strictly ranked.
pub fn insert_ranked(v: &mut Vec<RankedChunk>, e: RankedChunk)
    requires
        strictly_ranked(old(v)@),
        !old(v)@.contains(e),
    ensures
        strictly_ranked(final(v)@),
        final(v)@.len() == old(v)@.len() + 1,
        final(v)@.to_set() == old(v)@.to_set().insert(e),
{
    let mut p: usize = 0;
    while p < v.len() && ranks_before(&v[p], &e)
        invariant
            p <= v@.len(),
            v@ == old(v)@,
            forall|i: int| 0 <= i < p ==> ranked_before(#[trigger] v@[i], e),
        decreases v@.len() - p,
    {
        p = p + 1;
    }
    proof {
        assert forall|i: int| p <= i < v@.len() implies ranked_before(e, #[trigger] v@[i]) by {
            if i > p {
                assert(ranked_before(v@[p as int], v@[i]));
            }
            assert(v@[i] != e) by {
                assert(old(v)@[i] == v@[i]);
            }
        }
    }
    let ghost before = v@;
    v.insert(p, e);
    proof {
        assert forall|i: int, j: int| 0 <= i < j < v@.len() implies ranked_before(
            #[trigger] v@[i],
            #[trigger] v@[j],
        ) by {
            if j < p {
                assert(v@[i] == before[i] && v@[j] == before[j]);
            } else if j == p {
                assert(v@[i] == before[i]);
            } else if i < p {
                assert(v@[i] == before[i] && v@[j] == before[j - 1]);
                assert(ranked_before(before[i], e));
                assert(ranked_before(e, before[j - 1]));
            } else if i == p {
                assert(v@[j] == before[j - 1]);
            } else {
                assert(v@[i] == before[i - 1] && v@[j] == before[j - 1]);
            }
        }
        assert(v@ == before.insert(p as int, e));
        assert(v@.to_set() =~= before.to_set().insert(e)) by {
            assert forall|x: RankedChunk| v@.to_set().contains(x) implies before.to_set().insert(e).contains(x) by {
                let i = choose|i: int| 0 <= i < v@.len() && v@[i] == x;
                if i < p {
                    assert(before[i] == x);
                } else if i > p {
                    assert(before[i - 1] == x);
                }
            }
            assert forall|x: RankedChunk| before.to_set().insert(e).contains(x) implies v@.to_set().contains(x) by {
                if x == e {
                    assert(v@[p as int] == e);
                } else {
                    let i = choose|i: int| 0 <= i < before.len() && before[i] == x;
                    if i < p {
                        assert(v@[i] == x);
                    } else {
                        assert(v@[i + 1] == x);
                    }
                }
            }
        }
    }
}

} // verus!
