use crate::coords::{chunk_distance_is_a_metric_square, chunk_distance_sq, distance_fits_i32, ChunkCoord};
use crate::order::{insert_ranked, nearer_first, ranked_before, ranked_from, strictly_ranked, RankedChunk};
use vstd::prelude::*;

verus! {

/// Chunk `c` lies in the square of half-width `radius` around `center` and within
/// distance `radius` of it.
pub open spec fn in_view_disc(center: ChunkCoord, radius: i32, c: ChunkCoord) -> bool {
    &&& -radius <= c.x - center.x <= radius
    &&& -radius <= c.z - center.z <= radius
    &&& chunk_distance_sq(center, c) <= radius * radius
}

/// `list` holds the nearest chunks of the view disc, nearest first with ties broken by
/// x and then z, and as many of them as `max_chunks` allows.
pub open spec fn is_nearest_visible(
    center: ChunkCoord,
    radius: i32,
    max_chunks: usize,
    list: Seq<ChunkCoord>,
) -> bool {
    &&& list.len() <= max_chunks
    &&& forall|i: int| 0 <= i < list.len() ==> in_view_disc(center, radius, #[trigger] list[i])
    &&& forall|i: int, j: int|
        0 <= i < j < list.len() ==> nearer_first(center, #[trigger] list[i], #[trigger] list[j])
    &&& forall|c: ChunkCoord|
        in_view_disc(center, radius, c) && !list.contains(c) ==> {
            &&& list.len() == max_chunks
            &&& forall|i: int| 0 <= i < list.len() ==> nearer_first(center, #[trigger] list[i], c)
        }
}

/// The computation of the view disc around `center` stays within `i32`.
pub open spec fn view_disc_fits_i32(center: ChunkCoord, radius: i32) -> bool {
    &&& radius * radius <= i32::MAX
    &&& radius >= 0 ==> {
        &&& 2 * radius * radius <= i32::MAX
        &&& i32::MIN <= center.x - radius
        &&& center.x + radius <= i32::MAX
        &&& i32::MIN <= center.z - radius
        &&& center.z + radius <= i32::MAX
    }
}

/// Offset `(dz, dx)` of `c` from `center` comes before `(z, x)` in row order.
pub open spec fn visited_before(center: ChunkCoord, c: ChunkCoord, z: int, x: int) -> bool {
    ||| c.z - center.z < z
    ||| c.z - center.z == z && c.x - center.x < x
}

proof fn lemma_square_bound(a: int, r: int)
    requires
        -r <= a <= r,
    ensures
        a * a <= r * r,
        0 <= a * a,
{
    assert(a * a <= r * r) by (nonlinear_arith)
        requires
            -r <= a <= r,
    ;
    assert(0 <= a * a) by (nonlinear_arith);
}

/// The chunks within `radius` of `center`, nearest first (ties broken by x, then z),
/// at most `max_chunks` of them.
pub fn nearest_visible_coords(center: ChunkCoord, radius: i32, max_chunks: usize) -> (list: Vec<ChunkCoord>)
    requires
        view_disc_fits_i32(center, radius),
    ensures
        is_nearest_visible(center, radius, max_chunks, list@),
{
    proof {
        assert(0 <= radius * radius) by (nonlinear_arith);
    }
    let distance_sq_limit = radius * radius;
    let mut all: Vec<RankedChunk> = Vec::new();
    let r: i64 = radius as i64;
    let mut dz: i64 = -r;
    while dz <= r
        invariant
            r == radius,
            distance_sq_limit == radius * radius,
            view_disc_fits_i32(center, radius),
            -r <= dz <= r + 1 || r < 0,
            r < 0 ==> dz == -r,
            strictly_ranked(all@),
            ranked_from(center, all@),
            forall|i: int|
                0 <= i < all@.len() ==> in_view_disc(center, radius, (#[trigger] all@[i]).1)
                    && visited_before(center, all@[i].1, dz as int, -r),
            forall|c: ChunkCoord|
                in_view_disc(center, radius, c) && visited_before(center, c, dz as int, -r) ==> exists|i: int|
                    0 <= i < all@.len() && (#[trigger] all@[i]).1 == c,
        decreases r + 1 - dz,
    {
        let mut dx: i64 = -r;
        while dx <= r
            invariant
                r == radius,
                r >= 0,
                distance_sq_limit == radius * radius,
                view_disc_fits_i32(center, radius),
                -r <= dz <= r,
                -r <= dx <= r + 1,
                strictly_ranked(all@),
                ranked_from(center, all@),
                forall|i: int|
                    0 <= i < all@.len() ==> in_view_disc(center, radius, (#[trigger] all@[i]).1)
                        && visited_before(center, all@[i].1, dz as int, dx as int),
                forall|c: ChunkCoord|
                    in_view_disc(center, radius, c) && visited_before(center, c, dz as int, dx as int)
                        ==> exists|i: int| 0 <= i < all@.len() && (#[trigger] all@[i]).1 == c,
            decreases r + 1 - dx,
        {
            let coord = ChunkCoord::new(center.x + dx as i32, center.z + dz as i32);
            proof {
                assert(coord.x - center.x == dx && coord.z - center.z == dz);
                lemma_square_bound(dx as int, r as int);
                lemma_square_bound(dz as int, r as int);
                assert(2 * radius * radius == radius * radius + radius * radius) by (nonlinear_arith);
                assert((center.x - coord.x) * (center.x - coord.x) == dx * dx) by (nonlinear_arith)
                    requires
                        center.x - coord.x == -dx,
                ;
                assert((center.z - coord.z) * (center.z - coord.z) == dz * dz) by (nonlinear_arith)
                    requires
                        center.z - coord.z == -dz,
                ;
                assert(distance_fits_i32(center, coord));
            }
            let distance_sq = center.distance_squared(coord);
            let ghost prev = all@;
            if distance_sq <= distance_sq_limit {
                proof {
                    assert(!all@.contains((distance_sq, coord))) by {
                        if all@.contains((distance_sq, coord)) {
                            let i = choose|i: int| 0 <= i < all@.len() && all@[i] == (distance_sq, coord);
                            assert(visited_before(center, all@[i].1, dz as int, dx as int));
                        }
                    }
                }
                insert_ranked(&mut all, (distance_sq, coord));
                proof {
                    assert(all@.to_set().contains((distance_sq, coord)));
                    assert forall|i: int| 0 <= i < all@.len() implies (#[trigger] all@[i]).0 == chunk_distance_sq(center, all@[i].1)
                        && in_view_disc(center, radius, all@[i].1)
                        && visited_before(center, all@[i].1, dz as int, dx + 1) by {
                        assert(all@.to_set().contains(all@[i]));
                        if all@[i] != (distance_sq, coord) {
                            assert(prev.to_set().contains(all@[i]));
                            let j = choose|j: int| 0 <= j < prev.len() && prev[j] == all@[i];
                            assert(prev[j].0 == chunk_distance_sq(center, prev[j].1));
                        }
                    }
                    assert forall|c: ChunkCoord|
                        in_view_disc(center, radius, c) && visited_before(center, c, dz as int, dx + 1)
                            implies exists|i: int| 0 <= i < all@.len() && (#[trigger] all@[i]).1 == c by {
                        if c == coord {
                            let k = choose|k: int| 0 <= k < all@.len() && all@[k] == (distance_sq, coord);
                            assert(all@[k].1 == c);
                        } else {
                            let j = choose|j: int| 0 <= j < prev.len() && (#[trigger] prev[j]).1 == c;
                            assert(all@.to_set().contains(prev[j]));
                            let k = choose|k: int| 0 <= k < all@.len() && all@[k] == prev[j];
                            assert(all@[k].1 == c);
                        }
                    }
                }
            } else {
                proof {
                    assert forall|c: ChunkCoord|
                        in_view_disc(center, radius, c) && visited_before(center, c, dz as int, dx + 1)
                            implies exists|i: int| 0 <= i < all@.len() && (#[trigger] all@[i]).1 == c by {
                        if c == coord {
                            assert(false);
                        }
                    }
                }
            }
            dx = dx + 1;
        }
        proof {
            assert forall|c: ChunkCoord|
                in_view_disc(center, radius, c) && visited_before(center, c, dz + 1, -r)
                    implies exists|i: int| 0 <= i < all@.len() && (#[trigger] all@[i]).1 == c by {
                assert(visited_before(center, c, dz as int, dx as int));
            }
        }
        dz = dz + 1;
    }
    proof {
        assert forall|c: ChunkCoord| in_view_disc(center, radius, c) implies exists|i: int|
            0 <= i < all@.len() && (#[trigger] all@[i]).1 == c by {
            assert(visited_before(center, c, dz as int, -r));
        }
    }
    let mut list: Vec<ChunkCoord> = Vec::new();
    let mut i: usize = 0;
    while i < all.len() && i < max_chunks
        invariant
            i <= all@.len(),
            i <= max_chunks,
            list@.len() == i,
            forall|j: int| 0 <= j < i ==> list@[j] == (#[trigger] all@[j]).1,
        decreases all@.len() - i,
    {
        list.push(all[i].1);
        i = i + 1;
    }
    proof {
        assert forall|a: int, b: int| 0 <= a < b < list@.len() implies nearer_first(
            center,
            #[trigger] list@[a],
            #[trigger] list@[b],
        ) by {
            assert(ranked_before(all@[a], all@[b]));
            assert(all@[a].0 == chunk_distance_sq(center, all@[a].1));
            assert(all@[b].0 == chunk_distance_sq(center, all@[b].1));
        }
        assert forall|j: int| 0 <= j < list@.len() implies in_view_disc(center, radius, #[trigger] list@[j]) by {
            assert(in_view_disc(center, radius, all@[j].1));
        }
        assert forall|c: ChunkCoord| in_view_disc(center, radius, c) && !list@.contains(c) implies {
            &&& list@.len() == max_chunks
            &&& forall|j: int| 0 <= j < list@.len() ==> nearer_first(center, #[trigger] list@[j], c)
        } by {
            let k = choose|k: int| 0 <= k < all@.len() && (#[trigger] all@[k]).1 == c;
            if k < i {
                assert(list@[k] == c);
            }
            assert forall|j: int| 0 <= j < list@.len() implies nearer_first(center, #[trigger] list@[j], c) by {
                assert(ranked_before(all@[j], all@[k]));
                assert(all@[j].0 == chunk_distance_sq(center, all@[j].1));
                assert(all@[k].0 == chunk_distance_sq(center, all@[k].1));
            }
        }
    }
    list
}

/// The nearest visible chunks start with the center itself whenever the radius is not
/// negative and at least one chunk may be listed.
pub proof fn center_comes_first(center: ChunkCoord, radius: i32, max_chunks: usize, list: Seq<ChunkCoord>)
    requires
        is_nearest_visible(center, radius, max_chunks, list),
        radius >= 0,
        max_chunks >= 1,
    ensures
        list.len() >= 1,
        list[0] == center,
{
    chunk_distance_is_a_metric_square(center, center);
    assert(0 <= radius * radius) by (nonlinear_arith);
    assert(in_view_disc(center, radius, center));
    if !list.contains(center) {
        assert(list.len() == max_chunks);
        assert(nearer_first(center, list[0], center));
        chunk_distance_is_a_metric_square(center, list[0]);
    } else {
        let k = choose|k: int| 0 <= k < list.len() && list[k] == center;
        if k > 0 {
            assert(nearer_first(center, list[0], list[k]));
            chunk_distance_is_a_metric_square(center, list[0]);
        }
    }
}

} // verus!
