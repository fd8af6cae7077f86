//! The per-second buckets as an ordered map from second to statistics.

use vstd::prelude::*;
use std::collections::BTreeMap;
use vstd::std_specs::btree::{
    axiom_increasing_seq_meaning, axiom_key_obeys_cmp_spec_meaning, group_btree_axioms,
    increasing_seq,
};
use vstd::std_specs::cmp::OrdSpec;
use vstd::std_specs::iter::IteratorSpec;
use crate::engine::aggregator::{
    absorbed, empty_stats, lemma_recorded_at_position, recorded_into, seconds_ascend,
    BucketStats, TimeBucket,
};

verus! {

/// The listing holds the buckets of the map, each once, in ascending order
/// of their second.
pub open spec fn lists(listing: Seq<TimeBucket>, map: Map<u64, BucketStats>) -> bool {
    &&& seconds_ascend(listing)
    &&& forall|i: int|
        0 <= i < listing.len() ==> map.contains_key((#[trigger] listing[i]).second)
            && map[listing[i].second] == listing[i].stats
    &&& forall|second: u64| #[trigger]
        map.contains_key(second) ==> exists|i: int|
            0 <= i < listing.len() && (#[trigger] listing[i]).second == second
}

/// Seconds are ordered as numbers are.
proof fn lemma_seconds_ordered()
    ensures
        vstd::laws_cmp::obeys_cmp::<u64>(),
{
    broadcast use vstd::laws_cmp::group_laws_cmp;

}

/// The statistics of a second, if the map holds the second.
pub fn stats_at(map: &BTreeMap<u64, BucketStats>, second: u64) -> (stats: Option<BucketStats>)
    ensures
        stats == (if map@.contains_key(second) {
            Some(map@[second])
        } else {
            None::<BucketStats>
        }),
{
    broadcast use group_btree_axioms;

    proof {
        lemma_seconds_ordered();
    }
    match map.get(&second) {
        Some(stats) => Some(*stats),
        None => None,
    }
}

/// Sets the statistics of a second.
pub fn put_stats(map: &mut BTreeMap<u64, BucketStats>, second: u64, stats: BucketStats)
    ensures
        final(map)@ == old(map)@.insert(second, stats),
{
    proof {
        lemma_seconds_ordered();
    }
    map.insert(second, stats);
}

/// The buckets of the map in ascending order of their second.
pub fn list_buckets(map: &BTreeMap<u64, BucketStats>) -> (listing: Vec<TimeBucket>)
    ensures
        lists(listing@, map@),
{
    broadcast use group_btree_axioms;
    broadcast use axiom_increasing_seq_meaning;
    broadcast use axiom_key_obeys_cmp_spec_meaning;

    proof {
        lemma_seconds_ordered();
    }
    let mut listing: Vec<TimeBucket> = Vec::new();
    let ghost all = map.iter().remaining();
    for pair in it: map.iter()
        invariant
            listing@.len() == it.index(),
            it.seq() == all,
            forall|i: int|
                0 <= i < listing@.len() ==> #[trigger] listing@[i] == (TimeBucket {
                    second: *it.seq()[i].0,
                    stats: *it.seq()[i].1,
                }),
    {
        listing.push(TimeBucket { second: *pair.0, stats: *pair.1 });
    }
    proof {
        let seconds = all.map_values(|pair: (&u64, &BucketStats)| *pair.0);
        assert(increasing_seq(seconds));
        assert forall|i: int, j: int| 0 <= i < j < listing@.len() implies listing@[i].second
            < listing@[j].second by {
            assert(seconds[i] == listing@[i].second);
            assert(seconds[j] == listing@[j].second);
            assert(seconds[i].cmp_spec(&seconds[j]) is Less);
        }
        assert forall|second: u64| #[trigger] map@.contains_key(second) implies exists|i: int|
            0 <= i < listing@.len() && (#[trigger] listing@[i]).second == second by {
            assert(all.contains((&second, &map@[second])));
            let i = choose|i: int| 0 <= i < all.len() && all[i] == (&second, &map@[second]);
            assert(listing@[i].second == second);
        }
    }
    listing
}

/// A map has one listing only.
pub proof fn lemma_one_listing(a: Seq<TimeBucket>, b: Seq<TimeBucket>, map: Map<u64, BucketStats>)
    requires
        lists(a, map),
        lists(b, map),
    ensures
        a == b,
    decreases a.len(),
{
    if a.len() == 0 {
        if b.len() > 0 {
            assert(map.contains_key(b[0].second));
        }
        assert(a =~= b);
    } else {
        let top = a.last().second;
        assert(map.contains_key(a[a.len() - 1].second));
        let at = choose|i: int| 0 <= i < b.len() && (#[trigger] b[i]).second == top;
        assert(map.contains_key(b[b.len() - 1].second));
        let back = choose|i: int| 0 <= i < a.len() && (#[trigger] a[i]).second == b.last().second;
        assert(b.last().second == top) by {
            if at < b.len() - 1 {
                assert(b[at].second < b[b.len() - 1].second);
            }
            if back < a.len() - 1 {
                assert(a[back].second < a[a.len() - 1].second);
            }
        }
        assert(a.last() == b.last());
        let rest = map.remove(top);
        lemma_listing_shrinks(a, map);
        lemma_listing_shrinks(b, map);
        lemma_one_listing(a.drop_last(), b.drop_last(), rest);
        assert(a =~= a.drop_last().push(a.last()));
        assert(b =~= b.drop_last().push(b.last()));
    }
}

/// A listing without its last bucket lists the map without that second.
proof fn lemma_listing_shrinks(listing: Seq<TimeBucket>, map: Map<u64, BucketStats>)
    requires
        lists(listing, map),
        listing.len() > 0,
    ensures
        lists(listing.drop_last(), map.remove(listing.last().second)),
{
    let top = listing.last().second;
    let init = listing.drop_last();
    let rest = map.remove(top);
    assert forall|i: int| 0 <= i < init.len() implies rest.contains_key(
        (#[trigger] init[i]).second,
    ) && rest[init[i].second] == init[i].stats by {
        assert(listing[i].second < listing[listing.len() - 1].second);
        assert(map.contains_key(listing[i].second));
    }
    assert forall|second: u64| #[trigger] rest.contains_key(second) implies exists|i: int|
        0 <= i < init.len() && (#[trigger] init[i]).second == second by {
        assert(map.contains_key(second));
        let i = choose|i: int| 0 <= i < listing.len() && (#[trigger] listing[i]).second == second;
        assert(init[i].second == second);
    }
}


/// The statistics that a second has in the map; those of a bucket that has
/// seen nothing where the map does not hold the second.
pub open spec fn prior_stats(map: Map<u64, BucketStats>, second: u64) -> BucketStats {
    if map.contains_key(second) {
        map[second]
    } else {
        empty_stats()
    }
}

/// The map after a request that finished in second `second`: the bucket of
/// that second has absorbed it.
pub open spec fn recorded_in_map(
    map: Map<u64, BucketStats>,
    second: u64,
    elapsed_ms: u64,
    success: bool,
) -> Map<u64, BucketStats> {
    map.insert(second, absorbed(prior_stats(map, second), elapsed_ms, success))
}

/// The place of the first bucket of an ascending listing that is not before
/// `second`.
proof fn lemma_place(listing: Seq<TimeBucket>, second: u64) -> (pos: int)
    requires
        seconds_ascend(listing),
    ensures
        0 <= pos <= listing.len(),
        forall|j: int| 0 <= j < pos ==> (#[trigger] listing[j]).second < second,
        forall|j: int| pos <= j < listing.len() ==> (#[trigger] listing[j]).second >= second,
    decreases listing.len(),
{
    if listing.len() == 0 {
        0
    } else if listing.last().second < second {
        let n = listing.len() as int;
        assert forall|j: int| 0 <= j < n implies (#[trigger] listing[j]).second < second by {
            if j < n - 1 {
                assert(listing[j].second < listing[n - 1].second);
            }
        }
        n
    } else {
        let init = listing.drop_last();
        assert(seconds_ascend(init));
        let pos = lemma_place(init, second);
        assert forall|j: int| 0 <= j < pos implies (#[trigger] listing[j]).second < second by {
            assert(init[j].second < second);
        }
        assert forall|j: int| pos <= j < listing.len() implies (#[trigger] listing[j]).second
            >= second by {
            if j < init.len() {
                assert(init[j].second >= second);
            }
        }
        pos
    }
}

/// Where a listing lists a map, the listing after a request lists the map
/// after it.
pub proof fn lemma_recorded_listing(
    listing: Seq<TimeBucket>,
    map: Map<u64, BucketStats>,
    second: u64,
    elapsed_ms: u64,
    success: bool,
)
    requires
        lists(listing, map),
    ensures
        lists(
            recorded_into(listing, second, elapsed_ms, success),
            recorded_in_map(map, second, elapsed_ms, success),
        ),
{
    let after = recorded_into(listing, second, elapsed_ms, success);
    let map_after = recorded_in_map(map, second, elapsed_ms, success);
    let pos = lemma_place(listing, second);
    lemma_recorded_at_position(listing, pos, second, elapsed_ms, success);
    if pos < listing.len() && listing[pos].second == second {
        assert(map.contains_key(listing[pos].second));
        assert(after.len() == listing.len());
        assert forall|i: int, j: int| 0 <= i < j < after.len() implies after[i].second
            < after[j].second by {
            assert(after[i].second == listing[i].second);
            assert(after[j].second == listing[j].second);
        }
        assert forall|i: int| 0 <= i < after.len() implies map_after.contains_key(
            (#[trigger] after[i]).second,
        ) && map_after[after[i].second] == after[i].stats by {
            if i != pos {
                assert(after[i] == listing[i]);
                assert(map.contains_key(listing[i].second));
                if i < pos {
                    assert(listing[i].second < second);
                } else {
                    assert(listing[pos].second < listing[i].second);
                }
            }
        }
        assert forall|k: u64| #[trigger] map_after.contains_key(k) implies exists|i: int|
            0 <= i < after.len() && (#[trigger] after[i]).second == k by {
            if k == second {
                assert(after[pos].second == k);
            } else {
                assert(map.contains_key(k));
                let i = choose|i: int| 0 <= i < listing.len() && (#[trigger] listing[i]).second == k;
                assert(after[i].second == k);
            }
        }
    } else {
        assert(!map.contains_key(second)) by {
            if map.contains_key(second) {
                let i = choose|i: int|
                    0 <= i < listing.len() && (#[trigger] listing[i]).second == second;
                if i < pos {
                    assert(listing[i].second < second);
                } else {
                    assert(listing[i].second >= second);
                    assert(i == pos);
                }
            }
        }
        assert(after.len() == listing.len() + 1);
        assert forall|i: int, j: int| 0 <= i < j < after.len() implies after[i].second
            < after[j].second by {
            if j < pos {
                assert(after[i] == listing[i] && after[j] == listing[j]);
            } else if j == pos {
                assert(after[i] == listing[i]);
                assert(listing[i].second < second);
            } else if i < pos {
                assert(after[i] == listing[i] && after[j] == listing[j - 1]);
                assert(listing[i].second < second);
                assert(listing[j - 1].second >= second);
                assert(map.contains_key(listing[j - 1].second));
            } else if i == pos {
                assert(after[j] == listing[j - 1]);
                assert(listing[j - 1].second >= second);
                assert(map.contains_key(listing[j - 1].second));
            } else {
                assert(after[i] == listing[i - 1] && after[j] == listing[j - 1]);
            }
        }
        assert forall|i: int| 0 <= i < after.len() implies map_after.contains_key(
            (#[trigger] after[i]).second,
        ) && map_after[after[i].second] == after[i].stats by {
            if i < pos {
                assert(after[i] == listing[i]);
                assert(map.contains_key(listing[i].second));
            } else if i > pos {
                assert(after[i] == listing[i - 1]);
                assert(map.contains_key(listing[i - 1].second));
            }
        }
        assert forall|k: u64| #[trigger] map_after.contains_key(k) implies exists|i: int|
            0 <= i < after.len() && (#[trigger] after[i]).second == k by {
            if k == second {
                assert(after[pos].second == k);
            } else {
                assert(map.contains_key(k));
                let i = choose|i: int| 0 <= i < listing.len() && (#[trigger] listing[i]).second == k;
                if i < pos {
                    assert(after[i].second == k);
                } else {
                    assert(after[i + 1].second == k);
                }
            }
        }
    }
}

/// The bucket that a listing holds for a second of its map is the one that
/// the map holds.
pub proof fn lemma_listed_place(listing: Seq<TimeBucket>, map: Map<u64, BucketStats>, second: u64) -> (i: int)
    requires
        lists(listing, map),
        map.contains_key(second),
    ensures
        0 <= i < listing.len(),
        listing[i].second == second,
        listing[i].stats == map[second],
{
    let i = choose|i: int| 0 <= i < listing.len() && (#[trigger] listing[i]).second == second;
    i
}

} // verus!
