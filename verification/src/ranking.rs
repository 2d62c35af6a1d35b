//! Ordering what a scan and the clusterer found: the matched blocks by
//! position, the veins by their distance from a reference point.

use crate::blocks::{position_order, BlockDescriptor};
use crate::bounds::Bounds;
use crate::points::{distance, distance_limit, squared_distance, Point};
use crate::scan::ScanResult;
use crate::veins::Vein;
use itertools::Itertools;
use std::cmp::Ordering;
use vstd::prelude::*;

verus! {

/// A position with the index of the block that stands there, as a sort key:
/// `(x, y, z, index)`.
pub open spec fn key_of(block: BlockDescriptor, index: int) -> (i64, i64, i64, usize) {
    (block.x, block.y, block.z, index as usize)
}

/// The order of sort keys: by the first component, then the second, then the
/// third, then the fourth.
pub open spec fn key_le(a: (i64, i64, i64, usize), b: (i64, i64, i64, usize)) -> bool {
    a.0 < b.0 || (a.0 == b.0 && (a.1 < b.1 || (a.1 == b.1 && (a.2 < b.2 || (a.2 == b.2 && a.3
        <= b.3)))))
}

/// Calls `itertools::Itertools::sorted` on tuples of integers, which std
/// orders component by component. The contract claims that the result holds
/// the same keys, each as often, in ascending order.
#[verifier::external_body]
pub(crate) fn sorted_keys(keys: Vec<(i64, i64, i64, usize)>) -> (sorted: Vec<
    (i64, i64, i64, usize),
>)
    ensures
        sorted@.to_multiset() == keys@.to_multiset(),
        forall|i: int, j: int|
            0 <= i < j < sorted@.len() ==> key_le(#[trigger] sorted@[i], #[trigger] sorted@[j]),
{
    keys.into_iter().sorted().collect()
}

/// Block `i` of `input` comes before block `j` in position order; of two
/// blocks at one position the one with the lower index comes first.
pub open spec fn comes_first(input: Seq<BlockDescriptor>, i: int, j: int) -> bool {
    match position_order(input[i]@.pos(), input[j]@.pos()) {
        Ordering::Less => true,
        Ordering::Equal => i < j,
        Ordering::Greater => false,
    }
}

/// `output` holds the blocks of `input` inside `boundary`, sorted by
/// position, blocks at one position in the order of `input`; `order` gives
/// the index in `input` of each block of `output`.
pub open spec fn is_selection(
    input: Seq<BlockDescriptor>,
    boundary: Bounds,
    output: Seq<BlockDescriptor>,
    order: Seq<int>,
) -> bool {
    &&& order.len() == output.len()
    &&& forall|k: int|
        0 <= k < order.len() ==> {
            &&& 0 <= #[trigger] order[k] < input.len()
            &&& boundary.contains_spec(input[order[k]]@.pos())
            &&& output[k] == input[order[k]]
        }
    &&& forall|i: int|
        0 <= i < input.len() && boundary.contains_spec((#[trigger] input[i])@.pos())
            ==> order.contains(i)
    &&& forall|k: int, l: int|
        0 <= k < l < order.len() ==> comes_first(input, #[trigger] order[k], #[trigger] order[l])
}

/// `output` holds the blocks of `input` inside `boundary`, sorted by
/// position, blocks at one position in the order of `input`.
pub open spec fn selects(
    input: Seq<BlockDescriptor>,
    boundary: Bounds,
    output: Seq<BlockDescriptor>,
) -> bool {
    exists|order: Seq<int>| is_selection(input, boundary, output, order)
}

/// The blocks inside `boundary`, sorted by position: by `x`, then `y`, then
/// `z`. Blocks at one position keep their order.
pub fn sort_within(input: Vec<BlockDescriptor>, boundary: &Bounds) -> (output: Vec<BlockDescriptor>)
    ensures
        selects(input@, *boundary, output@),
{
    let mut keys: Vec<(i64, i64, i64, usize)> = Vec::new();
    let mut i: usize = 0;
    while i < input.len()
        invariant
            i <= input.len(),
            forall|k: int|
                0 <= k < keys@.len() ==> {
                    &&& (#[trigger] keys@[k]).3 < i
                    &&& keys@[k] == key_of(input@[keys@[k].3 as int], keys@[k].3 as int)
                    &&& boundary.contains_spec(input@[keys@[k].3 as int]@.pos())
                },
            forall|j: int|
                0 <= j < i && boundary.contains_spec((#[trigger] input@[j])@.pos())
                    ==> keys@.contains(key_of(input@[j], j)),
            forall|m: int, n: int|
                0 <= m < n < keys@.len() ==> (#[trigger] keys@[m]).3 < (#[trigger] keys@[n]).3,
        decreases input.len() - i,
    {
        let block = &input[i];
        if boundary.contains(&block.pos()) {
            let ghost before = keys@;
            keys.push((block.x, block.y, block.z, i));
            proof {
                assert(keys@[before.len() as int] == key_of(input@[i as int], i as int));
                assert forall|j: int|
                    0 <= j < i + 1 && boundary.contains_spec(
                        (#[trigger] input@[j])@.pos(),
                    ) implies keys@.contains(key_of(input@[j], j)) by {
                    if j < i {
                        let k = choose|k: int|
                            0 <= k < before.len() && before[k] == key_of(input@[j], j);
                        assert(keys@[k] == before[k]);
                    }
                }
            }
        }
        i += 1;
    }
    let ghost unsorted = keys@;
    let sorted = sorted_keys(keys);
    proof {
        vstd::seq_lib::to_multiset_len(unsorted);
        vstd::seq_lib::to_multiset_len(sorted@);
        assert forall|k: int| 0 <= k < sorted@.len() implies unsorted.contains(
            #[trigger] sorted@[k],
        ) by {
            vstd::seq_lib::to_multiset_contains(sorted@, sorted@[k]);
            vstd::seq_lib::to_multiset_contains(unsorted, sorted@[k]);
            assert(sorted@.contains(sorted@[k]));
        }
    }
    let mut output: Vec<BlockDescriptor> = Vec::new();
    let mut k: usize = 0;
    while k < sorted.len()
        invariant
            k <= sorted.len(),
            output@.len() == k,
            forall|m: int| 0 <= m < sorted@.len() ==> unsorted.contains(#[trigger] sorted@[m]),
            forall|m: int|
                0 <= m < unsorted.len() ==> {
                    &&& (#[trigger] unsorted[m]).3 < input@.len()
                    &&& unsorted[m] == key_of(input@[unsorted[m].3 as int], unsorted[m].3 as int)
                    &&& boundary.contains_spec(input@[unsorted[m].3 as int]@.pos())
                },
            forall|m: int| 0 <= m < k ==> #[trigger] output@[m] == input@[sorted@[m].3 as int],
        decreases sorted.len() - k,
    {
        let key = sorted[k];
        proof {
            assert(unsorted.contains(sorted@[k as int]));
            let m = choose|m: int| 0 <= m < unsorted.len() && unsorted[m] == sorted@[k as int];
            assert(unsorted[m].3 < input@.len());
        }
        output.push(input[key.3].clone());
        k += 1;
    }
    proof {
        let order = Seq::new(sorted@.len(), |m: int| sorted@[m].3 as int);
        assert forall|m: int| 0 <= m < order.len() implies {
            &&& 0 <= #[trigger] order[m] < input@.len()
            &&& boundary.contains_spec(input@[order[m]]@.pos())
            &&& output@[m] == input@[order[m]]
            &&& sorted@[m] == key_of(input@[order[m]], order[m])
        } by {
            assert(unsorted.contains(sorted@[m]));
            let n = choose|n: int| 0 <= n < unsorted.len() && unsorted[n] == sorted@[m];
            assert(unsorted[n].3 < input@.len());
        }
        assert forall|j: int|
            0 <= j < input@.len() && boundary.contains_spec(
                (#[trigger] input@[j])@.pos(),
            ) implies order.contains(j) by {
            let key = key_of(input@[j], j);
            assert(unsorted.contains(key));
            vstd::seq_lib::to_multiset_contains(unsorted, key);
            vstd::seq_lib::to_multiset_contains(sorted@, key);
            assert(sorted@.contains(key));
            let m = choose|m: int| 0 <= m < sorted@.len() && sorted@[m] == key;
            assert(order[m] == j);
        }
        assert forall|a: int, b: int| 0 <= a < b < order.len() implies comes_first(
            input@,
            #[trigger] order[a],
            #[trigger] order[b],
        ) by {
            assert(key_le(sorted@[a], sorted@[b]));
            assert(sorted@[a] == key_of(input@[order[a]], order[a]));
            assert(sorted@[b] == key_of(input@[order[b]], order[b]));
            if order[a] == order[b] {
                lemma_keys_distinct(unsorted, sorted@, a, b);
            }
        }
        assert(is_selection(input@, *boundary, output@, order));
    }
    output
}

/// Keys that carry their own index occur once each, also after sorting.
proof fn lemma_keys_distinct(
    unsorted: Seq<(i64, i64, i64, usize)>,
    sorted: Seq<(i64, i64, i64, usize)>,
    a: int,
    b: int,
)
    requires
        sorted.to_multiset() == unsorted.to_multiset(),
        forall|m: int, n: int|
            0 <= m < n < unsorted.len() ==> (#[trigger] unsorted[m]).3 != (#[trigger] unsorted[n]).3,
        0 <= a < b < sorted.len(),
    ensures
        sorted[a] != sorted[b],
{
    assert(unsorted.no_duplicates());
    unsorted.lemma_multiset_has_no_duplicates();
    sorted.lemma_multiset_has_no_duplicates_conv();
}

/// The summary with its matches narrowed to `boundary` and sorted by
/// position; the counters stay.
pub fn select_within(summary: ScanResult, boundary: &Bounds) -> (result: ScanResult)
    ensures
        result.regions == summary.regions,
        result.chunks == summary.chunks,
        result.sections == summary.sections,
        result.blocks == summary.blocks,
        selects(summary.found@, *boundary, result.found@),
{
    ScanResult {
        regions: summary.regions,
        chunks: summary.chunks,
        sections: summary.sections,
        blocks: summary.blocks,
        found: sort_within(summary.found, boundary),
    }
}

/// What ranks a vein: its distance from the reference point, the number of
/// its blocks, and its index in the list of veins.
#[derive(Clone, Copy, Debug, PartialEq, Eq, Structural)]
pub struct Ranked {
    pub distance: i64,
    pub size: usize,
    pub index: usize,
}

/// How two veins compare in rank: the nearer one first; of two at one
/// distance the one with more blocks first.
pub open spec fn rank_order_spec(a: Ranked, b: Ranked) -> Ordering {
    if a.distance < b.distance {
        Ordering::Less
    } else if a.distance > b.distance {
        Ordering::Greater
    } else if a.size > b.size {
        Ordering::Less
    } else if a.size < b.size {
        Ordering::Greater
    } else {
        Ordering::Equal
    }
}

/// `a` stands before `b` in a ranking: it ranks higher, or the two rank
/// alike and `a` came first in the list of veins.
pub open spec fn ranks_before(a: Ranked, b: Ranked) -> bool {
    match rank_order_spec(a, b) {
        Ordering::Less => true,
        Ordering::Equal => a.index < b.index,
        Ordering::Greater => false,
    }
}

/// The order of ranks is a total one: turning a comparison around turns its
/// answer around, and what ranks no lower than a second rank that ranks no
/// lower than a third ranks no lower than the third.
pub proof fn lemma_rank_order_is_total(a: Ranked, b: Ranked, c: Ranked)
    ensures
        rank_order_spec(a, b) == Ordering::Less <==> rank_order_spec(b, a) == Ordering::Greater,
        rank_order_spec(a, b) == Ordering::Equal <==> rank_order_spec(b, a) == Ordering::Equal,
        rank_order_spec(a, b) != Ordering::Greater && rank_order_spec(b, c) != Ordering::Greater
            ==> rank_order_spec(a, c) != Ordering::Greater,
        rank_order_spec(a, b) == Ordering::Equal && rank_order_spec(b, c) == Ordering::Equal
            ==> rank_order_spec(a, c) == Ordering::Equal,
{
}

/// Compares two veins in rank: by distance, the nearer first, then by
/// size, the larger first.
pub fn rank_order(a: &Ranked, b: &Ranked) -> (order: Ordering)
    ensures
        order == rank_order_spec(*a, *b),
{
    if a.distance < b.distance {
        Ordering::Less
    } else if a.distance > b.distance {
        Ordering::Greater
    } else if a.size > b.size {
        Ordering::Less
    } else if a.size < b.size {
        Ordering::Greater
    } else {
        Ordering::Equal
    }
}

/// Calls `itertools::Itertools::sorted_by` with `rank_order` as the
/// comparison. The sort is stable, and each key carries its place in the
/// input as its index: so the contract claims that the result holds the same
/// keys, each as often, and that of two keys the one that ranks higher comes
/// first, or the one with the lower index where they rank alike.
#[verifier::external_body]
pub(crate) fn sorted_by_rank(keys: Vec<Ranked>) -> (sorted: Vec<Ranked>)
    requires
        forall|i: int| 0 <= i < keys@.len() ==> (#[trigger] keys@[i]).index == i,
    ensures
        sorted@.to_multiset() == keys@.to_multiset(),
        forall|i: int, j: int|
            0 <= i < j < sorted@.len() ==> ranks_before(#[trigger] sorted@[i], #[trigger] sorted@[j]),
{
    keys.into_iter().sorted_by(|a, b| rank_order(a, b)).collect()
}

/// What ranks vein `index` of `veins` as seen from `home`.
pub open spec fn rank_of(veins: Seq<Vein>, home: Point, index: int) -> Ranked {
    Ranked {
        distance: distance(veins[index].center, home) as i64,
        size: veins[index].blocks@.len() as usize,
        index: index as usize,
    }
}

/// Whether the distance of every vein's center from `home` fits in `i64`.
pub open spec fn rankable(veins: Seq<Vein>, home: Point) -> bool {
    forall|v: int|
        0 <= v < veins.len() ==> squared_distance((#[trigger] veins[v]).center, home)
            < distance_limit()
}

/// `ranking` ranks `veins` as seen from `home`: it holds each vein once, the
/// nearer before the farther, at one distance the larger before the smaller,
/// and veins that rank alike in their order in `veins`.
pub open spec fn is_ranking(veins: Seq<Vein>, home: Point, ranking: Seq<Ranked>) -> bool {
    &&& ranking.len() == veins.len()
    &&& forall|k: int|
        0 <= k < ranking.len() ==> (#[trigger] ranking[k]).index < veins.len() && ranking[k]
            == rank_of(veins, home, ranking[k].index as int)
    &&& forall|v: int| 0 <= v < veins.len() ==> ranking.contains(#[trigger] rank_of(veins, home, v))
    &&& forall|i: int, j: int|
        0 <= i < j < ranking.len() ==> ranks_before(#[trigger] ranking[i], #[trigger] ranking[j])
}

/// Ranks the veins by the distance of their centers from `home`, nearest
/// first; at one distance the vein with more blocks comes first. `None`
/// exactly where the distance of a vein does not fit in `i64`.
pub fn rank_veins(veins: &Vec<Vein>, home: &Point) -> (ranking: Option<Vec<Ranked>>)
    ensures
        ranking is Some <==> rankable(veins@, *home),
        ranking matches Some(list) ==> is_ranking(veins@, *home, list@),
{
    let mut keys: Vec<Ranked> = Vec::new();
    let mut v: usize = 0;
    while v < veins.len()
        invariant
            v <= veins.len(),
            keys@.len() == v,
            forall|k: int| 0 <= k < v ==> #[trigger] keys@[k] == rank_of(veins@, *home, k),
            forall|k: int|
                0 <= k < v ==> squared_distance((#[trigger] veins@[k]).center, *home)
                    < distance_limit(),
        decreases veins.len() - v,
    {
        let vein = &veins[v];
        match vein.center.checked_distance_to(home) {
            Some(distance) => {
                keys.push(Ranked { distance, size: vein.blocks.len(), index: v });
            },
            None => {
                return None;
            },
        }
        v += 1;
    }
    let ghost unsorted = keys@;
    let sorted = sorted_by_rank(keys);
    proof {
        vstd::seq_lib::to_multiset_len(unsorted);
        vstd::seq_lib::to_multiset_len(sorted@);
        assert forall|k: int| 0 <= k < sorted@.len() implies (#[trigger] sorted@[k]).index
            < veins@.len() && sorted@[k] == rank_of(veins@, *home, sorted@[k].index as int) by {
            vstd::seq_lib::to_multiset_contains(sorted@, sorted@[k]);
            vstd::seq_lib::to_multiset_contains(unsorted, sorted@[k]);
            assert(sorted@.contains(sorted@[k]));
            let m = choose|m: int| 0 <= m < unsorted.len() && unsorted[m] == sorted@[k];
            assert(unsorted[m] == rank_of(veins@, *home, m));
        }
        assert forall|w: int| 0 <= w < veins@.len() implies sorted@.contains(
            #[trigger] rank_of(veins@, *home, w),
        ) by {
            assert(unsorted[w] == rank_of(veins@, *home, w));
            vstd::seq_lib::to_multiset_contains(sorted@, unsorted[w]);
            vstd::seq_lib::to_multiset_contains(unsorted, unsorted[w]);
            assert(unsorted.contains(unsorted[w]));
        }
    }
    Some(sorted)
}

} // verus!
