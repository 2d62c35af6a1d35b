//! Scan statistics: what one region scan counted and matched, and how the
//! results of several scans add up.

use crate::blocks::{block_models, BlockDescriptor, BlockModel};
use vstd::prelude::*;

verus! {

/// The counters of a scan and the blocks it matched.
pub struct ScanResult {
    pub regions: usize,
    pub chunks: usize,
    pub sections: usize,
    pub blocks: usize,
    pub found: Vec<BlockDescriptor>,
}

/// What a `ScanResult` holds, with unbounded counters.
pub struct ScanTotals {
    pub regions: nat,
    pub chunks: nat,
    pub sections: nat,
    pub blocks: nat,
    pub found: Seq<BlockModel>,
}

impl View for ScanResult {
    type V = ScanTotals;

    open spec fn view(&self) -> ScanTotals {
        ScanTotals {
            regions: self.regions as nat,
            chunks: self.chunks as nat,
            sections: self.sections as nat,
            blocks: self.blocks as nat,
            found: block_models(self.found@),
        }
    }
}

impl ScanTotals {
    /// The totals of a scan that saw nothing.
    pub open spec fn zero() -> ScanTotals {
        ScanTotals { regions: 0, chunks: 0, sections: 0, blocks: 0, found: Seq::empty() }
    }

    /// The totals of this scan followed by `other`: the counters added, the
    /// matches of `other` after those of this scan.
    pub open spec fn plus(self, other: ScanTotals) -> ScanTotals {
        ScanTotals {
            regions: self.regions + other.regions,
            chunks: self.chunks + other.chunks,
            sections: self.sections + other.sections,
            blocks: self.blocks + other.blocks,
            found: self.found + other.found,
        }
    }

    /// Whether every counter fits in `usize`.
    pub open spec fn fits(self) -> bool {
        &&& self.regions <= usize::MAX
        &&& self.chunks <= usize::MAX
        &&& self.sections <= usize::MAX
        &&& self.blocks <= usize::MAX
    }

    /// Whether two totals agree on all four counters.
    pub open spec fn same_counters(self, other: ScanTotals) -> bool {
        &&& self.regions == other.regions
        &&& self.chunks == other.chunks
        &&& self.sections == other.sections
        &&& self.blocks == other.blocks
    }
}

/// The totals of a list of scans, combined from the first to the last.
pub open spec fn combined(list: Seq<ScanTotals>) -> ScanTotals
    decreases list.len(),
{
    if list.len() == 0 {
        ScanTotals::zero()
    } else {
        combined(list.drop_last()).plus(list.last())
    }
}

/// The totals of a sequence of results, in the same order.
pub open spec fn totals_of(list: Seq<ScanResult>) -> Seq<ScanTotals> {
    list.map_values(|r: ScanResult| r@)
}

/// Combination has a neutral element: the scan that saw nothing.
pub proof fn lemma_plus_zero(a: ScanTotals)
    ensures
        a.plus(ScanTotals::zero()) == a,
        ScanTotals::zero().plus(a) == a,
{
    assert(a.found + Seq::<BlockModel>::empty() =~= a.found);
    assert(Seq::<BlockModel>::empty() + a.found =~= a.found);
}

/// Combination is associative, on the counters and on the list of matches.
pub proof fn lemma_plus_associative(a: ScanTotals, b: ScanTotals, c: ScanTotals)
    ensures
        a.plus(b).plus(c) == a.plus(b.plus(c)),
{
    assert((a.found + b.found) + c.found =~= a.found + (b.found + c.found));
}

/// Combination is commutative on all four counters, and the two orders match
/// the same blocks, each as often.
pub proof fn lemma_plus_commutative(a: ScanTotals, b: ScanTotals)
    ensures
        a.plus(b).same_counters(b.plus(a)),
        a.plus(b).found.to_multiset() == b.plus(a).found.to_multiset(),
{
    vstd::seq_lib::lemma_multiset_commutative(a.found, b.found);
    vstd::seq_lib::lemma_multiset_commutative(b.found, a.found);
    assert(a.found.to_multiset().add(b.found.to_multiset()) =~= b.found.to_multiset().add(
        a.found.to_multiset(),
    ));
}

/// Combining two lists one after the other is combining their combinations:
/// however a set of scans is split into groups, the totals are the same.
pub proof fn lemma_combined_concat(first: Seq<ScanTotals>, second: Seq<ScanTotals>)
    ensures
        combined(first + second) == combined(first).plus(combined(second)),
    decreases second.len(),
{
    if second.len() == 0 {
        assert(first + second =~= first);
        lemma_plus_zero(combined(first));
    } else {
        assert((first + second).drop_last() =~= first + second.drop_last());
        assert((first + second).last() == second.last());
        lemma_combined_concat(first, second.drop_last());
        lemma_plus_associative(combined(first), combined(second.drop_last()), second.last());
    }
}

/// The order in which two groups of scans are combined does not change the
/// counters, nor which blocks are matched and how often.
pub proof fn lemma_combined_order(first: Seq<ScanTotals>, second: Seq<ScanTotals>)
    ensures
        combined(first + second).same_counters(combined(second + first)),
        combined(first + second).found.to_multiset() == combined(
            second + first,
        ).found.to_multiset(),
{
    lemma_combined_concat(first, second);
    lemma_combined_concat(second, first);
    lemma_plus_commutative(combined(first), combined(second));
}

/// Whatever the order in which a set of scans is combined, the counters are
/// the same, and so are the matched blocks and how often each occurs.
pub proof fn lemma_combined_reordered(first: Seq<ScanTotals>, second: Seq<ScanTotals>)
    requires
        first.to_multiset() == second.to_multiset(),
    ensures
        combined(first).same_counters(combined(second)),
        combined(first).found.to_multiset() == combined(second).found.to_multiset(),
    decreases first.len(),
{
    vstd::seq_lib::to_multiset_len(first);
    vstd::seq_lib::to_multiset_len(second);
    if first.len() > 0 {
        let x = first.last();
        let rest = first.drop_last();
        assert(first =~= rest.push(x));
        vstd::seq_lib::to_multiset_build(rest, x);
        vstd::seq_lib::to_multiset_contains(first, x);
        vstd::seq_lib::to_multiset_contains(second, x);
        assert(first.contains(x));
        let i = choose|i: int| 0 <= i < second.len() && second[i] == x;
        let before = second.take(i);
        let after = second.skip(i + 1);
        let others = second.remove(i);
        vstd::seq_lib::to_multiset_remove(second, i);
        assert(rest.to_multiset() =~= first.to_multiset().remove(x));
        assert(others.to_multiset() =~= rest.to_multiset());
        lemma_combined_reordered(rest, others);
        assert(others =~= before + after);
        assert(second =~= before.push(x) + after);
        lemma_combined_concat(before, after);
        lemma_combined_concat(before.push(x), after);
        assert(before.push(x).drop_last() =~= before);
        let b = combined(before);
        let a = combined(after);
        vstd::seq_lib::lemma_multiset_commutative(b.found, a.found);
        vstd::seq_lib::lemma_multiset_commutative(b.found + x.found, a.found);
        vstd::seq_lib::lemma_multiset_commutative(b.found, x.found);
        vstd::seq_lib::lemma_multiset_commutative(combined(rest).found, x.found);
        assert(combined(second).found.to_multiset() =~= combined(others).found.to_multiset().add(
            x.found.to_multiset(),
        ));
    }
}

impl ScanResult {
    /// A result with all counters at zero and no match.
    pub fn new() -> (result: ScanResult)
        ensures
            result@ == ScanTotals::zero(),
            result.found@.len() == 0,
    {
        let result = ScanResult { regions: 0, chunks: 0, sections: 0, blocks: 0, found: Vec::new() };
        assert(result@.found =~= Seq::empty());
        result
    }

    /// Adds up the results of several scans: each counter is the sum over the
    /// list, and the matches follow each other in the order of the list.
    pub fn combine(list: Vec<ScanResult>) -> (summary: ScanResult)
        requires
            combined(totals_of(list@)).fits(),
        ensures
            summary@ == combined(totals_of(list@)),
    {
        match ScanResult::checked_combine(list) {
            Some(summary) => summary,
            None => ScanResult::new(),
        }
    }

    /// Adds up the results of several scans, or gives `None` where a sum
    /// does not fit in `usize`.
    pub fn checked_combine(list: Vec<ScanResult>) -> (summary: Option<ScanResult>)
        ensures
            summary is Some <==> combined(totals_of(list@)).fits(),
            summary matches Some(sum) ==> sum@ == combined(totals_of(list@)),
    {
        let mut summary = ScanResult::new();
        let mut i: usize = 0;
        while i < list.len()
            invariant
                i <= list.len(),
                summary@ == combined(totals_of(list@.take(i as int))),
            decreases list.len() - i,
        {
            proof {
                let done = totals_of(list@.take(i + 1));
                assert(done.drop_last() =~= totals_of(list@.take(i as int)));
                assert(done.last() == list@[i as int]@);
                let rest = totals_of(list@.skip(i + 1));
                assert(done + rest =~= totals_of(list@));
                lemma_combined_concat(done, rest);
            }
            let result = &list[i];
            if result.regions > usize::MAX - summary.regions || result.chunks > usize::MAX
                - summary.chunks || result.sections > usize::MAX - summary.sections
                || result.blocks > usize::MAX - summary.blocks {
                return None;
            }
            summary.regions = summary.regions + result.regions;
            summary.chunks = summary.chunks + result.chunks;
            summary.sections = summary.sections + result.sections;
            summary.blocks = summary.blocks + result.blocks;
            let mut j: usize = 0;
            let ghost before = summary.found@;
            let ghost counted = summary@;
            while j < result.found.len()
                invariant
                    j <= result.found.len(),
                    summary.found@ == before + result.found@.take(j as int),
                    summary@.same_counters(counted),
                decreases result.found.len() - j,
            {
                summary.found.push(result.found[j].clone());
                assert(result.found@.take(j + 1) =~= result.found@.take(j as int).push(
                    result.found@[j as int],
                ));
                j += 1;
            }
            assert(result.found@.take(j as int) =~= result.found@);
            assert(block_models(before + result.found@) =~= block_models(before) + block_models(
                result.found@,
            ));
            i += 1;
        }
        assert(list@.take(i as int) =~= list@);
        Some(summary)
    }

    /// Keeps the matches that `predicate` accepts, in their order; the
    /// counters stay.
    pub fn filtering_blocks<P: Fn(&BlockDescriptor) -> bool>(self, predicate: P) -> (result:
        ScanResult)
        requires
            forall|i: int|
                0 <= i < self.found@.len() ==> predicate.requires((&#[trigger] self.found@[i],)),
        ensures
            result.regions == self.regions,
            result.chunks == self.chunks,
            result.sections == self.sections,
            result.blocks == self.blocks,
            selected_by(predicate, self.found@, result.found@),
    {
        let mut kept: Vec<BlockDescriptor> = Vec::new();
        let mut i: usize = 0;
        while i < self.found.len()
            invariant
                i <= self.found.len(),
                selected_by(predicate, self.found@.take(i as int), kept@),
                forall|k: int|
                    0 <= k < self.found@.len() ==> predicate.requires(
                        (&#[trigger] self.found@[k],),
                    ),
            decreases self.found.len() - i,
        {
            let block = &self.found[i];
            let keep = predicate(block);
            proof {
                let next = self.found@.take(i + 1);
                assert(next.drop_last() =~= self.found@.take(i as int));
                assert(next.last() == *block);
            }
            if keep {
                let ghost before = kept@;
                kept.push(block.clone());
                assert(kept@.drop_last() =~= before);
            }
            i += 1;
        }
        assert(self.found@.take(i as int) =~= self.found@);
        ScanResult {
            regions: self.regions,
            chunks: self.chunks,
            sections: self.sections,
            blocks: self.blocks,
            found: kept,
        }
    }

    /// Replaces the matches by what `mapper` makes of them; the counters stay.
    pub fn replacing_blocks<F: FnOnce(Vec<BlockDescriptor>) -> Vec<BlockDescriptor>>(
        self,
        mapper: F,
    ) -> (result: ScanResult)
        requires
            mapper.requires((self.found,)),
        ensures
            result.regions == self.regions,
            result.chunks == self.chunks,
            result.sections == self.sections,
            result.blocks == self.blocks,
            mapper.ensures((self.found,), result.found),
    {
        ScanResult {
            regions: self.regions,
            chunks: self.chunks,
            sections: self.sections,
            blocks: self.blocks,
            found: mapper(self.found),
        }
    }
}

/// `output` is what is left of `input` when each block goes through
/// `predicate` in turn and stays exactly where the predicate may answer `true`
/// and has done so.
pub open spec fn selected_by<P: Fn(&BlockDescriptor) -> bool>(
    predicate: P,
    input: Seq<BlockDescriptor>,
    output: Seq<BlockDescriptor>,
) -> bool
    decreases input.len(),
{
    if input.len() == 0 {
        output.len() == 0
    } else {
        ||| {
            &&& predicate.ensures((&input.last(),), true)
            &&& output.len() > 0
            &&& output.last() == input.last()
            &&& selected_by(predicate, input.drop_last(), output.drop_last())
        }
        ||| {
            &&& predicate.ensures((&input.last(),), false)
            &&& selected_by(predicate, input.drop_last(), output)
        }
    }
}

} // verus!
