//! Disjoint sets of indices, kept by `partitions::PartitionVec`.
//!
//! The collection is trusted: what its methods do to the sets is stated here
//! from its source and believed, not proved. What is proved is that these
//! statements keep the sets a partition.

use partitions::PartitionVec;
use vstd::prelude::*;

verus! {

#[verifier::external_type_specification]
#[verifier::external_body]
#[verifier::reject_recursive_types(T)]
pub struct ExPartitionVec<T>(PartitionVec<T>);

/// For each index held by the collection, the set that the index is in.
pub uninterp spec fn partition_classes(sets: PartitionVec<usize>) -> Seq<Set<int>>;

/// `len` indices, each in a set of its own.
pub open spec fn singletons(len: nat) -> Seq<Set<int>> {
    Seq::new(len, |k: int| set![k])
}

/// The sets after those of `a` and `b` have been joined.
pub open spec fn merged(classes: Seq<Set<int>>, a: int, b: int) -> Seq<Set<int>> {
    Seq::new(
        classes.len(),
        |k: int|
            if classes[a].contains(k) || classes[b].contains(k) {
                classes[a].union(classes[b])
            } else {
                classes[k]
            },
    )
}

/// `members` lists one set: every index of the set once and nothing else.
pub open spec fn lists_class(members: Seq<usize>, classes: Seq<Set<int>>) -> bool {
    &&& members.len() > 0
    &&& members.no_duplicates()
    &&& forall|k: int| 0 <= k < members.len() ==> #[trigger] members[k] < classes.len()
    &&& forall|j: int|
        0 <= j < classes.len() ==> (classes[members[0] as int].contains(j) <==> exists|k: int|
            0 <= k < members.len() && #[trigger] members[k] == j)
}

/// Some set of the listing holds the index `j`.
pub open spec fn is_listed(listing: Seq<Vec<usize>>, j: int) -> bool {
    exists|s: int, k: int|
        0 <= s < listing.len() && 0 <= k < listing[s]@.len() && #[trigger] listing[s]@[k] == j
}

/// Some index of `earlier` lies below every index of `later`.
pub open spec fn starts_below(earlier: Seq<usize>, later: Seq<usize>) -> bool {
    exists|k: int|
        0 <= k < earlier.len() && forall|m: int|
            0 <= m < later.len() ==> #[trigger] earlier[k] < #[trigger] later[m]
}

/// Calls `PartitionVec::from_iter` on the indices below `len`. The contract
/// claims that the collection then holds `len` indices, each alone in its set.
#[verifier::external_body]
pub(crate) fn partition_new(len: usize) -> (sets: PartitionVec<usize>)
    ensures
        partition_classes(sets) == singletons(len as nat),
{
    (0..len).collect()
}

/// Calls `PartitionVec::union`, which panics on an index that is out of
/// bounds. The contract claims that the sets of the two indices become one
/// and the other sets stay.
#[verifier::external_body]
pub(crate) fn partition_union(sets: &mut PartitionVec<usize>, first: usize, second: usize)
    requires
        first < partition_classes(*old(sets)).len(),
        second < partition_classes(*old(sets)).len(),
    ensures
        partition_classes(*final(sets)) == merged(
            partition_classes(*old(sets)),
            first as int,
            second as int,
        ),
{
    sets.union(first, second)
}

/// Calls `PartitionVec::all_sets` and takes the index of each item that the
/// iterators hand out. The contract claims that each set is listed once, with
/// each of its indices once; that no index is left out; and that the sets come
/// in the order of their least index. The order inside a set is left open.
#[verifier::external_body]
pub(crate) fn partition_all_sets(sets: &PartitionVec<usize>) -> (listing: Vec<Vec<usize>>)
    ensures
        forall|s: int|
            0 <= s < listing@.len() ==> lists_class(
                (#[trigger] listing@[s])@,
                partition_classes(*sets),
            ),
        forall|j: int| 0 <= j < partition_classes(*sets).len() ==> #[trigger] is_listed(listing@, j),
        forall|s: int, t: int|
            0 <= s < t < listing@.len() ==> starts_below(
                (#[trigger] listing@[s])@,
                (#[trigger] listing@[t])@,
            ),
{
    sets.all_sets().map(|set| set.map(|(index, _)| index).collect()).collect()
}

} // verus!
