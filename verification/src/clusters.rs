//! Which matched blocks belong together: blocks of one name that touch at a
//! face, directly or through a chain of such blocks.

use crate::blocks::{block_models, BlockDescriptor, BlockModel};
use crate::partition::{
    is_listed, lists_class, merged, partition_all_sets, partition_classes, partition_new,
    partition_union, singletons, starts_below,
};
use crate::points::{face_adjacent, moved, step_in_range, Face, Point};
use crate::position_index::PositionIndex;
use partitions::PartitionVec;
use vstd::prelude::*;

verus! {

/// The index of the last block at position `p`, if a block stands there.
pub open spec fn last_at(blocks: Seq<BlockModel>, p: Point) -> Option<int>
    decreases blocks.len(),
{
    if blocks.len() == 0 {
        None
    } else if blocks.last().pos() == p {
        Some(blocks.len() - 1)
    } else {
        last_at(blocks.drop_last(), p)
    }
}

/// The block that block `i` is joined to through `face`: the last block at
/// the position one step through that face, if it has the name of block `i`.
pub open spec fn neighbor_through(blocks: Seq<BlockModel>, i: int, face: Face) -> Option<int> {
    if step_in_range(blocks[i].pos(), face) {
        match last_at(blocks, moved(blocks[i].pos(), face)) {
            Some(j) => if blocks[j].name == blocks[i].name {
                Some(j)
            } else {
                None
            },
            None => None,
        }
    } else {
        None
    }
}

/// Block `i` gives rise to a link from `a` to `b` through `face`: `a` is the
/// last block at the position of `i`, and `b` its neighbor through the face.
pub open spec fn link_from(blocks: Seq<BlockModel>, i: int, face: Face, a: int, b: int) -> bool {
    &&& 0 <= i < blocks.len()
    &&& last_at(blocks, blocks[i].pos()) == Some(a)
    &&& neighbor_through(blocks, i, face) == Some(b)
}

/// Some block gives rise to a link from `a` to `b`.
pub open spec fn linked(blocks: Seq<BlockModel>, a: int, b: int) -> bool {
    exists|i: int, face: Face| #[trigger] link_from(blocks, i, face, a, b)
}

/// `a` and `b` are linked, one way or the other.
pub open spec fn joined(blocks: Seq<BlockModel>, a: int, b: int) -> bool {
    linked(blocks, a, b) || linked(blocks, b, a)
}

/// A chain of blocks: each is joined to the next.
pub open spec fn is_chain(blocks: Seq<BlockModel>, chain: Seq<int>) -> bool {
    &&& chain.len() > 0
    &&& forall|k: int| 0 <= k < chain.len() ==> 0 <= #[trigger] chain[k] < blocks.len()
    &&& forall|k: int|
        0 <= k < chain.len() - 1 ==> joined(blocks, #[trigger] chain[k], chain[k + 1])
}

/// A chain leads from `a` to `b`.
pub open spec fn connected(blocks: Seq<BlockModel>, a: int, b: int) -> bool {
    exists|chain: Seq<int>|
        #[trigger] is_chain(blocks, chain) && chain[0] == a && chain.last() == b
}

/// `members` lists a whole component: the blocks that a chain connects to
/// its first member, each once.
pub open spec fn is_component(blocks: Seq<BlockModel>, members: Seq<usize>) -> bool {
    &&& members.len() > 0
    &&& members.no_duplicates()
    &&& forall|k: int| 0 <= k < members.len() ==> #[trigger] members[k] < blocks.len()
    &&& forall|j: int|
        0 <= j < blocks.len() ==> (connected(blocks, members[0] as int, j) <==> exists|k: int|
            0 <= k < members.len() && #[trigger] members[k] == j)
}

/// `listing` holds index `i`.
pub open spec fn lists_index(listing: Seq<Seq<usize>>, i: int) -> bool {
    exists|v: int, k: int|
        0 <= v < listing.len() && 0 <= k < listing[v].len() && #[trigger] listing[v][k] == i
}

/// `listing` is the list of veins of `blocks`: each entry lists a component
/// of two blocks or more, every block that is connected to another block is
/// listed, and the entries come in the order of their least index.
pub open spec fn is_vein_listing(blocks: Seq<BlockModel>, listing: Seq<Seq<usize>>) -> bool {
    &&& forall|v: int|
        0 <= v < listing.len() ==> is_component(blocks, #[trigger] listing[v]) && listing[v].len()
            >= 2
    &&& forall|i: int, j: int|
        0 <= i < blocks.len() && i != j && #[trigger] connected(blocks, i, j) ==> lists_index(
            listing,
            i,
        )
    &&& forall|v: int, w: int|
        0 <= v < w < listing.len() ==> starts_below(#[trigger] listing[v], #[trigger] listing[w])
}

/// What `last_at` finds is the last block at the position, and it finds one
/// wherever a block stands there.
pub proof fn lemma_last_at(blocks: Seq<BlockModel>, p: Point)
    ensures
        match last_at(blocks, p) {
            Some(j) => 0 <= j < blocks.len() && blocks[j].pos() == p && forall|k: int|
                j < k < blocks.len() ==> (#[trigger] blocks[k]).pos() != p,
            None => forall|k: int| 0 <= k < blocks.len() ==> (#[trigger] blocks[k]).pos() != p,
        },
    decreases blocks.len(),
{
    if blocks.len() > 0 {
        lemma_last_at(blocks.drop_last(), p);
        let rest = blocks.drop_last();
        assert forall|k: int| 0 <= k < rest.len() implies rest[k] == blocks[k] by {}
        if blocks.last().pos() != p {
            match last_at(rest, p) {
                Some(j) => {
                    assert forall|k: int| j < k < blocks.len() implies (#[trigger] blocks[k]).pos()
                        != p by {
                        if k < rest.len() {
                            assert(rest[k].pos() != p);
                        }
                    }
                },
                None => {
                    assert forall|k: int| 0 <= k < blocks.len() implies (#[trigger] blocks[k]).pos()
                        != p by {
                        if k < rest.len() {
                            assert(rest[k].pos() != p);
                        }
                    }
                },
            }
        }
    }
}

/// Every block is connected to itself.
pub proof fn lemma_connected_reflexive(blocks: Seq<BlockModel>, a: int)
    requires
        0 <= a < blocks.len(),
    ensures
        connected(blocks, a, a),
{
    let chain = seq![a];
    assert(is_chain(blocks, chain));
    assert(chain[0] == a && chain.last() == a);
}

/// Two joined blocks are connected.
pub proof fn lemma_joined_connected(blocks: Seq<BlockModel>, a: int, b: int)
    requires
        0 <= a < blocks.len(),
        0 <= b < blocks.len(),
        joined(blocks, a, b),
    ensures
        connected(blocks, a, b),
{
    let chain = seq![a, b];
    assert(is_chain(blocks, chain));
    assert(chain[0] == a && chain.last() == b);
}

/// A chain read backwards is a chain.
pub proof fn lemma_connected_symmetric(blocks: Seq<BlockModel>, a: int, b: int)
    requires
        connected(blocks, a, b),
    ensures
        connected(blocks, b, a),
{
    let chain = choose|chain: Seq<int>|
        #[trigger] is_chain(blocks, chain) && chain[0] == a && chain.last() == b;
    let n = chain.len() as int;
    let back = Seq::new(chain.len(), |k: int| chain[n - 1 - k]);
    assert forall|k: int| 0 <= k < back.len() implies 0 <= #[trigger] back[k] < blocks.len() by {
        assert(back[k] == chain[n - 1 - k]);
    }
    assert forall|k: int| 0 <= k < back.len() - 1 implies joined(
        blocks,
        #[trigger] back[k],
        back[k + 1],
    ) by {
        let m = n - 2 - k;
        assert(joined(blocks, chain[m], chain[m + 1]));
        assert(back[k] == chain[m + 1]);
        assert(back[k + 1] == chain[m]);
    }
    assert(is_chain(blocks, back));
    assert(back[0] == b && back.last() == a);
}

/// Two chains that meet make one chain.
pub proof fn lemma_connected_transitive(blocks: Seq<BlockModel>, a: int, b: int, c: int)
    requires
        connected(blocks, a, b),
        connected(blocks, b, c),
    ensures
        connected(blocks, a, c),
{
    let first = choose|chain: Seq<int>|
        #[trigger] is_chain(blocks, chain) && chain[0] == a && chain.last() == b;
    let second = choose|chain: Seq<int>|
        #[trigger] is_chain(blocks, chain) && chain[0] == b && chain.last() == c;
    let whole = first + second.skip(1);
    let n = first.len() as int;
    assert forall|k: int| 0 <= k < whole.len() implies 0 <= #[trigger] whole[k] < blocks.len() by {
        if k < n {
            assert(whole[k] == first[k]);
        } else {
            assert(whole[k] == second[k - n + 1]);
        }
    }
    assert forall|k: int| 0 <= k < whole.len() - 1 implies joined(
        blocks,
        #[trigger] whole[k],
        whole[k + 1],
    ) by {
        if k < n - 1 {
            assert(whole[k] == first[k]);
            assert(whole[k + 1] == first[k + 1]);
            assert(joined(blocks, first[k], first[k + 1]));
        } else {
            let m = k - n + 1;
            assert(whole[k + 1] == second[m + 1]);
            if m == 0 {
                assert(whole[k] == first[n - 1]);
                assert(first[n - 1] == second[0]);
            } else {
                assert(whole[k] == second[m]);
            }
            assert(joined(blocks, second[m], second[m + 1]));
        }
    }
    assert(is_chain(blocks, whole));
    if second.len() == 1 {
        assert(whole =~= first);
        assert(b == c);
    } else {
        assert(whole.last() == second.last());
    }
    assert(whole[0] == first[0]);
}

/// The sets of a partition follow the links: each block is in its own set,
/// the blocks of a set share that set, and a chain connects them.
pub open spec fn tracks(classes: Seq<Set<int>>, blocks: Seq<BlockModel>) -> bool {
    &&& classes.len() == blocks.len()
    &&& forall|k: int| 0 <= k < classes.len() ==> #[trigger] classes[k].contains(k)
    &&& forall|k: int, j: int|
        0 <= k < classes.len() && #[trigger] classes[k].contains(j) ==> 0 <= j < classes.len()
            && classes[j] == classes[k]
    &&& forall|k: int, j: int|
        0 <= k < classes.len() && #[trigger] classes[k].contains(j) ==> connected(blocks, k, j)
}

/// The links that the blocks below `upto` give rise to are within sets.
pub open spec fn covered(classes: Seq<Set<int>>, blocks: Seq<BlockModel>, upto: int) -> bool {
    forall|i: int, face: Face, a: int, b: int|
        0 <= i < upto && #[trigger] link_from(blocks, i, face, a, b) ==> classes[a].contains(b)
}

/// The sets of one partition lie within those of another.
pub open spec fn within(small: Seq<Set<int>>, large: Seq<Set<int>>) -> bool {
    &&& small.len() == large.len()
    &&& forall|k: int, j: int|
        0 <= k < small.len() && #[trigger] small[k].contains(j) ==> large[k].contains(j)
}

/// Blocks that stand alone in their sets follow the links.
pub proof fn lemma_singletons_track(blocks: Seq<BlockModel>)
    ensures
        tracks(singletons(blocks.len()), blocks),
{
    let classes = singletons(blocks.len());
    assert forall|k: int, j: int|
        0 <= k < classes.len() && #[trigger] classes[k].contains(j) implies connected(
        blocks,
        k,
        j,
    ) by {
        lemma_connected_reflexive(blocks, k);
    }
}

/// Two blocks connected to a third are connected to each other.
proof fn lemma_connected_through(blocks: Seq<BlockModel>, hub: int, a: int, b: int)
    requires
        connected(blocks, hub, a),
        connected(blocks, hub, b),
    ensures
        connected(blocks, a, b),
{
    lemma_connected_symmetric(blocks, hub, a);
    lemma_connected_transitive(blocks, a, hub, b);
}

/// Joining the sets of two joined blocks keeps the partition following the
/// links; no set shrinks, and the two blocks share a set.
pub proof fn lemma_union_tracks(classes: Seq<Set<int>>, blocks: Seq<BlockModel>, a: int, b: int)
    requires
        tracks(classes, blocks),
        0 <= a < blocks.len(),
        0 <= b < blocks.len(),
        joined(blocks, a, b),
    ensures
        tracks(merged(classes, a, b), blocks),
        within(classes, merged(classes, a, b)),
        merged(classes, a, b)[a].contains(b),
{
    let next = merged(classes, a, b);
    let both = classes[a].union(classes[b]);
    assert(classes[a].contains(a));
    assert(classes[b].contains(b));
    lemma_joined_connected(blocks, a, b);
    assert forall|x: int| both.contains(x) implies 0 <= x < classes.len() && connected(
        blocks,
        a,
        x,
    ) && next[x] == both by {
        if classes[a].contains(x) {
        } else {
            assert(classes[b].contains(x));
            lemma_connected_transitive(blocks, a, b, x);
        }
    }
    assert forall|k: int| 0 <= k < next.len() implies #[trigger] next[k].contains(k) by {
        assert(classes[k].contains(k));
    }
    assert forall|k: int, j: int| 0 <= k < next.len() && #[trigger] next[k].contains(j) implies 0
        <= j < next.len() && next[j] == next[k] && connected(blocks, k, j) by {
        if both.contains(k) {
            assert(next[k] == both);
            assert(both.contains(j));
            lemma_connected_through(blocks, a, k, j);
        } else {
            assert(next[k] == classes[k]);
            assert(classes[k].contains(j));
            if both.contains(j) {
                assert(classes[j] == classes[k]);
                if classes[a].contains(j) {
                    assert(classes[j] == classes[a]);
                } else {
                    assert(classes[j] == classes[b]);
                }
                assert(classes[k].contains(k));
                assert(false);
            }
        }
    }
    assert forall|k: int, j: int|
        0 <= k < classes.len() && #[trigger] classes[k].contains(j) implies next[k].contains(
        j,
    ) by {
        if both.contains(k) {
            assert(classes[j] == classes[k]);
            if classes[a].contains(k) {
                assert(classes[k] == classes[a]);
            } else {
                assert(classes[k] == classes[b]);
            }
        }
    }
}

/// Where every link is within a set, every chain stays within one set.
proof fn lemma_chain_stays(
    classes: Seq<Set<int>>,
    blocks: Seq<BlockModel>,
    chain: Seq<int>,
    m: int,
)
    requires
        tracks(classes, blocks),
        covered(classes, blocks, blocks.len() as int),
        is_chain(blocks, chain),
        0 <= m < chain.len(),
    ensures
        classes[chain[0]].contains(chain[m]),
    decreases m,
{
    if m == 0 {
        assert(classes[chain[0]].contains(chain[0]));
    } else {
        lemma_chain_stays(classes, blocks, chain, m - 1);
        let x = chain[m - 1];
        let y = chain[m];
        assert(joined(blocks, x, y));
        assert(classes[x] == classes[chain[0]]);
        if linked(blocks, x, y) {
            let (i, face) = choose|i: int, face: Face| #[trigger] link_from(blocks, i, face, x, y);
            assert(classes[x].contains(y));
        } else {
            let (i, face) = choose|i: int, face: Face| #[trigger] link_from(blocks, i, face, y, x);
            assert(classes[y].contains(x));
            assert(classes[x] == classes[y]);
            assert(classes[y].contains(y));
        }
    }
}

/// Where the partition follows the links and every link is within a set,
/// the sets are the components.
pub proof fn lemma_classes_are_components(classes: Seq<Set<int>>, blocks: Seq<BlockModel>)
    requires
        tracks(classes, blocks),
        covered(classes, blocks, blocks.len() as int),
    ensures
        forall|k: int, j: int|
            0 <= k < blocks.len() ==> (#[trigger] classes[k].contains(j) <==> connected(
                blocks,
                k,
                j,
            )),
{
    assert forall|k: int, j: int| 0 <= k < blocks.len() && connected(blocks, k, j) implies (
    #[trigger] classes[k].contains(j)) by {
        let chain = choose|chain: Seq<int>|
            #[trigger] is_chain(blocks, chain) && chain[0] == k && chain.last() == j;
        lemma_chain_stays(classes, blocks, chain, chain.len() - 1);
    }
}

/// The index holds, for each position, the last of the blocks that stand there.
pub open spec fn indexes(index: Map<Point, usize>, blocks: Seq<BlockModel>) -> bool {
    forall|p: Point|
        match #[trigger] last_at(blocks, p) {
            Some(j) => index.contains_key(p) && index[p] == j,
            None => !index.contains_key(p),
        }
}

/// The lookup from each position to the last block that stands there.
pub fn index_positions(blocks: &Vec<BlockDescriptor>) -> (index: PositionIndex)
    ensures
        indexes(index@, block_models(blocks@)),
{
    let ghost models = block_models(blocks@);
    let mut index = PositionIndex::new();
    let mut i: usize = 0;
    while i < blocks.len()
        invariant
            i <= blocks.len(),
            models == block_models(blocks@),
            indexes(index@, models.take(i as int)),
        decreases blocks.len() - i,
    {
        let ghost before = index@;
        let position = blocks[i].pos();
        index.insert(&position, i);
        proof {
            let next = models.take(i + 1);
            assert(next.drop_last() =~= models.take(i as int));
            assert(next.last() == models[i as int]);
            assert forall|p: Point|
                match #[trigger] last_at(next, p) {
                    Some(j) => index@.contains_key(p) && index@[p] == j,
                    None => !index@.contains_key(p),
                } by {
                if p != position {
                    assert(last_at(next, p) == last_at(models.take(i as int), p));
                }
            }
        }
        i += 1;
    }
    assert(models.take(i as int) =~= models);
    index
}

/// Joins block `i` to its neighbor through `face`, if it has one.
fn join_through(
    blocks: &Vec<BlockDescriptor>,
    index: &PositionIndex,
    sets: &mut PartitionVec<usize>,
    i: usize,
    face: Face,
)
    requires
        i < blocks@.len(),
        indexes(index@, block_models(blocks@)),
        tracks(partition_classes(*old(sets)), block_models(blocks@)),
    ensures
        tracks(partition_classes(*final(sets)), block_models(blocks@)),
        within(partition_classes(*old(sets)), partition_classes(*final(sets))),
        forall|a: int, b: int| #[trigger]
            link_from(block_models(blocks@), i as int, face, a, b) ==> partition_classes(
                *final(sets),
            )[a].contains(b),
{
    let ghost models = block_models(blocks@);
    let block = &blocks[i];
    let position = block.pos();
    proof {
        lemma_last_at(models, position);
        assert(models[i as int].pos() == position);
    }
    let first = match index.get(&position) {
        Some(first) => first,
        None => {
            return ;
        },
    };
    let target = match position.checked_move_toward(face) {
        Some(target) => target,
        None => {
            return ;
        },
    };
    proof {
        lemma_last_at(models, target);
    }
    let second = match index.get(&target) {
        Some(second) => second,
        None => {
            return ;
        },
    };
    if blocks[second].name == block.name {
        assert(models[second as int].name == models[i as int].name);
        assert(link_from(models, i as int, face, first as int, second as int));
        assert(joined(models, first as int, second as int));
        proof {
            lemma_union_tracks(
                partition_classes(*sets),
                models,
                first as int,
                second as int,
            );
        }
        partition_union(sets, first, second);
    }
}

/// The lists of a listing, as sequences.
pub open spec fn member_lists(listing: Seq<Vec<usize>>) -> Seq<Seq<usize>> {
    listing.map_values(|members: Vec<usize>| members@)
}

/// Joins every block to its neighbors through all six faces.
fn join_all(blocks: &Vec<BlockDescriptor>, index: &PositionIndex) -> (sets: PartitionVec<usize>)
    requires
        indexes(index@, block_models(blocks@)),
    ensures
        tracks(partition_classes(sets), block_models(blocks@)),
        covered(partition_classes(sets), block_models(blocks@), blocks@.len() as int),
{
    let ghost models = block_models(blocks@);
    let mut sets = partition_new(blocks.len());
    proof {
        lemma_singletons_track(models);
    }
    let mut i: usize = 0;
    while i < blocks.len()
        invariant
            i <= blocks.len(),
            models == block_models(blocks@),
            indexes(index@, models),
            tracks(partition_classes(sets), models),
            covered(partition_classes(sets), models, i as int),
        decreases blocks.len() - i,
    {
        let ghost start = partition_classes(sets);
        join_through(blocks, index, &mut sets, i, Face::Top);
        let ghost after_top = partition_classes(sets);
        join_through(blocks, index, &mut sets, i, Face::Bottom);
        let ghost after_bottom = partition_classes(sets);
        join_through(blocks, index, &mut sets, i, Face::Left);
        let ghost after_left = partition_classes(sets);
        join_through(blocks, index, &mut sets, i, Face::Right);
        let ghost after_right = partition_classes(sets);
        join_through(blocks, index, &mut sets, i, Face::Front);
        let ghost after_front = partition_classes(sets);
        join_through(blocks, index, &mut sets, i, Face::Back);
        let ghost end = partition_classes(sets);
        proof {
            assert forall|j: int, face: Face, a: int, b: int|
                0 <= j < i + 1 && #[trigger] link_from(models, j, face, a, b) implies end[a].contains(
                b,
            ) by {
                lemma_last_at(models, models[j].pos());
                assert(0 <= a < models.len());
                if j < i {
                    assert(start[a].contains(b));
                } else {
                    match face {
                        Face::Top => {
                            assert(after_top[a].contains(b));
                        },
                        Face::Bottom => {
                            assert(after_bottom[a].contains(b));
                        },
                        Face::Left => {
                            assert(after_left[a].contains(b));
                        },
                        Face::Right => {
                            assert(after_right[a].contains(b));
                        },
                        Face::Front => {
                            assert(after_front[a].contains(b));
                        },
                        Face::Back => {
                            assert(end[a].contains(b));
                        },
                    }
                }
                assert(after_top[a].contains(b) ==> after_bottom[a].contains(b));
                assert(after_bottom[a].contains(b) ==> after_left[a].contains(b));
                assert(after_left[a].contains(b) ==> after_right[a].contains(b));
                assert(after_right[a].contains(b) ==> after_front[a].contains(b));
                assert(after_front[a].contains(b) ==> end[a].contains(b));
                assert(start[a].contains(b) ==> after_top[a].contains(b));
            }
        }
        i += 1;
    }
    sets
}

/// A copy of a list of indices.
fn copy_members(members: &Vec<usize>) -> (copy: Vec<usize>)
    ensures
        copy@ == members@,
{
    let mut copy: Vec<usize> = Vec::new();
    let mut k: usize = 0;
    while k < members.len()
        invariant
            k <= members.len(),
            copy@ == members@.take(k as int),
        decreases members.len() - k,
    {
        copy.push(members[k]);
        assert(members@.take(k + 1) =~= members@.take(k as int).push(members@[k as int]));
        k += 1;
    }
    assert(members@.take(k as int) =~= members@);
    copy
}

/// The veins of a list of matched blocks, each as the list of the indices
/// of its blocks. Blocks of one name are joined where they touch at a face;
/// a vein is a whole component of two blocks or more. The veins come in the
/// order of their least index; the order inside a vein is left open. Where
/// several blocks stand at one position, the last of them stands for all.
pub fn vein_members(blocks: &Vec<BlockDescriptor>) -> (listing: Vec<Vec<usize>>)
    ensures
        is_vein_listing(block_models(blocks@), member_lists(listing@)),
{
    let ghost models = block_models(blocks@);
    let index = index_positions(blocks);
    let sets = join_all(blocks, &index);
    let ghost classes = partition_classes(sets);
    let all = partition_all_sets(&sets);
    proof {
        lemma_classes_are_components(classes, models);
    }
    let mut listing: Vec<Vec<usize>> = Vec::new();
    let ghost mut origin: Seq<int> = Seq::empty();
    let mut s: usize = 0;
    while s < all.len()
        invariant
            s <= all.len(),
            models == block_models(blocks@),
            classes.len() == models.len(),
            forall|t: int| 0 <= t < all@.len() ==> lists_class((#[trigger] all@[t])@, classes),
            forall|t: int, u: int|
                0 <= t < u < all@.len() ==> starts_below(
                    (#[trigger] all@[t])@,
                    (#[trigger] all@[u])@,
                ),
            origin.len() == listing@.len(),
            forall|v: int| 0 <= v < origin.len() ==> 0 <= #[trigger] origin[v] < s,
            forall|v: int, w: int| 0 <= v < w < origin.len() ==> origin[v] < origin[w],
            forall|v: int|
                0 <= v < listing@.len() ==> (#[trigger] listing@[v])@ == all@[origin[v]]@
                    && listing@[v]@.len() >= 2,
            forall|t: int|
                0 <= t < s && all@[t]@.len() >= 2 ==> exists|v: int|
                    0 <= v < origin.len() && #[trigger] origin[v] == t,
        decreases all.len() - s,
    {
        if all[s].len() > 1 {
            let copy = copy_members(&all[s]);
            let ghost old_origin = origin;
            let ghost old_listing = listing@;
            listing.push(copy);
            proof {
                origin = origin.push(s as int);
                assert forall|t: int| 0 <= t < s + 1 && all@[t]@.len() >= 2 implies exists|v: int|
                    0 <= v < origin.len() && #[trigger] origin[v] == t by {
                    if t < s {
                        let v = choose|v: int| 0 <= v < old_origin.len() && #[trigger] old_origin[v] == t;
                        assert(origin[v] == t);
                    } else {
                        assert(origin[old_origin.len() as int] == t);
                    }
                }
                assert forall|v: int| 0 <= v < listing@.len() implies (#[trigger] listing@[v])@
                    == all@[origin[v]]@ && listing@[v]@.len() >= 2 by {
                    if v < old_listing.len() {
                        assert(listing@[v] == old_listing[v]);
                        assert(origin[v] == old_origin[v]);
                    }
                }
            }
        }
        s += 1;
    }
    proof {
        let lists = member_lists(listing@);
        assert forall|v: int| 0 <= v < lists.len() implies is_component(models, #[trigger] lists[v])
            && lists[v].len() >= 2 by {
            let members = lists[v];
            assert(members == listing@[v]@);
            assert(lists_class(all@[origin[v]]@, classes));
            assert(members == all@[origin[v]]@);
            let head = members[0] as int;
            assert forall|j: int| 0 <= j < models.len() implies (connected(models, head, j)
                <==> exists|k: int| 0 <= k < members.len() && #[trigger] members[k] == j) by {
                assert(classes[head].contains(j) <==> connected(models, head, j));
            }
        }
        assert forall|i: int, j: int|
            0 <= i < models.len() && i != j && #[trigger] connected(models, i, j) implies lists_index(
            lists,
            i,
        ) by {
            assert(is_listed(all@, i));
            let (t, k) = choose|t: int, k: int|
                0 <= t < all@.len() && 0 <= k < all@[t]@.len() && #[trigger] all@[t]@[k] == i;
            let members = all@[t]@;
            assert(lists_class(members, classes));
            let head = members[0] as int;
            assert(classes[head].contains(i));
            assert(classes[i].contains(j));
            assert(classes[i] == classes[head]);
            assert(classes[head].contains(j));
            assert(connected(models, head, j));
            assert(classes[head].contains(j) ==> 0 <= j < classes.len()) by {
                lemma_classes_in_range(classes, models, head, j);
            }
            let k2 = choose|k2: int| 0 <= k2 < members.len() && #[trigger] members[k2] == j;
            assert(k2 != k);
            assert(members.len() >= 2);
            let v = choose|v: int| 0 <= v < origin.len() && #[trigger] origin[v] == t;
            assert(lists[v] == listing@[v]@);
            assert(lists[v][k] == i);
        }
        assert forall|v: int, w: int| 0 <= v < w < lists.len() implies starts_below(
            #[trigger] lists[v],
            #[trigger] lists[w],
        ) by {
            assert(lists[v] == all@[origin[v]]@);
            assert(lists[w] == all@[origin[w]]@);
            assert(origin[v] < origin[w]);
        }
    }
    listing
}

/// What a set of a partition that follows the links holds is an index.
proof fn lemma_classes_in_range(classes: Seq<Set<int>>, blocks: Seq<BlockModel>, k: int, j: int)
    requires
        tracks(classes, blocks),
        0 <= k < classes.len(),
        classes[k].contains(j),
    ensures
        0 <= j < classes.len(),
{
}

/// No two blocks stand at one position.
pub open spec fn distinct_positions(blocks: Seq<BlockModel>) -> bool {
    forall|i: int, j: int|
        0 <= i < j < blocks.len() ==> (#[trigger] blocks[i]).pos() != (#[trigger] blocks[j]).pos()
}

/// Blocks `a` and `b` have one name and touch at a face.
pub open spec fn touching(blocks: Seq<BlockModel>, a: int, b: int) -> bool {
    face_adjacent(blocks[a].pos(), blocks[b].pos()) && blocks[a].name == blocks[b].name
}

/// Where no two blocks share a position, each block is the last at its own.
pub proof fn lemma_last_at_own(blocks: Seq<BlockModel>, i: int)
    requires
        distinct_positions(blocks),
        0 <= i < blocks.len(),
    ensures
        last_at(blocks, blocks[i].pos()) == Some(i),
{
    lemma_last_at(blocks, blocks[i].pos());
}

/// Where no two blocks share a position, a link from `a` to `b` means that
/// the two have one name and touch at a face.
proof fn lemma_linked_is_touching(blocks: Seq<BlockModel>, a: int, b: int)
    requires
        distinct_positions(blocks),
        0 <= a < blocks.len(),
        0 <= b < blocks.len(),
    ensures
        linked(blocks, a, b) <==> touching(blocks, a, b),
{
    let pa = blocks[a].pos();
    let pb = blocks[b].pos();
    if linked(blocks, a, b) {
        let (i, face) = choose|i: int, face: Face| #[trigger] link_from(blocks, i, face, a, b);
        lemma_last_at_own(blocks, i);
        assert(i == a);
        lemma_last_at(blocks, moved(pa, face));
        assert(pb == moved(pa, face));
        assert(face_adjacent(pa, pb));
    }
    if touching(blocks, a, b) {
        let face = if pa.x - pb.x == 1 {
            Face::Left
        } else if pa.x - pb.x == -1 {
            Face::Right
        } else if pa.y - pb.y == 1 {
            Face::Bottom
        } else if pa.y - pb.y == -1 {
            Face::Top
        } else if pa.z - pb.z == 1 {
            Face::Back
        } else {
            Face::Front
        };
        assert(step_in_range(pa, face));
        assert(moved(pa, face) == pb);
        lemma_last_at_own(blocks, a);
        lemma_last_at_own(blocks, b);
        assert(link_from(blocks, a, face, a, b));
    }
}

/// Where no two blocks share a position, two blocks are joined exactly
/// where they have one name and touch at a face.
pub proof fn lemma_joined_is_touching(blocks: Seq<BlockModel>, a: int, b: int)
    requires
        distinct_positions(blocks),
        0 <= a < blocks.len(),
        0 <= b < blocks.len(),
    ensures
        joined(blocks, a, b) <==> touching(blocks, a, b),
{
    lemma_linked_is_touching(blocks, a, b);
    lemma_linked_is_touching(blocks, b, a);
}

/// Two different blocks that a chain connects are listed in one vein.
pub proof fn lemma_connected_share_a_vein(
    blocks: Seq<BlockModel>,
    listing: Seq<Seq<usize>>,
    i: int,
    j: int,
)
    requires
        is_vein_listing(blocks, listing),
        0 <= i < blocks.len(),
        0 <= j < blocks.len(),
        i != j,
        connected(blocks, i, j),
    ensures
        exists|v: int, k: int, m: int|
            0 <= v < listing.len() && 0 <= k < listing[v].len() && 0 <= m < listing[v].len()
                && #[trigger] listing[v][k] == i && #[trigger] listing[v][m] == j,
{
    assert(lists_index(listing, i));
    let (v, k) = choose|v: int, k: int|
        0 <= v < listing.len() && 0 <= k < listing[v].len() && #[trigger] listing[v][k] == i;
    let members = listing[v];
    assert(is_component(blocks, members));
    let head = members[0] as int;
    assert(connected(blocks, head, i));
    lemma_connected_transitive(blocks, head, i, j);
    let m = choose|m: int| 0 <= m < members.len() && #[trigger] members[m] == j;
    assert(listing[v][k] == i && listing[v][m] == j);
}

/// Two blocks of one name that touch at a face are listed in one vein, where
/// no two blocks share a position.
pub proof fn lemma_touching_share_a_vein(
    blocks: Seq<BlockModel>,
    listing: Seq<Seq<usize>>,
    i: int,
    j: int,
)
    requires
        distinct_positions(blocks),
        is_vein_listing(blocks, listing),
        0 <= i < blocks.len(),
        0 <= j < blocks.len(),
        touching(blocks, i, j),
    ensures
        exists|v: int, k: int, m: int|
            0 <= v < listing.len() && 0 <= k < listing[v].len() && 0 <= m < listing[v].len()
                && #[trigger] listing[v][k] == i && #[trigger] listing[v][m] == j,
{
    lemma_joined_is_touching(blocks, i, j);
    lemma_joined_connected(blocks, i, j);
    lemma_connected_share_a_vein(blocks, listing, i, j);
}

/// The blocks of a vein are connected: a chain leads from each to each, and
/// every step of it is to a joined block. Blocks that no chain connects, such
/// as two that touch only at an edge or a corner, are in no common vein.
pub proof fn lemma_vein_is_chained(
    blocks: Seq<BlockModel>,
    listing: Seq<Seq<usize>>,
    v: int,
    k: int,
    m: int,
)
    requires
        is_vein_listing(blocks, listing),
        0 <= v < listing.len(),
        0 <= k < listing[v].len(),
        0 <= m < listing[v].len(),
    ensures
        connected(blocks, listing[v][k] as int, listing[v][m] as int),
{
    let members = listing[v];
    assert(is_component(blocks, members));
    let head = members[0] as int;
    assert(members[k] < blocks.len());
    assert(members[m] < blocks.len());
    assert(connected(blocks, head, members[k] as int));
    assert(connected(blocks, head, members[m] as int));
    lemma_connected_symmetric(blocks, head, members[k] as int);
    lemma_connected_transitive(blocks, members[k] as int, head, members[m] as int);
}

/// Two blocks that no chain connects are listed in no common vein.
pub proof fn lemma_unconnected_share_no_vein(
    blocks: Seq<BlockModel>,
    listing: Seq<Seq<usize>>,
    v: int,
    k: int,
    m: int,
)
    requires
        is_vein_listing(blocks, listing),
        0 <= v < listing.len(),
        0 <= k < listing[v].len(),
        !connected(blocks, listing[v][k] as int, listing[v][m] as int),
    ensures
        !(0 <= m < listing[v].len()),
{
    if 0 <= m < listing[v].len() {
        lemma_vein_is_chained(blocks, listing, v, k, m);
    }
}

/// A block that is joined to no block is listed in no vein.
pub proof fn lemma_unjoined_is_in_no_vein(blocks: Seq<BlockModel>, listing: Seq<Seq<usize>>, i: int)
    requires
        is_vein_listing(blocks, listing),
        0 <= i < blocks.len(),
        forall|j: int| 0 <= j < blocks.len() ==> !#[trigger] joined(blocks, i, j),
    ensures
        !lists_index(listing, i),
{
    if lists_index(listing, i) {
        let (v, k) = choose|v: int, k: int|
            0 <= v < listing.len() && 0 <= k < listing[v].len() && #[trigger] listing[v][k] == i;
        let members = listing[v];
        assert(is_component(blocks, members) && members.len() >= 2);
        let m = if k == 0 {
            1int
        } else {
            0int
        };
        assert(members[m] != members[k]);
        lemma_vein_is_chained(blocks, listing, v, k, m);
        let other = members[m] as int;
        let chain = choose|chain: Seq<int>|
            #[trigger] is_chain(blocks, chain) && chain[0] == i && chain.last() == other;
        assert(chain.len() >= 2);
        assert(joined(blocks, chain[0], chain[1]));
        assert(0 <= chain[1] < blocks.len());
        assert(false);
    }
}

/// A block without a neighbor of its name at any of its faces is listed in
/// no vein, where no two blocks share a position.
pub proof fn lemma_lone_block_is_in_no_vein(
    blocks: Seq<BlockModel>,
    listing: Seq<Seq<usize>>,
    i: int,
)
    requires
        distinct_positions(blocks),
        is_vein_listing(blocks, listing),
        0 <= i < blocks.len(),
        forall|j: int| 0 <= j < blocks.len() ==> !#[trigger] touching(blocks, i, j),
    ensures
        !lists_index(listing, i),
{
    assert forall|j: int| 0 <= j < blocks.len() implies !#[trigger] joined(blocks, i, j) by {
        lemma_joined_is_touching(blocks, i, j);
        assert(!touching(blocks, i, j));
    }
    lemma_unjoined_is_in_no_vein(blocks, listing, i);
}

} // verus!
