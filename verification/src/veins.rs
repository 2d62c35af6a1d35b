//! Veins: connected groups of matched blocks of one name, with the box
//! that bounds them.

use crate::blocks::{block_models, BlockDescriptor, BlockModel};
use crate::bounds::{middle, Bounds};
use crate::clusters::{is_vein_listing, member_lists, vein_members};
use crate::points::Point;
use std::cmp::Ordering;
use vstd::prelude::*;

verus! {

/// A vein: its blocks, the box around them, and the center of that box.
#[derive(Debug, PartialEq, Eq)]
pub struct Vein {
    pub center: Point,
    pub bounds: Bounds,
    pub blocks: Vec<BlockDescriptor>,
}

/// The least of a sequence of coordinates; `i64::MAX` for the empty sequence.
pub open spec fn lowest(values: Seq<i64>) -> i64
    decreases values.len(),
{
    if values.len() == 0 {
        i64::MAX
    } else if values.last() < lowest(values.drop_last()) {
        values.last()
    } else {
        lowest(values.drop_last())
    }
}

/// The greatest of a sequence of coordinates; `i64::MIN` for the empty sequence.
pub open spec fn highest(values: Seq<i64>) -> i64
    decreases values.len(),
{
    if values.len() == 0 {
        i64::MIN
    } else if values.last() > highest(values.drop_last()) {
        values.last()
    } else {
        highest(values.drop_last())
    }
}

/// The x coordinates of a sequence of blocks.
pub open spec fn xs(blocks: Seq<BlockModel>) -> Seq<i64> {
    blocks.map_values(|b: BlockModel| b.x)
}

/// The y coordinates of a sequence of blocks.
pub open spec fn ys(blocks: Seq<BlockModel>) -> Seq<i64> {
    blocks.map_values(|b: BlockModel| b.y)
}

/// The z coordinates of a sequence of blocks.
pub open spec fn zs(blocks: Seq<BlockModel>) -> Seq<i64> {
    blocks.map_values(|b: BlockModel| b.z)
}

/// The box around a sequence of blocks: on each axis from the least to the
/// greatest coordinate.
pub open spec fn bounds_of(blocks: Seq<BlockModel>) -> Bounds {
    Bounds {
        min: Point { x: lowest(xs(blocks)), y: lowest(ys(blocks)), z: lowest(zs(blocks)) },
        max: Point { x: highest(xs(blocks)), y: highest(ys(blocks)), z: highest(zs(blocks)) },
    }
}

/// The center of a box, as a position.
pub open spec fn center_of(bounds: Bounds) -> Point {
    Point {
        x: middle(bounds.min.x as int, bounds.max.x as int) as i64,
        y: middle(bounds.min.y as int, bounds.max.y as int) as i64,
        z: middle(bounds.min.z as int, bounds.max.z as int) as i64,
    }
}

/// The least of a non-empty sequence is one of its values and none lies below it.
pub proof fn lemma_lowest(values: Seq<i64>)
    requires
        values.len() > 0,
    ensures
        forall|k: int| 0 <= k < values.len() ==> lowest(values) <= #[trigger] values[k],
        exists|k: int| 0 <= k < values.len() && #[trigger] values[k] == lowest(values),
    decreases values.len(),
{
    let rest = values.drop_last();
    if rest.len() > 0 {
        lemma_lowest(rest);
        let k = choose|k: int| 0 <= k < rest.len() && #[trigger] rest[k] == lowest(rest);
        assert(values[k] == rest[k]);
        assert forall|j: int| 0 <= j < values.len() implies lowest(values) <= #[trigger] values[j] by {
            if j < rest.len() {
                assert(rest[j] == values[j]);
            }
        }
        if lowest(values) == lowest(rest) {
            assert(values[k] == lowest(values));
        } else {
            assert(values[values.len() - 1] == lowest(values));
        }
    } else {
        assert(lowest(rest) == i64::MAX);
        assert(values[values.len() - 1] == lowest(values));
    }
}

/// The greatest of a non-empty sequence is one of its values and none lies above it.
pub proof fn lemma_highest(values: Seq<i64>)
    requires
        values.len() > 0,
    ensures
        forall|k: int| 0 <= k < values.len() ==> highest(values) >= #[trigger] values[k],
        exists|k: int| 0 <= k < values.len() && #[trigger] values[k] == highest(values),
    decreases values.len(),
{
    let rest = values.drop_last();
    if rest.len() > 0 {
        lemma_highest(rest);
        let k = choose|k: int| 0 <= k < rest.len() && #[trigger] rest[k] == highest(rest);
        assert(values[k] == rest[k]);
        assert forall|j: int| 0 <= j < values.len() implies highest(values) >= #[trigger] values[j] by {
            if j < rest.len() {
                assert(rest[j] == values[j]);
            }
        }
        if highest(values) == highest(rest) {
            assert(values[k] == highest(values));
        } else {
            assert(values[values.len() - 1] == highest(values));
        }
    } else {
        assert(highest(rest) == i64::MIN);
        assert(values[values.len() - 1] == highest(values));
    }
}

/// The box around a non-empty group of blocks holds each of them, and on
/// each of its six faces lies one of them: the box is exactly the least and
/// the greatest coordinate on each axis.
pub proof fn lemma_bounds_are_tight(blocks: Seq<BlockModel>)
    requires
        blocks.len() > 0,
    ensures
        forall|k: int|
            0 <= k < blocks.len() ==> bounds_of(blocks).contains_spec((#[trigger] blocks[k]).pos()),
        exists|k: int| 0 <= k < blocks.len() && (#[trigger] blocks[k]).x == bounds_of(blocks).min.x,
        exists|k: int| 0 <= k < blocks.len() && (#[trigger] blocks[k]).y == bounds_of(blocks).min.y,
        exists|k: int| 0 <= k < blocks.len() && (#[trigger] blocks[k]).z == bounds_of(blocks).min.z,
        exists|k: int| 0 <= k < blocks.len() && (#[trigger] blocks[k]).x == bounds_of(blocks).max.x,
        exists|k: int| 0 <= k < blocks.len() && (#[trigger] blocks[k]).y == bounds_of(blocks).max.y,
        exists|k: int| 0 <= k < blocks.len() && (#[trigger] blocks[k]).z == bounds_of(blocks).max.z,
{
    lemma_lowest(xs(blocks));
    lemma_lowest(ys(blocks));
    lemma_lowest(zs(blocks));
    lemma_highest(xs(blocks));
    lemma_highest(ys(blocks));
    lemma_highest(zs(blocks));
    let b = bounds_of(blocks);
    assert forall|k: int| 0 <= k < blocks.len() implies b.contains_spec(
        (#[trigger] blocks[k]).pos(),
    ) by {
        assert(xs(blocks)[k] == blocks[k].x);
        assert(ys(blocks)[k] == blocks[k].y);
        assert(zs(blocks)[k] == blocks[k].z);
    }
    let k = choose|k: int| 0 <= k < blocks.len() && #[trigger] xs(blocks)[k] == lowest(xs(blocks));
    assert(blocks[k].x == b.min.x);
    let k = choose|k: int| 0 <= k < blocks.len() && #[trigger] ys(blocks)[k] == lowest(ys(blocks));
    assert(blocks[k].y == b.min.y);
    let k = choose|k: int| 0 <= k < blocks.len() && #[trigger] zs(blocks)[k] == lowest(zs(blocks));
    assert(blocks[k].z == b.min.z);
    let k = choose|k: int| 0 <= k < blocks.len() && #[trigger] xs(blocks)[k] == highest(xs(blocks));
    assert(blocks[k].x == b.max.x);
    let k = choose|k: int| 0 <= k < blocks.len() && #[trigger] ys(blocks)[k] == highest(ys(blocks));
    assert(blocks[k].y == b.max.y);
    let k = choose|k: int| 0 <= k < blocks.len() && #[trigger] zs(blocks)[k] == highest(zs(blocks));
    assert(blocks[k].z == b.max.z);
}

impl Clone for Vein {
    fn clone(&self) -> (copy: Self)
        ensures
            copy.center == self.center,
            copy.bounds == self.bounds,
            copy.blocks@ == self.blocks@,
    {
        let mut blocks: Vec<BlockDescriptor> = Vec::new();
        let mut k: usize = 0;
        while k < self.blocks.len()
            invariant
                k <= self.blocks.len(),
                blocks@ == self.blocks@.take(k as int),
            decreases self.blocks.len() - k,
        {
            blocks.push(self.blocks[k].clone());
            assert(self.blocks@.take(k + 1) =~= self.blocks@.take(k as int).push(
                self.blocks@[k as int],
            ));
            k += 1;
        }
        assert(self.blocks@.take(k as int) =~= self.blocks@);
        Vein { center: self.center, bounds: self.bounds, blocks }
    }
}

impl Vein {
    /// The vein is as a computation of its bounds leaves it: the box is the
    /// box around its blocks, and the center is the center of that box.
    pub open spec fn is_bounded(self) -> bool {
        &&& self.bounds == bounds_of(block_models(self.blocks@))
        &&& self.center == center_of(self.bounds)
    }

    /// A vein of the given blocks; its bounds are still to be computed.
    pub fn from_iter(blocks: Vec<BlockDescriptor>) -> (vein: Vein)
        ensures
            vein.blocks == blocks,
            vein.center == (Point { x: 0, y: 0, z: 0 }),
            vein.bounds == (Bounds {
                min: Point { x: 0, y: 0, z: 0 },
                max: Point { x: 0, y: 0, z: 0 },
            }),
    {
        Vein { center: Point::zero(), bounds: Bounds::zero(), blocks }
    }

    /// The vein with its bounds and its center computed from its blocks.
    pub fn with_computed_bounds(self) -> (vein: Vein)
        ensures
            vein.blocks == self.blocks,
            vein.is_bounded(),
    {
        let bounds = self.compute_bounds();
        let center = bounds.center();
        Vein { center, bounds, blocks: self.blocks }
    }

    /// The box around the blocks of the vein: on each axis from the least to
    /// the greatest coordinate of a block.
    pub fn compute_bounds(&self) -> (bounds: Bounds)
        ensures
            bounds == bounds_of(block_models(self.blocks@)),
    {
        let ghost models = block_models(self.blocks@);
        let mut min_x = i64::MAX;
        let mut min_y = i64::MAX;
        let mut min_z = i64::MAX;
        let mut max_x = i64::MIN;
        let mut max_y = i64::MIN;
        let mut max_z = i64::MIN;
        let mut k: usize = 0;
        assert(models.take(0) =~= Seq::<BlockModel>::empty());
        while k < self.blocks.len()
            invariant
                k <= self.blocks.len(),
                models == block_models(self.blocks@),
                min_x == lowest(xs(models.take(k as int))),
                min_y == lowest(ys(models.take(k as int))),
                min_z == lowest(zs(models.take(k as int))),
                max_x == highest(xs(models.take(k as int))),
                max_y == highest(ys(models.take(k as int))),
                max_z == highest(zs(models.take(k as int))),
            decreases self.blocks.len() - k,
        {
            let block = &self.blocks[k];
            proof {
                let next = models.take(k + 1);
                let done = models.take(k as int);
                assert(next.drop_last() =~= done);
                assert(xs(next).drop_last() =~= xs(done));
                assert(ys(next).drop_last() =~= ys(done));
                assert(zs(next).drop_last() =~= zs(done));
                assert(xs(next).last() == block.x);
                assert(ys(next).last() == block.y);
                assert(zs(next).last() == block.z);
            }
            if block.x < min_x {
                min_x = block.x;
            }
            if block.y < min_y {
                min_y = block.y;
            }
            if block.z < min_z {
                min_z = block.z;
            }
            if block.x > max_x {
                max_x = block.x;
            }
            if block.y > max_y {
                max_y = block.y;
            }
            if block.z > max_z {
                max_z = block.z;
            }
            k += 1;
        }
        assert(models.take(k as int) =~= models);
        Bounds {
            min: Point { x: min_x, y: min_y, z: min_z },
            max: Point { x: max_x, y: max_y, z: max_z },
        }
    }
}

/// `vein` holds the blocks of `input` that `members` lists, in that order,
/// with the box around them and its center.
pub open spec fn vein_holds(input: Seq<BlockDescriptor>, vein: Vein, members: Seq<usize>) -> bool {
    &&& vein.blocks@.len() == members.len()
    &&& forall|k: int|
        0 <= k < members.len() ==> #[trigger] vein.blocks@[k] == input[members[k] as int]
    &&& vein.is_bounded()
}

/// `veins` are the veins of `input`, and `listing` says which blocks each holds.
pub open spec fn veins_of(input: Seq<BlockDescriptor>, veins: Seq<Vein>, listing: Seq<Seq<usize>>) -> bool {
    &&& is_vein_listing(block_models(input), listing)
    &&& veins.len() == listing.len()
    &&& forall|v: int| 0 <= v < veins.len() ==> vein_holds(input, #[trigger] veins[v], listing[v])
}

/// The blocks of `input` at the listed indices, in the order of the list.
fn gather(input: &Vec<BlockDescriptor>, members: &Vec<usize>) -> (blocks: Vec<BlockDescriptor>)
    requires
        forall|k: int| 0 <= k < members@.len() ==> #[trigger] members@[k] < input@.len(),
    ensures
        blocks@.len() == members@.len(),
        forall|k: int|
            0 <= k < members@.len() ==> #[trigger] blocks@[k] == input@[members@[k] as int],
{
    let mut blocks: Vec<BlockDescriptor> = Vec::new();
    let mut k: usize = 0;
    while k < members.len()
        invariant
            k <= members.len(),
            blocks@.len() == k,
            forall|j: int| 0 <= j < members@.len() ==> #[trigger] members@[j] < input@.len(),
            forall|j: int| 0 <= j < k ==> #[trigger] blocks@[j] == input@[members@[j] as int],
        decreases members.len() - k,
    {
        blocks.push(input[members[k]].clone());
        k += 1;
    }
    blocks
}

/// Groups matched blocks into veins. Blocks of one name that touch at a face
/// belong to one vein, directly or through a chain of such blocks; a block
/// that is joined to no other makes no vein. Each vein has the box around its
/// blocks and the center of that box. The veins come in the order of the
/// first of their blocks in `blocks`.
pub fn find_veins(blocks: Vec<BlockDescriptor>) -> (veins: Vec<Vein>)
    ensures
        exists|listing: Seq<Seq<usize>>| veins_of(blocks@, veins@, listing),
{
    let listing = vein_members(&blocks);
    let ghost lists = member_lists(listing@);
    let mut veins: Vec<Vein> = Vec::new();
    let mut v: usize = 0;
    while v < listing.len()
        invariant
            v <= listing.len(),
            lists == member_lists(listing@),
            is_vein_listing(block_models(blocks@), lists),
            veins@.len() == v,
            forall|w: int| 0 <= w < v ==> vein_holds(blocks@, #[trigger] veins@[w], lists[w]),
        decreases listing.len() - v,
    {
        let members = &listing[v];
        assert(lists[v as int] == members@);
        assert(crate::clusters::is_component(block_models(blocks@), lists[v as int]));
        let chosen = gather(&blocks, members);
        let vein = Vein::from_iter(chosen).with_computed_bounds();
        veins.push(vein);
        v += 1;
    }
    assert(veins_of(blocks@, veins@, lists));
    veins
}

/// How two sizes compare.
pub open spec fn size_order(a: nat, b: nat) -> Ordering {
    if a < b {
        Ordering::Less
    } else if a > b {
        Ordering::Greater
    } else {
        Ordering::Equal
    }
}

impl Vein {
    /// Compares two veins by the number of their blocks.
    pub fn cmp(&self, other: &Self) -> (order: Ordering)
        ensures
            order == size_order(self.blocks@.len(), other.blocks@.len()),
    {
        if self.blocks.len() < other.blocks.len() {
            Ordering::Less
        } else if self.blocks.len() > other.blocks.len() {
            Ordering::Greater
        } else {
            Ordering::Equal
        }
    }
}

impl PartialOrd for Vein {
    fn partial_cmp(&self, other: &Self) -> (order: Option<Ordering>) {
        Some(self.cmp(other))
    }
}

impl vstd::std_specs::cmp::PartialOrdSpecImpl for Vein {
    open spec fn obeys_partial_cmp_spec() -> bool {
        true
    }

    open spec fn partial_cmp_spec(&self, other: &Self) -> Option<Ordering> {
        Some(size_order(self.blocks@.len(), other.blocks@.len()))
    }
}

} // verus!
