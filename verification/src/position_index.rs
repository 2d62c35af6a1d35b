//! A lookup from positions to indices, kept as hash maps keyed by one
//! coordinate each.

use crate::points::Point;
use std::collections::HashMap;
use vstd::prelude::*;

verus! {

broadcast use vstd::std_specs::hash::group_hash_axioms;

/// A map from positions to indices. A later entry for a position replaces
/// the earlier one.
pub struct PositionIndex {
    planes: HashMap<i64, HashMap<i64, HashMap<i64, usize>>>,
}

/// Whether the nested maps hold an entry for `p`.
spec fn holds(planes: Map<i64, HashMap<i64, HashMap<i64, usize>>>, p: Point) -> bool {
    &&& planes.contains_key(p.x)
    &&& planes[p.x]@.contains_key(p.y)
    &&& planes[p.x]@[p.y]@.contains_key(p.z)
}

/// The entry that the nested maps hold for `p`.
spec fn held(planes: Map<i64, HashMap<i64, HashMap<i64, usize>>>, p: Point) -> usize {
    planes[p.x]@[p.y]@[p.z]
}

impl View for PositionIndex {
    type V = Map<Point, usize>;

    closed spec fn view(&self) -> Map<Point, usize> {
        Map::new(|p: Point| holds(self.planes@, p), |p: Point| held(self.planes@, p))
    }
}

impl PositionIndex {
    /// An index without entries.
    pub fn new() -> (index: PositionIndex)
        ensures
            index@ == Map::<Point, usize>::empty(),
    {
        let index = PositionIndex { planes: HashMap::new() };
        assert(index@ =~= Map::<Point, usize>::empty());
        index
    }

    /// Sets the entry of `position` to `value`.
    pub fn insert(&mut self, position: &Point, value: usize)
        ensures
            final(self)@ == old(self)@.insert(*position, value),
    {
        let ghost before = self.planes@;
        let mut plane = match self.planes.remove(&position.x) {
            Some(plane) => plane,
            None => HashMap::new(),
        };
        let ghost plane_before = plane@;
        let mut line = match plane.remove(&position.y) {
            Some(line) => line,
            None => HashMap::new(),
        };
        let ghost line_before = line@;
        line.insert(position.z, value);
        plane.insert(position.y, line);
        self.planes.insert(position.x, plane);
        proof {
            let after = self.planes@;
            assert forall|p: Point| holds(after, p) == (p == *position || holds(before, p)) by {
                if p.x == position.x {
                    assert(after[p.x]@ == plane_before.insert(position.y, line));
                    if p.y == position.y {
                        assert(after[p.x]@[p.y]@ == line_before.insert(position.z, value));
                    }
                }
            }
            assert forall|p: Point| holds(after, p) implies held(after, p) == if p == *position {
                value
            } else {
                held(before, p)
            } by {
                if p.x == position.x {
                    assert(after[p.x]@ == plane_before.insert(position.y, line));
                    if p.y == position.y {
                        assert(after[p.x]@[p.y]@ == line_before.insert(position.z, value));
                    }
                }
            }
            assert(self@ =~= old(self)@.insert(*position, value));
        }
    }

    /// The entry of `position`, if there is one.
    pub fn get(&self, position: &Point) -> (value: Option<usize>)
        ensures
            value == if self@.contains_key(*position) {
                Some(self@[*position])
            } else {
                None::<usize>
            },
    {
        match self.planes.get(&position.x) {
            Some(plane) => match plane.get(&position.y) {
                Some(line) => match line.get(&position.z) {
                    Some(value) => Some(*value),
                    None => None,
                },
                None => None,
            },
            None => None,
        }
    }
}

} // verus!
