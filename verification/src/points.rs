//! Integer positions in world-block coordinates, and the six faces of a block.

use vstd::prelude::*;

verus! {

/// A position in world-block coordinates.
#[derive(Clone, Copy, PartialEq, Eq, Debug, Hash, Structural)]
pub struct Point {
    pub x: i64,
    pub y: i64,
    pub z: i64,
}

/// One of the six faces of a block.
#[derive(Clone, Copy, PartialEq, Eq, Debug, Structural)]
pub enum Face {
    Top,
    Bottom,
    Left,
    Right,
    Front,
    Back,
}

/// The unit step that leads through `face`, as `(dx, dy, dz)`.
pub open spec fn face_delta(face: Face) -> (int, int, int) {
    match face {
        Face::Top => (0, 1, 0),
        Face::Bottom => (0, -1, 0),
        Face::Left => (-1, 0, 0),
        Face::Right => (1, 0, 0),
        Face::Front => (0, 0, 1),
        Face::Back => (0, 0, -1),
    }
}

/// The coordinates one step from `p` through `face`, as unbounded integers.
pub open spec fn stepped(p: Point, face: Face) -> (int, int, int) {
    (p.x + face_delta(face).0, p.y + face_delta(face).1, p.z + face_delta(face).2)
}

/// Whether the position one step from `p` through `face` has `i64` coordinates.
pub open spec fn step_in_range(p: Point, face: Face) -> bool {
    &&& i64::MIN <= stepped(p, face).0 <= i64::MAX
    &&& i64::MIN <= stepped(p, face).1 <= i64::MAX
    &&& i64::MIN <= stepped(p, face).2 <= i64::MAX
}

/// The position one step from `p` through `face`, where it is in range.
pub open spec fn moved(p: Point, face: Face) -> Point {
    Point { x: stepped(p, face).0 as i64, y: stepped(p, face).1 as i64, z: stepped(p, face).2 as i64 }
}

/// Two positions share a face: they differ by exactly one on exactly one axis.
pub open spec fn face_adjacent(a: Point, b: Point) -> bool {
    let dx = a.x - b.x;
    let dy = a.y - b.y;
    let dz = a.z - b.z;
    ||| (dx == 1 || dx == -1) && dy == 0 && dz == 0
    ||| dx == 0 && (dy == 1 || dy == -1) && dz == 0
    ||| dx == 0 && dy == 0 && (dz == 1 || dz == -1)
}

/// The six faces in the order in which `neighbors` visits them.
pub open spec fn faces() -> Seq<Face> {
    seq![Face::Top, Face::Bottom, Face::Left, Face::Right, Face::Front, Face::Back]
}

/// `dx² + dy² + dz²` between two positions.
pub open spec fn squared_distance(a: Point, b: Point) -> int {
    (a.x - b.x) * (a.x - b.x) + (a.y - b.y) * (a.y - b.y) + (a.z - b.z) * (a.z - b.z)
}

/// `r` is the square root of `n`, truncated toward zero.
pub open spec fn is_truncated_sqrt(n: int, r: int) -> bool {
    0 <= r && r * r <= n < (r + 1) * (r + 1)
}

/// The square root of `n`, truncated toward zero.
pub open spec fn truncated_root(n: int) -> int {
    choose|r: int| is_truncated_sqrt(n, r)
}

/// The Euclidean distance between two positions, truncated toward zero.
pub open spec fn distance(a: Point, b: Point) -> int {
    truncated_root(squared_distance(a, b))
}

/// The least squared distance whose truncated root no longer fits in `i64`.
pub open spec fn distance_limit() -> int {
    0x4000_0000_0000_0000_0000_0000_0000_0000
}

/// The truncated square root is unique.
pub proof fn lemma_truncated_sqrt_unique(n: int, r: int, s: int)
    requires
        is_truncated_sqrt(n, r),
        is_truncated_sqrt(n, s),
    ensures
        r == s,
{
    if r < s {
        assert((r + 1) * (r + 1) <= s * s) by (nonlinear_arith)
            requires
                0 <= r + 1 <= s,
        ;
    }
    if s < r {
        assert((s + 1) * (s + 1) <= r * r) by (nonlinear_arith)
            requires
                0 <= s + 1 <= r,
        ;
    }
}

/// Two positions whose coordinates differ by less than 2^62 on each axis
/// have a distance that fits in `i64`.
pub proof fn lemma_distance_in_reach(a: Point, b: Point)
    requires
        -0x4000_0000_0000_0000 < a.x - b.x < 0x4000_0000_0000_0000,
        -0x4000_0000_0000_0000 < a.y - b.y < 0x4000_0000_0000_0000,
        -0x4000_0000_0000_0000 < a.z - b.z < 0x4000_0000_0000_0000,
    ensures
        0 <= squared_distance(a, b) < distance_limit(),
{
    let bound: int = 0x4000_0000_0000_0000;
    let dx = a.x - b.x;
    let dy = a.y - b.y;
    let dz = a.z - b.z;
    assert(0 <= dx * dx <= bound * bound) by (nonlinear_arith)
        requires
            -bound < dx < bound,
    ;
    assert(0 <= dy * dy <= bound * bound) by (nonlinear_arith)
        requires
            -bound < dy < bound,
    ;
    assert(0 <= dz * dz <= bound * bound) by (nonlinear_arith)
        requires
            -bound < dz < bound,
    ;
    assert(bound * bound == 0x1000_0000_0000_0000_0000_0000_0000_0000) by (nonlinear_arith)
        requires
            bound == 0x4000_0000_0000_0000,
    ;
}

proof fn lemma_square_monotone(a: int, b: int)
    requires
        0 <= a <= b,
    ensures
        a * a <= b * b,
{
    assert(a * a <= b * b) by (nonlinear_arith)
        requires
            0 <= a <= b,
    ;
}

/// The absolute difference of two coordinates.
fn axis_gap(a: i64, b: i64) -> (gap: u128)
    ensures
        gap == if a >= b {
            a - b
        } else {
            b - a
        },
        gap < 0x1_0000_0000_0000_0000,
{
    if a >= b {
        (a as i128 - b as i128) as u128
    } else {
        (b as i128 - a as i128) as u128
    }
}

/// The truncated square root of `n`, for `n` below `distance_limit()`.
fn truncated_sqrt(n: u128) -> (r: u64)
    requires
        n < distance_limit(),
    ensures
        is_truncated_sqrt(n as int, r as int),
        r <= i64::MAX,
{
    let mut low: u128 = 0;
    let mut high: u128 = 0x8000_0000_0000_0000;
    assert(0x8000_0000_0000_0000int * 0x8000_0000_0000_0000int == distance_limit());
    while high - low > 1
        invariant
            low < high <= 0x8000_0000_0000_0000,
            low * low <= n < high * high,
        decreases high - low,
    {
        let mid: u128 = low + (high - low) / 2;
        proof {
            lemma_square_monotone(mid as int, 0x8000_0000_0000_0000);
        }
        if mid * mid <= n {
            low = mid;
        } else {
            high = mid;
        }
    }
    low as u64
}

impl Point {
    /// The origin.
    pub fn zero() -> (origin: Point)
        ensures
            origin == (Point { x: 0, y: 0, z: 0 }),
    {
        Point { x: 0, y: 0, z: 0 }
    }

    /// The distance to `other` when it fits in `i64`, `None` when it does not.
    pub fn checked_distance_to(&self, other: &Point) -> (distance: Option<i64>)
        ensures
            distance is Some <==> squared_distance(*self, *other) < distance_limit(),
            distance matches Some(d) ==> is_truncated_sqrt(
                squared_distance(*self, *other),
                d as int,
            ) && d == self::distance(*self, *other),
    {
        let dx = axis_gap(self.x, other.x);
        let dy = axis_gap(self.y, other.y);
        let dz = axis_gap(self.z, other.z);
        let half: u128 = 0x8000_0000_0000_0000;
        assert(0x8000_0000_0000_0000int * 0x8000_0000_0000_0000int == distance_limit());
        proof {
            assert(dx * dx == (self.x - other.x) * (self.x - other.x)) by (nonlinear_arith)
                requires
                    dx == self.x - other.x || dx == other.x - self.x,
            ;
            assert(dy * dy == (self.y - other.y) * (self.y - other.y)) by (nonlinear_arith)
                requires
                    dy == self.y - other.y || dy == other.y - self.y,
            ;
            assert(dz * dz == (self.z - other.z) * (self.z - other.z)) by (nonlinear_arith)
                requires
                    dz == self.z - other.z || dz == other.z - self.z,
            ;
            assert(0 <= dy * dy && 0 <= dz * dz && 0 <= dx * dx) by (nonlinear_arith);
            if dx >= half {
                lemma_square_monotone(half as int, dx as int);
            } else {
                lemma_square_monotone(dx as int, half - 1);
            }
            if dy >= half {
                lemma_square_monotone(half as int, dy as int);
            } else {
                lemma_square_monotone(dy as int, half - 1);
            }
            if dz >= half {
                lemma_square_monotone(half as int, dz as int);
            } else {
                lemma_square_monotone(dz as int, half - 1);
            }
        }
        if dx >= half || dy >= half || dz >= half {
            return None;
        }
        let total: u128 = dx * dx + dy * dy + dz * dz;
        if total >= 0x4000_0000_0000_0000_0000_0000_0000_0000 {
            return None;
        }
        let root = truncated_sqrt(total);
        proof {
            lemma_truncated_sqrt_unique(
                total as int,
                root as int,
                truncated_root(total as int),
            );
        }
        Some(root as i64)
    }

    /// The Euclidean distance to `other`, truncated toward zero.
    pub fn distance_to(&self, other: &Point) -> (distance: i64)
        requires
            squared_distance(*self, *other) < distance_limit(),
        ensures
            is_truncated_sqrt(squared_distance(*self, *other), distance as int),
            distance == self::distance(*self, *other),
    {
        match self.checked_distance_to(other) {
            Some(distance) => distance,
            None => 0,
        }
    }

    /// Whether `point` lies at most `threshold` beyond this position on every axis.
    pub fn is_near(&self, point: &Point, threshold: &Point) -> (near: bool)
        ensures
            near == (point.x - self.x <= threshold.x && point.y - self.y <= threshold.y && point.z
                - self.z <= threshold.z),
    {
        point.x as i128 - self.x as i128 <= threshold.x as i128 && point.y as i128 - self.y as i128
            <= threshold.y as i128 && point.z as i128 - self.z as i128 <= threshold.z as i128
    }

    /// The position one step through `face`, or `None` where a coordinate
    /// would leave the range of `i64`.
    pub fn checked_move_toward(&self, face: Face) -> (target: Option<Point>)
        ensures
            target is Some <==> step_in_range(*self, face),
            target matches Some(p) ==> p == moved(*self, face),
    {
        let (dx, dy, dz): (i64, i64, i64) = match face {
            Face::Top => (0, 1, 0),
            Face::Bottom => (0, -1, 0),
            Face::Left => (-1, 0, 0),
            Face::Right => (1, 0, 0),
            Face::Front => (0, 0, 1),
            Face::Back => (0, 0, -1),
        };
        let x = self.x as i128 + dx as i128;
        let y = self.y as i128 + dy as i128;
        let z = self.z as i128 + dz as i128;
        let low = i64::MIN as i128;
        let high = i64::MAX as i128;
        if low <= x && x <= high && low <= y && y <= high && low <= z && z <= high {
            Some(Point { x: x as i64, y: y as i64, z: z as i64 })
        } else {
            None
        }
    }

    /// The position one step through `face`.
    pub fn move_toward(&self, face: Face) -> (target: Point)
        requires
            step_in_range(*self, face),
        ensures
            target == moved(*self, face),
    {
        match self.checked_move_toward(face) {
            Some(target) => target,
            None => *self,
        }
    }

    /// The six positions that touch one of this block's faces.
    pub fn neighbors(&self) -> (around: Vec<Point>)
        requires
            forall|face: Face| step_in_range(*self, face),
        ensures
            around@.len() == 6,
            forall|i: int| 0 <= i < 6 ==> around@[i] == moved(*self, #[trigger] faces()[i]),
    {
        let mut around: Vec<Point> = Vec::new();
        around.push(self.move_toward(Face::Top));
        around.push(self.move_toward(Face::Bottom));
        around.push(self.move_toward(Face::Left));
        around.push(self.move_toward(Face::Right));
        around.push(self.move_toward(Face::Front));
        around.push(self.move_toward(Face::Back));
        around
    }
}

impl From<i64> for Point {
    fn from(val: i64) -> (point: Point) {
        Point { x: val, y: val, z: val }
    }
}

impl vstd::std_specs::convert::FromSpecImpl<i64> for Point {
    open spec fn obeys_from_spec() -> bool {
        true
    }

    open spec fn from_spec(val: i64) -> Point {
        Point { x: val, y: val, z: val }
    }
}

} // verus!
