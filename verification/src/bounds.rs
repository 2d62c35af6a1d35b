//! Axis-aligned boxes with inclusive corners.

use crate::points::Point;
use crate::text::{decimal, i128_to_string};
use vstd::prelude::*;

verus! {

/// An axis-aligned box: every position between `min` and `max`, both included.
#[derive(Clone, Copy, PartialEq, Eq, Debug, Structural)]
pub struct Bounds {
    pub min: Point,
    pub max: Point,
}

/// The middle between two coordinates: `low + (high - low) / 2`, the division
/// rounding down.
pub open spec fn middle(low: int, high: int) -> int {
    low + (high - low) / 2
}

/// The text of a position inside a pair of parentheses.
pub open spec fn point_text(p: Point) -> Seq<char> {
    "("@ + decimal(p.x as int) + ", "@ + decimal(p.y as int) + ", "@ + decimal(p.z as int) + ")"@
}

impl Bounds {
    /// The center of the box, as unbounded coordinates.
    pub open spec fn center_spec(self) -> (int, int, int) {
        (
            middle(self.min.x as int, self.max.x as int),
            middle(self.min.y as int, self.max.y as int),
            middle(self.min.z as int, self.max.z as int),
        )
    }

    /// Whether `point` lies in the box.
    pub open spec fn contains_spec(self, point: Point) -> bool {
        &&& self.min.x <= point.x <= self.max.x
        &&& self.min.y <= point.y <= self.max.y
        &&& self.min.z <= point.z <= self.max.z
    }

    /// Whether the box grown by `amount` still has `i64` corners.
    pub open spec fn can_expand(self, amount: Point) -> bool {
        &&& i64::MIN <= self.min.x - amount.x <= i64::MAX
        &&& i64::MIN <= self.min.y - amount.y <= i64::MAX
        &&& i64::MIN <= self.min.z - amount.z <= i64::MAX
        &&& i64::MIN <= self.max.x + amount.x <= i64::MAX
        &&& i64::MIN <= self.max.y + amount.y <= i64::MAX
        &&& i64::MIN <= self.max.z + amount.z <= i64::MAX
    }

    /// The text of the box: its two corners with an arrow between them.
    pub open spec fn text(self) -> Seq<char> {
        point_text(self.min) + " -> "@ + point_text(self.max)
    }

    /// The box that holds the origin and nothing else.
    pub fn zero() -> (bounds: Bounds)
        ensures
            bounds.min == (Point { x: 0, y: 0, z: 0 }),
            bounds.max == (Point { x: 0, y: 0, z: 0 }),
    {
        Bounds { min: Point::zero(), max: Point::zero() }
    }

    /// The center of the box: on each axis `min + (max - min) / 2`, the
    /// division rounding down.
    pub fn center(&self) -> (c: Point)
        ensures
            (c.x as int, c.y as int, c.z as int) == self.center_spec(),
    {
        Point {
            x: midpoint(self.min.x, self.max.x),
            y: midpoint(self.min.y, self.max.y),
            z: midpoint(self.min.z, self.max.z),
        }
    }

    /// The box that holds `point` and nothing else.
    pub fn from_point(point: &Point) -> (bounds: Bounds)
        ensures
            bounds.min == *point,
            bounds.max == *point,
    {
        Bounds { min: *point, max: *point }
    }

    /// The box with each face moved outward by `amount` along its axis.
    pub fn expand(&self, amount: &Point) -> (grown: Bounds)
        requires
            self.can_expand(*amount),
        ensures
            grown.min.x == self.min.x - amount.x,
            grown.min.y == self.min.y - amount.y,
            grown.min.z == self.min.z - amount.z,
            grown.max.x == self.max.x + amount.x,
            grown.max.y == self.max.y + amount.y,
            grown.max.z == self.max.z + amount.z,
    {
        Bounds {
            min: Point {
                x: self.min.x - amount.x,
                y: self.min.y - amount.y,
                z: self.min.z - amount.z,
            },
            max: Point {
                x: self.max.x + amount.x,
                y: self.max.y + amount.y,
                z: self.max.z + amount.z,
            },
        }
    }

    /// The box grown by `amount`, or `None` where a corner would leave the
    /// range of `i64`.
    pub fn checked_expand(&self, amount: &Point) -> (grown: Option<Bounds>)
        ensures
            grown is Some <==> self.can_expand(*amount),
            grown matches Some(b) ==> {
                &&& b.min.x == self.min.x - amount.x
                &&& b.min.y == self.min.y - amount.y
                &&& b.min.z == self.min.z - amount.z
                &&& b.max.x == self.max.x + amount.x
                &&& b.max.y == self.max.y + amount.y
                &&& b.max.z == self.max.z + amount.z
            },
    {
        if fits_i64(self.min.x as i128 - amount.x as i128) && fits_i64(
            self.min.y as i128 - amount.y as i128,
        ) && fits_i64(self.min.z as i128 - amount.z as i128) && fits_i64(
            self.max.x as i128 + amount.x as i128,
        ) && fits_i64(self.max.y as i128 + amount.y as i128) && fits_i64(
            self.max.z as i128 + amount.z as i128,
        ) {
            Some(self.expand(amount))
        } else {
            None
        }
    }

    /// Whether `point` lies in the box, its faces included.
    pub fn contains(&self, point: &Point) -> (inside: bool)
        ensures
            inside == self.contains_spec(*point),
    {
        point.x >= self.min.x && point.x <= self.max.x && point.y >= self.min.y && point.y
            <= self.max.y && point.z >= self.min.z && point.z <= self.max.z
    }

    /// The box as text: `(minx, miny, minz) -> (maxx, maxy, maxz)`.
    pub fn to_string(&self) -> (text: String)
        ensures
            text@ == self.text(),
    {
        let mut text = point_string(&self.min);
        text.append(" -> ");
        let max = point_string(&self.max);
        text.append(max.as_str());
        text
    }
}

/// Whether a wide number is in the range of `i64`.
fn fits_i64(n: i128) -> (fits: bool)
    ensures
        fits == (i64::MIN <= n <= i64::MAX),
{
    i64::MIN as i128 <= n && n <= i64::MAX as i128
}

/// The middle between two coordinates, the division rounding down.
fn midpoint(low: i64, high: i64) -> (mid: i64)
    ensures
        mid == middle(low as int, high as int),
{
    let gap: i128 = high as i128 - low as i128;
    let half: i128 = if gap >= 0 {
        gap / 2
    } else {
        -((1 - gap) / 2)
    };
    (low as i128 + half) as i64
}

/// A position as text inside a pair of parentheses.
fn point_string(p: &Point) -> (text: String)
    ensures
        text@ == point_text(*p),
{
    let mut text = String::from_str("(");
    let x = i128_to_string(p.x as i128);
    text.append(x.as_str());
    text.append(", ");
    let y = i128_to_string(p.y as i128);
    text.append(y.as_str());
    text.append(", ");
    let z = i128_to_string(p.z as i128);
    text.append(z.as_str());
    text.append(")");
    text
}

} // verus!
