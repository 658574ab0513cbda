//! Points and axis-aligned boxes on the integer lattice.

use vstd::prelude::*;

verus! {

/// One of the three coordinate axes.
#[derive(Clone, Copy, Debug, PartialEq, Eq, Structural)]
pub enum Axis {
    X,
    Y,
    Z,
}

/// A point of the lattice.
#[derive(Clone, Copy, Debug, PartialEq, Eq, Structural)]
pub struct Point3 {
    pub x: i32,
    pub y: i32,
    pub z: i32,
}

/// The smaller of two coordinates.
pub open spec fn min_i32(a: i32, b: i32) -> i32 {
    if a <= b {
        a
    } else {
        b
    }
}

/// The larger of two coordinates.
pub open spec fn max_i32(a: i32, b: i32) -> i32 {
    if a >= b {
        a
    } else {
        b
    }
}

impl Point3 {
    /// The coordinate of the point along `axis`.
    pub open spec fn coord(self, axis: Axis) -> int {
        match axis {
            Axis::X => self.x as int,
            Axis::Y => self.y as int,
            Axis::Z => self.z as int,
        }
    }

    /// The componentwise minimum of two points.
    pub open spec fn lower(self, other: Point3) -> Point3 {
        Point3 {
            x: min_i32(self.x, other.x),
            y: min_i32(self.y, other.y),
            z: min_i32(self.z, other.z),
        }
    }

    /// The componentwise maximum of two points.
    pub open spec fn upper(self, other: Point3) -> Point3 {
        Point3 {
            x: max_i32(self.x, other.x),
            y: max_i32(self.y, other.y),
            z: max_i32(self.z, other.z),
        }
    }

    /// Whether every coordinate of `self` is at most that of `other`.
    pub open spec fn le(self, other: Point3) -> bool {
        self.x <= other.x && self.y <= other.y && self.z <= other.z
    }

    pub fn new(x: i32, y: i32, z: i32) -> (p: Point3)
        ensures
            p == (Point3 { x, y, z }),
    {
        Point3 { x, y, z }
    }

    pub fn get(&self, axis: Axis) -> (c: i32)
        ensures
            c == self.coord(axis),
    {
        match axis {
            Axis::X => self.x,
            Axis::Y => self.y,
            Axis::Z => self.z,
        }
    }

    pub fn min(&self, other: &Point3) -> (p: Point3)
        ensures
            p == self.lower(*other),
    {
        Point3 {
            x: if self.x <= other.x { self.x } else { other.x },
            y: if self.y <= other.y { self.y } else { other.y },
            z: if self.z <= other.z { self.z } else { other.z },
        }
    }

    pub fn max(&self, other: &Point3) -> (p: Point3)
        ensures
            p == self.upper(*other),
    {
        Point3 {
            x: if self.x >= other.x { self.x } else { other.x },
            y: if self.y >= other.y { self.y } else { other.y },
            z: if self.z >= other.z { self.z } else { other.z },
        }
    }
}

/// An axis-aligned bounding box, given by its two extreme corners.
///
/// A box whose `min` exceeds its `max` along some axis holds no point. The
/// canonical such box, `Aabb3::empty()`, is the neutral element of `union`.
#[derive(Clone, Copy, Debug, PartialEq, Eq, Structural)]
pub struct Aabb3 {
    pub min: Point3,
    pub max: Point3,
}

impl Aabb3 {
    /// The box that holds nothing and that every union absorbs.
    pub open spec fn empty_spec() -> Aabb3 {
        Aabb3 {
            min: Point3 { x: i32::MAX, y: i32::MAX, z: i32::MAX },
            max: Point3 { x: i32::MIN, y: i32::MIN, z: i32::MIN },
        }
    }

    /// The box that holds exactly `p`.
    pub open spec fn point_spec(p: Point3) -> Aabb3 {
        Aabb3 { min: p, max: p }
    }

    /// The smallest box that holds both `self` and `other`.
    pub open spec fn union_spec(self, other: Aabb3) -> Aabb3 {
        Aabb3 { min: self.min.lower(other.min), max: self.max.upper(other.max) }
    }

    /// The smallest box that holds `self` and the point `p`.
    pub open spec fn grow_spec(self, p: Point3) -> Aabb3 {
        self.union_spec(Aabb3::point_spec(p))
    }

    /// Whether `other` lies inside `self`, corner by corner.
    pub open spec fn contains_box(self, other: Aabb3) -> bool {
        self.min.le(other.min) && other.max.le(self.max)
    }

    /// Whether `p` lies inside `self`.
    pub open spec fn contains_point(self, p: Point3) -> bool {
        self.min.le(p) && p.le(self.max)
    }

    /// Whether the box holds at least one point.
    pub open spec fn is_inhabited(self) -> bool {
        self.min.le(self.max)
    }

    /// The side length of the box along `axis`; negative for a box that
    /// holds nothing along it.
    pub open spec fn extent_spec(self, axis: Axis) -> int {
        self.max.coord(axis) - self.min.coord(axis)
    }

    /// The axis along which the box is longest. Ties go to the earlier axis.
    pub open spec fn longest_axis_spec(self) -> Axis {
        let ex = self.extent_spec(Axis::X);
        let ey = self.extent_spec(Axis::Y);
        let ez = self.extent_spec(Axis::Z);
        if ex >= ey && ex >= ez {
            Axis::X
        } else if ey >= ez {
            Axis::Y
        } else {
            Axis::Z
        }
    }

    /// The lattice point nearest below the middle of the box.
    pub open spec fn centroid_spec(self) -> Point3 {
        Point3 {
            x: ((self.min.x + self.max.x) / 2) as i32,
            y: ((self.min.y + self.max.y) / 2) as i32,
            z: ((self.min.z + self.max.z) / 2) as i32,
        }
    }

    pub fn new(min: Point3, max: Point3) -> (b: Aabb3)
        ensures
            b == (Aabb3 { min, max }),
    {
        Aabb3 { min, max }
    }

    pub fn empty() -> (b: Aabb3)
        ensures
            b == Aabb3::empty_spec(),
    {
        Aabb3 {
            min: Point3 { x: i32::MAX, y: i32::MAX, z: i32::MAX },
            max: Point3 { x: i32::MIN, y: i32::MIN, z: i32::MIN },
        }
    }

    pub fn union(&self, other: &Aabb3) -> (b: Aabb3)
        ensures
            b == self.union_spec(*other),
            b.contains_box(*self),
            b.contains_box(*other),
    {
        Aabb3 { min: self.min.min(&other.min), max: self.max.max(&other.max) }
    }

    pub fn grow(&self, p: &Point3) -> (b: Aabb3)
        ensures
            b == self.grow_spec(*p),
            b.contains_box(*self),
            b.contains_point(*p),
    {
        Aabb3 { min: self.min.min(p), max: self.max.max(p) }
    }

    pub fn contains(&self, other: &Aabb3) -> (inside: bool)
        ensures
            inside == self.contains_box(*other),
    {
        self.min.x <= other.min.x && self.min.y <= other.min.y && self.min.z <= other.min.z
            && other.max.x <= self.max.x && other.max.y <= self.max.y && other.max.z
            <= self.max.z
    }

    pub fn extent(&self, axis: Axis) -> (e: i64)
        ensures
            e == self.extent_spec(axis),
    {
        self.max.get(axis) as i64 - self.min.get(axis) as i64
    }

    pub fn longest_axis(&self) -> (axis: Axis)
        ensures
            axis == self.longest_axis_spec(),
    {
        let ex = self.extent(Axis::X);
        let ey = self.extent(Axis::Y);
        let ez = self.extent(Axis::Z);
        if ex >= ey && ex >= ez {
            Axis::X
        } else if ey >= ez {
            Axis::Y
        } else {
            Axis::Z
        }
    }

    pub fn centroid(&self) -> (c: Point3)
        ensures
            c == self.centroid_spec(),
            self.is_inhabited() ==> self.contains_point(c),
    {
        Point3 {
            x: midpoint(self.min.x, self.max.x),
            y: midpoint(self.min.y, self.max.y),
            z: midpoint(self.min.z, self.max.z),
        }
    }
}

/// The mean of two coordinates, rounded towards negative infinity.
fn midpoint(a: i32, b: i32) -> (m: i32)
    ensures
        m == (a + b) / 2,
        a <= b ==> a <= m <= b,
{
    let sum: i64 = a as i64 + b as i64;
    let half: i64 = if sum >= 0 || sum % 2 == 0 {
        sum / 2
    } else {
        sum / 2 - 1
    };
    half as i32
}

/// A union holds both of its operands, and nothing smaller does.
pub proof fn lemma_union_is_least_upper_bound(a: Aabb3, b: Aabb3, c: Aabb3)
    ensures
        a.union_spec(b).contains_box(a),
        a.union_spec(b).contains_box(b),
        c.contains_box(a) && c.contains_box(b) ==> c.contains_box(a.union_spec(b)),
{
}

/// Union is commutative, associative and idempotent, and the empty box is
/// neutral for it.
pub proof fn lemma_union_algebra(a: Aabb3, b: Aabb3, c: Aabb3)
    ensures
        a.union_spec(b) == b.union_spec(a),
        a.union_spec(b).union_spec(c) == a.union_spec(b.union_spec(c)),
        a.union_spec(a) == a,
        Aabb3::empty_spec().union_spec(a) == a,
        a.union_spec(Aabb3::empty_spec()) == a,
{
}

/// Containment of boxes is reflexive and transitive.
pub proof fn lemma_contains_transitive(a: Aabb3, b: Aabb3, c: Aabb3)
    ensures
        a.contains_box(a),
        a.contains_box(b) && b.contains_box(c) ==> a.contains_box(c),
{
}

} // verus!
