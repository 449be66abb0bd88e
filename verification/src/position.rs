//! The coordinate type of the board: an immutable 2D integer point.

use core::cmp::Ordering;

use vstd::prelude::*;

verus! {

/// An immutable two-dimensional integer coordinate.
///
/// Positions are plain values: they are copied, never mutated in place.
/// They compare lexicographically (`x` first, then `y`) under their total
/// order, and equality is structural.
#[derive(Clone, Copy, Debug, PartialEq, Eq, Structural, Hash)]
pub struct Position {
    pub x: isize,
    pub y: isize,
}

impl PartialOrd for Position {
    /// The lexicographic order: `x` decides first, then `y`. Note that this
    /// scalar order is not the per-axis containment test of a dimension.
    fn partial_cmp(&self, other: &Self) -> (r: Option<Ordering>) {
        Some(
            if self.x < other.x {
                Ordering::Less
            } else if self.x > other.x {
                Ordering::Greater
            } else if self.y < other.y {
                Ordering::Less
            } else if self.y > other.y {
                Ordering::Greater
            } else {
                Ordering::Equal
            },
        )
    }
}

impl vstd::std_specs::cmp::PartialOrdSpecImpl for Position {
    open spec fn obeys_partial_cmp_spec() -> bool {
        true
    }

    open spec fn partial_cmp_spec(&self, other: &Self) -> Option<Ordering> {
        if self.x < other.x {
            Some(Ordering::Less)
        } else if self.x > other.x {
            Some(Ordering::Greater)
        } else if self.y < other.y {
            Some(Ordering::Less)
        } else if self.y > other.y {
            Some(Ordering::Greater)
        } else {
            Some(Ordering::Equal)
        }
    }
}

impl Position {
    /// Create a position from two signed coordinates.
    pub fn new(x: isize, y: isize) -> (r: Self)
        ensures
            r.x == x,
            r.y == y,
    {
        Position { x, y }
    }

    /// Create a Position from two usize values.
    pub fn new_u(x: usize, y: usize) -> (r: Self)
        requires
            x <= isize::MAX,
            y <= isize::MAX,
        ensures
            r.x == x,
            r.y == y,
    {
        Position { x: x as isize, y: y as isize }
    }

    /// Component-wise sum of two positions.
    pub fn translate(self, other: Position) -> (r: Position)
        requires
            isize::MIN <= self.x + other.x <= isize::MAX,
            isize::MIN <= self.y + other.y <= isize::MAX,
        ensures
            r.x == self.x + other.x,
            r.y == self.y + other.y,
    {
        Position { x: self.x + other.x, y: self.y + other.y }
    }

    /// Translate by a raw offset pair.
    pub fn translate_xy(self, dx: isize, dy: isize) -> (r: Position)
        requires
            isize::MIN <= self.x + dx <= isize::MAX,
            isize::MIN <= self.y + dy <= isize::MAX,
        ensures
            r.x == self.x + dx,
            r.y == self.y + dy,
    {
        Position { x: self.x + dx, y: self.y + dy }
    }

    /// Component-wise negation.
    pub fn negate(self) -> (r: Position)
        requires
            self.x != isize::MIN,
            self.y != isize::MIN,
        ensures
            r.x == -self.x,
            r.y == -self.y,
    {
        Position { x: -self.x, y: -self.y }
    }

    /// Component-wise difference: the translation that carries `other` to `self`.
    pub fn difference(self, other: Position) -> (r: Position)
        requires
            isize::MIN <= self.x - other.x <= isize::MAX,
            isize::MIN <= self.y - other.y <= isize::MAX,
        ensures
            r.x == self.x - other.x,
            r.y == self.y - other.y,
    {
        Position { x: self.x - other.x, y: self.y - other.y }
    }
}

impl Default for Position {
    /// The origin of the plane, `(0, 0)`.
    fn default() -> (r: Self)
        ensures
            r.x == 0,
            r.y == 0,
    {
        Position { x: 0, y: 0 }
    }
}

} // verus!
