//! The rectangular extent of a board: an origin corner, a max corner, and an
//! ordered enumeration of every position in between.

use vstd::arithmetic::div_mod::lemma_fundamental_div_mod_converse;
use vstd::prelude::*;

use crate::position::Position;

verus! {

/// The error reported when a dimension is constructed with a zero side.
#[derive(Clone, Copy, Debug, PartialEq, Eq, Structural)]
pub enum DimensionError {
    InvalidDimension,
}

/// An axis-aligned rectangular extent, the closed box `[origin, max]`.
///
/// A well-formed dimension is non-empty: `origin.x <= max.x` and
/// `origin.y <= max.y`, so both sides have length at least 1.
#[derive(Clone, Copy, Debug, PartialEq, Eq, Structural)]
pub struct Dimension {
    pub origin: Position,
    pub max: Position,
}

impl Dimension {
    /// Well-formedness: the box is non-empty on both axes.
    pub open spec fn wf(self) -> bool {
        self.origin.x <= self.max.x && self.origin.y <= self.max.y
    }

    /// The number of columns of the box.
    pub open spec fn spec_width(self) -> int {
        self.max.x - self.origin.x + 1
    }

    /// The number of rows of the box.
    pub open spec fn spec_height(self) -> int {
        self.max.y - self.origin.y + 1
    }

    /// The number of positions the box covers.
    pub open spec fn spec_field_amount(self) -> int {
        self.spec_width() * self.spec_height()
    }

    /// Containment is a per-axis range test, not the lexicographic order of
    /// `Position`: a point is inside exactly when each coordinate lies in the
    /// closed range of its axis.
    pub open spec fn spec_contains(self, p: Position) -> bool {
        &&& self.origin.x <= p.x <= self.max.x
        &&& self.origin.y <= p.y <= self.max.y
    }

    /// The extent after growing to cover `p`: the origin moves to the
    /// component-wise minimum, the max to the component-wise maximum.
    pub open spec fn spec_resize(self, p: Position) -> Dimension {
        Dimension {
            origin: Position {
                x: if p.x < self.origin.x { p.x } else { self.origin.x },
                y: if p.y < self.origin.y { p.y } else { self.origin.y },
            },
            max: Position {
                x: if p.x > self.max.x { p.x } else { self.max.x },
                y: if p.y > self.max.y { p.y } else { self.max.y },
            },
        }
    }

    /// The rank of `p` in the enumeration order: positions are ordered column
    /// by column, a whole column (`y` increasing) before the next `x`.
    pub open spec fn index_of(self, p: Position) -> int {
        (p.x - self.origin.x) * self.spec_height() + (p.y - self.origin.y)
    }

    /// The position of rank `k` in the enumeration order.
    pub open spec fn position_at(self, k: int) -> Position {
        Position {
            x: (self.origin.x + k / self.spec_height()) as isize,
            y: (self.origin.y + k % self.spec_height()) as isize,
        }
    }

    /// Every position of the box, in enumeration order.
    pub open spec fn position_seq(self) -> Seq<Position> {
        Seq::new(self.spec_field_amount() as nat, |k: int| self.position_at(k))
    }

    /// Create a dimension with origin `(0, 0)`.
    pub fn new(width: usize, height: usize) -> (r: Result<Dimension, DimensionError>)
        requires
            width > 0 && height > 0 ==> width - 1 <= isize::MAX && height - 1 <= isize::MAX,
        ensures
            r is Err <==> width == 0 || height == 0,
            match r {
                Ok(d) => {
                    &&& d.origin == (Position { x: 0, y: 0 })
                    &&& d.max.x == width - 1
                    &&& d.max.y == height - 1
                    &&& d.wf()
                    &&& d.spec_width() == width
                    &&& d.spec_height() == height
                },
                Err(e) => e == DimensionError::InvalidDimension,
            },
    {
        Self::from_origin(Position::new(0, 0), width, height)
    }

    /// Create a dimension with a custom origin; the box spans `width` columns
    /// and `height` rows starting there. A zero side is rejected.
    pub fn from_origin(origin: Position, width: usize, height: usize) -> (r: Result<
        Dimension,
        DimensionError,
    >)
        requires
            width > 0 && height > 0 ==> ({
                &&& width - 1 <= isize::MAX
                &&& height - 1 <= isize::MAX
                &&& origin.x + width - 1 <= isize::MAX
                &&& origin.y + height - 1 <= isize::MAX
            }),
        ensures
            r is Err <==> width == 0 || height == 0,
            match r {
                Ok(d) => {
                    &&& d.origin == origin
                    &&& d.max.x == origin.x + width - 1
                    &&& d.max.y == origin.y + height - 1
                    &&& d.wf()
                    &&& d.spec_width() == width
                    &&& d.spec_height() == height
                },
                Err(e) => e == DimensionError::InvalidDimension,
            },
    {
        if width == 0 || height == 0 {
            Err(DimensionError::InvalidDimension)
        } else {
            Ok(
                Dimension {
                    origin,
                    max: origin.translate_xy((width - 1) as isize, (height - 1) as isize),
                },
            )
        }
    }

    /// The number of columns.
    pub fn width(&self) -> (r: usize)
        requires
            self.wf(),
            self.spec_width() <= isize::MAX,
        ensures
            r == self.spec_width(),
    {
        (self.max.x - self.origin.x + 1) as usize
    }

    /// The number of rows.
    pub fn height(&self) -> (r: usize)
        requires
            self.wf(),
            self.spec_height() <= isize::MAX,
        ensures
            r == self.spec_height(),
    {
        (self.max.y - self.origin.y + 1) as usize
    }

    /// Return how many fields a board can hold with this dimension.
    pub fn field_amount(&self) -> (r: usize)
        requires
            self.wf(),
            self.spec_width() <= isize::MAX,
            self.spec_height() <= isize::MAX,
            self.spec_field_amount() <= usize::MAX,
        ensures
            r == self.spec_field_amount(),
    {
        self.width() * self.height()
    }

    /// Return if a given position is covered by this dimension.
    pub fn contains_position(&self, position: Position) -> (r: bool)
        ensures
            r == self.spec_contains(position),
    {
        self.origin.x <= position.x && position.x <= self.max.x && self.origin.y <= position.y
            && position.y <= self.max.y
    }

    /// Grow this dimension to cover `position`: the origin only ever moves
    /// down, the max only ever moves up, and nothing changes when the
    /// position is already inside.
    pub fn resize(&mut self, position: Position)
        ensures
            *final(self) == old(self).spec_resize(position),
    {
        if position.x < self.origin.x {
            self.origin.x = position.x;
        }
        if position.y < self.origin.y {
            self.origin.y = position.y;
        }
        if position.x > self.max.x {
            self.max.x = position.x;
        }
        if position.y > self.max.y {
            self.max.y = position.y;
        }
    }

    /// Return an iterator over all positions of this dimension, in
    /// enumeration order from `origin` to `max`.
    pub fn iter(&self) -> (r: DimensionIterator)
        requires
            self.wf(),
        ensures
            r.wf(),
            r.spec_dimension() == *self,
            r.emitted() == 0,
    {
        DimensionIterator::new(self)
    }
}

/// Growing a dimension twice toward the same position is the same as growing
/// it once: `resize` is idempotent.
pub proof fn lemma_resize_idempotent(d: Dimension, p: Position)
    ensures
        d.spec_resize(p).spec_resize(p) == d.spec_resize(p),
{
}

/// Growing a dimension keeps it well-formed, covers the requested position
/// and every position covered before, and leaves the dimension unchanged
/// when the position was already inside.
pub proof fn lemma_resize_contains(d: Dimension, p: Position)
    requires
        d.wf(),
    ensures
        d.spec_resize(p).wf(),
        d.spec_resize(p).spec_contains(p),
        forall|q: Position| d.spec_contains(q) ==> d.spec_resize(p).spec_contains(q),
        d.spec_contains(p) ==> d.spec_resize(p) == d,
{
}

/// The rank of a covered position is a valid index of the enumeration, and
/// the enumeration lists that position at its rank; the last rank belongs to
/// `max` alone.
pub proof fn lemma_index_of_position(d: Dimension, p: Position)
    requires
        d.wf(),
        d.spec_contains(p),
    ensures
        0 <= d.index_of(p) < d.spec_field_amount(),
        d.position_seq()[d.index_of(p)] == p,
        d.index_of(p) == d.spec_field_amount() - 1 <==> p == d.max,
{
    let w = d.spec_width();
    let h = d.spec_height();
    let a = p.x - d.origin.x;
    let b = p.y - d.origin.y;
    let k = d.index_of(p);
    assert(0 <= a < w && 0 <= b < h);
    assert(k == a * h + b);
    assert(0 <= k < w * h && (k == w * h - 1 <==> (a == w - 1 && b == h - 1))) by (nonlinear_arith)
        requires
            0 <= a < w,
            0 <= b < h,
            k == a * h + b,
    ;
    lemma_fundamental_div_mod_converse(k, h, a, b);
    assert(d.position_at(k).x == p.x);
    assert(d.position_at(k).y == p.y);
}

/// The enumeration of a well-formed dimension lists exactly
/// `width * height` positions; the first is the origin and the last is the
/// max corner.
pub proof fn lemma_position_seq_shape(d: Dimension)
    requires
        d.wf(),
    ensures
        d.position_seq().len() == d.spec_width() * d.spec_height(),
        d.position_seq().len() >= 1,
        d.position_seq().first() == d.origin,
        d.position_seq().last() == d.max,
{
    let w = d.spec_width();
    let h = d.spec_height();
    assert(w * h >= 1) by (nonlinear_arith)
        requires
            w >= 1,
            h >= 1,
    ;
    lemma_index_of_position(d, d.origin);
    assert(d.index_of(d.origin) == 0 * h + 0 == 0) by (nonlinear_arith);
    lemma_index_of_position(d, d.max);
}

/// An ordered, restartable enumeration of every position of a dimension.
///
/// The iterator starts before the origin and, at each `next` call, yields the
/// next position of the extent in enumeration order until the max corner has
/// been yielded.
pub struct DimensionIterator {
    pub origin: Position,
    pub current_position: Option<Position>,
    pub max_position: Position,
}

impl DimensionIterator {
    /// The dimension this iterator enumerates.
    pub open spec fn spec_dimension(self) -> Dimension {
        Dimension { origin: self.origin, max: self.max_position }
    }

    /// Well-formedness: the extent is non-empty and the cursor, when set,
    /// lies inside it.
    pub open spec fn wf(self) -> bool {
        &&& self.spec_dimension().wf()
        &&& match self.current_position {
            Some(p) => self.spec_dimension().spec_contains(p),
            None => true,
        }
    }

    /// The positions this iterator yields over its whole run.
    pub open spec fn seq(self) -> Seq<Position> {
        self.spec_dimension().position_seq()
    }

    /// How many positions have been yielded so far.
    pub open spec fn emitted(self) -> int {
        match self.current_position {
            None => 0,
            Some(p) => self.spec_dimension().index_of(p) + 1,
        }
    }

    /// Start an enumeration of `dimension` from its origin.
    pub fn new(dimension: &Dimension) -> (r: DimensionIterator)
        requires
            dimension.wf(),
        ensures
            r.wf(),
            r.spec_dimension() == *dimension,
            r.emitted() == 0,
    {
        DimensionIterator {
            origin: dimension.origin,
            current_position: None,
            max_position: dimension.max,
        }
    }

    /// Yield the next position of the extent, or `None` once the max corner
    /// has been yielded.
    pub fn next(&mut self) -> (r: Option<Position>)
        requires
            old(self).wf(),
        ensures
            final(self).wf(),
            final(self).spec_dimension() == old(self).spec_dimension(),
            old(self).emitted() < old(self).seq().len() ==> {
                &&& r == Some(old(self).seq()[old(self).emitted()])
                &&& final(self).emitted() == old(self).emitted() + 1
            },
            old(self).emitted() >= old(self).seq().len() ==> {
                &&& r is None
                &&& *final(self) == *old(self)
            },
    {
        let ghost d = self.spec_dimension();
        let ghost h = d.spec_height();
        let x_max = self.max_position.x;
        let y_max = self.max_position.y;

        let next = match self.current_position {
            None => {
                proof {
                    lemma_position_seq_shape(d);
                    lemma_index_of_position(d, d.origin);
                    assert(d.index_of(d.origin) == 0 * h + 0 == 0) by (nonlinear_arith);
                }
                self.origin
            },
            Some(pos) => {
                proof {
                    lemma_index_of_position(d, pos);
                }
                if pos.x == x_max && pos.y == y_max {
                    return None;
                }
                if pos.y == y_max {
                    let stepped = Position::new(pos.x + 1, self.origin.y);
                    proof {
                        lemma_index_of_position(d, stepped);
                        assert((stepped.x - d.origin.x) * h == (pos.x - d.origin.x) * h + h)
                            by (nonlinear_arith)
                            requires
                                stepped.x == pos.x + 1,
                        ;
                    }
                    stepped
                } else {
                    Position::new(pos.x, pos.y + 1)
                }
            },
        };
        proof {
            lemma_index_of_position(d, next);
        }
        self.current_position = Some(next);
        Some(next)
    }
}

} // verus!
