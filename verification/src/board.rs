//! The sparse board: a coordinate-keyed value store bounded by a dimension,
//! optionally growable.

use vstd::prelude::*;

use crate::dimension::lemma_resize_contains;
use crate::dimension::Dimension;
use crate::dimension::DimensionIterator;
use crate::position::Position;

verus! {

/// The mathematical content of an entry list: the map that takes each listed
/// key to its value, later entries overriding earlier ones.
pub open spec fn map_of<T>(s: Seq<(Position, T)>) -> Map<Position, T>
    decreases s.len(),
{
    if s.len() == 0 {
        Map::empty()
    } else {
        map_of(s.drop_last()).insert(s.last().0, s.last().1)
    }
}

/// No key occurs twice in the entry list.
pub open spec fn distinct_keys<T>(s: Seq<(Position, T)>) -> bool {
    forall|i: int, j: int| 0 <= i < j < s.len() ==> s[i].0 != s[j].0
}

/// A key is in the map exactly when some entry lists it.
pub proof fn lemma_map_of_dom<T>(s: Seq<(Position, T)>)
    ensures
        forall|p: Position|
            map_of(s).contains_key(p) <==> exists|i: int| 0 <= i < s.len() && s[i].0 == p,
    decreases s.len(),
{
    if s.len() > 0 {
        let t = s.drop_last();
        lemma_map_of_dom(t);
        assert(map_of(s) == map_of(t).insert(s.last().0, s.last().1));
        assert(forall|k: int| 0 <= k < t.len() ==> #[trigger] t[k] == s[k]);
        assert forall|p: Position| map_of(s).contains_key(p) implies exists|i: int|
            0 <= i < s.len() && s[i].0 == p by {
            if p == s.last().0 {
                assert(s[s.len() - 1].0 == p);
            } else {
                assert(map_of(t).contains_key(p));
                let i = choose|i: int| 0 <= i < t.len() && t[i].0 == p;
                assert(s[i].0 == p);
            }
        }
        assert forall|p: Position| (exists|i: int| 0 <= i < s.len() && s[i].0 == p) implies map_of(
            s,
        ).contains_key(p) by {
            let i = choose|i: int| 0 <= i < s.len() && s[i].0 == p;
            if i < s.len() - 1 {
                assert(t[i].0 == p);
                assert(map_of(t).contains_key(p));
            }
        }
    }
}

/// With distinct keys, the map takes each listed key to its listed value.
pub proof fn lemma_map_of_index<T>(s: Seq<(Position, T)>, i: int)
    requires
        distinct_keys(s),
        0 <= i < s.len(),
    ensures
        map_of(s).contains_key(s[i].0),
        map_of(s)[s[i].0] == s[i].1,
    decreases s.len(),
{
    if i < s.len() - 1 {
        assert(distinct_keys(s.drop_last())) by {
            assert(forall|k: int| 0 <= k < s.len() - 1 ==> s.drop_last()[k] == s[k]);
        }
        lemma_map_of_index(s.drop_last(), i);
        assert(s[i].0 != s.last().0);
    }
}

/// Overwriting the entry at a listed key is, on the map, an insert at that key.
pub proof fn lemma_map_of_update<T>(s: Seq<(Position, T)>, i: int, v: T)
    requires
        distinct_keys(s),
        0 <= i < s.len(),
    ensures
        map_of(s.update(i, (s[i].0, v))) == map_of(s).insert(s[i].0, v),
    decreases s.len(),
{
    let p = s[i].0;
    let u = s.update(i, (p, v));
    if i == s.len() - 1 {
        assert(u.drop_last() =~= s.drop_last());
        assert(u.last() == (p, v));
        assert(map_of(s.drop_last()).insert(p, s[i].1).insert(p, v) =~= map_of(
            s.drop_last(),
        ).insert(p, v));
    } else {
        assert(distinct_keys(s.drop_last())) by {
            assert(forall|k: int| 0 <= k < s.len() - 1 ==> s.drop_last()[k] == s[k]);
        }
        lemma_map_of_update(s.drop_last(), i, v);
        assert(u.drop_last() =~= s.drop_last().update(i, (p, v)));
        assert(u.last() == s.last());
        let q = s.last().0;
        let w = s.last().1;
        assert(p != q);
        assert(map_of(s.drop_last()).insert(p, v).insert(q, w) =~= map_of(s.drop_last()).insert(
            q,
            w,
        ).insert(p, v));
    }
}

/// Appending an entry with a fresh key is, on the map, an insert at that key.
pub proof fn lemma_map_of_push<T>(s: Seq<(Position, T)>, p: Position, v: T)
    ensures
        map_of(s.push((p, v))) == map_of(s).insert(p, v),
{
    assert(s.push((p, v)).drop_last() =~= s);
    assert(s.push((p, v)).last() == (p, v));
}

/// Deleting the entry at a listed key is, on the map, a remove of that key.
pub proof fn lemma_map_of_remove<T>(s: Seq<(Position, T)>, i: int)
    requires
        distinct_keys(s),
        0 <= i < s.len(),
    ensures
        map_of(s.remove(i)) == map_of(s).remove(s[i].0),
    decreases s.len(),
{
    let p = s[i].0;
    if i == s.len() - 1 {
        assert(s.remove(i) =~= s.drop_last());
        lemma_map_of_dom(s.drop_last());
        assert(forall|k: int| 0 <= k < s.len() - 1 ==> s.drop_last()[k] == s[k]);
        assert(!map_of(s.drop_last()).contains_key(p));
        assert(map_of(s.drop_last()).insert(p, s[i].1).remove(p) =~= map_of(s.drop_last()));
    } else {
        assert(distinct_keys(s.drop_last())) by {
            assert(forall|k: int| 0 <= k < s.len() - 1 ==> s.drop_last()[k] == s[k]);
        }
        lemma_map_of_remove(s.drop_last(), i);
        assert(s.remove(i).drop_last() =~= s.drop_last().remove(i));
        assert(s.remove(i).last() == s.last());
        let q = s.last().0;
        let w = s.last().1;
        assert(p != q);
        assert(map_of(s.drop_last()).remove(p).insert(q, w) =~= map_of(s.drop_last()).insert(
            q,
            w,
        ).remove(p));
    }
}

/// Find the entry that lists `position`, if any.
fn find_index<T>(entries: &Vec<(Position, T)>, position: Position) -> (r: Option<usize>)
    ensures
        match r {
            Some(i) => i < entries@.len() && entries@[i as int].0 == position,
            None => forall|j: int| 0 <= j < entries@.len() ==> entries@[j].0 != position,
        },
{
    let n = entries.len();
    let mut i: usize = 0;
    while i < n
        invariant
            n == entries@.len(),
            i <= n,
            forall|j: int| 0 <= j < i ==> entries@[j].0 != position,
        decreases n - i,
    {
        if entries[i].0 == position {
            return Some(i);
        }
        i = i + 1;
    }
    None
}

/// A sparse two-dimensional value store.
///
/// The board owns a dimension and a list of entries, one per non-empty cell.
/// Every stored key lies inside the dimension, and no key is stored twice.
/// A resizeable board grows its dimension to admit an out-of-bounds write; a
/// fixed board silently discards such a write.
pub struct Board<T> {
    resizeable: bool,
    dimension: Dimension,
    entries: Vec<(Position, T)>,
}

impl<T> Board<T> {
    /// The sparse contents of the board: the map from stored positions to
    /// their values.
    pub closed spec fn board_map(self) -> Map<Position, T> {
        map_of(self.entries@)
    }

    /// The current rectangular extent of the board.
    pub closed spec fn spec_dimension(self) -> Dimension {
        self.dimension
    }

    /// Whether an out-of-bounds write grows the board.
    pub closed spec fn spec_resizeable(self) -> bool {
        self.resizeable
    }

    /// Well-formedness: the dimension is non-empty, no key is stored twice,
    /// and every stored key lies inside the dimension.
    pub closed spec fn wf(self) -> bool {
        &&& self.dimension.wf()
        &&& distinct_keys(self.entries@)
        &&& forall|i: int|
            0 <= i < self.entries@.len() ==> self.dimension.spec_contains(
                #[trigger] self.entries@[i].0,
            )
    }

    /// Create an empty fixed-size board spanning `dimension`.
    pub fn new(dimension: Dimension) -> (r: Board<T>)
        requires
            dimension.wf(),
        ensures
            r.wf(),
            r.spec_dimension() == dimension,
            !r.spec_resizeable(),
            r.board_map() == Map::<Position, T>::empty(),
    {
        Board { resizeable: false, dimension, entries: Vec::new() }
    }

    /// Create an empty board spanning `dimension` that grows to admit
    /// out-of-bounds writes.
    pub fn new_resizeable(dimension: Dimension) -> (r: Board<T>)
        requires
            dimension.wf(),
        ensures
            r.wf(),
            r.spec_dimension() == dimension,
            r.spec_resizeable(),
            r.board_map() == Map::<Position, T>::empty(),
    {
        Board { resizeable: true, dimension, entries: Vec::new() }
    }

    /// The board's current extent.
    pub fn dimension(&self) -> (r: Dimension)
        ensures
            r == self.spec_dimension(),
            self.wf() ==> r.wf(),
    {
        self.dimension
    }

    /// Whether the board grows on out-of-bounds writes.
    pub fn resizeable(&self) -> (r: bool)
        ensures
            r == self.spec_resizeable(),
    {
        self.resizeable
    }

    /// Remove all stored values; the dimension is unchanged.
    pub fn clear(&mut self)
        requires
            old(self).wf(),
        ensures
            final(self).wf(),
            final(self).spec_dimension() == old(self).spec_dimension(),
            final(self).spec_resizeable() == old(self).spec_resizeable(),
            final(self).board_map() == Map::<Position, T>::empty(),
    {
        self.entries.clear()
    }

    /// Return the stored value at `position`, or `None` when the cell is
    /// empty or the position out of bounds.
    pub fn get_field(&self, position: Position) -> (r: Option<&T>)
        requires
            self.wf(),
        ensures
            match r {
                Some(v) => self.board_map().contains_key(position) && *v == self.board_map()[
                    position
                ],
                None => !self.board_map().contains_key(position),
            },
    {
        match find_index(&self.entries, position) {
            Some(i) => {
                proof {
                    lemma_map_of_index(self.entries@, i as int);
                }
                Some(&self.entries[i].1)
            },
            None => {
                proof {
                    lemma_map_of_dom(self.entries@);
                }
                None
            },
        }
    }

    /// Store `value` at an in-bounds `position`, overwriting what was there.
    fn store(&mut self, position: Position, value: T)
        requires
            old(self).wf(),
            old(self).dimension.spec_contains(position),
        ensures
            final(self).wf(),
            final(self).dimension == old(self).dimension,
            final(self).resizeable == old(self).resizeable,
            final(self).board_map() == old(self).board_map().insert(position, value),
    {
        match find_index(&self.entries, position) {
            Some(i) => {
                proof {
                    lemma_map_of_update(self.entries@, i as int, value);
                }
                self.entries[i] = (position, value);
            },
            None => {
                proof {
                    lemma_map_of_push(self.entries@, position, value);
                }
                self.entries.push((position, value));
            },
        }
    }

    /// Store `value` at `position`.
    ///
    /// Inside the current dimension the cell is written. Outside it, a
    /// resizeable board first grows its dimension to cover the position and
    /// then writes; a fixed board discards the value and is left unchanged.
    pub fn set_field(&mut self, position: Position, value: T)
        requires
            old(self).wf(),
        ensures
            final(self).wf(),
            final(self).spec_resizeable() == old(self).spec_resizeable(),
            old(self).spec_dimension().spec_contains(position) ==> {
                &&& final(self).spec_dimension() == old(self).spec_dimension()
                &&& final(self).board_map() == old(self).board_map().insert(position, value)
            },
            !old(self).spec_dimension().spec_contains(position) && old(self).spec_resizeable()
                ==> {
                &&& final(self).spec_dimension() == old(self).spec_dimension().spec_resize(
                    position,
                )
                &&& final(self).board_map() == old(self).board_map().insert(position, value)
            },
            !old(self).spec_dimension().spec_contains(position) && !old(self).spec_resizeable()
                ==> *final(self) == *old(self),
    {
        if self.dimension.contains_position(position) {
            self.store(position, value);
        } else if self.resizeable {
            let ghost old_dim = self.dimension;
            self.dimension.resize(position);
            proof {
                lemma_resize_contains(old_dim, position);
                assert(self.wf());
            }
            self.store(position, value);
        }
    }

    /// Remove and return the value stored at `position`, or `None` when the
    /// cell was empty; the dimension never shrinks, and an absent cell leaves
    /// the board unchanged.
    pub fn clear_field(&mut self, position: Position) -> (r: Option<T>)
        requires
            old(self).wf(),
        ensures
            final(self).wf(),
            final(self).spec_dimension() == old(self).spec_dimension(),
            final(self).spec_resizeable() == old(self).spec_resizeable(),
            final(self).board_map() == old(self).board_map().remove(position),
            r == (if old(self).board_map().contains_key(position) {
                Some(old(self).board_map()[position])
            } else {
                None::<T>
            }),
            !old(self).board_map().contains_key(position) ==> *final(self) == *old(self),
    {
        match find_index(&self.entries, position) {
            Some(i) => {
                proof {
                    lemma_map_of_index(self.entries@, i as int);
                    lemma_map_of_remove(self.entries@, i as int);
                }
                let entry = self.entries.remove(i);
                Some(entry.1)
            },
            None => {
                proof {
                    lemma_map_of_dom(self.entries@);
                    assert(self.board_map().remove(position) =~= self.board_map());
                }
                None
            },
        }
    }

    /// Return an iterator over every position of the board's extent, paired
    /// with the value stored there, in the dimension's enumeration order.
    pub fn iter<'a>(&'a self) -> (r: BoardIter<'a, T>)
        requires
            self.wf(),
        ensures
            r.wf(),
            r.board_map() == self.board_map(),
            r.seq() == self.spec_dimension().position_seq(),
            r.emitted() == 0,
    {
        BoardIter { dimension_iter: self.dimension.iter(), entries: &self.entries }
    }
}

/// Storing a value and then looking the same position up yields that value:
/// on the board's map model, an insert puts the key in the domain and binds
/// it to the inserted value.
pub proof fn lemma_store_then_lookup<T>(m: Map<Position, T>, p: Position, v: T)
    ensures
        m.insert(p, v).contains_key(p),
        m.insert(p, v)[p] == v,
{
}

/// Every position that holds a value on a well-formed board lies inside the
/// board's dimension; a position out of bounds is never stored.
pub proof fn lemma_stored_keys_in_bounds<T>(b: Board<T>)
    requires
        b.wf(),
    ensures
        forall|p: Position|
            b.board_map().contains_key(p) ==> b.spec_dimension().spec_contains(p),
{
    lemma_map_of_dom(b.entries@);
}

/// Iterator over all board positions with their current value, in the
/// dimension's enumeration order; the value component is present exactly for
/// the positions that hold a stored value.
pub struct BoardIter<'a, T> {
    dimension_iter: DimensionIterator,
    entries: &'a Vec<(Position, T)>,
}

impl<'a, T> BoardIter<'a, T> {
    /// The sparse contents the iterator reports.
    pub closed spec fn board_map(self) -> Map<Position, T> {
        map_of(self.entries@)
    }

    /// The positions the iterator yields over its whole run.
    pub closed spec fn seq(self) -> Seq<Position> {
        self.dimension_iter.seq()
    }

    /// How many positions have been yielded so far.
    pub closed spec fn emitted(self) -> int {
        self.dimension_iter.emitted()
    }

    /// Well-formedness: the underlying position iterator is well-formed and
    /// the entry list has distinct keys.
    pub closed spec fn wf(self) -> bool {
        &&& self.dimension_iter.wf()
        &&& distinct_keys(self.entries@)
    }

    /// Yield the next position together with the value stored there, or
    /// `None` once every position of the extent has been yielded.
    pub fn next(&mut self) -> (r: Option<(Position, Option<&'a T>)>)
        requires
            old(self).wf(),
        ensures
            final(self).wf(),
            final(self).board_map() == old(self).board_map(),
            final(self).seq() == old(self).seq(),
            old(self).emitted() < old(self).seq().len() ==> {
                &&& r is Some
                &&& final(self).emitted() == old(self).emitted() + 1
            },
            old(self).emitted() >= old(self).seq().len() ==> {
                &&& r is None
                &&& *final(self) == *old(self)
            },
            match r {
                Some(pair) => {
                    &&& pair.0 == old(self).seq()[old(self).emitted()]
                    &&& match pair.1 {
                        Some(v) => old(self).board_map().contains_key(pair.0) && *v == old(
                            self,
                        ).board_map()[pair.0],
                        None => !old(self).board_map().contains_key(pair.0),
                    }
                },
                None => old(self).emitted() >= old(self).seq().len(),
            },
    {
        match self.dimension_iter.next() {
            None => None,
            Some(position) => {
                let value = match find_index(self.entries, position) {
                    Some(i) => {
                        proof {
                            lemma_map_of_index(self.entries@, i as int);
                        }
                        Some(&self.entries[i].1)
                    },
                    None => {
                        proof {
                            lemma_map_of_dom(self.entries@);
                        }
                        None
                    },
                };
                Some((position, value))
            },
        }
    }
}

} // verus!
