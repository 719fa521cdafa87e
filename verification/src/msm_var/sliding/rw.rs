//! The table of the sliding-window method: points by address, written once
//! and then only read.

use crate::curve::Point;
use crate::field::Fe;
use crate::region::{valid, Value};
use vstd::prelude::*;

verus! {

/// What a table holds at an address: nothing, or a point that may be unknown.
pub type Cell = Option<Option<Point>>;

/// The table behind the sliding-window method.
pub struct Memory {
    cells: Vec<Cell>,
}

/// The place that an address and an offset name.
pub open spec fn place(address: Fe, offset: Fe) -> nat {
    address@ + offset@
}

/// What cells hold at a place.
pub open spec fn held(cells: Seq<Cell>, at: nat) -> Cell {
    if at < cells.len() {
        cells[at as int]
    } else {
        None
    }
}

impl Memory {
    /// What the table holds, by place.
    pub closed spec fn cells(&self) -> Seq<Cell> {
        self.cells@
    }

    /// What the table holds at a place.
    pub open spec fn at(&self, at: nat) -> Cell {
        held(self.cells(), at)
    }

    /// Every pair that the table holds is a point of the curve, or unknown.
    pub open spec fn on_curve(&self) -> bool {
        forall|i: int|
            0 <= i < self.cells().len() ==> ((#[trigger] self.cells()[i]) matches Some(p)
                ==> valid(p))
    }

    /// An empty table.
    pub fn new() -> (r: Memory)
        ensures
            r.on_curve(),
            r.cells().len() == 0,
    {
        Memory { cells: Vec::new() }
    }

    /// Forgets everything.
    pub fn clear(&mut self)
        ensures
            final(self).on_curve(),
            final(self).cells().len() == 0,
    {
        self.cells.clear();
    }

    /// Reads the point at `address + offset`. An unknown address gives an
    /// unknown point. Something must have been written at the place, and
    /// what it holds must be a point of the curve.
    pub fn read(&self, address: &Value, offset: Fe) -> (r: Option<Point>)
        requires
            *address matches Some(a) ==> self.at(place(a, offset)) matches Some(p) && valid(p),
        ensures
            valid(r),
            r == match *address {
                Some(a) => self.at(place(a, offset)).unwrap(),
                None => None,
            },
    {
        match address {
            Some(a) => {
                let n = self.cells.len();
                proof {
                    assert(held(self.cells(), place(*a, offset)).is_some());
                    assert(place(*a, offset) < n);
                }
                let i = a.to_u64().unwrap();
                let j = offset.to_u64().unwrap();
                let cell = self.cells[(i + j) as usize];
                assert(cell == self.cells()[place(*a, offset) as int]);
                cell.unwrap()
            },
            None => None,
        }
    }

    /// Writes a pair, on the curve or not, at `address + offset`. An entry
    /// of the table never changes: the place must hold nothing, or the pair
    /// that is written.
    pub fn write(&mut self, address: Fe, offset: Fe, coords: &Option<Point>)
        requires
            place(address, offset) < usize::MAX,
            old(self).at(place(address, offset)) matches Some(c) ==> c == *coords,
        ensures
            old(self).on_curve() && valid(*coords) ==> final(self).on_curve(),
            forall|at: nat|
                final(self).at(at) == if at == place(address, offset) {
                    Some(*coords)
                } else {
                    old(self).at(at)
                },
    {
        let i = address.to_u64().unwrap();
        let j = offset.to_u64().unwrap();
        let at = (i + j) as usize;
        while self.cells.len() <= at
            invariant
                old(self).on_curve() ==> self.on_curve(),
                forall|k: nat| self.at(k) == old(self).at(k),
                at < usize::MAX,
            decreases at + 1 - self.cells@.len(),
        {
            self.cells.push(None);
        }
        self.cells[at] = Some(*coords);
    }
}

} // verus!
