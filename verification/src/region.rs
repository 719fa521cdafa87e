//! The region that a gate lays its rows into: a record of the assignments,
//! in the order in which they are made, for a backend to carry out.

use crate::curve::Point;
use crate::field::Fe;
use vstd::prelude::*;

verus! {

/// An advice column, by its index among the advice columns.
#[derive(Clone, Copy, Debug, PartialEq, Eq, Structural)]
pub struct Advice {
    pub index: u8,
}

/// A fixed column, by its index among the fixed columns.
#[derive(Clone, Copy, Debug, PartialEq, Eq, Structural)]
pub struct Fixed {
    pub index: u8,
}

/// A column of a lookup table, by its index among the table columns.
#[derive(Clone, Copy, Debug, PartialEq, Eq, Structural)]
pub struct TableColumn {
    pub index: u8,
}

/// A column that a cell can be assigned in.
#[derive(Clone, Copy, Debug, PartialEq, Eq, Structural)]
pub enum Column {
    Advice(Advice),
    Fixed(Fixed),
}

/// The switches that turn a gate's identities and lookups on for a row.
#[derive(Clone, Copy, Debug, PartialEq, Eq, Structural)]
pub enum Selector {
    Point,
    Add,
    Double,
    Range,
    /// On a row of windows: every advice cell of the row is in the range.
    Windows,
    AssignConstant,
    Sorted,
    SortedRead,
    Query,
    QueryRead,
    Table,
}

/// A place in the region.
#[derive(Clone, Copy, Debug, PartialEq, Eq, Structural)]
pub struct Cell {
    pub column: Column,
    pub row: usize,
}

/// A witness value: known while a proof is made, unknown while keys are.
pub type Value = Option<Fe>;

/// A cell together with the value assigned to it.
#[derive(Clone, Copy, Debug, PartialEq, Eq, Structural)]
pub struct AssignedValue {
    pub cell: Cell,
    pub value: Value,
}

/// One step of laying out a region. All but `Next` act on the current row.
#[derive(Clone, Copy, Debug, PartialEq, Eq, Structural)]
pub enum Op {
    /// Turn a selector on.
    Enable(Selector),
    /// Assign a witness to an advice cell.
    Advice(Advice, Value),
    /// Assign a constant to a fixed cell.
    Fixed(Fixed, Fe),
    /// Assign to an advice cell the value of an earlier cell, and constrain
    /// the two to be equal.
    Copy(Advice, Cell, Value),
    /// Constrain two cells to be equal.
    Equal(Cell, Cell),
    /// Move to the next row.
    Next,
}

/// The number of rows that a record has completed.
pub open spec fn rows(ops: Seq<Op>) -> nat
    decreases ops.len(),
{
    if ops.len() == 0 {
        0
    } else {
        rows(ops.drop_last()) + if ops.last() == Op::Next {
            1nat
        } else {
            0nat
        }
    }
}

/// A record has no more completed rows than steps.
pub proof fn lemma_rows_bound(ops: Seq<Op>)
    ensures
        rows(ops) <= ops.len(),
    decreases ops.len(),
{
    if ops.len() > 0 {
        lemma_rows_bound(ops.drop_last());
    }
}

/// Appending steps adds their rows.
pub proof fn lemma_rows_concat(a: Seq<Op>, b: Seq<Op>)
    ensures
        rows(a + b) == rows(a) + rows(b),
    decreases b.len(),
{
    if b.len() == 0 {
        assert(a + b =~= a);
    } else {
        assert((a + b).drop_last() =~= a + b.drop_last());
        lemma_rows_concat(a, b.drop_last());
    }
}

/// A record that begins with another is that one with steps appended.
pub proof fn lemma_prefix(a: Seq<Op>, b: Seq<Op>, c: Seq<Op>)
    ensures
        a.is_prefix_of(a),
        a.is_prefix_of(a + b),
        a.is_prefix_of(b) && b.is_prefix_of(c) ==> a.is_prefix_of(c),
{
    assert(a.subrange(0, a.len() as int) =~= a);
    assert((a + b).subrange(0, a.len() as int) =~= a);
    if a.is_prefix_of(b) && b.is_prefix_of(c) {
        assert(c.subrange(0, a.len() as int) =~= c.subrange(0, b.len() as int).subrange(
            0,
            a.len() as int,
        ));
    }
}

/// A region under construction, with the row that the next assignment goes to.
pub struct RegionCtx {
    ops: Vec<Op>,
    offset: usize,
}

impl View for RegionCtx {
    type V = Seq<Op>;

    closed spec fn view(&self) -> Seq<Op> {
        self.ops@
    }
}

impl RegionCtx {
    /// The row counter agrees with the record.
    pub closed spec fn wf(&self) -> bool {
        self.offset == rows(self.ops@)
    }

    /// An empty region.
    pub fn new() -> (r: RegionCtx)
        ensures
            r@ == Seq::<Op>::empty(),
            r.wf(),
    {
        RegionCtx { ops: Vec::new(), offset: 0 }
    }

    /// The steps recorded so far.
    pub fn ops(&self) -> (r: &Vec<Op>)
        ensures
            r@ == self@,
    {
        &self.ops
    }

    /// The index of the current row.
    pub fn offset(&self) -> (r: usize)
        requires
            self.wf(),
        ensures
            r == rows(self@),
    {
        self.offset
    }

    fn record(&mut self, op: Op)
        requires
            old(self).wf(),
            op != Op::Next,
        ensures
            final(self).wf(),
            final(self)@ == old(self)@.push(op),
            rows(final(self)@) == rows(old(self)@),
    {
        proof {
            assert(self.ops@.push(op).drop_last() =~= self.ops@);
        }
        self.ops.push(op);
    }

    /// Assigns a constant to a fixed cell of the current row.
    pub fn fixed(&mut self, column: Fixed, value: Fe) -> (r: AssignedValue)
        requires
            old(self).wf(),
        ensures
            final(self).wf(),
            final(self)@ == old(self)@.push(Op::Fixed(column, value)),
            rows(final(self)@) == rows(old(self)@),
            r == (AssignedValue {
                cell: Cell { column: Column::Fixed(column), row: rows(old(self)@) as usize },
                value: Some(value),
            }),
    {
        let row = self.offset();
        self.record(Op::Fixed(column, value));
        AssignedValue { cell: Cell { column: Column::Fixed(column), row }, value: Some(value) }
    }

    /// Assigns a witness to an advice cell of the current row.
    pub fn advice(&mut self, column: Advice, value: Value) -> (r: AssignedValue)
        requires
            old(self).wf(),
        ensures
            final(self).wf(),
            final(self)@ == old(self)@.push(Op::Advice(column, value)),
            rows(final(self)@) == rows(old(self)@),
            r == (AssignedValue {
                cell: Cell { column: Column::Advice(column), row: rows(old(self)@) as usize },
                value,
            }),
    {
        let row = self.offset();
        self.record(Op::Advice(column, value));
        AssignedValue { cell: Cell { column: Column::Advice(column), row }, value }
    }

    /// Assigns zero to a cell of the current row.
    pub fn empty(&mut self, column: Column) -> (r: AssignedValue)
        requires
            old(self).wf(),
        ensures
            final(self).wf(),
            final(self)@ == old(self)@.push(zero_op(column)),
            rows(final(self)@) == rows(old(self)@),
            r == (AssignedValue {
                cell: Cell { column, row: rows(old(self)@) as usize },
                value: Some(Fe { l0: 0, l1: 0, l2: 0, l3: 0 }),
            }),
    {
        match column {
            Column::Advice(c) => self.advice(c, Some(Fe::zero())),
            Column::Fixed(c) => self.fixed(c, Fe::zero()),
        }
    }

    /// Assigns the value of an earlier cell to an advice cell of the current
    /// row, and constrains the two to be equal.
    pub fn copy(&mut self, column: Advice, assigned: &AssignedValue) -> (r: AssignedValue)
        requires
            old(self).wf(),
        ensures
            final(self).wf(),
            final(self)@ == old(self)@.push(Op::Copy(column, assigned.cell, assigned.value)),
            rows(final(self)@) == rows(old(self)@),
            r == (AssignedValue {
                cell: Cell { column: Column::Advice(column), row: rows(old(self)@) as usize },
                value: assigned.value,
            }),
    {
        let row = self.offset();
        self.record(Op::Copy(column, assigned.cell, assigned.value));
        AssignedValue {
            cell: Cell { column: Column::Advice(column), row },
            value: assigned.value,
        }
    }

    /// Constrains two cells to be equal.
    pub fn equal(&mut self, cell_0: Cell, cell_1: Cell)
        requires
            old(self).wf(),
        ensures
            final(self).wf(),
            final(self)@ == old(self)@.push(Op::Equal(cell_0, cell_1)),
            rows(final(self)@) == rows(old(self)@),
    {
        self.record(Op::Equal(cell_0, cell_1));
    }

    /// Turns a selector on for the current row.
    pub fn enable(&mut self, selector: Selector)
        requires
            old(self).wf(),
        ensures
            final(self).wf(),
            final(self)@ == old(self)@.push(Op::Enable(selector)),
            rows(final(self)@) == rows(old(self)@),
    {
        self.record(Op::Enable(selector));
    }

    /// Completes the current row.
    pub fn next(&mut self)
        requires
            old(self).wf(),
        ensures
            final(self).wf(),
            final(self)@ == old(self)@.push(Op::Next),
            rows(final(self)@) == rows(old(self)@) + 1,
    {
        proof {
            assert(self.ops@.push(Op::Next).drop_last() =~= self.ops@);
            lemma_rows_bound(self.ops@);
        }
        self.ops.push(Op::Next);
        let steps = self.ops.len();
        assert(self.offset < steps);
        self.offset = self.offset + 1;
    }
}

/// The step that assigns zero to a cell.
pub open spec fn zero_op(column: Column) -> Op {
    match column {
        Column::Advice(c) => Op::Advice(c, Some(Fe { l0: 0, l1: 0, l2: 0, l3: 0 })),
        Column::Fixed(c) => Op::Fixed(c, Fe { l0: 0, l1: 0, l2: 0, l3: 0 }),
    }
}

/// A point whose coordinates are assigned cells.
#[derive(Clone, Copy, Debug, PartialEq, Eq, Structural)]
pub struct AssignedPoint {
    x: AssignedValue,
    y: AssignedValue,
}

/// The point with the two coordinates, where both are known.
pub open spec fn point_of(x: Value, y: Value) -> Option<Point> {
    match (x, y) {
        (Some(x), Some(y)) => Some(Point { x, y }),
        _ => None,
    }
}

/// A value that is unknown or a point of the curve.
pub open spec fn valid(p: Option<Point>) -> bool {
    p matches Some(q) ==> q.on_curve()
}

impl AssignedPoint {
    #[verifier::type_invariant]
    spec fn inv(self) -> bool {
        valid(point_of(self.x.value, self.y.value))
    }

    pub closed spec fn cell_x(&self) -> AssignedValue {
        self.x
    }

    pub closed spec fn cell_y(&self) -> AssignedValue {
        self.y
    }

    /// The assigned point, where its coordinates are known.
    pub open spec fn point(&self) -> Option<Point> {
        point_of(self.cell_x().value, self.cell_y().value)
    }

    pub fn new(x: AssignedValue, y: AssignedValue) -> (r: AssignedPoint)
        requires
            valid(point_of(x.value, y.value)),
        ensures
            r.cell_x() == x,
            r.cell_y() == y,
    {
        AssignedPoint { x, y }
    }

    pub fn x(&self) -> (r: &AssignedValue)
        ensures
            *r == self.cell_x(),
    {
        &self.x
    }

    pub fn y(&self) -> (r: &AssignedValue)
        ensures
            *r == self.cell_y(),
    {
        &self.y
    }

    /// The point, where its coordinates are known.
    pub fn value(&self) -> (r: Option<Point>)
        ensures
            r == self.point(),
            valid(r),
    {
        proof {
            use_type_invariant(self);
        }
        match (self.x.value, self.y.value) {
            (Some(x), Some(y)) => Some(Point { x, y }),
            _ => None,
        }
    }

    /// The coordinates of the double of the point.
    pub fn dbl(&self) -> (r: (Value, Value))
        ensures
            point_of(r.0, r.1) == crate::gate::incomplete_double(self.point()),
            r.0.is_some() == self.point().is_some(),
            r.1.is_some() == self.point().is_some(),
    {
        let w = crate::gate::compute_double(&self.value());
        crate::gate::unzip(&w.out)
    }

    /// The two coordinates, where both are known.
    pub fn coords(&self) -> (r: Option<(Fe, Fe)>)
        ensures
            r == match self.point() {
                Some(p) => Some((p.x, p.y)),
                None => None,
            },
    {
        match (self.x.value, self.y.value) {
            (Some(x), Some(y)) => Some((x, y)),
            _ => None,
        }
    }
}

} // verus!
