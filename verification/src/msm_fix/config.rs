//! Configuration of the fixed-base method: its columns, its window, the
//! table of the multiples of the bases and the correction.

use crate::curve::Point;
use crate::gate::{Columns, Constants};
use crate::region::{Advice, Fixed, TableColumn};
use vstd::prelude::*;

verus! {

/// Columns, table and state of the fixed-base method.
pub struct FixMSMGate {
    pub columns: Columns,
    pub range_table: TableColumn,
    pub address_table: TableColumn,
    pub x_table: TableColumn,
    pub y_table: TableColumn,
    pub window: usize,
    pub memory: Vec<Point>,
    pub correction: Point,
    pub constants: Constants,
}

impl FixMSMGate {
    /// The window fits a machine word, the table and the correction hold
    /// points of the curve, and the cache is well formed.
    pub open spec fn wf(&self) -> bool {
        &&& 1 <= self.window < 64
        &&& self.correction.on_curve()
        &&& forall|a: int| 0 <= a < self.memory@.len() ==> (#[trigger] self.memory@[a]).on_curve()
        &&& self.constants.wf()
    }

    /// Columns, window, table and correction are the same.
    pub open spec fn same_setup(&self, other: &FixMSMGate) -> bool {
        &&& self.columns == other.columns
        &&& self.range_table == other.range_table
        &&& self.address_table == other.address_table
        &&& self.x_table == other.x_table
        &&& self.y_table == other.y_table
        &&& self.window == other.window
        &&& self.memory == other.memory
        &&& self.correction == other.correction
    }

    /// Forgets the constants of the last synthesis.
    pub fn unassign_constants(&mut self)
        requires
            old(self).wf(),
        ensures
            final(self).wf(),
            final(self).same_setup(old(self)),
            final(self).constants@.dom().is_empty(),
    {
        self.constants.clear();
    }

    /// A configuration on the given columns, with the table `memory` of
    /// the multiples of the bases and with what the auxiliary points of
    /// the table contribute in all rounds, `correction`.
    pub fn configure(
        a0: Advice,
        a1: Advice,
        a2: Advice,
        a3: Advice,
        a4: Advice,
        range_table: TableColumn,
        address_table: TableColumn,
        x_table: TableColumn,
        y_table: TableColumn,
        constant: Fixed,
        window: usize,
        memory: Vec<Point>,
        correction: Point,
    ) -> (r: FixMSMGate)
        requires
            1 <= window < 64,
            correction.on_curve(),
            forall|a: int| 0 <= a < memory@.len() ==> (#[trigger] memory@[a]).on_curve(),
        ensures
            r.wf(),
            r.columns == (Columns { a0, a1, a2, a3, a4, constant }),
            r.range_table == range_table,
            r.address_table == address_table,
            r.x_table == x_table,
            r.y_table == y_table,
            r.window == window,
            r.memory == memory,
            r.correction == correction,
            r.constants@.dom().is_empty(),
    {
        FixMSMGate {
            columns: Columns { a0, a1, a2, a3, a4, constant },
            range_table,
            address_table,
            x_table,
            y_table,
            window,
            memory,
            correction,
            constants: Constants::new(),
        }
    }
}

} // verus!
