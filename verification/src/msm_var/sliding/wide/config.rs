//! Configuration of the wide layout of the sliding-window method: its nine
//! advice columns, its window, its auxiliary generator, and the state of
//! one synthesis.

use crate::curve::Point;
use crate::gate::{Constants, WideColumns};
use crate::msm_var::sliding::rw::Memory;
use crate::region::{Advice, Fixed, TableColumn};
use vstd::prelude::*;

verus! {

/// Columns and state of the wide layout of the sliding-window method.
pub struct MSMGate {
    pub columns: WideColumns,
    pub range_table: TableColumn,
    pub window: usize,
    pub aux_generator: Point,
    pub memory: Memory,
    pub constants: Constants,
    pub correction_point: Option<Point>,
}

impl MSMGate {
    /// The window fits a machine word, the auxiliary generator is a point of
    /// the curve, and table and cache are well formed.
    pub open spec fn wf(&self) -> bool {
        &&& 1 <= self.window < 64
        &&& self.aux_generator.on_curve()
        &&& self.memory.on_curve()
        &&& self.constants.wf()
        &&& self.correction_point matches Some(p) ==> p.on_curve()
    }

    /// Columns, window, generator and the correction that is kept are the
    /// same.
    pub open spec fn same_setup(&self, other: &MSMGate) -> bool {
        &&& self.columns == other.columns
        &&& self.range_table == other.range_table
        &&& self.window == other.window
        &&& self.aux_generator == other.aux_generator
        &&& self.correction_point == other.correction_point
    }

    /// Forgets the constants of the last synthesis.
    pub fn unassign_constants(&mut self)
        requires
            old(self).wf(),
        ensures
            final(self).wf(),
            final(self).same_setup(old(self)),
            final(self).memory == old(self).memory,
            final(self).constants@.dom().is_empty(),
    {
        self.constants.clear();
    }

    /// A configuration on the given columns, with an empty table and no
    /// constants.
    pub fn configure(
        a0: Advice,
        a1: Advice,
        a2: Advice,
        a3: Advice,
        a4: Advice,
        a5: Advice,
        a6: Advice,
        a7: Advice,
        a8: Advice,
        range_table: TableColumn,
        constant: Fixed,
        window: usize,
        aux_generator: Point,
    ) -> (r: MSMGate)
        requires
            1 <= window < 64,
            aux_generator.on_curve(),
        ensures
            r.wf(),
            r.columns == (WideColumns { a0, a1, a2, a3, a4, a5, a6, a7, a8, constant }),
            r.range_table == range_table,
            r.window == window,
            r.aux_generator == aux_generator,
            r.memory.cells().len() == 0,
            r.constants@.dom().is_empty(),
            r.correction_point.is_none(),
    {
        MSMGate {
            columns: WideColumns { a0, a1, a2, a3, a4, a5, a6, a7, a8, constant },
            range_table,
            window,
            aux_generator,
            memory: Memory::new(),
            constants: Constants::new(),
            correction_point: None,
        }
    }
}

} // verus!
