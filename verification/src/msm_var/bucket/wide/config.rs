//! Configuration of the wide layout of the bucket method: its nine advice
//! columns, its window, its auxiliary generator, and the state of one
//! synthesis.

use super::rw::Memory;
use crate::curve::Point;
use crate::gate::{Constants, WideColumns};
use crate::region::{Advice, Fixed, TableColumn};
use vstd::prelude::*;

verus! {

/// Columns and state of the wide layout of the bucket method.
pub struct MSMGate {
    pub columns: WideColumns,
    pub range_table: TableColumn,
    pub window: usize,
    pub aux_generator: Point,
    pub memory: Memory,
    pub constants: Constants,
    pub initial_buckets: Option<Vec<Point>>,
    pub correction_point: Option<Point>,
}

impl MSMGate {
    /// The window fits a machine word, the auxiliary generator is a point of
    /// the curve, and memory and cache are well formed.
    pub open spec fn wf(&self) -> bool {
        &&& 1 <= self.window < 64
        &&& self.aux_generator.on_curve()
        &&& self.memory.wf()
        &&& self.memory.on_curve()
        &&& self.constants.wf()
    }

    /// Forgets the constants of the last synthesis.
    pub fn unassign_constants(&mut self)
        requires
            old(self).wf(),
        ensures
            final(self).wf(),
            final(self).constants@.dom().is_empty(),
            final(self).columns == old(self).columns,
            final(self).range_table == old(self).range_table,
            final(self).window == old(self).window,
            final(self).aux_generator == old(self).aux_generator,
            final(self).memory == old(self).memory,
            final(self).initial_buckets == old(self).initial_buckets,
            final(self).correction_point == old(self).correction_point,
    {
        self.constants.clear();
    }

    /// A configuration on the given columns, with an empty memory and no
    /// constants.
    pub fn configure(
        a0: Advice,
        a1: Advice,
        a2: Advice,
        a3: Advice,
        a4: Advice,
        a5: Advice,
        a6: Advice,
        a7: Advice,
        a8: Advice,
        range_table: TableColumn,
        constant: Fixed,
        window: usize,
        aux_generator: Point,
    ) -> (r: MSMGate)
        requires
            1 <= window < 64,
            aux_generator.on_curve(),
        ensures
            r.wf(),
            r.columns == (WideColumns { a0, a1, a2, a3, a4, a5, a6, a7, a8, constant }),
            r.range_table == range_table,
            r.window == window,
            r.aux_generator == aux_generator,
            r.memory.trace().len() == 0,
            r.memory.state().dom().is_empty(),
            r.constants@.dom().is_empty(),
            r.initial_buckets.is_none(),
            r.correction_point.is_none(),
    {
        MSMGate {
            columns: WideColumns { a0, a1, a2, a3, a4, a5, a6, a7, a8, constant },
            range_table,
            window,
            aux_generator,
            memory: Memory::new(),
            constants: Constants::new(),
            initial_buckets: None,
            correction_point: None,
        }
    }
}

} // verus!
