//! What a laid-out region has to satisfy: the identities of the
//! elliptic-curve gate on the rows that enable them, the range of the
//! windows, and the equality of copied cells.

use crate::curve::Point;
use crate::field::{fadd, fe, lemma_fe_of_view, Fe};
use crate::field::fmul;
use crate::gate::{
    add_gate, add_ops, add_witness, assign_point_ops, check_add_gate, check_double_gate,
    check_point_gate, constant_gate, constant_ops, double_gate, double_ops, double_witness,
    point_gate, Columns,
};
use crate::region::AssignedPoint;
use crate::region::{Advice, Cell, Column, Fixed, Op, Selector, Value};
use vstd::arithmetic::power2::pow2;
use vstd::prelude::*;

verus! {

/// The cells of one row and the selectors that are on for it. A cell that
/// was not assigned, or whose value is unknown, is `None`.
#[derive(Clone, Copy, Debug, PartialEq, Eq, Structural)]
pub struct Row {
    pub point: bool,
    pub add: bool,
    pub double: bool,
    pub range: bool,
    pub windows: bool,
    pub assign_constant: bool,
    pub query: bool,
    pub table: bool,
    pub sorted: bool,
    pub a0: Value,
    pub a1: Value,
    pub a2: Value,
    pub a3: Value,
    pub a4: Value,
    pub constant: Value,
}

/// A row with nothing assigned and nothing enabled.
pub open spec fn blank() -> Row {
    Row {
        point: false,
        add: false,
        double: false,
        range: false,
        windows: false,
        assign_constant: false,
        query: false,
        table: false,
        sorted: false,
        a0: None,
        a1: None,
        a2: None,
        a3: None,
        a4: None,
        constant: None,
    }
}

/// The row with an advice cell assigned.
pub open spec fn with_advice(row: Row, c: Columns, column: Advice, value: Value) -> Row {
    if column == c.a0 {
        Row { a0: value, ..row }
    } else if column == c.a1 {
        Row { a1: value, ..row }
    } else if column == c.a2 {
        Row { a2: value, ..row }
    } else if column == c.a3 {
        Row { a3: value, ..row }
    } else if column == c.a4 {
        Row { a4: value, ..row }
    } else {
        row
    }
}

/// The row after one step of the layout.
pub open spec fn apply(row: Row, c: Columns, op: Op) -> Row {
    match op {
        Op::Enable(Selector::Point) => Row { point: true, ..row },
        Op::Enable(Selector::Add) => Row { add: true, ..row },
        Op::Enable(Selector::Double) => Row { double: true, ..row },
        Op::Enable(Selector::Range) => Row { range: true, ..row },
        Op::Enable(Selector::Windows) => Row { windows: true, ..row },
        Op::Enable(Selector::AssignConstant) => Row { assign_constant: true, ..row },
        Op::Enable(Selector::Query) => Row { query: true, ..row },
        Op::Enable(Selector::Table) => Row { table: true, ..row },
        Op::Enable(Selector::Sorted) => Row { sorted: true, ..row },
        Op::Enable(_) => row,
        Op::Advice(column, value) => with_advice(row, c, column, value),
        Op::Copy(column, _, value) => with_advice(row, c, column, value),
        Op::Fixed(column, value) => if column == c.constant {
            Row { constant: Some(value), ..row }
        } else {
            row
        },
        Op::Equal(_, _) => row,
        Op::Next => row,
    }
}

/// The completed rows of a record, and the row under way.
pub open spec fn layout(ops: Seq<Op>, c: Columns) -> (Seq<Row>, Row)
    decreases ops.len(),
{
    if ops.len() == 0 {
        (Seq::empty(), blank())
    } else {
        let (done, row) = layout(ops.drop_last(), c);
        if ops.last() == Op::Next {
            (done.push(row), blank())
        } else {
            (done, apply(row, c, ops.last()))
        }
    }
}

/// The completed rows of a record.
pub open spec fn table(ops: Seq<Op>, c: Columns) -> Seq<Row> {
    layout(ops, c).0
}

/// The value of a cell of the table.
pub open spec fn cell_value(rows: Seq<Row>, c: Columns, cell: Cell) -> Value {
    if cell.row < rows.len() {
        let row = rows[cell.row as int];
        match cell.column {
            Column::Advice(column) => if column == c.a0 {
                row.a0
            } else if column == c.a1 {
                row.a1
            } else if column == c.a2 {
                row.a2
            } else if column == c.a3 {
                row.a3
            } else if column == c.a4 {
                row.a4
            } else {
                None
            },
            Column::Fixed(column) => if column == c.constant {
                row.constant
            } else {
                None
            },
        }
    } else {
        None
    }
}

/// The four cells are known and satisfy the identities of a point.
pub open spec fn point_ok(row: Row) -> bool {
    match (row.a0, row.a1, row.a2, row.a3) {
        (Some(x), Some(y), Some(x2), Some(x3)) => point_gate(x@, y@, x2@, x3@),
        _ => false,
    }
}

/// The cells of the two rows are known and satisfy the identities of an
/// addition.
pub open spec fn add_ok(row: Row, next: Row) -> bool {
    match (row.a1, row.a2, row.a3, row.a4, next.a1, next.a2, next.a3, next.a4) {
        (Some(ax), Some(ay), Some(bx), Some(by), Some(ox), Some(oy), Some(t), Some(i)) => add_gate(
            Point { x: ax, y: ay },
            Point { x: bx, y: by },
            Point { x: ox, y: oy },
            t@,
            i@,
        ),
        _ => false,
    }
}

/// The cells of the two rows are known and satisfy the identities of a
/// doubling.
pub open spec fn double_ok(row: Row, next: Row) -> bool {
    match (row.a0, row.a1, row.a2, row.a3, next.a1, next.a2, next.a3) {
        (Some(x), Some(y), Some(x2), Some(x4), Some(y2), Some(ox), Some(oy)) => double_gate(
            Point { x, y },
            Point { x: ox, y: oy },
            x2@,
            x4@,
            y2@,
        ),
        _ => false,
    }
}

/// The advice cell of a constant holds the constant.
pub open spec fn constant_ok(row: Row) -> bool {
    match (row.a4, row.constant) {
        (Some(a), Some(c)) => constant_gate(a, c),
        _ => false,
    }
}

/// The first cell is known and below `2^w`.
pub open spec fn range_ok(row: Row, w: nat) -> bool {
    match row.a0 {
        Some(a) => a@ < pow2(w),
        None => false,
    }
}

/// A cell is known and below `2^w`.
pub open spec fn in_range(cell: Value, w: nat) -> bool {
    match cell {
        Some(a) => a@ < pow2(w),
        None => false,
    }
}

/// Every advice cell of the row is known and below `2^w`.
pub open spec fn windows_ok(row: Row, w: nat) -> bool {
    &&& in_range(row.a0, w)
    &&& in_range(row.a1, w)
    &&& in_range(row.a2, w)
    &&& in_range(row.a3, w)
    &&& in_range(row.a4, w)
}

/// The `i`-th row satisfies what its selectors turn on.
pub open spec fn row_ok(rows: Seq<Row>, w: nat, i: int) -> bool {
    let row = rows[i];
    &&& row.point ==> point_ok(row)
    &&& row.add ==> i + 1 < rows.len() && add_ok(row, rows[i + 1])
    &&& row.double ==> i + 1 < rows.len() && double_ok(row, rows[i + 1])
    &&& row.assign_constant ==> constant_ok(row)
    &&& row.range ==> range_ok(row, w)
    &&& row.windows ==> windows_ok(row, w)
}

/// Every row satisfies what its selectors turn on.
pub open spec fn gates_hold(rows: Seq<Row>, w: nat) -> bool {
    forall|i: int| 0 <= i < rows.len() ==> #[trigger] row_ok(rows, w, i)
}

/// A step that copies a cell copies the value that the cell holds, and a
/// step that makes two cells equal finds them equal.
pub open spec fn copy_ok(rows: Seq<Row>, c: Columns, op: Op) -> bool {
    match op {
        Op::Copy(_, from, value) => value.is_some() && cell_value(rows, c, from) == value,
        Op::Equal(a, b) => cell_value(rows, c, a).is_some() && cell_value(rows, c, a)
            == cell_value(rows, c, b),
        _ => true,
    }
}

/// Every copy and every equality of a record holds in its table.
pub open spec fn copies_hold(ops: Seq<Op>, c: Columns) -> bool {
    forall|k: int| 0 <= k < ops.len() ==> #[trigger] copy_ok(table(ops, c), c, ops[k])
}

/// The region is satisfied: its rows satisfy the identities and the ranges
/// that their selectors turn on, and its copies and equalities hold.
pub open spec fn satisfied(ops: Seq<Op>, c: Columns, w: nat) -> bool {
    gates_hold(table(ops, c), w) && copies_hold(ops, c)
}

/// The five advice columns are five columns.
pub open spec fn distinct(c: Columns) -> bool {
    &&& c.a0 != c.a1 && c.a0 != c.a2 && c.a0 != c.a3 && c.a0 != c.a4
    &&& c.a1 != c.a2 && c.a1 != c.a3 && c.a1 != c.a4
    &&& c.a2 != c.a3 && c.a2 != c.a4
    &&& c.a3 != c.a4
}

/// The layout of the first `k` steps of a record is the layout of the steps
/// before with the last of them applied.
pub proof fn lemma_layout_step(ops: Seq<Op>, c: Columns, k: int)
    requires
        1 <= k <= ops.len(),
    ensures
        layout(ops.subrange(0, k), c) == if ops[k - 1] == Op::Next {
            (layout(ops.subrange(0, k - 1), c).0.push(layout(ops.subrange(0, k - 1), c).1), blank())
        } else {
            (
                layout(ops.subrange(0, k - 1), c).0,
                apply(layout(ops.subrange(0, k - 1), c).1, c, ops[k - 1]),
            )
        },
{
    assert(ops.subrange(0, k).drop_last() =~= ops.subrange(0, k - 1));
}

/// The layout of a record that is one row: the row, step by step.
pub open spec fn row_after(ops: Seq<Op>, c: Columns, k: int) -> Row
    decreases k,
{
    if k <= 0 {
        blank()
    } else {
        apply(row_after(ops, c, k - 1), c, ops[k - 1])
    }
}

/// A record without a step to the next row lays out no row, and its row
/// under way is the row step by step.
pub proof fn lemma_row_under_way(ops: Seq<Op>, c: Columns, k: int)
    requires
        0 <= k <= ops.len(),
        forall|i: int| 0 <= i < k ==> ops[i] != Op::Next,
    ensures
        layout(ops.subrange(0, k), c) == (Seq::<Row>::empty(), row_after(ops, c, k)),
    decreases k,
{
    if k > 0 {
        lemma_row_under_way(ops, c, k - 1);
        lemma_layout_step(ops, c, k);
    }
}

/// A record of one row lays that row out.
pub proof fn lemma_one_row(ops: Seq<Op>, c: Columns)
    requires
        ops.len() >= 1,
        ops.last() == Op::Next,
        forall|i: int| 0 <= i < ops.len() - 1 ==> ops[i] != Op::Next,
    ensures
        table(ops, c) == seq![row_after(ops, c, ops.len() - 1)],
{
    lemma_row_under_way(ops, c, ops.len() - 1);
    lemma_layout_step(ops, c, ops.len() as int);
    assert(ops.subrange(0, ops.len() as int) =~= ops);
    assert(table(ops, c) =~= seq![row_after(ops, c, ops.len() - 1)]);
}

/// A record of one row after another lays the rows of both out.
pub proof fn lemma_table_concat(a: Seq<Op>, b: Seq<Op>, c: Columns)
    requires
        a.len() >= 1,
        a.last() == Op::Next,
    ensures
        layout(a + b, c) == (table(a, c) + layout(b, c).0, layout(b, c).1),
    decreases b.len(),
{
    if b.len() == 0 {
        assert(a + b =~= a);
        assert(table(a, c) + layout(b, c).0 =~= table(a, c));
    } else {
        assert((a + b).drop_last() =~= a + b.drop_last());
        lemma_table_concat(a, b.drop_last(), c);
        let (done, row) = layout(b.drop_last(), c);
        if b.last() == Op::Next {
            assert((table(a, c) + done).push(row) =~= table(a, c) + done.push(row));
        }
    }
}

/// The row of a point of the curve satisfies the identities of a point.
pub proof fn lemma_point_row(c: Columns, p: Point)
    requires
        distinct(c),
        p.on_curve(),
    ensures
        table(assign_point_ops(c, Some(p)), c).len() == 1,
        table(assign_point_ops(c, Some(p)), c)[0].point,
        point_ok(table(assign_point_ops(c, Some(p)), c)[0]),
{
    let ops = assign_point_ops(c, Some(p));
    lemma_one_row(ops, c);
    reveal_with_fuel(row_after, 8);
    let row = row_after(ops, c, 6);
    assert(row.point);
    assert(row.a0 == Some(p.x) && row.a1 == Some(p.y));
    crate::field::lemma_view_of_fe(fmul(p.x@, p.x@));
    crate::field::lemma_view_of_fe(fmul(fmul(p.x@, p.x@), p.x@));
    crate::gate::lemma_point_gate(p);
}

/// The row of a constant satisfies the identity of a constant.
pub proof fn lemma_constant_row(c: Columns, value: Fe)
    requires
        distinct(c),
    ensures
        table(constant_ops(c, value), c).len() == 1,
        table(constant_ops(c, value), c)[0].assign_constant,
        constant_ok(table(constant_ops(c, value), c)[0]),
{
    let ops = constant_ops(c, value);
    lemma_one_row(ops, c);
    reveal_with_fuel(row_after, 9);
    let row = row_after(ops, c, 7);
    assert(row.assign_constant);
    assert(row.a4 == Some(value) && row.constant == Some(value));
}

/// The first row of an addition: the summands.
pub open spec fn summands_row(c: Columns, a: AssignedPoint, b: AssignedPoint) -> Seq<Op> {
    add_ops(c, a, b).subrange(0, 7)
}

/// The second row of an addition: the sum, `t` and its inverse.
pub open spec fn sum_row(c: Columns, a: AssignedPoint, b: AssignedPoint) -> Seq<Op> {
    add_ops(c, a, b).subrange(7, 14)
}

/// The rows of an addition hold the witnesses where the identities of the
/// addition read them: where the witnesses satisfy the identities, the rows
/// do.
pub proof fn lemma_add_rows(c: Columns, a: AssignedPoint, b: AssignedPoint)
    requires
        distinct(c),
        a.point().is_some(),
        b.point().is_some(),
        add_witness(a.point(), b.point()).out.is_some(),
        add_witness(a.point(), b.point()).t.is_some(),
        add_witness(a.point(), b.point()).inverse_t.is_some(),
        add_gate(
            a.point().unwrap(),
            b.point().unwrap(),
            add_witness(a.point(), b.point()).out.unwrap(),
            add_witness(a.point(), b.point()).t.unwrap()@,
            add_witness(a.point(), b.point()).inverse_t.unwrap()@,
        ),
    ensures
        table(add_ops(c, a, b), c).len() == 2,
        table(add_ops(c, a, b), c)[0].add,
        add_ok(table(add_ops(c, a, b), c)[0], table(add_ops(c, a, b), c)[1]),
{
    let ops = add_ops(c, a, b);
    let first = summands_row(c, a, b);
    let second = sum_row(c, a, b);
    assert(ops =~= first + second);
    lemma_one_row(first, c);
    lemma_one_row(second, c);
    lemma_table_concat(first, second, c);
    let upper = row_after(first, c, 6);
    let lower = row_after(second, c, 6);
    assert(table(ops, c) =~= seq![upper, lower]);
    assert(upper.add && upper.a1 == a.cell_x().value && upper.a2 == a.cell_y().value
        && upper.a3 == b.cell_x().value && upper.a4 == b.cell_y().value) by {
        reveal_with_fuel(row_after, 8);
    }
    let w = add_witness(a.point(), b.point());
    assert(lower.a1 == crate::gate::coord_x(w.out) && lower.a2 == crate::gate::coord_y(w.out)
        && lower.a3 == w.t && lower.a4 == w.inverse_t) by {
        reveal_with_fuel(row_after, 8);
    }
}

/// The first row of a doubling: the point with `x^2` and `x^4`.
pub open spec fn point_row(c: Columns, p: AssignedPoint) -> Seq<Op> {
    double_ops(c, p).subrange(0, 8)
}

/// The second row of a doubling: `y^2` and the double.
pub open spec fn double_row(c: Columns, p: AssignedPoint) -> Seq<Op> {
    double_ops(c, p).subrange(8, 15)
}

/// The rows of a doubling hold the witnesses where the identities of the
/// doubling read them: where the witnesses satisfy the identities, the rows
/// do.
pub proof fn lemma_double_rows(c: Columns, p: AssignedPoint)
    requires
        distinct(c),
        p.point().is_some(),
        double_witness(p.point()).out.is_some(),
        double_gate(
            p.point().unwrap(),
            double_witness(p.point()).out.unwrap(),
            double_witness(p.point()).x2.unwrap()@,
            double_witness(p.point()).x4.unwrap()@,
            double_witness(p.point()).y2.unwrap()@,
        ),
    ensures
        table(double_ops(c, p), c).len() == 2,
        table(double_ops(c, p), c)[0].double,
        double_ok(table(double_ops(c, p), c)[0], table(double_ops(c, p), c)[1]),
{
    let ops = double_ops(c, p);
    let first = point_row(c, p);
    let second = double_row(c, p);
    assert(ops =~= first + second);
    lemma_one_row(first, c);
    lemma_one_row(second, c);
    lemma_table_concat(first, second, c);
    let upper = row_after(first, c, 7);
    let lower = row_after(second, c, 6);
    assert(table(ops, c) =~= seq![upper, lower]);
    let w = double_witness(p.point());
    assert(upper.double && upper.a0 == p.cell_x().value && upper.a1 == p.cell_y().value
        && upper.a2 == w.x2 && upper.a3 == w.x4) by {
        reveal_with_fuel(row_after, 9);
    }
    assert(lower.a1 == w.y2 && lower.a2 == crate::gate::coord_x(w.out) && lower.a3
        == crate::gate::coord_y(w.out)) by {
        reveal_with_fuel(row_after, 8);
    }
}

/// The row with an advice cell assigned.
fn set_advice(row: &mut Row, c: &Columns, column: Advice, value: Value)
    ensures
        *final(row) == with_advice(*old(row), *c, column, value),
{
    if column == c.a0 {
        row.a0 = value;
    } else if column == c.a1 {
        row.a1 = value;
    } else if column == c.a2 {
        row.a2 = value;
    } else if column == c.a3 {
        row.a3 = value;
    } else if column == c.a4 {
        row.a4 = value;
    }
}

/// The row after one step of the layout.
fn step(row: &mut Row, c: &Columns, op: &Op)
    requires
        *op != Op::Next,
    ensures
        *final(row) == apply(*old(row), *c, *op),
{
    match op {
        Op::Enable(Selector::Point) => {
            row.point = true;
        },
        Op::Enable(Selector::Add) => {
            row.add = true;
        },
        Op::Enable(Selector::Double) => {
            row.double = true;
        },
        Op::Enable(Selector::Range) => {
            row.range = true;
        },
        Op::Enable(Selector::Windows) => {
            row.windows = true;
        },
        Op::Enable(Selector::AssignConstant) => {
            row.assign_constant = true;
        },
        Op::Enable(Selector::Query) => {
            row.query = true;
        },
        Op::Enable(Selector::Table) => {
            row.table = true;
        },
        Op::Enable(Selector::Sorted) => {
            row.sorted = true;
        },
        Op::Enable(_) => {},
        Op::Advice(column, value) => {
            set_advice(row, c, *column, *value);
        },
        Op::Copy(column, _, value) => {
            set_advice(row, c, *column, *value);
        },
        Op::Fixed(column, value) => {
            if *column == c.constant {
                row.constant = Some(*value);
            }
        },
        Op::Equal(_, _) => {},
        Op::Next => {},
    }
}

/// A row with nothing assigned and nothing enabled.
fn blank_row() -> (r: Row)
    ensures
        r == blank(),
{
    Row {
        point: false,
        add: false,
        double: false,
        range: false,
        windows: false,
        assign_constant: false,
        query: false,
        table: false,
        sorted: false,
        a0: None,
        a1: None,
        a2: None,
        a3: None,
        a4: None,
        constant: None,
    }
}

/// The completed rows of a record.
pub fn tabulate(ops: &Vec<Op>, c: &Columns) -> (r: Vec<Row>)
    ensures
        r@ == table(ops@, *c),
{
    let mut done: Vec<Row> = Vec::new();
    let mut row = blank_row();
    let mut i: usize = 0;
    assert(ops@.subrange(0, 0) =~= Seq::<Op>::empty());
    while i < ops.len()
        invariant
            i <= ops@.len(),
            (done@, row) == layout(ops@.subrange(0, i as int), *c),
        decreases ops@.len() - i,
    {
        assert(ops@.subrange(0, i + 1).drop_last() =~= ops@.subrange(0, i as int));
        if ops[i] == Op::Next {
            done.push(row);
            row = blank_row();
        } else {
            step(&mut row, c, &ops[i]);
        }
        i = i + 1;
    }
    assert(ops@.subrange(0, i as int) =~= ops@);
    done
}

/// Tests `row_ok`.
fn check_row(rows: &Vec<Row>, window: usize, i: usize) -> (r: bool)
    requires
        i < rows@.len(),
        window < 64,
    ensures
        r == row_ok(rows@, window as nat, i as int),
{
    let row = rows[i];
    if row.point {
        let ok = match (row.a0, row.a1, row.a2, row.a3) {
            (Some(x), Some(y), Some(x2), Some(x3)) => check_point_gate(&x, &y, &x2, &x3),
            _ => false,
        };
        if !ok {
            return false;
        }
    }
    if row.add {
        if i >= rows.len() - 1 {
            return false;
        }
        let next = rows[i + 1];
        let ok = match (row.a1, row.a2, row.a3, row.a4, next.a1, next.a2, next.a3, next.a4) {
            (Some(ax), Some(ay), Some(bx), Some(by), Some(ox), Some(oy), Some(t), Some(inv)) => {
                check_add_gate(
                    &Point { x: ax, y: ay },
                    &Point { x: bx, y: by },
                    &Point { x: ox, y: oy },
                    &t,
                    &inv,
                )
            },
            _ => false,
        };
        if !ok {
            return false;
        }
    }
    if row.double {
        if i >= rows.len() - 1 {
            return false;
        }
        let next = rows[i + 1];
        let ok = match (row.a0, row.a1, row.a2, row.a3, next.a1, next.a2, next.a3) {
            (Some(x), Some(y), Some(x2), Some(x4), Some(y2), Some(ox), Some(oy)) => {
                check_double_gate(&Point { x, y }, &Point { x: ox, y: oy }, &x2, &x4, &y2)
            },
            _ => false,
        };
        if !ok {
            return false;
        }
    }
    if row.assign_constant {
        let ok = match (row.a4, row.constant) {
            (Some(a), Some(c)) => a == c,
            _ => false,
        };
        if !ok {
            return false;
        }
    }
    if row.range {
        let size = crate::windows::number_of_buckets(window);
        let ok = match row.a0 {
            Some(a) => match a.to_u64() {
                Some(v) => v < size,
                None => false,
            },
            None => false,
        };
        if !ok {
            return false;
        }
    }
    if row.windows {
        let size = crate::windows::number_of_buckets(window);
        let ok = check_in_range(&row.a0, size) && check_in_range(&row.a1, size) && check_in_range(
            &row.a2,
            size,
        ) && check_in_range(&row.a3, size) && check_in_range(&row.a4, size);
        if !ok {
            return false;
        }
    }
    true
}

/// Tests that a cell is known and below `size`.
fn check_in_range(cell: &Value, size: u64) -> (r: bool)
    ensures
        r == (*cell matches Some(a) && a@ < size),
{
    match cell {
        Some(a) => match a.to_u64() {
            Some(v) => v < size,
            None => false,
        },
        None => false,
    }
}

/// The value of a cell of the table.
fn value_at(rows: &Vec<Row>, c: &Columns, cell: &Cell) -> (r: Value)
    ensures
        r == cell_value(rows@, *c, *cell),
{
    if cell.row < rows.len() {
        let row = rows[cell.row];
        match cell.column {
            Column::Advice(column) => {
                if column == c.a0 {
                    row.a0
                } else if column == c.a1 {
                    row.a1
                } else if column == c.a2 {
                    row.a2
                } else if column == c.a3 {
                    row.a3
                } else if column == c.a4 {
                    row.a4
                } else {
                    None
                }
            },
            Column::Fixed(column) => {
                if column == c.constant {
                    row.constant
                } else {
                    None
                }
            },
        }
    } else {
        None
    }
}

/// Tests whether a region is satisfied.
pub fn check_region(ops: &Vec<Op>, c: &Columns, window: usize) -> (r: bool)
    requires
        window < 64,
    ensures
        r == satisfied(ops@, *c, window as nat),
{
    let rows = tabulate(ops, c);
    let mut i: usize = 0;
    while i < rows.len()
        invariant
            i <= rows@.len(),
            window < 64,
            rows@ == table(ops@, *c),
            forall|k: int| 0 <= k < i ==> #[trigger] row_ok(rows@, window as nat, k),
        decreases rows@.len() - i,
    {
        if !check_row(&rows, window, i) {
            assert(!row_ok(table(ops@, *c), window as nat, i as int));
            return false;
        }
        i = i + 1;
    }
    let mut k: usize = 0;
    while k < ops.len()
        invariant
            k <= ops@.len(),
            rows@ == table(ops@, *c),
            gates_hold(rows@, window as nat),
            forall|j: int| 0 <= j < k ==> #[trigger] copy_ok(rows@, *c, ops@[j]),
        decreases ops@.len() - k,
    {
        let ok = match &ops[k] {
            Op::Copy(_, from, value) => {
                let held = value_at(&rows, c, from);
                value.is_some() && held == *value
            },
            Op::Equal(a, b) => {
                let left = value_at(&rows, c, a);
                let right = value_at(&rows, c, b);
                left.is_some() && left == right
            },
            _ => true,
        };
        if !ok {
            assert(!copy_ok(table(ops@, *c), *c, ops@[k as int]));
            return false;
        }
        k = k + 1;
    }
    true
}

/// What a row that looks a point up asks for: the sum of its first cell and
/// its fixed cell as the place, and the point.
pub open spec fn lookup_key(row: Row) -> Option<(Fe, Fe, Fe)> {
    match (row.a0, row.constant, row.a1, row.a2) {
        (Some(a), Some(c), Some(x), Some(y)) => Some((fe(fadd(a@, c@)), x, y)),
        _ => None,
    }
}

/// What a row of a table of points offers: its fixed cell as the place, and
/// the point.
pub open spec fn table_key(row: Row) -> Option<(Fe, Fe, Fe)> {
    match (row.constant, row.a1, row.a2) {
        (Some(c), Some(x), Some(y)) => Some((c, x, y)),
        _ => None,
    }
}

/// What a row of a query binds: address, point and timestamp, the
/// timestamp in the fixed cell.
pub open spec fn query_key(row: Row) -> Option<(Fe, Fe, Fe, Fe)> {
    match (row.a0, row.a1, row.a2, row.constant) {
        (Some(a), Some(x), Some(y), Some(t)) => Some((a, x, y, t)),
        _ => None,
    }
}

/// What a row of the sorted trace offers: address, point and timestamp, the
/// timestamp in the fourth advice cell.
pub open spec fn sorted_key(row: Row) -> Option<(Fe, Fe, Fe, Fe)> {
    match (row.a0, row.a1, row.a2, row.a3) {
        (Some(a), Some(x), Some(y), Some(t)) => Some((a, x, y, t)),
        _ => None,
    }
}

/// Every row that looks a point up finds its place and its point among the
/// entries.
pub open spec fn lookups_hold(rows: Seq<Row>, entries: Seq<(Fe, Fe, Fe)>) -> bool {
    forall|i: int|
        0 <= i < rows.len() && (#[trigger] rows[i]).query ==> lookup_key(rows[i]).is_some()
            && entries.contains(lookup_key(rows[i]).unwrap())
}

/// Every query of the rows is an entry of the sorted rows, with its address,
/// its point and its timestamp.
pub open spec fn queries_bound(rows: Seq<Row>, sorted: Seq<Row>) -> bool {
    forall|i: int|
        0 <= i < rows.len() && (#[trigger] rows[i]).query ==> query_key(rows[i]).is_some()
            && exists|j: int|
            0 <= j < sorted.len() && (#[trigger] sorted[j]).sorted && sorted_key(sorted[j])
                == query_key(rows[i])
}

/// Tests `lookups_hold`.
pub fn check_lookups(rows: &Vec<Row>, entries: &Vec<(Fe, Fe, Fe)>) -> (r: bool)
    ensures
        r == lookups_hold(rows@, entries@),
{
    let mut i: usize = 0;
    while i < rows.len()
        invariant
            i <= rows@.len(),
            forall|k: int|
                0 <= k < i && (#[trigger] rows@[k]).query ==> lookup_key(rows@[k]).is_some()
                    && entries@.contains(lookup_key(rows@[k]).unwrap()),
        decreases rows@.len() - i,
    {
        let row = rows[i];
        if row.query {
            let key = match (row.a0, row.constant, row.a1, row.a2) {
                (Some(a), Some(c), Some(x), Some(y)) => {
                    let at = a.add(&c);
                    proof {
                        lemma_fe_of_view(at);
                    }
                    Some((at, x, y))
                },
                _ => None,
            };
            let found = match key {
                Some(key) => {
                    let mut j: usize = 0;
                    let mut found = false;
                    while j < entries.len() && !found
                        invariant
                            j <= entries@.len(),
                            found ==> entries@.contains(key),
                            !found ==> forall|k: int| 0 <= k < j ==> entries@[k] != key,
                        decreases entries@.len() - j + if found {
                            0int
                        } else {
                            1int
                        },
                    {
                        let e = entries[j];
                        if e.0 == key.0 && e.1 == key.1 && e.2 == key.2 {
                            found = true;
                        } else {
                            j = j + 1;
                        }
                    }
                    found
                },
                None => false,
            };
            if !found {
                return false;
            }
        }
        i = i + 1;
    }
    true
}

/// The places and points that the rows of a table of points offer.
pub fn table_entries(rows: &Vec<Row>) -> (r: Vec<(Fe, Fe, Fe)>)
    ensures
        forall|e: (Fe, Fe, Fe)|
            r@.contains(e) <==> exists|i: int|
                0 <= i < rows@.len() && (#[trigger] rows@[i]).table && table_key(rows@[i])
                    == Some(e),
{
    let mut r: Vec<(Fe, Fe, Fe)> = Vec::new();
    let mut i: usize = 0;
    while i < rows.len()
        invariant
            i <= rows@.len(),
            forall|e: (Fe, Fe, Fe)|
                r@.contains(e) <==> exists|k: int|
                    0 <= k < i && (#[trigger] rows@[k]).table && table_key(rows@[k]) == Some(e),
        decreases rows@.len() - i,
    {
        let row = rows[i];
        let ghost before = r@;
        let mut pushed = false;
        if row.table {
            match (row.constant, row.a1, row.a2) {
                (Some(c), Some(x), Some(y)) => {
                    r.push((c, x, y));
                    pushed = true;
                },
                _ => {},
            }
        }
        proof {
            assert forall|e: (Fe, Fe, Fe)|
                r@.contains(e) <==> exists|k: int|
                    0 <= k < i + 1 && (#[trigger] rows@[k]).table && table_key(rows@[k]) == Some(
                        e,
                    ) by {
                if pushed {
                    let added = table_key(rows@[i as int]).unwrap();
                    assert(r@ == before.push(added));
                    assert(r@[before.len() as int] == added);
                    if r@.contains(e) {
                        let j = choose|j: int| 0 <= j < r@.len() && r@[j] == e;
                        if j < before.len() {
                            assert(before[j] == e);
                            assert(before.contains(e));
                        } else {
                            assert(rows@[i as int].table && table_key(rows@[i as int]) == Some(e));
                        }
                    }
                    if exists|k: int|
                        0 <= k < i + 1 && (#[trigger] rows@[k]).table && table_key(rows@[k])
                            == Some(e) {
                        let k = choose|k: int|
                            0 <= k < i + 1 && (#[trigger] rows@[k]).table && table_key(rows@[k])
                                == Some(e);
                        if k < i {
                            assert(before.contains(e));
                            let j = choose|j: int| 0 <= j < before.len() && before[j] == e;
                            assert(r@[j] == e);
                        } else {
                            assert(r@[before.len() as int] == e);
                        }
                    }
                } else {
                    if exists|k: int|
                        0 <= k < i + 1 && (#[trigger] rows@[k]).table && table_key(rows@[k])
                            == Some(e) {
                        let k = choose|k: int|
                            0 <= k < i + 1 && (#[trigger] rows@[k]).table && table_key(rows@[k])
                                == Some(e);
                        assert(k < i);
                    }
                }
            }
        }
        i = i + 1;
    }
    r
}

/// Tests `queries_bound`.
pub fn check_binding(rows: &Vec<Row>, sorted: &Vec<Row>) -> (r: bool)
    ensures
        r == queries_bound(rows@, sorted@),
{
    let mut i: usize = 0;
    while i < rows.len()
        invariant
            i <= rows@.len(),
            forall|k: int|
                0 <= k < i && (#[trigger] rows@[k]).query ==> query_key(rows@[k]).is_some()
                    && exists|j: int|
                    0 <= j < sorted@.len() && (#[trigger] sorted@[j]).sorted && sorted_key(
                        sorted@[j],
                    ) == query_key(rows@[k]),
        decreases rows@.len() - i,
    {
        let row = rows[i];
        if row.query {
            let found = match (row.a0, row.a1, row.a2, row.constant) {
                (Some(a), Some(x), Some(y), Some(t)) => {
                    let mut j: usize = 0;
                    let mut found = false;
                    while j < sorted.len() && !found
                        invariant
                            j <= sorted@.len(),
                            query_key(row) == Some((a, x, y, t)),
                            found ==> j < sorted@.len() && sorted@[j as int].sorted && sorted_key(
                                sorted@[j as int],
                            ) == query_key(row),
                            !found ==> forall|k: int|
                                0 <= k < j ==> !((#[trigger] sorted@[k]).sorted && sorted_key(
                                    sorted@[k],
                                ) == query_key(row)),
                        decreases sorted@.len() - j + if found {
                            0int
                        } else {
                            1int
                        },
                    {
                        let s = sorted[j];
                        let same = match (s.a0, s.a1, s.a2, s.a3) {
                            (Some(sa), Some(sx), Some(sy), Some(st)) => sa == a && sx == x && sy
                                == y && st == t,
                            _ => false,
                        };
                        if s.sorted && same {
                            found = true;
                        } else {
                            j = j + 1;
                        }
                    }
                    found
                },
                _ => false,
            };
            if !found {
                return false;
            }
        }
        i = i + 1;
    }
    true
}

} // verus!
