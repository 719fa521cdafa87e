use ff::{Field, PrimeField};
use group::{Curve, Group};
use msm_circuit::constraints::{check_region, tabulate};
use msm_circuit::curve::Point;
use msm_circuit::field::Fe;
use msm_circuit::gate::{add, all_zero, assign_point, double, equal, Columns, Constants};
use msm_circuit::region::{
    Advice, AssignedPoint, AssignedValue, Cell, Column, Fixed, Op, RegionCtx, Selector,
};
use pasta_curves::arithmetic::CurveAffine;
use pasta_curves::vesta;
use pasta_curves::{EqAffine, Fq};
use rand_core::SeedableRng;
use rand_xorshift::XorShiftRng;

fn limbs(bytes: [u8; 32]) -> [u64; 4] {
    let mut out = [0u64; 4];
    for i in 0..4 {
        let mut word = [0u8; 8];
        word.copy_from_slice(&bytes[8 * i..8 * i + 8]);
        out[i] = u64::from_le_bytes(word);
    }
    out
}

fn fe(x: &Fq) -> Fe {
    let l = limbs(x.to_repr());
    Fe { l0: l[0], l1: l[1], l2: l[2], l3: l[3] }
}

fn rng() -> XorShiftRng {
    XorShiftRng::from_seed([
        0x59, 0x62, 0xbe, 0x5d, 0x76, 0x3d, 0x31, 0x8d, 0x17, 0xdb, 0x37, 0x32, 0x54, 0x06, 0xbc,
        0xe5,
    ])
}

fn point(p: &EqAffine) -> Point {
    let c = p.coordinates().unwrap();
    Point { x: fe(c.x()), y: fe(c.y()) }
}

fn columns() -> Columns {
    Columns {
        a0: Advice { index: 0 },
        a1: Advice { index: 1 },
        a2: Advice { index: 2 },
        a3: Advice { index: 3 },
        a4: Advice { index: 4 },
        constant: Fixed { index: 0 },
    }
}

fn advice(index: u8, row: usize) -> Cell {
    Cell { column: Column::Advice(Advice { index }), row }
}

#[test]
fn steps_are_recorded_in_order() {
    let c = columns();
    let mut ctx = RegionCtx::new();
    assert_eq!(ctx.offset(), 0);
    ctx.enable(Selector::Add);
    let a = ctx.advice(c.a1, Some(Fe::from_u64(3)));
    let f = ctx.fixed(c.constant, Fe::from_u64(4));
    let z = ctx.empty(Column::Advice(c.a0));
    ctx.next();
    let b = ctx.copy(c.a2, &a);
    ctx.equal(a.cell, b.cell);
    ctx.empty(Column::Fixed(c.constant));
    assert_eq!(ctx.offset(), 1);
    assert_eq!(a, AssignedValue { cell: advice(1, 0), value: Some(Fe::from_u64(3)) });
    assert_eq!(f.value, Some(Fe::from_u64(4)));
    assert_eq!(f.cell, Cell { column: Column::Fixed(c.constant), row: 0 });
    assert_eq!(z, AssignedValue { cell: advice(0, 0), value: Some(Fe::zero()) });
    assert_eq!(b, AssignedValue { cell: advice(2, 1), value: Some(Fe::from_u64(3)) });
    assert_eq!(
        *ctx.ops(),
        vec![
            Op::Enable(Selector::Add),
            Op::Advice(c.a1, Some(Fe::from_u64(3))),
            Op::Fixed(c.constant, Fe::from_u64(4)),
            Op::Advice(c.a0, Some(Fe::zero())),
            Op::Next,
            Op::Copy(c.a2, advice(1, 0), Some(Fe::from_u64(3))),
            Op::Equal(advice(1, 0), advice(2, 1)),
            Op::Fixed(c.constant, Fe::zero()),
        ]
    );
}

#[test]
fn an_addition_takes_two_rows_and_is_satisfied() {
    let c = columns();
    let mut rng = rng();
    let p = vesta::Point::random(&mut rng);
    let q = vesta::Point::random(&mut rng);
    let mut ctx = RegionCtx::new();
    let a = assign_point(&c, &mut ctx, &Some(point(&p.to_affine())));
    let b = assign_point(&c, &mut ctx, &Some(point(&q.to_affine())));
    assert_eq!(ctx.offset(), 2);
    let sum = add(&c, &mut ctx, &a, &b);
    assert_eq!(ctx.offset(), 4);
    assert_eq!(sum.value(), Some(point(&(p + q).to_affine())));
    assert_eq!(sum.x().cell, advice(1, 3));
    assert_eq!(sum.y().cell, advice(2, 3));
    assert_eq!(sum.coords(), Some((sum.x().value.unwrap(), sum.y().value.unwrap())));
    let twice = double(&c, &mut ctx, &sum);
    assert_eq!(ctx.offset(), 6);
    assert_eq!(twice.value(), Some(point(&(p + q).double().to_affine())));
    assert_eq!(twice.x().cell, advice(2, 5));
    assert_eq!(twice.y().cell, advice(3, 5));
    let (x, y) = sum.dbl();
    assert_eq!((x, y), (twice.x().value, twice.y().value));
    let again = add(&c, &mut ctx, &twice, &a);
    equal(&mut ctx, &again, &again);
    all_zero(&c, &mut ctx);
    assert_eq!(ctx.offset(), 9);
    assert!(check_region(ctx.ops(), &c, 4));
    let rows = tabulate(ctx.ops(), &c);
    assert_eq!(rows.len(), 9);
    assert!(rows[0].point && rows[1].point && rows[2].add && rows[4].double && rows[6].add);
    assert_eq!(rows[3].a1, sum.x().value);
    assert_eq!(rows[8].a4, Some(Fe::zero()));
}

#[test]
fn a_point_off_the_curve_is_not_satisfied() {
    let c = columns();
    let mut ctx = RegionCtx::new();
    // the rows of a point, with a y that is not the point's
    let g = point(&vesta::Point::generator().to_affine());
    ctx.enable(Selector::Point);
    ctx.advice(c.a0, Some(g.x));
    ctx.advice(c.a1, Some(g.y.add(&Fe::one())));
    ctx.advice(c.a2, Some(g.x.square()));
    ctx.advice(c.a3, Some(g.x.square().mul(&g.x)));
    ctx.fixed(c.constant, Fe::zero());
    ctx.next();
    assert!(!check_region(ctx.ops(), &c, 4));
}

#[test]
fn an_addition_without_witness_is_not_satisfied() {
    let c = columns();
    let mut rng = rng();
    let p = point(&vesta::Point::random(&mut rng).to_affine());
    let mut ctx = RegionCtx::new();
    let a = assign_point(&c, &mut ctx, &Some(p));
    let b = assign_point(&c, &mut ctx, &Some(p));
    // the two summands have one x: the sum has no witness
    let sum = add(&c, &mut ctx, &a, &b);
    assert_eq!(sum.value(), None);
    assert_eq!(ctx.offset(), 4);
    assert!(!check_region(ctx.ops(), &c, 4));
    // unknown summands lay the same rows out
    let mut unknown = RegionCtx::new();
    let a = assign_point(&c, &mut unknown, &None);
    let b = assign_point(&c, &mut unknown, &None);
    let sum = add(&c, &mut unknown, &a, &b);
    assert_eq!(sum.value(), None);
    assert_eq!(unknown.offset(), 4);
    assert_eq!(unknown.ops().len(), ctx.ops().len());
}

#[test]
fn a_copy_of_another_value_is_not_satisfied() {
    let c = columns();
    let mut ctx = RegionCtx::new();
    let a = ctx.advice(c.a0, Some(Fe::from_u64(3)));
    ctx.next();
    ctx.copy(c.a1, &a);
    ctx.next();
    assert!(check_region(ctx.ops(), &c, 4));
    let forged = AssignedValue { cell: a.cell, value: Some(Fe::from_u64(4)) };
    ctx.copy(c.a1, &forged);
    ctx.next();
    assert!(!check_region(ctx.ops(), &c, 4));
}

#[test]
fn unequal_cells_are_not_satisfied() {
    let c = columns();
    let mut ctx = RegionCtx::new();
    let a = ctx.advice(c.a0, Some(Fe::from_u64(3)));
    let b = ctx.advice(c.a1, Some(Fe::from_u64(3)));
    let d = ctx.advice(c.a2, Some(Fe::from_u64(4)));
    ctx.next();
    ctx.equal(a.cell, b.cell);
    assert!(check_region(ctx.ops(), &c, 4));
    ctx.equal(a.cell, d.cell);
    assert!(!check_region(ctx.ops(), &c, 4));
}

#[test]
fn a_window_out_of_range_is_not_satisfied() {
    let c = columns();
    let mut ctx = RegionCtx::new();
    ctx.enable(Selector::Range);
    ctx.advice(c.a0, Some(Fe::from_u64(15)));
    ctx.next();
    assert!(check_region(ctx.ops(), &c, 4));
    assert!(!check_region(ctx.ops(), &c, 3));
}

#[test]
fn a_constant_is_assigned_once() {
    let c = columns();
    let mut ctx = RegionCtx::new();
    let mut constants = Constants::new();
    let seven = constants.get(&c, &mut ctx, Fe::from_u64(7));
    assert_eq!(ctx.offset(), 1);
    assert_eq!(seven, AssignedValue { cell: advice(4, 0), value: Some(Fe::from_u64(7)) });
    let again = constants.get(&c, &mut ctx, Fe::from_u64(7));
    assert_eq!(ctx.offset(), 1);
    assert_eq!(again, seven);
    let eight = constants.get(&c, &mut ctx, Fe::from_u64(8));
    assert_eq!(ctx.offset(), 2);
    assert_eq!(eight.cell, advice(4, 1));
    assert_eq!(ctx.ops().len(), 16);
    assert!(check_region(ctx.ops(), &c, 4));
    // a new synthesis assigns the constant again
    constants.clear();
    constants.get(&c, &mut ctx, Fe::from_u64(7));
    assert_eq!(ctx.offset(), 3);
}

#[test]
fn a_constant_point_takes_a_row_for_each_new_coordinate() {
    let c = columns();
    let g = point(&vesta::Point::generator().to_affine());
    let mut ctx = RegionCtx::new();
    let mut constants = Constants::new();
    let p = constants.get_point(&c, &mut ctx, &g);
    assert_eq!(p.value(), Some(g));
    assert_eq!(ctx.offset(), 2);
    // the y of the generator is 2
    constants.get(&c, &mut ctx, Fe::from_u64(2));
    assert_eq!(ctx.offset(), 2);
    let q = constants.get_point(&c, &mut ctx, &g);
    assert_eq!(ctx.offset(), 2);
    assert_eq!(q, p);
    let assigned = AssignedPoint::new(*p.x(), *p.y());
    assert_eq!(assigned, p);
}
