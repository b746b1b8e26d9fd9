use plonklite::cs::{ColKind, Column, ConstraintSystem, Error};
use plonklite::cubic::{cubic_configure, cubic_synthesize};
use plonklite::fibo::{fibo_configure, fibo_first_row, fibo_next_row, fibo_synthesize};
use plonklite::field::{FValue, Fp, MODULUS};
use plonklite::layout::{AssignedCell, Cell, Layouter, RegionPlan, WriteOp};
use plonklite::expr::Expression;
use plonklite::verify::{is_satisfied, rotated, verify, Failure};

fn known(v: u64) -> FValue {
    FValue::Known(Fp::from_u64(v))
}

fn no_instances() -> Vec<Vec<Fp>> {
    Vec::new()
}

#[test]
fn fibonacci_satisfied() {
    let mut cs = ConstraintSystem::new();
    let cfg = fibo_configure(&mut cs);
    let mut lay = Layouter::new(cs, 4);
    let r = fibo_synthesize(&mut lay, cfg, known(1), known(1), 8);
    assert!(r.is_ok());
    // The eighth row's c cell holds the tenth Fibonacci number.
    assert_eq!(lay.advice_at(2, 7), known(55));
    assert!(is_satisfied(&lay, &no_instances()));
}

#[test]
fn fibonacci_gate_violation() {
    let mut cs = ConstraintSystem::new();
    let cfg = fibo_configure(&mut cs);
    let mut lay = Layouter::new(cs, 4);
    let (_, mut prev_b, mut prev_c) = fibo_first_row(&mut lay, cfg, known(1), known(1)).unwrap();
    for row in 1..8 {
        if row == 4 {
            // Overwrite this row's c cell with 99 instead of a + b.
            let plan = RegionPlan {
                name: "bad row".to_string(),
                writes: vec![
                    WriteOp::CopyAdvice { src: prev_b, col: cfg.col_a, offset: 0 },
                    WriteOp::CopyAdvice { src: prev_c, col: cfg.col_b, offset: 0 },
                    WriteOp::Advice { col: cfg.col_c, offset: 0, value: known(99) },
                ],
                eq_pairs: Vec::new(),
                enables: vec![(cfg.selector, 0)],
            };
            let cells = lay.assign_region(&plan).unwrap();
            prev_b = prev_c;
            prev_c = cells[2];
        } else {
            let cell = fibo_next_row(&mut lay, cfg, prev_b, prev_c).unwrap();
            prev_b = prev_c;
            prev_c = cell;
        }
    }
    let fails = verify(&lay, &no_instances());
    assert_eq!(fails.len(), 1);
    assert_eq!(fails[0], Failure::Gate { gate: 0, poly: 0, row: 4 });
}

#[test]
fn fibonacci_copy_violation() {
    let mut cs = ConstraintSystem::new();
    let cfg = fibo_configure(&mut cs);
    let mut lay = Layouter::new(cs, 4);
    let (_, mut prev_b, mut prev_c) = fibo_first_row(&mut lay, cfg, known(1), known(1)).unwrap();
    for row in 1..8 {
        if row == 4 {
            // Copy the previous c into b, then overwrite b with an
            // independent value; keep that row's gate satisfied.
            let plan = RegionPlan {
                name: "broken copy".to_string(),
                writes: vec![
                    WriteOp::CopyAdvice { src: prev_b, col: cfg.col_a, offset: 0 },
                    WriteOp::CopyAdvice { src: prev_c, col: cfg.col_b, offset: 0 },
                    WriteOp::Advice { col: cfg.col_b, offset: 0, value: known(99) },
                    WriteOp::Advice {
                        col: cfg.col_c,
                        offset: 0,
                        value: prev_b.value.fv_add(known(99)),
                    },
                ],
                eq_pairs: Vec::new(),
                enables: vec![(cfg.selector, 0)],
            };
            let cells = lay.assign_region(&plan).unwrap();
            prev_b = prev_c;
            prev_c = cells[3];
        } else {
            let cell = fibo_next_row(&mut lay, cfg, prev_b, prev_c).unwrap();
            prev_b = prev_c;
            prev_c = cell;
        }
    }
    let fails = verify(&lay, &no_instances());
    assert_eq!(fails.len(), 1);
    // Rows one to three record two pairs each; the broken pair is the
    // second one of the fourth row.
    assert_eq!(fails[0], Failure::Permutation { pair: 7 });
}

#[test]
fn fibonacci_over_budget() {
    let mut cs = ConstraintSystem::new();
    let cfg = fibo_configure(&mut cs);
    // k = 4 gives 16 rows, 13 of them usable: 32 rows cannot fit.
    let mut lay = Layouter::new(cs, 4);
    let r = fibo_synthesize(&mut lay, cfg, known(1), known(1), 32);
    assert_eq!(r, Err(Error::Bounds));
}

#[test]
fn fibonacci_succeeds_at_larger_k() {
    for k in [4usize, 5, 6] {
        let mut cs = ConstraintSystem::new();
        let cfg = fibo_configure(&mut cs);
        let mut lay = Layouter::new(cs, k);
        let r = fibo_synthesize(&mut lay, cfg, known(1), known(1), 8);
        assert!(r.is_ok());
        assert!(is_satisfied(&lay, &no_instances()));
    }
}

#[test]
fn fibonacci_deterministic() {
    let mut cs1 = ConstraintSystem::new();
    let cfg1 = fibo_configure(&mut cs1);
    let mut lay1 = Layouter::new(cs1, 4);
    fibo_synthesize(&mut lay1, cfg1, known(1), known(1), 8).unwrap();
    let mut cs2 = ConstraintSystem::new();
    let cfg2 = fibo_configure(&mut cs2);
    let mut lay2 = Layouter::new(cs2, 4);
    fibo_synthesize(&mut lay2, cfg2, known(1), known(1), 8).unwrap();
    for c in 0..3 {
        for r in 0..16 {
            assert_eq!(lay1.advice_at(c, r), lay2.advice_at(c, r));
        }
    }
}

#[test]
fn cubic_satisfied_at_three() {
    let mut cs = ConstraintSystem::new();
    let cfg = cubic_configure(&mut cs);
    let mut lay = Layouter::new(cs, 4);
    let r = cubic_synthesize(&mut lay, cfg, known(3));
    assert!(r.is_ok());
    // 3^3 + 3 + 5 = 35 sits in the z cell of the fifth row.
    assert_eq!(lay.advice_at(2, 4), known(35));
    assert!(is_satisfied(&lay, &no_instances()));
}

#[test]
fn cubic_gate_failure_at_two() {
    let mut cs = ConstraintSystem::new();
    let cfg = cubic_configure(&mut cs);
    let mut lay = Layouter::new(cs, 4);
    let r = cubic_synthesize(&mut lay, cfg, known(2));
    assert!(r.is_ok());
    // 2^3 + 2 + 5 = 15, so the pinning row's gate fails.
    let fails = verify(&lay, &no_instances());
    assert_eq!(fails.len(), 1);
    assert_eq!(fails[0], Failure::Gate { gate: 0, poly: 0, row: 5 });
}

#[test]
fn field_arithmetic() {
    let a = Fp::from_u64(MODULUS - 1);
    let b = Fp::from_u64(2);
    assert_eq!(a.add(b).repr(), 1);
    assert_eq!(b.sub(a).repr(), 3);
    assert_eq!(a.mul(a).repr(), 1);
    assert_eq!(Fp::from_u64(MODULUS).repr(), 0);
    assert_eq!(Fp::from_u64(7).neg().add(Fp::from_u64(7)).repr(), 0);
    assert!(Fp::from_u64(MODULUS + 5).equals(Fp::from_u64(5)));
}

#[test]
fn unknown_values_propagate() {
    let x = known(4);
    assert_eq!(x.fv_add(FValue::Unknown), FValue::Unknown);
    assert_eq!(FValue::Unknown.fv_mul(x), FValue::Unknown);
    assert_eq!(x.fv_mul(known(5)), known(20));
}

#[test]
fn equality_on_fixed_column_rejected() {
    let mut cs = ConstraintSystem::new();
    let f = cs.fixed_column();
    assert_eq!(cs.enable_equality(f), Err(Error::Configuration));
}

#[test]
fn empty_gate_rejected() {
    let mut cs = ConstraintSystem::new();
    assert_eq!(cs.create_gate("empty".to_string(), Vec::new()), Err(Error::Configuration));
}

#[test]
fn wrong_column_kind_rejected() {
    let mut cs = ConstraintSystem::new();
    let f = cs.fixed_column();
    let mut lay = Layouter::new(cs, 4);
    let plan = RegionPlan {
        name: "bad write".to_string(),
        writes: vec![WriteOp::Advice { col: f, offset: 0, value: known(1) }],
        eq_pairs: Vec::new(),
        enables: Vec::new(),
    };
    assert_eq!(lay.assign_region(&plan), Err(Error::Assignment));
}

#[test]
fn copy_needs_equality_enabled() {
    let mut cs = ConstraintSystem::new();
    let a = cs.advice_column();
    let b = cs.advice_column();
    // Only column a is equality-enabled.
    cs.enable_equality(a).unwrap();
    let mut lay = Layouter::new(cs, 4);
    let plan = RegionPlan {
        name: "seed".to_string(),
        writes: vec![WriteOp::Advice { col: a, offset: 0, value: known(1) }],
        eq_pairs: Vec::new(),
        enables: Vec::new(),
    };
    let cells = lay.assign_region(&plan).unwrap();
    let bad = RegionPlan {
        name: "copy into plain column".to_string(),
        writes: vec![WriteOp::CopyAdvice { src: cells[0], col: b, offset: 0 }],
        eq_pairs: Vec::new(),
        enables: Vec::new(),
    };
    assert_eq!(lay.assign_region(&bad), Err(Error::Assignment));
}

#[test]
fn instance_mismatch_reported() {
    let mut cs = ConstraintSystem::new();
    let a = cs.advice_column();
    let i = cs.instance_column();
    cs.enable_equality(a).unwrap();
    cs.enable_equality(i).unwrap();
    let mut lay = Layouter::new(cs, 4);
    let a_cell = AssignedCell {
        cell: Cell { kind: ColKind::Advice, index: a.index, row: 0 },
        value: known(7),
    };
    let i_cell = AssignedCell {
        cell: Cell { kind: ColKind::Instance, index: i.index, row: 0 },
        value: known(8),
    };
    let plan = RegionPlan {
        name: "pin to public input".to_string(),
        writes: vec![WriteOp::Advice { col: a, offset: 0, value: known(7) }],
        eq_pairs: vec![(a_cell, i_cell)],
        enables: Vec::new(),
    };
    lay.assign_region(&plan).unwrap();
    let instances = vec![vec![Fp::from_u64(8)]];
    let fails = verify(&lay, &instances);
    assert_eq!(fails.len(), 1);
    assert_eq!(fails[0], Failure::Instance { pair: 0 });
    let matching = vec![vec![Fp::from_u64(7)]];
    assert!(verify(&lay, &matching).is_empty());
}

#[test]
fn regions_pack_in_order() {
    let mut cs = ConstraintSystem::new();
    let a = cs.advice_column();
    let mut lay = Layouter::new(cs, 4);
    for v in 0..3u64 {
        let plan = RegionPlan {
            name: "one row".to_string(),
            writes: vec![WriteOp::Advice { col: a, offset: 0, value: known(v) }],
            eq_pairs: Vec::new(),
            enables: Vec::new(),
        };
        let cells = lay.assign_region(&plan).unwrap();
        // Each region lands one row below the previous one.
        assert_eq!(cells[0].cell.row, v as usize);
    }
    assert_eq!(lay.advice_at(0, 2), known(2));
    assert_eq!(lay.advice_at(0, 3), FValue::Unknown);
}

#[test]
fn degree_bound_enforced() {
    let mut cs = ConstraintSystem::new();
    let a = cs.advice_column();
    // A degree-nine product exceeds the bound of eight.
    let mut e = Expression::Advice(a.index, 0);
    for _ in 0..8 {
        e = Expression::Product(Box::new(e), Box::new(Expression::Advice(a.index, 0)));
    }
    assert_eq!(cs.create_gate("too big".to_string(), vec![e]), Err(Error::Configuration));
    // Degree eight itself is accepted.
    let mut e8 = Expression::Advice(a.index, 0);
    for _ in 0..7 {
        e8 = Expression::Product(Box::new(e8), Box::new(Expression::Advice(a.index, 0)));
    }
    assert!(cs.create_gate("just fits".to_string(), vec![e8]).is_ok());
}

#[test]
fn rotation_wraps_around() {
    assert_eq!(rotated(0, -1, 16), 15);
    assert_eq!(rotated(15, 1, 16), 0);
    assert_eq!(rotated(5, 0, 16), 5);
    assert_eq!(rotated(3, -35, 16), 0);
}
