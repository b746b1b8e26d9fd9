//! A circuit for the relation `x^3 + x + 5 = 35`.
//!
//! Three advice columns `(x, y, z)` and two selectors govern an addition
//! gate `s_add * (x + y - z)` and a multiplication gate
//! `s_mul * (x * y - z)`.  Six single-row regions compute `x * 1`,
//! `x^2`, `x^3`, `x^3 + x`, `x^3 + x + 5`, and finally pin the result
//! against the constant by an addition row `(t, 0, 35)`, whose gate then
//! demands `t + 0 = 35`.

use vstd::prelude::*;
use crate::cs::{ColKind, Column, ConstraintSystem, Error, SelectorId};
use crate::expr::Expression;
use crate::field::{spec_fv_add, spec_fv_mul, FValue, Fp};
use crate::layout::{
    flat, lemma_flat_inj, lemma_row3, plan_ok, write_ok, AssignedCell, Cell, Layouter, RegionPlan,
    WriteOp,
};

verus! {

/// The column and selector handles the circuit uses during synthesis.
#[derive(Clone, Copy, PartialEq, Eq, Structural, Debug)]
pub struct CubicConfig {
    pub col_x: Column,
    pub col_y: Column,
    pub col_z: Column,
    pub s_add: SelectorId,
    pub s_mul: SelectorId,
}

/// Whether a config's handles are valid under a constraint system.
pub open spec fn cubic_config_wf(cs: ConstraintSystem, cfg: CubicConfig) -> bool {
    &&& cfg.col_x.kind == ColKind::Advice
    &&& cfg.col_y.kind == ColKind::Advice
    &&& cfg.col_z.kind == ColKind::Advice
    &&& cfg.col_x.index < cs.spec_num_advice()
    &&& cfg.col_y.index < cs.spec_num_advice()
    &&& cfg.col_z.index < cs.spec_num_advice()
    &&& cfg.col_x.index != cfg.col_y.index
    &&& cfg.col_x.index != cfg.col_z.index
    &&& cfg.col_y.index != cfg.col_z.index
    &&& cfg.s_add.index < cs.num_selectors
    &&& cfg.s_mul.index < cs.num_selectors
    &&& cfg.s_add.index != cfg.s_mul.index
}

/// A gate polynomial `sel * (x + y - z)` or `sel * (x * y - z)`.
pub open spec fn cubic_gate_poly(cfg: CubicConfig, sel: int, multiply: bool) -> Expression {
    let left = Expression::Advice(cfg.col_x.index, 0);
    let right = Expression::Advice(cfg.col_y.index, 0);
    let out = Expression::Advice(cfg.col_z.index, 0);
    let combined = if multiply {
        Expression::Product(Box::new(left), Box::new(right))
    } else {
        Expression::Sum(Box::new(left), Box::new(right))
    };
    Expression::Product(
        Box::new(Expression::Selector(sel as usize)),
        Box::new(
            Expression::Sum(Box::new(combined), Box::new(Expression::Negated(Box::new(out)))),
        ),
    )
}

/// Creates the circuit's columns, selectors and the two gates on a
/// fresh constraint system.
pub fn cubic_configure(cs: &mut ConstraintSystem) -> (cfg: CubicConfig)
    requires
        old(cs).wf(),
        old(cs).spec_num_advice() == 0,
        old(cs).num_selectors == 0,
        old(cs).gates@.len() == 0,
    ensures
        final(cs).wf(),
        cubic_config_wf(*final(cs), cfg),
        cfg.col_x.index == 0,
        cfg.col_y.index == 1,
        cfg.col_z.index == 2,
        cfg.s_add.index == 0,
        cfg.s_mul.index == 1,
        final(cs).spec_num_advice() == 3,
        final(cs).num_selectors == 2,
        final(cs).num_fixed == old(cs).num_fixed,
        final(cs).num_instance == old(cs).num_instance,
        final(cs).eq_instance@ == old(cs).eq_instance@,
        final(cs).gates@.len() == 2,
        final(cs).gates@[0].polys@ == seq![cubic_gate_poly(cfg, cfg.s_add.index as int, false)],
        final(cs).gates@[1].polys@ == seq![cubic_gate_poly(cfg, cfg.s_mul.index as int, true)],
{
    let col_x = cs.advice_column();
    let col_y = cs.advice_column();
    let col_z = cs.advice_column();
    let rx = cs.enable_equality(col_x);
    let ry = cs.enable_equality(col_y);
    let rz = cs.enable_equality(col_z);
    proof {
        assert(rx is Ok && ry is Ok && rz is Ok);
    }
    let s_add = cs.selector();
    let add_poly = Expression::Product(
        Box::new(Expression::Selector(s_add.index)),
        Box::new(
            Expression::Sum(
                Box::new(
                    Expression::Sum(
                        Box::new(Expression::Advice(col_x.index, 0)),
                        Box::new(Expression::Advice(col_y.index, 0)),
                    ),
                ),
                Box::new(Expression::Negated(Box::new(Expression::Advice(col_z.index, 0)))),
            ),
        ),
    );
    let mut add_polys: Vec<Expression> = Vec::new();
    add_polys.push(add_poly);
    proof {
        lemma_cubic_poly_wf(*cs, col_x, col_y, col_z, s_add.index as int, false);
        let cfg0 = CubicConfig { col_x, col_y, col_z, s_add, s_mul: SelectorId { index: 1 } };
        assert(add_polys@ =~= seq![cubic_gate_poly(cfg0, s_add.index as int, false)]);
    }
    let r_add = cs.create_gate("add".to_string(), add_polys);
    proof {
        assert(r_add is Ok);
    }
    let s_mul = cs.selector();
    let mul_poly = Expression::Product(
        Box::new(Expression::Selector(s_mul.index)),
        Box::new(
            Expression::Sum(
                Box::new(
                    Expression::Product(
                        Box::new(Expression::Advice(col_x.index, 0)),
                        Box::new(Expression::Advice(col_y.index, 0)),
                    ),
                ),
                Box::new(Expression::Negated(Box::new(Expression::Advice(col_z.index, 0)))),
            ),
        ),
    );
    let mut mul_polys: Vec<Expression> = Vec::new();
    mul_polys.push(mul_poly);
    let cfg = CubicConfig { col_x, col_y, col_z, s_add, s_mul };
    proof {
        lemma_cubic_poly_wf(*cs, col_x, col_y, col_z, s_mul.index as int, true);
        assert(mul_polys@ =~= seq![cubic_gate_poly(cfg, s_mul.index as int, true)]);
    }
    let r_mul = cs.create_gate("mul".to_string(), mul_polys);
    proof {
        assert(r_mul is Ok);
        assert(cs.gates@[0].polys@ =~= seq![cubic_gate_poly(cfg, cfg.s_add.index as int, false)]);
        assert(cs.gates@[1].polys@ =~= seq![cubic_gate_poly(cfg, cfg.s_mul.index as int, true)]);
    }
    cfg
}

/// Both gate polynomials are in range and within the degree bound for
/// any system with these columns and enough selectors.
proof fn lemma_cubic_poly_wf(
    cs: ConstraintSystem,
    col_x: Column,
    col_y: Column,
    col_z: Column,
    sel: int,
    multiply: bool,
)
    requires
        col_x.index < cs.spec_num_advice(),
        col_y.index < cs.spec_num_advice(),
        col_z.index < cs.spec_num_advice(),
        0 <= sel < cs.num_selectors,
    ensures
        crate::expr::expr_in_range(
            cubic_gate_poly(
                CubicConfig {
                    col_x,
                    col_y,
                    col_z,
                    s_add: SelectorId { index: 0 },
                    s_mul: SelectorId { index: 1 },
                },
                sel,
                multiply,
            ),
            cs.spec_num_advice(),
            cs.num_fixed as int,
            cs.num_instance as int,
            cs.num_selectors as int,
        ),
        crate::expr::degree(
            cubic_gate_poly(
                CubicConfig {
                    col_x,
                    col_y,
                    col_z,
                    s_add: SelectorId { index: 0 },
                    s_mul: SelectorId { index: 1 },
                },
                sel,
                multiply,
            ),
        ) <= 3,
        forall|sa: SelectorId, sm: SelectorId|
            #[trigger] cubic_gate_poly(
                CubicConfig { col_x, col_y, col_z, s_add: sa, s_mul: sm },
                sel,
                multiply,
            ) == cubic_gate_poly(
                CubicConfig {
                    col_x,
                    col_y,
                    col_z,
                    s_add: SelectorId { index: 0 },
                    s_mul: SelectorId { index: 1 },
                },
                sel,
                multiply,
            ),
{
    let na = cs.spec_num_advice();
    let nf = cs.num_fixed as int;
    let ni = cs.num_instance as int;
    let ns = cs.num_selectors as int;
    let ex = Expression::Advice(col_x.index, 0);
    let ey = Expression::Advice(col_y.index, 0);
    let ez = Expression::Advice(col_z.index, 0);
    let esel = Expression::Selector(sel as usize);
    let combined = if multiply {
        Expression::Product(Box::new(ex), Box::new(ey))
    } else {
        Expression::Sum(Box::new(ex), Box::new(ey))
    };
    let neg_z = Expression::Negated(Box::new(ez));
    let body = Expression::Sum(Box::new(combined), Box::new(neg_z));
    let whole = Expression::Product(Box::new(esel), Box::new(body));
    assert(crate::expr::degree(ex) == 1 && crate::expr::degree(ey) == 1 && crate::expr::degree(ez)
        == 1 && crate::expr::degree(esel) == 1);
    assert(crate::expr::degree(combined) <= 2);
    assert(crate::expr::degree(neg_z) == 1);
    assert(crate::expr::degree(body) <= 2);
    assert(crate::expr::degree(whole) <= 3);
    assert(crate::expr::expr_in_range(ex, na, nf, ni, ns));
    assert(crate::expr::expr_in_range(ey, na, nf, ni, ns));
    assert(crate::expr::expr_in_range(ez, na, nf, ni, ns));
    assert(crate::expr::expr_in_range(esel, na, nf, ni, ns));
    assert(crate::expr::expr_in_range(combined, na, nf, ni, ns));
    assert(crate::expr::expr_in_range(neg_z, na, nf, ni, ns));
    assert(crate::expr::expr_in_range(body, na, nf, ni, ns));
    assert(crate::expr::expr_in_range(whole, na, nf, ni, ns));
    assert forall|sa: SelectorId, sm: SelectorId|
        #[trigger] cubic_gate_poly(
            CubicConfig { col_x, col_y, col_z, s_add: sa, s_mul: sm },
            sel,
            multiply,
        ) == whole by {
    }
    assert(cubic_gate_poly(
        CubicConfig {
            col_x,
            col_y,
            col_z,
            s_add: SelectorId { index: 0 },
            s_mul: SelectorId { index: 1 },
        },
        sel,
        multiply,
    ) == whole);
}

/// Lays one row `(xv, yv, zv)` at the next free row and enables the
/// given selector there.
#[verifier::rlimit(100)]
#[verifier::loop_isolation(false)]
pub fn cubic_row(
    lay: &mut Layouter,
    cfg: CubicConfig,
    sel: SelectorId,
    xv: FValue,
    yv: FValue,
    zv: FValue,
) -> (r: Result<(AssignedCell, AssignedCell, AssignedCell), Error>)
    requires
        old(lay).wf(),
        cubic_config_wf(old(lay).cs, cfg),
        sel == cfg.s_add || sel == cfg.s_mul,
        old(lay).heights_advice@[cfg.col_x.index as int] == old(lay).heights_advice@[cfg.col_y.index as int],
        old(lay).heights_advice@[cfg.col_x.index as int] == old(lay).heights_advice@[cfg.col_z.index as int],
        old(lay).heights_selector@[sel.index as int] <= old(lay).heights_advice@[cfg.col_x.index as int],
    ensures
        final(lay).wf(),
        final(lay).cs == old(lay).cs,
        final(lay).k == old(lay).k,
        final(lay).n_rows == old(lay).n_rows,
        final(lay).usable_rows == old(lay).usable_rows,
        r is Ok <==> old(lay).heights_advice@[cfg.col_x.index as int] + 1 <= old(lay).usable_rows,
        r is Err ==> r == Result::<(AssignedCell, AssignedCell, AssignedCell), Error>::Err(
            Error::Bounds,
        ) && *final(lay) == *old(lay),
        r matches Ok(cells) ==> ({
            let row = old(lay).heights_advice@[cfg.col_x.index as int] as int;
            let n = old(lay).n_rows as int;
            &&& cells.0 == (AssignedCell {
                cell: Cell { kind: ColKind::Advice, index: cfg.col_x.index, row: row as usize },
                value: xv,
            })
            &&& cells.1 == (AssignedCell {
                cell: Cell { kind: ColKind::Advice, index: cfg.col_y.index, row: row as usize },
                value: yv,
            })
            &&& cells.2 == (AssignedCell {
                cell: Cell { kind: ColKind::Advice, index: cfg.col_z.index, row: row as usize },
                value: zv,
            })
            &&& final(lay).advice@ == old(lay).advice@.update(
                flat(cfg.col_x.index as int, row, n),
                xv,
            ).update(flat(cfg.col_y.index as int, row, n), yv).update(
                flat(cfg.col_z.index as int, row, n),
                zv,
            )
            &&& final(lay).fixed@ == old(lay).fixed@
            &&& final(lay).selectors@ == old(lay).selectors@.update(
                flat(sel.index as int, row, n),
                true,
            )
            &&& final(lay).copies@ == old(lay).copies@
            &&& final(lay).heights_advice@ == old(lay).heights_advice@.update(
                cfg.col_x.index as int,
                (row + 1) as usize,
            ).update(cfg.col_y.index as int, (row + 1) as usize).update(
                cfg.col_z.index as int,
                (row + 1) as usize,
            )
            &&& final(lay).heights_fixed@ == old(lay).heights_fixed@
            &&& final(lay).heights_selector@ == old(lay).heights_selector@.update(
                sel.index as int,
                (row + 1) as usize,
            )
        }),
{
    let mut writes: Vec<WriteOp> = Vec::new();
    writes.push(WriteOp::Advice { col: cfg.col_x, offset: 0, value: xv });
    writes.push(WriteOp::Advice { col: cfg.col_y, offset: 0, value: yv });
    writes.push(WriteOp::Advice { col: cfg.col_z, offset: 0, value: zv });
    let mut enables: Vec<(SelectorId, usize)> = Vec::new();
    enables.push((sel, 0));
    let plan = RegionPlan { name: "row".to_string(), writes, eq_pairs: Vec::new(), enables };
    proof {
        let ws = plan.writes@;
        let es = plan.enables@;
        lemma_row3(
            old(lay).heights_advice@,
            old(lay).heights_fixed@,
            old(lay).heights_selector@,
            old(lay).advice@,
            old(lay).selectors@,
            ws,
            es,
            old(lay).heights_advice@[cfg.col_x.index as int] as int,
            old(lay).n_rows as int,
            ColKind::Advice,
        );
        lemma_row3(
            old(lay).heights_advice@,
            old(lay).heights_fixed@,
            old(lay).heights_selector@,
            old(lay).fixed@,
            old(lay).selectors@,
            ws,
            es,
            old(lay).heights_advice@[cfg.col_x.index as int] as int,
            old(lay).n_rows as int,
            ColKind::Fixed,
        );
        assert forall|i: int| 0 <= i < ws.len() implies write_ok(
            old(lay).cs,
            #[trigger] ws[i],
        ) by {
            assert(i == 0 || i == 1 || i == 2);
        }
        assert(plan_ok(old(lay).cs, plan));
        assert(crate::layout::pair_cells(plan.eq_pairs@) =~= Seq::empty());
    }
    match lay.assign_region(&plan) {
        Ok(cells) => {
            proof {
                let row = old(lay).heights_advice@[cfg.col_x.index as int] as int;
                assert(lay.copies@ =~= old(lay).copies@);
                assert(lay.heights_advice@ =~= old(lay).heights_advice@.update(
                    cfg.col_x.index as int,
                    (row + 1) as usize,
                ).update(cfg.col_y.index as int, (row + 1) as usize).update(
                    cfg.col_z.index as int,
                    (row + 1) as usize,
                ));
                assert(lay.heights_fixed@ =~= old(lay).heights_fixed@);
                assert(lay.heights_selector@ =~= old(lay).heights_selector@.update(
                    sel.index as int,
                    (row + 1) as usize,
                ));
                assert(cells@.len() == 3);
            }
            let c0 = cells[0];
            let c1 = cells[1];
            let c2 = cells[2];
            Ok((c0, c1, c2))
        },
        Err(e) => Err(e),
    }
}

/// One addition row: `(x, y, x + y)` under the addition selector.
pub fn load_add(lay: &mut Layouter, cfg: CubicConfig, x: FValue, y: FValue) -> (r: Result<
    (AssignedCell, AssignedCell, AssignedCell),
    Error,
>)
    requires
        old(lay).wf(),
        cubic_config_wf(old(lay).cs, cfg),
        old(lay).heights_advice@[cfg.col_x.index as int] == old(lay).heights_advice@[cfg.col_y.index as int],
        old(lay).heights_advice@[cfg.col_x.index as int] == old(lay).heights_advice@[cfg.col_z.index as int],
        old(lay).heights_selector@[cfg.s_add.index as int] <= old(lay).heights_advice@[cfg.col_x.index as int],
    ensures
        final(lay).wf(),
        final(lay).cs == old(lay).cs,
        final(lay).k == old(lay).k,
        final(lay).n_rows == old(lay).n_rows,
        final(lay).usable_rows == old(lay).usable_rows,
        r is Ok <==> old(lay).heights_advice@[cfg.col_x.index as int] + 1 <= old(lay).usable_rows,
        r is Err ==> r == Result::<(AssignedCell, AssignedCell, AssignedCell), Error>::Err(
            Error::Bounds,
        ) && *final(lay) == *old(lay),
        r matches Ok(cells) ==> cubic_row_post(
            *old(lay),
            *final(lay),
            cfg,
            cfg.s_add,
            x,
            y,
            spec_fv_add(x, y),
            cells,
        ),
{
    let z = x.fv_add(y);
    cubic_row(lay, cfg, cfg.s_add, x, y, z)
}

/// One multiplication row: `(x, y, x * y)` under the multiplication
/// selector.
pub fn load_mul(lay: &mut Layouter, cfg: CubicConfig, x: FValue, y: FValue) -> (r: Result<
    (AssignedCell, AssignedCell, AssignedCell),
    Error,
>)
    requires
        old(lay).wf(),
        cubic_config_wf(old(lay).cs, cfg),
        old(lay).heights_advice@[cfg.col_x.index as int] == old(lay).heights_advice@[cfg.col_y.index as int],
        old(lay).heights_advice@[cfg.col_x.index as int] == old(lay).heights_advice@[cfg.col_z.index as int],
        old(lay).heights_selector@[cfg.s_mul.index as int] <= old(lay).heights_advice@[cfg.col_x.index as int],
    ensures
        final(lay).wf(),
        final(lay).cs == old(lay).cs,
        final(lay).k == old(lay).k,
        final(lay).n_rows == old(lay).n_rows,
        final(lay).usable_rows == old(lay).usable_rows,
        r is Ok <==> old(lay).heights_advice@[cfg.col_x.index as int] + 1 <= old(lay).usable_rows,
        r is Err ==> r == Result::<(AssignedCell, AssignedCell, AssignedCell), Error>::Err(
            Error::Bounds,
        ) && *final(lay) == *old(lay),
        r matches Ok(cells) ==> cubic_row_post(
            *old(lay),
            *final(lay),
            cfg,
            cfg.s_mul,
            x,
            y,
            spec_fv_mul(x, y),
            cells,
        ),
{
    let z = x.fv_mul(y);
    cubic_row(lay, cfg, cfg.s_mul, x, y, z)
}

/// One pinning row `(x, 0, y)` under the addition selector, whose
/// gate then demands `x = y`.
pub fn load_assign(lay: &mut Layouter, cfg: CubicConfig, x: FValue, y: FValue) -> (r: Result<
    AssignedCell,
    Error,
>)
    requires
        old(lay).wf(),
        cubic_config_wf(old(lay).cs, cfg),
        old(lay).heights_advice@[cfg.col_x.index as int] == old(lay).heights_advice@[cfg.col_y.index as int],
        old(lay).heights_advice@[cfg.col_x.index as int] == old(lay).heights_advice@[cfg.col_z.index as int],
        old(lay).heights_selector@[cfg.s_add.index as int] <= old(lay).heights_advice@[cfg.col_x.index as int],
    ensures
        final(lay).wf(),
        final(lay).cs == old(lay).cs,
        final(lay).k == old(lay).k,
        final(lay).n_rows == old(lay).n_rows,
        final(lay).usable_rows == old(lay).usable_rows,
        r is Ok <==> old(lay).heights_advice@[cfg.col_x.index as int] + 1 <= old(lay).usable_rows,
        r is Err ==> r == Result::<AssignedCell, Error>::Err(Error::Bounds) && *final(lay) == *old(
            lay,
        ),
        r matches Ok(cell) ==> (exists|cells: (AssignedCell, AssignedCell, AssignedCell)|
            #[trigger] cubic_row_post(
                *old(lay),
                *final(lay),
                cfg,
                cfg.s_add,
                x,
                FValue::Known(Fp { v: 0 }),
                y,
                cells,
            ) && cell == cells.0),
{
    let zero = FValue::Known(Fp { v: 0 });
    let r = cubic_row(lay, cfg, cfg.s_add, x, zero, y);
    match r {
        Ok(cells) => {
            proof {
                assert(cubic_row_post(
                    *old(lay),
                    *lay,
                    cfg,
                    cfg.s_add,
                    x,
                    FValue::Known(Fp { v: 0 }),
                    y,
                    cells,
                ));
            }
            Ok(cells.0)
        },
        Err(e) => Err(e),
    }
}

/// What one successful row of the cubic circuit does to the state.
pub open spec fn cubic_row_post(
    pre: Layouter,
    post: Layouter,
    cfg: CubicConfig,
    sel: SelectorId,
    xv: FValue,
    yv: FValue,
    zv: FValue,
    cells: (AssignedCell, AssignedCell, AssignedCell),
) -> bool {
    let row = pre.heights_advice@[cfg.col_x.index as int] as int;
    let n = pre.n_rows as int;
    &&& cells.0 == (AssignedCell {
        cell: Cell { kind: ColKind::Advice, index: cfg.col_x.index, row: row as usize },
        value: xv,
    })
    &&& cells.1 == (AssignedCell {
        cell: Cell { kind: ColKind::Advice, index: cfg.col_y.index, row: row as usize },
        value: yv,
    })
    &&& cells.2 == (AssignedCell {
        cell: Cell { kind: ColKind::Advice, index: cfg.col_z.index, row: row as usize },
        value: zv,
    })
    &&& post.advice@ == pre.advice@.update(flat(cfg.col_x.index as int, row, n), xv).update(
        flat(cfg.col_y.index as int, row, n),
        yv,
    ).update(flat(cfg.col_z.index as int, row, n), zv)
    &&& post.fixed@ == pre.fixed@
    &&& post.selectors@ == pre.selectors@.update(flat(sel.index as int, row, n), true)
    &&& post.copies@ == pre.copies@
    &&& post.heights_advice@ == pre.heights_advice@.update(
        cfg.col_x.index as int,
        (row + 1) as usize,
    ).update(cfg.col_y.index as int, (row + 1) as usize).update(
        cfg.col_z.index as int,
        (row + 1) as usize,
    )
    &&& post.heights_fixed@ == pre.heights_fixed@
    &&& post.heights_selector@ == pre.heights_selector@.update(
        sel.index as int,
        (row + 1) as usize,
    )
}

/// The values of row `r` of the cubic circuit on witness `x`: the three
/// squaring-and-multiply rows, the two addition rows, and the final
/// pinning row against the constant.
pub open spec fn cubic_vals(x: FValue, r: int) -> (FValue, FValue, FValue) {
    let one = FValue::Known(Fp { v: 1 });
    let five = FValue::Known(Fp { v: 5 });
    let target = FValue::Known(Fp { v: 35 });
    let zero = FValue::Known(Fp { v: 0 });
    let x1 = spec_fv_mul(x, one);
    let x2 = spec_fv_mul(x1, x);
    let x3 = spec_fv_mul(x2, x);
    let t1 = spec_fv_add(x3, x);
    let t2 = spec_fv_add(t1, five);
    if r == 0 {
        (x, one, x1)
    } else if r == 1 {
        (x1, x, x2)
    } else if r == 2 {
        (x2, x, x3)
    } else if r == 3 {
        (x3, x, t1)
    } else if r == 4 {
        (t1, five, t2)
    } else {
        (t2, zero, target)
    }
}

/// The value the grid holds at advice cell `(c2, r)` after the whole
/// circuit has been laid down on a fresh grid.
pub open spec fn cubic_grid(cfg: CubicConfig, x: FValue, c2: int, r: int) -> FValue {
    if c2 == cfg.col_x.index && 0 <= r < 6 {
        cubic_vals(x, r).0
    } else if c2 == cfg.col_y.index && 0 <= r < 6 {
        cubic_vals(x, r).1
    } else if c2 == cfg.col_z.index && 0 <= r < 6 {
        cubic_vals(x, r).2
    } else {
        FValue::Unknown
    }
}

/// Lays the whole circuit onto a fresh grid: six chained rows.
/// Synthesis succeeds exactly when they fit the usable budget; on
/// success the grid and the selector table are pinned down completely.
#[verifier::rlimit(100)]
#[verifier::loop_isolation(false)]
pub fn cubic_synthesize(lay: &mut Layouter, cfg: CubicConfig, x: FValue) -> (r: Result<(), Error>)
    requires
        old(lay).wf(),
        cubic_config_wf(old(lay).cs, cfg),
        old(lay).advice@ == Seq::new(old(lay).advice@.len(), |i: int| FValue::Unknown),
        old(lay).selectors@ == Seq::new(old(lay).selectors@.len(), |i: int| false),
        old(lay).copies@.len() == 0,
        old(lay).heights_advice@ == Seq::new(old(lay).heights_advice@.len(), |i: int| 0usize),
        old(lay).heights_fixed@ == Seq::new(old(lay).heights_fixed@.len(), |i: int| 0usize),
        old(lay).heights_selector@ == Seq::new(
            old(lay).heights_selector@.len(),
            |i: int| 0usize,
        ),
    ensures
        final(lay).wf(),
        final(lay).cs == old(lay).cs,
        final(lay).k == old(lay).k,
        final(lay).n_rows == old(lay).n_rows,
        final(lay).usable_rows == old(lay).usable_rows,
        r is Ok <==> 6 <= old(lay).usable_rows,
        r is Err ==> r == Result::<(), Error>::Err(Error::Bounds),
        r is Ok ==> ({
            let n = old(lay).n_rows as int;
            &&& forall|c2: int, rr: int|
                0 <= c2 < old(lay).cs.spec_num_advice() && 0 <= rr < n ==> final(lay).advice@[flat(
                    c2,
                    rr,
                    n,
                )] == cubic_grid(cfg, x, c2, rr)
            &&& forall|s2: int, rr: int|
                0 <= s2 < old(lay).cs.num_selectors && 0 <= rr < n ==> final(lay).selectors@[flat(
                    s2,
                    rr,
                    n,
                )] == ((s2 == cfg.s_mul.index && 0 <= rr < 3) || (s2 == cfg.s_add.index && 3 <= rr
                    < 6))
            &&& final(lay).fixed@ == old(lay).fixed@
            &&& final(lay).copies@.len() == 0
        }),
{
    let ghost n = old(lay).n_rows as int;
    let ghost na = old(lay).cs.spec_num_advice();
    let ghost nsel = old(lay).cs.num_selectors as int;
    let ghost xi = cfg.col_x.index as int;
    let ghost yi = cfg.col_y.index as int;
    let ghost zi = cfg.col_z.index as int;
    let ghost si = cfg.s_add.index as int;
    let ghost mi = cfg.s_mul.index as int;
    let one = FValue::Known(Fp { v: 1 });
    let five = FValue::Known(Fp { v: 5 });
    let target = FValue::Known(Fp { v: 35 });
    proof {
        assert(old(lay).heights_advice@[xi] == 0usize);
        assert(old(lay).heights_advice@[yi] == 0usize);
        assert(old(lay).heights_advice@[zi] == 0usize);
        assert(old(lay).heights_selector@[si] == 0usize);
        assert(old(lay).heights_selector@[mi] == 0usize);
    }
    let r1 = load_mul(lay, cfg, x, one);
    let c1 = match r1 {
        Ok(c) => c,
        Err(e) => {
            return Err(e);
        },
    };
    let ghost lay1 = *lay;
    proof {
        assert(lay1.heights_advice@[xi] == 1usize && lay1.heights_advice@[yi] == 1usize
            && lay1.heights_advice@[zi] == 1usize);
        assert(lay1.heights_selector@[mi] == 1usize && lay1.heights_selector@[si] == 0usize);
    }
    let r2 = load_mul(lay, cfg, c1.2.value, x);
    let c2 = match r2 {
        Ok(c) => c,
        Err(e) => {
            return Err(e);
        },
    };
    let ghost lay2 = *lay;
    proof {
        assert(lay2.heights_advice@[xi] == 2usize && lay2.heights_advice@[yi] == 2usize
            && lay2.heights_advice@[zi] == 2usize);
        assert(lay2.heights_selector@[mi] == 2usize && lay2.heights_selector@[si] == 0usize);
    }
    let r3 = load_mul(lay, cfg, c2.2.value, x);
    let c3 = match r3 {
        Ok(c) => c,
        Err(e) => {
            return Err(e);
        },
    };
    let ghost lay3 = *lay;
    proof {
        assert(lay3.heights_advice@[xi] == 3usize && lay3.heights_advice@[yi] == 3usize
            && lay3.heights_advice@[zi] == 3usize);
        assert(lay3.heights_selector@[mi] == 3usize && lay3.heights_selector@[si] == 0usize);
    }
    let r4 = load_add(lay, cfg, c3.2.value, x);
    let c4 = match r4 {
        Ok(c) => c,
        Err(e) => {
            return Err(e);
        },
    };
    let ghost lay4 = *lay;
    proof {
        assert(lay4.heights_advice@[xi] == 4usize && lay4.heights_advice@[yi] == 4usize
            && lay4.heights_advice@[zi] == 4usize);
        assert(lay4.heights_selector@[mi] == 3usize && lay4.heights_selector@[si] == 4usize);
    }
    let r5 = load_add(lay, cfg, c4.2.value, five);
    let c5 = match r5 {
        Ok(c) => c,
        Err(e) => {
            return Err(e);
        },
    };
    let ghost lay5 = *lay;
    proof {
        assert(lay5.heights_advice@[xi] == 5usize && lay5.heights_advice@[yi] == 5usize
            && lay5.heights_advice@[zi] == 5usize);
        assert(lay5.heights_selector@[mi] == 3usize && lay5.heights_selector@[si] == 5usize);
    }
    let r6 = load_assign(lay, cfg, c5.2.value, target);
    let c6 = match r6 {
        Ok(c) => c,
        Err(e) => {
            return Err(e);
        },
    };
    proof {
        let x1 = spec_fv_mul(x, FValue::Known(Fp { v: 1 }));
        let x2 = spec_fv_mul(x1, x);
        let x3 = spec_fv_mul(x2, x);
        let t1 = spec_fv_add(x3, x);
        let t2 = spec_fv_add(t1, FValue::Known(Fp { v: 5 }));
        assert(c1.2.value == x1);
        assert(c2.2.value == x2);
        assert(c3.2.value == x3);
        assert(c4.2.value == t1);
        assert(c5.2.value == t2);
        assert(lay.advice@ == old(lay).advice@.update(flat(xi, 0, n), x).update(
            flat(yi, 0, n),
            FValue::Known(Fp { v: 1 }),
        ).update(flat(zi, 0, n), x1).update(flat(xi, 1, n), x1).update(flat(yi, 1, n), x).update(
            flat(zi, 1, n),
            x2,
        ).update(flat(xi, 2, n), x2).update(flat(yi, 2, n), x).update(flat(zi, 2, n), x3).update(
            flat(xi, 3, n),
            x3,
        ).update(flat(yi, 3, n), x).update(flat(zi, 3, n), t1).update(flat(xi, 4, n), t1).update(
            flat(yi, 4, n),
            FValue::Known(Fp { v: 5 }),
        ).update(flat(zi, 4, n), t2).update(flat(xi, 5, n), t2).update(
            flat(yi, 5, n),
            FValue::Known(Fp { v: 0 }),
        ).update(flat(zi, 5, n), FValue::Known(Fp { v: 35 })));
        assert(lay.selectors@ == old(lay).selectors@.update(flat(mi, 0, n), true).update(
            flat(mi, 1, n),
            true,
        ).update(flat(mi, 2, n), true).update(flat(si, 3, n), true).update(
            flat(si, 4, n),
            true,
        ).update(flat(si, 5, n), true));
        crate::layout::lemma_flat_bound(xi, 0, na, n);
        crate::layout::lemma_flat_bound(yi, 0, na, n);
        crate::layout::lemma_flat_bound(zi, 0, na, n);
        crate::layout::lemma_flat_bound(xi, 1, na, n);
        crate::layout::lemma_flat_bound(yi, 1, na, n);
        crate::layout::lemma_flat_bound(zi, 1, na, n);
        crate::layout::lemma_flat_bound(xi, 2, na, n);
        crate::layout::lemma_flat_bound(yi, 2, na, n);
        crate::layout::lemma_flat_bound(zi, 2, na, n);
        crate::layout::lemma_flat_bound(xi, 3, na, n);
        crate::layout::lemma_flat_bound(yi, 3, na, n);
        crate::layout::lemma_flat_bound(zi, 3, na, n);
        crate::layout::lemma_flat_bound(xi, 4, na, n);
        crate::layout::lemma_flat_bound(yi, 4, na, n);
        crate::layout::lemma_flat_bound(zi, 4, na, n);
        crate::layout::lemma_flat_bound(xi, 5, na, n);
        crate::layout::lemma_flat_bound(yi, 5, na, n);
        crate::layout::lemma_flat_bound(zi, 5, na, n);
        crate::layout::lemma_flat_bound(mi, 0, nsel, n);
        crate::layout::lemma_flat_bound(mi, 1, nsel, n);
        crate::layout::lemma_flat_bound(mi, 2, nsel, n);
        crate::layout::lemma_flat_bound(si, 3, nsel, n);
        crate::layout::lemma_flat_bound(si, 4, nsel, n);
        crate::layout::lemma_flat_bound(si, 5, nsel, n);
        assert forall|c2v: int, rr: int| 0 <= c2v < na && 0 <= rr < n implies lay.advice@[flat(
            c2v,
            rr,
            n,
        )] == cubic_grid(cfg, x, c2v, rr) by {
            crate::layout::lemma_flat_bound(c2v, rr, na, n);
            lemma_flat_inj(c2v, rr, xi, 0, n);
            lemma_flat_inj(c2v, rr, yi, 0, n);
            lemma_flat_inj(c2v, rr, zi, 0, n);
            lemma_flat_inj(c2v, rr, xi, 1, n);
            lemma_flat_inj(c2v, rr, yi, 1, n);
            lemma_flat_inj(c2v, rr, zi, 1, n);
            lemma_flat_inj(c2v, rr, xi, 2, n);
            lemma_flat_inj(c2v, rr, yi, 2, n);
            lemma_flat_inj(c2v, rr, zi, 2, n);
            lemma_flat_inj(c2v, rr, xi, 3, n);
            lemma_flat_inj(c2v, rr, yi, 3, n);
            lemma_flat_inj(c2v, rr, zi, 3, n);
            lemma_flat_inj(c2v, rr, xi, 4, n);
            lemma_flat_inj(c2v, rr, yi, 4, n);
            lemma_flat_inj(c2v, rr, zi, 4, n);
            lemma_flat_inj(c2v, rr, xi, 5, n);
            lemma_flat_inj(c2v, rr, yi, 5, n);
            lemma_flat_inj(c2v, rr, zi, 5, n);
            assert(old(lay).advice@[flat(c2v, rr, n)] == FValue::Unknown);
        }
        assert forall|s2: int, rr: int| 0 <= s2 < nsel && 0 <= rr < n implies lay.selectors@[flat(
            s2,
            rr,
            n,
        )] == ((s2 == mi && 0 <= rr < 3) || (s2 == si && 3 <= rr < 6)) by {
            crate::layout::lemma_flat_bound(s2, rr, nsel, n);
            lemma_flat_inj(s2, rr, mi, 0, n);
            lemma_flat_inj(s2, rr, mi, 1, n);
            lemma_flat_inj(s2, rr, mi, 2, n);
            lemma_flat_inj(s2, rr, si, 3, n);
            lemma_flat_inj(s2, rr, si, 4, n);
            lemma_flat_inj(s2, rr, si, 5, n);
            assert(old(lay).selectors@[flat(s2, rr, n)] == false);
        }
    }
    Ok(())
}

} // verus!
