//! An iterated Fibonacci circuit.
//!
//! Three advice columns `(a, b, c)` and one selector govern a gate
//! `s * (a + b - c) = 0`.  The first region seeds `(a, b, a + b)`; every
//! later region copies the previous row's `(b, c)` into its `(a, b)` and
//! sets `c = a + b`.  With both seeds set to one, row `r` holds
//! `(F(r+1), F(r+2), F(r+3))` counting `F(1) = F(2) = 1`: after eight
//! rows the `c` cell of the last row (row index seven) holds the tenth
//! Fibonacci number.

use vstd::prelude::*;
use crate::cs::{ColKind, Column, ConstraintSystem, Error, SelectorId};
use crate::expr::Expression;
use crate::field::{spec_fv_add, FValue};
use crate::layout::{
    flat, lemma_flat_inj, lemma_row3, plan_ok, write_ok, AssignedCell, Cell, Layouter, RegionPlan,
    WriteOp,
};

verus! {

/// The column and selector handles the circuit uses during synthesis.
#[derive(Clone, Copy, PartialEq, Eq, Structural, Debug)]
pub struct FiboConfig {
    pub col_a: Column,
    pub col_b: Column,
    pub col_c: Column,
    pub selector: SelectorId,
}

/// Whether a config's handles are valid under a constraint system:
/// three distinct, equality-enabled advice columns and one selector.
pub open spec fn fibo_config_wf(cs: ConstraintSystem, cfg: FiboConfig) -> bool {
    &&& cfg.col_a.kind == ColKind::Advice
    &&& cfg.col_b.kind == ColKind::Advice
    &&& cfg.col_c.kind == ColKind::Advice
    &&& cfg.col_a.index < cs.spec_num_advice()
    &&& cfg.col_b.index < cs.spec_num_advice()
    &&& cfg.col_c.index < cs.spec_num_advice()
    &&& cfg.col_a.index != cfg.col_b.index
    &&& cfg.col_a.index != cfg.col_c.index
    &&& cfg.col_b.index != cfg.col_c.index
    &&& cs.eq_advice@[cfg.col_a.index as int]
    &&& cs.eq_advice@[cfg.col_b.index as int]
    &&& cs.eq_advice@[cfg.col_c.index as int]
    &&& cfg.selector.index < cs.num_selectors
}

/// The circuit's gate polynomial `s * (a + b - c)`.
pub open spec fn fibo_gate_poly(cfg: FiboConfig) -> Expression {
    Expression::Product(
        Box::new(Expression::Selector(cfg.selector.index)),
        Box::new(
            Expression::Sum(
                Box::new(
                    Expression::Sum(
                        Box::new(Expression::Advice(cfg.col_a.index, 0)),
                        Box::new(Expression::Advice(cfg.col_b.index, 0)),
                    ),
                ),
                Box::new(Expression::Negated(Box::new(Expression::Advice(cfg.col_c.index, 0)))),
            ),
        ),
    )
}

/// The `(a, b)` pair of row `r`: the seeds at row zero, and thereafter
/// each row's `a` is the previous `b` and its `b` the previous `a + b`.
/// Row `r`'s `c` cell holds the sum of its pair.
pub open spec fn fib_pair(a: FValue, b: FValue, r: int) -> (FValue, FValue)
    decreases r,
{
    if r <= 0 {
        (a, b)
    } else {
        let p = fib_pair(a, b, r - 1);
        (p.1, spec_fv_add(p.0, p.1))
    }
}

/// The cell that the `a` column of row `r` was copied from: the seed
/// row's `b` for row one, the `c` two rows up after that.
pub open spec fn fib_src_a(cfg: FiboConfig, r: int) -> Cell {
    if r == 1 {
        Cell { kind: ColKind::Advice, index: cfg.col_b.index, row: 0 }
    } else {
        Cell { kind: ColKind::Advice, index: cfg.col_c.index, row: (r - 2) as usize }
    }
}

/// The copy constraints recorded after `j` rows: for each row past the
/// seed, its `a` against the cell it was copied from, and its `b`
/// against the previous row's `c`.
pub open spec fn fibo_copies(cfg: FiboConfig, j: int) -> Seq<(Cell, Cell)>
    decreases j,
{
    if j <= 1 {
        Seq::empty()
    } else {
        fibo_copies(cfg, j - 1) + seq![
            (
                fib_src_a(cfg, j - 1),
                Cell { kind: ColKind::Advice, index: cfg.col_a.index, row: (j - 1) as usize },
            ),
            (
                Cell { kind: ColKind::Advice, index: cfg.col_c.index, row: (j - 2) as usize },
                Cell { kind: ColKind::Advice, index: cfg.col_b.index, row: (j - 1) as usize },
            ),
        ]
    }
}

/// The value the grid holds at advice cell `(c2, r)` after `j` rows of
/// the circuit have been laid down on a fresh grid.
pub open spec fn fib_grid(cfg: FiboConfig, a: FValue, b: FValue, j: int, c2: int, r: int) -> FValue {
    if c2 == cfg.col_a.index && r < j {
        fib_pair(a, b, r).0
    } else if c2 == cfg.col_b.index && r < j {
        fib_pair(a, b, r).1
    } else if c2 == cfg.col_c.index && r < j {
        spec_fv_add(fib_pair(a, b, r).0, fib_pair(a, b, r).1)
    } else {
        FValue::Unknown
    }
}

/// Creates the circuit's columns, equality enablements, selector and
/// gate on a fresh constraint system.
pub fn fibo_configure(cs: &mut ConstraintSystem) -> (cfg: FiboConfig)
    requires
        old(cs).wf(),
        old(cs).spec_num_advice() == 0,
        old(cs).num_selectors == 0,
        old(cs).gates@.len() == 0,
    ensures
        final(cs).wf(),
        fibo_config_wf(*final(cs), cfg),
        cfg.col_a.index == 0,
        cfg.col_b.index == 1,
        cfg.col_c.index == 2,
        cfg.selector.index == 0,
        final(cs).spec_num_advice() == 3,
        final(cs).num_selectors == 1,
        final(cs).num_fixed == old(cs).num_fixed,
        final(cs).num_instance == old(cs).num_instance,
        final(cs).eq_instance@ == old(cs).eq_instance@,
        final(cs).gates@.len() == 1,
        final(cs).gates@[0].polys@ == seq![fibo_gate_poly(cfg)],
{
    let col_a = cs.advice_column();
    let col_b = cs.advice_column();
    let col_c = cs.advice_column();
    let ra = cs.enable_equality(col_a);
    let rb = cs.enable_equality(col_b);
    let rc = cs.enable_equality(col_c);
    proof {
        assert(ra is Ok && rb is Ok && rc is Ok);
    }
    let selector = cs.selector();
    let cfg = FiboConfig { col_a, col_b, col_c, selector };
    let poly = Expression::Product(
        Box::new(Expression::Selector(selector.index)),
        Box::new(
            Expression::Sum(
                Box::new(
                    Expression::Sum(
                        Box::new(Expression::Advice(col_a.index, 0)),
                        Box::new(Expression::Advice(col_b.index, 0)),
                    ),
                ),
                Box::new(Expression::Negated(Box::new(Expression::Advice(col_c.index, 0)))),
            ),
        ),
    );
    let mut polys: Vec<Expression> = Vec::new();
    polys.push(poly);
    proof {
        assert(polys@ =~= seq![fibo_gate_poly(cfg)]);
        let na = cs.spec_num_advice();
        let nf = cs.num_fixed as int;
        let ni = cs.num_instance as int;
        let ns = cs.num_selectors as int;
        let ea = Expression::Advice(cfg.col_a.index, 0);
        let eb = Expression::Advice(cfg.col_b.index, 0);
        let ec = Expression::Advice(cfg.col_c.index, 0);
        let es = Expression::Selector(cfg.selector.index);
        let sum_ab = Expression::Sum(Box::new(ea), Box::new(eb));
        let neg_c = Expression::Negated(Box::new(ec));
        let body = Expression::Sum(Box::new(sum_ab), Box::new(neg_c));
        assert(crate::expr::degree(ea) == 1 && crate::expr::degree(eb) == 1 && crate::expr::degree(
            ec,
        ) == 1 && crate::expr::degree(es) == 1);
        assert(crate::expr::degree(sum_ab) == 1);
        assert(crate::expr::degree(neg_c) == 1);
        assert(crate::expr::degree(body) == 1);
        assert(fibo_gate_poly(cfg) == Expression::Product(Box::new(es), Box::new(body)));
        assert(crate::expr::degree(fibo_gate_poly(cfg)) == 2);
        assert(crate::expr::expr_in_range(ea, na, nf, ni, ns));
        assert(crate::expr::expr_in_range(eb, na, nf, ni, ns));
        assert(crate::expr::expr_in_range(ec, na, nf, ni, ns));
        assert(crate::expr::expr_in_range(es, na, nf, ni, ns));
        assert(crate::expr::expr_in_range(sum_ab, na, nf, ni, ns));
        assert(crate::expr::expr_in_range(neg_c, na, nf, ni, ns));
        assert(crate::expr::expr_in_range(body, na, nf, ni, ns));
        assert(crate::expr::expr_in_range(fibo_gate_poly(cfg), na, nf, ni, ns));
    }
    let res = cs.create_gate("add".to_string(), polys);
    proof {
        assert(res is Ok);
        assert(cs.gates@[0].polys@ =~= seq![fibo_gate_poly(cfg)]);
    }
    cfg
}

/// Seeds the first row: writes `(a, b, a + b)` at the next free row and
/// enables the circuit's selector there.
#[verifier::rlimit(100)]
#[verifier::loop_isolation(false)]
pub fn fibo_first_row(lay: &mut Layouter, cfg: FiboConfig, a: FValue, b: FValue) -> (r: Result<
    (AssignedCell, AssignedCell, AssignedCell),
    Error,
>)
    requires
        old(lay).wf(),
        fibo_config_wf(old(lay).cs, cfg),
        old(lay).heights_advice@[cfg.col_a.index as int] == old(lay).heights_advice@[cfg.col_b.index as int],
        old(lay).heights_advice@[cfg.col_a.index as int] == old(lay).heights_advice@[cfg.col_c.index as int],
        old(lay).heights_advice@[cfg.col_a.index as int] == old(lay).heights_selector@[cfg.selector.index as int],
    ensures
        final(lay).wf(),
        final(lay).cs == old(lay).cs,
        final(lay).k == old(lay).k,
        final(lay).n_rows == old(lay).n_rows,
        final(lay).usable_rows == old(lay).usable_rows,
        r is Ok <==> old(lay).heights_advice@[cfg.col_a.index as int] + 1 <= old(lay).usable_rows,
        r is Err ==> r == Result::<(AssignedCell, AssignedCell, AssignedCell), Error>::Err(
            Error::Bounds,
        ) && *final(lay) == *old(lay),
        r matches Ok(cells) ==> ({
            let row = old(lay).heights_advice@[cfg.col_a.index as int] as int;
            let n = old(lay).n_rows as int;
            &&& cells.0 == (AssignedCell {
                cell: Cell { kind: ColKind::Advice, index: cfg.col_a.index, row: row as usize },
                value: a,
            })
            &&& cells.1 == (AssignedCell {
                cell: Cell { kind: ColKind::Advice, index: cfg.col_b.index, row: row as usize },
                value: b,
            })
            &&& cells.2 == (AssignedCell {
                cell: Cell { kind: ColKind::Advice, index: cfg.col_c.index, row: row as usize },
                value: spec_fv_add(a, b),
            })
            &&& final(lay).advice@ == old(lay).advice@.update(
                flat(cfg.col_a.index as int, row, n),
                a,
            ).update(flat(cfg.col_b.index as int, row, n), b).update(
                flat(cfg.col_c.index as int, row, n),
                spec_fv_add(a, b),
            )
            &&& final(lay).fixed@ == old(lay).fixed@
            &&& final(lay).selectors@ == old(lay).selectors@.update(
                flat(cfg.selector.index as int, row, n),
                true,
            )
            &&& final(lay).copies@ == old(lay).copies@
            &&& final(lay).heights_advice@ == old(lay).heights_advice@.update(
                cfg.col_a.index as int,
                (row + 1) as usize,
            ).update(cfg.col_b.index as int, (row + 1) as usize).update(
                cfg.col_c.index as int,
                (row + 1) as usize,
            )
            &&& final(lay).heights_fixed@ == old(lay).heights_fixed@
            &&& final(lay).heights_selector@ == old(lay).heights_selector@.update(
                cfg.selector.index as int,
                (row + 1) as usize,
            )
        }),
{
    let c_val = a.fv_add(b);
    let mut writes: Vec<WriteOp> = Vec::new();
    writes.push(WriteOp::Advice { col: cfg.col_a, offset: 0, value: a });
    writes.push(WriteOp::Advice { col: cfg.col_b, offset: 0, value: b });
    writes.push(WriteOp::Advice { col: cfg.col_c, offset: 0, value: c_val });
    let mut enables: Vec<(SelectorId, usize)> = Vec::new();
    enables.push((cfg.selector, 0));
    let plan = RegionPlan { name: "first row".to_string(), writes, eq_pairs: Vec::new(), enables };
    proof {
        let ws = plan.writes@;
        let es = plan.enables@;
        lemma_row3(
            old(lay).heights_advice@,
            old(lay).heights_fixed@,
            old(lay).heights_selector@,
            old(lay).advice@,
            old(lay).selectors@,
            ws,
            es,
            old(lay).heights_advice@[cfg.col_a.index as int] as int,
            old(lay).n_rows as int,
            ColKind::Advice,
        );
        lemma_row3(
            old(lay).heights_advice@,
            old(lay).heights_fixed@,
            old(lay).heights_selector@,
            old(lay).fixed@,
            old(lay).selectors@,
            ws,
            es,
            old(lay).heights_advice@[cfg.col_a.index as int] as int,
            old(lay).n_rows as int,
            ColKind::Fixed,
        );
        assert forall|i: int| 0 <= i < ws.len() implies write_ok(
            old(lay).cs,
            #[trigger] ws[i],
        ) by {
            assert(i == 0 || i == 1 || i == 2);
        }
        assert(plan_ok(old(lay).cs, plan));
        assert(crate::layout::pair_cells(plan.eq_pairs@) =~= Seq::empty());
    }
    match lay.assign_region(&plan) {
        Ok(cells) => {
            proof {
                let row = old(lay).heights_advice@[cfg.col_a.index as int] as int;
                let n = old(lay).n_rows as int;
                assert(lay.copies@ =~= old(lay).copies@);
                assert(lay.heights_advice@ =~= old(lay).heights_advice@.update(
                    cfg.col_a.index as int,
                    (row + 1) as usize,
                ).update(cfg.col_b.index as int, (row + 1) as usize).update(
                    cfg.col_c.index as int,
                    (row + 1) as usize,
                ));
                assert(lay.heights_fixed@ =~= old(lay).heights_fixed@);
                assert(lay.heights_selector@ =~= old(lay).heights_selector@.update(
                    cfg.selector.index as int,
                    (row + 1) as usize,
                ));
                assert(cells@.len() == 3);
            }
            let c0 = cells[0];
            let c1 = cells[1];
            let c2 = cells[2];
            Ok((c0, c1, c2))
        },
        Err(e) => Err(e),
    }
}

/// Builds one further row: copies the previous row's `(b, c)` into this
/// row's `(a, b)`, sets `c = a + b`, and enables the selector.
#[verifier::rlimit(100)]
#[verifier::loop_isolation(false)]
pub fn fibo_next_row(
    lay: &mut Layouter,
    cfg: FiboConfig,
    prev_b: AssignedCell,
    prev_c: AssignedCell,
) -> (r: Result<AssignedCell, Error>)
    requires
        old(lay).wf(),
        fibo_config_wf(old(lay).cs, cfg),
        crate::layout::cell_eq_enabled(old(lay).cs, prev_b.cell),
        crate::layout::cell_eq_enabled(old(lay).cs, prev_c.cell),
        old(lay).heights_advice@[cfg.col_a.index as int] == old(lay).heights_advice@[cfg.col_b.index as int],
        old(lay).heights_advice@[cfg.col_a.index as int] == old(lay).heights_advice@[cfg.col_c.index as int],
        old(lay).heights_advice@[cfg.col_a.index as int] == old(lay).heights_selector@[cfg.selector.index as int],
    ensures
        final(lay).wf(),
        final(lay).cs == old(lay).cs,
        final(lay).k == old(lay).k,
        final(lay).n_rows == old(lay).n_rows,
        final(lay).usable_rows == old(lay).usable_rows,
        r is Ok <==> old(lay).heights_advice@[cfg.col_a.index as int] + 1 <= old(lay).usable_rows,
        r is Err ==> r == Result::<AssignedCell, Error>::Err(Error::Bounds) && *final(lay) == *old(
            lay,
        ),
        r matches Ok(cell) ==> ({
            let row = old(lay).heights_advice@[cfg.col_a.index as int] as int;
            let n = old(lay).n_rows as int;
            &&& cell == (AssignedCell {
                cell: Cell { kind: ColKind::Advice, index: cfg.col_c.index, row: row as usize },
                value: spec_fv_add(prev_b.value, prev_c.value),
            })
            &&& final(lay).advice@ == old(lay).advice@.update(
                flat(cfg.col_a.index as int, row, n),
                prev_b.value,
            ).update(flat(cfg.col_b.index as int, row, n), prev_c.value).update(
                flat(cfg.col_c.index as int, row, n),
                spec_fv_add(prev_b.value, prev_c.value),
            )
            &&& final(lay).fixed@ == old(lay).fixed@
            &&& final(lay).selectors@ == old(lay).selectors@.update(
                flat(cfg.selector.index as int, row, n),
                true,
            )
            &&& final(lay).copies@ == old(lay).copies@ + seq![
                (
                    prev_b.cell,
                    Cell { kind: ColKind::Advice, index: cfg.col_a.index, row: row as usize },
                ),
                (
                    prev_c.cell,
                    Cell { kind: ColKind::Advice, index: cfg.col_b.index, row: row as usize },
                ),
            ]
            &&& final(lay).heights_advice@ == old(lay).heights_advice@.update(
                cfg.col_a.index as int,
                (row + 1) as usize,
            ).update(cfg.col_b.index as int, (row + 1) as usize).update(
                cfg.col_c.index as int,
                (row + 1) as usize,
            )
            &&& final(lay).heights_fixed@ == old(lay).heights_fixed@
            &&& final(lay).heights_selector@ == old(lay).heights_selector@.update(
                cfg.selector.index as int,
                (row + 1) as usize,
            )
        }),
{
    let c_val = prev_b.value.fv_add(prev_c.value);
    let mut writes: Vec<WriteOp> = Vec::new();
    writes.push(WriteOp::CopyAdvice { src: prev_b, col: cfg.col_a, offset: 0 });
    writes.push(WriteOp::CopyAdvice { src: prev_c, col: cfg.col_b, offset: 0 });
    writes.push(WriteOp::Advice { col: cfg.col_c, offset: 0, value: c_val });
    let mut enables: Vec<(SelectorId, usize)> = Vec::new();
    enables.push((cfg.selector, 0));
    let plan = RegionPlan { name: "next row".to_string(), writes, eq_pairs: Vec::new(), enables };
    proof {
        let ws = plan.writes@;
        let es = plan.enables@;
        lemma_row3(
            old(lay).heights_advice@,
            old(lay).heights_fixed@,
            old(lay).heights_selector@,
            old(lay).advice@,
            old(lay).selectors@,
            ws,
            es,
            old(lay).heights_advice@[cfg.col_a.index as int] as int,
            old(lay).n_rows as int,
            ColKind::Advice,
        );
        lemma_row3(
            old(lay).heights_advice@,
            old(lay).heights_fixed@,
            old(lay).heights_selector@,
            old(lay).fixed@,
            old(lay).selectors@,
            ws,
            es,
            old(lay).heights_advice@[cfg.col_a.index as int] as int,
            old(lay).n_rows as int,
            ColKind::Fixed,
        );
        assert forall|i: int| 0 <= i < ws.len() implies write_ok(
            old(lay).cs,
            #[trigger] ws[i],
        ) by {
            assert(i == 0 || i == 1 || i == 2);
        }
        assert(plan_ok(old(lay).cs, plan));
        assert(crate::layout::pair_cells(plan.eq_pairs@) =~= Seq::empty());
    }
    match lay.assign_region(&plan) {
        Ok(cells) => {
            proof {
                let row = old(lay).heights_advice@[cfg.col_a.index as int] as int;
                let n = old(lay).n_rows as int;
                assert(lay.copies@ =~= old(lay).copies@ + seq![
                    (
                        prev_b.cell,
                        Cell { kind: ColKind::Advice, index: cfg.col_a.index, row: row as usize },
                    ),
                    (
                        prev_c.cell,
                        Cell { kind: ColKind::Advice, index: cfg.col_b.index, row: row as usize },
                    ),
                ]);
                assert(lay.heights_advice@ =~= old(lay).heights_advice@.update(
                    cfg.col_a.index as int,
                    (row + 1) as usize,
                ).update(cfg.col_b.index as int, (row + 1) as usize).update(
                    cfg.col_c.index as int,
                    (row + 1) as usize,
                ));
                assert(lay.heights_fixed@ =~= old(lay).heights_fixed@);
                assert(lay.heights_selector@ =~= old(lay).heights_selector@.update(
                    cfg.selector.index as int,
                    (row + 1) as usize,
                ));
                assert(cells@.len() == 3);
            }
            let c2 = cells[2];
            Ok(c2)
        },
        Err(e) => Err(e),
    }
}

/// Lays the whole circuit onto a fresh grid: the seed row, then
/// `nrows - 1` chained rows.  Synthesis succeeds exactly when the rows
/// fit the usable budget; on success the grid, the selector table and
/// the copy constraints are pinned down completely.
#[verifier::rlimit(100)]
#[verifier::loop_isolation(false)]
pub fn fibo_synthesize(
    lay: &mut Layouter,
    cfg: FiboConfig,
    a: FValue,
    b: FValue,
    nrows: usize,
) -> (r: Result<(), Error>)
    requires
        old(lay).wf(),
        fibo_config_wf(old(lay).cs, cfg),
        old(lay).advice@ == Seq::new(old(lay).advice@.len(), |i: int| FValue::Unknown),
        old(lay).selectors@ == Seq::new(old(lay).selectors@.len(), |i: int| false),
        old(lay).copies@.len() == 0,
        old(lay).heights_advice@ == Seq::new(old(lay).heights_advice@.len(), |i: int| 0usize),
        old(lay).heights_fixed@ == Seq::new(old(lay).heights_fixed@.len(), |i: int| 0usize),
        old(lay).heights_selector@ == Seq::new(
            old(lay).heights_selector@.len(),
            |i: int| 0usize,
        ),
        1 <= nrows,
    ensures
        final(lay).wf(),
        final(lay).cs == old(lay).cs,
        final(lay).k == old(lay).k,
        final(lay).n_rows == old(lay).n_rows,
        final(lay).usable_rows == old(lay).usable_rows,
        r is Ok <==> nrows <= old(lay).usable_rows,
        r is Err ==> r == Result::<(), Error>::Err(Error::Bounds),
        r is Ok ==> ({
            let n = old(lay).n_rows as int;
            &&& forall|c2: int, rr: int|
                0 <= c2 < old(lay).cs.spec_num_advice() && 0 <= rr < n ==> final(lay).advice@[flat(c2, rr, n)] == fib_grid(cfg, a, b, nrows as int, c2, rr)
            &&& forall|s2: int, rr: int|
                0 <= s2 < old(lay).cs.num_selectors && 0 <= rr < n ==> final(lay).selectors@[flat(s2, rr, n)] == (s2 == cfg.selector.index && rr < nrows)
            &&& final(lay).fixed@ == old(lay).fixed@
            &&& final(lay).copies@ == fibo_copies(cfg, nrows as int)
        }),
{
    let ghost n = old(lay).n_rows as int;
    let ghost na = old(lay).cs.spec_num_advice();
    let ghost nsel = old(lay).cs.num_selectors as int;
    let r0 = fibo_first_row(lay, cfg, a, b);
    match r0 {
        Err(e) => Err(e),
        Ok(cells) => {
            let mut prev_b = cells.1;
            let mut prev_c = cells.2;
            proof {
                assert(lay.advice@.len() == na * n);
                assert(old(lay).advice@.len() == na * n);
                crate::layout::lemma_flat_bound(cfg.col_a.index as int, 0, na, n);
                assert(old(lay).heights_advice@[cfg.col_a.index as int] == 0usize);
                assert(lay.advice@ == old(lay).advice@.update(
                    flat(cfg.col_a.index as int, 0, n),
                    a,
                ).update(flat(cfg.col_b.index as int, 0, n), b).update(
                    flat(cfg.col_c.index as int, 0, n),
                    spec_fv_add(a, b),
                ));
                crate::layout::lemma_flat_bound(cfg.col_b.index as int, 0, na, n);
                crate::layout::lemma_flat_bound(cfg.col_c.index as int, 0, na, n);
                assert(fib_pair(a, b, 0) == (a, b));
                assert forall|c2: int, rr: int| 0 <= c2 < na && 0 <= rr < n implies lay.advice@[flat(c2, rr, n)] == fib_grid(cfg, a, b, 1, c2, rr) by {
                    crate::layout::lemma_flat_bound(c2, rr, na, n);
                    lemma_flat_inj(c2, rr, cfg.col_a.index as int, 0, n);
                    lemma_flat_inj(c2, rr, cfg.col_b.index as int, 0, n);
                    lemma_flat_inj(c2, rr, cfg.col_c.index as int, 0, n);
                }
                crate::layout::lemma_flat_bound(cfg.selector.index as int, 0, nsel, n);
                assert(lay.selectors@.len() == nsel * n);
                assert forall|s2: int, rr: int| 0 <= s2 < nsel && 0 <= rr < n implies lay.selectors@[flat(s2, rr, n)] == (s2 == cfg.selector.index && rr < 1) by {
                    crate::layout::lemma_flat_bound(s2, rr, nsel, n);
                    lemma_flat_inj(s2, rr, cfg.selector.index as int, 0, n);
                }
                assert(lay.copies@ =~= fibo_copies(cfg, 1));
            }
            let mut j: usize = 1;
            while j < nrows
                invariant
                    1 <= j <= nrows,
                    j <= old(lay).usable_rows,
                    lay.wf(),
                    lay.cs == old(lay).cs,
                    lay.k == old(lay).k,
                    lay.n_rows == old(lay).n_rows,
                    lay.usable_rows == old(lay).usable_rows,
                    forall|x: int|
                        0 <= x < lay.heights_advice@.len() ==> #[trigger] lay.heights_advice@[x]
                            == (if x == cfg.col_a.index || x == cfg.col_b.index || x
                            == cfg.col_c.index {
                            j
                        } else {
                            0usize
                        }),
                    lay.heights_fixed@ == old(lay).heights_fixed@,
                    forall|x: int|
                        0 <= x < lay.heights_selector@.len() ==> #[trigger] lay.heights_selector@[x]
                            == (if x == cfg.selector.index {
                            j
                        } else {
                            0usize
                        }),
                    forall|c2: int, rr: int|
                        0 <= c2 < na && 0 <= rr < n ==> lay.advice@[flat(c2, rr, n)] == fib_grid(
                            cfg,
                            a,
                            b,
                            j as int,
                            c2,
                            rr,
                        ),
                    lay.fixed@ == old(lay).fixed@,
                    forall|s2: int, rr: int|
                        0 <= s2 < nsel && 0 <= rr < n ==> lay.selectors@[flat(s2, rr, n)] == (s2
                            == cfg.selector.index && rr < j),
                    lay.copies@ == fibo_copies(cfg, j as int),
                    prev_b.value == fib_pair(a, b, j as int).0,
                    prev_c.value == fib_pair(a, b, j as int).1,
                    prev_b.cell == fib_src_a(cfg, j as int),
                    prev_c.cell == (Cell {
                        kind: ColKind::Advice,
                        index: cfg.col_c.index,
                        row: (j - 1) as usize,
                    }),
                decreases nrows - j,
            {
                proof {
                    assert(lay.heights_advice@[cfg.col_a.index as int] == j);
                    assert(crate::layout::cell_eq_enabled(lay.cs, prev_b.cell));
                    assert(crate::layout::cell_eq_enabled(lay.cs, prev_c.cell));
                }
                let ghost adv_pre = lay.advice@;
                let ghost sel_pre = lay.selectors@;
                let ghost cop_pre = lay.copies@;
                let rj = fibo_next_row(lay, cfg, prev_b, prev_c);
                match rj {
                    Err(e) => {
                        return Err(e);
                    },
                    Ok(cell) => {
                        proof {
                            let jj = j as int;
                            assert(fib_pair(a, b, jj + 1).0 == fib_pair(a, b, jj).1);
                            assert(fib_pair(a, b, jj + 1).1 == spec_fv_add(
                                fib_pair(a, b, jj).0,
                                fib_pair(a, b, jj).1,
                            ));
                            crate::layout::lemma_flat_bound(cfg.col_a.index as int, jj, na, n);
                            crate::layout::lemma_flat_bound(cfg.col_b.index as int, jj, na, n);
                            crate::layout::lemma_flat_bound(cfg.col_c.index as int, jj, na, n);
                            crate::layout::lemma_flat_bound(cfg.selector.index as int, jj, nsel, n);
                            assert(lay.advice@ == adv_pre.update(
                                flat(cfg.col_a.index as int, jj, n),
                                prev_b.value,
                            ).update(flat(cfg.col_b.index as int, jj, n), prev_c.value).update(
                                flat(cfg.col_c.index as int, jj, n),
                                spec_fv_add(prev_b.value, prev_c.value),
                            ));
                            assert(lay.selectors@ == sel_pre.update(
                                flat(cfg.selector.index as int, jj, n),
                                true,
                            ));
                            assert(forall|c2: int, rr: int|
                                0 <= c2 < na && 0 <= rr < n ==> adv_pre[flat(c2, rr, n)]
                                    == fib_grid(cfg, a, b, jj, c2, rr));
                            assert forall|c2: int, rr: int| 0 <= c2 < na && 0 <= rr < n implies lay
                                .advice@[flat(c2, rr, n)] == fib_grid(
                                cfg,
                                a,
                                b,
                                jj + 1,
                                c2,
                                rr,
                            ) by {
                                crate::layout::lemma_flat_bound(c2, rr, na, n);
                                lemma_flat_inj(c2, rr, cfg.col_a.index as int, jj, n);
                                lemma_flat_inj(c2, rr, cfg.col_b.index as int, jj, n);
                                lemma_flat_inj(c2, rr, cfg.col_c.index as int, jj, n);
                                assert(adv_pre[flat(c2, rr, n)] == fib_grid(cfg, a, b, jj, c2, rr));
                            }
                            assert forall|s2: int, rr: int| 0 <= s2 < nsel && 0 <= rr
                                < n implies lay.selectors@[flat(s2, rr, n)] == (s2
                                == cfg.selector.index && rr < jj + 1) by {
                                crate::layout::lemma_flat_bound(s2, rr, nsel, n);
                                lemma_flat_inj(s2, rr, cfg.selector.index as int, jj, n);
                            }
                            assert(fibo_copies(cfg, jj + 1) =~= fibo_copies(cfg, jj) + seq![
                                (
                                    fib_src_a(cfg, jj),
                                    Cell {
                                        kind: ColKind::Advice,
                                        index: cfg.col_a.index,
                                        row: jj as usize,
                                    },
                                ),
                                (
                                    Cell {
                                        kind: ColKind::Advice,
                                        index: cfg.col_c.index,
                                        row: (jj - 1) as usize,
                                    },
                                    Cell {
                                        kind: ColKind::Advice,
                                        index: cfg.col_b.index,
                                        row: jj as usize,
                                    },
                                ),
                            ]);
                            assert(lay.copies@ =~= fibo_copies(cfg, jj + 1));
                        }
                        prev_b = prev_c;
                        prev_c = cell;
                        j = j + 1;
                    },
                }
            }
            Ok(())
        },
    }
}

} // verus!
