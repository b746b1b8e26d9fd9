//! The mock verifier.
//!
//! Given a finished synthesis it evaluates every gate polynomial at every
//! row and checks every recorded copy constraint, accumulating all the
//! failures it finds; an empty report means the assignment satisfies the
//! constraint system.  Instance columns carry the externally supplied
//! public inputs; a copy constraint that pins a cell to an instance cell
//! with a different value is reported as an instance mismatch.

use vstd::prelude::*;
use vstd::arithmetic::div_mod::{
    lemma_add_mod_noop_right, lemma_mod_add_multiples_vanish, lemma_mod_bound,
    lemma_sub_mod_noop_right,
};
use crate::cs::ColKind;
use crate::expr::{expr_in_range, Expression};
use crate::field::{f_add, f_mul, f_neg, FValue, Fp};
use crate::layout::{flat, Cell, Layouter};

verus! {

/// The evaluation row for a query: the base row shifted by the rotation,
/// wrapped modulo the row count.
pub open spec fn rot_row(row: int, rot: int, n: int) -> int {
    (row + rot) % n
}

/// Computes the wrapped evaluation row.
pub fn rotated(row: usize, rot: i32, n: usize) -> (r: usize)
    requires
        1 <= n <= 0x100000,
        row < n,
    ensures
        r as int == rot_row(row as int, rot as int, n as int),
        r < n,
{
    if rot >= 0 {
        let m: usize = (rot as usize) % n;
        proof {
            lemma_mod_bound(rot as int, n as int);
            lemma_add_mod_noop_right(row as int, rot as int, n as int);
            lemma_mod_bound(row as int + (rot as int) % (n as int), n as int);
        }
        (row + m) % n
    } else {
        let q: usize = ((-(rot as i64)) as usize) % n;
        proof {
            let ni = n as int;
            let qi = 0 - (rot as int);
            lemma_mod_bound(qi, ni);
            lemma_sub_mod_noop_right(row as int, qi, ni);
            // Shifting the dividend by one full period leaves the
            // remainder unchanged.
            lemma_mod_add_multiples_vanish(row as int - qi % ni, ni);
            lemma_mod_bound(row as int + ni - qi % ni, ni);
        }
        (row + n - q) % n
    }
}

/// The value an advice query reads: the canonical representative of the
/// cell, or zero when the cell is unknown or out of range.
pub open spec fn advice_value(lay: Layouter, c: int, r: int) -> int {
    if 0 <= c < lay.cs.spec_num_advice() && 0 <= r < lay.n_rows {
        lay.advice@[flat(c, r, lay.n_rows as int)].val_or_zero()
    } else {
        0
    }
}

/// The value a fixed query reads.
pub open spec fn fixed_value(lay: Layouter, c: int, r: int) -> int {
    if 0 <= c < lay.cs.num_fixed && 0 <= r < lay.n_rows {
        lay.fixed@[flat(c, r, lay.n_rows as int)].val_or_zero()
    } else {
        0
    }
}

/// The value an instance query reads: the externally supplied public
/// input at that row, or zero beyond the supplied prefix.
pub open spec fn instance_value(inst: Seq<Seq<Fp>>, c: int, r: int) -> int {
    if 0 <= c < inst.len() && 0 <= r < inst[c].len() {
        inst[c][r].val()
    } else {
        0
    }
}

/// A selector reads one where enabled, zero elsewhere.
pub open spec fn selector_value(lay: Layouter, s: int, r: int) -> int {
    if 0 <= s < lay.cs.num_selectors && 0 <= r < lay.n_rows && lay.selectors@[flat(
        s,
        r,
        lay.n_rows as int,
    )] {
        1
    } else {
        0
    }
}

/// The value of an expression at a row, under the synthesized grids and
/// the supplied public inputs.  Always a canonical field representative.
pub open spec fn eval_expr(e: Expression, lay: Layouter, inst: Seq<Seq<Fp>>, row: int) -> int
    decreases e,
{
    match e {
        Expression::Constant(c) => c.val(),
        Expression::Selector(s) => selector_value(lay, s as int, row),
        Expression::Advice(c, rot) => advice_value(
            lay,
            c as int,
            rot_row(row, rot as int, lay.n_rows as int),
        ),
        Expression::Fixed(c, rot) => fixed_value(
            lay,
            c as int,
            rot_row(row, rot as int, lay.n_rows as int),
        ),
        Expression::Instance(c, rot) => instance_value(
            inst,
            c as int,
            rot_row(row, rot as int, lay.n_rows as int),
        ),
        Expression::Negated(x) => f_neg(eval_expr(*x, lay, inst, row)),
        Expression::Sum(a, b) => f_add(eval_expr(*a, lay, inst, row), eval_expr(*b, lay, inst, row)),
        Expression::Product(a, b) => f_mul(
            eval_expr(*a, lay, inst, row),
            eval_expr(*b, lay, inst, row),
        ),
        Expression::Scaled(x, k) => f_mul(eval_expr(*x, lay, inst, row), k.val()),
    }
}

/// The possibly-unknown value of a cell named by a copy constraint.  An
/// instance cell is known whenever a public input was supplied for it.
pub open spec fn cell_value(lay: Layouter, inst: Seq<Seq<Fp>>, c: Cell) -> FValue {
    match c.kind {
        ColKind::Advice => {
            if c.index < lay.cs.spec_num_advice() && c.row < lay.n_rows {
                lay.advice@[flat(c.index as int, c.row as int, lay.n_rows as int)]
            } else {
                FValue::Unknown
            }
        },
        ColKind::Fixed => {
            if c.index < lay.cs.num_fixed && c.row < lay.n_rows {
                lay.fixed@[flat(c.index as int, c.row as int, lay.n_rows as int)]
            } else {
                FValue::Unknown
            }
        },
        ColKind::Instance => {
            if c.index < inst.len() && c.row < inst[c.index as int].len() {
                FValue::Known(inst[c.index as int][c.row as int])
            } else {
                FValue::Unknown
            }
        },
    }
}

/// Whether one copy constraint holds: two known values must agree;
/// a pair with an unknown side raises no failure.
pub open spec fn pair_ok(lay: Layouter, inst: Seq<Seq<Fp>>, a: Cell, b: Cell) -> bool {
    cell_value(lay, inst, a) is Known && cell_value(lay, inst, b) is Known
        ==> cell_value(lay, inst, a).val_or_zero() == cell_value(lay, inst, b).val_or_zero()
}

/// Whether every gate polynomial vanishes at every row.
pub open spec fn gates_ok(lay: Layouter, inst: Seq<Seq<Fp>>) -> bool {
    forall|g: int, p: int, r: int|
        0 <= g < lay.cs.gates@.len() && 0 <= p < lay.cs.gates@[g].polys@.len() && 0 <= r
            < lay.n_rows ==> #[trigger] eval_expr(lay.cs.gates@[g].polys@[p], lay, inst, r) == 0
}

/// Whether every recorded copy constraint holds.
pub open spec fn copies_ok(lay: Layouter, inst: Seq<Seq<Fp>>) -> bool {
    forall|i: int|
        0 <= i < lay.copies@.len() ==> pair_ok(
            lay,
            inst,
            (#[trigger] lay.copies@[i]).0,
            lay.copies@[i].1,
        )
}

/// Whether the assignment satisfies the constraint system under the
/// supplied public inputs.
pub open spec fn satisfied(lay: Layouter, inst: Seq<Seq<Fp>>) -> bool {
    gates_ok(lay, inst) && copies_ok(lay, inst)
}

/// One verification failure.
#[derive(Clone, Copy, PartialEq, Eq, Structural, Debug)]
pub enum Failure {
    /// A gate polynomial evaluated non-zero: which gate, which
    /// polynomial within it, and at which row.
    Gate { gate: usize, poly: usize, row: usize },
    /// A copy constraint between two known, differing values: the index
    /// of the pair in the recorded list.
    Permutation { pair: usize },
    /// A copy constraint against an instance cell whose supplied public
    /// input differs from the other side.
    Instance { pair: usize },
}

/// Whether a reported failure names a real violation.
pub open spec fn failure_real(lay: Layouter, inst: Seq<Seq<Fp>>, f: Failure) -> bool {
    match f {
        Failure::Gate { gate, poly, row } => {
            &&& gate < lay.cs.gates@.len()
            &&& poly < lay.cs.gates@[gate as int].polys@.len()
            &&& row < lay.n_rows
            &&& eval_expr(lay.cs.gates@[gate as int].polys@[poly as int], lay, inst, row as int)
                != 0
        },
        Failure::Permutation { pair } => {
            &&& pair < lay.copies@.len()
            &&& !pair_ok(lay, inst, lay.copies@[pair as int].0, lay.copies@[pair as int].1)
        },
        Failure::Instance { pair } => {
            &&& pair < lay.copies@.len()
            &&& !pair_ok(lay, inst, lay.copies@[pair as int].0, lay.copies@[pair as int].1)
            &&& (lay.copies@[pair as int].0.kind == ColKind::Instance || lay.copies@[
                pair as int
            ].1.kind == ColKind::Instance)
        },
    }
}

/// The deep view of the supplied public inputs.
pub open spec fn inst_view(instances: Vec<Vec<Fp>>) -> Seq<Seq<Fp>> {
    instances@.map(|i: int, v: Vec<Fp>| v@)
}

/// Evaluates an expression at a row against the synthesized grids.
#[verifier::loop_isolation(false)]
pub fn eval(e: &Expression, lay: &Layouter, instances: &Vec<Vec<Fp>>, row: usize) -> (r: Fp)
    requires
        lay.wf(),
        expr_in_range(
            *e,
            lay.cs.spec_num_advice(),
            lay.cs.num_fixed as int,
            lay.cs.num_instance as int,
            lay.cs.num_selectors as int,
        ),
        row < lay.n_rows,
        instances@.len() == lay.cs.num_instance,
    ensures
        r.val() == eval_expr(*e, *lay, inst_view(*instances), row as int),
        r.reduced(),
    decreases *e,
{
    match e {
        Expression::Constant(c) => {
            let v = *c;
            let reduced = Fp::from_u64(v.repr());
            proof {
                vstd::arithmetic::div_mod::lemma_mod_twice(v.v as int, crate::field::p());
            }
            reduced
        },
        Expression::Selector(s) => {
            let on = lay.selector_at(*s, row);
            if on {
                Fp::one()
            } else {
                Fp::zero()
            }
        },
        Expression::Advice(c, rot) => {
            let rr = rotated(row, *rot, lay.n_rows);
            let v = lay.advice_at(*c, rr);
            match v {
                FValue::Known(x) => {
                    let reduced = Fp::from_u64(x.repr());
                    proof {
                        vstd::arithmetic::div_mod::lemma_mod_twice(x.v as int, crate::field::p());
                    }
                    reduced
                },
                FValue::Unknown => Fp::zero(),
            }
        },
        Expression::Fixed(c, rot) => {
            let rr = rotated(row, *rot, lay.n_rows);
            let v = lay.fixed_at(*c, rr);
            match v {
                FValue::Known(x) => {
                    let reduced = Fp::from_u64(x.repr());
                    proof {
                        vstd::arithmetic::div_mod::lemma_mod_twice(x.v as int, crate::field::p());
                    }
                    reduced
                },
                FValue::Unknown => Fp::zero(),
            }
        },
        Expression::Instance(c, rot) => {
            let rr = rotated(row, *rot, lay.n_rows);
            if rr < instances[*c].len() {
                let x = instances[*c][rr];
                let reduced = Fp::from_u64(x.repr());
                proof {
                    vstd::arithmetic::div_mod::lemma_mod_twice(x.v as int, crate::field::p());
                }
                reduced
            } else {
                Fp::zero()
            }
        },
        Expression::Negated(x) => eval(x, lay, instances, row).neg(),
        Expression::Sum(a, b) => eval(a, lay, instances, row).add(eval(b, lay, instances, row)),
        Expression::Product(a, b) => eval(a, lay, instances, row).mul(eval(b, lay, instances, row)),
        Expression::Scaled(x, k) => {
            let kv = *k;
            eval(x, lay, instances, row).mul(kv)
        },
    }
}

/// The possibly-unknown value of a cell named by a copy constraint.
pub fn cell_fvalue(lay: &Layouter, instances: &Vec<Vec<Fp>>, c: Cell) -> (r: FValue)
    requires
        lay.wf(),
        instances@.len() == lay.cs.num_instance,
    ensures
        r == cell_value(*lay, inst_view(*instances), c),
{
    match c.kind {
        ColKind::Advice => {
            if c.index < lay.cs.eq_advice.len() && c.row < lay.n_rows {
                lay.advice_at(c.index, c.row)
            } else {
                FValue::Unknown
            }
        },
        ColKind::Fixed => {
            if c.index < lay.cs.num_fixed && c.row < lay.n_rows {
                lay.fixed_at(c.index, c.row)
            } else {
                FValue::Unknown
            }
        },
        ColKind::Instance => {
            if c.index < instances.len() && c.row < instances[c.index].len() {
                FValue::Known(instances[c.index][c.row])
            } else {
                FValue::Unknown
            }
        },
    }
}

/// Runs every check and returns all failures found: every gate
/// polynomial at every row, then every copy constraint.  The report is
/// empty exactly when the assignment satisfies the system, and every
/// entry names a real violation.
#[verifier::rlimit(100)]
#[verifier::loop_isolation(false)]
pub fn verify(lay: &Layouter, instances: &Vec<Vec<Fp>>) -> (fails: Vec<Failure>)
    requires
        lay.wf(),
        instances@.len() == lay.cs.num_instance,
    ensures
        fails@.len() == 0 <==> satisfied(*lay, inst_view(*instances)),
        forall|j: int|
            0 <= j < fails@.len() ==> failure_real(
                *lay,
                inst_view(*instances),
                #[trigger] fails@[j],
            ),
{
    let ghost iv = inst_view(*instances);
    let mut fails: Vec<Failure> = Vec::new();
    let mut g: usize = 0;
    while g < lay.cs.gates.len()
        invariant
            g <= lay.cs.gates@.len(),
            forall|j: int| 0 <= j < fails@.len() ==> failure_real(*lay, iv, #[trigger] fails@[j]),
            fails@.len() == 0 <==> (forall|g2: int, p2: int, r2: int|
                0 <= g2 < g && 0 <= p2 < lay.cs.gates@[g2].polys@.len() && 0 <= r2 < lay.n_rows
                    ==> #[trigger] eval_expr(lay.cs.gates@[g2].polys@[p2], *lay, iv, r2) == 0),
        decreases lay.cs.gates@.len() - g,
    {
        let n_polys = lay.cs.gates[g].polys.len();
        let mut p: usize = 0;
        while p < n_polys
            invariant
                p <= n_polys,
                n_polys == lay.cs.gates@[g as int].polys@.len(),
                g < lay.cs.gates@.len(),
                forall|j: int|
                    0 <= j < fails@.len() ==> failure_real(*lay, iv, #[trigger] fails@[j]),
                fails@.len() == 0 <==> ((forall|g2: int, p2: int, r2: int|
                    0 <= g2 < g && 0 <= p2 < lay.cs.gates@[g2].polys@.len() && 0 <= r2 < lay.n_rows
                        ==> #[trigger] eval_expr(lay.cs.gates@[g2].polys@[p2], *lay, iv, r2) == 0)
                    && (forall|p2: int, r2: int|
                    0 <= p2 < p && 0 <= r2 < lay.n_rows ==> #[trigger] eval_expr(
                        lay.cs.gates@[g as int].polys@[p2],
                        *lay,
                        iv,
                        r2,
                    ) == 0)),
            decreases n_polys - p,
        {
            let mut r: usize = 0;
            while r < lay.n_rows
                invariant
                    r <= lay.n_rows,
                    p < n_polys,
                    n_polys == lay.cs.gates@[g as int].polys@.len(),
                    g < lay.cs.gates@.len(),
                    forall|j: int|
                        0 <= j < fails@.len() ==> failure_real(*lay, iv, #[trigger] fails@[j]),
                    fails@.len() == 0 <==> ((forall|g2: int, p2: int, r2: int|
                        0 <= g2 < g && 0 <= p2 < lay.cs.gates@[g2].polys@.len() && 0 <= r2
                            < lay.n_rows ==> #[trigger] eval_expr(
                            lay.cs.gates@[g2].polys@[p2],
                            *lay,
                            iv,
                            r2,
                        ) == 0) && (forall|p2: int, r2: int|
                        0 <= p2 < p && 0 <= r2 < lay.n_rows ==> #[trigger] eval_expr(
                            lay.cs.gates@[g as int].polys@[p2],
                            *lay,
                            iv,
                            r2,
                        ) == 0) && (forall|r2: int|
                        0 <= r2 < r ==> #[trigger] eval_expr(
                            lay.cs.gates@[g as int].polys@[p as int],
                            *lay,
                            iv,
                            r2,
                        ) == 0)),
                decreases lay.n_rows - r,
            {
                proof {
                    assert(lay.cs.wf());
                    assert(lay.cs.gate_wf(lay.cs.gates@[g as int]));
                }
                let v = eval(&lay.cs.gates[g].polys[p], lay, instances, r);
                if !v.equals(Fp::zero()) {
                    fails.push(Failure::Gate { gate: g, poly: p, row: r });
                }
                r = r + 1;
            }
            p = p + 1;
        }
        g = g + 1;
    }
    proof {
        assert(fails@.len() == 0 <==> gates_ok(*lay, iv));
    }
    let ghost gates_were_ok = fails@.len() == 0;
    let mut i: usize = 0;
    while i < lay.copies.len()
        invariant
            i <= lay.copies@.len(),
            forall|j: int| 0 <= j < fails@.len() ==> failure_real(*lay, iv, #[trigger] fails@[j]),
            fails@.len() == 0 <==> (gates_were_ok && (forall|t: int|
                0 <= t < i ==> pair_ok(*lay, iv, (#[trigger] lay.copies@[t]).0, lay.copies@[t].1))),
        decreases lay.copies@.len() - i,
    {
        let a = lay.copies[i].0;
        let b = lay.copies[i].1;
        let va = cell_fvalue(lay, instances, a);
        let vb = cell_fvalue(lay, instances, b);
        match (va, vb) {
            (FValue::Known(x), FValue::Known(y)) => {
                if !x.equals(y) {
                    if a.kind == ColKind::Instance || b.kind == ColKind::Instance {
                        fails.push(Failure::Instance { pair: i });
                    } else {
                        fails.push(Failure::Permutation { pair: i });
                    }
                }
            },
            _ => {},
        }
        i = i + 1;
    }
    fails
}

/// Whether the assignment satisfies the constraint system: the verdict
/// of [`verify`], as one boolean.
pub fn is_satisfied(lay: &Layouter, instances: &Vec<Vec<Fp>>) -> (r: bool)
    requires
        lay.wf(),
        instances@.len() == lay.cs.num_instance,
    ensures
        r == satisfied(*lay, inst_view(*instances)),
{
    let fails = verify(lay, instances);
    fails.len() == 0
}

/// Under a satisfying assignment every gate polynomial vanishes at every
/// row — in particular at every row where its governing selector
/// is enabled.
pub proof fn lemma_satisfied_gates_vanish(
    lay: Layouter,
    inst: Seq<Seq<Fp>>,
    g: int,
    p: int,
    r: int,
)
    requires
        satisfied(lay, inst),
        0 <= g < lay.cs.gates@.len(),
        0 <= p < lay.cs.gates@[g].polys@.len(),
        0 <= r < lay.n_rows,
    ensures
        eval_expr(lay.cs.gates@[g].polys@[p], lay, inst, r) == 0,
{
}

/// Under a satisfying assignment the two sides of every recorded copy
/// constraint hold equal known values.
pub proof fn lemma_satisfied_copies_agree(lay: Layouter, inst: Seq<Seq<Fp>>, i: int)
    requires
        satisfied(lay, inst),
        0 <= i < lay.copies@.len(),
        cell_value(lay, inst, lay.copies@[i].0) is Known,
        cell_value(lay, inst, lay.copies@[i].1) is Known,
    ensures
        cell_value(lay, inst, lay.copies@[i].0).val_or_zero() == cell_value(
            lay,
            inst,
            lay.copies@[i].1,
        ).val_or_zero(),
{
}

/// A non-zero gate polynomial at any row — in particular at a row where
/// its selector is enabled — refutes satisfaction, so [`verify`]
/// reports at least one failure for it.
pub proof fn lemma_violation_detected(lay: Layouter, inst: Seq<Seq<Fp>>, g: int, p: int, r: int)
    requires
        0 <= g < lay.cs.gates@.len(),
        0 <= p < lay.cs.gates@[g].polys@.len(),
        0 <= r < lay.n_rows,
        eval_expr(lay.cs.gates@[g].polys@[p], lay, inst, r) != 0,
    ensures
        !satisfied(lay, inst),
{
}

} // verus!
