//! The region assigner and the simple floor planner.
//!
//! During synthesis a circuit opens named regions and fills cells at
//! region-relative offsets.  A region body is a [`RegionPlan`]: the list
//! of writes, copy constraints and selector enables it performs, all at
//! offsets `0..h-1` for the region height `h` that those offsets imply.
//! Because a plan is plain data, its shape cannot depend on witness
//! values, which is exactly the contract a single-pass floor planner
//! needs.
//!
//! The planner packs regions in synthesis order: each region is placed at
//! the smallest base row at which every column it touches is still free,
//! where a column's occupied rows form a prefix.  A placement that would
//! exceed the usable row budget `2^k` minus the blinding reserve is
//! rejected.

use vstd::prelude::*;
use crate::cs::{ColKind, Column, ConstraintSystem, Error, SelectorId};
use crate::field::FValue;

verus! {

/// Rows at the bottom of the grid reserved for blinding and permutation
/// bookkeeping; user regions may not be placed there.
pub const BLINDING_ROWS: usize = 3;

/// The largest supported circuit size parameter `k`.
pub const MAX_K: usize = 20;

/// The largest supported number of columns of one kind, and of selectors.
pub const MAX_COLS: usize = 256;

/// An absolute grid position: a column (kind and index) plus a row.
#[derive(Clone, Copy, PartialEq, Eq, Structural, Debug)]
pub struct Cell {
    pub kind: ColKind,
    pub index: usize,
    pub row: usize,
}

/// A handle to an already-written cell, carrying its value.  It is the
/// only token accepted as an argument to copy constraints.
#[derive(Clone, Copy, PartialEq, Eq, Structural, Debug)]
pub struct AssignedCell {
    pub cell: Cell,
    pub value: FValue,
}

/// One write performed inside a region, at a region-relative offset.
#[derive(Clone, Copy, PartialEq, Eq, Structural, Debug)]
pub enum WriteOp {
    /// Write a witness value into an advice cell.
    Advice { col: Column, offset: usize, value: FValue },
    /// Write a constant into a fixed cell.
    Fixed { col: Column, offset: usize, value: FValue },
    /// Write the source cell's value into an advice cell and record a
    /// copy constraint between the two.
    CopyAdvice { src: AssignedCell, col: Column, offset: usize },
}

/// A region body: everything one `assign_region` invocation performs.
pub struct RegionPlan {
    /// A human-readable annotation; not interpreted.
    pub name: String,
    /// The cell writes, in order.  Each yields an [`AssignedCell`].
    pub writes: Vec<WriteOp>,
    /// Copy constraints between previously assigned cells, recorded
    /// without writing.
    pub eq_pairs: Vec<(AssignedCell, AssignedCell)>,
    /// Selector enables at region-relative offsets.
    pub enables: Vec<(SelectorId, usize)>,
}

/// The column a write targets.
pub open spec fn write_col(w: WriteOp) -> Column {
    match w {
        WriteOp::Advice { col, .. } => col,
        WriteOp::Fixed { col, .. } => col,
        WriteOp::CopyAdvice { col, .. } => col,
    }
}

/// The region-relative offset a write targets.
pub open spec fn write_offset(w: WriteOp) -> int {
    match w {
        WriteOp::Advice { offset, .. } => offset as int,
        WriteOp::Fixed { offset, .. } => offset as int,
        WriteOp::CopyAdvice { offset, .. } => offset as int,
    }
}

/// The value a write stores: for a copy, the source cell's value.
pub open spec fn write_value(w: WriteOp) -> FValue {
    match w {
        WriteOp::Advice { value, .. } => value,
        WriteOp::Fixed { value, .. } => value,
        WriteOp::CopyAdvice { src, .. } => src.value,
    }
}

/// The absolute cell a write resolves to once the region's base row is
/// chosen.
pub open spec fn write_cell(w: WriteOp, base: int) -> Cell {
    Cell {
        kind: write_col(w).kind,
        index: write_col(w).index,
        row: (base + write_offset(w)) as usize,
    }
}

/// Whether a cell may participate in copy constraints: its column must
/// exist and be equality-enabled.  Fixed columns never are.
pub open spec fn cell_eq_enabled(cs: ConstraintSystem, c: Cell) -> bool {
    match c.kind {
        ColKind::Advice => c.index < cs.eq_advice@.len() && cs.eq_advice@[c.index as int],
        ColKind::Instance => c.index < cs.eq_instance@.len() && cs.eq_instance@[c.index as int],
        ColKind::Fixed => false,
    }
}

/// Whether one write is admissible under the constraint system: the
/// column kind matches the write kind, the column exists, and a copy
/// touches only equality-enabled columns.
pub open spec fn write_ok(cs: ConstraintSystem, w: WriteOp) -> bool {
    match w {
        WriteOp::Advice { col, .. } => col.kind == ColKind::Advice && col.index
            < cs.spec_num_advice(),
        WriteOp::Fixed { col, .. } => col.kind == ColKind::Fixed && col.index < cs.num_fixed,
        WriteOp::CopyAdvice { src, col, .. } => col.kind == ColKind::Advice && col.index
            < cs.spec_num_advice() && cs.eq_advice@[col.index as int] && cell_eq_enabled(
            cs,
            src.cell,
        ),
    }
}

/// Whether every write, copy pair and selector enable of the plan is
/// admissible.
pub open spec fn plan_ok(cs: ConstraintSystem, plan: RegionPlan) -> bool {
    &&& forall|i: int| 0 <= i < plan.writes@.len() ==> write_ok(cs, #[trigger] plan.writes@[i])
    &&& forall|i: int|
        0 <= i < plan.eq_pairs@.len() ==> cell_eq_enabled(cs, (#[trigger] plan.eq_pairs@[i]).0.cell)
            && cell_eq_enabled(cs, plan.eq_pairs@[i].1.cell)
    &&& forall|i: int|
        0 <= i < plan.enables@.len() ==> (#[trigger] plan.enables@[i]).0.index < cs.num_selectors
}

/// The height the writes imply: one past the largest offset touched.
pub open spec fn writes_height(ws: Seq<WriteOp>) -> int
    decreases ws.len(),
{
    if ws.len() == 0 {
        0
    } else {
        let rest = writes_height(ws.drop_last());
        let h = write_offset(ws.last()) + 1;
        if h >= rest {
            h
        } else {
            rest
        }
    }
}

/// The height the selector enables imply.
pub open spec fn enables_height(es: Seq<(SelectorId, usize)>) -> int
    decreases es.len(),
{
    if es.len() == 0 {
        0
    } else {
        let rest = enables_height(es.drop_last());
        let h = es.last().1 + 1;
        if h >= rest {
            h
        } else {
            rest
        }
    }
}

/// The region's height: one past the largest offset any operation
/// touched, or zero for an empty region.
pub open spec fn plan_height(plan: RegionPlan) -> int {
    if writes_height(plan.writes@) >= enables_height(plan.enables@) {
        writes_height(plan.writes@)
    } else {
        enables_height(plan.enables@)
    }
}

/// The smallest base row free in every column the writes touch, given
/// the per-column occupied prefixes.
pub open spec fn writes_base(ha: Seq<usize>, hf: Seq<usize>, ws: Seq<WriteOp>) -> int
    decreases ws.len(),
{
    if ws.len() == 0 {
        0
    } else {
        let rest = writes_base(ha, hf, ws.drop_last());
        let col = write_col(ws.last());
        let h = match col.kind {
            ColKind::Advice => ha[col.index as int] as int,
            ColKind::Fixed => hf[col.index as int] as int,
            ColKind::Instance => 0,
        };
        if h >= rest {
            h
        } else {
            rest
        }
    }
}

/// The smallest base row free in every selector column the enables touch.
pub open spec fn enables_base(hs: Seq<usize>, es: Seq<(SelectorId, usize)>) -> int
    decreases es.len(),
{
    if es.len() == 0 {
        0
    } else {
        let rest = enables_base(hs, es.drop_last());
        let h = hs[es.last().0.index as int] as int;
        if h >= rest {
            h
        } else {
            rest
        }
    }
}

/// Whether the writes touch the column of the given kind and index.
pub open spec fn touches_write(ws: Seq<WriteOp>, kind: ColKind, c: int) -> bool {
    exists|i: int|
        0 <= i < ws.len() && write_col(#[trigger] ws[i]).kind == kind && write_col(ws[i]).index
            == c
}

/// Whether the enables touch the given selector.
pub open spec fn touches_enable(es: Seq<(SelectorId, usize)>, s: int) -> bool {
    exists|i: int| 0 <= i < es.len() && (#[trigger] es[i]).0.index == s
}

/// One flat grid of cells per column kind: the cell `(c, r)` lives at
/// index `c * n_rows + r`.
pub open spec fn flat(c: int, r: int, n: int) -> int {
    c * n + r
}

/// The grid after one write lands at its flat position.
pub open spec fn grid_write(g: Seq<FValue>, c: int, r: int, n: int, v: FValue) -> Seq<FValue> {
    g.update(flat(c, r, n), v)
}

/// The grid of the given kind after all the writes of a region, placed
/// at the given base row, have landed in order.
pub open spec fn apply_writes(
    g: Seq<FValue>,
    ws: Seq<WriteOp>,
    base: int,
    n: int,
    kind: ColKind,
) -> Seq<FValue>
    decreases ws.len(),
{
    if ws.len() == 0 {
        g
    } else {
        apply_write1(apply_writes(g, ws.drop_last(), base, n, kind), ws.last(), base, n, kind)
    }
}

/// The copy constraints the writes record: one pair per copy write, from
/// the source cell to the destination cell, in write order.
pub open spec fn write_pairs(ws: Seq<WriteOp>, base: int) -> Seq<(Cell, Cell)>
    decreases ws.len(),
{
    if ws.len() == 0 {
        Seq::empty()
    } else {
        write_pairs(ws.drop_last(), base) + write_pair1(ws.last(), base)
    }
}

/// The cells of the explicit equality pairs.
pub open spec fn pair_cells(ps: Seq<(AssignedCell, AssignedCell)>) -> Seq<(Cell, Cell)> {
    ps.map(|i: int, p: (AssignedCell, AssignedCell)| (p.0.cell, p.1.cell))
}

/// The selector table after the enables of a region have landed.
pub open spec fn apply_enables(
    sels: Seq<bool>,
    es: Seq<(SelectorId, usize)>,
    base: int,
    n: int,
) -> Seq<bool>
    decreases es.len(),
{
    if es.len() == 0 {
        sels
    } else {
        let s1 = apply_enables(sels, es.drop_last(), base, n);
        s1.update(flat(es.last().0.index as int, base + es.last().1, n), true)
    }
}

/// The assigned-cell handles a region hands back, one per write.
pub open spec fn assigned_cells(ws: Seq<WriteOp>, base: int) -> Seq<AssignedCell> {
    ws.map(|i: int, w: WriteOp| AssignedCell { cell: write_cell(w, base), value: write_value(w) })
}

/// Every write offset lies below the writes' height.
pub proof fn lemma_writes_height_ge(ws: Seq<WriteOp>, i: int)
    requires
        0 <= i < ws.len(),
    ensures
        write_offset(ws[i]) < writes_height(ws),
    decreases ws.len(),
{
    if i == ws.len() - 1 {
    } else {
        lemma_writes_height_ge(ws.drop_last(), i);
    }
}

/// Every enable offset lies below the enables' height.
pub proof fn lemma_enables_height_ge(es: Seq<(SelectorId, usize)>, i: int)
    requires
        0 <= i < es.len(),
    ensures
        es[i].1 < enables_height(es),
    decreases es.len(),
{
    if i == es.len() - 1 {
    } else {
        lemma_enables_height_ge(es.drop_last(), i);
    }
}

/// The base clears the occupied prefix of every advice or fixed column
/// the writes touch.
pub proof fn lemma_writes_base_ge(ha: Seq<usize>, hf: Seq<usize>, ws: Seq<WriteOp>, i: int)
    requires
        0 <= i < ws.len(),
    ensures
        write_col(ws[i]).kind == ColKind::Advice ==> ha[write_col(ws[i]).index as int] as int
            <= writes_base(ha, hf, ws),
        write_col(ws[i]).kind == ColKind::Fixed ==> hf[write_col(ws[i]).index as int] as int
            <= writes_base(ha, hf, ws),
    decreases ws.len(),
{
    if i == ws.len() - 1 {
    } else {
        lemma_writes_base_ge(ha, hf, ws.drop_last(), i);
    }
}

/// The base clears the occupied prefix of every selector the enables
/// touch.
pub proof fn lemma_enables_base_ge(hs: Seq<usize>, es: Seq<(SelectorId, usize)>, i: int)
    requires
        0 <= i < es.len(),
    ensures
        hs[es[i].0.index as int] as int <= enables_base(hs, es),
    decreases es.len(),
{
    if i == es.len() - 1 {
    } else {
        lemma_enables_base_ge(hs, es.drop_last(), i);
    }
}

/// A flat index is in range when its column and row are.
pub proof fn lemma_flat_bound(c: int, r: int, ncols: int, n: int)
    by (nonlinear_arith)
    requires
        0 <= c < ncols,
        0 <= r < n,
    ensures
        0 <= c * n + r < ncols * n,
{
}

/// A flat index over a bounded grid stays well below the machine limit.
pub proof fn lemma_flat_small(c: int, r: int, n: int)
    by (nonlinear_arith)
    requires
        0 <= c < 256,
        0 <= r,
        r < n,
        n <= 0x100000,
    ensures
        0 <= c * n + r < 0x20000000,
{
}

/// Distinct cells have distinct flat indices.
pub proof fn lemma_flat_inj(c1: int, r1: int, c2: int, r2: int, n: int)
    by (nonlinear_arith)
    requires
        0 <= r1 < n,
        0 <= r2 < n,
        0 <= c1,
        0 <= c2,
    ensures
        (c1 * n + r1 == c2 * n + r2) <==> (c1 == c2 && r1 == r2),
{
}

/// The row count for a size parameter: `2^k`.
pub open spec fn rows_of(k: usize) -> int {
    (1u64 << (k as u64)) as int
}

/// The synthesis state: the frozen constraint system, the grids being
/// filled, the recorded copy constraints, and the planner's per-column
/// occupancy.
///
/// Grids are flat: the cell `(c, r)` of a kind lives at `c * n_rows + r`
/// in that kind's vector.  Cells never written read as `Unknown`, which
/// the verifier treats as the default zero.
pub struct Layouter {
    pub cs: ConstraintSystem,
    pub k: usize,
    pub n_rows: usize,
    pub usable_rows: usize,
    pub advice: Vec<FValue>,
    pub fixed: Vec<FValue>,
    pub selectors: Vec<bool>,
    pub copies: Vec<(Cell, Cell)>,
    pub heights_advice: Vec<usize>,
    pub heights_fixed: Vec<usize>,
    pub heights_selector: Vec<usize>,
}

impl Layouter {
    /// The structural invariant of a synthesis in progress.
    pub open spec fn wf(self) -> bool {
        &&& self.cs.wf()
        &&& 1 <= self.n_rows <= 0x100000
        &&& self.usable_rows <= self.n_rows
        &&& self.cs.spec_num_advice() <= MAX_COLS as int
        &&& self.cs.num_fixed <= MAX_COLS
        &&& self.cs.num_instance <= MAX_COLS
        &&& self.cs.num_selectors <= MAX_COLS
        &&& self.advice@.len() == self.cs.spec_num_advice() * self.n_rows
        &&& self.fixed@.len() == self.cs.num_fixed * self.n_rows
        &&& self.selectors@.len() == self.cs.num_selectors * self.n_rows
        &&& self.heights_advice@.len() == self.cs.spec_num_advice()
        &&& self.heights_fixed@.len() == self.cs.num_fixed
        &&& self.heights_selector@.len() == self.cs.num_selectors
        &&& forall|c: int|
            0 <= c < self.heights_advice@.len() ==> #[trigger] self.heights_advice@[c]
                <= self.usable_rows
        &&& forall|c: int|
            0 <= c < self.heights_fixed@.len() ==> #[trigger] self.heights_fixed@[c]
                <= self.usable_rows
        &&& forall|c: int|
            0 <= c < self.heights_selector@.len() ==> #[trigger] self.heights_selector@[c]
                <= self.usable_rows
    }

    /// The base row the planner chooses for a plan in this state: the
    /// smallest row free in every column the plan touches.
    pub open spec fn base_for(self, plan: RegionPlan) -> int {
        let wb = writes_base(self.heights_advice@, self.heights_fixed@, plan.writes@);
        let eb = enables_base(self.heights_selector@, plan.enables@);
        if wb >= eb {
            wb
        } else {
            eb
        }
    }

    /// Whether a plan's placement fits the usable row budget.
    pub open spec fn fits(self, plan: RegionPlan) -> bool {
        self.base_for(plan) + plan_height(plan) <= self.usable_rows as int
    }

    /// A fresh synthesis state over a frozen constraint system, with a
    /// grid of `2^k` rows, all cells unassigned and all selectors off.
    pub fn new(cs: ConstraintSystem, k: usize) -> (r: Layouter)
        requires
            cs.wf(),
            k <= MAX_K,
            cs.spec_num_advice() <= MAX_COLS as int,
            cs.num_fixed <= MAX_COLS,
            cs.num_instance <= MAX_COLS,
            cs.num_selectors <= MAX_COLS,
        ensures
            r.wf(),
            r.cs == cs,
            r.k == k,
            r.n_rows as int == rows_of(k),
            r.usable_rows == (if r.n_rows > BLINDING_ROWS {
                r.n_rows - BLINDING_ROWS
            } else {
                0
            }),
            r.advice@ == Seq::new(r.advice@.len(), |i: int| FValue::Unknown),
            r.fixed@ == Seq::new(r.fixed@.len(), |i: int| FValue::Unknown),
            r.selectors@ == Seq::new(r.selectors@.len(), |i: int| false),
            r.copies@.len() == 0,
            r.heights_advice@ == Seq::new(cs.spec_num_advice() as nat, |i: int| 0usize),
            r.heights_fixed@ == Seq::new(cs.num_fixed as nat, |i: int| 0usize),
            r.heights_selector@ == Seq::new(cs.num_selectors as nat, |i: int| 0usize),
    {
        proof {
            let kk = k as u64;
            assert(kk <= 20 ==> 1u64 << kk >= 1 && 1u64 << kk <= 0x100000) by (bit_vector);
        }
        let n64: u64 = 1u64 << (k as u64);
        let n_rows: usize = n64 as usize;
        let usable_rows: usize = if n_rows > BLINDING_ROWS {
            n_rows - BLINDING_ROWS
        } else {
            0
        };
        let num_advice = cs.eq_advice.len();
        let advice = unknown_grid(num_advice, n_rows);
        let fixed = unknown_grid(cs.num_fixed, n_rows);
        let selectors = false_grid(cs.num_selectors, n_rows);
        let heights_advice = zero_heights(num_advice);
        let heights_fixed = zero_heights(cs.num_fixed);
        let heights_selector = zero_heights(cs.num_selectors);
        Layouter {
            cs,
            k,
            n_rows,
            usable_rows,
            advice,
            fixed,
            selectors,
            copies: Vec::new(),
            heights_advice,
            heights_fixed,
            heights_selector,
        }
    }

    /// The value of an advice cell, for callers inspecting a finished
    /// synthesis.
    pub fn advice_at(&self, c: usize, r: usize) -> (v: FValue)
        requires
            self.wf(),
            c < self.cs.spec_num_advice(),
            r < self.n_rows,
        ensures
            v == self.advice@[flat(c as int, r as int, self.n_rows as int)],
    {
        proof {
            lemma_flat_bound(c as int, r as int, self.cs.spec_num_advice(), self.n_rows as int);
            lemma_flat_small(c as int, r as int, self.n_rows as int);
        }
        self.advice[c * self.n_rows + r]
    }

    /// The value of a fixed cell.
    pub fn fixed_at(&self, c: usize, r: usize) -> (v: FValue)
        requires
            self.wf(),
            c < self.cs.num_fixed,
            r < self.n_rows,
        ensures
            v == self.fixed@[flat(c as int, r as int, self.n_rows as int)],
    {
        proof {
            lemma_flat_bound(c as int, r as int, self.cs.num_fixed as int, self.n_rows as int);
            lemma_flat_small(c as int, r as int, self.n_rows as int);
        }
        self.fixed[c * self.n_rows + r]
    }

    /// Whether a selector is enabled at a row.
    pub fn selector_at(&self, s: usize, r: usize) -> (v: bool)
        requires
            self.wf(),
            s < self.cs.num_selectors,
            r < self.n_rows,
        ensures
            v == self.selectors@[flat(s as int, r as int, self.n_rows as int)],
    {
        proof {
            lemma_flat_bound(s as int, r as int, self.cs.num_selectors as int, self.n_rows as int);
            lemma_flat_small(s as int, r as int, self.n_rows as int);
        }
        self.selectors[s * self.n_rows + r]
    }
}

/// A flat grid of `ncols * n` unassigned cells.
fn unknown_grid(ncols: usize, n: usize) -> (r: Vec<FValue>)
    requires
        ncols <= MAX_COLS,
        n <= 0x100000,
    ensures
        r@.len() == ncols * n,
        r@ == Seq::new(r@.len(), |i: int| FValue::Unknown),
{
    proof {
        assert(ncols * n <= 256 * 0x100000) by (nonlinear_arith)
            requires
                ncols <= 256,
                n <= 0x100000;
        assert(ncols * n >= 0) by (nonlinear_arith)
            requires
                ncols >= 0,
                n >= 0;
    }
    let total: usize = ncols * n;
    let mut v: Vec<FValue> = Vec::new();
    let mut i: usize = 0;
    while i < total
        invariant
            i <= total,
            v@.len() == i,
            forall|j: int| 0 <= j < i ==> v@[j] == FValue::Unknown,
        decreases total - i,
    {
        v.push(FValue::Unknown);
        i = i + 1;
    }
    proof {
        assert(v@ =~= Seq::new(v@.len(), |i: int| FValue::Unknown));
    }
    v
}

/// A flat selector table of `ncols * n` disabled rows.
fn false_grid(ncols: usize, n: usize) -> (r: Vec<bool>)
    requires
        ncols <= MAX_COLS,
        n <= 0x100000,
    ensures
        r@.len() == ncols * n,
        r@ == Seq::new(r@.len(), |i: int| false),
{
    proof {
        assert(ncols * n <= 256 * 0x100000) by (nonlinear_arith)
            requires
                ncols <= 256,
                n <= 0x100000;
        assert(ncols * n >= 0) by (nonlinear_arith)
            requires
                ncols >= 0,
                n >= 0;
    }
    let total: usize = ncols * n;
    let mut v: Vec<bool> = Vec::new();
    let mut i: usize = 0;
    while i < total
        invariant
            i <= total,
            v@.len() == i,
            forall|j: int| 0 <= j < i ==> v@[j] == false,
        decreases total - i,
    {
        v.push(false);
        i = i + 1;
    }
    proof {
        assert(v@ =~= Seq::new(v@.len(), |i: int| false));
    }
    v
}

/// A vector of `ncols` zero column heights.
fn zero_heights(ncols: usize) -> (r: Vec<usize>)
    ensures
        r@ == Seq::new(ncols as nat, |i: int| 0usize),
{
    let mut v: Vec<usize> = Vec::new();
    let mut i: usize = 0;
    while i < ncols
        invariant
            i <= ncols,
            v@.len() == i,
            forall|j: int| 0 <= j < i ==> v@[j] == 0usize,
        decreases ncols - i,
    {
        v.push(0);
        i = i + 1;
    }
    proof {
        assert(v@ =~= Seq::new(ncols as nat, |i: int| 0usize));
    }
    v
}

/// Whether a cell may take part in copy constraints under this system.
pub fn check_eq_enabled(cs: &ConstraintSystem, c: Cell) -> (r: bool)
    ensures
        r == cell_eq_enabled(*cs, c),
{
    match c.kind {
        ColKind::Advice => c.index < cs.eq_advice.len() && cs.eq_advice[c.index],
        ColKind::Instance => c.index < cs.eq_instance.len() && cs.eq_instance[c.index],
        ColKind::Fixed => false,
    }
}

/// Whether one write is admissible under this system.
fn check_write(cs: &ConstraintSystem, w: &WriteOp) -> (r: bool)
    ensures
        r == write_ok(*cs, *w),
{
    match *w {
        WriteOp::Advice { col, .. } => col.kind == ColKind::Advice && col.index
            < cs.eq_advice.len(),
        WriteOp::Fixed { col, .. } => col.kind == ColKind::Fixed && col.index < cs.num_fixed,
        WriteOp::CopyAdvice { src, col, .. } => col.kind == ColKind::Advice && col.index
            < cs.eq_advice.len() && cs.eq_advice[col.index] && check_eq_enabled(cs, src.cell),
    }
}

/// The larger of two spec integers.
pub open spec fn imax(a: int, b: int) -> int {
    if a >= b {
        a
    } else {
        b
    }
}

/// Heights are never negative.
pub proof fn lemma_writes_height_nonneg(ws: Seq<WriteOp>)
    ensures
        writes_height(ws) >= 0,
    decreases ws.len(),
{
    if ws.len() > 0 {
        lemma_writes_height_nonneg(ws.drop_last());
    }
}

/// Enable heights are never negative.
pub proof fn lemma_enables_height_nonneg(es: Seq<(SelectorId, usize)>)
    ensures
        enables_height(es) >= 0,
    decreases es.len(),
{
    if es.len() > 0 {
        lemma_enables_height_nonneg(es.drop_last());
    }
}

/// Bases are never negative.
pub proof fn lemma_writes_base_nonneg(ha: Seq<usize>, hf: Seq<usize>, ws: Seq<WriteOp>)
    ensures
        writes_base(ha, hf, ws) >= 0,
    decreases ws.len(),
{
    if ws.len() > 0 {
        lemma_writes_base_nonneg(ha, hf, ws.drop_last());
    }
}

/// Enable bases are never negative.
pub proof fn lemma_enables_base_nonneg(hs: Seq<usize>, es: Seq<(SelectorId, usize)>)
    ensures
        enables_base(hs, es) >= 0,
    decreases es.len(),
{
    if es.len() > 0 {
        lemma_enables_base_nonneg(hs, es.drop_last());
    }
}

/// The region-relative offset of a write.
fn offset_of(w: &WriteOp) -> (r: usize)
    ensures
        r as int == write_offset(*w),
{
    match *w {
        WriteOp::Advice { offset, .. } => offset,
        WriteOp::Fixed { offset, .. } => offset,
        WriteOp::CopyAdvice { offset, .. } => offset,
    }
}

impl Layouter {
    /// Places one region on the grid and applies its operations.
    ///
    /// Validation comes first: every write, equality pair and selector
    /// enable must be admissible under the constraint system, or the
    /// region is rejected as an assignment error with the state
    /// untouched.  The planner then picks the base row — the smallest
    /// row free in every touched column — and rejects, as a bounds
    /// error, a placement that would overrun the usable rows.  On
    /// success the grids, the copy constraints and the per-column
    /// occupancy advance exactly as the plan describes, and the
    /// returned handles name the written cells in write order.
    #[verifier::rlimit(100)]
    #[verifier::loop_isolation(false)]
    pub fn assign_region(&mut self, plan: &RegionPlan) -> (r: Result<Vec<AssignedCell>, Error>)
        requires
            old(self).wf(),
        ensures
            final(self).wf(),
            final(self).cs == old(self).cs,
            final(self).k == old(self).k,
            final(self).n_rows == old(self).n_rows,
            final(self).usable_rows == old(self).usable_rows,
            r is Ok <==> plan_ok(old(self).cs, *plan) && old(self).fits(*plan),
            r == Result::<Vec<AssignedCell>, Error>::Err(Error::Assignment) <==> !plan_ok(
                old(self).cs,
                *plan,
            ),
            r == Result::<Vec<AssignedCell>, Error>::Err(Error::Bounds) <==> plan_ok(
                old(self).cs,
                *plan,
            ) && !old(self).fits(*plan),
            r is Err ==> *final(self) == *old(self),
            r matches Ok(cells) ==> ({
                let base = old(self).base_for(*plan);
                let n = old(self).n_rows as int;
                let h = plan_height(*plan);
                &&& final(self).advice@ == apply_writes(
                    old(self).advice@,
                    plan.writes@,
                    base,
                    n,
                    ColKind::Advice,
                )
                &&& final(self).fixed@ == apply_writes(
                    old(self).fixed@,
                    plan.writes@,
                    base,
                    n,
                    ColKind::Fixed,
                )
                &&& final(self).selectors@ == apply_enables(
                    old(self).selectors@,
                    plan.enables@,
                    base,
                    n,
                )
                &&& final(self).copies@ == old(self).copies@ + write_pairs(plan.writes@, base)
                    + pair_cells(plan.eq_pairs@)
                &&& cells@ == assigned_cells(plan.writes@, base)
                &&& forall|c: int|
                    0 <= c < old(self).heights_advice@.len()
                        ==> #[trigger] final(self).heights_advice@[c] == (if touches_write(
                        plan.writes@,
                        ColKind::Advice,
                        c,
                    ) {
                        (base + h) as usize
                    } else {
                        old(self).heights_advice@[c]
                    })
                &&& forall|c: int|
                    0 <= c < old(self).heights_fixed@.len()
                        ==> #[trigger] final(self).heights_fixed@[c] == (if touches_write(
                        plan.writes@,
                        ColKind::Fixed,
                        c,
                    ) {
                        (base + h) as usize
                    } else {
                        old(self).heights_fixed@[c]
                    })
                &&& forall|s: int|
                    0 <= s < old(self).heights_selector@.len()
                        ==> #[trigger] final(self).heights_selector@[s] == (if touches_enable(
                        plan.enables@,
                        s,
                    ) {
                        (base + h) as usize
                    } else {
                        old(self).heights_selector@[s]
                    })
            }),
    {
        // Validate every operation against the constraint system.
        let mut va: bool = true;
        let mut i: usize = 0;
        while i < plan.writes.len()
            invariant
                i <= plan.writes@.len(),
                *self == *old(self),
                old(self).wf(),
                va == (forall|j: int|
                    0 <= j < i ==> write_ok(old(self).cs, #[trigger] plan.writes@[j])),
            decreases plan.writes@.len() - i,
        {
            let ok_here = check_write(&self.cs, &plan.writes[i]);
            va = va && ok_here;
            i = i + 1;
        }
        let mut vp: bool = true;
        let mut j: usize = 0;
        while j < plan.eq_pairs.len()
            invariant
                j <= plan.eq_pairs@.len(),
                *self == *old(self),
                old(self).wf(),
                vp == (forall|t: int|
                    0 <= t < j ==> cell_eq_enabled(old(self).cs, (#[trigger] plan.eq_pairs@[t]).0.cell)
                        && cell_eq_enabled(old(self).cs, plan.eq_pairs@[t].1.cell)),
            decreases plan.eq_pairs@.len() - j,
        {
            let a_ok = check_eq_enabled(&self.cs, plan.eq_pairs[j].0.cell);
            let b_ok = check_eq_enabled(&self.cs, plan.eq_pairs[j].1.cell);
            vp = vp && a_ok && b_ok;
            j = j + 1;
        }
        let mut ve: bool = true;
        let mut l: usize = 0;
        while l < plan.enables.len()
            invariant
                l <= plan.enables@.len(),
                *self == *old(self),
                old(self).wf(),
                ve == (forall|t: int|
                    0 <= t < l ==> (#[trigger] plan.enables@[t]).0.index
                        < old(self).cs.num_selectors),
            decreases plan.enables@.len() - l,
        {
            let s_ok = plan.enables[l].0.index < self.cs.num_selectors;
            ve = ve && s_ok;
            l = l + 1;
        }
        if !(va && vp && ve) {
            return Err(Error::Assignment);
        }
        assert(plan_ok(old(self).cs, *plan));

        // The region's height: one past the largest offset touched.
        let mut any: bool = false;
        let mut max_off: usize = 0;
        i = 0;
        while i < plan.writes.len()
            invariant
                i <= plan.writes@.len(),
                *self == *old(self),
                old(self).wf(),
                plan_ok(old(self).cs, *plan),
                (if any {
                    max_off as int + 1
                } else {
                    0
                }) == writes_height(plan.writes@.take(i as int)),
            decreases plan.writes@.len() - i,
        {
            let off = offset_of(&plan.writes[i]);
            proof {
                assert(plan.writes@.take(i + 1).drop_last() =~= plan.writes@.take(i as int));
                assert(plan.writes@.take(i + 1).last() == plan.writes@[i as int]);
            }
            if !any || off > max_off {
                max_off = off;
            }
            any = true;
            i = i + 1;
        }
        proof {
            assert(plan.writes@.take(plan.writes@.len() as int) =~= plan.writes@);
        }
        l = 0;
        while l < plan.enables.len()
            invariant
                l <= plan.enables@.len(),
                *self == *old(self),
                old(self).wf(),
                plan_ok(old(self).cs, *plan),
                (if any {
                    max_off as int + 1
                } else {
                    0
                }) == imax(
                    writes_height(plan.writes@),
                    enables_height(plan.enables@.take(l as int)),
                ),
            decreases plan.enables@.len() - l,
        {
            let off = plan.enables[l].1;
            proof {
                assert(plan.enables@.take(l + 1).drop_last() =~= plan.enables@.take(l as int));
                assert(plan.enables@.take(l + 1).last() == plan.enables@[l as int]);
                lemma_writes_height_nonneg(plan.writes@);
            }
            if !any || off > max_off {
                max_off = off;
            }
            any = true;
            l = l + 1;
        }
        proof {
            assert(plan.enables@.take(plan.enables@.len() as int) =~= plan.enables@);
            lemma_writes_height_nonneg(plan.writes@);
            lemma_enables_height_nonneg(plan.enables@);
            assert((if any {
                max_off as int + 1
            } else {
                0
            }) == plan_height(*plan));
        }
        if any && max_off >= self.usable_rows {
            proof {
                lemma_writes_base_nonneg(self.heights_advice@, self.heights_fixed@, plan.writes@);
                lemma_enables_base_nonneg(self.heights_selector@, plan.enables@);
            }
            return Err(Error::Bounds);
        }
        let height: usize = if any {
            max_off + 1
        } else {
            0
        };
        assert(height as int == plan_height(*plan));

        // The base row: the smallest row free in every touched column.
        let mut base: usize = 0;
        i = 0;
        while i < plan.writes.len()
            invariant
                i <= plan.writes@.len(),
                *self == *old(self),
                old(self).wf(),
                plan_ok(old(self).cs, *plan),
                base as int == writes_base(
                    old(self).heights_advice@,
                    old(self).heights_fixed@,
                    plan.writes@.take(i as int),
                ),
                base <= old(self).usable_rows,
            decreases plan.writes@.len() - i,
        {
            let w = plan.writes[i];
            proof {
                assert(plan.writes@.take(i + 1).drop_last() =~= plan.writes@.take(i as int));
                assert(plan.writes@.take(i + 1).last() == plan.writes@[i as int]);
                assert(write_ok(old(self).cs, plan.writes@[i as int]));
            }
            let hcol: usize = match w {
                WriteOp::Advice { col, .. } => self.heights_advice[col.index],
                WriteOp::CopyAdvice { col, .. } => self.heights_advice[col.index],
                WriteOp::Fixed { col, .. } => self.heights_fixed[col.index],
            };
            if hcol > base {
                base = hcol;
            }
            i = i + 1;
        }
        proof {
            assert(plan.writes@.take(plan.writes@.len() as int) =~= plan.writes@);
        }
        l = 0;
        while l < plan.enables.len()
            invariant
                l <= plan.enables@.len(),
                *self == *old(self),
                old(self).wf(),
                plan_ok(old(self).cs, *plan),
                base as int == imax(
                    writes_base(old(self).heights_advice@, old(self).heights_fixed@, plan.writes@),
                    enables_base(old(self).heights_selector@, plan.enables@.take(l as int)),
                ),
                base <= old(self).usable_rows,
            decreases plan.enables@.len() - l,
        {
            proof {
                assert(plan.enables@.take(l + 1).drop_last() =~= plan.enables@.take(l as int));
                assert(plan.enables@.take(l + 1).last() == plan.enables@[l as int]);
                lemma_writes_base_nonneg(
                    old(self).heights_advice@,
                    old(self).heights_fixed@,
                    plan.writes@,
                );
                assert((#[trigger] plan.enables@[l as int]).0.index < old(self).cs.num_selectors);
            }
            let hcol = self.heights_selector[plan.enables[l].0.index];
            if hcol > base {
                base = hcol;
            }
            l = l + 1;
        }
        proof {
            assert(plan.enables@.take(plan.enables@.len() as int) =~= plan.enables@);
            lemma_writes_base_nonneg(
                old(self).heights_advice@,
                old(self).heights_fixed@,
                plan.writes@,
            );
            lemma_enables_base_nonneg(old(self).heights_selector@, plan.enables@);
            assert(base as int == old(self).base_for(*plan));
        }
        if base + height > self.usable_rows {
            return Err(Error::Bounds);
        }
        assert(old(self).fits(*plan));

        let ghost base_i = base as int;
        let ghost n_i = old(self).n_rows as int;
        let ghost adv0 = old(self).advice@;
        let ghost fix0 = old(self).fixed@;
        let ghost sel0 = old(self).selectors@;
        let ghost cop0 = old(self).copies@;
        let ghost ha0 = old(self).heights_advice@;
        let ghost hf0 = old(self).heights_fixed@;
        let ghost hs0 = old(self).heights_selector@;

        // Apply the writes, in order.
        let mut cells: Vec<AssignedCell> = Vec::new();
        i = 0;
        while i < plan.writes.len()
            invariant
                i <= plan.writes@.len(),
                self.cs == old(self).cs,
                self.k == old(self).k,
                self.n_rows == old(self).n_rows,
                self.usable_rows == old(self).usable_rows,
                self.selectors@ == sel0,
                self.heights_advice@ == ha0,
                self.heights_fixed@ == hf0,
                self.heights_selector@ == hs0,
                old(self).wf(),
                plan_ok(old(self).cs, *plan),
                base as int == base_i,
                height as int == plan_height(*plan),
                base_i + height as int <= old(self).usable_rows as int,
                self.advice@ == apply_writes(
                    adv0,
                    plan.writes@.take(i as int),
                    base_i,
                    n_i,
                    ColKind::Advice,
                ),
                self.fixed@ == apply_writes(
                    fix0,
                    plan.writes@.take(i as int),
                    base_i,
                    n_i,
                    ColKind::Fixed,
                ),
                self.advice@.len() == adv0.len(),
                self.fixed@.len() == fix0.len(),
                self.copies@ == cop0 + write_pairs(plan.writes@.take(i as int), base_i),
                cells@ == assigned_cells(plan.writes@.take(i as int), base_i),
            decreases plan.writes@.len() - i,
        {
            proof {
                lemma_writes_height_ge(plan.writes@, i as int);
                lemma_enables_height_nonneg(plan.enables@);
                assert(write_ok(old(self).cs, plan.writes@[i as int]));
                assert(plan.writes@.take(i + 1).drop_last() =~= plan.writes@.take(i as int));
                assert(plan.writes@.take(i + 1).last() == plan.writes@[i as int]);
            }
            let w = plan.writes[i];
            proof {
                assert(base_i + write_offset(w) < old(self).usable_rows as int);
            }
            match w {
                WriteOp::Advice { col, offset, value } => {
                    let row = base + offset;
                    proof {
                        lemma_flat_bound(
                            col.index as int,
                            row as int,
                            old(self).cs.spec_num_advice(),
                            n_i,
                        );
                        lemma_flat_small(col.index as int, row as int, n_i);
                    }
                    let idx = col.index * self.n_rows + row;
                    self.advice.set(idx, value);
                    cells.push(
                        AssignedCell {
                            cell: Cell { kind: ColKind::Advice, index: col.index, row },
                            value,
                        },
                    );
                },
                WriteOp::Fixed { col, offset, value } => {
                    let row = base + offset;
                    proof {
                        lemma_flat_bound(col.index as int, row as int, old(self).cs.num_fixed as int, n_i);
                        lemma_flat_small(col.index as int, row as int, n_i);
                    }
                    let idx = col.index * self.n_rows + row;
                    self.fixed.set(idx, value);
                    cells.push(
                        AssignedCell {
                            cell: Cell { kind: ColKind::Fixed, index: col.index, row },
                            value,
                        },
                    );
                },
                WriteOp::CopyAdvice { src, col, offset } => {
                    let row = base + offset;
                    proof {
                        lemma_flat_bound(
                            col.index as int,
                            row as int,
                            old(self).cs.spec_num_advice(),
                            n_i,
                        );
                        lemma_flat_small(col.index as int, row as int, n_i);
                    }
                    let idx = col.index * self.n_rows + row;
                    self.advice.set(idx, src.value);
                    let dest = Cell { kind: ColKind::Advice, index: col.index, row };
                    self.copies.push((src.cell, dest));
                    cells.push(AssignedCell { cell: dest, value: src.value });
                },
            }
            proof {
                assert(cells@ =~= assigned_cells(plan.writes@.take(i + 1), base_i));
                assert(self.copies@ =~= cop0 + write_pairs(plan.writes@.take(i + 1), base_i));
            }
            i = i + 1;
        }
        proof {
            assert(plan.writes@.take(plan.writes@.len() as int) =~= plan.writes@);
        }

        // Record the explicit equality pairs.
        j = 0;
        while j < plan.eq_pairs.len()
            invariant
                j <= plan.eq_pairs@.len(),
                self.cs == old(self).cs,
                self.k == old(self).k,
                self.n_rows == old(self).n_rows,
                self.usable_rows == old(self).usable_rows,
                self.selectors@ == sel0,
                self.heights_advice@ == ha0,
                self.heights_fixed@ == hf0,
                self.heights_selector@ == hs0,
                self.advice@ == apply_writes(adv0, plan.writes@, base_i, n_i, ColKind::Advice),
                self.fixed@ == apply_writes(fix0, plan.writes@, base_i, n_i, ColKind::Fixed),
                self.advice@.len() == adv0.len(),
                self.fixed@.len() == fix0.len(),
                old(self).wf(),
                plan_ok(old(self).cs, *plan),
                base as int == base_i,
                height as int == plan_height(*plan),
                base_i + height as int <= old(self).usable_rows as int,
                self.copies@ == cop0 + write_pairs(plan.writes@, base_i) + pair_cells(
                    plan.eq_pairs@.take(j as int),
                ),
            decreases plan.eq_pairs@.len() - j,
        {
            let pr = plan.eq_pairs[j];
            self.copies.push((pr.0.cell, pr.1.cell));
            proof {
                assert(self.copies@ =~= cop0 + write_pairs(plan.writes@, base_i) + pair_cells(
                    plan.eq_pairs@.take(j + 1),
                ));
            }
            j = j + 1;
        }
        proof {
            assert(plan.eq_pairs@.take(plan.eq_pairs@.len() as int) =~= plan.eq_pairs@);
        }

        // Turn the selectors on.
        l = 0;
        while l < plan.enables.len()
            invariant
                l <= plan.enables@.len(),
                self.cs == old(self).cs,
                self.k == old(self).k,
                self.n_rows == old(self).n_rows,
                self.usable_rows == old(self).usable_rows,
                self.heights_advice@ == ha0,
                self.heights_fixed@ == hf0,
                self.heights_selector@ == hs0,
                self.advice@ == apply_writes(adv0, plan.writes@, base_i, n_i, ColKind::Advice),
                self.fixed@ == apply_writes(fix0, plan.writes@, base_i, n_i, ColKind::Fixed),
                self.advice@.len() == adv0.len(),
                self.fixed@.len() == fix0.len(),
                self.copies@ == cop0 + write_pairs(plan.writes@, base_i) + pair_cells(
                    plan.eq_pairs@,
                ),
                old(self).wf(),
                plan_ok(old(self).cs, *plan),
                base as int == base_i,
                height as int == plan_height(*plan),
                base_i + height as int <= old(self).usable_rows as int,
                self.selectors@ == apply_enables(sel0, plan.enables@.take(l as int), base_i, n_i),
                self.selectors@.len() == sel0.len(),
            decreases plan.enables@.len() - l,
        {
            proof {
                lemma_enables_height_ge(plan.enables@, l as int);
                lemma_writes_height_nonneg(plan.writes@);
                assert((#[trigger] plan.enables@[l as int]).0.index < old(self).cs.num_selectors);
                assert(plan.enables@.take(l + 1).drop_last() =~= plan.enables@.take(l as int));
                assert(plan.enables@.take(l + 1).last() == plan.enables@[l as int]);
            }
            let sid = plan.enables[l].0;
            let off = plan.enables[l].1;
            let row = base + off;
            proof {
                lemma_flat_bound(sid.index as int, row as int, old(self).cs.num_selectors as int, n_i);
                lemma_flat_small(sid.index as int, row as int, n_i);
            }
            let idx = sid.index * self.n_rows + row;
            self.selectors.set(idx, true);
            l = l + 1;
        }
        proof {
            assert(plan.enables@.take(plan.enables@.len() as int) =~= plan.enables@);
        }

        // Advance the occupied prefix of every touched column.
        let new_h: usize = base + height;
        i = 0;
        while i < plan.writes.len()
            invariant
                i <= plan.writes@.len(),
                self.cs == old(self).cs,
                self.k == old(self).k,
                self.n_rows == old(self).n_rows,
                self.usable_rows == old(self).usable_rows,
                self.advice@ == apply_writes(adv0, plan.writes@, base_i, n_i, ColKind::Advice),
                self.fixed@ == apply_writes(fix0, plan.writes@, base_i, n_i, ColKind::Fixed),
                self.advice@.len() == adv0.len(),
                self.fixed@.len() == fix0.len(),
                self.selectors@ == apply_enables(sel0, plan.enables@, base_i, n_i),
                self.selectors@.len() == sel0.len(),
                self.copies@ == cop0 + write_pairs(plan.writes@, base_i) + pair_cells(
                    plan.eq_pairs@,
                ),
                self.heights_selector@ == hs0,
                old(self).wf(),
                plan_ok(old(self).cs, *plan),
                new_h as int == base_i + plan_height(*plan),
                new_h <= old(self).usable_rows,
                self.heights_advice@.len() == ha0.len(),
                self.heights_fixed@.len() == hf0.len(),
                forall|c: int|
                    0 <= c < ha0.len() ==> #[trigger] self.heights_advice@[c] == (
                    if touches_write(plan.writes@.take(i as int), ColKind::Advice, c) {
                        new_h
                    } else {
                        ha0[c]
                    }),
                forall|c: int|
                    0 <= c < hf0.len() ==> #[trigger] self.heights_fixed@[c] == (
                    if touches_write(plan.writes@.take(i as int), ColKind::Fixed, c) {
                        new_h
                    } else {
                        hf0[c]
                    }),
            decreases plan.writes@.len() - i,
        {
            proof {
                assert(write_ok(old(self).cs, plan.writes@[i as int]));
                assert(plan.writes@.take(i + 1).drop_last() =~= plan.writes@.take(i as int));
                assert(plan.writes@.take(i + 1).last() == plan.writes@[i as int]);
            }
            let ghost prev_ha = self.heights_advice@;
            let ghost prev_hf = self.heights_fixed@;
            let w = plan.writes[i];
            match w {
                WriteOp::Advice { col, .. } => {
                    self.heights_advice.set(col.index, new_h);
                },
                WriteOp::CopyAdvice { col, .. } => {
                    self.heights_advice.set(col.index, new_h);
                },
                WriteOp::Fixed { col, .. } => {
                    self.heights_fixed.set(col.index, new_h);
                },
            }
            proof {
                let wcol = write_col(plan.writes@[i as int]);
                assert forall|c: int| 0 <= c < ha0.len() implies #[trigger] self.heights_advice@[c]
                    == (if touches_write(plan.writes@.take(i + 1), ColKind::Advice, c) {
                    new_h
                } else {
                    ha0[c]
                }) by {
                    if touches_write(plan.writes@.take(i + 1), ColKind::Advice, c) {
                        let t = choose|t: int|
                            0 <= t < plan.writes@.take(i + 1).len() && write_col(
                                #[trigger] plan.writes@.take(i + 1)[t],
                            ).kind == ColKind::Advice && write_col(plan.writes@.take(i + 1)[t]).index
                                == c;
                        if t < i {
                            assert(plan.writes@.take(i as int)[t] == plan.writes@.take(i + 1)[t]);
                            assert(touches_write(plan.writes@.take(i as int), ColKind::Advice, c));
                        } else {
                            assert(wcol.kind == ColKind::Advice && wcol.index as int == c);
                        }
                        if wcol.kind == ColKind::Advice && wcol.index as int == c {
                            assert(self.heights_advice@[c] == new_h);
                        } else {
                            assert(touches_write(plan.writes@.take(i as int), ColKind::Advice, c));
                            assert(self.heights_advice@[c] == prev_ha[c]);
                        }
                    } else {
                        assert(!touches_write(plan.writes@.take(i as int), ColKind::Advice, c)) by {
                            if touches_write(plan.writes@.take(i as int), ColKind::Advice, c) {
                                let t = choose|t: int|
                                    0 <= t < plan.writes@.take(i as int).len() && write_col(
                                        #[trigger] plan.writes@.take(i as int)[t],
                                    ).kind == ColKind::Advice && write_col(
                                        plan.writes@.take(i as int)[t],
                                    ).index == c;
                                assert(plan.writes@.take(i + 1)[t] == plan.writes@.take(i as int)[t]);
                                assert(touches_write(plan.writes@.take(i + 1), ColKind::Advice, c));
                            }
                        }
                        assert(!(wcol.kind == ColKind::Advice && wcol.index as int == c)) by {
                            if wcol.kind == ColKind::Advice && wcol.index as int == c {
                                assert(plan.writes@.take(i + 1)[i as int] == plan.writes@[i as int]);
                                assert(touches_write(plan.writes@.take(i + 1), ColKind::Advice, c));
                            }
                        }
                        assert(self.heights_advice@[c] == prev_ha[c]);
                    }
                }
                assert forall|c: int| 0 <= c < hf0.len() implies #[trigger] self.heights_fixed@[c]
                    == (if touches_write(plan.writes@.take(i + 1), ColKind::Fixed, c) {
                    new_h
                } else {
                    hf0[c]
                }) by {
                    if touches_write(plan.writes@.take(i + 1), ColKind::Fixed, c) {
                        let t = choose|t: int|
                            0 <= t < plan.writes@.take(i + 1).len() && write_col(
                                #[trigger] plan.writes@.take(i + 1)[t],
                            ).kind == ColKind::Fixed && write_col(plan.writes@.take(i + 1)[t]).index
                                == c;
                        if t < i {
                            assert(plan.writes@.take(i as int)[t] == plan.writes@.take(i + 1)[t]);
                            assert(touches_write(plan.writes@.take(i as int), ColKind::Fixed, c));
                        } else {
                            assert(wcol.kind == ColKind::Fixed && wcol.index as int == c);
                        }
                        if wcol.kind == ColKind::Fixed && wcol.index as int == c {
                            assert(self.heights_fixed@[c] == new_h);
                        } else {
                            assert(touches_write(plan.writes@.take(i as int), ColKind::Fixed, c));
                            assert(self.heights_fixed@[c] == prev_hf[c]);
                        }
                    } else {
                        assert(!touches_write(plan.writes@.take(i as int), ColKind::Fixed, c)) by {
                            if touches_write(plan.writes@.take(i as int), ColKind::Fixed, c) {
                                let t = choose|t: int|
                                    0 <= t < plan.writes@.take(i as int).len() && write_col(
                                        #[trigger] plan.writes@.take(i as int)[t],
                                    ).kind == ColKind::Fixed && write_col(
                                        plan.writes@.take(i as int)[t],
                                    ).index == c;
                                assert(plan.writes@.take(i + 1)[t] == plan.writes@.take(i as int)[t]);
                                assert(touches_write(plan.writes@.take(i + 1), ColKind::Fixed, c));
                            }
                        }
                        assert(!(wcol.kind == ColKind::Fixed && wcol.index as int == c)) by {
                            if wcol.kind == ColKind::Fixed && wcol.index as int == c {
                                assert(plan.writes@.take(i + 1)[i as int] == plan.writes@[i as int]);
                                assert(touches_write(plan.writes@.take(i + 1), ColKind::Fixed, c));
                            }
                        }
                        assert(self.heights_fixed@[c] == prev_hf[c]);
                    }
                }
            }
            i = i + 1;
        }
        proof {
            assert(plan.writes@.take(plan.writes@.len() as int) =~= plan.writes@);
        }
        l = 0;
        while l < plan.enables.len()
            invariant
                l <= plan.enables@.len(),
                self.cs == old(self).cs,
                self.k == old(self).k,
                self.n_rows == old(self).n_rows,
                self.usable_rows == old(self).usable_rows,
                self.advice@ == apply_writes(adv0, plan.writes@, base_i, n_i, ColKind::Advice),
                self.fixed@ == apply_writes(fix0, plan.writes@, base_i, n_i, ColKind::Fixed),
                self.advice@.len() == adv0.len(),
                self.fixed@.len() == fix0.len(),
                self.selectors@ == apply_enables(sel0, plan.enables@, base_i, n_i),
                self.selectors@.len() == sel0.len(),
                self.copies@ == cop0 + write_pairs(plan.writes@, base_i) + pair_cells(
                    plan.eq_pairs@,
                ),
                old(self).wf(),
                plan_ok(old(self).cs, *plan),
                new_h as int == base_i + plan_height(*plan),
                new_h <= old(self).usable_rows,
                self.heights_advice@.len() == ha0.len(),
                self.heights_fixed@.len() == hf0.len(),
                self.heights_selector@.len() == hs0.len(),
                forall|c: int|
                    0 <= c < ha0.len() ==> #[trigger] self.heights_advice@[c] == (
                    if touches_write(plan.writes@, ColKind::Advice, c) {
                        new_h
                    } else {
                        ha0[c]
                    }),
                forall|c: int|
                    0 <= c < hf0.len() ==> #[trigger] self.heights_fixed@[c] == (
                    if touches_write(plan.writes@, ColKind::Fixed, c) {
                        new_h
                    } else {
                        hf0[c]
                    }),
                forall|s: int|
                    0 <= s < hs0.len() ==> #[trigger] self.heights_selector@[s] == (
                    if touches_enable(plan.enables@.take(l as int), s) {
                        new_h
                    } else {
                        hs0[s]
                    }),
            decreases plan.enables@.len() - l,
        {
            proof {
                assert((#[trigger] plan.enables@[l as int]).0.index < old(self).cs.num_selectors);
                assert(plan.enables@.take(l + 1).drop_last() =~= plan.enables@.take(l as int));
                assert(plan.enables@.take(l + 1).last() == plan.enables@[l as int]);
            }
            let ghost prev_hs = self.heights_selector@;
            let sid = plan.enables[l].0;
            self.heights_selector.set(sid.index, new_h);
            proof {
                let sidx = plan.enables@[l as int].0.index as int;
                assert forall|s: int| 0 <= s < hs0.len() implies #[trigger] self.heights_selector@[s]
                    == (if touches_enable(plan.enables@.take(l + 1), s) {
                    new_h
                } else {
                    hs0[s]
                }) by {
                    if touches_enable(plan.enables@.take(l + 1), s) {
                        let t = choose|t: int|
                            0 <= t < plan.enables@.take(l + 1).len() && (#[trigger] plan.enables@.take(
                                l + 1,
                            )[t]).0.index == s;
                        if t < l {
                            assert(plan.enables@.take(l as int)[t] == plan.enables@.take(l + 1)[t]);
                            assert(touches_enable(plan.enables@.take(l as int), s));
                        } else {
                            assert(sidx == s);
                        }
                        if sidx == s {
                            assert(self.heights_selector@[s] == new_h);
                        } else {
                            assert(touches_enable(plan.enables@.take(l as int), s));
                            assert(self.heights_selector@[s] == prev_hs[s]);
                        }
                    } else {
                        assert(!touches_enable(plan.enables@.take(l as int), s)) by {
                            if touches_enable(plan.enables@.take(l as int), s) {
                                let t = choose|t: int|
                                    0 <= t < plan.enables@.take(l as int).len() && (
                                    #[trigger] plan.enables@.take(l as int)[t]).0.index == s;
                                assert(plan.enables@.take(l + 1)[t] == plan.enables@.take(l as int)[t]);
                                assert(touches_enable(plan.enables@.take(l + 1), s));
                            }
                        }
                        assert(sidx != s) by {
                            if sidx == s {
                                assert(plan.enables@.take(l + 1)[l as int] == plan.enables@[l as int]);
                                assert(touches_enable(plan.enables@.take(l + 1), s));
                            }
                        }
                        assert(self.heights_selector@[s] == prev_hs[s]);
                    }
                }
            }
            l = l + 1;
        }
        proof {
            assert(plan.enables@.take(plan.enables@.len() as int) =~= plan.enables@);
        }
        Ok(cells)
    }
}

/// The grid after one write, if it targets this kind.
pub open spec fn apply_write1(
    g: Seq<FValue>,
    w: WriteOp,
    base: int,
    n: int,
    kind: ColKind,
) -> Seq<FValue> {
    if write_col(w).kind == kind {
        grid_write(g, write_col(w).index as int, base + write_offset(w), n, write_value(w))
    } else {
        g
    }
}

/// The copy pairs one write records: one for a copy, none otherwise.
pub open spec fn write_pair1(w: WriteOp, base: int) -> Seq<(Cell, Cell)> {
    match w {
        WriteOp::CopyAdvice { src, .. } => seq![(src.cell, write_cell(w, base))],
        _ => Seq::empty(),
    }
}

/// The handle one write yields.
pub open spec fn acell(w: WriteOp, base: int) -> AssignedCell {
    AssignedCell { cell: write_cell(w, base), value: write_value(w) }
}

/// The occupied prefix of the column one write targets.
pub open spec fn col_height(ha: Seq<usize>, hf: Seq<usize>, w: WriteOp) -> int {
    match write_col(w).kind {
        ColKind::Advice => ha[write_col(w).index as int] as int,
        ColKind::Fixed => hf[write_col(w).index as int] as int,
        ColKind::Instance => 0,
    }
}

/// The folds of a three-write, one-enable, single-row region, written
/// out: the shape both example circuits use for every region.
pub proof fn lemma_row3(
    ha: Seq<usize>,
    hf: Seq<usize>,
    hs: Seq<usize>,
    g: Seq<FValue>,
    sels: Seq<bool>,
    ws: Seq<WriteOp>,
    es: Seq<(SelectorId, usize)>,
    base: int,
    n: int,
    kind: ColKind,
)
    requires
        ws.len() == 3,
        es.len() == 1,
        write_offset(ws[0]) == 0,
        write_offset(ws[1]) == 0,
        write_offset(ws[2]) == 0,
        es[0].1 == 0,
        0 <= es[0].0.index < hs.len(),
    ensures
        writes_height(ws) == 1,
        enables_height(es) == 1,
        writes_base(ha, hf, ws) == imax(
            col_height(ha, hf, ws[0]),
            imax(col_height(ha, hf, ws[1]), col_height(ha, hf, ws[2])),
        ),
        enables_base(hs, es) == hs[es[0].0.index as int] as int,
        apply_writes(g, ws, base, n, kind) == apply_write1(
            apply_write1(apply_write1(g, ws[0], base, n, kind), ws[1], base, n, kind),
            ws[2],
            base,
            n,
            kind,
        ),
        write_pairs(ws, base) == write_pair1(ws[0], base) + write_pair1(ws[1], base)
            + write_pair1(ws[2], base),
        assigned_cells(ws, base) == seq![acell(ws[0], base), acell(ws[1], base), acell(ws[2], base)],
        apply_enables(sels, es, base, n) == sels.update(
            flat(es[0].0.index as int, base, n),
            true,
        ),
        forall|kk: ColKind, c: int|
            touches_write(ws, kk, c) <==> ((write_col(ws[0]).kind == kk && write_col(ws[0]).index
                == c) || (write_col(ws[1]).kind == kk && write_col(ws[1]).index == c) || (write_col(
                ws[2],
            ).kind == kk && write_col(ws[2]).index == c)),
        forall|t: int| touches_enable(es, t) <==> t == es[0].0.index,
{
    let s2 = ws.drop_last();
    let s1 = s2.drop_last();
    let s0 = s1.drop_last();
    assert(s2.len() == 2 && s1.len() == 1 && s0.len() == 0);
    assert(s2[0] == ws[0] && s2[1] == ws[1]);
    assert(s1[0] == ws[0]);
    assert(s2.last() == ws[1]);
    assert(s1.last() == ws[0]);
    assert(ws.last() == ws[2]);
    let e0 = es.drop_last();
    assert(e0.len() == 0);
    assert(es.last() == es[0]);
    assert(writes_height(s0) == 0);
    assert(writes_height(s1) == 1);
    assert(writes_height(s2) == 1);
    assert(writes_height(ws) == 1);
    assert(enables_height(e0) == 0);
    assert(enables_height(es) == 1);
    assert(writes_base(ha, hf, s0) == 0);
    assert(writes_base(ha, hf, s1) == imax(0, col_height(ha, hf, ws[0])));
    assert(writes_base(ha, hf, s2) == imax(writes_base(ha, hf, s1), col_height(ha, hf, ws[1])));
    assert(writes_base(ha, hf, ws) == imax(writes_base(ha, hf, s2), col_height(ha, hf, ws[2])));
    assert(enables_base(hs, e0) == 0);
    assert(enables_base(hs, es) == imax(0, hs[es[0].0.index as int] as int));
    assert(apply_writes(g, s0, base, n, kind) == g);
    assert(apply_writes(g, s1, base, n, kind) == apply_write1(g, ws[0], base, n, kind));
    assert(apply_writes(g, s2, base, n, kind) == apply_write1(
        apply_write1(g, ws[0], base, n, kind),
        ws[1],
        base,
        n,
        kind,
    ));
    assert(write_pairs(s0, base) =~= Seq::empty());
    assert(write_pairs(s1, base) =~= write_pair1(ws[0], base));
    assert(write_pairs(s2, base) =~= write_pair1(ws[0], base) + write_pair1(ws[1], base));
    assert(write_pairs(ws, base) =~= write_pair1(ws[0], base) + write_pair1(ws[1], base)
        + write_pair1(ws[2], base));
    assert(assigned_cells(ws, base) =~= seq![
        acell(ws[0], base),
        acell(ws[1], base),
        acell(ws[2], base),
    ]);
    assert(apply_enables(sels, e0, base, n) == sels);
    assert(apply_enables(sels, es, base, n) == sels.update(
        flat(es[0].0.index as int, base + 0, n),
        true,
    ));
    assert forall|kk: ColKind, c: int|
        touches_write(ws, kk, c) <==> ((write_col(ws[0]).kind == kk && write_col(ws[0]).index == c)
            || (write_col(ws[1]).kind == kk && write_col(ws[1]).index == c) || (write_col(
            ws[2],
        ).kind == kk && write_col(ws[2]).index == c)) by {
        if touches_write(ws, kk, c) {
            let t = choose|t: int|
                0 <= t < ws.len() && write_col(#[trigger] ws[t]).kind == kk && write_col(
                    ws[t],
                ).index == c;
            assert(t == 0 || t == 1 || t == 2);
        }
        if write_col(ws[0]).kind == kk && write_col(ws[0]).index == c {
            assert(touches_write(ws, kk, c));
        }
        if write_col(ws[1]).kind == kk && write_col(ws[1]).index == c {
            assert(touches_write(ws, kk, c));
        }
        if write_col(ws[2]).kind == kk && write_col(ws[2]).index == c {
            assert(touches_write(ws, kk, c));
        }
    }
    assert forall|t: int| touches_enable(es, t) <==> t == es[0].0.index by {
        if touches_enable(es, t) {
            let u = choose|u: int| 0 <= u < es.len() && (#[trigger] es[u]).0.index == t;
            assert(u == 0);
        }
        if t == es[0].0.index {
            assert(touches_enable(es, t));
        }
    }
}

/// The usable row budget of a circuit of size `k`: `2^k` rows less the
/// blinding reserve.
pub open spec fn usable_of(k: usize) -> int {
    if rows_of(k) > BLINDING_ROWS as int {
        rows_of(k) - BLINDING_ROWS as int
    } else {
        0
    }
}

/// Copy-assigning a source cell into a position and plainly writing the
/// source's value there produce the same grid and hand back the same
/// handle, naming the same absolute cell; only the recorded copy
/// constraint distinguishes them.
pub proof fn lemma_copy_matches_assign(
    src: AssignedCell,
    col: Column,
    offset: usize,
    g: Seq<FValue>,
    base: int,
    n: int,
    kind: ColKind,
)
    ensures
        ({
            let wc = WriteOp::CopyAdvice { src, col, offset };
            let wa = WriteOp::Advice { col, offset, value: src.value };
            &&& write_cell(wc, base) == write_cell(wa, base)
            &&& write_value(wc) == write_value(wa)
            &&& acell(wc, base) == acell(wa, base)
            &&& apply_write1(g, wc, base, n, kind) == apply_write1(g, wa, base, n, kind)
        }),
{
}

/// Synthesis is deterministic: the base row the planner picks and every
/// fold the assigner performs are functions of the prior state and the
/// plan's operations alone.  In particular the region's annotation is
/// purely cosmetic: two plans with the same operations advance two
/// equal states identically.
pub proof fn lemma_assign_deterministic(s1: Layouter, s2: Layouter, p1: RegionPlan, p2: RegionPlan)
    requires
        s1 == s2,
        p1.writes@ == p2.writes@,
        p1.eq_pairs@ == p2.eq_pairs@,
        p1.enables@ == p2.enables@,
    ensures
        plan_ok(s1.cs, p1) == plan_ok(s2.cs, p2),
        s1.base_for(p1) == s2.base_for(p2),
        plan_height(p1) == plan_height(p2),
        s1.fits(p1) == s2.fits(p2),
        forall|kind: ColKind|
            #[trigger] apply_writes(
                s1.advice@,
                p1.writes@,
                s1.base_for(p1),
                s1.n_rows as int,
                kind,
            ) == apply_writes(s2.advice@, p2.writes@, s2.base_for(p2), s2.n_rows as int, kind),
        write_pairs(p1.writes@, s1.base_for(p1)) == write_pairs(p2.writes@, s2.base_for(p2)),
        pair_cells(p1.eq_pairs@) == pair_cells(p2.eq_pairs@),
        apply_enables(s1.selectors@, p1.enables@, s1.base_for(p1), s1.n_rows as int)
            == apply_enables(s2.selectors@, p2.enables@, s2.base_for(p2), s2.n_rows as int),
        assigned_cells(p1.writes@, s1.base_for(p1)) == assigned_cells(p2.writes@, s2.base_for(p2)),
{
}

/// The usable row budget grows with the size parameter: a synthesis
/// that fits at size `k1` also fits at every size up to the supported
/// maximum.
pub proof fn lemma_usable_monotone(k1: usize, k2: usize)
    requires
        k1 <= k2,
        k2 <= MAX_K,
    ensures
        usable_of(k1) <= usable_of(k2),
{
    let a = k1 as u64;
    let b = k2 as u64;
    assert(a <= b && b <= 20 ==> 1u64 << a <= 1u64 << b) by (bit_vector);
}

} // verus!
