//! The constraint system and its one-shot builder.
//!
//! During the configure phase a circuit creates columns, selectors and
//! gates through the methods here; the resulting [`ConstraintSystem`] is
//! then frozen and shared immutably by the layouter and the verifier.

use vstd::prelude::*;
use crate::expr::{capped, degree, expr_in_range, Expression, MAX_GATE_DEGREE};

verus! {

/// The kind of a grid column.
///
/// Advice columns hold the private witness, instance columns hold public
/// inputs, and fixed columns hold constants baked into the system.
#[derive(Clone, Copy, PartialEq, Eq, Structural, Debug)]
pub enum ColKind {
    Advice,
    Fixed,
    Instance,
}

/// A column handle: a kind plus an index among the columns of that kind.
#[derive(Clone, Copy, PartialEq, Eq, Structural, Debug)]
pub struct Column {
    pub kind: ColKind,
    pub index: usize,
}

/// A selector handle: a boolean-valued, implicitly fixed column that
/// switches its gates on per row.
#[derive(Clone, Copy, PartialEq, Eq, Structural, Debug)]
pub struct SelectorId {
    pub index: usize,
}

/// The errors a configure or synthesize phase can surface.
#[derive(Clone, Copy, PartialEq, Eq, Structural, Debug)]
pub enum Error {
    /// Invalid setup: a degree bound exceeded, an out-of-range query in a
    /// gate, an empty gate, or equality requested on an unsupported column
    /// kind.
    Configuration,
    /// A region placement or cell offset exceeds the row capacity.
    Bounds,
    /// A write to a column of the wrong kind, or a copy through a column
    /// that is not equality-enabled.
    Assignment,
    /// A user value computation reported failure.
    Synthesis,
}

/// A gate: a name for diagnostics plus a non-empty list of polynomials,
/// each required to evaluate to zero at every row.
pub struct Gate {
    pub name: String,
    pub polys: Vec<Expression>,
}

/// The frozen output of the configure phase.
///
/// Columns are identified by monotonically increasing indices within
/// their kind; `eq_advice` and `eq_instance` record, per column, whether
/// copy constraints may touch it.  Equality on fixed columns is not
/// supported.
pub struct ConstraintSystem {
    pub num_fixed: usize,
    pub num_instance: usize,
    pub num_selectors: usize,
    pub gates: Vec<Gate>,
    pub eq_advice: Vec<bool>,
    pub eq_instance: Vec<bool>,
}

impl ConstraintSystem {
    /// The number of advice columns created so far.
    pub open spec fn spec_num_advice(self) -> int {
        self.eq_advice@.len() as int
    }

    /// Whether a gate's polynomials all query within this system's
    /// columns and selectors, and respect the degree bound.
    pub open spec fn gate_wf(self, g: Gate) -> bool {
        &&& g.polys@.len() > 0
        &&& forall|i: int|
            0 <= i < g.polys@.len() ==> expr_in_range(
                #[trigger] g.polys@[i],
                self.spec_num_advice(),
                self.num_fixed as int,
                self.num_instance as int,
                self.num_selectors as int,
            ) && degree(g.polys@[i]) <= MAX_GATE_DEGREE as nat
    }

    /// Whether every gate of the system is well formed and the equality
    /// tables cover the columns.
    pub open spec fn wf(self) -> bool {
        &&& self.eq_instance@.len() == self.num_instance as int
        &&& forall|g: int| 0 <= g < self.gates@.len() ==> self.gate_wf(#[trigger] self.gates@[g])
    }

    /// An empty constraint system, ready for configuration.
    pub fn new() -> (r: ConstraintSystem)
        ensures
            r.spec_num_advice() == 0,
            r.num_fixed == 0,
            r.num_instance == 0,
            r.num_selectors == 0,
            r.gates@.len() == 0,
            r.eq_advice@.len() == 0,
            r.eq_instance@.len() == 0,
            r.wf(),
    {
        ConstraintSystem {
            num_fixed: 0,
            num_instance: 0,
            num_selectors: 0,
            gates: Vec::new(),
            eq_advice: Vec::new(),
            eq_instance: Vec::new(),
        }
    }

    /// Creates a new advice column, not yet equality-enabled.
    pub fn advice_column(&mut self) -> (r: Column)
        requires
            old(self).spec_num_advice() < usize::MAX,
        ensures
            r.kind == ColKind::Advice,
            r.index as int == old(self).spec_num_advice(),
            final(self).eq_advice@ == old(self).eq_advice@.push(false),
            final(self).num_fixed == old(self).num_fixed,
            final(self).num_instance == old(self).num_instance,
            final(self).num_selectors == old(self).num_selectors,
            final(self).gates@ == old(self).gates@,
            final(self).eq_instance@ == old(self).eq_instance@,
            old(self).wf() ==> final(self).wf(),
    {
        let index = self.eq_advice.len();
        self.eq_advice.push(false);
        proof {
            if old(self).wf() {
                lemma_wf_widen(*old(self), *self);
            }
        }
        Column { kind: ColKind::Advice, index }
    }

    /// Creates a new fixed column.
    pub fn fixed_column(&mut self) -> (r: Column)
        requires
            old(self).num_fixed < usize::MAX,
        ensures
            r.kind == ColKind::Fixed,
            r.index == old(self).num_fixed,
            final(self).num_fixed == old(self).num_fixed + 1,
            final(self).eq_advice@ == old(self).eq_advice@,
            final(self).num_instance == old(self).num_instance,
            final(self).num_selectors == old(self).num_selectors,
            final(self).gates@ == old(self).gates@,
            final(self).eq_instance@ == old(self).eq_instance@,
            old(self).wf() ==> final(self).wf(),
    {
        let index = self.num_fixed;
        self.num_fixed = self.num_fixed + 1;
        proof {
            if old(self).wf() {
                lemma_wf_widen(*old(self), *self);
            }
        }
        Column { kind: ColKind::Fixed, index }
    }

    /// Creates a new instance column, not yet equality-enabled.
    pub fn instance_column(&mut self) -> (r: Column)
        requires
            old(self).num_instance < usize::MAX,
        ensures
            r.kind == ColKind::Instance,
            r.index == old(self).num_instance,
            final(self).num_instance == old(self).num_instance + 1,
            final(self).eq_instance@ == old(self).eq_instance@.push(false),
            final(self).eq_advice@ == old(self).eq_advice@,
            final(self).num_fixed == old(self).num_fixed,
            final(self).num_selectors == old(self).num_selectors,
            final(self).gates@ == old(self).gates@,
            old(self).wf() ==> final(self).wf(),
    {
        let index = self.num_instance;
        self.num_instance = self.num_instance + 1;
        self.eq_instance.push(false);
        proof {
            if old(self).wf() {
                lemma_wf_widen(*old(self), *self);
            }
        }
        Column { kind: ColKind::Instance, index }
    }

    /// Creates a new selector.
    pub fn selector(&mut self) -> (r: SelectorId)
        requires
            old(self).num_selectors < usize::MAX,
        ensures
            r.index == old(self).num_selectors,
            final(self).num_selectors == old(self).num_selectors + 1,
            final(self).eq_advice@ == old(self).eq_advice@,
            final(self).num_fixed == old(self).num_fixed,
            final(self).num_instance == old(self).num_instance,
            final(self).gates@ == old(self).gates@,
            final(self).eq_instance@ == old(self).eq_instance@,
            old(self).wf() ==> final(self).wf(),
    {
        let index = self.num_selectors;
        self.num_selectors = self.num_selectors + 1;
        proof {
            if old(self).wf() {
                lemma_wf_widen(*old(self), *self);
            }
        }
        SelectorId { index }
    }

    /// Marks a column as participating in copy constraints.  Idempotent.
    /// Equality on fixed columns is not supported and is rejected as a
    /// configuration error, as is an out-of-range column.
    pub fn enable_equality(&mut self, col: Column) -> (r: Result<(), Error>)
        ensures
            r is Ok <==> (col.kind == ColKind::Advice && col.index < old(self).spec_num_advice())
                || (col.kind == ColKind::Instance && col.index < old(self).eq_instance@.len()),
            r is Err ==> r == Result::<(), Error>::Err(Error::Configuration)
                && *final(self) == *old(self),
            r is Ok && col.kind == ColKind::Advice ==> final(self).eq_advice@
                == old(self).eq_advice@.update(col.index as int, true)
                && final(self).eq_instance@ == old(self).eq_instance@,
            r is Ok && col.kind == ColKind::Instance ==> final(self).eq_instance@
                == old(self).eq_instance@.update(col.index as int, true)
                && final(self).eq_advice@ == old(self).eq_advice@,
            final(self).num_fixed == old(self).num_fixed,
            final(self).num_instance == old(self).num_instance,
            final(self).num_selectors == old(self).num_selectors,
            final(self).gates@ == old(self).gates@,
            old(self).wf() ==> final(self).wf(),
    {
        match col.kind {
            ColKind::Advice => {
                if col.index < self.eq_advice.len() {
                    self.eq_advice.set(col.index, true);
                    proof {
                        if old(self).wf() {
                            lemma_wf_widen(*old(self), *self);
                        }
                    }
                    Ok(())
                } else {
                    Err(Error::Configuration)
                }
            },
            ColKind::Instance => {
                if col.index < self.eq_instance.len() {
                    self.eq_instance.set(col.index, true);
                    proof {
                        if old(self).wf() {
                            lemma_wf_widen(*old(self), *self);
                        }
                    }
                    Ok(())
                } else {
                    Err(Error::Configuration)
                }
            },
            ColKind::Fixed => Err(Error::Configuration),
        }
    }

    /// Records a gate from a name and a list of polynomials.
    ///
    /// A new gate is rejected as a configuration error when the list is
    /// empty, when a polynomial queries outside the system, or when one
    /// exceeds the degree bound.
    pub fn create_gate(&mut self, name: String, polys: Vec<Expression>) -> (r: Result<(), Error>)
        ensures
            r is Ok <==> old(self).gate_wf((Gate { name, polys })),
            r is Ok ==> final(self).gates@ == old(self).gates@.push((Gate { name, polys })),
            r is Err ==> r == Result::<(), Error>::Err(Error::Configuration)
                && final(self).gates@ == old(self).gates@,
            final(self).num_fixed == old(self).num_fixed,
            final(self).num_instance == old(self).num_instance,
            final(self).num_selectors == old(self).num_selectors,
            final(self).eq_advice@ == old(self).eq_advice@,
            final(self).eq_instance@ == old(self).eq_instance@,
            old(self).wf() ==> final(self).wf(),
    {
        if polys.len() == 0 {
            return Err(Error::Configuration);
        }
        let ghost gate = Gate { name, polys };
        let n_advice = self.eq_advice.len();
        let mut i: usize = 0;
        let mut ok: bool = true;
        while i < polys.len()
            invariant
                i <= polys.len(),
                gate.polys == polys,
                ok == forall|j: int|
                    0 <= j < i ==> expr_in_range(
                        #[trigger] polys@[j],
                        n_advice as int,
                        self.num_fixed as int,
                        self.num_instance as int,
                        self.num_selectors as int,
                    ) && degree(polys@[j]) <= MAX_GATE_DEGREE as nat,
                n_advice as int == self.spec_num_advice(),
                self == old(self),
            decreases polys.len() - i,
        {
            let in_range = polys[i].check_in_range(
                n_advice,
                self.num_fixed,
                self.num_instance,
                self.num_selectors,
            );
            let deg = polys[i].degree_capped();
            proof {
                // The cap sits above the degree bound, so comparing the
                // capped degree against the bound decides the real one.
                assert(capped(degree(polys@[i as int])) <= MAX_GATE_DEGREE as nat <==> degree(
                    polys@[i as int],
                ) <= MAX_GATE_DEGREE as nat);
            }
            ok = ok && in_range && deg <= MAX_GATE_DEGREE;
            i = i + 1;
        }
        if ok {
            assert(self.gate_wf(gate));
            self.gates.push(Gate { name, polys });
            proof {
                assert forall|g: int| 0 <= g < self.gates@.len() && old(self).wf() implies self
                    .gate_wf(#[trigger] self.gates@[g]) by {
                    if g < old(self).gates@.len() {
                        assert(old(self).gate_wf(old(self).gates@[g]));
                    }
                }
            }
            Ok(())
        } else {
            Err(Error::Configuration)
        }
    }
}

/// Well-formedness survives any change that only adds columns or
/// selectors and leaves the gates as they were.
proof fn lemma_wf_widen(a: ConstraintSystem, b: ConstraintSystem)
    requires
        b.gates@ == a.gates@,
        b.spec_num_advice() >= a.spec_num_advice(),
        b.num_fixed >= a.num_fixed,
        b.num_instance as int == b.eq_instance@.len(),
        b.num_selectors >= a.num_selectors,
        b.num_instance >= a.num_instance,
        a.wf(),
    ensures
        b.wf(),
{
    assert forall|g: int| 0 <= g < b.gates@.len() implies b.gate_wf(#[trigger] b.gates@[g]) by {
        assert(a.gate_wf(a.gates@[g]));
        assert forall|i: int| 0 <= i < b.gates@[g].polys@.len() implies expr_in_range(
            #[trigger] b.gates@[g].polys@[i],
            b.spec_num_advice(),
            b.num_fixed as int,
            b.num_instance as int,
            b.num_selectors as int,
        ) && degree(b.gates@[g].polys@[i]) <= MAX_GATE_DEGREE as nat by {
            crate::expr::lemma_expr_in_range_widen(
                b.gates@[g].polys@[i],
                a.spec_num_advice(),
                a.num_fixed as int,
                a.num_instance as int,
                a.num_selectors as int,
                b.spec_num_advice(),
                b.num_fixed as int,
                b.num_instance as int,
                b.num_selectors as int,
            );
        }
    }
}

} // verus!
