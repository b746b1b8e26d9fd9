//! The expression algebra: symbolic polynomials over cell queries.
//!
//! A gate is a list of expressions; each expression is a tree over
//! constants, selector queries and column queries at a rotation, closed
//! under negation, sum, product and scalar scaling.  The degree of an
//! expression bounds the polynomial degree the proving back end must
//! handle, so gate creation rejects expressions above a fixed limit.

use vstd::prelude::*;
use crate::field::Fp;

verus! {

/// The largest expression degree a gate may use.
pub const MAX_GATE_DEGREE: u64 = 8;

/// Degrees are computed capped at this value, comfortably above
/// [`MAX_GATE_DEGREE`], so the computation cannot overflow on deep trees.
pub const DEGREE_CAP: u64 = 1000;

/// A symbolic polynomial over the cells of the grid.
///
/// Column queries name a column by its index within its kind and carry a
/// rotation: a row offset applied to the evaluation row, read modulo the
/// row count.
pub enum Expression {
    /// A constant scalar.
    Constant(Fp),
    /// The value of a selector at the evaluation row: 1 where enabled.
    Selector(usize),
    /// An advice cell, by column index and rotation.
    Advice(usize, i32),
    /// A fixed cell, by column index and rotation.
    Fixed(usize, i32),
    /// An instance cell, by column index and rotation.
    Instance(usize, i32),
    /// Negation of a subexpression.
    Negated(Box<Expression>),
    /// Sum of two subexpressions.
    Sum(Box<Expression>, Box<Expression>),
    /// Product of two subexpressions.
    Product(Box<Expression>, Box<Expression>),
    /// A subexpression scaled by a constant.
    Scaled(Box<Expression>, Fp),
}

/// The degree of an expression: queries count 1, constants 0, a sum takes
/// the larger degree, a product the total.
pub open spec fn degree(e: Expression) -> nat
    decreases e,
{
    match e {
        Expression::Constant(_) => 0,
        Expression::Selector(_) => 1,
        Expression::Advice(_, _) => 1,
        Expression::Fixed(_, _) => 1,
        Expression::Instance(_, _) => 1,
        Expression::Negated(x) => degree(*x),
        Expression::Sum(a, b) => {
            let da = degree(*a);
            let db = degree(*b);
            if da >= db {
                da
            } else {
                db
            }
        },
        Expression::Product(a, b) => degree(*a) + degree(*b),
        Expression::Scaled(x, _) => degree(*x),
    }
}

/// The degree, capped at [`DEGREE_CAP`].
pub open spec fn capped(d: nat) -> nat {
    if d >= DEGREE_CAP as nat {
        DEGREE_CAP as nat
    } else {
        d
    }
}

impl Expression {
    /// The degree of the expression, capped at [`DEGREE_CAP`]: enough to
    /// decide whether it exceeds [`MAX_GATE_DEGREE`].
    pub fn degree_capped(&self) -> (r: u64)
        ensures
            r as nat == capped(degree(*self)),
        decreases *self,
    {
        match self {
            Expression::Constant(_) => 0,
            Expression::Selector(_) => 1,
            Expression::Advice(_, _) => 1,
            Expression::Fixed(_, _) => 1,
            Expression::Instance(_, _) => 1,
            Expression::Negated(x) => x.degree_capped(),
            Expression::Sum(a, b) => {
                let da = a.degree_capped();
                let db = b.degree_capped();
                if da >= db {
                    da
                } else {
                    db
                }
            },
            Expression::Product(a, b) => {
                let da = a.degree_capped();
                let db = b.degree_capped();
                let s = da + db;
                if s >= DEGREE_CAP {
                    DEGREE_CAP
                } else {
                    s
                }
            },
            Expression::Scaled(x, _) => x.degree_capped(),
        }
    }
}

/// Being in range survives widening the column and selector counts.
pub proof fn lemma_expr_in_range_widen(
    e: Expression,
    a1: int,
    f1: int,
    i1: int,
    s1: int,
    a2: int,
    f2: int,
    i2: int,
    s2: int,
)
    requires
        expr_in_range(e, a1, f1, i1, s1),
        a2 >= a1,
        f2 >= f1,
        i2 >= i1,
        s2 >= s1,
    ensures
        expr_in_range(e, a2, f2, i2, s2),
    decreases e,
{
    match e {
        Expression::Negated(x) => lemma_expr_in_range_widen(*x, a1, f1, i1, s1, a2, f2, i2, s2),
        Expression::Sum(a, b) => {
            lemma_expr_in_range_widen(*a, a1, f1, i1, s1, a2, f2, i2, s2);
            lemma_expr_in_range_widen(*b, a1, f1, i1, s1, a2, f2, i2, s2);
        },
        Expression::Product(a, b) => {
            lemma_expr_in_range_widen(*a, a1, f1, i1, s1, a2, f2, i2, s2);
            lemma_expr_in_range_widen(*b, a1, f1, i1, s1, a2, f2, i2, s2);
        },
        Expression::Scaled(x, _) => lemma_expr_in_range_widen(*x, a1, f1, i1, s1, a2, f2, i2, s2),
        _ => {},
    }
}

/// Whether every query in the expression is in range for a constraint
/// system with the given column and selector counts.
pub open spec fn expr_in_range(
    e: Expression,
    n_advice: int,
    n_fixed: int,
    n_instance: int,
    n_selectors: int,
) -> bool
    decreases e,
{
    match e {
        Expression::Constant(_) => true,
        Expression::Selector(s) => s < n_selectors,
        Expression::Advice(c, _) => c < n_advice,
        Expression::Fixed(c, _) => c < n_fixed,
        Expression::Instance(c, _) => c < n_instance,
        Expression::Negated(x) => expr_in_range(*x, n_advice, n_fixed, n_instance, n_selectors),
        Expression::Sum(a, b) => expr_in_range(*a, n_advice, n_fixed, n_instance, n_selectors)
            && expr_in_range(*b, n_advice, n_fixed, n_instance, n_selectors),
        Expression::Product(a, b) => expr_in_range(*a, n_advice, n_fixed, n_instance, n_selectors)
            && expr_in_range(*b, n_advice, n_fixed, n_instance, n_selectors),
        Expression::Scaled(x, _) => expr_in_range(*x, n_advice, n_fixed, n_instance, n_selectors),
    }
}

impl Expression {
    /// Checks that every query is in range for the given column and
    /// selector counts.
    pub fn check_in_range(
        &self,
        n_advice: usize,
        n_fixed: usize,
        n_instance: usize,
        n_selectors: usize,
    ) -> (r: bool)
        ensures
            r == expr_in_range(
                *self,
                n_advice as int,
                n_fixed as int,
                n_instance as int,
                n_selectors as int,
            ),
        decreases *self,
    {
        match self {
            Expression::Constant(_) => true,
            Expression::Selector(s) => *s < n_selectors,
            Expression::Advice(c, _) => *c < n_advice,
            Expression::Fixed(c, _) => *c < n_fixed,
            Expression::Instance(c, _) => *c < n_instance,
            Expression::Negated(x) => x.check_in_range(n_advice, n_fixed, n_instance, n_selectors),
            Expression::Sum(a, b) => a.check_in_range(n_advice, n_fixed, n_instance, n_selectors)
                && b.check_in_range(n_advice, n_fixed, n_instance, n_selectors),
            Expression::Product(a, b) => a.check_in_range(
                n_advice,
                n_fixed,
                n_instance,
                n_selectors,
            ) && b.check_in_range(n_advice, n_fixed, n_instance, n_selectors),
            Expression::Scaled(x, _) => x.check_in_range(n_advice, n_fixed, n_instance, n_selectors),
        }
    }
}

} // verus!
