//! The scalar field of the constraint system.
//!
//! Constraints are polynomials over a prime field.  The engine only needs
//! `+`, `-`, `*` and constants built from small unsigned integers, so the
//! field here is the integers modulo a fixed prime that fits comfortably in
//! a machine word: sums of two reduced values fit in `u64`, and so do
//! products, which keeps the arithmetic total and overflow-free.
//!
//! A cell value during synthesis is a *possibly-unknown* scalar
//! ([`FValue`]): the same circuit code runs in a value-bearing witness pass
//! and in a value-free measurement pass.  Combining an unknown operand with
//! anything yields unknown.

use vstd::prelude::*;
use vstd::arithmetic::div_mod::{
    lemma_add_mod_noop, lemma_mod_bound, lemma_mod_twice, lemma_mul_mod_noop, lemma_small_mod,
    lemma_sub_mod_noop,
};

verus! {

/// The field modulus: the largest prime below `2^32`, so that a product of
/// two reduced elements stays below `2^64`.
pub const MODULUS: u64 = 4294967291;

/// The modulus as a spec-level integer.
pub open spec fn p() -> int {
    MODULUS as int
}

/// An element of the prime field.
///
/// The stored word is interpreted modulo [`MODULUS`]; every constructor and
/// operation returns a reduced representative, so `==` on values built
/// through this interface agrees with field equality.
#[derive(Clone, Copy, PartialEq, Eq, Structural, Debug)]
pub struct Fp {
    /// The stored word; interpreted modulo [`MODULUS`].
    pub v: u64,
}

/// Field addition on canonical representatives.
pub open spec fn f_add(a: int, b: int) -> int {
    (a + b) % p()
}

/// Field subtraction on canonical representatives.
pub open spec fn f_sub(a: int, b: int) -> int {
    (a - b) % p()
}

/// Field multiplication on canonical representatives.
pub open spec fn f_mul(a: int, b: int) -> int {
    (a * b) % p()
}

/// Field negation on canonical representatives.
pub open spec fn f_neg(a: int) -> int {
    (0 - a) % p()
}

impl Fp {
    /// The canonical representative of this element, in `[0, p)`.
    pub open spec fn val(self) -> int {
        self.v as int % p()
    }

    /// Whether the stored word is already reduced.  All constructors
    /// establish this, so it holds of every reachable value.
    pub open spec fn reduced(self) -> bool {
        self.v < MODULUS
    }

    /// The zero element.
    pub fn zero() -> (r: Fp)
        ensures
            r.val() == 0,
            r.reduced(),
    {
        proof {
            lemma_small_mod(0nat, MODULUS as nat);
        }
        Fp { v: 0 }
    }

    /// The one element.
    pub fn one() -> (r: Fp)
        ensures
            r.val() == 1,
            r.reduced(),
    {
        proof {
            lemma_small_mod(1nat, MODULUS as nat);
        }
        Fp { v: 1 }
    }

    /// An element from a small unsigned integer, reduced modulo `p`.
    pub fn from_u64(x: u64) -> (r: Fp)
        ensures
            r.val() == x as int % p(),
            r.reduced(),
    {
        proof {
            lemma_mod_bound(x as int, p());
            lemma_mod_twice(x as int, p());
        }
        Fp { v: x % MODULUS }
    }

    /// Addition in the field.
    pub fn add(self, other: Fp) -> (r: Fp)
        ensures
            r.val() == f_add(self.val(), other.val()),
            r.reduced(),
    {
        proof {
            lemma_mod_bound(self.v as int, p());
            lemma_mod_bound(other.v as int, p());
            lemma_add_mod_noop(self.v as int, other.v as int, p());
            lemma_mod_bound(self.v as int % p() + other.v as int % p(), p());
        }
        Fp { v: (self.v % MODULUS + other.v % MODULUS) % MODULUS }
    }

    /// Subtraction in the field.
    pub fn sub(self, other: Fp) -> (r: Fp)
        ensures
            r.val() == f_sub(self.val(), other.val()),
            r.reduced(),
    {
        let a = self.v % MODULUS;
        let b = other.v % MODULUS;
        proof {
            lemma_mod_bound(self.v as int, p());
            lemma_mod_bound(other.v as int, p());
            lemma_sub_mod_noop(self.v as int, other.v as int, p());
            // a - b and a + (p - b) differ by exactly one multiple of p.
            vstd::arithmetic::div_mod::lemma_mod_add_multiples_vanish(
                a as int - b as int,
                p(),
            );
            lemma_mod_bound(a as int + p() - b as int, p());
        }
        Fp { v: (a + MODULUS - b) % MODULUS }
    }

    /// Negation in the field.
    pub fn neg(self) -> (r: Fp)
        ensures
            r.val() == f_neg(self.val()),
            r.reduced(),
    {
        Fp::zero().sub(self)
    }

    /// Multiplication in the field.
    pub fn mul(self, other: Fp) -> (r: Fp)
        ensures
            r.val() == f_mul(self.val(), other.val()),
            r.reduced(),
    {
        let a = self.v % MODULUS;
        let b = other.v % MODULUS;
        proof {
            lemma_mod_bound(self.v as int, p());
            lemma_mod_bound(other.v as int, p());
            lemma_mul_mod_noop(self.v as int, other.v as int, p());
            assert(a as int * b as int <= 0xFFFFFFFFFFFFFFFF) by (nonlinear_arith)
                requires
                    a < 4294967291,
                    b < 4294967291;
            lemma_mod_bound(a as int * b as int, p());
        }
        Fp { v: (a * b) % MODULUS }
    }

    /// Whether two elements are equal as field elements.
    pub fn equals(self, other: Fp) -> (r: bool)
        ensures
            r == (self.val() == other.val()),
    {
        self.v % MODULUS == other.v % MODULUS
    }

    /// The canonical representative, for callers outside the proof.
    pub fn repr(self) -> (r: u64)
        ensures
            r as int == self.val(),
    {
        proof {
            lemma_mod_bound(self.v as int, p());
        }
        self.v % MODULUS
    }
}

/// A possibly-unknown scalar: the value written into a grid cell.
///
/// During the measurement pass of the floor planner no witness values
/// exist, so every write carries `Unknown`; during the witness pass every
/// write carries `Known`.  Arithmetic propagates unknownness.
#[derive(Clone, Copy, PartialEq, Eq, Structural, Debug)]
pub enum FValue {
    Unknown,
    Known(Fp),
}

/// Addition over possibly-unknown scalars.
pub open spec fn spec_fv_add(a: FValue, b: FValue) -> FValue {
    match (a, b) {
        (FValue::Known(x), FValue::Known(y)) => FValue::Known(
            Fp { v: (f_add(x.val(), y.val())) as u64 },
        ),
        _ => FValue::Unknown,
    }
}

/// Multiplication over possibly-unknown scalars.
pub open spec fn spec_fv_mul(a: FValue, b: FValue) -> FValue {
    match (a, b) {
        (FValue::Known(x), FValue::Known(y)) => FValue::Known(
            Fp { v: (f_mul(x.val(), y.val())) as u64 },
        ),
        _ => FValue::Unknown,
    }
}

impl FValue {
    /// Whether a value is present.
    pub open spec fn is_known(self) -> bool {
        self is Known
    }

    /// The canonical representative of a known value; unknown and
    /// never-assigned cells read as zero, the grid's default.
    pub open spec fn val_or_zero(self) -> int {
        match self {
            FValue::Known(x) => x.val(),
            FValue::Unknown => 0,
        }
    }

    /// Sum of two possibly-unknown scalars; unknown if either is.
    pub fn fv_add(self, other: FValue) -> (r: FValue)
        ensures
            r == spec_fv_add(self, other),
    {
        match (self, other) {
            (FValue::Known(x), FValue::Known(y)) => {
                let s = x.add(y);
                proof {
                    lemma_mod_bound(s.v as int, p());
                    lemma_small_mod(s.v as nat, MODULUS as nat);
                }
                FValue::Known(s)
            },
            _ => FValue::Unknown,
        }
    }

    /// Product of two possibly-unknown scalars; unknown if either is.
    pub fn fv_mul(self, other: FValue) -> (r: FValue)
        ensures
            r == spec_fv_mul(self, other),
    {
        match (self, other) {
            (FValue::Known(x), FValue::Known(y)) => {
                let s = x.mul(y);
                proof {
                    lemma_mod_bound(s.v as int, p());
                    lemma_small_mod(s.v as nat, MODULUS as nat);
                }
                FValue::Known(s)
            },
            _ => FValue::Unknown,
        }
    }
}

} // verus!
