//! A small PLONK-style arithmetic circuit constraint builder.
//!
//! A computation is expressed as a grid of field-valued cells governed by
//! polynomial gates and copy constraints.  A circuit is built in two phases:
//! `configure` accumulates columns, selectors and gates into a frozen
//! constraint system, and `synthesize` fills the grid region by region
//! through a simple floor planner.  A mock verifier then evaluates every
//! gate at every row and checks every copy constraint, reporting the
//! violations it finds.

pub mod cs;
pub mod cubic;
pub mod expr;
pub mod fibo;
pub mod field;
pub mod layout;
pub mod verify;
