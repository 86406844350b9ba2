//! A minimal framework for defining small arithmetic circuits over a prime
//! field, assigning a concrete witness to them, and checking that the witness
//! satisfies every declared polynomial constraint.
//!
//! A circuit author declares a fixed tabular layout (columns of cells) and
//! attaches selector-gated polynomial constraints to it; for a specific input,
//! synthesis fills cells region by region and declares copy (equality)
//! constraints; the satisfiability checker then validates the completed
//! witness table against every gate, every copy-constraint class, and the
//! public-input vector.

pub mod field;
pub mod expr;
pub mod layout;
pub mod assign;
pub mod copies;
pub mod check;
pub mod rangecheck;
pub mod simple;
