//! Exact significance testing for two-arm clinical trials.
//!
//! Outcome records are folded into a 2x2 contingency table, and a one-tailed
//! hypergeometric tail mass is computed over arbitrary-precision naturals and
//! compared against a fixed-point threshold by cross-multiplication. No
//! floating point and no division of probabilities is involved anywhere.

pub mod bignat;
pub mod combinatorics;
pub mod error;
pub mod limbs;
pub mod table;
pub mod tester;
pub mod trial;
