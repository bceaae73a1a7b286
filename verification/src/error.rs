//! The ways in which a computation of this crate can fail.

use vstd::prelude::*;

verus! {

/// Why a table could not be built or a test could not be evaluated.
///
/// No error is ever recovered from internally: a function either returns a
/// complete, exact result or one of these.
#[derive(Clone, Copy, Debug, PartialEq, Eq, Structural)]
pub enum TrialError {
    /// A record names an arm or an outcome outside the two-arm, two-outcome
    /// domain.
    InvalidRecord,
    /// A binomial coefficient was asked for with `k > n`, or the totals
    /// handed to the tail sum exceed the population.
    InvalidDomain,
    /// The counts of a table add up to more than a 64-bit word can hold.
    ArithmeticOverflow,
}

impl TrialError {
    /// A short description, for reports.
    pub fn message(&self) -> (r: &'static str)
        ensures
            r@ == (match *self {
                TrialError::InvalidRecord => "invalid record: unrecognized arm or outcome"@,
                TrialError::InvalidDomain => "invalid domain: argument out of range"@,
                TrialError::ArithmeticOverflow => "arithmetic overflow: table totals too large"@,
            }),
    {
        match self {
            TrialError::InvalidRecord => "invalid record: unrecognized arm or outcome",
            TrialError::InvalidDomain => "invalid domain: argument out of range",
            TrialError::ArithmeticOverflow => "arithmetic overflow: table totals too large",
        }
    }
}

} // verus!
