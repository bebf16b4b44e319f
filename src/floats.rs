//! Floating-point arithmetic, which the host supplies.

use vstd::prelude::*;

verus! {

/// Binary64 (IEEE-754 double precision) arithmetic on bit patterns.
///
/// The library never computes with floats itself: it carries a float as its
/// bit pattern and hands the patterns to the host's implementation of this
/// trait. Nothing is assumed of what these methods return, so the library's
/// contracts say of a float only that it is one.
pub trait Binary64 {
    /// The value of a decimal literal that the grammar accepted as a float.
    fn from_literal(&self, text: &str) -> u64;

    /// The float nearest to an integer.
    fn from_int(&self, i: i64) -> u64;

    fn sum(&self, a: u64, b: u64) -> u64;

    fn difference(&self, a: u64, b: u64) -> u64;

    fn product(&self, a: u64, b: u64) -> u64;

    fn quotient(&self, a: u64, b: u64) -> u64;

    fn remainder(&self, a: u64, b: u64) -> u64;

    /// Decimal text for a float.
    fn show(&self, a: u64) -> String;
}

} // verus!
