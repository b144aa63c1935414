//! Integer core of the NIST SP 800-22 battery of randomness tests.
//!
//! Every test of the battery turns a sequence of `'0'` and `'1'` symbols into
//! a p-value. The step from the sequence to the exact counts behind that
//! p-value is integer work, and this crate does it under contract; the step
//! from the counts to the p-value is a handful of real-valued formulas that a
//! caller evaluates in floating point.
pub mod constants;
pub mod customtypes;
pub mod utils;
pub mod frequency_monobit;
pub mod longest_run;
pub mod overlapping_template;
