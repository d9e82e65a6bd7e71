//! The recruitment calculator.

pub mod calculator;
pub mod subsets;
