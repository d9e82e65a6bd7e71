//! Recognition of recruitment tags and the calculation of the operators that
//! every combination of the recognized tags can yield.
//!
//! The crate is the decision logic of the tool. Pixels, windows and the text
//! recognizer live with the caller, which hands over plain measurements and
//! receives plain answers.

pub mod recruitment;
pub mod types;
pub mod ui;
