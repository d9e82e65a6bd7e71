//! The data the recognizer and the calculator exchange.

pub mod detection;
pub mod errors;
pub mod matching;
pub mod operator;
pub mod region;
pub mod tag;
pub mod text;
