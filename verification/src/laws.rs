//! What holds of every program.

pub mod evaluation;
pub mod numbers;
pub mod parsing;
