//! Parsing of textual dice notation (for example `"1d6 + 3d4 * d20"`) into a
//! structured query: an ordered sequence of dice terms and an ordered sequence
//! of arithmetic operators.
pub mod dice;
pub mod errors;
pub mod numbers;
pub mod query;
pub mod tokens;
