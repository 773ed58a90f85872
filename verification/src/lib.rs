//! A calculator for those who think in several radices: it reads a line,
//! evaluates the expression on it in 64-bit integers, and writes the result
//! in decimal, hexadecimal, octal or binary.

pub mod canonical;
pub mod climber;
pub mod codec;
pub mod config;
pub mod error;
pub mod expression;
pub mod format;
pub mod frontier;
pub mod grammar;
pub mod literal;
pub mod locality;
pub mod options;
pub mod reach;
pub mod session;
pub mod text;
pub mod tokens;
