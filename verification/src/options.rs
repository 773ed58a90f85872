//! What the command line of the calculator can say.

use vstd::prelude::*;

verus! {

/// The options of one run.
#[derive(Debug)]
pub struct Options {
    /// Evaluate this expression and print it; the words are joined by blanks.
    pub expr: Option<Vec<String>>,
    /// Punctuate the output number.
    pub punctuate_output: bool,
    /// Load the configuration from this path.
    pub config: Option<String>,
    /// Run this script line by line.
    pub file: Option<String>,
    /// Print in all bases (only when an expression is given).
    pub all: bool,
    /// Print in hexadecimal (only when an expression is given).
    pub hex: bool,
    /// Print in octal (only when an expression is given).
    pub oct: bool,
    /// Print in decimal (only when an expression is given).
    pub dec: bool,
    /// Print in binary (only when an expression is given).
    pub bin: bool,
}

} // verus!
