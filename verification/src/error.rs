//! The errors of the calculator, and how they are shown.

use vstd::prelude::*;
use vstd::string::{StringExecFns, StringSliceAdditionalSpecFns};
use vstd::utf8::is_char_boundary;
use crate::format::{digits, FormatRadix};
use crate::frontier::{Rule, SyntaxError};
use crate::literal::NumericError;
use crate::text::push_all;

verus! {

/// Why a line gave no result.
#[derive(Debug, PartialEq, Eq)]
pub enum CorkError {
    /// The expression has no value; the text says why.
    Eval(String),
    /// A `set` directive gives a key a value that the key cannot have.
    InvalidValueForKey { value: String, key: String },
    /// A `set` directive names a key that does not exist.
    InvalidKey(String),
    /// The line is not in the grammar.
    Parse(SyntaxError),
    /// A literal of the line has no value.
    Numeric(NumericError),
}

/// What pest shows for a parsing error at the byte `offset` of `line` that
/// expected the rules `expected` and met no unexpected one: the place, the
/// line with a mark below the offset, and the names of the rules.
pub uninterp spec fn pest_rendering(line: Seq<char>, offset: int, expected: Seq<Rule>) -> Seq<char>;

/// Lets pest show a parsing error: `pest::Position::new` makes the position,
/// `pest::error::Error::new_from_pos` the error with `expected` as its
/// positives and no negatives, and the error's `Display` the text. The
/// contract only gives that text its name. The position exists because the
/// offset is a character boundary of the line.
#[verifier::external_body]
fn render_with_pest(line: &str, offset: usize, expected: &Vec<Rule>) -> (r: String)
    requires
        is_char_boundary(line.spec_bytes(), offset as int),
    ensures
        r@ == pest_rendering(line@, offset as int, expected@),
{
    let position = pest::Position::new(line, offset).unwrap();
    let variant = pest::error::ErrorVariant::ParsingError {
        positives: expected.clone(),
        negatives: Vec::new(),
    };
    pest::error::Error::new_from_pos(variant, position).to_string()
}

impl SyntaxError {
    /// How the error is shown for the line it is about. An offset that is
    /// no place of `line` is only named.
    pub open spec fn rendering(&self, line: &str) -> Seq<char> {
        if is_char_boundary(line.spec_bytes(), self.offset as int) {
            pest_rendering(line@, self.offset as int, self.expected@)
        } else {
            "no such place in the line: byte "@ + digits(self.offset as nat, 10)
        }
    }

    /// Shows the error for the line it is about.
    pub fn render(&self, line: &str) -> (r: String)
        ensures
            r@ == self.rendering(line),
    {
        if line.is_char_boundary(self.offset) {
            render_with_pest(line, self.offset, &self.expected)
        } else {
            let mut out = String::from_str("no such place in the line: byte ");
            let number = FormatRadix::Decimal.fmt_uint_to_chars(self.offset as u64);
            push_all(&mut out, &number);
            out
        }
    }
}

impl CorkError {
    /// How the error is shown; `line` is the line that it is about.
    pub open spec fn description(&self, line: &str) -> Seq<char> {
        match self {
            CorkError::Eval(why) => "couldn't evaluate the expressison: "@ + why@,
            CorkError::InvalidValueForKey { value, key } => "invalid "@ + value@
                + " value for key "@ + key@,
            CorkError::InvalidKey(key) => key@ + " is not a valid key"@,
            CorkError::Parse(error) => "parsing error:\n"@ + error.rendering(line),
            CorkError::Numeric(_) => "a number has no digits of its radix or does not fit in 64 bits"@,
        }
    }

    /// Shows the error; `line` is the line that it is about.
    pub fn describe(&self, line: &str) -> (r: String)
        ensures
            r@ == self.description(line),
    {
        match self {
            CorkError::Eval(why) => String::from_str("couldn't evaluate the expressison: ").concat(
                why.as_str(),
            ),
            CorkError::InvalidValueForKey { value, key } => String::from_str("invalid ").concat(
                value.as_str(),
            ).concat(" value for key ").concat(key.as_str()),
            CorkError::InvalidKey(key) => String::from_str(key.as_str()).concat(
                " is not a valid key",
            ),
            CorkError::Parse(error) => {
                let shown = error.render(line);
                String::from_str("parsing error:\n").concat(shown.as_str())
            },
            CorkError::Numeric(_) => String::from_str(
                "a number has no digits of its radix or does not fit in 64 bits",
            ),
        }
    }
}

} // verus!
