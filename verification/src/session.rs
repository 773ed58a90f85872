//! What one line does to a session: the decisions of the read loop. The
//! loop itself, with its reading and printing, is the caller's.

use vstd::prelude::*;
use vstd::string::StringSliceAdditionalSpecFns;
use crate::config::Config;
use crate::error::CorkError;
use crate::expression::eval::{eval_expr, value_of};
use crate::expression::{
    command_of,
    is_refusal,
    parse_line,
    Command,
    Meaning,
    Refusal,
};
use crate::format::{FormatRadix, OutputFormat};
use crate::grammar::{is_blank, lemma_blank_line, lemma_directive, texts_of};
use crate::options::Options;
use crate::text::same_text;

verus! {

/// What a line asks for, once its expression has been evaluated.
#[derive(Debug, PartialEq, Eq)]
pub enum ExecutionOutcome {
    /// An expression and its value.
    Evaluated(i64),
    /// A conversion: the value, and the radix to print it in.
    Converted(i64, FormatRadix),
    /// A `set` directive: the key, and the values that follow it.
    Setting(String, Vec<String>),
    /// An empty line.
    NoOp,
}

/// An outcome as contracts speak of it.
pub ghost enum Happening {
    Evaluated(i64),
    Converted(i64, FormatRadix),
    Setting(Seq<char>, Seq<Seq<char>>),
    NoOp,
}

/// Why a line has no outcome, as contracts speak of it.
pub ghost enum Failure {
    /// The line is no command.
    Refused(Refusal),
    /// The expression of the line divides by zero.
    DivideByZero,
}

impl ExecutionOutcome {
    /// The outcome as contracts speak of it.
    pub open spec fn view(&self) -> Happening {
        match self {
            ExecutionOutcome::Evaluated(value) => Happening::Evaluated(*value),
            ExecutionOutcome::Converted(value, radix) => Happening::Converted(*value, *radix),
            ExecutionOutcome::Setting(key, values) => Happening::Setting(key@, texts_of(values@)),
            ExecutionOutcome::NoOp => Happening::NoOp,
        }
    }
}

/// What the line with the bytes `s` asks for where `ans` is the last
/// result. An empty line asks for nothing and is not evaluated.
pub open spec fn outcome_of(s: Seq<u8>, ans: i64) -> Result<Happening, Failure> {
    match command_of(s) {
        Err(refusal) => Err(Failure::Refused(refusal)),
        Ok(Meaning::Empty) => Ok(Happening::NoOp),
        Ok(Meaning::Setting(args)) => Ok(Happening::Setting(args[0], args.skip(1))),
        Ok(Meaning::Expr(expr)) => match value_of(expr, ans) {
            Some(value) => Ok(Happening::Evaluated(value)),
            None => Err(Failure::DivideByZero),
        },
        Ok(Meaning::Convert(expr, radix)) => match value_of(expr, ans) {
            Some(value) => Ok(Happening::Converted(value, radix)),
            None => Err(Failure::DivideByZero),
        },
    }
}

/// A line of nothing but blanks, and no other line, is the empty command;
/// it asks for nothing and is never evaluated, whatever the last result.
pub proof fn lemma_blank_line_is_no_op(s: Seq<u8>, ans: i64)
    ensures
        is_blank(s) <==> command_of(s) == Ok::<Meaning, Refusal>(Meaning::Empty),
        is_blank(s) <==> outcome_of(s, ans) == Ok::<Happening, Failure>(Happening::NoOp),
{
    lemma_blank_line(s);
}

/// Whether `error` is the error that stands for `failure`.
pub open spec fn is_failure(error: CorkError, failure: Failure) -> bool {
    match failure {
        Failure::Refused(refusal) => is_refusal(error, refusal),
        Failure::DivideByZero => error matches CorkError::Eval(why) && why@
            == "Cannot divide by 0"@,
    }
}

/// Reads and evaluates one line, with `accumulator` for the last result.
/// Nothing is changed: the caller applies the outcome.
pub fn process_line(text: &str, accumulator: i64) -> (r: Result<ExecutionOutcome, CorkError>)
    ensures
        match outcome_of(text.spec_bytes(), accumulator) {
            Ok(happening) => r matches Ok(outcome) && outcome@ == happening,
            Err(failure) => r matches Err(error) && is_failure(error, failure),
        },
{
    let command = match parse_line(text) {
        Ok(command) => command,
        Err(e) => {
            return Err(e);
        },
    };
    match command {
        Command::Empty => Ok(ExecutionOutcome::NoOp),
        Command::Expr(expr) => match eval_expr(&expr, accumulator) {
            Ok(value) => Ok(ExecutionOutcome::Evaluated(value)),
            Err(e) => Err(e),
        },
        Command::Convert(conversion) => match conversion.value(accumulator) {
            Ok(value) => Ok(ExecutionOutcome::Converted(value, conversion.radix())),
            Err(e) => Err(e),
        },
        Command::Setting(directive) => {
            let mut values = directive.args;
            let ghost args = texts_of(values@);
            proof {
                lemma_directive(text.spec_bytes());
            }
            let key = values.remove(0);
            proof {
                assert(texts_of(values@) =~= args.skip(1));
            }
            Ok(ExecutionOutcome::Setting(key, values))
        },
    }
}

/// The radix that a `set of` directive names.
pub open spec fn radix_named(name: Seq<char>) -> Option<FormatRadix> {
    if name == "hex"@ {
        Some(FormatRadix::Hex)
    } else if name == "dec"@ {
        Some(FormatRadix::Decimal)
    } else if name == "oct"@ {
        Some(FormatRadix::Octal)
    } else if name == "bin"@ {
        Some(FormatRadix::Binary)
    } else {
        None
    }
}

/// The value that a directive gives its key: the first of the values that
/// follow the key. A key without a value is given the empty text.
pub open spec fn value_given(values: Seq<Seq<char>>) -> Seq<char> {
    if values.len() > 0 {
        values[0]
    } else {
        Seq::empty()
    }
}

/// Applies a `set` directive to the output format. The only key is `of`,
/// and its value is the name of a radix.
pub fn apply_setting(key: &str, values: &Vec<String>, of: &mut OutputFormat) -> (r: Result<
    (),
    CorkError,
>)
    ensures
        final(of).punctuate_number == old(of).punctuate_number,
        match r {
            Ok(_) => key@ == "of"@ && radix_named(value_given(texts_of(values@))) == Some(
                final(of).radix,
            ),
            Err(CorkError::InvalidKey(name)) => key@ != "of"@ && name@ == key@ && *final(of)
                == *old(of),
            Err(CorkError::InvalidValueForKey { value, key: name }) => key@ == "of"@ && name@
                == key@ && value@ == value_given(texts_of(values@)) && radix_named(value@)
                is None && *final(of) == *old(of),
            Err(_) => false,
        },
{
    if !same_text(key, "of") {
        return Err(CorkError::InvalidKey(key.to_owned()));
    }
    let value: String = if values.len() > 0 {
        values[0].clone()
    } else {
        String::new()
    };
    assert(value@ == value_given(texts_of(values@)));
    if same_text(value.as_str(), "hex") {
        of.set_format_radix(FormatRadix::Hex);
    } else if same_text(value.as_str(), "dec") {
        of.set_format_radix(FormatRadix::Decimal);
    } else if same_text(value.as_str(), "oct") {
        of.set_format_radix(FormatRadix::Octal);
    } else if same_text(value.as_str(), "bin") {
        of.set_format_radix(FormatRadix::Binary);
    } else {
        return Err(CorkError::InvalidValueForKey { value, key: key.to_owned() });
    }
    Ok(())
}

/// What the session prints after a line.
#[derive(Debug, PartialEq, Eq)]
pub enum Report {
    /// This text, on a line of its own.
    Result(String),
    /// An empty line.
    Nothing,
    /// No line at all: a setting has changed.
    Changed,
}

/// Whether `r`, `ans` and `of` are what a session with the last result
/// `old_ans` and the output format `old_of` comes to by the line with the
/// bytes `s`. A value is stored as the last result and printed in the
/// output format, or in the radix of its conversion; a `set` directive
/// changes the output format; an empty line and a line that fails change
/// nothing.
pub open spec fn is_processed(
    s: Seq<u8>,
    old_ans: i64,
    old_of: OutputFormat,
    r: Result<Report, CorkError>,
    ans: i64,
    of: OutputFormat,
) -> bool {
    match outcome_of(s, old_ans) {
        Err(failure) => r matches Err(error) && is_failure(error, failure) && ans == old_ans
            && of == old_of,
        Ok(Happening::NoOp) => r == Ok::<Report, CorkError>(Report::Nothing) && ans == old_ans
            && of == old_of,
        Ok(Happening::Evaluated(value)) => r matches Ok(Report::Result(text)) && text@
            == old_of.radix.text(value, old_of.punctuate_number) && ans == value && of == old_of,
        Ok(Happening::Converted(value, radix)) => r matches Ok(Report::Result(text)) && text@
            == radix.text(value, old_of.punctuate_number) && ans == value && of == old_of,
        Ok(Happening::Setting(key, values)) => ans == old_ans && of.punctuate_number
            == old_of.punctuate_number && (match r {
            Ok(report) => report == Report::Changed && key == "of"@ && radix_named(
                value_given(values),
            ) == Some(of.radix),
            Err(CorkError::InvalidKey(name)) => key != "of"@ && name@ == key && of == old_of,
            Err(CorkError::InvalidValueForKey { value, key: name }) => key == "of"@ && name@
                == key && value@ == value_given(values) && radix_named(value@) is None && of
                == old_of,
            Err(_) => false,
        }),
    }
}

/// Reads one line and applies it to the session: `ans` is the last result
/// and `of` the output format.
pub fn process_command(line: &str, ans: &mut i64, of: &mut OutputFormat) -> (r: Result<
    Report,
    CorkError,
>)
    ensures
        is_processed(line.spec_bytes(), *old(ans), *old(of), r, *final(ans), *final(of)),
{
    let outcome = match process_line(line, *ans) {
        Ok(outcome) => outcome,
        Err(e) => {
            return Err(e);
        },
    };
    match outcome {
        ExecutionOutcome::NoOp => Ok(Report::Nothing),
        ExecutionOutcome::Evaluated(value) => {
            *ans = value;
            Ok(Report::Result(of.fmt(value)))
        },
        ExecutionOutcome::Converted(value, radix) => {
            *ans = value;
            Ok(Report::Result(of.with_format_radix(radix).fmt(value)))
        },
        ExecutionOutcome::Setting(key, values) => match apply_setting(key.as_str(), &values, of) {
            Ok(_) => Ok(Report::Changed),
            Err(e) => Err(e),
        },
    }
}

/// What the read loop does with a line.
#[derive(Debug, PartialEq, Eq)]
pub enum Action {
    /// Show the warranty.
    Warranty,
    /// Print what the line gave.
    Print(Report),
    /// Show the error; a script ends with it, a terminal session goes on.
    Complain(CorkError),
}

/// Decides what the read loop does with a line: the word `warranty` alone
/// asks for the warranty, every other line is a command.
pub fn next_action(line: &str, ans: &mut i64, of: &mut OutputFormat) -> (r: Action)
    ensures
        match r {
            Action::Warranty => line@ == "warranty"@ && *final(ans) == *old(ans) && *final(of)
                == *old(of),
            Action::Print(report) => line@ != "warranty"@ && is_processed(
                line.spec_bytes(),
                *old(ans),
                *old(of),
                Ok(report),
                *final(ans),
                *final(of),
            ),
            Action::Complain(error) => line@ != "warranty"@ && is_processed(
                line.spec_bytes(),
                *old(ans),
                *old(of),
                Err(error),
                *final(ans),
                *final(of),
            ),
        },
{
    if same_text(line, "warranty") {
        return Action::Warranty;
    }
    match process_command(line, ans, of) {
        Ok(report) => Action::Print(report),
        Err(e) => Action::Complain(e),
    }
}

/// What a run that is given its expression on the command line prints.
#[derive(Debug, PartialEq, Eq)]
pub enum InlineReport {
    /// The value in each of the four radices, in the order of
    /// `FormatRadix::all`.
    AllBases(Vec<(FormatRadix, String)>),
    /// The value in one radix.
    Value(String),
    /// The expression has no value.
    EvalFailed(CorkError),
    /// The line is a `set` directive, which has no place here.
    SetNotAllowed,
    /// The line is empty.
    EmptyExpression,
    /// The line is no command.
    ParseFailed(CorkError),
}

/// Whether `list` holds the text of `value` in each of the four radices.
pub open spec fn is_in_all_bases(list: Seq<(FormatRadix, String)>, value: i64, punctuate: bool) -> bool {
    &&& list.len() == 4
    &&& list[0].0 == FormatRadix::Decimal
    &&& list[1].0 == FormatRadix::Hex
    &&& list[2].0 == FormatRadix::Octal
    &&& list[3].0 == FormatRadix::Binary
    &&& forall|i: int| 0 <= i < 4 ==> (#[trigger] list[i]).1@ == list[i].0.text(value, punctuate)
}

/// Evaluates the expression of the command line, with zero for the last
/// result. The value is printed in the radix of the settings, or in all
/// four if the options ask for it; a conversion is printed in its own
/// radix.
pub fn inline_evaluate(expr_str: &str, config: &Config, options: &Options) -> (r: InlineReport)
    ensures
        match outcome_of(expr_str.spec_bytes(), 0) {
            Err(Failure::Refused(refusal)) => r matches InlineReport::ParseFailed(error)
                && is_refusal(error, refusal),
            Err(Failure::DivideByZero) => r matches InlineReport::EvalFailed(error)
                && is_failure(error, Failure::DivideByZero),
            Ok(Happening::NoOp) => r == InlineReport::EmptyExpression,
            Ok(Happening::Setting(_, _)) => r == InlineReport::SetNotAllowed,
            Ok(Happening::Evaluated(value)) => if options.all {
                r matches InlineReport::AllBases(list) && is_in_all_bases(
                    list@,
                    value,
                    config.spec_punctuate_output(),
                )
            } else {
                r matches InlineReport::Value(text) && text@ == config.spec_output_radix().text(
                    value,
                    config.spec_punctuate_output(),
                )
            },
            Ok(Happening::Converted(value, radix)) => r matches InlineReport::Value(text) && text@
                == radix.text(value, config.spec_punctuate_output()),
        },
{
    let command = match parse_line(expr_str) {
        Ok(command) => command,
        Err(e) => {
            return InlineReport::ParseFailed(e);
        },
    };
    let punctuate = *config.punctuate_output();
    match command {
        Command::Expr(expr) => match eval_expr(&expr, 0) {
            Ok(ans) => {
                if options.all {
                    let radices = FormatRadix::all();
                    let mut list: Vec<(FormatRadix, String)> = Vec::new();
                    let mut i: usize = 0;
                    while i < 4
                        invariant
                            i <= 4,
                            radices@ == seq![
                                FormatRadix::Decimal,
                                FormatRadix::Hex,
                                FormatRadix::Octal,
                                FormatRadix::Binary,
                            ],
                            list@.len() == i,
                            forall|k: int|
                                0 <= k < i ==> (#[trigger] list@[k]).0 == radices@[k] && list@[k].1@
                                    == radices@[k].text(ans, punctuate),
                        decreases 4 - i,
                    {
                        let radix = radices[i];
                        let text = OutputFormat::default().with_format_radix(
                            radix,
                        ).with_punctuate_number(punctuate).fmt(ans);
                        list.push((radix, text));
                        i += 1;
                    }
                    InlineReport::AllBases(list)
                } else {
                    InlineReport::Value(config.output_format().fmt(ans))
                }
            },
            Err(e) => InlineReport::EvalFailed(e),
        },
        Command::Convert(conversion) => match conversion.value(0) {
            Ok(ans) => InlineReport::Value(
                config.output_format().with_format_radix(conversion.radix()).fmt(ans),
            ),
            Err(e) => InlineReport::EvalFailed(e),
        },
        Command::Setting(_) => InlineReport::SetNotAllowed,
        Command::Empty => InlineReport::EmptyExpression,
    }
}

} // verus!
