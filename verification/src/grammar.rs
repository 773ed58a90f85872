//! The grammar of a line, and the parser that reads a line by it.
//!
//! ```text
//! line      := blank* (command blank*)? end
//! command   := directive | conversion | chain
//! directive := "set" (blank+ identifier)+
//! conversion:= chain blank+ "to" blank+ radix
//! chain     := term (blank* operator blank* term)*
//! term      := number | "ans" | "(" blank* chain blank* ")"
//! ```
//!
//! The alternatives of a rule are tried in the order in which they are
//! written, and the first that matches is taken. Wherever the parser looks
//! for a token and does not find it, it notes the offset and the kind of
//! token; a line that is not accepted is refused with the furthest such
//! offset and the kinds of token that were looked for there.

use vstd::prelude::*;
use crate::expression::Op;
use crate::format::FormatRadix;
use crate::frontier::{Frontier, Rule, SyntaxError};
use crate::text::push_ascii;
use crate::tokens::{
    agrees,
    is_space,
    byte_is,
    has_byte,
    has_pair,
    has_triple,
    identifier_end,
    lemma_skip_spaces,
    lemma_word_run,
    number_at,
    operator_at,
    pair_is,
    parse_radix,
    radix_at,
    read_identifier,
    read_number,
    read_operator,
    skip_blanks,
    skip_spaces,
    triple_is,
};

verus! {

/// An operand as it is written.
#[derive(Debug, PartialEq, Eq)]
pub enum Term {
    /// A literal, with its value if it has one.
    Number(Option<i64>),
    /// The word `ans`.
    Ans,
    /// A chain in parentheses.
    Group(Box<Chain>),
}

/// Operands with operators between them, as they are written from left to
/// right: no precedence has been applied.
#[derive(Debug, PartialEq, Eq)]
pub enum Chain {
    /// A single operand.
    First(Term),
    /// A chain, an operator, and one more operand.
    Then(Box<Chain>, Op, Term),
}

/// A line as the grammar reads it.
#[derive(Debug, PartialEq, Eq)]
pub enum ParsedLine {
    /// Nothing but blanks.
    Empty,
    /// An expression.
    Chain(Chain),
    /// An expression and the radix to print it in.
    Conversion(Chain, FormatRadix),
    /// The arguments of a `set` directive.
    Directive(Vec<String>),
}

/// A line as the grammar reads it, as contracts speak of it.
pub ghost enum Parsed {
    Empty,
    Chain(Chain),
    Conversion(Chain, FormatRadix),
    Directive(Seq<Seq<char>>),
}

/// What one attempt of a rule gave: what was found and where it ends, and
/// what the attempt noted.
pub ghost struct Step<T> {
    pub found: Option<(T, int)>,
    pub frontier: Frontier,
}

/// The characters of ASCII bytes.
pub open spec fn chars_of(bytes: Seq<u8>) -> Seq<char> {
    Seq::new(bytes.len(), |i: int| bytes[i] as char)
}

/// The texts of a list of strings.
pub open spec fn texts_of(list: Seq<String>) -> Seq<Seq<char>> {
    Seq::new(list.len(), |i: int| list[i]@)
}

impl ParsedLine {
    /// The line as contracts speak of it.
    pub open spec fn view(&self) -> Parsed {
        match self {
            ParsedLine::Empty => Parsed::Empty,
            ParsedLine::Chain(chain) => Parsed::Chain(*chain),
            ParsedLine::Conversion(chain, radix) => Parsed::Conversion(*chain, *radix),
            ParsedLine::Directive(args) => Parsed::Directive(texts_of(args@)),
        }
    }
}

/// The term that starts at `pos`.
pub open spec fn term_at(s: Seq<u8>, pos: int) -> Step<Term>
    decreases s.len() - pos, 0int,
    via term_at_decreases
{
    match number_at(s, pos) {
        Some((value, end)) => Step { found: Some((Term::Number(value), end)), frontier: Frontier::none() },
        None => if has_triple(s, pos, 'a' as u8, 'n' as u8, 's' as u8) {
            Step { found: Some((Term::Ans, pos + 3)), frontier: Frontier::none() }
        } else if has_byte(s, pos, '(' as u8) {
            let inner = chain_at(s, skip_spaces(s, pos + 1));
            match inner.found {
                Some((chain, end)) => {
                    let close = skip_spaces(s, end);
                    if has_byte(s, close, ')' as u8) {
                        Step {
                            found: Some((Term::Group(Box::new(chain)), close + 1)),
                            frontier: inner.frontier,
                        }
                    } else {
                        Step { found: None, frontier: inner.frontier.and(close, Rule::CloseParen) }
                    }
                },
                None => Step { found: None, frontier: inner.frontier },
            }
        } else {
            Step {
                found: None,
                frontier: Frontier::none().and(pos, Rule::Number).and(pos, Rule::Ans).and(
                    pos,
                    Rule::OpenParen,
                ),
            }
        },
    }
}

#[via_fn]
proof fn term_at_decreases(s: Seq<u8>, pos: int) {
    if has_byte(s, pos, '(' as u8) {
        lemma_skip_spaces(s, pos + 1);
    }
}

/// The chain that starts at `pos`: a term, and as many operators with a
/// term each as follow.
pub open spec fn chain_at(s: Seq<u8>, pos: int) -> Step<Chain>
    decreases s.len() - pos, 2int,
{
    let first = term_at(s, pos);
    match first.found {
        // A term is never empty and ends within the line: the test only shows
        // that this definition comes to an end.
        Some((term, end)) if pos < end <= s.len() => chain_rest(
            s,
            end,
            Chain::First(term),
            first.frontier,
        ),
        _ => Step { found: None, frontier: first.frontier },
    }
}

/// The chain `so_far`, which ends at `pos`, with as many operators and
/// terms as follow it. `seen` is what was noted up to here.
pub open spec fn chain_rest(s: Seq<u8>, pos: int, so_far: Chain, seen: Frontier) -> Step<Chain>
    decreases s.len() - pos, 1int,
    via chain_rest_decreases
{
    let at = skip_spaces(s, pos);
    match operator_at(s, at) {
        Some((op, after)) => {
            let next = term_at(s, skip_spaces(s, after));
            match next.found {
                // As in `chain_at`, the test always holds.
                Some((term, end)) if pos < end <= s.len() => chain_rest(
                    s,
                    end,
                    Chain::Then(Box::new(so_far), op, term),
                    seen.join(next.frontier),
                ),
                _ => Step { found: Some((so_far, pos)), frontier: seen.join(next.frontier) },
            }
        },
        None => Step { found: Some((so_far, pos)), frontier: seen.and(at, Rule::Operator) },
    }
}

#[via_fn]
proof fn chain_rest_decreases(s: Seq<u8>, pos: int, so_far: Chain, seen: Frontier) {
    if 0 <= pos <= s.len() {
        lemma_skip_spaces(s, pos);
        let at = skip_spaces(s, pos);
        if operator_at(s, at) is Some {
            lemma_skip_spaces(s, operator_at(s, at).unwrap().1);
        }
    }
}

/// The conversion that follows a chain which ends at `pos`: blanks, the
/// word `to`, blanks, and the name of a radix.
pub open spec fn conversion_at(s: Seq<u8>, pos: int) -> Step<FormatRadix> {
    let word = skip_spaces(s, pos);
    let name = skip_spaces(s, word + 2);
    if word == pos {
        Step { found: None, frontier: Frontier::none().and(pos, Rule::Separator) }
    } else if !has_pair(s, word, 't' as u8, 'o' as u8) {
        Step { found: None, frontier: Frontier::none().and(word, Rule::To) }
    } else if name == word + 2 {
        Step { found: None, frontier: Frontier::none().and(name, Rule::Separator) }
    } else {
        match radix_at(s, name) {
            Some(radix) => Step { found: Some((radix, name + 3)), frontier: Frontier::none() },
            None => Step { found: None, frontier: Frontier::none().and(name, Rule::Radix) },
        }
    }
}

/// The arguments `so_far`, which end at `pos`, with as many more as follow,
/// each after at least one blank. A directive has at least one argument.
pub open spec fn arguments_at(
    s: Seq<u8>,
    pos: int,
    so_far: Seq<Seq<char>>,
    seen: Frontier,
) -> Step<Seq<Seq<char>>>
    decreases s.len() - pos,
    via arguments_at_decreases
{
    let start = skip_spaces(s, pos);
    let end = identifier_end(s, start);
    let found = if so_far.len() > 0 {
        Some((so_far, pos))
    } else {
        None
    };
    if start == pos {
        Step { found, frontier: seen.and(pos, Rule::Separator) }
    } else if end == start {
        Step { found, frontier: seen.and(start, Rule::Identifier) }
    } else {
        arguments_at(s, end, so_far.push(chars_of(s.subrange(start, end))), seen)
    }
}

#[via_fn]
proof fn arguments_at_decreases(s: Seq<u8>, pos: int, so_far: Seq<Seq<char>>, seen: Frontier) {
    if 0 <= pos <= s.len() {
        lemma_skip_spaces(s, pos);
        let start = skip_spaces(s, pos);
        if start < s.len() {
            lemma_word_run(s, start + 1);
        }
    }
}

/// The directive that starts at `pos`: the word `set` and its arguments.
pub open spec fn directive_at(s: Seq<u8>, pos: int) -> Step<Seq<Seq<char>>> {
    if has_triple(s, pos, 's' as u8, 'e' as u8, 't' as u8) {
        arguments_at(s, pos + 3, Seq::empty(), Frontier::none())
    } else {
        Step { found: None, frontier: Frontier::none().and(pos, Rule::SetKeyword) }
    }
}

/// The command that starts at `pos`: a directive; else a chain, with the
/// conversion that follows it if one does.
pub open spec fn command_at(s: Seq<u8>, pos: int) -> Step<Parsed> {
    let directive = directive_at(s, pos);
    let chain = chain_at(s, pos);
    match directive.found {
        Some((args, end)) => Step {
            found: Some((Parsed::Directive(args), end)),
            frontier: directive.frontier,
        },
        None => match chain.found {
            Some((expr, end)) => {
                let conversion = conversion_at(s, end);
                let frontier = directive.frontier.join(chain.frontier).join(conversion.frontier);
                match conversion.found {
                    Some((radix, after)) => Step {
                        found: Some((Parsed::Conversion(expr, radix), after)),
                        frontier,
                    },
                    None => Step { found: Some((Parsed::Chain(expr), end)), frontier },
                }
            },
            None => Step { found: None, frontier: directive.frontier.join(chain.frontier) },
        },
    }
}

/// The whole line: blanks, a command or nothing, blanks, and the end. An
/// error is the furthest offset at which a token was looked for in vain,
/// with the kinds of token looked for there.
pub open spec fn line(s: Seq<u8>) -> Result<Parsed, Frontier> {
    let start = skip_spaces(s, 0);
    let command = command_at(s, start);
    match command.found {
        Some((parsed, end)) => {
            let rest = skip_spaces(s, end);
            if rest == s.len() {
                Ok(parsed)
            } else {
                Err(command.frontier.and(rest, Rule::EndOfInput))
            }
        },
        None => if start == s.len() {
            Ok(Parsed::Empty)
        } else {
            Err(command.frontier.and(start, Rule::EndOfInput))
        },
    }
}

/// A directive that is found has at least one argument.
pub proof fn lemma_arguments(s: Seq<u8>, pos: int, so_far: Seq<Seq<char>>, seen: Frontier)
    ensures
        arguments_at(s, pos, so_far, seen).found matches Some((args, _)) ==> args.len() > 0,
    decreases s.len() - pos,
{
    let start = skip_spaces(s, pos);
    let end = identifier_end(s, start);
    if start != pos && end != start {
        if 0 <= pos <= s.len() {
            lemma_skip_spaces(s, pos);
            if start < s.len() {
                lemma_word_run(s, start + 1);
            }
            lemma_arguments(s, end, so_far.push(chars_of(s.subrange(start, end))), seen);
        }
    }
}

/// A line that is a directive has at least one argument.
pub proof fn lemma_directive(s: Seq<u8>)
    ensures
        line(s) matches Ok(Parsed::Directive(args)) ==> args.len() > 0,
{
    let start = skip_spaces(s, 0);
    lemma_arguments(s, start + 3, Seq::empty(), Frontier::none());
}

/// Whether every byte of `s` is a blank.
pub open spec fn is_blank(s: Seq<u8>) -> bool {
    forall|i: int| 0 <= i < s.len() ==> is_space(#[trigger] s[i])
}

/// Blanks are skipped up to the end of the line if and only if nothing but
/// blanks follows.
pub proof fn lemma_skip_to_end(s: Seq<u8>, pos: int)
    requires
        0 <= pos <= s.len(),
    ensures
        skip_spaces(s, pos) == s.len() <==> forall|i: int|
            pos <= i < s.len() ==> is_space(#[trigger] s[i]),
    decreases s.len() - pos,
{
    lemma_skip_spaces(s, pos);
    if pos < s.len() && is_space(s[pos]) {
        lemma_skip_to_end(s, pos + 1);
        if skip_spaces(s, pos) == s.len() {
            assert forall|i: int| pos <= i < s.len() implies is_space(#[trigger] s[i]) by {
                if i > pos {
                }
            }
        }
    } else if pos < s.len() {
        assert(!is_space(s[pos]));
    }
}

/// A line is read as the empty line if and only if it holds nothing but
/// blanks; the line without any byte is one of them.
pub proof fn lemma_blank_line(s: Seq<u8>)
    ensures
        line(s) == Ok::<Parsed, Frontier>(Parsed::Empty) <==> is_blank(s),
{
    lemma_skip_to_end(s, 0);
    lemma_skip_spaces(s, 0);
}

/// Reads the term that starts at `pos`.
pub fn parse_term(s: &[u8], pos: usize) -> (r: (Option<(Term, usize)>, Frontier))
    ensures
        agrees(r.0, term_at(s@, pos as int).found),
        r.1 == term_at(s@, pos as int).frontier,
        r.0 matches Some((_, end)) ==> pos < end <= s.len(),
    decreases s.len() - pos, 0int,
{
    match read_number(s, pos) {
        Some((value, end)) => {
            return (Some((Term::Number(value), end)), Frontier::start());
        },
        None => {},
    }
    if triple_is(s, pos, 'a' as u8, 'n' as u8, 's' as u8) {
        return (Some((Term::Ans, pos + 3)), Frontier::start());
    }
    if !byte_is(s, pos, '(' as u8) {
        let frontier = Frontier::start().note(pos, Rule::Number).note(pos, Rule::Ans).note(
            pos,
            Rule::OpenParen,
        );
        return (None, frontier);
    }
    let start = skip_blanks(s, pos + 1);
    let (inner, frontier) = parse_chain(s, start);
    match inner {
        Some((chain, end)) => {
            let close = skip_blanks(s, end);
            if byte_is(s, close, ')' as u8) {
                (Some((Term::Group(Box::new(chain)), close + 1)), frontier)
            } else {
                (None, frontier.note(close, Rule::CloseParen))
            }
        },
        None => (None, frontier),
    }
}

/// Reads the chain that starts at `pos`.
pub fn parse_chain(s: &[u8], pos: usize) -> (r: (Option<(Chain, usize)>, Frontier))
    ensures
        agrees(r.0, chain_at(s@, pos as int).found),
        r.1 == chain_at(s@, pos as int).frontier,
        r.0 matches Some((_, end)) ==> pos < end <= s.len(),
    decreases s.len() - pos, 2int,
{
    let (first, frontier) = parse_term(s, pos);
    let (term, end) = match first {
        Some(found) => found,
        None => {
            return (None, frontier);
        },
    };
    let mut so_far = Chain::First(term);
    let mut cur = end;
    let mut seen = frontier;
    loop
        invariant
            pos < cur <= s.len(),
            chain_at(s@, pos as int) == chain_rest(s@, cur as int, so_far, seen),
        decreases s.len() - cur,
    {
        let at = skip_blanks(s, cur);
        let (op, after) = match read_operator(s, at) {
            Some(found) => found,
            None => {
                return (Some((so_far, cur)), seen.note(at, Rule::Operator));
            },
        };
        let start = skip_blanks(s, after);
        let (next, noted) = parse_term(s, start);
        seen = seen.merge(noted);
        match next {
            Some((term, end)) => {
                so_far = Chain::Then(Box::new(so_far), op, term);
                cur = end;
            },
            None => {
                return (Some((so_far, cur)), seen);
            },
        }
    }
}

/// Reads the conversion that follows a chain which ends at `pos`.
pub fn parse_conversion(s: &[u8], pos: usize) -> (r: (Option<(FormatRadix, usize)>, Frontier))
    ensures
        agrees(r.0, conversion_at(s@, pos as int).found),
        r.1 == conversion_at(s@, pos as int).frontier,
        r.0 matches Some((_, end)) ==> pos < end <= s.len(),
{
    let word = skip_blanks(s, pos);
    if word == pos {
        return (None, Frontier::start().note(pos, Rule::Separator));
    }
    if !pair_is(s, word, 't' as u8, 'o' as u8) {
        return (None, Frontier::start().note(word, Rule::To));
    }
    let name = skip_blanks(s, word + 2);
    if name == word + 2 {
        return (None, Frontier::start().note(name, Rule::Separator));
    }
    match parse_radix(s, name) {
        Some(radix) => (Some((radix, name + 3)), Frontier::start()),
        None => (None, Frontier::start().note(name, Rule::Radix)),
    }
}

/// Reads the directive that starts at `pos`.
pub fn parse_directive(s: &[u8], pos: usize) -> (r: (Option<(Vec<String>, usize)>, Frontier))
    ensures
        r.1 == directive_at(s@, pos as int).frontier,
        match directive_at(s@, pos as int).found {
            Some((args, end)) => r.0 matches Some((list, e)) && texts_of(list@) == args && e == end
                && pos < e <= s.len(),
            None => r.0 is None,
        },
{
    if pos >= s.len() || !triple_is(s, pos, 's' as u8, 'e' as u8, 't' as u8) {
        return (None, Frontier::start().note(pos, Rule::SetKeyword));
    }
    let mut args: Vec<String> = Vec::new();
    let mut cur: usize = pos + 3;
    let seen = Frontier::start();
    assert(texts_of(args@) =~= Seq::<Seq<char>>::empty());
    loop
        invariant
            pos < cur <= s.len(),
            seen == Frontier::none(),
            directive_at(s@, pos as int) == arguments_at(s@, cur as int, texts_of(args@), seen),
        decreases s.len() - cur,
    {
        let start = skip_blanks(s, cur);
        let end = read_identifier(s, start);
        if start == cur || end == start {
            let frontier = if start == cur {
                seen.note(cur, Rule::Separator)
            } else {
                seen.note(start, Rule::Identifier)
            };
            if args.len() > 0 {
                return (Some((args, cur)), frontier);
            } else {
                return (None, frontier);
            }
        }
        let mut arg = String::new();
        push_ascii(&mut arg, s, start, end);
        proof {
            assert(arg@ =~= chars_of(s@.subrange(start as int, end as int)));
            assert(texts_of(args@.push(arg)) =~= texts_of(args@).push(arg@));
        }
        args.push(arg);
        cur = end;
    }
}

/// Reads the command that starts at `pos`.
pub fn parse_command(s: &[u8], pos: usize) -> (r: (Option<(ParsedLine, usize)>, Frontier))
    ensures
        r.1 == command_at(s@, pos as int).frontier,
        match command_at(s@, pos as int).found {
            Some((parsed, end)) => r.0 matches Some((p, e)) && p@ == parsed && e == end && pos < e
                <= s.len(),
            None => r.0 is None,
        },
{
    let (directive, noted) = parse_directive(s, pos);
    match directive {
        Some((args, end)) => {
            return (Some((ParsedLine::Directive(args), end)), noted);
        },
        None => {},
    }
    let (chain, more) = parse_chain(s, pos);
    let frontier = noted.merge(more);
    let (expr, end) = match chain {
        Some(found) => found,
        None => {
            return (None, frontier);
        },
    };
    let (conversion, last) = parse_conversion(s, end);
    let frontier = frontier.merge(last);
    match conversion {
        Some((radix, after)) => (Some((ParsedLine::Conversion(expr, radix), after)), frontier),
        None => (Some((ParsedLine::Chain(expr), end)), frontier),
    }
}

/// Reads a whole line.
pub fn parse(s: &[u8]) -> (r: Result<ParsedLine, SyntaxError>)
    ensures
        match line(s@) {
            Ok(parsed) => r matches Ok(p) && p@ == parsed,
            Err(frontier) => r matches Err(e) && e.offset == frontier.offset && e.expected@
                == frontier.expected.listed(),
        },
{
    let start = skip_blanks(s, 0);
    let (command, frontier) = parse_command(s, start);
    match command {
        Some((parsed, end)) => {
            let rest = skip_blanks(s, end);
            if rest == s.len() {
                Ok(parsed)
            } else {
                Err(frontier.note(rest, Rule::EndOfInput).into_error())
            }
        },
        None => {
            if start == s.len() {
                Ok(ParsedLine::Empty)
            } else {
                Err(frontier.note(start, Rule::EndOfInput).into_error())
            }
        },
    }
}

} // verus!
