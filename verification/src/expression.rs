//! The expressions and commands of the calculator.

use vstd::prelude::*;
use vstd::string::{StringExecFns, StringSliceAdditionalSpecFns};
use vstd::utf8::{encode_utf8_valid_utf8, is_char_boundary};
use crate::climber::{climb_stack, tree_of, PrecedenceTable};
use crate::error::CorkError;
use crate::expression::eval::{eval_expr, is_outcome, value_of};
use crate::format::FormatRadix;
use crate::frontier::Frontier;
use crate::grammar::{line, parse, texts_of, Chain, Parsed, ParsedLine, Term};
use crate::literal::NumericError;
use crate::reach::lemma_error_boundary;
use crate::text::same_text;

pub mod eval;

verus! {

/// A binary operator.
#[derive(Clone, Copy, Debug, PartialEq, Eq, Structural)]
pub enum Op {
    Add,
    Sub,
    Mul,
    Div,
    Rem,
    And,
    Or,
    Xor,
    LShift,
    RShift,
}

/// An expression: a binary operation on two expressions, a number, or the
/// result of the last evaluation.
#[derive(Debug, PartialEq, Eq)]
pub enum Expr {
    BinOp(BinOpExpr),
    Num(i64),
    Ans,
}

/// Two operands and the operator between them.
#[derive(Debug, PartialEq, Eq)]
pub struct BinOpExpr {
    pub left: Box<Expr>,
    pub right: Box<Expr>,
    pub op: Op,
}

/// The operation `op` on `left` and `right`.
pub open spec fn binary(left: Expr, op: Op, right: Expr) -> Expr {
    Expr::BinOp(BinOpExpr { left: Box::new(left), right: Box::new(right), op })
}

/// A text that is no operator.
#[derive(Debug)]
pub struct ParseOpError(pub String);

impl Op {
    /// How the operator is written.
    pub open spec fn symbol(self) -> Seq<char> {
        match self {
            Op::Add => "+"@,
            Op::Sub => "-"@,
            Op::Mul => "*"@,
            Op::Div => "/"@,
            Op::Rem => "%"@,
            Op::And => "&"@,
            Op::Or => "|"@,
            Op::Xor => "^"@,
            Op::LShift => "<<"@,
            Op::RShift => ">>"@,
        }
    }

    /// The operator that is written as `s`.
    pub fn from_str(s: &str) -> (r: Result<Op, ParseOpError>)
        ensures
            match r {
                Ok(op) => s@ == op.symbol(),
                Err(e) => e.0@ == s@ + " is not an Op"@ && forall|op: Op| s@ != op.symbol(),
            },
    {
        if same_text(s, "+") {
            Ok(Op::Add)
        } else if same_text(s, "-") {
            Ok(Op::Sub)
        } else if same_text(s, "*") {
            Ok(Op::Mul)
        } else if same_text(s, "/") {
            Ok(Op::Div)
        } else if same_text(s, "%") {
            Ok(Op::Rem)
        } else if same_text(s, "&") {
            Ok(Op::And)
        } else if same_text(s, "|") {
            Ok(Op::Or)
        } else if same_text(s, "^") {
            Ok(Op::Xor)
        } else if same_text(s, "<<") {
            Ok(Op::LShift)
        } else if same_text(s, ">>") {
            Ok(Op::RShift)
        } else {
            Err(ParseOpError(String::from_str(s).concat(" is not an Op")))
        }
    }
}

impl core::str::FromStr for Op {
    type Err = ParseOpError;

    /// The operator that is written as `s`, as `Op::from_str` gives it.
    fn from_str(s: &str) -> (r: Result<Op, ParseOpError>)
        ensures
            match r {
                Ok(op) => s@ == op.symbol(),
                Err(e) => e.0@ == s@ + " is not an Op"@ && forall|op: Op| s@ != op.symbol(),
            },
    {
        Op::from_str(s)
    }
}

/// A command of the form `set` with arguments.
#[derive(Debug, PartialEq, Eq)]
pub struct SetDirective {
    pub args: Vec<String>,
}

/// A command of the form expression, `to`, radix.
#[derive(Debug, PartialEq, Eq)]
pub struct ConvDirective {
    pub expr: Expr,
    pub radix: FormatRadix,
}

/// One line of input: an expression, a directive, or nothing.
#[derive(Debug, PartialEq, Eq)]
pub enum Command {
    Expr(Expr),
    Setting(SetDirective),
    Convert(ConvDirective),
    Empty,
}

/// What a command says, as contracts speak of it.
pub ghost enum Meaning {
    Expr(Expr),
    Setting(Seq<Seq<char>>),
    Convert(Expr, FormatRadix),
    Empty,
}

/// Why a line is no command, as contracts speak of it.
pub ghost enum Refusal {
    /// The line is not in the grammar; the frontier says where and why.
    Syntax(Frontier),
    /// A literal of the line has no value.
    Numeric,
}

impl SetDirective {
    /// How many arguments there are.
    pub fn len(&self) -> (r: usize)
        ensures
            r == self.args@.len(),
    {
        self.args.len()
    }

    /// The argument at `idx`, if there are that many.
    pub fn get(&self, idx: usize) -> (r: Option<&String>)
        ensures
            r == (if idx < self.args@.len() {
                Some(&self.args@[idx as int])
            } else {
                None
            }),
    {
        if idx < self.args.len() {
            Some(&self.args[idx])
        } else {
            None
        }
    }
}

/// The texts of `args` with one blank between each two.
pub open spec fn joined(args: Seq<Seq<char>>) -> Seq<char>
    decreases args.len(),
{
    if args.len() == 0 {
        Seq::empty()
    } else if args.len() == 1 {
        args[0]
    } else {
        joined(args.drop_last()) + seq![' '] + args.last()
    }
}

impl SetDirective {
    /// The directive as it is written: the word `set`, a blank, and the
    /// arguments with one blank between each two.
    pub fn text(&self) -> (r: String)
        ensures
            r@ == "set "@ + joined(texts_of(self.args@)),
    {
        let mut out = String::from_str("set ");
        let ghost args = texts_of(self.args@);
        let mut i: usize = 0;
        assert(args.take(0) =~= Seq::<Seq<char>>::empty());
        while i < self.args.len()
            invariant
                i <= self.args.len(),
                args == texts_of(self.args@),
                out@ == "set "@ + joined(args.take(i as int)),
            decreases self.args.len() - i,
        {
            let ghost before = out@;
            if i > 0 {
                out.push(' ');
            }
            out.append(self.args[i].as_str());
            proof {
                let upto = args.take(i + 1);
                assert(upto.drop_last() =~= args.take(i as int));
                assert(upto.last() == self.args@[i as int]@);
                if i == 0 {
                    assert(joined(upto) == upto[0]);
                    assert(joined(args.take(0)) =~= Seq::<char>::empty());
                    assert(out@ =~= "set "@ + joined(upto));
                } else {
                    assert(out@ =~= "set "@ + joined(upto));
                }
            }
            i += 1;
        }
        assert(args.take(i as int) =~= args);
        out
    }
}

impl ConvDirective {
    /// The directive in words.
    pub fn text(&self) -> (r: String)
        ensures
            r@ == "convert to "@ + self.radix.name_text(),
    {
        String::from_str("convert to ").concat(self.radix.name())
    }

    /// The value of the expression, with `ans` for the last result.
    pub fn value(&self, ans: i64) -> (r: Result<i64, CorkError>)
        ensures
            is_outcome(r, value_of(self.expr, ans)),
    {
        eval_expr(&self.expr, ans)
    }

    /// The radix to print the value in.
    pub fn radix(&self) -> (r: FormatRadix)
        ensures
            r == self.radix,
    {
        self.radix
    }
}

impl Command {
    /// What the command says.
    pub open spec fn view(&self) -> Meaning {
        match self {
            Command::Expr(expr) => Meaning::Expr(*expr),
            Command::Setting(directive) => Meaning::Setting(texts_of(directive.args@)),
            Command::Convert(conversion) => Meaning::Convert(conversion.expr, conversion.radix),
            Command::Empty => Meaning::Empty,
        }
    }
}

/// The operators of a chain, from left to right.
pub open spec fn operators_of(chain: Chain) -> Seq<Op>
    decreases chain,
{
    match chain {
        Chain::First(_) => Seq::empty(),
        Chain::Then(front, op, _) => operators_of(*front).push(op),
    }
}

/// The expression of a term: `None` where a literal in it has no value.
pub open spec fn expr_of_term(term: Term, table: PrecedenceTable) -> Option<Expr>
    decreases term,
{
    match term {
        Term::Number(Some(value)) => Some(Expr::Num(value)),
        Term::Number(None) => None,
        Term::Ans => Some(Expr::Ans),
        Term::Group(chain) => expr_of_chain(*chain, table),
    }
}

/// The expressions of the operands of a chain, from left to right: `None`
/// where a literal in one of them has no value.
pub open spec fn exprs_of(chain: Chain, table: PrecedenceTable) -> Option<Seq<Expr>>
    decreases chain, 0int,
{
    match chain {
        Chain::First(term) => match expr_of_term(term, table) {
            Some(expr) => Some(seq![expr]),
            None => None,
        },
        Chain::Then(front, _, term) => match (exprs_of(*front, table), expr_of_term(term, table)) {
            (Some(exprs), Some(expr)) => Some(exprs.push(expr)),
            _ => None,
        },
    }
}

/// The expression of a chain: the tree of its operands and operators by the
/// levels of `table`; `None` where a literal in it has no value.
pub open spec fn expr_of_chain(chain: Chain, table: PrecedenceTable) -> Option<Expr>
    decreases chain, 1int,
{
    match exprs_of(chain, table) {
        Some(exprs) => Some(tree_of(exprs, operators_of(chain), table)),
        None => None,
    }
}

/// What a line that the grammar accepts says: `None` where a literal in it
/// has no value.
pub open spec fn meaning_of(parsed: Parsed, table: PrecedenceTable) -> Option<Meaning> {
    match parsed {
        Parsed::Empty => Some(Meaning::Empty),
        Parsed::Directive(args) => Some(Meaning::Setting(args)),
        Parsed::Chain(chain) => match expr_of_chain(chain, table) {
            Some(expr) => Some(Meaning::Expr(expr)),
            None => None,
        },
        Parsed::Conversion(chain, radix) => match expr_of_chain(chain, table) {
            Some(expr) => Some(Meaning::Convert(expr, radix)),
            None => None,
        },
    }
}

/// What the line with the bytes `s` says, or why it says nothing. A line
/// outside the grammar is refused for that, whatever its literals are.
pub open spec fn command_of(s: Seq<u8>) -> Result<Meaning, Refusal> {
    match line(s) {
        Ok(parsed) => match meaning_of(parsed, PrecedenceTable::standard_levels()) {
            Some(meaning) => Ok(meaning),
            None => Err(Refusal::Numeric),
        },
        Err(frontier) => Err(Refusal::Syntax(frontier)),
    }
}

/// Whether `error` is the error that stands for `refusal`.
pub open spec fn is_refusal(error: CorkError, refusal: Refusal) -> bool {
    match refusal {
        Refusal::Numeric => error == CorkError::Numeric(NumericError::Malformed),
        Refusal::Syntax(frontier) => error matches CorkError::Parse(e) && e.offset
            == frontier.offset && e.expected@ == frontier.expected.listed(),
    }
}

/// Whether `r` is the result that stands for `wanted`.
pub open spec fn is_command(r: Result<Command, CorkError>, wanted: Result<Meaning, Refusal>) -> bool {
    match wanted {
        Ok(meaning) => r matches Ok(command) && command@ == meaning,
        Err(refusal) => r matches Err(error) && is_refusal(error, refusal),
    }
}

/// How many nodes a term has.
pub open spec fn term_size(term: Term) -> nat
    decreases term,
{
    match term {
        Term::Group(chain) => 1 + chain_size(*chain),
        _ => 1,
    }
}

/// How many nodes a chain has.
pub open spec fn chain_size(chain: Chain) -> nat
    decreases chain,
{
    match chain {
        Chain::First(term) => 1 + term_size(term),
        Chain::Then(front, _, term) => 1 + chain_size(*front) + term_size(term),
    }
}

/// The expression of one operand.
pub fn parse_term(term: Term, table: &PrecedenceTable) -> (r: Result<Expr, NumericError>)
    ensures
        r == (match expr_of_term(term, *table) {
            Some(expr) => Ok::<Expr, NumericError>(expr),
            None => Err(NumericError::Malformed),
        }),
    decreases term_size(term),
{
    match term {
        Term::Number(Some(value)) => Ok(Expr::Num(value)),
        Term::Number(None) => Err(NumericError::Malformed),
        Term::Ans => Ok(Expr::Ans),
        Term::Group(chain) => parse_expr(*chain, table),
    }
}

/// The expression of a chain: its operands become expressions, and the
/// operators are applied by their levels in `table`.
pub fn parse_expr(chain: Chain, table: &PrecedenceTable) -> (r: Result<Expr, NumericError>)
    ensures
        r == (match expr_of_chain(chain, *table) {
            Some(expr) => Ok::<Expr, NumericError>(expr),
            None => Err(NumericError::Malformed),
        }),
    decreases chain_size(chain),
{
    // The chain is taken apart from its right end, so the operands come out
    // last first: the first one ends up on top of the stack.
    let mut stack: Vec<Expr> = Vec::new();
    let mut ops_rev: Vec<Op> = Vec::new();
    let mut rest = chain;
    loop
        invariant
            chain_size(rest) <= chain_size(chain),
            stack.len() == ops_rev.len(),
            exprs_of(chain, *table) == (match exprs_of(rest, *table) {
                Some(front) => Some(front + stack@.reverse()),
                None => None,
            }),
            operators_of(chain) == operators_of(rest) + ops_rev@.reverse(),
        decreases chain_size(rest),
    {
        match rest {
            Chain::Then(front, op, term) => {
                let ghost before = stack@;
                let ghost ops_before = ops_rev@;
                let expr = match parse_term(term, table) {
                    Ok(expr) => expr,
                    Err(e) => {
                        return Err(e);
                    },
                };
                stack.push(expr);
                ops_rev.push(op);
                proof {
                    let exprs = exprs_of(*front, *table);
                    if exprs is Some {
                        assert(exprs.unwrap().push(expr) + before.reverse() =~= exprs.unwrap()
                            + stack@.reverse());
                    }
                    assert(operators_of(*front).push(op) + ops_before.reverse() =~= operators_of(
                        *front,
                    ) + ops_rev@.reverse());
                }
                rest = *front;
            },
            Chain::First(term) => {
                let ghost before = stack@;
                let expr = match parse_term(term, table) {
                    Ok(expr) => expr,
                    Err(e) => {
                        return Err(e);
                    },
                };
                stack.push(expr);
                let ops = reversed_ops(&ops_rev);
                proof {
                    assert(seq![expr] + before.reverse() =~= stack@.reverse());
                    assert(operators_of(chain) =~= ops@);
                }
                return Ok(climb_stack(stack, &ops, table));
            },
        }
    }
}

/// `list` with its items in the opposite order.
fn reversed_ops(list: &Vec<Op>) -> (r: Vec<Op>)
    ensures
        r@ == list@.reverse(),
{
    let mut r: Vec<Op> = Vec::new();
    let mut i: usize = list.len();
    while i > 0
        invariant
            i <= list.len(),
            r@.len() == list.len() - i,
            forall|k: int| 0 <= k < r@.len() ==> r@[k] == list@[list.len() - 1 - k],
        decreases i,
    {
        i -= 1;
        r.push(list[i]);
    }
    assert(r@ =~= list@.reverse());
    r
}

/// The command of a line that the grammar has accepted.
pub fn parse_comm(parsed: ParsedLine, table: &PrecedenceTable) -> (r: Result<Command, NumericError>)
    ensures
        match meaning_of(parsed@, *table) {
            Some(meaning) => r matches Ok(command) && command@ == meaning,
            None => r == Err::<Command, NumericError>(NumericError::Malformed),
        },
{
    match parsed {
        ParsedLine::Empty => Ok(Command::Empty),
        ParsedLine::Directive(args) => Ok(Command::Setting(SetDirective { args })),
        ParsedLine::Chain(chain) => match parse_expr(chain, table) {
            Ok(expr) => Ok(Command::Expr(expr)),
            Err(e) => Err(e),
        },
        ParsedLine::Conversion(chain, radix) => match parse_expr(chain, table) {
            Ok(expr) => Ok(Command::Convert(ConvDirective { expr, radix })),
            Err(e) => Err(e),
        },
    }
}

/// Reads one line of input: an expression, a conversion, a `set`
/// directive, or nothing. The offset of a syntax error is a byte offset
/// into `line` that lies between two of its characters.
pub fn parse_line(line: &str) -> (r: Result<Command, CorkError>)
    ensures
        is_command(r, command_of(line.spec_bytes())),
        r matches Err(CorkError::Parse(e)) ==> is_char_boundary(
            line.spec_bytes(),
            e.offset as int,
        ),
{
    proof {
        encode_utf8_valid_utf8(line@);
    }
    let bytes = line.as_bytes();
    proof {
        assert(bytes@.len() == bytes.len());
        lemma_error_boundary(bytes@);
    }
    let parsed = match parse(bytes) {
        Ok(parsed) => parsed,
        Err(e) => {
            return Err(CorkError::Parse(e));
        },
    };
    let table = PrecedenceTable::standard();
    match parse_comm(parsed, &table) {
        Ok(command) => Ok(command),
        Err(e) => Err(CorkError::Numeric(e)),
    }
}

} // verus!
