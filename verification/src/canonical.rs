//! Every expression can be written down: with each operand of an operation
//! in parentheses, its text is read as the expression itself. Numbers are
//! written in decimal; a negative number has no literal, so an expression
//! that holds one is left out.

use vstd::prelude::*;
use crate::climber::{is_split, lemma_tree_split, tree_of, PrecedenceTable};
use crate::codec::bytes_of;
use crate::expression::{
    binary,
    command_of,
    expr_of_chain,
    expr_of_term,
    exprs_of,
    operators_of,
    Expr,
    Meaning,
    Op,
    Refusal,
};
use crate::format::digits;
use crate::frontier::Frontier;
use crate::grammar::{
    chain_at,
    chain_rest,
    command_at,
    conversion_at,
    directive_at,
    line,
    term_at,
    Chain,
    Parsed,
    Term,
};
use crate::tokens::{
    digit_run,
    is_literal_byte,
    is_space,
    literal_at,
    number_at,
    operator_at,
    skip_spaces,
};

verus! {

/// Whether no number in `expr` is negative.
pub open spec fn is_writable(expr: Expr) -> bool
    decreases expr,
{
    match expr {
        Expr::Num(n) => n >= 0,
        Expr::Ans => true,
        Expr::BinOp(node) => is_writable(*node.left) && is_writable(*node.right),
    }
}

/// The bytes of an operator.
pub open spec fn symbol_bytes(op: Op) -> Seq<u8> {
    match op {
        Op::Add => seq!['+' as u8],
        Op::Sub => seq!['-' as u8],
        Op::Mul => seq!['*' as u8],
        Op::Div => seq!['/' as u8],
        Op::Rem => seq!['%' as u8],
        Op::And => seq!['&' as u8],
        Op::Or => seq!['|' as u8],
        Op::Xor => seq!['^' as u8],
        Op::LShift => seq!['<' as u8, '<' as u8],
        Op::RShift => seq!['>' as u8, '>' as u8],
    }
}

/// The text of an expression: a number in decimal, the word `ans`, or both
/// operands of an operation in parentheses with the operator between them.
pub open spec fn written(expr: Expr) -> Seq<u8>
    decreases expr,
{
    match expr {
        Expr::Num(n) => bytes_of(digits(n as nat, 10)),
        Expr::Ans => seq!['a' as u8, 'n' as u8, 's' as u8],
        Expr::BinOp(node) => seq!['(' as u8] + written(*node.left) + seq![')' as u8]
            + symbol_bytes(node.op) + seq!['(' as u8] + written(*node.right) + seq![')' as u8],
    }
}

/// The chain that the text of an expression is read as.
pub open spec fn chain_of(expr: Expr) -> Chain
    decreases expr,
{
    match expr {
        Expr::Num(n) => Chain::First(Term::Number(Some(n))),
        Expr::Ans => Chain::First(Term::Ans),
        Expr::BinOp(node) => Chain::Then(
            Box::new(Chain::First(Term::Group(Box::new(chain_of(*node.left))))),
            node.op,
            Term::Group(Box::new(chain_of(*node.right))),
        ),
    }
}

/// Whether the text of `expr` stands in `s` at `pos` and is followed by the
/// end of the line or a closing parenthesis.
pub open spec fn stands_at(s: Seq<u8>, pos: int, expr: Expr) -> bool {
    let end = pos + written(expr).len();
    &&& 0 <= pos
    &&& end <= s.len()
    &&& s.subrange(pos, end) == written(expr)
    &&& (end == s.len() || s[end] == ')' as u8)
}

/// A run of digits and separators ends where the first other byte stands.
proof fn lemma_digit_run_stops(s: Seq<u8>, pos: int, end: int, base: int)
    requires
        0 <= pos <= end <= s.len(),
        forall|i: int| pos <= i < end ==> is_literal_byte(#[trigger] s[i], base),
        end == s.len() || !is_literal_byte(s[end], base),
    ensures
        digit_run(s, pos, base) == end,
    decreases end - pos,
{
    if pos < end {
        lemma_digit_run_stops(s, pos + 1, end, base);
    }
}

/// A number that is written in decimal is read as that number.
proof fn lemma_written_number(s: Seq<u8>, pos: int, n: i64)
    requires
        n >= 0,
        stands_at(s, pos, Expr::Num(n)),
    ensures
        written(Expr::Num(n)).len() > 0,
        number_at(s, pos) == Some((Some(n), pos + written(Expr::Num(n)).len())),
        '0' as u8 <= s[pos] <= '9' as u8,
{
    let text = written(Expr::Num(n));
    let end = pos + text.len();
    crate::codec::lemma_decimal(n);
    assert forall|i: int| pos <= i < end implies is_literal_byte(#[trigger] s[i], 10) by {
        assert(s[i] == s.subrange(pos, end)[i - pos]);
    }
    assert(s[pos] == text[0]);
    if pos + 1 < end {
        assert(is_literal_byte(s[pos + 1], 10));
    }
    lemma_digit_run_stops(s, pos + 1, end, 10);
}

/// An operator that is written is read as that operator.
proof fn lemma_written_operator(s: Seq<u8>, pos: int, op: Op)
    requires
        0 <= pos,
        pos + symbol_bytes(op).len() <= s.len(),
        s.subrange(pos, pos + symbol_bytes(op).len()) == symbol_bytes(op),
    ensures
        operator_at(s, pos) == Some((op, pos + symbol_bytes(op).len())),
        !is_space(s[pos]),
{
    let text = symbol_bytes(op);
    assert(s[pos] == s.subrange(pos, pos + text.len())[0]);
    if text.len() == 2 {
        assert(s[pos + 1] == s.subrange(pos, pos + text.len())[1]);
    }
}

/// The parts of the text of an operation stand where they are written.
proof fn lemma_written_parts(s: Seq<u8>, pos: int, left: Expr, op: Op, right: Expr)
    requires
        stands_at(s, pos, binary(left, op, right)),
    ensures
        ({
            let p2 = pos + 1 + written(left).len();
            let p4 = p2 + 1 + symbol_bytes(op).len();
            let p6 = p4 + 1 + written(right).len();
            &&& s[pos] == '(' as u8
            &&& stands_at(s, pos + 1, left)
            &&& s[p2] == ')' as u8
            &&& s.subrange(p2 + 1, p4) == symbol_bytes(op)
            &&& s[p4] == '(' as u8
            &&& stands_at(s, p4 + 1, right)
            &&& s[p6] == ')' as u8
            &&& p6 + 1 == pos + written(binary(left, op, right)).len()
        }),
{
    let l = written(left);
    let sign = symbol_bytes(op);
    let r = written(right);
    let text = written(binary(left, op, right));
    let end = pos + text.len();
    let p1 = pos + 1;
    let p2 = p1 + l.len();
    let p3 = p2 + 1;
    let p4 = p3 + sign.len();
    let p5 = p4 + 1;
    let p6 = p5 + r.len();
    assert(text == seq!['(' as u8] + l + seq![')' as u8] + sign + seq!['(' as u8] + r + seq![
        ')' as u8,
    ]);
    assert(text.len() == l.len() + sign.len() + r.len() + 4);
    assert forall|i: int| 0 <= i < text.len() implies s[pos + i] == #[trigger] text[i] by {
        assert(s.subrange(pos, end)[i] == s[pos + i]);
    }
    assert(text[0] == '(' as u8);
    assert(text[p2 - pos] == ')' as u8);
    assert(text[p4 - pos] == '(' as u8);
    assert(text[p6 - pos] == ')' as u8);
    assert(s.subrange(p1, p2) =~= l) by {
        assert forall|j: int| 0 <= j < l.len() implies s.subrange(p1, p2)[j] == l[j] by {
            assert(text[1 + j] == l[j]);
        }
    }
    assert(s.subrange(p3, p4) =~= sign) by {
        assert forall|j: int| 0 <= j < sign.len() implies s.subrange(p3, p4)[j] == sign[j] by {
            assert(text[(p3 - pos) + j] == sign[j]);
        }
    }
    assert(s.subrange(p5, p6) =~= r) by {
        assert forall|j: int| 0 <= j < r.len() implies s.subrange(p5, p6)[j] == r[j] by {
            assert(text[(p5 - pos) + j] == r[j]);
        }
    }
}

/// A chain in parentheses, without blanks, is read as a group.
proof fn lemma_written_group(s: Seq<u8>, pos: int, chain: Chain, end: int)
    requires
        0 <= pos < end < s.len(),
        s[pos] == '(' as u8,
        !is_space(s[pos + 1]),
        chain_at(s, pos + 1).found == Some((chain, end)),
        s[end] == ')' as u8,
    ensures
        term_at(s, pos).found == Some((Term::Group(Box::new(chain)), end + 1)),
{
    assert(literal_at(s, pos) is None);
    assert(skip_spaces(s, pos + 1) == pos + 1);
    assert(skip_spaces(s, end) == end);
}

/// Two groups with an operator between them, without blanks, are read as
/// a chain of two operands.
proof fn lemma_written_pair(s: Seq<u8>, pos: int, first: Term, mid: int, op: Op, open: int, second: Term, end: int)
    requires
        0 <= pos < mid < open < end <= s.len(),
        term_at(s, pos).found == Some((first, mid)),
        !is_space(s[mid]),
        operator_at(s, mid) == Some((op, open)),
        !is_space(s[open]),
        term_at(s, open).found == Some((second, end)),
        end == s.len() || s[end] == ')' as u8,
    ensures
        chain_at(s, pos).found == Some(
            (Chain::Then(Box::new(Chain::First(first)), op, second), end),
        ),
{
    let whole = Chain::Then(Box::new(Chain::First(first)), op, second);
    let seen = term_at(s, pos).frontier.join(term_at(s, open).frontier);
    assert(skip_spaces(s, mid) == mid);
    assert(skip_spaces(s, open) == open);
    assert(skip_spaces(s, end) == end);
    assert(operator_at(s, end) is None);
    assert(chain_rest(s, end, whole, seen).found == Some((whole, end)));
    assert(chain_rest(s, mid, Chain::First(first), term_at(s, pos).frontier).found == Some(
        (whole, end),
    ));
}

/// The text of an expression, wherever it stands, is read as the chain of
/// the expression, from its first byte to its last.
proof fn lemma_written_chain(s: Seq<u8>, pos: int, expr: Expr)
    requires
        is_writable(expr),
        stands_at(s, pos, expr),
    ensures
        written(expr).len() > 0,
        chain_at(s, pos).found == Some((chain_of(expr), pos + written(expr).len())),
        !is_space(s[pos]),
        s[pos] != 's' as u8,
    decreases expr,
{
    let end = pos + written(expr).len();
    match expr {
        Expr::Num(n) => {
            lemma_written_number(s, pos, n);
            let term = Term::Number(Some(n));
            assert(term_at(s, pos).found == Some((term, end)));
            assert(skip_spaces(s, end) == end);
            assert(operator_at(s, end) is None);
        },
        Expr::Ans => {
            assert(s[pos] == s.subrange(pos, end)[0]);
            assert(s[pos + 1] == s.subrange(pos, end)[1]);
            assert(s[pos + 2] == s.subrange(pos, end)[2]);
            assert(literal_at(s, pos) is None);
            assert(term_at(s, pos).found == Some((Term::Ans, end)));
            assert(skip_spaces(s, end) == end);
            assert(operator_at(s, end) is None);
        },
        Expr::BinOp(node) => {
            let l = *node.left;
            let r = *node.right;
            assert(expr == binary(l, node.op, r));
            let p2 = pos + 1 + written(l).len();
            let p3 = p2 + 1;
            let p4 = p3 + symbol_bytes(node.op).len();
            let p6 = p4 + 1 + written(r).len();
            lemma_written_parts(s, pos, l, node.op, r);
            lemma_written_chain(s, pos + 1, l);
            lemma_written_operator(s, p3, node.op);
            lemma_written_chain(s, p4 + 1, r);
            lemma_written_group(s, pos, chain_of(l), p2);
            lemma_written_group(s, p4, chain_of(r), p6);
            lemma_written_pair(
                s,
                pos,
                Term::Group(Box::new(chain_of(l))),
                p3,
                node.op,
                p4,
                Term::Group(Box::new(chain_of(r))),
                end,
            );
        },
    }
}

/// The chain of an expression stands for the expression.
proof fn lemma_chain_expr(expr: Expr, table: PrecedenceTable)
    requires
        is_writable(expr),
    ensures
        expr_of_chain(chain_of(expr), table) == Some(expr),
    decreases expr,
{
    match expr {
        Expr::Num(n) => {
            assert(operators_of(chain_of(expr)) =~= Seq::empty());
        },
        Expr::Ans => {
            assert(operators_of(chain_of(expr)) =~= Seq::empty());
        },
        Expr::BinOp(node) => {
            let l = *node.left;
            let r = *node.right;
            lemma_chain_expr(l, table);
            lemma_chain_expr(r, table);
            let first = Chain::First(Term::Group(Box::new(chain_of(l))));
            assert(expr_of_term(Term::Group(Box::new(chain_of(l))), table) == Some(l));
            assert(expr_of_term(Term::Group(Box::new(chain_of(r))), table) == Some(r));
            assert(exprs_of(first, table) == Some(seq![l]));
            assert(operators_of(first) =~= Seq::empty());
            let operands = seq![l].push(r);
            let ops = Seq::<Op>::empty().push(node.op);
            assert(exprs_of(chain_of(expr), table) == Some(operands));
            assert(operators_of(chain_of(expr)) == ops);
            assert(is_split(ops, table, 0));
            lemma_tree_split(operands, ops, table, 0);
            assert(operands.take(1)[0] == l);
            assert(operands.skip(1)[0] == r);
            assert(ops.take(0).len() == 0);
            assert(ops.skip(1).len() == 0);
            assert(tree_of(operands, ops, table) == binary(l, node.op, r));
        },
    }
}

/// An expression without negative numbers, written with each operand of an
/// operation in parentheses, is read as the expression itself.
pub proof fn lemma_reads_written(expr: Expr)
    requires
        is_writable(expr),
    ensures
        command_of(written(expr)) == Ok::<Meaning, Refusal>(Meaning::Expr(expr)),
{
    let s = written(expr);
    let n = s.len() as int;
    assert(s.subrange(0, n) =~= s);
    lemma_written_chain(s, 0, expr);
    lemma_chain_expr(expr, PrecedenceTable::standard_levels());
    assert(skip_spaces(s, 0) == 0);
    assert(skip_spaces(s, n) == n);
    assert(directive_at(s, 0).found is None);
    assert(conversion_at(s, n).found is None);
    assert(command_at(s, 0).found == Some((Parsed::Chain(chain_of(expr)), n)));
    assert(line(s) == Ok::<Parsed, Frontier>(Parsed::Chain(chain_of(expr))));
}

} // verus!
