use cork::error::CorkError;
use cork::expression::{parse_line, Command, Expr, SetDirective};
use cork::frontier::{Frontier, Rule, RuleSet, SyntaxError};
use cork::grammar::{parse, parse_chain, parse_term, Chain, ParsedLine, Term};
use cork::expression::Op;
use cork::format::FormatRadix;
use cork::tokens::{
    parse_radix, read_identifier, read_literal, read_number, read_operator, skip_blanks,
};
use cork::literal::Radix;

fn refused(line: &str, offset: usize, expected: Vec<Rule>) {
    assert_eq!(
        parse_line(line),
        Err(CorkError::Parse(SyntaxError { offset, expected })),
        "line {:?}",
        line
    );
}

fn directive(args: &[&str]) -> Command {
    Command::Setting(SetDirective {
        args: args.iter().map(|a| a.to_string()).collect(),
    })
}

#[test]
fn blank_lines_are_empty() {
    assert_eq!(parse_line(""), Ok(Command::Empty));
    assert_eq!(parse_line(" "), Ok(Command::Empty));
    assert_eq!(parse_line("      "), Ok(Command::Empty));
    assert_eq!(parse_line("\t"), Ok(Command::Empty));
    assert_eq!(parse_line(" \t \t"), Ok(Command::Empty));
}

#[test]
fn blanks_around_tokens_do_not_count() {
    assert_eq!(parse_line("  7  "), Ok(Command::Expr(Expr::Num(7))));
    assert_eq!(parse_line("\t7\t"), Ok(Command::Expr(Expr::Num(7))));
    assert_eq!(parse_line("(  7  )"), Ok(Command::Expr(Expr::Num(7))));
    assert_eq!(parse_line("1+2"), parse_line("1 + 2"));
    assert_eq!(parse_line("1\t+\t2"), parse_line("1 + 2"));
    assert_eq!(parse_line("( 1+2 )*3"), parse_line("(1 + 2) * 3"));
}

#[test]
fn token_expected_where_the_line_goes_wrong() {
    refused(
        "xyz",
        0,
        vec![
            Rule::SetKeyword,
            Rule::Number,
            Rule::Ans,
            Rule::OpenParen,
            Rule::EndOfInput,
        ],
    );
    refused("5 +", 3, vec![Rule::Number, Rule::Ans, Rule::OpenParen]);
    refused("5 + ", 4, vec![Rule::Number, Rule::Ans, Rule::OpenParen]);
    refused("5 5", 2, vec![Rule::Operator, Rule::To, Rule::EndOfInput]);
    refused(
        "5x",
        1,
        vec![Rule::Separator, Rule::Operator, Rule::EndOfInput],
    );
    refused("1 + + 2", 4, vec![Rule::Number, Rule::Ans, Rule::OpenParen]);
    refused(
        "answer",
        3,
        vec![Rule::Separator, Rule::Operator, Rule::EndOfInput],
    );
    refused(
        "0x",
        1,
        vec![Rule::Separator, Rule::Operator, Rule::EndOfInput],
    );
    refused(
        "0b2",
        1,
        vec![Rule::Separator, Rule::Operator, Rule::EndOfInput],
    );
    refused(
        "12ab",
        2,
        vec![Rule::Separator, Rule::Operator, Rule::EndOfInput],
    );
}

#[test]
fn parentheses_must_close() {
    refused("(5 + 6", 6, vec![Rule::CloseParen, Rule::Operator]);
    refused("(5 + 6 ", 7, vec![Rule::CloseParen, Rule::Operator]);
    refused("1 + (2 * 3", 10, vec![Rule::CloseParen, Rule::Operator]);
    refused("()", 1, vec![Rule::Number, Rule::Ans, Rule::OpenParen]);
    refused("(", 1, vec![Rule::Number, Rule::Ans, Rule::OpenParen]);
    refused(
        "(1))",
        3,
        vec![Rule::Separator, Rule::Operator, Rule::EndOfInput],
    );
    refused(
        ")",
        0,
        vec![
            Rule::SetKeyword,
            Rule::Number,
            Rule::Ans,
            Rule::OpenParen,
            Rule::EndOfInput,
        ],
    );
    assert_eq!(parse_line("((((7))))"), Ok(Command::Expr(Expr::Num(7))));
}

#[test]
fn conversion_needs_blanks_and_a_radix() {
    refused("(5 + 6) * 2 to nonex", 15, vec![Rule::Radix]);
    refused("(5 + 6) * 2 to decimal", 18, vec![Rule::EndOfInput]);
    refused("5 to", 4, vec![Rule::Separator]);
    refused("5 to ", 5, vec![Rule::Radix]);
    refused("5 tohex", 4, vec![Rule::Separator]);
    refused(
        "5to hex",
        1,
        vec![Rule::Separator, Rule::Operator, Rule::EndOfInput],
    );
    refused("5 to hexa", 8, vec![Rule::EndOfInput]);
    refused("5 to hex dec", 9, vec![Rule::EndOfInput]);
    refused("5 to HEX", 5, vec![Rule::Radix]);
    assert!(parse_line("5   to\t hex  ").is_ok());
    assert!(parse_line("(5)to hex").is_err());
}

#[test]
fn directive_takes_identifiers() {
    assert_eq!(parse_line("set of hex"), Ok(directive(&["of", "hex"])));
    assert_eq!(parse_line("set of"), Ok(directive(&["of"])));
    assert_eq!(parse_line("  set of  hex  "), Ok(directive(&["of", "hex"])));
    assert_eq!(parse_line("set\tof\thex"), Ok(directive(&["of", "hex"])));
    assert_eq!(
        parse_line("set a b_1 C3 d"),
        Ok(directive(&["a", "b_1", "C3", "d"]))
    );
    assert_eq!(parse_line("set set"), Ok(directive(&["set"])));
    assert_eq!(parse_line("set ans to hex"), Ok(directive(&["ans", "to", "hex"])));
    refused("set", 3, vec![Rule::Separator]);
    refused("set ", 4, vec![Rule::Identifier]);
    refused("set 5", 4, vec![Rule::Identifier]);
    refused("set _x", 4, vec![Rule::Identifier]);
    refused("settle", 3, vec![Rule::Separator]);
    refused("set of, hex", 6, vec![Rule::Separator, Rule::EndOfInput]);
    refused("set of hex!", 10, vec![Rule::Separator, Rule::EndOfInput]);
    refused("set of 16", 7, vec![Rule::Identifier, Rule::EndOfInput]);
}

#[test]
fn bytes_beyond_ascii_are_no_tokens() {
    refused(
        "é",
        0,
        vec![
            Rule::SetKeyword,
            Rule::Number,
            Rule::Ans,
            Rule::OpenParen,
            Rule::EndOfInput,
        ],
    );
    refused("5 é", 2, vec![Rule::Operator, Rule::To, Rule::EndOfInput]);
    refused("5 + é", 4, vec![Rule::Number, Rule::Ans, Rule::OpenParen]);
    refused("set é", 4, vec![Rule::Identifier]);
    refused("5 to é", 5, vec![Rule::Radix]);
    // A blank that is not a space or a tab is no blank.
    refused(
        "5\u{a0}+ 1",
        1,
        vec![Rule::Separator, Rule::Operator, Rule::EndOfInput],
    );
    refused(
        "5\n",
        1,
        vec![Rule::Separator, Rule::Operator, Rule::EndOfInput],
    );
}

#[test]
fn chain_is_read_from_left_to_right() {
    let expected = Chain::Then(
        Box::new(Chain::Then(
            Box::new(Chain::First(Term::Number(Some(1)))),
            Op::Add,
            Term::Group(Box::new(Chain::Then(
                Box::new(Chain::First(Term::Ans)),
                Op::LShift,
                Term::Number(Some(2)),
            ))),
        )),
        Op::Mul,
        Term::Number(None),
    );
    assert_eq!(
        parse(b"1 + (ans << 2) * 99999999999999999999"),
        Ok(ParsedLine::Chain(expected))
    );
    assert_eq!(
        parse(b"7 to oct"),
        Ok(ParsedLine::Conversion(
            Chain::First(Term::Number(Some(7))),
            FormatRadix::Octal
        ))
    );
    assert_eq!(parse(b"  "), Ok(ParsedLine::Empty));
    assert_eq!(
        parse(b"set x"),
        Ok(ParsedLine::Directive(vec![String::from("x")]))
    );
    assert_eq!(
        parse(b"7 7"),
        Err(SyntaxError {
            offset: 2,
            expected: vec![Rule::Operator, Rule::To, Rule::EndOfInput]
        })
    );
}

#[test]
fn term_and_chain_by_themselves() {
    let (found, frontier) = parse_term(b"ans+", 0);
    assert_eq!(found, Some((Term::Ans, 3)));
    assert_eq!(frontier, Frontier { offset: 0, expected: RuleSet::empty() });
    let (found, frontier) = parse_term(b"  7", 0);
    assert_eq!(found, None);
    assert_eq!(
        frontier.into_error(),
        SyntaxError { offset: 0, expected: vec![Rule::Number, Rule::Ans, Rule::OpenParen] }
    );
    let (found, frontier) = parse_chain(b"1 * 2 )", 0);
    assert_eq!(
        found,
        Some((
            Chain::Then(
                Box::new(Chain::First(Term::Number(Some(1)))),
                Op::Mul,
                Term::Number(Some(2))
            ),
            5
        ))
    );
    assert_eq!(
        frontier.into_error(),
        SyntaxError { offset: 6, expected: vec![Rule::Operator] }
    );
}

#[test]
fn tokens_by_themselves() {
    assert_eq!(skip_blanks(b"  \t x", 0), 4);
    assert_eq!(skip_blanks(b"x", 0), 0);
    assert_eq!(skip_blanks(b"  ", 1), 2);
    assert_eq!(read_literal(b"0x1F_ +", 0), Some((Radix::Hex, 5)));
    assert_eq!(read_literal(b"0o17", 0), Some((Radix::Oct, 4)));
    assert_eq!(read_literal(b"0b1012", 0), Some((Radix::Bin, 5)));
    assert_eq!(read_literal(b"0b", 0), Some((Radix::Dec, 1)));
    assert_eq!(read_literal(b"12_3a", 0), Some((Radix::Dec, 4)));
    assert_eq!(read_literal(b"_12", 0), None);
    assert_eq!(read_literal(b"x", 0), None);
    assert_eq!(read_literal(b"", 0), None);
    assert_eq!(read_number(b"a 0xff", 2), Some((Some(255), 6)));
    assert_eq!(read_number(b"99999999999999999999", 0), Some((None, 20)));
    assert_eq!(read_operator(b"<<", 0), Some((Op::LShift, 2)));
    assert_eq!(read_operator(b">>", 0), Some((Op::RShift, 2)));
    assert_eq!(read_operator(b"<", 0), None);
    assert_eq!(read_operator(b">", 0), None);
    assert_eq!(read_operator(b"+", 0), Some((Op::Add, 1)));
    assert_eq!(read_operator(b"-", 0), Some((Op::Sub, 1)));
    assert_eq!(read_operator(b"*", 0), Some((Op::Mul, 1)));
    assert_eq!(read_operator(b"/", 0), Some((Op::Div, 1)));
    assert_eq!(read_operator(b"%", 0), Some((Op::Rem, 1)));
    assert_eq!(read_operator(b"&", 0), Some((Op::And, 1)));
    assert_eq!(read_operator(b"|", 0), Some((Op::Or, 1)));
    assert_eq!(read_operator(b"^", 0), Some((Op::Xor, 1)));
    assert_eq!(read_operator(b"1+", 1), Some((Op::Add, 2)));
    assert_eq!(read_identifier(b"abc_1 x", 0), 5);
    assert_eq!(read_identifier(b"1abc", 0), 0);
    assert_eq!(read_identifier(b"", 0), 0);
    assert_eq!(parse_radix(b"dec", 0), Some(FormatRadix::Decimal));
    assert_eq!(parse_radix(b"oct", 0), Some(FormatRadix::Octal));
    assert_eq!(parse_radix(b"hex", 0), Some(FormatRadix::Hex));
    assert_eq!(parse_radix(b"bin", 0), Some(FormatRadix::Binary));
    assert_eq!(parse_radix(b"de", 0), None);
    assert_eq!(parse_radix(b"to hex", 3), Some(FormatRadix::Hex));
}

#[test]
fn rule_sets() {
    let set = RuleSet::empty().insert(Rule::Radix).insert(Rule::Ans);
    assert!(set.contains(Rule::Radix));
    assert!(set.contains(Rule::Ans));
    assert!(!set.contains(Rule::To));
    assert_eq!(set.to_vec(), vec![Rule::Ans, Rule::Radix]);
    let other = RuleSet::empty().insert(Rule::SetKeyword);
    assert_eq!(
        set.merged(other).to_vec(),
        vec![Rule::SetKeyword, Rule::Ans, Rule::Radix]
    );
    assert_eq!(RuleSet::empty().to_vec(), vec![]);
    let all = [
        Rule::SetKeyword,
        Rule::Identifier,
        Rule::Separator,
        Rule::Number,
        Rule::Ans,
        Rule::OpenParen,
        Rule::CloseParen,
        Rule::Operator,
        Rule::To,
        Rule::Radix,
        Rule::EndOfInput,
    ];
    let mut full = RuleSet::empty();
    for rule in all {
        assert_eq!(RuleSet::empty().insert(rule).to_vec(), vec![rule]);
        full = full.insert(rule);
    }
    assert_eq!(full.to_vec(), all.to_vec());
}

#[test]
fn further_frontier_wins() {
    let near = Frontier::start().note(3, Rule::Operator);
    let far = Frontier::start().note(7, Rule::Radix);
    assert_eq!(near.merge(far), far);
    assert_eq!(far.merge(near), far);
    let same = Frontier::start().note(7, Rule::EndOfInput);
    assert_eq!(
        far.merge(same).into_error(),
        SyntaxError { offset: 7, expected: vec![Rule::Radix, Rule::EndOfInput] }
    );
    assert_eq!(
        Frontier::start().note(0, Rule::Ans).into_error(),
        SyntaxError { offset: 0, expected: vec![Rule::Ans] }
    );
}
