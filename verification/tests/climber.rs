use cork::climber::{climb, PrecedenceTable};
use cork::expression::eval::{apply_op, eval_expr};
use cork::expression::{parse_expr, parse_term, BinOpExpr, Expr, Op, ParseOpError};
use cork::grammar::{Chain, Term};
use cork::literal::NumericError;
use cork::error::CorkError;

fn node(left: Expr, op: Op, right: Expr) -> Expr {
    Expr::BinOp(BinOpExpr { left: Box::new(left), right: Box::new(right), op })
}

fn nums(values: &[i64]) -> Vec<Expr> {
    values.iter().map(|v| Expr::Num(*v)).collect()
}

#[test]
fn standard_table_has_six_levels() {
    let table = PrecedenceTable::standard();
    assert_eq!(table.level_of(Op::Or), 0);
    assert_eq!(table.level_of(Op::Xor), 1);
    assert_eq!(table.level_of(Op::And), 2);
    assert_eq!(table.level_of(Op::LShift), 3);
    assert_eq!(table.level_of(Op::RShift), 3);
    assert_eq!(table.level_of(Op::Add), 4);
    assert_eq!(table.level_of(Op::Sub), 4);
    assert_eq!(table.level_of(Op::Mul), 5);
    assert_eq!(table.level_of(Op::Div), 5);
    assert_eq!(table.level_of(Op::Rem), 5);
}

#[test]
fn single_operand_is_its_own_tree() {
    let table = PrecedenceTable::standard();
    assert_eq!(climb(nums(&[7]), &vec![], &table), Some(Expr::Num(7)));
}

#[test]
fn operand_count_must_fit() {
    let table = PrecedenceTable::standard();
    assert_eq!(climb(nums(&[]), &vec![], &table), None);
    assert_eq!(climb(nums(&[1, 2]), &vec![], &table), None);
    assert_eq!(climb(nums(&[1]), &vec![Op::Add], &table), None);
    assert_eq!(climb(nums(&[1, 2, 3]), &vec![Op::Add], &table), None);
}

#[test]
fn tighter_operator_goes_deeper() {
    let table = PrecedenceTable::standard();
    // 1 + 2 * 3
    assert_eq!(
        climb(nums(&[1, 2, 3]), &vec![Op::Add, Op::Mul], &table),
        Some(node(
            Expr::Num(1),
            Op::Add,
            node(Expr::Num(2), Op::Mul, Expr::Num(3))
        ))
    );
    // 1 * 2 + 3
    assert_eq!(
        climb(nums(&[1, 2, 3]), &vec![Op::Mul, Op::Add], &table),
        Some(node(
            node(Expr::Num(1), Op::Mul, Expr::Num(2)),
            Op::Add,
            Expr::Num(3)
        ))
    );
}

#[test]
fn equal_levels_split_at_the_rightmost() {
    let table = PrecedenceTable::standard();
    // 1 - 2 + 3 - 4
    assert_eq!(
        climb(nums(&[1, 2, 3, 4]), &vec![Op::Sub, Op::Add, Op::Sub], &table),
        Some(node(
            node(
                node(Expr::Num(1), Op::Sub, Expr::Num(2)),
                Op::Add,
                Expr::Num(3)
            ),
            Op::Sub,
            Expr::Num(4)
        ))
    );
    // 1 | 2 * 3 ^ 4 & 5 | 6
    assert_eq!(
        climb(
            nums(&[1, 2, 3, 4, 5, 6]),
            &vec![Op::Or, Op::Mul, Op::Xor, Op::And, Op::Or],
            &table
        ),
        Some(node(
            node(
                Expr::Num(1),
                Op::Or,
                node(
                    node(Expr::Num(2), Op::Mul, Expr::Num(3)),
                    Op::Xor,
                    node(Expr::Num(4), Op::And, Expr::Num(5))
                )
            ),
            Op::Or,
            Expr::Num(6)
        ))
    );
}

#[test]
fn another_table_gives_another_tree() {
    let table = PrecedenceTable {
        add: 9,
        sub: 9,
        mul: 1,
        div: 1,
        rem: 1,
        and: 0,
        or: 0,
        xor: 0,
        lshift: 0,
        rshift: 0,
    };
    // 1 + 2 * 3 with + tighter than *
    assert_eq!(
        climb(nums(&[1, 2, 3]), &vec![Op::Add, Op::Mul], &table),
        Some(node(
            node(Expr::Num(1), Op::Add, Expr::Num(2)),
            Op::Mul,
            Expr::Num(3)
        ))
    );
    let flat = PrecedenceTable {
        add: 255,
        sub: 255,
        mul: 255,
        div: 255,
        rem: 255,
        and: 255,
        or: 255,
        xor: 255,
        lshift: 255,
        rshift: 255,
    };
    assert_eq!(
        climb(nums(&[1, 2, 3]), &vec![Op::Add, Op::Mul], &flat),
        Some(node(
            node(Expr::Num(1), Op::Add, Expr::Num(2)),
            Op::Mul,
            Expr::Num(3)
        ))
    );
}

#[test]
fn chain_becomes_expression() {
    let table = PrecedenceTable::standard();
    let chain = Chain::Then(
        Box::new(Chain::Then(
            Box::new(Chain::First(Term::Number(Some(1)))),
            Op::Add,
            Term::Group(Box::new(Chain::Then(
                Box::new(Chain::First(Term::Ans)),
                Op::Sub,
                Term::Number(Some(2)),
            ))),
        )),
        Op::Mul,
        Term::Number(Some(3)),
    );
    assert_eq!(
        parse_expr(chain, &table),
        Ok(node(
            Expr::Num(1),
            Op::Add,
            node(
                node(Expr::Ans, Op::Sub, Expr::Num(2)),
                Op::Mul,
                Expr::Num(3)
            )
        ))
    );
    assert_eq!(parse_term(Term::Ans, &table), Ok(Expr::Ans));
    assert_eq!(parse_term(Term::Number(Some(5)), &table), Ok(Expr::Num(5)));
    assert_eq!(
        parse_term(Term::Number(None), &table),
        Err(NumericError::Malformed)
    );
    let bad = Chain::Then(
        Box::new(Chain::First(Term::Group(Box::new(Chain::First(
            Term::Number(None),
        ))))),
        Op::Add,
        Term::Number(Some(1)),
    );
    assert_eq!(parse_expr(bad, &table), Err(NumericError::Malformed));
}

#[test]
fn long_chain_keeps_its_order() {
    let table = PrecedenceTable::standard();
    let n = 2000;
    let operands: Vec<Expr> = (0..=n).map(Expr::Num).collect();
    let ops: Vec<Op> = (0..n).map(|_| Op::Sub).collect();
    let tree = climb(operands, &ops, &table).unwrap();
    // 0 - 1 - 2 - ... - n
    assert_eq!(eval_expr(&tree, 0), Ok(-(n * (n + 1) / 2)));
}

#[test]
fn each_operator_by_itself() {
    assert_eq!(apply_op(Op::Add, 2, 3), Ok(5));
    assert_eq!(apply_op(Op::Sub, 2, 3), Ok(-1));
    assert_eq!(apply_op(Op::Mul, -2, 3), Ok(-6));
    assert_eq!(apply_op(Op::Div, 7, 2), Ok(3));
    assert_eq!(apply_op(Op::Rem, 7, 2), Ok(1));
    assert_eq!(apply_op(Op::And, 0b1100, 0b1010), Ok(0b1000));
    assert_eq!(apply_op(Op::Or, 0b1100, 0b1010), Ok(0b1110));
    assert_eq!(apply_op(Op::Xor, 0b1100, 0b1010), Ok(0b0110));
    assert_eq!(apply_op(Op::LShift, 3, 4), Ok(48));
    assert_eq!(apply_op(Op::RShift, -48, 4), Ok(-3));
    assert_eq!(apply_op(Op::LShift, 1, 64 + 3), Ok(8));
    assert_eq!(apply_op(Op::RShift, 64, -62), Ok(16));
    assert_eq!(apply_op(Op::LShift, 1, 0x1_0000_0001), Ok(2));
    assert_eq!(apply_op(Op::Add, i64::MAX, i64::MAX), Ok(-2));
    assert_eq!(apply_op(Op::Sub, i64::MIN, 1), Ok(i64::MAX));
    assert_eq!(apply_op(Op::Mul, i64::MIN, -1), Ok(i64::MIN));
    assert_eq!(apply_op(Op::Mul, 0x1_0000_0001, 0x1_0000_0001), Ok(0x2_0000_0001));
    assert_eq!(apply_op(Op::Div, i64::MIN, -1), Ok(i64::MIN));
    assert_eq!(apply_op(Op::Rem, i64::MIN, -1), Ok(0));
    assert_eq!(
        apply_op(Op::Div, 1, 0),
        Err(CorkError::Eval(String::from("Cannot divide by 0")))
    );
    assert_eq!(
        apply_op(Op::Rem, i64::MIN, 0),
        Err(CorkError::Eval(String::from("Cannot divide by 0")))
    );
}

#[test]
fn no_operator_but_division_fails() {
    let ops = [
        Op::Add,
        Op::Sub,
        Op::Mul,
        Op::And,
        Op::Or,
        Op::Xor,
        Op::LShift,
        Op::RShift,
    ];
    let values = [i64::MIN, -65, -64, -1, 0, 1, 63, 64, 65, i64::MAX];
    for op in ops {
        for l in values {
            for r in values {
                assert!(apply_op(op, l, r).is_ok());
            }
        }
    }
    for op in [Op::Div, Op::Rem] {
        for l in values {
            for r in values {
                assert_eq!(apply_op(op, l, r).is_err(), r == 0);
            }
        }
    }
}

#[test]
fn operators_from_their_symbols() {
    let symbols = [
        ("+", Op::Add),
        ("-", Op::Sub),
        ("*", Op::Mul),
        ("/", Op::Div),
        ("%", Op::Rem),
        ("&", Op::And),
        ("|", Op::Or),
        ("^", Op::Xor),
        ("<<", Op::LShift),
        (">>", Op::RShift),
    ];
    for (symbol, op) in symbols {
        assert_eq!(Op::from_str(symbol).unwrap(), op);
    }
    let ParseOpError(text) = Op::from_str("**").unwrap_err();
    assert_eq!(text, "** is not an Op");
    assert!(Op::from_str("").is_err());
    assert!(Op::from_str("+ ").is_err());
    assert!(Op::from_str("<").is_err());
}
