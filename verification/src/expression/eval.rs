//! Evaluation of expressions in 64-bit two's complement arithmetic.

use vstd::prelude::*;
use vstd::string::StringExecFns;
use crate::error::CorkError;
use crate::expression::{Expr, Op};

verus! {

/// The 64-bit two's complement number that is congruent to `x` modulo 2^64.
pub open spec fn wrap(x: int) -> i64 {
    let low = x % 0x1_0000_0000_0000_0000;
    if low > i64::MAX {
        (low - 0x1_0000_0000_0000_0000) as i64
    } else {
        low as i64
    }
}

/// The quotient of `l` by `r`, rounded towards zero.
pub open spec fn quotient(l: int, r: int) -> int {
    if l >= 0 {
        if r > 0 {
            l / r
        } else {
            -(l / (-r))
        }
    } else {
        if r > 0 {
            -((-l) / r)
        } else {
            (-l) / (-r)
        }
    }
}

/// The remainder that `quotient` leaves: it has the sign of `l`.
pub open spec fn remainder(l: int, r: int) -> int {
    let size = if r > 0 {
        r
    } else {
        -r
    };
    if l >= 0 {
        l % size
    } else {
        -((-l) % size)
    }
}

/// By how many bits a shift by `r` moves: `r` modulo 64, so the low six bits
/// of `r` alone count, also where `r` is negative or 64 and more.
pub open spec fn shift_amount(r: i64) -> u32 {
    ((r as int) % 64) as u32
}

/// What `l op r` is; `None` for a division by zero, of which there are two:
/// the quotient and the remainder. Sums, differences, products and
/// quotients that do not fit in 64 bits wrap around.
pub open spec fn apply(op: Op, l: i64, r: i64) -> Option<i64> {
    match op {
        Op::Add => Some(wrap(l + r)),
        Op::Sub => Some(wrap(l - r)),
        Op::Mul => Some(wrap(l * r)),
        Op::Div => if r == 0 {
            None
        } else {
            Some(wrap(quotient(l as int, r as int)))
        },
        Op::Rem => if r == 0 {
            None
        } else {
            Some(wrap(remainder(l as int, r as int)))
        },
        Op::And => Some(l & r),
        Op::Or => Some(l | r),
        Op::Xor => Some(l ^ r),
        Op::LShift => Some(l << shift_amount(r)),
        Op::RShift => Some(l >> shift_amount(r)),
    }
}

/// The value of `expr` where `ans` is the result of the last evaluation;
/// `None` where a division by zero occurs in it.
pub open spec fn value_of(expr: Expr, ans: i64) -> Option<i64>
    decreases expr,
{
    match expr {
        Expr::Num(n) => Some(n),
        Expr::Ans => Some(ans),
        Expr::BinOp(node) => match (value_of(*node.left, ans), value_of(*node.right, ans)) {
            (Some(l), Some(r)) => apply(node.op, l, r),
            _ => None,
        },
    }
}

/// Whether `r` is the outcome that stands for `value`: the value itself, or
/// the error of a division by zero.
pub open spec fn is_outcome(r: Result<i64, CorkError>, value: Option<i64>) -> bool {
    match value {
        Some(v) => r == Ok::<i64, CorkError>(v),
        None => r matches Err(CorkError::Eval(text)) && text@ == "Cannot divide by 0"@,
    }
}

/// Division by zero is the only failure: an operation has no value if and
/// only if it is a quotient or a remainder and the right operand is zero.
pub proof fn lemma_only_division_by_zero_fails(op: Op, l: i64, r: i64)
    ensures
        apply(op, l, r) is None <==> (op == Op::Div || op == Op::Rem) && r == 0,
{
}

/// The result of the last evaluation stands for itself, and a number too,
/// whatever the last result was.
pub proof fn lemma_leaves(n: i64, ans: i64)
    ensures
        value_of(Expr::Ans, ans) == Some(ans),
        value_of(Expr::Num(n), ans) == Some(n),
{
}

/// The error of a division by zero.
fn divide_by_zero() -> (r: CorkError)
    ensures
        r matches CorkError::Eval(text) && text@ == "Cannot divide by 0"@,
{
    CorkError::Eval(String::from_str("Cannot divide by 0"))
}

/// Applies one operator.
pub fn apply_op(op: Op, left: i64, right: i64) -> (r: Result<i64, CorkError>)
    ensures
        is_outcome(r, apply(op, left, right)),
{
    match op {
        Op::Add => Ok(left.wrapping_add(right)),
        Op::Sub => Ok(left.wrapping_sub(right)),
        Op::Mul => Ok(left.wrapping_mul(right)),
        Op::And => Ok(left & right),
        Op::Xor => Ok(left ^ right),
        Op::Or => Ok(left | right),
        Op::LShift => {
            proof {
                lemma_shift_amount(right);
            }
            Ok(left.wrapping_shl(right as u32))
        },
        Op::RShift => {
            proof {
                lemma_shift_amount(right);
            }
            Ok(left.wrapping_shr(right as u32))
        },
        Op::Div => {
            if right == 0 {
                Err(divide_by_zero())
            } else {
                match left.checked_div(right) {
                    Some(q) => Ok(q),
                    // Only the least value divided by -1 does not fit: it wraps.
                    None => Ok(i64::MIN),
                }
            }
        },
        Op::Rem => {
            if right == 0 {
                Err(divide_by_zero())
            } else {
                match left.checked_rem(right) {
                    Some(m) => Ok(m),
                    None => Ok(0),
                }
            }
        },
    }
}

/// The low six bits of the right operand are what a wrapping shift uses.
proof fn lemma_shift_amount(r: i64)
    ensures
        (r as u32) % 64 == shift_amount(r),
{
    assert(((r as u32) % 64) as int == (r as int) % 64) by (bit_vector);
}

/// Evaluates `expr`, with `ans` for the result of the last evaluation.
pub fn eval_expr(expr: &Expr, ans: i64) -> (r: Result<i64, CorkError>)
    ensures
        is_outcome(r, value_of(*expr, ans)),
    decreases *expr,
{
    match expr {
        Expr::Num(num) => Ok(*num),
        Expr::BinOp(node) => {
            let left = match eval_expr(&node.left, ans) {
                Ok(v) => v,
                Err(e) => {
                    return Err(e);
                },
            };
            let right = match eval_expr(&node.right, ans) {
                Ok(v) => v,
                Err(e) => {
                    return Err(e);
                },
            };
            apply_op(node.op, left, right)
        },
        Expr::Ans => Ok(ans),
    }
}

} // verus!
