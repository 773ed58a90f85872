//! Precedence climbing: from operands with operators between them to a tree.
//!
//! All operators associate to the left. What the tree of a chain is does not
//! depend on how it is built: the chain is split at its loosest operator,
//! at the rightmost of them where there are several, and both sides are
//! trees of the same kind.

use vstd::prelude::*;
use crate::expression::{binary, BinOpExpr, Expr, Op};

verus! {

/// The level of each operator: one of a higher level binds tighter.
#[derive(Clone, Copy, Debug, PartialEq, Eq, Structural)]
pub struct PrecedenceTable {
    pub add: u8,
    pub sub: u8,
    pub mul: u8,
    pub div: u8,
    pub rem: u8,
    pub and: u8,
    pub or: u8,
    pub xor: u8,
    pub lshift: u8,
    pub rshift: u8,
}

impl PrecedenceTable {
    /// The level of `op`.
    pub open spec fn level(self, op: Op) -> int {
        match op {
            Op::Add => self.add as int,
            Op::Sub => self.sub as int,
            Op::Mul => self.mul as int,
            Op::Div => self.div as int,
            Op::Rem => self.rem as int,
            Op::And => self.and as int,
            Op::Or => self.or as int,
            Op::Xor => self.xor as int,
            Op::LShift => self.lshift as int,
            Op::RShift => self.rshift as int,
        }
    }

    /// The table of the calculator, from the loosest level to the tightest:
    /// `|`, then `^`, then `&`, then the shifts, then `+` and `-`, then `*`,
    /// `/` and `%`.
    pub open spec fn standard_levels() -> PrecedenceTable {
        PrecedenceTable {
            or: 0,
            xor: 1,
            and: 2,
            lshift: 3,
            rshift: 3,
            add: 4,
            sub: 4,
            mul: 5,
            div: 5,
            rem: 5,
        }
    }

    /// The table of the calculator.
    pub fn standard() -> (r: PrecedenceTable)
        ensures
            r == PrecedenceTable::standard_levels(),
    {
        PrecedenceTable {
            or: 0,
            xor: 1,
            and: 2,
            lshift: 3,
            rshift: 3,
            add: 4,
            sub: 4,
            mul: 5,
            div: 5,
            rem: 5,
        }
    }

    /// The level of `op`.
    pub fn level_of(&self, op: Op) -> (r: u8)
        ensures
            r == self.level(op),
    {
        match op {
            Op::Add => self.add,
            Op::Sub => self.sub,
            Op::Mul => self.mul,
            Op::Div => self.div,
            Op::Rem => self.rem,
            Op::And => self.and,
            Op::Or => self.or,
            Op::Xor => self.xor,
            Op::LShift => self.lshift,
            Op::RShift => self.rshift,
        }
    }
}

/// Whether `k` is where a chain with the operators `ops` is split: no
/// operator is looser than the one at `k`, and those to its right are all
/// tighter.
pub open spec fn is_split(ops: Seq<Op>, table: PrecedenceTable, k: int) -> bool {
    &&& 0 <= k < ops.len()
    &&& forall|j: int| 0 <= j < k ==> table.level(#[trigger] ops[j]) >= table.level(ops[k])
    &&& forall|j: int| k < j < ops.len() ==> table.level(#[trigger] ops[j]) > table.level(ops[k])
}

/// The index of the rightmost among the loosest operators of `ops`.
pub open spec fn split_point(ops: Seq<Op>, table: PrecedenceTable) -> int
    decreases ops.len(),
{
    if ops.len() <= 1 {
        0
    } else {
        let before = split_point(ops.drop_last(), table);
        if table.level(ops.last()) <= table.level(ops[before]) {
            ops.len() - 1
        } else {
            before
        }
    }
}

/// The split point is where the chain is split, and no other index is.
pub proof fn lemma_split_point(ops: Seq<Op>, table: PrecedenceTable)
    requires
        ops.len() > 0,
    ensures
        is_split(ops, table, split_point(ops, table)),
        forall|k: int| is_split(ops, table, k) ==> k == split_point(ops, table),
    decreases ops.len(),
{
    if ops.len() > 1 {
        let front = ops.drop_last();
        lemma_split_point(front, table);
        let before = split_point(front, table);
        let here = split_point(ops, table);
        assert(is_split(ops, table, here)) by {
            assert forall|j: int| 0 <= j < here implies table.level(#[trigger] ops[j])
                >= table.level(ops[here]) by {
                if j < front.len() {
                    assert(ops[j] == front[j]);
                    if j < before {
                    } else if j > before {
                    }
                }
            }
            assert forall|j: int| here < j < ops.len() implies table.level(#[trigger] ops[j])
                > table.level(ops[here]) by {
                if j < front.len() {
                    assert(ops[j] == front[j]);
                }
            }
        }
        assert forall|k: int| is_split(ops, table, k) implies k == here by {
            if k < front.len() {
                assert(is_split(front, table, k)) by {
                    assert forall|j: int| 0 <= j < k implies table.level(#[trigger] front[j])
                        >= table.level(front[k]) by {
                        assert(front[j] == ops[j]);
                    }
                    assert forall|j: int| k < j < front.len() implies table.level(
                        #[trigger] front[j],
                    ) > table.level(front[k]) by {
                        assert(front[j] == ops[j]);
                    }
                }
                assert(table.level(ops[ops.len() - 1]) > table.level(ops[k]));
            } else {
                assert(ops[before] == front[before]);
                assert(table.level(ops[before]) >= table.level(ops[k]));
            }
        }
    } else {
        assert(is_split(ops, table, 0));
    }
}

/// The tree of a chain of `operands` with the operators `ops` between
/// them, one operand more than operators: the only operand of a chain
/// without operators; else the operator at the split point, on the tree of
/// what stands left of it and the tree of what stands right of it.
pub open spec fn tree_of(operands: Seq<Expr>, ops: Seq<Op>, table: PrecedenceTable) -> Expr
    decreases ops.len(),
    via tree_of_decreases
{
    if ops.len() == 0 {
        operands[0]
    } else {
        let k = split_point(ops, table);
        binary(
            tree_of(operands.take(k + 1), ops.take(k), table),
            ops[k],
            tree_of(operands.skip(k + 1), ops.skip(k + 1), table),
        )
    }
}

#[via_fn]
proof fn tree_of_decreases(operands: Seq<Expr>, ops: Seq<Op>, table: PrecedenceTable) {
    if ops.len() > 0 {
        lemma_split_point(ops, table);
    }
}

/// A chain that is split at `k` is the operator at `k` on the trees of the
/// two sides.
pub proof fn lemma_tree_split(operands: Seq<Expr>, ops: Seq<Op>, table: PrecedenceTable, k: int)
    requires
        is_split(ops, table, k),
    ensures
        tree_of(operands, ops, table) == binary(
            tree_of(operands.take(k + 1), ops.take(k), table),
            ops[k],
            tree_of(operands.skip(k + 1), ops.skip(k + 1), table),
        ),
{
    lemma_split_point(ops, table);
}

/// Operators of one level group to the left: where no operator of a chain
/// is looser than its last one, the tree is the last operator on the tree
/// of all that stands before it and the last operand.
pub proof fn lemma_left_associative(operands: Seq<Expr>, ops: Seq<Op>, table: PrecedenceTable)
    requires
        ops.len() > 0,
        operands.len() == ops.len() + 1,
        forall|j: int| 0 <= j < ops.len() ==> table.level(#[trigger] ops[j]) >= table.level(
            ops.last(),
        ),
    ensures
        tree_of(operands, ops, table) == binary(
            tree_of(operands.drop_last(), ops.drop_last(), table),
            ops.last(),
            operands.last(),
        ),
{
    let k = ops.len() - 1;
    assert(is_split(ops, table, k));
    lemma_tree_split(operands, ops, table, k);
    assert(operands.take(k + 1) =~= operands.drop_last());
    assert(ops.take(k) =~= ops.drop_last());
    assert(ops.skip(k + 1).len() == 0);
    assert(operands.skip(k + 1)[0] == operands.last());
}

/// The tighter of two operators binds first, and the left one of two of the
/// same level: `a p b q c` is `(a p b) q c` unless `q` is tighter than
/// `p`, and `a p (b q c)` if it is.
pub proof fn lemma_two_operators(a: Expr, p: Op, b: Expr, q: Op, c: Expr, table: PrecedenceTable)
    ensures
        tree_of(seq![a, b, c], seq![p, q], table) == (if table.level(q) > table.level(p) {
            binary(a, p, binary(b, q, c))
        } else {
            binary(binary(a, p, b), q, c)
        }),
{
    let operands = seq![a, b, c];
    let ops = seq![p, q];
    if table.level(q) > table.level(p) {
        assert(is_split(ops, table, 0));
        lemma_tree_split(operands, ops, table, 0);
        let right = operands.skip(1);
        let right_ops = ops.skip(1);
        assert(operands.take(1)[0] == a);
        assert(ops.take(0).len() == 0);
        assert(is_split(right_ops, table, 0));
        lemma_tree_split(right, right_ops, table, 0);
        assert(right.take(1)[0] == b);
        assert(right.skip(1)[0] == c);
        assert(right_ops.take(0).len() == 0);
        assert(right_ops.skip(1).len() == 0);
        assert(right_ops[0] == q);
    } else {
        assert(is_split(ops, table, 1));
        lemma_tree_split(operands, ops, table, 1);
        let left = operands.take(2);
        let left_ops = ops.take(1);
        assert(operands.skip(2)[0] == c);
        assert(ops.skip(2).len() == 0);
        assert(is_split(left_ops, table, 0));
        lemma_tree_split(left, left_ops, table, 0);
        assert(left.take(1)[0] == a);
        assert(left.skip(1)[0] == b);
        assert(left_ops.take(0).len() == 0);
        assert(left_ops.skip(1).len() == 0);
        assert(left_ops[0] == p);
    }
}

/// Builds the tree of the operands on `stack`, the first of them on top,
/// with the operators `ops[at..]` between them, up to the first operator
/// that is looser than `min`. Returns the tree and the index of that
/// operator; the operands that the tree took have left the stack.
fn climb_from(stack: &mut Vec<Expr>, ops: &Vec<Op>, at: usize, min: u16, table: &PrecedenceTable) -> (r: (
    Expr,
    usize,
))
    requires
        at <= ops.len(),
        old(stack).len() == ops.len() - at + 1,
    ensures
        at <= r.1 <= ops.len(),
        final(stack)@ == old(stack)@.take(ops.len() - r.1),
        r.0 == tree_of(
            old(stack)@.reverse().take(r.1 - at + 1),
            ops@.subrange(at as int, r.1 as int),
            *table,
        ),
        forall|j: int| at <= j < r.1 ==> table.level(#[trigger] ops@[j]) >= min,
        r.1 < ops.len() ==> table.level(ops@[r.1 as int]) < min,
    decreases ops.len() - at,
{
    let ghost all = old(stack)@.reverse();
    let mut lhs = stack.pop().unwrap();
    let mut k: usize = at;
    proof {
        assert(all.take(1) =~= seq![lhs]);
        assert(ops@.subrange(at as int, at as int) =~= Seq::<Op>::empty());
    }
    while k < ops.len() && table.level_of(ops[k]) as u16 >= min
        invariant
            at <= k <= ops.len(),
            all == old(stack)@.reverse(),
            old(stack).len() == ops.len() - at + 1,
            stack@ == old(stack)@.take(ops.len() - k),
            lhs == tree_of(all.take(k - at + 1), ops@.subrange(at as int, k as int), *table),
            forall|j: int| at <= j < k ==> table.level(#[trigger] ops@[j]) >= min,
            k < ops.len() ==> forall|j: int|
                at <= j < k ==> table.level(#[trigger] ops@[j]) >= table.level(ops@[k as int]),
        decreases ops.len() - k,
    {
        let op = ops[k];
        let level = table.level_of(op);
        let ghost before = stack@;
        let (rhs, next) = climb_from(stack, ops, k + 1, level as u16 + 1, table);
        proof {
            let operands = all.take(next - at + 1);
            let between = ops@.subrange(at as int, next as int);
            let split = k - at;
            assert(is_split(between, *table, split)) by {
                assert forall|j: int| 0 <= j < split implies table.level(#[trigger] between[j])
                    >= table.level(between[split]) by {
                    assert(between[j] == ops@[at + j]);
                }
                assert forall|j: int| split < j < between.len() implies table.level(
                    #[trigger] between[j],
                ) > table.level(between[split]) by {
                    assert(between[j] == ops@[at + j]);
                }
            }
            lemma_tree_split(operands, between, *table, split);
            assert(operands.take(split + 1) =~= all.take(k - at + 1));
            assert(between.take(split) =~= ops@.subrange(at as int, k as int));
            assert(operands.skip(split + 1) =~= before.reverse().take(next - k));
            assert(between.skip(split + 1) =~= ops@.subrange(k + 1, next as int));
            assert(stack@ =~= old(stack)@.take(ops.len() - next));
            if next < ops.len() {
                assert forall|j: int| at <= j < next implies table.level(#[trigger] ops@[j])
                    >= table.level(ops@[next as int]) by {
                    if j < k {
                    } else if j == k {
                    } else {
                    }
                }
            }
        }
        lhs = Expr::BinOp(BinOpExpr { left: Box::new(lhs), right: Box::new(rhs), op });
        k = next;
    }
    (lhs, k)
}

/// The tree of the operands on `stack`, the first of them on top, with the
/// operators `ops` between them.
pub(crate) fn climb_stack(stack: Vec<Expr>, ops: &Vec<Op>, table: &PrecedenceTable) -> (r: Expr)
    requires
        stack.len() == ops.len() + 1,
    ensures
        r == tree_of(stack@.reverse(), ops@, *table),
{
    let mut stack = stack;
    let ghost all = stack@.reverse();
    let (tree, next) = climb_from(&mut stack, ops, 0, 0, table);
    proof {
        assert(next == ops.len());
        assert(all.take(next + 1) =~= all);
        assert(ops@.subrange(0, next as int) =~= ops@);
    }
    tree
}

/// The tree of `operands` with the operators `ops` between them, by the
/// levels of `table`; `None` unless there is one operand more than there are
/// operators.
pub fn climb(operands: Vec<Expr>, ops: &Vec<Op>, table: &PrecedenceTable) -> (r: Option<Expr>)
    ensures
        r == (if operands.len() == ops.len() + 1 {
            Some(tree_of(operands@, ops@, *table))
        } else {
            None
        }),
{
    if ops.len() == usize::MAX || operands.len() != ops.len() + 1 {
        return None;
    }
    let mut rest = operands;
    let mut stack: Vec<Expr> = Vec::new();
    while rest.len() > 0
        invariant
            rest.len() <= operands.len(),
            rest@ == operands@.take(rest.len() as int),
            stack@ == operands@.skip(rest.len() as int).reverse(),
        decreases rest.len(),
    {
        let last = rest.pop();
        match last {
            Some(expr) => stack.push(expr),
            None => {},
        }
        assert(rest@ =~= operands@.take(rest.len() as int));
        assert(stack@ =~= operands@.skip(rest.len() as int).reverse());
    }
    assert(stack@.reverse() =~= operands@);
    Some(climb_stack(stack, ops, table))
}

} // verus!
