//! Evaluation of pure arithmetic expression trees, and the associativity
//! law: the left-leaning chains the parser's chain rules build evaluate left
//! to right, so `9-5-1` means `(9-5)-1` and never `9-(5-1)`.
use crate::ast::{ExprModel, OperatorKind};
use vstd::prelude::*;

verus! {

/// The magnitude of an integer.
pub open spec fn iabs(x: int) -> int {
    if x < 0 {
        -x
    } else {
        x
    }
}

/// Division truncating toward zero: the division the generated code
/// performs.
pub open spec fn tdiv(a: int, b: int) -> int {
    let q = iabs(a) / iabs(b);
    if (a < 0) != (b < 0) {
        -q
    } else {
        q
    }
}

/// The value of one operator on two operand values. Comparisons yield 0 or
/// 1; dividing by zero has no defined value; assignment is no pure
/// operator.
pub open spec fn apply_op(op: OperatorKind, a: int, b: int) -> Option<int> {
    match op {
        OperatorKind::Add => Some(a + b),
        OperatorKind::Substruct => Some(a - b),
        OperatorKind::Multiply => Some(a * b),
        OperatorKind::Divide => if b == 0 {
            None
        } else {
            Some(tdiv(a, b))
        },
        OperatorKind::Less => Some(
            if a < b {
                1
            } else {
                0
            },
        ),
        OperatorKind::LessEqual => Some(
            if a <= b {
                1
            } else {
                0
            },
        ),
        OperatorKind::Greater => Some(
            if a > b {
                1
            } else {
                0
            },
        ),
        OperatorKind::GreaterEqual => Some(
            if a >= b {
                1
            } else {
                0
            },
        ),
        OperatorKind::Equal => Some(
            if a == b {
                1
            } else {
                0
            },
        ),
        OperatorKind::NotEqual => Some(
            if a != b {
                1
            } else {
                0
            },
        ),
        OperatorKind::Assign => None,
    }
}

/// The value of a pure arithmetic expression: numeric literals combined by
/// non-assignment operators. Anything that reads or writes state has no
/// pure value.
pub open spec fn eval_arith(e: ExprModel) -> Option<int>
    decreases e,
{
    match e {
        ExprModel::Num(n) => Some(n),
        ExprModel::BinaryOperation(op, l, r) => match (eval_arith(*l), eval_arith(*r)) {
            (Some(a), Some(b)) => apply_op(op, a, b),
            _ => None,
        },
        _ => None,
    }
}

/// The left-leaning tree for the chain `first op1 e1 op2 e2 ...`: each
/// operator of `rest` takes the chain built so far as its left child. This
/// is the shape the parser's chain rules (`equality` down to `mul`) build
/// for a run of operators at one precedence level.
pub open spec fn left_chain(first: ExprModel, rest: Seq<(OperatorKind, ExprModel)>) -> ExprModel
    decreases rest.len(),
{
    if rest.len() == 0 {
        first
    } else {
        ExprModel::BinaryOperation(
            rest.last().0,
            Box::new(left_chain(first, rest.drop_last())),
            Box::new(rest.last().1),
        )
    }
}

/// Left-to-right evaluation of the same chain: the operators fold over the
/// operand values in source order.
pub open spec fn chain_value(first: ExprModel, rest: Seq<(OperatorKind, ExprModel)>) -> Option<int>
    decreases rest.len(),
{
    if rest.len() == 0 {
        eval_arith(first)
    } else {
        match (chain_value(first, rest.drop_last()), eval_arith(rest.last().1)) {
            (Some(a), Some(b)) => apply_op(rest.last().0, a, b),
            _ => None,
        }
    }
}

/// A chain of operators at one precedence level evaluates as left-to-right
/// evaluation: the left-leaning tree of `left_chain` — the shape the parser
/// builds — has exactly the value of folding the operators over the
/// operands in source order, for every chain.
pub proof fn lemma_left_chain_evaluates_left_to_right(
    first: ExprModel,
    rest: Seq<(OperatorKind, ExprModel)>,
)
    ensures
        eval_arith(left_chain(first, rest)) == chain_value(first, rest),
    decreases rest.len(),
{
    if rest.len() > 0 {
        lemma_left_chain_evaluates_left_to_right(first, rest.drop_last());
    }
}

} // verus!

