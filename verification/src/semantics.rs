//! What a program means, said of the syntax tree itself, and the proof that
//! the bytecode of a program does exactly that.
use crate::ast::{Node, NodeView};
use crate::bytecode::{lower, lower_all, OpView};
use crate::error::{ErrorView, EvalError};
use crate::machine::{finished, run, step, stopped, Halt, Machine};
use crate::scope::{lookup, Scope};
use vstd::prelude::*;

verus! {

/// Whether the tree is an expression: numbers and names, joined by sums and
/// products.
pub open spec fn is_expression(node: NodeView) -> bool
    decreases node,
{
    match node {
        NodeView::Number { .. } => true,
        NodeView::Id { .. } => true,
        NodeView::Add { lhs, rhs } => is_expression(*lhs) && is_expression(*rhs),
        NodeView::Mul { lhs, rhs } => is_expression(*lhs) && is_expression(*rhs),
        _ => false,
    }
}

/// Whether the tree is an expression without names: numbers, sums, products.
pub open spec fn is_arithmetic(node: NodeView) -> bool
    decreases node,
{
    match node {
        NodeView::Number { .. } => true,
        NodeView::Add { lhs, rhs } => is_arithmetic(*lhs) && is_arithmetic(*rhs),
        NodeView::Mul { lhs, rhs } => is_arithmetic(*lhs) && is_arithmetic(*rhs),
        _ => false,
    }
}

/// The number that an arithmetic tree writes, computed without bounds.
pub open spec fn exact(node: NodeView) -> int
    recommends
        is_arithmetic(node),
    decreases node,
{
    match node {
        NodeView::Number { value } => value as int,
        NodeView::Add { lhs, rhs } => exact(*lhs) + exact(*rhs),
        NodeView::Mul { lhs, rhs } => exact(*lhs) * exact(*rhs),
        _ => 0,
    }
}

/// Whether every sum and every product in an arithmetic tree fits in 64
/// bits, those of the operands before that of the tree.
pub open spec fn fits(node: NodeView) -> bool
    recommends
        is_arithmetic(node),
    decreases node,
{
    match node {
        NodeView::Number { .. } => true,
        NodeView::Add { lhs, rhs } => fits(*lhs) && fits(*rhs) && exact(node) <= u64::MAX,
        NodeView::Mul { lhs, rhs } => fits(*lhs) && fits(*rhs) && exact(node) <= u64::MAX,
        _ => false,
    }
}

/// Whether the tree is a statement: an expression, or a declaration, an
/// assignment or a print of an expression, or nothing.
pub open spec fn is_statement(node: NodeView) -> bool {
    match node {
        NodeView::Empty => true,
        NodeView::Declare { rhs: None, .. } => true,
        NodeView::Declare { rhs: Some(init), .. } => is_expression(*init),
        NodeView::Assign { rhs, .. } => is_expression(*rhs),
        NodeView::PrintLn { rhs } => is_expression(*rhs),
        _ => is_expression(node),
    }
}

/// The sum of two values, or the error that it does not fit in 64 bits.
pub open spec fn checked_sum(lhs: u64, rhs: u64) -> Result<u64, ErrorView> {
    if lhs + rhs > u64::MAX {
        Err(ErrorView::ArithmeticOverflow)
    } else {
        Ok((lhs + rhs) as u64)
    }
}

/// The product of two values, or the error that it does not fit in 64 bits.
pub open spec fn checked_product(lhs: u64, rhs: u64) -> Result<u64, ErrorView> {
    if lhs * rhs > u64::MAX {
        Err(ErrorView::ArithmeticOverflow)
    } else {
        Ok((lhs * rhs) as u64)
    }
}

/// The value of an expression under the bindings `scope`: the left operand
/// is evaluated before the right one, and the first error wins. A tree that is
/// no expression has no value: where one is asked for, an operand is missing.
pub open spec fn value_of(node: NodeView, scope: Map<Seq<char>, u64>) -> Result<u64, ErrorView>
    decreases node,
{
    match node {
        NodeView::Number { value } => Ok(value),
        NodeView::Id { value } => match lookup(scope, value) {
            Some(bound) => Ok(bound),
            None => Err(ErrorView::VariableNotFound { name: value }),
        },
        NodeView::Add { lhs, rhs } => match value_of(*lhs, scope) {
            Err(error) => Err(error),
            Ok(left) => match value_of(*rhs, scope) {
                Err(error) => Err(error),
                Ok(right) => checked_sum(left, right),
            },
        },
        NodeView::Mul { lhs, rhs } => match value_of(*lhs, scope) {
            Err(error) => Err(error),
            Ok(left) => match value_of(*rhs, scope) {
                Err(error) => Err(error),
                Ok(right) => checked_product(left, right),
            },
        },
        _ => Err(ErrorView::StackUnderflow),
    }
}

/// The model of what the evaluation of an expression returns.
pub open spec fn value_view(res: Result<u64, EvalError>) -> Result<u64, ErrorView> {
    match res {
        Ok(value) => Ok(value),
        Err(error) => Err(error@),
    }
}

/// Evaluates the tree `exp` as it stands, without lowering it: the value of
/// the expression under the bindings of `scope`.
pub fn eval_exp(exp: &Node, scope: &Scope) -> (res: Result<u64, EvalError>)
    ensures
        value_view(res) == value_of(exp@, scope@),
    decreases exp,
{
    match exp {
        Node::Number { value } => Ok(*value),
        Node::Id { value } => match scope.get_var(value.clone()) {
            Some(bound) => Ok(*bound),
            None => Err(EvalError::VariableNotFound { name: value.clone() }),
        },
        Node::Add { lhs, rhs } => {
            let left = match eval_exp(lhs, scope) {
                Ok(left) => left,
                Err(error) => {
                    return Err(error);
                },
            };
            let right = match eval_exp(rhs, scope) {
                Ok(right) => right,
                Err(error) => {
                    return Err(error);
                },
            };
            match left.checked_add(right) {
                Some(sum) => Ok(sum),
                None => Err(EvalError::ArithmeticOverflow),
            }
        },
        Node::Mul { lhs, rhs } => {
            let left = match eval_exp(lhs, scope) {
                Ok(left) => left,
                Err(error) => {
                    return Err(error);
                },
            };
            let right = match eval_exp(rhs, scope) {
                Ok(right) => right,
                Err(error) => {
                    return Err(error);
                },
            };
            match left.checked_mul(right) {
                Some(product) => Ok(product),
                None => Err(EvalError::ArithmeticOverflow),
            }
        },
        _ => Err(EvalError::StackUnderflow),
    }
}

/// What one statement does to a state. An expression leaves its value on the
/// stack; a declaration with an initialiser and an assignment bind the name to
/// the value, whether or not it was bound; a print appends the value to the
/// output; a declaration without an initialiser and `Empty` do nothing.
pub open spec fn perform(m: Machine, node: NodeView) -> Halt
    recommends
        is_statement(node),
{
    match node {
        NodeView::Empty => finished(m),
        NodeView::Declare { rhs: None, .. } => finished(m),
        NodeView::Declare { id, rhs: Some(init) } => match value_of(*init, m.scope) {
            Ok(value) => finished(Machine { scope: m.scope.insert(id, value), ..m }),
            Err(error) => stopped(m, error),
        },
        NodeView::Assign { id, rhs } => match value_of(*rhs, m.scope) {
            Ok(value) => finished(Machine { scope: m.scope.insert(id, value), ..m }),
            Err(error) => stopped(m, error),
        },
        NodeView::PrintLn { rhs } => match value_of(*rhs, m.scope) {
            Ok(value) => finished(Machine { output: m.output.push(value), ..m }),
            Err(error) => stopped(m, error),
        },
        _ => match value_of(node, m.scope) {
            Ok(value) => finished(Machine { stack: m.stack.push(value), ..m }),
            Err(error) => stopped(m, error),
        },
    }
}

/// What a program does to a state: its statements in order, up to the first
/// that fails.
pub open spec fn perform_all(m: Machine, nodes: Seq<NodeView>) -> Halt
    decreases nodes.len(),
{
    if nodes.len() == 0 {
        finished(m)
    } else {
        let before = perform_all(m, nodes.drop_last());
        if before.fault is Some {
            before
        } else {
            perform(before.end, nodes.last())
        }
    }
}

/// A run of one instruction is that instruction's step.
pub proof fn lemma_run_single(m: Machine, op: OpView)
    ensures
        run(m, seq![op]) == match step(m, op) {
            Ok(next) => finished(next),
            Err(error) => stopped(m, error),
        },
{
    reveal_with_fuel(run, 2);
    assert(seq![op].drop_first() =~= Seq::<OpView>::empty());
}

/// A run of two pieces of code, one after the other, is a run of the first
/// and then, unless that one failed, a run of the second from where it ended.
pub proof fn lemma_run_concat(m: Machine, first: Seq<OpView>, second: Seq<OpView>)
    ensures
        run(m, first + second) == if run(m, first).fault is Some {
            run(m, first)
        } else {
            run(run(m, first).end, second)
        },
    decreases first.len(),
{
    if first.len() == 0 {
        assert(first + second =~= second);
    } else {
        assert((first + second).first() == first.first());
        assert((first + second).drop_first() =~= first.drop_first() + second);
        match step(m, first.first()) {
            Ok(next) => lemma_run_concat(next, first.drop_first(), second),
            Err(_) => {},
        }
    }
}

/// The code of an expression computes the expression's value: run from any
/// state, it pushes that value and touches nothing else, or stops with the
/// error that the value is.
pub proof fn lemma_expression_code(m: Machine, node: NodeView)
    requires
        is_expression(node),
    ensures
        run(m, lower(node)) == match value_of(node, m.scope) {
            Ok(value) => finished(Machine { stack: m.stack.push(value), ..m }),
            Err(error) => stopped(m, error),
        },
    decreases node,
{
    match node {
        NodeView::Number { value } => {
            lemma_run_single(m, OpView::Push { value });
        },
        NodeView::Id { value } => {
            lemma_run_single(m, OpView::Load { id: value });
        },
        NodeView::Add { lhs, rhs } => {
            lemma_expression_code(m, *lhs);
            if let Ok(left) = value_of(*lhs, m.scope) {
                lemma_expression_code(Machine { stack: m.stack.push(left), ..m }, *rhs);
            }
            lemma_operator_code(m, lower(*lhs), lower(*rhs), OpView::Add);
        },
        NodeView::Mul { lhs, rhs } => {
            lemma_expression_code(m, *lhs);
            if let Ok(left) = value_of(*lhs, m.scope) {
                lemma_expression_code(Machine { stack: m.stack.push(left), ..m }, *rhs);
            }
            lemma_operator_code(m, lower(*lhs), lower(*rhs), OpView::Mull);
        },
        _ => {},
    }
}

/// What the operator `op` makes of two operands.
pub open spec fn operate(op: OpView, left: u64, right: u64) -> Result<u64, ErrorView> {
    if op == OpView::Add {
        checked_sum(left, right)
    } else {
        checked_product(left, right)
    }
}

/// Code that pushes one value or fails, code that pushes a second or fails,
/// and an operator: together they push the result of the checked operation on
/// both, or stop with the first error.
proof fn lemma_operator_code(m: Machine, first: Seq<OpView>, second: Seq<OpView>, op: OpView)
    requires
        op == OpView::Add || op == OpView::Mull,
        run(m, first).fault is None ==> run(m, first).end == (Machine {
            stack: m.stack.push(run(m, first).end.stack.last()),
            ..m
        }),
        run(m, first).fault is None && run(run(m, first).end, second).fault is None ==> run(
            run(m, first).end,
            second,
        ).end == (Machine {
            stack: run(m, first).end.stack.push(run(run(m, first).end, second).end.stack.last()),
            ..m
        }),
    ensures
        run(m, first + second + seq![op]) == if run(m, first).fault is Some {
            run(m, first)
        } else if run(run(m, first).end, second).fault is Some {
            run(run(m, first).end, second)
        } else {
            match operate(
                op,
                run(m, first).end.stack.last(),
                run(run(m, first).end, second).end.stack.last(),
            ) {
                Ok(value) => finished(Machine { stack: m.stack.push(value), ..m }),
                Err(error) => stopped(m, error),
            }
        },
{
    lemma_run_concat(m, first + second, seq![op]);
    lemma_run_concat(m, first, second);
    let after_first = run(m, first).end;
    let after_second = run(after_first, second).end;
    if run(m, first).fault is None && run(after_first, second).fault is None {
        lemma_run_single(after_second, op);
        assert(after_second.stack.take(after_second.stack.len() - 2) =~= m.stack);
    }
}

/// The code of a statement does what the statement means.
pub proof fn theorem_statement_code(m: Machine, node: NodeView)
    requires
        is_statement(node),
    ensures
        run(m, lower(node)) == perform(m, node),
{
    match node {
        NodeView::Empty => {},
        NodeView::Declare { rhs: None, .. } => {},
        NodeView::Declare { id, rhs: Some(init) } => {
            lemma_store_code(m, *init, OpView::Declare { name: id });
        },
        NodeView::Assign { id, rhs } => {
            lemma_store_code(m, *rhs, OpView::Declare { name: id });
        },
        NodeView::PrintLn { rhs } => {
            lemma_store_code(m, *rhs, OpView::PrintLn);
        },
        _ => {
            lemma_expression_code(m, node);
        },
    }
}

/// The code of an expression followed by an instruction that pops its value.
proof fn lemma_store_code(m: Machine, node: NodeView, op: OpView)
    requires
        is_expression(node),
        op is Declare || op is PrintLn,
    ensures
        run(m, lower(node) + seq![op]) == match value_of(node, m.scope) {
            Ok(value) => finished(
                match op {
                    OpView::Declare { name } => Machine { scope: m.scope.insert(name, value), ..m },
                    _ => Machine { output: m.output.push(value), ..m },
                },
            ),
            Err(error) => stopped(m, error),
        },
{
    lemma_expression_code(m, node);
    lemma_run_concat(m, lower(node), seq![op]);
    if let Ok(value) = value_of(node, m.scope) {
        let pushed = Machine { stack: m.stack.push(value), ..m };
        lemma_run_single(pushed, op);
        assert(pushed.stack.take(pushed.stack.len() - 1) =~= m.stack);
    }
}

/// The code of a program does what the program means: for every program of
/// statements and every state, running the lowered program ends exactly where
/// performing its statements in order ends.
pub proof fn theorem_program_code(m: Machine, nodes: Seq<NodeView>)
    requires
        forall|i: int| 0 <= i < nodes.len() ==> is_statement(#[trigger] nodes[i]),
    ensures
        run(m, lower_all(nodes)) == perform_all(m, nodes),
    decreases nodes.len(),
{
    if nodes.len() > 0 {
        theorem_program_code(m, nodes.drop_last());
        lemma_run_concat(m, lower_all(nodes.drop_last()), lower(nodes.last()));
        let before = perform_all(m, nodes.drop_last());
        if before.fault is None {
            theorem_statement_code(before.end, nodes.last());
        }
    }
}

} // verus!
