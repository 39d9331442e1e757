//! The stack machine: its mathematical model and the loop that runs it.
use crate::bytecode::{code, Op, OpView};
use crate::error::{result_view, ErrorView, EvalError};
use crate::scope::Scope;
use vstd::prelude::*;

verus! {

/// The state of the machine between two instructions.
pub ghost struct Machine {
    /// The operands, the top last.
    pub stack: Seq<u64>,
    /// The bindings of the variables.
    pub scope: Map<Seq<char>, u64>,
    /// The values written so far, the first first.
    pub output: Seq<u64>,
}

/// The state in which a run starts: no operands, the bindings and the output
/// as the caller hands them in.
pub open spec fn start(scope: Map<Seq<char>, u64>, output: Seq<u64>) -> Machine {
    Machine { stack: Seq::empty(), scope, output }
}

/// The stack of `m` with the top `count` operands gone.
pub open spec fn popped(m: Machine, count: int) -> Seq<u64> {
    m.stack.take(m.stack.len() - count)
}

/// What one instruction makes of a state: the next state, or the error that
/// stops the run. An instruction that finds too few operands stops the run
/// with `StackUnderflow`; sums and products are checked.
pub open spec fn step(m: Machine, op: OpView) -> Result<Machine, ErrorView> {
    let depth = m.stack.len() as int;
    match op {
        OpView::Push { value } => Ok(Machine { stack: m.stack.push(value), ..m }),
        OpView::Add => if depth < 2 {
            Err(ErrorView::StackUnderflow)
        } else if m.stack[depth - 2] + m.stack[depth - 1] > u64::MAX {
            Err(ErrorView::ArithmeticOverflow)
        } else {
            Ok(
                Machine {
                    stack: popped(m, 2).push((m.stack[depth - 2] + m.stack[depth - 1]) as u64),
                    ..m
                },
            )
        },
        OpView::Mull => if depth < 2 {
            Err(ErrorView::StackUnderflow)
        } else if m.stack[depth - 2] * m.stack[depth - 1] > u64::MAX {
            Err(ErrorView::ArithmeticOverflow)
        } else {
            Ok(
                Machine {
                    stack: popped(m, 2).push((m.stack[depth - 2] * m.stack[depth - 1]) as u64),
                    ..m
                },
            )
        },
        OpView::Assign { name } | OpView::Declare { name } => if depth < 1 {
            Err(ErrorView::StackUnderflow)
        } else {
            Ok(Machine { stack: popped(m, 1), scope: m.scope.insert(name, m.stack[depth - 1]), ..m })
        },
        OpView::PrintLn => if depth < 1 {
            Err(ErrorView::StackUnderflow)
        } else {
            Ok(Machine { stack: popped(m, 1), output: m.output.push(m.stack[depth - 1]), ..m })
        },
        OpView::Load { id } => if m.scope.contains_key(id) {
            Ok(Machine { stack: m.stack.push(m.scope[id]), ..m })
        } else {
            Err(ErrorView::VariableNotFound { name: id })
        },
    }
}

/// Where a run ends.
pub ghost struct Halt {
    /// The state after the last instruction that was carried out. After an
    /// error the operands are gone: the stack is empty.
    pub end: Machine,
    /// The error that stopped the run, if one did.
    pub fault: Option<ErrorView>,
}

/// The end of a run that got through all its instructions and reached `m`.
pub open spec fn finished(m: Machine) -> Halt {
    Halt { end: m, fault: None }
}

/// The end of a run that `error` stopped in state `m`: the bindings and the
/// output stay as they were when the failing instruction began.
pub open spec fn stopped(m: Machine, error: ErrorView) -> Halt {
    Halt { end: Machine { stack: Seq::empty(), ..m }, fault: Some(error) }
}

/// Runs `ops` from state `m`, one instruction after the other, up to the end
/// or to the first instruction that fails. What earlier instructions did to
/// the bindings and the output stays done.
pub open spec fn run(m: Machine, ops: Seq<OpView>) -> Halt
    decreases ops.len(),
{
    if ops.len() == 0 {
        finished(m)
    } else {
        match step(m, ops.first()) {
            Ok(next) => run(next, ops.drop_first()),
            Err(error) => stopped(m, error),
        }
    }
}

/// What a run returns: the error that stopped it, else the top of the stack if
/// there is one.
pub open spec fn outcome(halt: Halt) -> Result<Option<u64>, ErrorView> {
    match halt.fault {
        Some(e) => Err(e),
        None => Ok(
            if halt.end.stack.len() > 0 {
                Some(halt.end.stack.last())
            } else {
                None
            },
        ),
    }
}

/// Runs `ops` in order on an empty stack with the bindings of `scope`, and
/// appends what the program prints to `out`. The first instruction that fails
/// stops the run with its error, and what earlier instructions did to `scope`
/// and `out` stays done. A run that reaches its end returns the value on top
/// of the stack, if the stack is not empty.
#[verifier::loop_isolation(false)]
pub fn execute(ops: Vec<Op>, scope: &mut Scope, out: &mut Vec<u64>) -> (res: Result<
    Option<u64>,
    EvalError,
>)
    ensures
        final(scope)@ == run(start(old(scope)@, old(out)@), code(ops@)).end.scope,
        final(out)@ == run(start(old(scope)@, old(out)@), code(ops@)).end.output,
        result_view(res) == outcome(run(start(old(scope)@, old(out)@), code(ops@))),
{
    let ghost first = start(scope@, out@);
    let ghost all = code(ops@);
    let mut stack: Vec<u64> = Vec::new();
    assert(all.skip(0) =~= all);
    for op in it: ops
        invariant
            it.seq().len() == all.len(),
            forall|i: int| 0 <= i < all.len() ==> all[i] == (#[trigger] it.seq()[i])@,
            run(first, all) == run(
                Machine { stack: stack@, scope: scope@, output: out@ },
                all.skip(it.index() as int),
            ),
    {
        let ghost here = Machine { stack: stack@, scope: scope@, output: out@ };
        let ghost rest = all.skip(it.index() as int);
        assert(rest.first() == op@);
        assert(rest.drop_first() =~= all.skip(it.index() + 1));
        match op {
            Op::Push { value } => stack.push(value),
            Op::Add => {
                if stack.len() < 2 {
                    return Err(EvalError::StackUnderflow);
                }
                let rhs = stack.pop().unwrap();
                let lhs = stack.pop().unwrap();
                match lhs.checked_add(rhs) {
                    Some(sum) => stack.push(sum),
                    None => {
                        return Err(EvalError::ArithmeticOverflow);
                    },
                }
                assert(stack@ =~= step(here, op@)->Ok_0.stack);
            },
            Op::Mull => {
                if stack.len() < 2 {
                    return Err(EvalError::StackUnderflow);
                }
                let rhs = stack.pop().unwrap();
                let lhs = stack.pop().unwrap();
                match lhs.checked_mul(rhs) {
                    Some(product) => stack.push(product),
                    None => {
                        return Err(EvalError::ArithmeticOverflow);
                    },
                }
                assert(stack@ =~= step(here, op@)->Ok_0.stack);
            },
            Op::Assign { name } => {
                match stack.pop() {
                    Some(value) => {
                        scope.set_var(name, value);
                    },
                    None => {
                        return Err(EvalError::StackUnderflow);
                    },
                }
                assert(stack@ =~= step(here, op@)->Ok_0.stack);
            },
            Op::Declare { name } => {
                match stack.pop() {
                    Some(value) => {
                        scope.dec_var(name, value);
                    },
                    None => {
                        return Err(EvalError::StackUnderflow);
                    },
                }
                assert(stack@ =~= step(here, op@)->Ok_0.stack);
            },
            Op::PrintLn => {
                match stack.pop() {
                    Some(value) => out.push(value),
                    None => {
                        return Err(EvalError::StackUnderflow);
                    },
                }
                assert(stack@ =~= step(here, op@)->Ok_0.stack);
            },
            Op::Load { id } => {
                let bound = match scope.get_var(id.clone()) {
                    Some(value) => Some(*value),
                    None => None,
                };
                match bound {
                    Some(value) => stack.push(value),
                    None => {
                        return Err(EvalError::VariableNotFound { name: id });
                    },
                }
            },
        }
    }
    Ok(stack.pop())
}

} // verus!
