//! Bytecode: the instruction set of the stack machine and the lowering of
//! syntax trees to instruction sequences.
use crate::ast::{views, Node, NodeView};
use crate::error::{result_view, EvalError};
use crate::machine::{execute, outcome, run, start};
use crate::scope::Scope;
use vstd::prelude::*;

verus! {

/// One instruction of the stack machine.
#[derive(Debug, PartialEq)]
pub enum Op {
    /// Pops the right operand, then the left one, and pushes their sum.
    Add,
    /// Pops the right operand, then the left one, and pushes their product.
    Mull,
    /// Pushes a constant.
    Push { value: u64 },
    /// Pops a value and binds the name to it.
    Assign { name: String },
    /// Pops a value and binds the name to it; at run time it is `Assign`.
    Declare { name: String },
    /// Pops a value and writes it to the output.
    PrintLn,
    /// Pushes the value bound to the name.
    Load { id: String },
}

impl Clone for Op {
    /// A copy of the instruction: the same instruction.
    fn clone(&self) -> (copy: Self)
        ensures
            copy == *self,
    {
        match self {
            Op::Add => Op::Add,
            Op::Mull => Op::Mull,
            Op::Push { value } => Op::Push { value: *value },
            Op::Assign { name } => Op::Assign { name: name.clone() },
            Op::Declare { name } => Op::Declare { name: name.clone() },
            Op::PrintLn => Op::PrintLn,
            Op::Load { id } => Op::Load { id: id.clone() },
        }
    }
}

/// The model of an [`Op`], with names as character sequences.
pub ghost enum OpView {
    Add,
    Mull,
    Push { value: u64 },
    Assign { name: Seq<char> },
    Declare { name: Seq<char> },
    PrintLn,
    Load { id: Seq<char> },
}

impl View for Op {
    type V = OpView;

    open spec fn view(&self) -> OpView {
        match self {
            Op::Add => OpView::Add,
            Op::Mull => OpView::Mull,
            Op::Push { value } => OpView::Push { value: *value },
            Op::Assign { name } => OpView::Assign { name: name@ },
            Op::Declare { name } => OpView::Declare { name: name@ },
            Op::PrintLn => OpView::PrintLn,
            Op::Load { id } => OpView::Load { id: id@ },
        }
    }
}

/// The models of a sequence of instructions, in order.
pub open spec fn code(ops: Seq<Op>) -> Seq<OpView> {
    Seq::new(ops.len(), |i: int| ops[i]@)
}

/// The instructions that one tree lowers to: operands before their operator,
/// left before right. A store follows the value it stores; both `Declare` and
/// `Assign` nodes lower to the `Declare` instruction. A declaration without an
/// initialiser lowers to nothing at all, and so does `Empty`.
pub open spec fn lower(node: NodeView) -> Seq<OpView>
    decreases node,
{
    match node {
        NodeView::Add { lhs, rhs } => lower(*lhs) + lower(*rhs) + seq![OpView::Add],
        NodeView::Mul { lhs, rhs } => lower(*lhs) + lower(*rhs) + seq![OpView::Mull],
        NodeView::Number { value } => seq![OpView::Push { value }],
        NodeView::Id { value } => seq![OpView::Load { id: value }],
        NodeView::PrintLn { rhs } => lower(*rhs) + seq![OpView::PrintLn],
        NodeView::Assign { id, rhs } => lower(*rhs) + seq![OpView::Declare { name: id }],
        NodeView::Declare { id, rhs } => match rhs {
            Some(init) => lower(*init) + seq![OpView::Declare { name: id }],
            None => Seq::empty(),
        },
        NodeView::Empty => Seq::empty(),
    }
}

/// The instructions that a program lowers to: those of its trees, in order.
pub open spec fn lower_all(nodes: Seq<NodeView>) -> Seq<OpView>
    decreases nodes.len(),
{
    if nodes.len() == 0 {
        Seq::empty()
    } else {
        lower_all(nodes.drop_last()) + lower(nodes.last())
    }
}

/// The model of a sequence with one more instruction is the model of the
/// sequence with the model of that instruction behind it.
pub proof fn lemma_code_push(ops: Seq<Op>, op: Op)
    ensures
        code(ops.push(op)) == code(ops).push(op@),
{
    assert(code(ops.push(op)) =~= code(ops).push(op@));
}

/// Appends the instructions of `node` to `ops`.
pub fn ast_to_bytecode(node: Node, ops: &mut Vec<Op>)
    ensures
        code(final(ops)@) == code(old(ops)@) + lower(node@),
    decreases node,
{
    let ghost before = code(ops@);
    match node {
        Node::Add { lhs, rhs } => {
            ast_to_bytecode(*lhs, ops);
            ast_to_bytecode(*rhs, ops);
            proof {
                lemma_code_push(ops@, Op::Add);
            }
            ops.push(Op::Add);
            assert(code(ops@) =~= before + lower(node@));
        },
        Node::Mul { lhs, rhs } => {
            ast_to_bytecode(*lhs, ops);
            ast_to_bytecode(*rhs, ops);
            proof {
                lemma_code_push(ops@, Op::Mull);
            }
            ops.push(Op::Mull);
            assert(code(ops@) =~= before + lower(node@));
        },
        Node::Number { value } => {
            proof {
                lemma_code_push(ops@, Op::Push { value });
            }
            ops.push(Op::Push { value });
            assert(code(ops@) =~= before + lower(node@));
        },
        Node::Declare { id, rhs } => {
            if let Some(init) = rhs {
                ast_to_bytecode(*init, ops);
                proof {
                    lemma_code_push(ops@, Op::Declare { name: id });
                }
                ops.push(Op::Declare { name: id });
            }
            assert(code(ops@) =~= before + lower(node@));
        },
        Node::Assign { id, rhs } => {
            ast_to_bytecode(*rhs, ops);
            proof {
                lemma_code_push(ops@, Op::Declare { name: id });
            }
            ops.push(Op::Declare { name: id });
            assert(code(ops@) =~= before + lower(node@));
        },
        Node::Id { value } => {
            proof {
                lemma_code_push(ops@, Op::Load { id: value });
            }
            ops.push(Op::Load { id: value });
            assert(code(ops@) =~= before + lower(node@));
        },
        Node::PrintLn { rhs } => {
            ast_to_bytecode(*rhs, ops);
            proof {
                lemma_code_push(ops@, Op::PrintLn);
            }
            ops.push(Op::PrintLn);
            assert(code(ops@) =~= before + lower(node@));
        },
        Node::Empty => {
            assert(code(ops@) =~= before + lower(node@));
        },
    }
}

/// Lowers a program: the instructions of its trees, in order.
pub fn compile(ast: Vec<Node>) -> (ops: Vec<Op>)
    ensures
        code(ops@) == lower_all(views(ast@)),
{
    let mut ops: Vec<Op> = Vec::new();
    let ghost all = views(ast@);
    assert(code(ops@) =~= lower_all(all.take(0)));
    for node in it: ast
        invariant
            it.seq().len() == all.len(),
            forall|i: int| 0 <= i < all.len() ==> all[i] == (#[trigger] it.seq()[i])@,
            code(ops@) == lower_all(all.take(it.index() as int)),
    {
        assert(all.take(it.index() + 1).drop_last() =~= all.take(it.index() as int));
        ast_to_bytecode(node, &mut ops);
    }
    assert(all.take(all.len() as int) =~= all);
    ops
}

/// Lowers the program `ast` and runs it on an empty stack with the bindings of
/// `scope`. What the program prints is appended to `out`; the result is the
/// value left on top of the stack, if any. An error stops the run at once:
/// what the program did to `scope` and `out` before stays done.
pub fn eval(ast: Vec<Node>, scope: &mut Scope, out: &mut Vec<u64>) -> (res: Result<
    Option<u64>,
    EvalError,
>)
    ensures
        final(scope)@ == run(start(old(scope)@, old(out)@), lower_all(views(ast@))).end.scope,
        final(out)@ == run(start(old(scope)@, old(out)@), lower_all(views(ast@))).end.output,
        result_view(res) == outcome(run(start(old(scope)@, old(out)@), lower_all(views(ast@)))),
{
    let ops = compile(ast);
    execute(ops, scope, out)
}

} // verus!
