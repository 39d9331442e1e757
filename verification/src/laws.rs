//! What holds of whole programs: the parser and the grammar agree on every
//! text; arithmetic comes out as arithmetic and touches neither the variables
//! nor the output; the code of a parsed program never finds the stack short
//! of operands; and a call of `eval_str` knows nothing of the calls before it.
use crate::ast::NodeView;
use crate::bytecode::{lower, lower_all, OpView};
use crate::error::{ErrorView, ParseError};
use crate::evaluation;
use crate::grammar::{
    lemma_expression_found, spells_expression, spells_factor, spells_program, spells_simple,
    spells_term, theorem_parser_is_grammar,
};
use crate::lexer::{lemma_lex_ends, lex, Lexeme, Token};
use crate::machine::{finished, outcome, run, start, step, stopped, Machine};
use crate::parser::{kind_at, parse, program_from};
use crate::semantics::{
    exact, fits, is_arithmetic, is_expression, is_statement, lemma_expression_code,
    lemma_run_concat, perform_all, theorem_program_code, value_of,
};
use crate::shape::{lemma_expression_errors, lemma_program_shape};
use vstd::prelude::*;

verus! {

/// An arithmetic tree is an expression.
pub proof fn lemma_arithmetic_is_expression(node: NodeView)
    requires
        is_arithmetic(node),
    ensures
        is_expression(node),
        is_statement(node),
    decreases node,
{
    match node {
        NodeView::Add { lhs, rhs } => {
            lemma_arithmetic_is_expression(*lhs);
            lemma_arithmetic_is_expression(*rhs);
        },
        NodeView::Mul { lhs, rhs } => {
            lemma_arithmetic_is_expression(*lhs);
            lemma_arithmetic_is_expression(*rhs);
        },
        _ => {},
    }
}

/// The value of an arithmetic tree is the number it writes, whatever the
/// variables are bound to; it is an overflow, and no other error, exactly
/// when a sum or a product in the tree does not fit in 64 bits.
pub proof fn law_arithmetic_value(node: NodeView, scope: Map<Seq<char>, u64>)
    requires
        is_arithmetic(node),
    ensures
        fits(node) ==> 0 <= exact(node) <= u64::MAX,
        value_of(node, scope) == if fits(node) {
            Ok::<u64, ErrorView>(exact(node) as u64)
        } else {
            Err::<u64, ErrorView>(ErrorView::ArithmeticOverflow)
        },
    decreases node,
{
    match node {
        NodeView::Add { lhs, rhs } => {
            law_arithmetic_value(*lhs, scope);
            law_arithmetic_value(*rhs, scope);
        },
        NodeView::Mul { lhs, rhs } => {
            law_arithmetic_value(*lhs, scope);
            law_arithmetic_value(*rhs, scope);
            if fits(*lhs) && fits(*rhs) {
                assert(0 <= exact(*lhs) * exact(*rhs)) by (nonlinear_arith)
                    requires
                        0 <= exact(*lhs),
                        0 <= exact(*rhs),
                ;
            }
        },
        _ => {},
    }
}

/// The code of an arithmetic tree, run from any state, leaves exactly one
/// more value on the stack, the number that the tree writes, and the
/// variables and the output as they were; or it stops with an overflow, and
/// the variables and the output are as they were.
pub proof fn law_arithmetic_code(m: Machine, node: NodeView)
    requires
        is_arithmetic(node),
    ensures
        run(m, lower(node)) == if fits(node) {
            finished(Machine { stack: m.stack.push(exact(node) as u64), ..m })
        } else {
            stopped(m, ErrorView::ArithmeticOverflow)
        },
{
    lemma_arithmetic_is_expression(node);
    lemma_expression_code(m, node);
    law_arithmetic_value(node, m.scope);
}

/// Whether the tree is an arithmetic tree or `Empty`.
pub open spec fn is_arithmetic_statement(node: NodeView) -> bool {
    node == NodeView::Empty || is_arithmetic(node)
}

/// Whether every arithmetic tree of the program fits.
pub open spec fn all_fit(nodes: Seq<NodeView>) -> bool {
    forall|i: int| 0 <= i < nodes.len() ==> nodes[i] == NodeView::Empty || fits(#[trigger] nodes[i])
}

/// The numbers that the arithmetic trees of a program write, in order.
pub open spec fn numbers(nodes: Seq<NodeView>) -> Seq<u64>
    decreases nodes.len(),
{
    if nodes.len() == 0 {
        Seq::empty()
    } else if nodes.last() == NodeView::Empty {
        numbers(nodes.drop_last())
    } else {
        numbers(nodes.drop_last()).push(exact(nodes.last()) as u64)
    }
}

/// A program of arithmetic trees and `Empty` alone, run from any state,
/// leaves the variables and the output as they were. Where every tree fits,
/// it leaves on the stack one value for each arithmetic tree, the number that
/// the tree writes, and nothing else: for a program with one such tree,
/// exactly one value. Else it stops with an overflow.
pub proof fn law_arithmetic_program(m: Machine, nodes: Seq<NodeView>)
    requires
        forall|i: int| 0 <= i < nodes.len() ==> is_arithmetic_statement(#[trigger] nodes[i]),
    ensures
        run(m, lower_all(nodes)) == if all_fit(nodes) {
            finished(Machine { stack: m.stack + numbers(nodes), ..m })
        } else {
            stopped(m, ErrorView::ArithmeticOverflow)
        },
    decreases nodes.len(),
{
    if nodes.len() == 0 {
        assert(m.stack + numbers(nodes) =~= m.stack);
    } else {
        let before = nodes.drop_last();
        let last = nodes.last();
        law_arithmetic_program(m, before);
        lemma_run_concat(m, lower_all(before), lower(last));
        if all_fit(before) {
            let reached = Machine { stack: m.stack + numbers(before), ..m };
            if last != NodeView::Empty {
                law_arithmetic_code(reached, last);
            }
            if last == NodeView::Empty || fits(last) {
                assert forall|i: int| 0 <= i < nodes.len() implies nodes[i] == NodeView::Empty
                    || fits(#[trigger] nodes[i]) by {
                    if i < before.len() {
                        assert(before[i] == NodeView::Empty || fits(before[i]));
                    }
                }
                if last != NodeView::Empty {
                    assert(reached.stack.push(exact(last) as u64) =~= m.stack + numbers(nodes));
                }
            } else {
                assert(!(nodes[nodes.len() - 1] == NodeView::Empty || fits(nodes[nodes.len() - 1])));
            }
        } else {
            let i = choose|i: int|
                0 <= i < before.len() && !(before[i] == NodeView::Empty || fits(
                    #[trigger] before[i],
                ));
            assert(!(nodes[i] == NodeView::Empty || fits(nodes[i])));
        }
    }
}

/// Whether the tree reads and writes no variable and prints nothing: it is
/// built of numbers, sums, products and `Empty` alone, nested in any way.
pub open spec fn is_pure(node: NodeView) -> bool
    decreases node,
{
    match node {
        NodeView::Number { .. } => true,
        NodeView::Empty => true,
        NodeView::Add { lhs, rhs } => is_pure(*lhs) && is_pure(*rhs),
        NodeView::Mul { lhs, rhs } => is_pure(*lhs) && is_pure(*rhs),
        _ => false,
    }
}

/// Whether the instruction works on the stack alone.
pub open spec fn is_pure_op(op: OpView) -> bool {
    op is Push || op is Add || op is Mull
}

/// Whether all the instructions work on the stack alone.
pub open spec fn is_pure_code(ops: Seq<OpView>) -> bool {
    forall|i: int| 0 <= i < ops.len() ==> is_pure_op(#[trigger] ops[i])
}

/// The code of a pure tree works on the stack alone.
pub proof fn lemma_pure_lower(node: NodeView)
    requires
        is_pure(node),
    ensures
        is_pure_code(lower(node)),
    decreases node,
{
    match node {
        NodeView::Add { lhs, rhs } => {
            lemma_pure_lower(*lhs);
            lemma_pure_lower(*rhs);
        },
        NodeView::Mul { lhs, rhs } => {
            lemma_pure_lower(*lhs);
            lemma_pure_lower(*rhs);
        },
        _ => {},
    }
}

/// A run of code that works on the stack alone leaves the variables and the
/// output as they were.
pub proof fn lemma_pure_run(m: Machine, ops: Seq<OpView>)
    requires
        is_pure_code(ops),
    ensures
        run(m, ops).end.scope == m.scope,
        run(m, ops).end.output == m.output,
    decreases ops.len(),
{
    if ops.len() > 0 {
        assert(is_pure_op(ops[0]));
        if let Ok(next) = step(m, ops.first()) {
            assert forall|i: int| 0 <= i < ops.drop_first().len() implies is_pure_op(
                #[trigger] ops.drop_first()[i],
            ) by {
                assert(is_pure_op(ops[i + 1]));
            }
            lemma_pure_run(next, ops.drop_first());
        }
    }
}

/// A program of pure trees, run from any state and whether or not it runs to
/// its end, leaves the variables and the output as they were.
pub proof fn law_pure_program(m: Machine, nodes: Seq<NodeView>)
    requires
        forall|i: int| 0 <= i < nodes.len() ==> is_pure(#[trigger] nodes[i]),
    ensures
        is_pure_code(lower_all(nodes)),
        run(m, lower_all(nodes)).end.scope == m.scope,
        run(m, lower_all(nodes)).end.output == m.output,
    decreases nodes.len(),
{
    if nodes.len() > 0 {
        law_pure_program(m, nodes.drop_last());
        lemma_pure_lower(nodes.last());
    }
    lemma_pure_run(m, lower_all(nodes));
}

/// How many of the trees are expressions.
pub open spec fn expressions_in(nodes: Seq<NodeView>) -> nat
    decreases nodes.len(),
{
    if nodes.len() == 0 {
        0
    } else {
        expressions_in(nodes.drop_last()) + if is_expression(nodes.last()) {
            1nat
        } else {
            0nat
        }
    }
}

/// The code of a program of statements never finds the stack short of
/// operands: it stops only where a name is not bound or where a sum or a
/// product overflows. Where it does not stop, every statement that is an
/// expression has left one value on the stack, and nothing else has.
pub proof fn law_statements_run(m: Machine, nodes: Seq<NodeView>)
    requires
        forall|i: int| 0 <= i < nodes.len() ==> is_statement(#[trigger] nodes[i]),
    ensures
        run(m, lower_all(nodes)).fault matches Some(error) ==> error is VariableNotFound
            || error is ArithmeticOverflow,
        run(m, lower_all(nodes)).fault is None ==> run(m, lower_all(nodes)).end.stack.len()
            == m.stack.len() + expressions_in(nodes),
    decreases nodes.len(),
{
    theorem_program_code(m, nodes);
    if nodes.len() > 0 {
        let before = nodes.drop_last();
        theorem_program_code(m, before);
        law_statements_run(m, before);
        let reached = perform_all(m, before);
        if reached.fault is None {
            let last = nodes.last();
            assert(is_statement(last));
            match last {
                NodeView::Empty => {},
                NodeView::Declare { rhs: None, .. } => {},
                NodeView::Declare { rhs: Some(init), .. } => {
                    lemma_expression_errors(*init, reached.end.scope);
                },
                NodeView::Assign { rhs, .. } => {
                    lemma_expression_errors(*rhs, reached.end.scope);
                },
                NodeView::PrintLn { rhs } => {
                    lemma_expression_errors(*rhs, reached.end.scope);
                },
                _ => {
                    lemma_expression_errors(last, reached.end.scope);
                },
            }
        }
    }
}

/// The evaluation of a text never finds the stack short of operands: a text
/// is no program, or its evaluation stops where a name is not bound or where
/// a sum or a product overflows, or it runs to its end.
pub proof fn law_evaluation_errors(text: Seq<char>, output: Seq<u64>)
    ensures
        evaluation(text, output).fault matches Some(error) ==> match error {
            ErrorView::ParseFailure { diagnostic } => parse(text) == Err::<
                Seq<NodeView>,
                ParseError,
            >(diagnostic),
            ErrorView::VariableNotFound { .. } => parse(text) is Ok,
            ErrorView::ArithmeticOverflow => parse(text) is Ok,
            ErrorView::StackUnderflow => false,
        },
{
    if let Ok(tokens) = lex(text) {
        lemma_program_shape(text, tokens, 0);
        if let Ok(nodes) = program_from(text, tokens, 0) {
            law_statements_run(start(Map::empty(), output), nodes);
        }
    }
}

/// The parser and the grammar agree on every text: the text parses to a
/// program exactly when it has tokens and the grammar says that the tokens
/// before the end spell that program.
pub proof fn theorem_parse_is_grammar(text: Seq<char>, nodes: Seq<NodeView>)
    ensures
        parse(text) == Ok::<Seq<NodeView>, ParseError>(nodes) <==> (lex(text) matches Ok(tokens)
            && spells_program(text, tokens, 0, tokens.len() - 1, nodes)),
{
    if let Ok(tokens) = lex(text) {
        lemma_lex_ends(text, 0);
        theorem_parser_is_grammar(text, tokens, nodes);
    }
}

/// Whether the token is one of arithmetic: a number, `+`, `*`, `(` or `)`.
pub open spec fn is_arithmetic_token(token: Token) -> bool {
    token is Number || token == Token::Plus || token == Token::Star || token == Token::Open
        || token == Token::Close
}

/// Whether the tokens from `from` up to `to` are all of arithmetic.
pub open spec fn arithmetic_between(tokens: Seq<Lexeme>, from: int, to: int) -> bool {
    forall|i: int| from <= i < to ==> is_arithmetic_token(#[trigger] kind_at(tokens, i))
}

/// Whether the text is built of numbers, `+`, `*` and parentheses alone,
/// with space and comments between them.
pub open spec fn is_arithmetic_text(text: Seq<char>) -> bool {
    lex(text) matches Ok(tokens) && arithmetic_between(tokens, 0, tokens.len() - 1)
}

/// A factor that tokens of arithmetic spell is an arithmetic tree.
pub proof fn lemma_arithmetic_factor(
    text: Seq<char>,
    tokens: Seq<Lexeme>,
    from: int,
    to: int,
    node: NodeView,
)
    requires
        spells_factor(text, tokens, from, to, node),
        arithmetic_between(tokens, from, to),
    ensures
        is_arithmetic(node),
    decreases to - from, 0nat,
{
    assert(is_arithmetic_token(kind_at(tokens, from)));
    if !(node is Number) {
        lemma_arithmetic_expression(text, tokens, from + 1, to - 1, node);
    }
}

/// A term that tokens of arithmetic spell is an arithmetic tree.
pub proof fn lemma_arithmetic_term(
    text: Seq<char>,
    tokens: Seq<Lexeme>,
    from: int,
    to: int,
    node: NodeView,
)
    requires
        spells_term(text, tokens, from, to, node),
        arithmetic_between(tokens, from, to),
    ensures
        is_arithmetic(node),
    decreases to - from, 1nat,
{
    if spells_factor(text, tokens, from, to, node) {
        lemma_arithmetic_factor(text, tokens, from, to, node);
    } else {
        let split = choose|split: int|
            from < split < to && #[trigger] kind_at(tokens, split) == Token::Star && spells_term(
                text,
                tokens,
                from,
                split,
                *node->Mul_lhs,
            ) && spells_factor(text, tokens, split + 1, to, *node->Mul_rhs);
        lemma_arithmetic_term(text, tokens, from, split, *node->Mul_lhs);
        lemma_arithmetic_factor(text, tokens, split + 1, to, *node->Mul_rhs);
    }
}

/// An expression that tokens of arithmetic spell is an arithmetic tree.
pub proof fn lemma_arithmetic_expression(
    text: Seq<char>,
    tokens: Seq<Lexeme>,
    from: int,
    to: int,
    node: NodeView,
)
    requires
        spells_expression(text, tokens, from, to, node),
        arithmetic_between(tokens, from, to),
    ensures
        is_arithmetic(node),
    decreases to - from, 2nat,
{
    if spells_term(text, tokens, from, to, node) {
        lemma_arithmetic_term(text, tokens, from, to, node);
    } else {
        let split = choose|split: int|
            from < split < to && #[trigger] kind_at(tokens, split) == Token::Plus
                && spells_expression(text, tokens, from, split, *node->Add_lhs) && spells_term(
                text,
                tokens,
                split + 1,
                to,
                *node->Add_rhs,
            );
        lemma_arithmetic_expression(text, tokens, from, split, *node->Add_lhs);
        lemma_arithmetic_term(text, tokens, split + 1, to, *node->Add_rhs);
    }
}

/// A text of arithmetic that is a program is empty, or it is one expression:
/// one arithmetic tree, which the grammar spells as an expression.
pub proof fn law_arithmetic_parse(text: Seq<char>, nodes: Seq<NodeView>)
    requires
        is_arithmetic_text(text),
        parse(text) == Ok::<Seq<NodeView>, ParseError>(nodes),
    ensures
        nodes.len() <= 1,
        nodes.len() == 0 <==> lex(text)->Ok_0.len() == 1,
        nodes.len() == 1 ==> is_arithmetic(nodes[0]) && spells_expression(
            text,
            lex(text)->Ok_0,
            0,
            lex(text)->Ok_0.len() - 1,
            nodes[0],
        ),
{
    let tokens = lex(text)->Ok_0;
    let to = tokens.len() - 1;
    lemma_lex_ends(text, 0);
    theorem_parse_is_grammar(text, nodes);
    if 0 < to {
        assert(is_arithmetic_token(kind_at(tokens, 0)));
        assert(forall|split: int|
            0 < split < to ==> is_arithmetic_token(#[trigger] kind_at(tokens, split)));
        assert(spells_expression(text, tokens, 0, to, nodes[0]));
        lemma_arithmetic_expression(text, tokens, 0, to, nodes[0]);
    }
}

/// Arithmetic comes out as arithmetic: a text of numbers, `+`, `*` and
/// parentheses that is a program and not empty evaluates to the number that
/// its expression writes, with products before sums and both grouped to the
/// left, as the grammar has it, and prints nothing; or to the overflow error,
/// where a sum or a product on the way does not fit in 64 bits.
pub proof fn law_arithmetic_text(text: Seq<char>, node: NodeView, output: Seq<u64>)
    requires
        is_arithmetic_text(text),
        parse(text) == Ok::<Seq<NodeView>, ParseError>(seq![node]),
    ensures
        is_arithmetic(node),
        spells_expression(text, lex(text)->Ok_0, 0, lex(text)->Ok_0.len() - 1, node),
        outcome(evaluation(text, output)) == if fits(node) {
            Ok::<Option<u64>, ErrorView>(Some(exact(node) as u64))
        } else {
            Err::<Option<u64>, ErrorView>(ErrorView::ArithmeticOverflow)
        },
        evaluation(text, output).end.output == output,
{
    law_arithmetic_parse(text, seq![node]);
    law_arithmetic_program(start(Map::empty(), output), seq![node]);
    assert(seq![node].drop_last() =~= Seq::<NodeView>::empty());
    assert(numbers(seq![node]) =~= seq![exact(node) as u64]) by {
        reveal_with_fuel(numbers, 2);
    }
    assert(Seq::<u64>::empty() + seq![exact(node) as u64] =~= seq![exact(node) as u64]);
    if !fits(node) {
        assert(!(seq![node][0] == NodeView::Empty || fits(seq![node][0])));
    }
}

/// What the grammar spells as one expression is a program: the parser reads
/// the text as the program of that one tree.
pub proof fn law_expression_parse(text: Seq<char>, tokens: Seq<Lexeme>, node: NodeView)
    requires
        lex(text) == Ok::<Seq<Lexeme>, ParseError>(tokens),
        spells_expression(text, tokens, 0, tokens.len() - 1, node),
    ensures
        parse(text) == Ok::<Seq<NodeView>, ParseError>(seq![node]),
{
    lemma_lex_ends(text, 0);
    lemma_expression_found(text, tokens, 0, tokens.len() - 1, node);
    assert(spells_simple(text, tokens, 0, tokens.len() - 1, seq![node][0]));
    theorem_parse_is_grammar(text, seq![node]);
}

/// A call of `eval_str` starts with no variable bound, whatever was
/// evaluated before it: a text that reads one name and does nothing else comes
/// to the error that the name is not found.
pub proof fn law_calls_share_nothing(
    first: Seq<char>,
    second: Seq<char>,
    name: Seq<char>,
    output: Seq<u64>,
)
    requires
        parse(second) == Ok::<Seq<NodeView>, ParseError>(
            seq![NodeView::Id { value: name }],
        ),
    ensures
        outcome(evaluation(second, evaluation(first, output).end.output)) == Err::<
            Option<u64>,
            ErrorView,
        >(ErrorView::VariableNotFound { name }),
{
    let node = NodeView::Id { value: name };
    let fresh = start(Map::empty(), evaluation(first, output).end.output);
    theorem_program_code(fresh, seq![node]);
    assert(seq![node].drop_last() =~= Seq::<NodeView>::empty());
    reveal_with_fuel(perform_all, 2);
}

/// A scope that is handed from one run to the next carries its bindings: a
/// program that reads one name and does nothing else comes to the value that
/// the scope binds the name to.
pub proof fn law_threaded_scope_shares(
    scope: Map<Seq<char>, u64>,
    name: Seq<char>,
    output: Seq<u64>,
)
    requires
        scope.contains_key(name),
    ensures
        outcome(run(start(scope, output), lower_all(seq![NodeView::Id { value: name }]))) == Ok::<
            Option<u64>,
            ErrorView,
        >(Some(scope[name])),
{
    let node = NodeView::Id { value: name };
    theorem_program_code(start(scope, output), seq![node]);
    assert(seq![node].drop_last() =~= Seq::<NodeView>::empty());
    reveal_with_fuel(perform_all, 2);
}

} // verus!
