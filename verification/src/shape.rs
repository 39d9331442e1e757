//! The shape of what the grammar yields: every piece that is read takes at
//! least one token, so the bounds that make the grammar's definitions well
//! founded never turn a parse down; and every tree that comes out is a
//! statement, so its code never finds the stack short of operands.
use crate::ast::NodeView;
use crate::lexer::{Lexeme, Token};
use crate::parser::{
    expression, expression_tail, factor, joined, kind_at, program_from, progressed, statement,
    term, term_tail,
};
use crate::semantics::{is_expression, is_statement, value_of};
use vstd::prelude::*;

verus! {

/// A factor that is read is an expression and takes at least one token.
pub proof fn lemma_factor_shape(text: Seq<char>, tokens: Seq<Lexeme>, at: int)
    ensures
        factor(text, tokens, at) matches Ok((node, next)) ==> progressed(tokens, at, next)
            && is_expression(node),
    decreases tokens.len() - at, 0nat,
{
    if kind_at(tokens, at) == Token::Open {
        lemma_expression_shape(text, tokens, at + 1);
    }
}

/// What follows a term is read without the bound ever failing, and makes
/// an expression of an expression.
pub proof fn lemma_term_tail_shape(text: Seq<char>, tokens: Seq<Lexeme>, at: int, lhs: NodeView)
    requires
        0 <= at <= tokens.len(),
        is_expression(lhs),
    ensures
        term_tail(text, tokens, at, lhs) == if kind_at(tokens, at) == Token::Star {
            match factor(text, tokens, at + 1) {
                Err(error) => Err(error),
                Ok((rhs, next)) => term_tail(
                    text,
                    tokens,
                    next,
                    NodeView::Mul { lhs: Box::new(lhs), rhs: Box::new(rhs) },
                ),
            }
        } else {
            Ok((lhs, at))
        },
        term_tail(text, tokens, at, lhs) matches Ok((node, next)) ==> at <= next <= tokens.len()
            && is_expression(node),
    decreases tokens.len() - at, 1nat,
{
    if kind_at(tokens, at) == Token::Star {
        lemma_factor_shape(text, tokens, at + 1);
        if let Ok((rhs, next)) = factor(text, tokens, at + 1) {
            lemma_term_tail_shape(
                text,
                tokens,
                next,
                NodeView::Mul { lhs: Box::new(lhs), rhs: Box::new(rhs) },
            );
        }
    }
}

/// A term is a factor and what follows it, without the bound ever failing;
/// a term that is read is an expression and takes at least one token.
pub proof fn lemma_term_shape(text: Seq<char>, tokens: Seq<Lexeme>, at: int)
    ensures
        term(text, tokens, at) == match factor(text, tokens, at) {
            Err(error) => Err(error),
            Ok((first, next)) => term_tail(text, tokens, next, first),
        },
        term(text, tokens, at) matches Ok((node, next)) ==> progressed(tokens, at, next)
            && is_expression(node),
    decreases tokens.len() - at, 2nat,
{
    lemma_factor_shape(text, tokens, at);
    if let Ok((first, next)) = factor(text, tokens, at) {
        lemma_term_tail_shape(text, tokens, next, first);
    }
}

/// What follows an expression is read without the bound ever failing, and
/// makes an expression of an expression.
pub proof fn lemma_expression_tail_shape(
    text: Seq<char>,
    tokens: Seq<Lexeme>,
    at: int,
    lhs: NodeView,
)
    requires
        0 <= at <= tokens.len(),
        is_expression(lhs),
    ensures
        expression_tail(text, tokens, at, lhs) == if kind_at(tokens, at) == Token::Plus {
            match term(text, tokens, at + 1) {
                Err(error) => Err(error),
                Ok((rhs, next)) => expression_tail(
                    text,
                    tokens,
                    next,
                    NodeView::Add { lhs: Box::new(lhs), rhs: Box::new(rhs) },
                ),
            }
        } else {
            Ok((lhs, at))
        },
        expression_tail(text, tokens, at, lhs) matches Ok((node, next)) ==> at <= next
            <= tokens.len() && is_expression(node),
    decreases tokens.len() - at, 3nat,
{
    if kind_at(tokens, at) == Token::Plus {
        lemma_term_shape(text, tokens, at + 1);
        if let Ok((rhs, next)) = term(text, tokens, at + 1) {
            lemma_expression_tail_shape(
                text,
                tokens,
                next,
                NodeView::Add { lhs: Box::new(lhs), rhs: Box::new(rhs) },
            );
        }
    }
}

/// An expression is a term and what follows it, without the bound ever
/// failing; an expression that is read is an expression tree and takes at
/// least one token.
pub proof fn lemma_expression_shape(text: Seq<char>, tokens: Seq<Lexeme>, at: int)
    ensures
        expression(text, tokens, at) == match term(text, tokens, at) {
            Err(error) => Err(error),
            Ok((first, next)) => expression_tail(text, tokens, next, first),
        },
        expression(text, tokens, at) matches Ok((node, next)) ==> progressed(tokens, at, next)
            && is_expression(node),
    decreases tokens.len() - at, 4nat,
{
    lemma_term_shape(text, tokens, at);
    if let Ok((first, next)) = term(text, tokens, at) {
        lemma_expression_tail_shape(text, tokens, next, first);
    }
}

/// A statement that is read where the text has not ended is a statement tree
/// and takes at least one token.
pub proof fn lemma_statement_shape(text: Seq<char>, tokens: Seq<Lexeme>, at: int)
    requires
        kind_at(tokens, at) != Token::End,
    ensures
        statement(text, tokens, at) matches Ok((node, next)) ==> progressed(tokens, at, next)
            && is_statement(node),
{
    lemma_expression_shape(text, tokens, at);
    lemma_expression_shape(text, tokens, at + 2);
    lemma_expression_shape(text, tokens, at + 3);
}

/// A program is its statements one after the other, without the bound ever
/// failing, and every tree of a program that is read is a statement.
pub proof fn lemma_program_shape(text: Seq<char>, tokens: Seq<Lexeme>, at: int)
    ensures
        program_from(text, tokens, at) == if kind_at(tokens, at) == Token::End {
            Ok(Seq::empty())
        } else {
            match statement(text, tokens, at) {
                Err(error) => Err(error),
                Ok((node, next)) => joined(seq![node], program_from(text, tokens, next)),
            }
        },
        program_from(text, tokens, at) matches Ok(nodes) ==> forall|i: int|
            0 <= i < nodes.len() ==> is_statement(#[trigger] nodes[i]),
    decreases tokens.len() - at,
{
    if kind_at(tokens, at) != Token::End {
        lemma_statement_shape(text, tokens, at);
        if let Ok((node, next)) = statement(text, tokens, at) {
            lemma_program_shape(text, tokens, next);
        }
    }
}

/// An expression has a value, or a name in it is not bound, or a sum or a
/// product in it overflows: nothing else.
pub proof fn lemma_expression_errors(node: NodeView, scope: Map<Seq<char>, u64>)
    requires
        is_expression(node),
    ensures
        value_of(node, scope) matches Err(error) ==> error is VariableNotFound
            || error is ArithmeticOverflow,
    decreases node,
{
    match node {
        NodeView::Add { lhs, rhs } => {
            lemma_expression_errors(*lhs, scope);
            lemma_expression_errors(*rhs, scope);
        },
        NodeView::Mul { lhs, rhs } => {
            lemma_expression_errors(*lhs, scope);
            lemma_expression_errors(*rhs, scope);
        },
        _ => {},
    }
}

} // verus!
