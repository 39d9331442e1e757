//! The parser: reads the tokens of a source text as the syntax trees of its
//! statements, by recursive descent, looking one token ahead and, at the
//! start of a statement, two.
//!
//! ```text
//! program    := statement*
//! statement  := ";" | simple ";" | simple <end of text>
//! simple     := "let" NAME | "let" NAME "=" expression | NAME "=" expression
//!             | "println" "(" expression ")" | expression
//! expression := term ("+" term)*
//! term       := factor ("*" factor)*
//! factor     := NUMBER | NAME | "(" expression ")"
//! ```
//!
//! Sums and products group to the left, and a product binds tighter than a sum.
use crate::ast::{views, Node, NodeView};
use crate::error::ParseError;
use crate::lexer::{characters, lex, spans_within, tokenize, Lexeme, Token};
use vstd::prelude::*;
use vstd::string::StringExecFns;

verus! {

/// The kind of the token at index `at`; beyond the tokens the text has ended.
pub open spec fn kind_at(tokens: Seq<Lexeme>, at: int) -> Token {
    if 0 <= at < tokens.len() {
        tokens[at].token
    } else {
        Token::End
    }
}

/// The diagnostic for a token that cannot stand at index `at`.
pub open spec fn unexpected(tokens: Seq<Lexeme>, at: int) -> ParseError {
    ParseError::UnexpectedToken {
        offset: if 0 <= at < tokens.len() {
            tokens[at].start
        } else {
            0
        },
    }
}

/// The characters that the token at index `at` was read from.
pub open spec fn name_at(text: Seq<char>, tokens: Seq<Lexeme>, at: int) -> Seq<char> {
    text.subrange(tokens[at].start as int, tokens[at].end as int)
}

/// Whether a piece of grammar that started at token `at` and ended before
/// token `next` has read at least one token. Every successful parse below
/// has; the recursive definitions say so in order to be well founded.
pub open spec fn progressed(tokens: Seq<Lexeme>, at: int, next: int) -> bool {
    at < next <= tokens.len()
}

/// A factor at token `at`: a number, a name, or an expression in parentheses.
/// The result is the tree and the index of the token behind it.
pub open spec fn factor(text: Seq<char>, tokens: Seq<Lexeme>, at: int) -> Result<
    (NodeView, int),
    ParseError,
>
    decreases tokens.len() - at, 0nat,
{
    match kind_at(tokens, at) {
        Token::Number { value } => Ok((NodeView::Number { value }, at + 1)),
        Token::Name => Ok((NodeView::Id { value: name_at(text, tokens, at) }, at + 1)),
        Token::Open => match expression(text, tokens, at + 1) {
            Err(error) => Err(error),
            Ok((inner, next)) => if kind_at(tokens, next) == Token::Close {
                Ok((inner, next + 1))
            } else {
                Err(unexpected(tokens, next))
            },
        },
        _ => Err(unexpected(tokens, at)),
    }
}

/// What follows a term's first factors: while a `*` stands at token `at`, the
/// product of what was read so far, `lhs`, and the next factor.
pub open spec fn term_tail(text: Seq<char>, tokens: Seq<Lexeme>, at: int, lhs: NodeView) -> Result<
    (NodeView, int),
    ParseError,
>
    decreases tokens.len() - at, 1nat,
{
    if kind_at(tokens, at) == Token::Star {
        match factor(text, tokens, at + 1) {
            Err(error) => Err(error),
            Ok((rhs, next)) => if progressed(tokens, at, next) {
                term_tail(
                    text,
                    tokens,
                    next,
                    NodeView::Mul { lhs: Box::new(lhs), rhs: Box::new(rhs) },
                )
            } else {
                Err(unexpected(tokens, at))
            },
        }
    } else {
        Ok((lhs, at))
    }
}

/// A term at token `at`: factors joined by `*`, grouped to the left.
pub open spec fn term(text: Seq<char>, tokens: Seq<Lexeme>, at: int) -> Result<
    (NodeView, int),
    ParseError,
>
    decreases tokens.len() - at, 2nat,
{
    match factor(text, tokens, at) {
        Err(error) => Err(error),
        Ok((first, next)) => if progressed(tokens, at, next) {
            term_tail(text, tokens, next, first)
        } else {
            Err(unexpected(tokens, at))
        },
    }
}

/// What follows an expression's first terms: while a `+` stands at token
/// `at`, the sum of what was read so far, `lhs`, and the next term.
pub open spec fn expression_tail(
    text: Seq<char>,
    tokens: Seq<Lexeme>,
    at: int,
    lhs: NodeView,
) -> Result<(NodeView, int), ParseError>
    decreases tokens.len() - at, 3nat,
{
    if kind_at(tokens, at) == Token::Plus {
        match term(text, tokens, at + 1) {
            Err(error) => Err(error),
            Ok((rhs, next)) => if progressed(tokens, at, next) {
                expression_tail(
                    text,
                    tokens,
                    next,
                    NodeView::Add { lhs: Box::new(lhs), rhs: Box::new(rhs) },
                )
            } else {
                Err(unexpected(tokens, at))
            },
        }
    } else {
        Ok((lhs, at))
    }
}

/// An expression at token `at`: terms joined by `+`, grouped to the left.
pub open spec fn expression(text: Seq<char>, tokens: Seq<Lexeme>, at: int) -> Result<
    (NodeView, int),
    ParseError,
>
    decreases tokens.len() - at, 4nat,
{
    match term(text, tokens, at) {
        Err(error) => Err(error),
        Ok((first, next)) => if progressed(tokens, at, next) {
            expression_tail(text, tokens, next, first)
        } else {
            Err(unexpected(tokens, at))
        },
    }
}

/// The end of a statement whose tree is `node`, at token `at`: a `;`, which
/// is read, or the end of the text, which is not.
pub open spec fn terminated(tokens: Seq<Lexeme>, node: NodeView, at: int) -> Result<
    (NodeView, int),
    ParseError,
> {
    match kind_at(tokens, at) {
        Token::Semicolon => Ok((node, at + 1)),
        Token::End => Ok((node, at)),
        _ => Err(unexpected(tokens, at)),
    }
}

/// The statement `node` that ends where the expression `parsed` ends.
pub open spec fn closed_by(
    tokens: Seq<Lexeme>,
    parsed: Result<(NodeView, int), ParseError>,
    wrap: spec_fn(NodeView) -> NodeView,
) -> Result<(NodeView, int), ParseError> {
    match parsed {
        Err(error) => Err(error),
        Ok((inner, next)) => terminated(tokens, wrap(inner), next),
    }
}

/// A statement at token `at`.
pub open spec fn statement(text: Seq<char>, tokens: Seq<Lexeme>, at: int) -> Result<
    (NodeView, int),
    ParseError,
> {
    match kind_at(tokens, at) {
        Token::Semicolon => Ok((NodeView::Empty, at + 1)),
        Token::Let => if kind_at(tokens, at + 1) != Token::Name {
            Err(unexpected(tokens, at + 1))
        } else if kind_at(tokens, at + 2) == Token::Equals {
            closed_by(
                tokens,
                expression(text, tokens, at + 3),
                |init: NodeView|
                    NodeView::Declare {
                        id: name_at(text, tokens, at + 1),
                        rhs: Some(Box::new(init)),
                    },
            )
        } else {
            terminated(
                tokens,
                NodeView::Declare { id: name_at(text, tokens, at + 1), rhs: None },
                at + 2,
            )
        },
        Token::PrintLn => if kind_at(tokens, at + 1) != Token::Open {
            Err(unexpected(tokens, at + 1))
        } else {
            match expression(text, tokens, at + 2) {
                Err(error) => Err(error),
                Ok((rhs, next)) => if kind_at(tokens, next) != Token::Close {
                    Err(unexpected(tokens, next))
                } else {
                    terminated(tokens, NodeView::PrintLn { rhs: Box::new(rhs) }, next + 1)
                },
            }
        },
        kind => if kind == Token::Name && kind_at(tokens, at + 1) == Token::Equals {
            closed_by(
                tokens,
                expression(text, tokens, at + 2),
                |rhs: NodeView|
                    NodeView::Assign { id: name_at(text, tokens, at), rhs: Box::new(rhs) },
            )
        } else {
            closed_by(tokens, expression(text, tokens, at), |node: NodeView| node)
        },
    }
}

/// The trees `done` and then those of `rest`, or the error that `rest` is.
pub open spec fn joined(done: Seq<NodeView>, rest: Result<Seq<NodeView>, ParseError>) -> Result<
    Seq<NodeView>,
    ParseError,
> {
    match rest {
        Ok(more) => Ok(done + more),
        Err(error) => Err(error),
    }
}

/// The statements from token `at` up to the end of the text.
pub open spec fn program_from(text: Seq<char>, tokens: Seq<Lexeme>, at: int) -> Result<
    Seq<NodeView>,
    ParseError,
>
    decreases tokens.len() - at,
{
    if kind_at(tokens, at) == Token::End {
        Ok(Seq::empty())
    } else {
        match statement(text, tokens, at) {
            Err(error) => Err(error),
            Ok((node, next)) => if progressed(tokens, at, next) {
                joined(seq![node], program_from(text, tokens, next))
            } else {
                Err(unexpected(tokens, at))
            },
        }
    }
}

/// The program that a text is: the statements that its tokens make, or the
/// first thing that is wrong with it.
pub open spec fn parse(text: Seq<char>) -> Result<Seq<NodeView>, ParseError> {
    match lex(text) {
        Err(error) => Err(error),
        Ok(tokens) => program_from(text, tokens, 0),
    }
}

/// The model of what a parse of one piece of grammar returns.
pub open spec fn parsed(res: Result<(Node, usize), ParseError>) -> Result<
    (NodeView, int),
    ParseError,
> {
    match res {
        Ok((node, next)) => Ok((node@, next as int)),
        Err(error) => Err(error),
    }
}

/// The model of what a parse of a program returns.
pub open spec fn parsed_program(res: Result<Vec<Node>, ParseError>) -> Result<
    Seq<NodeView>,
    ParseError,
> {
    match res {
        Ok(nodes) => Ok(views(nodes@)),
        Err(error) => Err(error),
    }
}

/// The kind of the token at index `at`.
fn peek(tokens: &Vec<Lexeme>, at: usize) -> (kind: Token)
    ensures
        kind == kind_at(tokens@, at as int),
{
    if at < tokens.len() {
        tokens[at].token
    } else {
        Token::End
    }
}

/// The diagnostic for the token at index `at`.
fn reject(tokens: &Vec<Lexeme>, at: usize) -> (error: ParseError)
    ensures
        error == unexpected(tokens@, at as int),
{
    ParseError::UnexpectedToken {
        offset: if at < tokens.len() {
            tokens[at].start
        } else {
            0
        },
    }
}

/// The name that the token at index `at` was read from.
fn name(text: &str, tokens: &Vec<Lexeme>, at: usize) -> (name: String)
    requires
        at < tokens.len(),
        spans_within(text@, tokens@),
    ensures
        name@ == name_at(text@, tokens@, at as int),
{
    String::from_str(text.substring_char(tokens[at].start, tokens[at].end))
}

/// Reads a factor at token `at`.
fn parse_factor(text: &str, tokens: &Vec<Lexeme>, at: usize) -> (res: Result<
    (Node, usize),
    ParseError,
>)
    requires
        spans_within(text@, tokens@),
    ensures
        parsed(res) == factor(text@, tokens@, at as int),
        res matches Ok((_, next)) ==> progressed(tokens@, at as int, next as int),
    decreases tokens.len() - at, 0nat,
{
    match peek(tokens, at) {
        Token::Number { value } => Ok((Node::Number { value }, at + 1)),
        Token::Name => Ok((Node::Id { value: name(text, tokens, at) }, at + 1)),
        Token::Open => {
            let (inner, next) = match parse_expression(text, tokens, at + 1) {
                Ok(found) => found,
                Err(error) => {
                    return Err(error);
                },
            };
            if peek(tokens, next) == Token::Close {
                Ok((inner, next + 1))
            } else {
                Err(reject(tokens, next))
            }
        },
        _ => Err(reject(tokens, at)),
    }
}

/// Reads a term at token `at`.
fn parse_term(text: &str, tokens: &Vec<Lexeme>, at: usize) -> (res: Result<
    (Node, usize),
    ParseError,
>)
    requires
        spans_within(text@, tokens@),
    ensures
        parsed(res) == term(text@, tokens@, at as int),
        res matches Ok((_, next)) ==> progressed(tokens@, at as int, next as int),
    decreases tokens.len() - at, 2nat,
{
    let (mut lhs, mut next) = match parse_factor(text, tokens, at) {
        Ok(found) => found,
        Err(error) => {
            return Err(error);
        },
    };
    while peek(tokens, next) == Token::Star
        invariant
            spans_within(text@, tokens@),
            progressed(tokens@, at as int, next as int),
            term(text@, tokens@, at as int) == term_tail(text@, tokens@, next as int, lhs@),
        decreases tokens.len() - next,
    {
        let (rhs, after) = match parse_factor(text, tokens, next + 1) {
            Ok(found) => found,
            Err(error) => {
                return Err(error);
            },
        };
        lhs = Node::Mul { lhs: Box::new(lhs), rhs: Box::new(rhs) };
        next = after;
    }
    Ok((lhs, next))
}

/// Reads an expression at token `at`.
fn parse_expression(text: &str, tokens: &Vec<Lexeme>, at: usize) -> (res: Result<
    (Node, usize),
    ParseError,
>)
    requires
        spans_within(text@, tokens@),
    ensures
        parsed(res) == expression(text@, tokens@, at as int),
        res matches Ok((_, next)) ==> progressed(tokens@, at as int, next as int),
    decreases tokens.len() - at, 4nat,
{
    let (mut lhs, mut next) = match parse_term(text, tokens, at) {
        Ok(found) => found,
        Err(error) => {
            return Err(error);
        },
    };
    while peek(tokens, next) == Token::Plus
        invariant
            spans_within(text@, tokens@),
            progressed(tokens@, at as int, next as int),
            expression(text@, tokens@, at as int) == expression_tail(
                text@,
                tokens@,
                next as int,
                lhs@,
            ),
        decreases tokens.len() - next,
    {
        let (rhs, after) = match parse_term(text, tokens, next + 1) {
            Ok(found) => found,
            Err(error) => {
                return Err(error);
            },
        };
        lhs = Node::Add { lhs: Box::new(lhs), rhs: Box::new(rhs) };
        next = after;
    }
    Ok((lhs, next))
}

/// Reads the end of the statement `node` at token `at`.
fn finish(tokens: &Vec<Lexeme>, node: Node, at: usize) -> (res: Result<(Node, usize), ParseError>)
    requires
        at <= tokens.len(),
    ensures
        parsed(res) == terminated(tokens@, node@, at as int),
        res matches Ok((_, next)) ==> at <= next <= tokens.len(),
{
    match peek(tokens, at) {
        Token::Semicolon => Ok((node, at + 1)),
        Token::End => Ok((node, at)),
        _ => Err(reject(tokens, at)),
    }
}

/// Reads a statement at token `at`, where the text has not ended.
fn parse_statement(text: &str, tokens: &Vec<Lexeme>, at: usize) -> (res: Result<
    (Node, usize),
    ParseError,
>)
    requires
        spans_within(text@, tokens@),
        kind_at(tokens@, at as int) != Token::End,
    ensures
        parsed(res) == statement(text@, tokens@, at as int),
        res matches Ok((_, next)) ==> progressed(tokens@, at as int, next as int),
{
    assert(at < tokens.len());
    match peek(tokens, at) {
        Token::Semicolon => Ok((Node::Empty, at + 1)),
        Token::Let => {
            if peek(tokens, at + 1) != Token::Name {
                return Err(reject(tokens, at + 1));
            }
            let id = name(text, tokens, at + 1);
            if peek(tokens, at + 2) == Token::Equals {
                match parse_expression(text, tokens, at + 3) {
                    Ok((init, next)) => finish(
                        tokens,
                        Node::Declare { id, rhs: Some(Box::new(init)) },
                        next,
                    ),
                    Err(error) => Err(error),
                }
            } else {
                finish(tokens, Node::Declare { id, rhs: None }, at + 2)
            }
        },
        Token::PrintLn => {
            if peek(tokens, at + 1) != Token::Open {
                return Err(reject(tokens, at + 1));
            }
            match parse_expression(text, tokens, at + 2) {
                Ok((rhs, next)) => {
                    if peek(tokens, next) != Token::Close {
                        return Err(reject(tokens, next));
                    }
                    finish(tokens, Node::PrintLn { rhs: Box::new(rhs) }, next + 1)
                },
                Err(error) => Err(error),
            }
        },
        kind => {
            if kind == Token::Name && peek(tokens, at + 1) == Token::Equals {
                let id = name(text, tokens, at);
                match parse_expression(text, tokens, at + 2) {
                    Ok((rhs, next)) => finish(tokens, Node::Assign { id, rhs: Box::new(rhs) }, next),
                    Err(error) => Err(error),
                }
            } else {
                match parse_expression(text, tokens, at) {
                    Ok((node, next)) => finish(tokens, node, next),
                    Err(error) => Err(error),
                }
            }
        },
    }
}

/// The statements that `tokens`, read from `text`, make.
fn parse_program(text: &str, tokens: &Vec<Lexeme>) -> (res: Result<Vec<Node>, ParseError>)
    requires
        spans_within(text@, tokens@),
    ensures
        parsed_program(res) == program_from(text@, tokens@, 0),
{
    let mut nodes: Vec<Node> = Vec::new();
    let mut at: usize = 0;
    assert(joined(views(nodes@), program_from(text@, tokens@, 0)) == program_from(
        text@,
        tokens@,
        0,
    )) by {
        if let Ok(more) = program_from(text@, tokens@, 0) {
            assert(views(nodes@) + more =~= more);
        }
    }
    while peek(tokens, at) != Token::End
        invariant
            spans_within(text@, tokens@),
            at <= tokens.len(),
            program_from(text@, tokens@, 0) == joined(
                views(nodes@),
                program_from(text@, tokens@, at as int),
            ),
        decreases tokens.len() - at,
    {
        let (node, next) = match parse_statement(text, tokens, at) {
            Ok(found) => found,
            Err(error) => {
                return Err(error);
            },
        };
        proof {
            assert(views(nodes@.push(node)) =~= views(nodes@).push(node@));
            if let Ok(more) = program_from(text@, tokens@, next as int) {
                assert(views(nodes@) + (seq![node@] + more) =~= views(nodes@).push(node@) + more);
            }
        }
        nodes.push(node);
        at = next;
    }
    assert(views(nodes@) + Seq::<NodeView>::empty() =~= views(nodes@));
    Ok(nodes)
}

/// Parses a source text: the trees of its statements in order, or the first
/// thing that is wrong with the text.
pub fn parse_str(input: &String) -> (res: Result<Vec<Node>, ParseError>)
    ensures
        parsed_program(res) == parse(input@),
{
    let text = characters(input.as_str());
    let tokens = match tokenize(&text) {
        Ok(tokens) => tokens,
        Err(error) => {
            return Err(error);
        },
    };
    parse_program(input.as_str(), &tokens)
}

} // verus!
