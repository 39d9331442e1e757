//! The grammar, said as a relation between a stretch of tokens and the tree
//! that the stretch spells, and the proof that the parser reads a text as a
//! program exactly when the grammar says that the text spells it.
//!
//! ```text
//! program    := <nothing> | ";" program | simple ";" program | simple
//! simple     := "let" NAME | "let" NAME "=" expression | NAME "=" expression
//!             | "println" "(" expression ")" | expression
//! expression := term | expression "+" term
//! term       := factor | term "*" factor
//! factor     := NUMBER | NAME | "(" expression ")"
//! ```
//!
//! A sum's left operand may itself be a sum and its right operand may not, so
//! sums group to the left; the operands of a product are no sums unless they
//! stand in parentheses, so a product binds tighter than a sum.
use crate::ast::NodeView;
use crate::error::ParseError;
use crate::lexer::{ends_once, Lexeme, Token};
use crate::parser::{
    expression, expression_tail, factor, kind_at, name_at, program_from, statement, term,
    term_tail, terminated,
};
use vstd::prelude::*;

verus! {

/// Whether the tokens from index `from` up to, not including, index `to`
/// spell `node` as a factor: a number, a name, or an expression in
/// parentheses.
pub open spec fn spells_factor(
    text: Seq<char>,
    tokens: Seq<Lexeme>,
    from: int,
    to: int,
    node: NodeView,
) -> bool
    decreases to - from, 0nat,
{
    ||| {
        &&& to == from + 1
        &&& node is Number
        &&& kind_at(tokens, from) == Token::Number { value: node->Number_value }
    }
    ||| {
        &&& to == from + 1
        &&& kind_at(tokens, from) == Token::Name
        &&& node == NodeView::Id { value: name_at(text, tokens, from) }
    }
    ||| {
        &&& from + 2 <= to
        &&& kind_at(tokens, from) == Token::Open
        &&& kind_at(tokens, to - 1) == Token::Close
        &&& spells_expression(text, tokens, from + 1, to - 1, node)
    }
}

/// Whether the tokens from `from` up to `to` spell `node` as a term: a
/// factor, or a term, a `*` and a factor, which spell the product of the two.
pub open spec fn spells_term(
    text: Seq<char>,
    tokens: Seq<Lexeme>,
    from: int,
    to: int,
    node: NodeView,
) -> bool
    decreases to - from, 1nat,
{
    ||| spells_factor(text, tokens, from, to, node)
    ||| node is Mul && exists|split: int|
        from < split < to && #[trigger] kind_at(tokens, split) == Token::Star && spells_term(
            text,
            tokens,
            from,
            split,
            *node->Mul_lhs,
        ) && spells_factor(text, tokens, split + 1, to, *node->Mul_rhs)
}

/// Whether the tokens from `from` up to `to` spell `node` as an expression:
/// a term, or an expression, a `+` and a term, which spell the sum of the two.
pub open spec fn spells_expression(
    text: Seq<char>,
    tokens: Seq<Lexeme>,
    from: int,
    to: int,
    node: NodeView,
) -> bool
    decreases to - from, 2nat,
{
    ||| spells_term(text, tokens, from, to, node)
    ||| node is Add && exists|split: int|
        from < split < to && #[trigger] kind_at(tokens, split) == Token::Plus
            && spells_expression(text, tokens, from, split, *node->Add_lhs) && spells_term(
            text,
            tokens,
            split + 1,
            to,
            *node->Add_rhs,
        )
}

/// Whether the tokens from `from` up to `to` spell `node` as a declaration
/// without a value: `let` and a name.
pub open spec fn spells_bare_declaration(
    text: Seq<char>,
    tokens: Seq<Lexeme>,
    from: int,
    to: int,
    node: NodeView,
) -> bool {
    &&& to == from + 2
    &&& kind_at(tokens, from) == Token::Let
    &&& kind_at(tokens, from + 1) == Token::Name
    &&& node == NodeView::Declare { id: name_at(text, tokens, from + 1), rhs: None }
}

/// Whether the tokens from `from` up to `to` spell `node` as a declaration
/// with a value: `let`, a name, `=` and an expression.
pub open spec fn spells_declaration(
    text: Seq<char>,
    tokens: Seq<Lexeme>,
    from: int,
    to: int,
    node: NodeView,
) -> bool {
    &&& kind_at(tokens, from) == Token::Let
    &&& kind_at(tokens, from + 1) == Token::Name
    &&& kind_at(tokens, from + 2) == Token::Equals
    &&& node matches NodeView::Declare { id, rhs: Some(init) }
    &&& id == name_at(text, tokens, from + 1)
    &&& spells_expression(text, tokens, from + 3, to, *init)
}

/// Whether the tokens from `from` up to `to` spell `node` as an assignment:
/// a name, `=` and an expression.
pub open spec fn spells_assignment(
    text: Seq<char>,
    tokens: Seq<Lexeme>,
    from: int,
    to: int,
    node: NodeView,
) -> bool {
    &&& kind_at(tokens, from) == Token::Name
    &&& kind_at(tokens, from + 1) == Token::Equals
    &&& node matches NodeView::Assign { id, rhs }
    &&& id == name_at(text, tokens, from)
    &&& spells_expression(text, tokens, from + 2, to, *rhs)
}

/// Whether the tokens from `from` up to `to` spell `node` as a print:
/// `println` and an expression in parentheses.
pub open spec fn spells_print(
    text: Seq<char>,
    tokens: Seq<Lexeme>,
    from: int,
    to: int,
    node: NodeView,
) -> bool {
    &&& from + 3 <= to
    &&& kind_at(tokens, from) == Token::PrintLn
    &&& kind_at(tokens, from + 1) == Token::Open
    &&& kind_at(tokens, to - 1) == Token::Close
    &&& node matches NodeView::PrintLn { rhs }
    &&& spells_expression(text, tokens, from + 2, to - 1, *rhs)
}

/// Whether the tokens from `from` up to `to` spell `node` as a statement
/// without its end: a declaration with or without a value, an assignment, a
/// print, or an expression.
pub open spec fn spells_simple(
    text: Seq<char>,
    tokens: Seq<Lexeme>,
    from: int,
    to: int,
    node: NodeView,
) -> bool {
    ||| spells_bare_declaration(text, tokens, from, to, node)
    ||| spells_declaration(text, tokens, from, to, node)
    ||| spells_assignment(text, tokens, from, to, node)
    ||| spells_print(text, tokens, from, to, node)
    ||| spells_expression(text, tokens, from, to, node)
}

/// Whether the tokens from `from` up to `to` spell the program `nodes`:
/// nothing spells the empty program; a `;` alone spells `Empty`; a statement
/// ends with a `;`, and the last one may do without.
pub open spec fn spells_program(
    text: Seq<char>,
    tokens: Seq<Lexeme>,
    from: int,
    to: int,
    nodes: Seq<NodeView>,
) -> bool
    decreases to - from,
{
    if from >= to {
        nodes.len() == 0
    } else {
        &&& nodes.len() >= 1
        &&& {
            ||| {
                &&& kind_at(tokens, from) == Token::Semicolon
                &&& nodes[0] == NodeView::Empty
                &&& spells_program(text, tokens, from + 1, to, nodes.drop_first())
            }
            ||| exists|split: int|
                from < split < to && #[trigger] kind_at(tokens, split) == Token::Semicolon
                    && spells_simple(text, tokens, from, split, nodes[0]) && spells_program(
                    text,
                    tokens,
                    split + 1,
                    to,
                    nodes.drop_first(),
                )
            ||| nodes.len() == 1 && spells_simple(text, tokens, from, to, nodes[0])
        }
    }
}

/// The parser reads a factor that the grammar spells as the tree it spells.
pub proof fn lemma_factor_found(
    text: Seq<char>,
    tokens: Seq<Lexeme>,
    from: int,
    to: int,
    node: NodeView,
)
    requires
        spells_factor(text, tokens, from, to, node),
    ensures
        0 <= from < to <= tokens.len(),
        factor(text, tokens, from) == Ok::<(NodeView, int), ParseError>((node, to)),
    decreases to - from, 0nat,
{
    if from + 2 <= to && kind_at(tokens, from) == Token::Open && kind_at(tokens, to - 1)
        == Token::Close && spells_expression(text, tokens, from + 1, to - 1, node) {
        lemma_expression_found(text, tokens, from + 1, to - 1, node);
    }
}

/// The parser reads a term that the grammar spells as the tree it spells,
/// and goes on behind it with what may follow a term.
pub proof fn lemma_term_found(
    text: Seq<char>,
    tokens: Seq<Lexeme>,
    from: int,
    to: int,
    node: NodeView,
)
    requires
        spells_term(text, tokens, from, to, node),
    ensures
        0 <= from < to <= tokens.len(),
        term(text, tokens, from) == term_tail(text, tokens, to, node),
    decreases to - from, 1nat,
{
    if spells_factor(text, tokens, from, to, node) {
        lemma_factor_found(text, tokens, from, to, node);
    } else {
        let split = choose|split: int|
            from < split < to && #[trigger] kind_at(tokens, split) == Token::Star && spells_term(
                text,
                tokens,
                from,
                split,
                *node->Mul_lhs,
            ) && spells_factor(text, tokens, split + 1, to, *node->Mul_rhs);
        lemma_term_found(text, tokens, from, split, *node->Mul_lhs);
        lemma_factor_found(text, tokens, split + 1, to, *node->Mul_rhs);
        assert(node == NodeView::Mul { lhs: node->Mul_lhs, rhs: node->Mul_rhs });
    }
}

/// The parser reads an expression that the grammar spells as the tree it
/// spells, and goes on behind it with what may follow an expression, unless a
/// `*` stands there.
pub proof fn lemma_expression_found(
    text: Seq<char>,
    tokens: Seq<Lexeme>,
    from: int,
    to: int,
    node: NodeView,
)
    requires
        spells_expression(text, tokens, from, to, node),
        kind_at(tokens, to) != Token::Star,
    ensures
        0 <= from < to <= tokens.len(),
        expression(text, tokens, from) == expression_tail(text, tokens, to, node),
    decreases to - from, 2nat,
{
    if spells_term(text, tokens, from, to, node) {
        lemma_term_found(text, tokens, from, to, node);
    } else {
        let split = choose|split: int|
            from < split < to && #[trigger] kind_at(tokens, split) == Token::Plus
                && spells_expression(text, tokens, from, split, *node->Add_lhs) && spells_term(
                text,
                tokens,
                split + 1,
                to,
                *node->Add_rhs,
            );
        lemma_expression_found(text, tokens, from, split, *node->Add_lhs);
        lemma_term_found(text, tokens, split + 1, to, *node->Add_rhs);
        assert(node == NodeView::Add { lhs: node->Add_lhs, rhs: node->Add_rhs });
    }
}

/// A factor starts with a number, a name or `(`; one that starts with a name
/// is that name alone.
pub proof fn lemma_factor_starts(
    text: Seq<char>,
    tokens: Seq<Lexeme>,
    from: int,
    to: int,
    node: NodeView,
)
    requires
        spells_factor(text, tokens, from, to, node),
    ensures
        kind_at(tokens, from) is Number || kind_at(tokens, from) == Token::Name || kind_at(
            tokens,
            from,
        ) == Token::Open,
        kind_at(tokens, from) == Token::Name ==> to == from + 1,
{
}

/// A term starts with a number, a name or `(`; behind a name at its start
/// the term ends or a `*` stands.
pub proof fn lemma_term_starts(
    text: Seq<char>,
    tokens: Seq<Lexeme>,
    from: int,
    to: int,
    node: NodeView,
)
    requires
        spells_term(text, tokens, from, to, node),
    ensures
        kind_at(tokens, from) is Number || kind_at(tokens, from) == Token::Name || kind_at(
            tokens,
            from,
        ) == Token::Open,
        kind_at(tokens, from) == Token::Name ==> to == from + 1 || kind_at(tokens, from + 1)
            == Token::Star,
    decreases to - from,
{
    if spells_factor(text, tokens, from, to, node) {
        lemma_factor_starts(text, tokens, from, to, node);
    } else {
        let split = choose|split: int|
            from < split < to && #[trigger] kind_at(tokens, split) == Token::Star && spells_term(
                text,
                tokens,
                from,
                split,
                *node->Mul_lhs,
            ) && spells_factor(text, tokens, split + 1, to, *node->Mul_rhs);
        lemma_term_starts(text, tokens, from, split, *node->Mul_lhs);
    }
}

/// An expression starts with a number, a name or `(`; behind a name at its
/// start the expression ends or a `*` or a `+` stands.
pub proof fn lemma_expression_starts(
    text: Seq<char>,
    tokens: Seq<Lexeme>,
    from: int,
    to: int,
    node: NodeView,
)
    requires
        spells_expression(text, tokens, from, to, node),
    ensures
        kind_at(tokens, from) is Number || kind_at(tokens, from) == Token::Name || kind_at(
            tokens,
            from,
        ) == Token::Open,
        kind_at(tokens, from) == Token::Name ==> to == from + 1 || kind_at(tokens, from + 1)
            == Token::Star || kind_at(tokens, from + 1) == Token::Plus,
    decreases to - from,
{
    if spells_term(text, tokens, from, to, node) {
        lemma_term_starts(text, tokens, from, to, node);
    } else {
        let split = choose|split: int|
            from < split < to && #[trigger] kind_at(tokens, split) == Token::Plus
                && spells_expression(text, tokens, from, split, *node->Add_lhs) && spells_term(
                text,
                tokens,
                split + 1,
                to,
                *node->Add_rhs,
            );
        lemma_expression_starts(text, tokens, from, split, *node->Add_lhs);
    }
}

/// The parser reads a statement that the grammar spells, and that stands
/// before a `;` or the end of the text, as the tree it spells.
pub proof fn lemma_simple_found(
    text: Seq<char>,
    tokens: Seq<Lexeme>,
    from: int,
    to: int,
    node: NodeView,
)
    requires
        spells_simple(text, tokens, from, to, node),
        kind_at(tokens, to) == Token::Semicolon || kind_at(tokens, to) == Token::End,
    ensures
        0 <= from < to <= tokens.len(),
        kind_at(tokens, from) != Token::End,
        statement(text, tokens, from) == terminated(tokens, node, to),
{
    if spells_bare_declaration(text, tokens, from, to, node) {
    } else if spells_declaration(text, tokens, from, to, node) {
        if let NodeView::Declare { id, rhs: Some(init) } = node {
            lemma_expression_found(text, tokens, from + 3, to, *init);
        }
    } else if spells_assignment(text, tokens, from, to, node) {
        if let NodeView::Assign { id, rhs } = node {
            lemma_expression_found(text, tokens, from + 2, to, *rhs);
        }
    } else if spells_print(text, tokens, from, to, node) {
        if let NodeView::PrintLn { rhs } = node {
            lemma_expression_found(text, tokens, from + 2, to - 1, *rhs);
        }
    } else {
        lemma_expression_starts(text, tokens, from, to, node);
        lemma_expression_found(text, tokens, from, to, node);
    }
}

/// The parser reads a program that the grammar spells as the trees it spells.
pub proof fn lemma_program_found(
    text: Seq<char>,
    tokens: Seq<Lexeme>,
    from: int,
    to: int,
    nodes: Seq<NodeView>,
)
    requires
        0 <= from <= to,
        kind_at(tokens, to) == Token::End,
        spells_program(text, tokens, from, to, nodes),
    ensures
        program_from(text, tokens, from) == Ok::<Seq<NodeView>, ParseError>(nodes),
    decreases to - from,
{
    if from < to {
        let rest = nodes.drop_first();
        assert(nodes =~= seq![nodes[0]] + rest);
        if kind_at(tokens, from) == Token::Semicolon && nodes[0] == NodeView::Empty
            && spells_program(text, tokens, from + 1, to, rest) {
            lemma_program_found(text, tokens, from + 1, to, rest);
        } else if nodes.len() == 1 && spells_simple(text, tokens, from, to, nodes[0]) {
            lemma_simple_found(text, tokens, from, to, nodes[0]);
            assert(rest =~= Seq::<NodeView>::empty());
        } else {
            let split = choose|split: int|
                from < split < to && #[trigger] kind_at(tokens, split) == Token::Semicolon
                    && spells_simple(text, tokens, from, split, nodes[0]) && spells_program(
                    text,
                    tokens,
                    split + 1,
                    to,
                    rest,
                );
            lemma_simple_found(text, tokens, from, split, nodes[0]);
            lemma_program_found(text, tokens, split + 1, to, rest);
        }
    } else {
        assert(nodes =~= Seq::<NodeView>::empty());
    }
}

/// A factor that the parser reads is one that the grammar spells.
pub proof fn lemma_factor_spelt(text: Seq<char>, tokens: Seq<Lexeme>, at: int)
    ensures
        factor(text, tokens, at) matches Ok((node, next)) ==> spells_factor(
            text,
            tokens,
            at,
            next,
            node,
        ) && at < next <= tokens.len() && kind_at(tokens, next - 1) != Token::End,
    decreases tokens.len() - at, 0nat,
{
    if kind_at(tokens, at) == Token::Open {
        lemma_expression_spelt(text, tokens, at + 1);
    }
}

/// What the parser reads behind a term makes a term that the grammar spells
/// of one that it spells, and ends before something other than a `*`.
pub proof fn lemma_term_tail_spelt(
    text: Seq<char>,
    tokens: Seq<Lexeme>,
    from: int,
    at: int,
    lhs: NodeView,
)
    requires
        from < at <= tokens.len(),
        spells_term(text, tokens, from, at, lhs),
        kind_at(tokens, at - 1) != Token::End,
    ensures
        term_tail(text, tokens, at, lhs) matches Ok((node, next)) ==> spells_term(
            text,
            tokens,
            from,
            next,
            node,
        ) && at <= next <= tokens.len() && kind_at(tokens, next) != Token::Star && kind_at(
            tokens,
            next - 1,
        ) != Token::End,
    decreases tokens.len() - at, 1nat,
{
    if kind_at(tokens, at) == Token::Star {
        lemma_factor_spelt(text, tokens, at + 1);
        if let Ok((rhs, next)) = factor(text, tokens, at + 1) {
            if at < next <= tokens.len() {
                lemma_term_tail_spelt(
                    text,
                    tokens,
                    from,
                    next,
                    NodeView::Mul { lhs: Box::new(lhs), rhs: Box::new(rhs) },
                );
            }
        }
    }
}

/// A term that the parser reads is one that the grammar spells, and ends
/// before something other than a `*`.
pub proof fn lemma_term_spelt(text: Seq<char>, tokens: Seq<Lexeme>, at: int)
    ensures
        term(text, tokens, at) matches Ok((node, next)) ==> spells_term(
            text,
            tokens,
            at,
            next,
            node,
        ) && at < next <= tokens.len() && kind_at(tokens, next) != Token::Star && kind_at(
            tokens,
            next - 1,
        ) != Token::End,
    decreases tokens.len() - at, 2nat,
{
    lemma_factor_spelt(text, tokens, at);
    if let Ok((first, next)) = factor(text, tokens, at) {
        if at < next <= tokens.len() {
            lemma_term_tail_spelt(text, tokens, at, next, first);
        }
    }
}

/// What the parser reads behind an expression makes an expression that the
/// grammar spells of one that it spells, and ends before something other than
/// a `+` or a `*`.
pub proof fn lemma_expression_tail_spelt(
    text: Seq<char>,
    tokens: Seq<Lexeme>,
    from: int,
    at: int,
    lhs: NodeView,
)
    requires
        from < at <= tokens.len(),
        spells_expression(text, tokens, from, at, lhs),
        kind_at(tokens, at) != Token::Star,
        kind_at(tokens, at - 1) != Token::End,
    ensures
        expression_tail(text, tokens, at, lhs) matches Ok((node, next)) ==> spells_expression(
            text,
            tokens,
            from,
            next,
            node,
        ) && at <= next <= tokens.len() && kind_at(tokens, next) != Token::Star && kind_at(
            tokens,
            next,
        ) != Token::Plus && kind_at(tokens, next - 1) != Token::End,
    decreases tokens.len() - at, 3nat,
{
    if kind_at(tokens, at) == Token::Plus {
        lemma_term_spelt(text, tokens, at + 1);
        if let Ok((rhs, next)) = term(text, tokens, at + 1) {
            if at < next <= tokens.len() {
                lemma_expression_tail_spelt(
                    text,
                    tokens,
                    from,
                    next,
                    NodeView::Add { lhs: Box::new(lhs), rhs: Box::new(rhs) },
                );
            }
        }
    }
}

/// An expression that the parser reads is one that the grammar spells, and
/// ends before something other than a `+` or a `*`.
pub proof fn lemma_expression_spelt(text: Seq<char>, tokens: Seq<Lexeme>, at: int)
    ensures
        expression(text, tokens, at) matches Ok((node, next)) ==> spells_expression(
            text,
            tokens,
            at,
            next,
            node,
        ) && at < next <= tokens.len() && kind_at(tokens, next) != Token::Star && kind_at(
            tokens,
            next,
        ) != Token::Plus && kind_at(tokens, next - 1) != Token::End,
    decreases tokens.len() - at, 4nat,
{
    lemma_term_spelt(text, tokens, at);
    if let Ok((first, next)) = term(text, tokens, at) {
        if at < next <= tokens.len() {
            lemma_expression_tail_spelt(text, tokens, at, next, first);
        }
    }
}

/// A statement that the parser reads is a `;` alone, or one that the grammar
/// spells up to the index that the lemma returns, where a `;` stands, which
/// is read, or the end of the text, which is not.
pub proof fn lemma_statement_spelt(text: Seq<char>, tokens: Seq<Lexeme>, at: int) -> (end: int)
    requires
        kind_at(tokens, at) != Token::End,
    ensures
        statement(text, tokens, at) matches Ok((node, next)) ==> if kind_at(tokens, at)
            == Token::Semicolon {
            node == NodeView::Empty && next == at + 1
        } else {
            &&& spells_simple(text, tokens, at, end, node)
            &&& at < end <= tokens.len()
            &&& kind_at(tokens, end - 1) != Token::End
            &&& terminated(tokens, node, end) == Ok::<(NodeView, int), ParseError>((node, next))
        },
{
    lemma_expression_spelt(text, tokens, at);
    lemma_expression_spelt(text, tokens, at + 2);
    lemma_expression_spelt(text, tokens, at + 3);
    match kind_at(tokens, at) {
        Token::Let => if kind_at(tokens, at + 2) == Token::Equals {
            match expression(text, tokens, at + 3) {
                Ok((_, next)) => next,
                Err(_) => at,
            }
        } else {
            at + 2
        },
        Token::PrintLn => match expression(text, tokens, at + 2) {
            Ok((_, next)) => next + 1,
            Err(_) => at,
        },
        kind => if kind == Token::Name && kind_at(tokens, at + 1) == Token::Equals {
            match expression(text, tokens, at + 2) {
                Ok((_, next)) => next,
                Err(_) => at,
            }
        } else {
            match expression(text, tokens, at) {
                Ok((_, next)) => next,
                Err(_) => at,
            }
        },
    }
}

/// A program that the parser reads from tokens that end once is one that the
/// grammar spells.
pub proof fn lemma_program_spelt(text: Seq<char>, tokens: Seq<Lexeme>, at: int)
    requires
        ends_once(tokens),
        0 <= at <= tokens.len() - 1,
    ensures
        program_from(text, tokens, at) matches Ok(nodes) ==> spells_program(
            text,
            tokens,
            at,
            tokens.len() - 1,
            nodes,
        ),
    decreases tokens.len() - at,
{
    let to = tokens.len() - 1;
    if at < to {
        assert(tokens[at].token != Token::End);
        let end = lemma_statement_spelt(text, tokens, at);
        if let Ok((node, next)) = statement(text, tokens, at) {
            if at < next <= tokens.len() {
                if kind_at(tokens, at) != Token::Semicolon && kind_at(tokens, end) == Token::End {
                    assert(tokens[to].token == Token::End);
                    assert(end == to);
                }
                if next <= to {
                    lemma_program_spelt(text, tokens, next);
                    if let Ok(rest) = program_from(text, tokens, next) {
                        let nodes = seq![node] + rest;
                        assert(nodes.drop_first() =~= rest);
                        assert(nodes[0] == node);
                    }
                }
            }
        }
    }
}

/// The parser and the grammar agree: of tokens that end once, the parser
/// reads a program exactly when the grammar says that the tokens before the
/// end spell it.
pub proof fn theorem_parser_is_grammar(text: Seq<char>, tokens: Seq<Lexeme>, nodes: Seq<NodeView>)
    requires
        ends_once(tokens),
    ensures
        program_from(text, tokens, 0) == Ok::<Seq<NodeView>, ParseError>(nodes)
            <==> spells_program(text, tokens, 0, tokens.len() - 1, nodes),
{
    lemma_program_spelt(text, tokens, 0);
    if spells_program(text, tokens, 0, tokens.len() - 1, nodes) {
        lemma_program_found(text, tokens, 0, tokens.len() - 1, nodes);
    }
}

} // verus!
