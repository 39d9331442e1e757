use coconut::ast::Node;
use coconut::error::ParseError;
use coconut::lexer::{characters, tokenize, Lexeme, Token};
use coconut::parser::parse_str;

fn parse(input: &str) -> Result<Vec<Node>, ParseError> {
    parse_str(&input.to_string())
}

fn kinds(input: &str) -> Result<Vec<Token>, ParseError> {
    tokenize(&characters(input)).map(|tokens| tokens.iter().map(|lexeme| lexeme.token).collect())
}

fn number(value: u64) -> Box<Node> {
    Box::new(Node::Number { value })
}

fn id(name: &str) -> Box<Node> {
    Box::new(Node::Id { value: name.to_string() })
}

#[test]
fn characters_are_those_of_the_string() {
    assert_eq!(characters(""), Vec::<char>::new());
    assert_eq!(characters("a+1"), vec!['a', '+', '1']);
    assert_eq!(characters("é//"), vec!['é', '/', '/']);
}

#[test]
fn tokens_carry_their_place() {
    let text = characters(" let x1 = 42;");
    assert_eq!(
        tokenize(&text),
        Ok(vec![
            Lexeme { token: Token::Let, start: 1, end: 4 },
            Lexeme { token: Token::Name, start: 5, end: 7 },
            Lexeme { token: Token::Equals, start: 8, end: 9 },
            Lexeme { token: Token::Number { value: 42 }, start: 10, end: 12 },
            Lexeme { token: Token::Semicolon, start: 12, end: 13 },
            Lexeme { token: Token::End, start: 13, end: 13 },
        ])
    );
}

#[test]
fn an_empty_text_has_the_end_token_alone() {
    assert_eq!(tokenize(&vec![]), Ok(vec![Lexeme { token: Token::End, start: 0, end: 0 }]));
    assert_eq!(kinds("  \t\r\n "), Ok(vec![Token::End]));
    assert_eq!(kinds("// nothing here"), Ok(vec![Token::End]));
}

#[test]
fn words_are_keywords_or_names() {
    assert_eq!(
        kinds("let println lets print _ let_ Let x9"),
        Ok(vec![
            Token::Let,
            Token::PrintLn,
            Token::Name,
            Token::Name,
            Token::Name,
            Token::Name,
            Token::Name,
            Token::Name,
            Token::End,
        ])
    );
}

#[test]
fn signs_are_one_character_each() {
    assert_eq!(
        kinds("+*()=;"),
        Ok(vec![
            Token::Plus,
            Token::Star,
            Token::Open,
            Token::Close,
            Token::Equals,
            Token::Semicolon,
            Token::End,
        ])
    );
}

#[test]
fn a_literal_takes_all_its_digits() {
    assert_eq!(
        kinds("007 18446744073709551615 12a"),
        Ok(vec![
            Token::Number { value: 7 },
            Token::Number { value: u64::MAX },
            Token::Number { value: 12 },
            Token::Name,
            Token::End,
        ])
    );
}

#[test]
fn a_literal_above_the_range_is_refused() {
    assert_eq!(kinds("1 + 18446744073709551616"), Err(ParseError::NumberTooLarge { offset: 4 }));
    assert_eq!(
        kinds("99999999999999999999999999999999"),
        Err(ParseError::NumberTooLarge { offset: 0 })
    );
    assert_eq!(kinds("000000000000000000000000000001"), Ok(vec![Token::Number { value: 1 }, Token::End]));
}

#[test]
fn a_stray_character_is_refused() {
    assert_eq!(kinds("1 - 2"), Err(ParseError::UnexpectedChar { offset: 2 }));
    assert_eq!(kinds("1 / 2"), Err(ParseError::UnexpectedChar { offset: 2 }));
    assert_eq!(kinds("é"), Err(ParseError::UnexpectedChar { offset: 0 }));
    assert_eq!(kinds("x = 1; #"), Err(ParseError::UnexpectedChar { offset: 7 }));
}

#[test]
fn a_comment_ends_with_its_line() {
    assert_eq!(
        kinds("1 // + 2 é #\n+ 3 // end"),
        Ok(vec![
            Token::Number { value: 1 },
            Token::Plus,
            Token::Number { value: 3 },
            Token::End,
        ])
    );
    assert_eq!(kinds("1 //"), Ok(vec![Token::Number { value: 1 }, Token::End]));
}

#[test]
fn sums_and_products_group_to_the_left() {
    assert_eq!(
        parse("1+2+3"),
        Ok(vec![Node::Add {
            lhs: Box::new(Node::Add { lhs: number(1), rhs: number(2) }),
            rhs: number(3),
        }])
    );
    assert_eq!(
        parse("1*2*3"),
        Ok(vec![Node::Mul {
            lhs: Box::new(Node::Mul { lhs: number(1), rhs: number(2) }),
            rhs: number(3),
        }])
    );
}

#[test]
fn a_product_binds_tighter_than_a_sum() {
    assert_eq!(
        parse("1+2*3"),
        Ok(vec![Node::Add {
            lhs: number(1),
            rhs: Box::new(Node::Mul { lhs: number(2), rhs: number(3) }),
        }])
    );
    assert_eq!(
        parse("1*2+3"),
        Ok(vec![Node::Add {
            lhs: Box::new(Node::Mul { lhs: number(1), rhs: number(2) }),
            rhs: number(3),
        }])
    );
    assert_eq!(
        parse("1*(2+3)"),
        Ok(vec![Node::Mul {
            lhs: number(1),
            rhs: Box::new(Node::Add { lhs: number(2), rhs: number(3) }),
        }])
    );
    assert_eq!(parse("((7))"), Ok(vec![Node::Number { value: 7 }]));
}

#[test]
fn statements_of_every_form() {
    assert_eq!(
        parse("let a; let b = a + 1; b = 2; println(b); b; ;"),
        Ok(vec![
            Node::Declare { id: "a".to_string(), rhs: None },
            Node::Declare {
                id: "b".to_string(),
                rhs: Some(Box::new(Node::Add { lhs: id("a"), rhs: number(1) })),
            },
            Node::Assign { id: "b".to_string(), rhs: number(2) },
            Node::PrintLn { rhs: id("b") },
            Node::Id { value: "b".to_string() },
            Node::Empty,
        ])
    );
}

#[test]
fn the_last_statement_may_lack_its_semicolon() {
    assert_eq!(parse("x = 1"), Ok(vec![Node::Assign { id: "x".to_string(), rhs: number(1) }]));
    assert_eq!(parse("println(1)"), Ok(vec![Node::PrintLn { rhs: number(1) }]));
    assert_eq!(parse("let x"), Ok(vec![Node::Declare { id: "x".to_string(), rhs: None }]));
    assert_eq!(parse(""), Ok(vec![]));
    assert_eq!(parse("// only this"), Ok(vec![]));
}

#[test]
fn a_token_out_of_place_is_refused_where_it_stands() {
    assert_eq!(parse("1 +"), Err(ParseError::UnexpectedToken { offset: 3 }));
    assert_eq!(parse("1 2"), Err(ParseError::UnexpectedToken { offset: 2 }));
    assert_eq!(parse("(1 + 2"), Err(ParseError::UnexpectedToken { offset: 6 }));
    assert_eq!(parse("1 + )"), Err(ParseError::UnexpectedToken { offset: 4 }));
    assert_eq!(parse("let 1 = 2;"), Err(ParseError::UnexpectedToken { offset: 4 }));
    assert_eq!(parse("let x = ;"), Err(ParseError::UnexpectedToken { offset: 8 }));
    assert_eq!(parse("println 1;"), Err(ParseError::UnexpectedToken { offset: 8 }));
    assert_eq!(parse("println(1;"), Err(ParseError::UnexpectedToken { offset: 9 }));
    assert_eq!(parse("1; = 2"), Err(ParseError::UnexpectedToken { offset: 3 }));
    assert_eq!(parse("(x = 1)"), Err(ParseError::UnexpectedToken { offset: 3 }));
    assert_eq!(parse("1 + let"), Err(ParseError::UnexpectedToken { offset: 4 }));
}

#[test]
fn the_lexer_errs_before_the_parser() {
    assert_eq!(parse("1 + + 2 - 3"), Err(ParseError::UnexpectedChar { offset: 8 }));
}
