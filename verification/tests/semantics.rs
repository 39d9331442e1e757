use coconut::ast::Node;
use coconut::bytecode::eval;
use coconut::error::EvalError;
use coconut::parser::parse_str;
use coconut::scope::Scope;
use coconut::semantics::eval_exp;

fn number(value: u64) -> Box<Node> {
    Box::new(Node::Number { value })
}

fn id(name: &str) -> Box<Node> {
    Box::new(Node::Id { value: name.to_string() })
}

#[test]
fn a_tree_is_worth_what_its_operands_are() {
    let scope = Scope::new();
    let tree = Node::Add {
        lhs: number(2),
        rhs: Box::new(Node::Mul { lhs: number(3), rhs: number(4) }),
    };
    assert_eq!(eval_exp(&tree, &scope), Ok(14));
    assert_eq!(eval_exp(&Node::Number { value: 0 }, &scope), Ok(0));
}

#[test]
fn names_are_read_from_the_scope() {
    let mut scope = Scope::new();
    scope.set_var("x".to_string(), 5);
    let tree = Node::Mul { lhs: id("x"), rhs: id("x") };
    assert_eq!(eval_exp(&tree, &scope), Ok(25));
    let tree = Node::Add { lhs: id("x"), rhs: id("y") };
    assert_eq!(
        eval_exp(&tree, &scope),
        Err(EvalError::VariableNotFound { name: "y".to_string() })
    );
}

#[test]
fn the_first_error_wins() {
    let scope = Scope::new();
    let overflow = || Box::new(Node::Add { lhs: number(u64::MAX), rhs: number(1) });
    let tree = Node::Add { lhs: id("a"), rhs: overflow() };
    assert_eq!(
        eval_exp(&tree, &scope),
        Err(EvalError::VariableNotFound { name: "a".to_string() })
    );
    let tree = Node::Mul { lhs: overflow(), rhs: id("a") };
    assert_eq!(eval_exp(&tree, &scope), Err(EvalError::ArithmeticOverflow));
    let tree = Node::Mul { lhs: number(1 << 32), rhs: number(1 << 32) };
    assert_eq!(eval_exp(&tree, &scope), Err(EvalError::ArithmeticOverflow));
}

#[test]
fn a_statement_has_no_value() {
    let scope = Scope::new();
    assert_eq!(eval_exp(&Node::Empty, &scope), Err(EvalError::StackUnderflow));
    let tree = Node::Add { lhs: number(1), rhs: Box::new(Node::PrintLn { rhs: number(2) }) };
    assert_eq!(eval_exp(&tree, &scope), Err(EvalError::StackUnderflow));
    let tree = Node::Declare { id: "x".to_string(), rhs: Some(number(2)) };
    assert_eq!(eval_exp(&tree, &scope), Err(EvalError::StackUnderflow));
}

#[test]
fn the_machine_agrees_with_the_tree() {
    let texts = [
        "1",
        "1+2*3",
        "(1+2)*3",
        "x*x+y",
        "x*(y+z)",
        "18446744073709551615+x",
        "y*18446744073709551615",
        "(((x)))",
        "2*3*4+5*6+7",
    ];
    for text in texts {
        let mut scope = Scope::new();
        scope.set_var("x".to_string(), 3);
        scope.set_var("y".to_string(), 0);
        let mut trees = parse_str(&text.to_string()).unwrap();
        assert_eq!(trees.len(), 1);
        let direct = eval_exp(&trees[0], &scope);
        let mut out = Vec::new();
        let run = eval(vec![trees.remove(0)], &mut scope, &mut out);
        assert_eq!(run, direct.map(Some), "{}", text);
        assert!(out.is_empty());
    }
}
