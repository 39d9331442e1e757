use coconut::ast::Node;
use coconut::bytecode::{ast_to_bytecode, compile, eval, Op};
use coconut::error::EvalError;
use coconut::machine::execute;
use coconut::scope::Scope;

fn number(value: u64) -> Box<Node> {
    Box::new(Node::Number { value })
}

fn id(name: &str) -> Box<Node> {
    Box::new(Node::Id { value: name.to_string() })
}

#[test]
fn operands_come_before_their_operator() {
    let tree = Node::Add {
        lhs: number(1),
        rhs: Box::new(Node::Mul { lhs: number(2), rhs: id("x") }),
    };
    assert_eq!(
        compile(vec![tree]),
        vec![
            Op::Push { value: 1 },
            Op::Push { value: 2 },
            Op::Load { id: "x".to_string() },
            Op::Mull,
            Op::Add,
        ]
    );
}

#[test]
fn stores_follow_their_value() {
    let program = vec![
        Node::Declare { id: "x".to_string(), rhs: Some(number(1)) },
        Node::Assign { id: "x".to_string(), rhs: number(2) },
        Node::PrintLn { rhs: id("x") },
    ];
    assert_eq!(
        compile(program),
        vec![
            Op::Push { value: 1 },
            Op::Declare { name: "x".to_string() },
            Op::Push { value: 2 },
            Op::Declare { name: "x".to_string() },
            Op::Load { id: "x".to_string() },
            Op::PrintLn,
        ]
    );
}

#[test]
fn nothing_comes_of_nothing() {
    assert_eq!(compile(vec![]), vec![]);
    assert_eq!(compile(vec![Node::Empty, Node::Empty]), vec![]);
    assert_eq!(
        compile(vec![Node::Declare { id: "x".to_string(), rhs: None }]),
        vec![]
    );
}

#[test]
fn lowering_appends() {
    let mut ops = vec![Op::PrintLn];
    ast_to_bytecode(Node::Number { value: 5 }, &mut ops);
    ast_to_bytecode(Node::Empty, &mut ops);
    ast_to_bytecode(Node::Id { value: "y".to_string() }, &mut ops);
    assert_eq!(
        ops,
        vec![Op::PrintLn, Op::Push { value: 5 }, Op::Load { id: "y".to_string() }]
    );
}

#[test]
fn the_same_tree_gives_the_same_code() {
    let tree = || Node::Mul {
        lhs: Box::new(Node::Add { lhs: number(1), rhs: id("a") }),
        rhs: number(3),
    };
    assert_eq!(compile(vec![tree(), tree()]), compile(vec![tree(), tree()]));
}

#[test]
fn the_machine_pops_right_then_left() {
    let mut scope = Scope::new();
    let mut out = Vec::new();
    let ops = vec![Op::Push { value: 6 }, Op::Push { value: 7 }, Op::Mull];
    assert_eq!(execute(ops, &mut scope, &mut out), Ok(Some(42)));
    let ops = vec![
        Op::Push { value: 1 },
        Op::Push { value: 2 },
        Op::Push { value: 3 },
        Op::Add,
    ];
    assert_eq!(execute(ops, &mut scope, &mut out), Ok(Some(5)));
    assert!(out.is_empty());
}

#[test]
fn too_few_operands_are_an_error() {
    let mut scope = Scope::new();
    let mut out = Vec::new();
    assert_eq!(execute(vec![Op::Add], &mut scope, &mut out), Err(EvalError::StackUnderflow));
    assert_eq!(
        execute(vec![Op::Push { value: 1 }, Op::Mull], &mut scope, &mut out),
        Err(EvalError::StackUnderflow)
    );
    assert_eq!(execute(vec![Op::PrintLn], &mut scope, &mut out), Err(EvalError::StackUnderflow));
    assert_eq!(
        execute(vec![Op::Declare { name: "x".to_string() }], &mut scope, &mut out),
        Err(EvalError::StackUnderflow)
    );
    assert_eq!(
        execute(vec![Op::Assign { name: "x".to_string() }], &mut scope, &mut out),
        Err(EvalError::StackUnderflow)
    );
    assert_eq!(scope.get_var("x".to_string()), None);
    assert!(out.is_empty());
}

#[test]
fn assign_and_declare_store_alike() {
    let mut scope = Scope::new();
    let mut out = Vec::new();
    let ops = vec![
        Op::Push { value: 1 },
        Op::Assign { name: "x".to_string() },
        Op::Push { value: 2 },
        Op::Declare { name: "y".to_string() },
        Op::Push { value: 3 },
        Op::Declare { name: "x".to_string() },
    ];
    assert_eq!(execute(ops, &mut scope, &mut out), Ok(None));
    assert_eq!(scope.get_var("x".to_string()), Some(&3));
    assert_eq!(scope.get_var("y".to_string()), Some(&2));
}

#[test]
fn stores_before_an_error_stay() {
    let mut scope = Scope::new();
    let mut out = Vec::new();
    let program = vec![
        Node::Declare { id: "x".to_string(), rhs: Some(number(1)) },
        Node::PrintLn { rhs: id("x") },
        Node::Assign { id: "y".to_string(), rhs: id("z") },
        Node::Assign { id: "x".to_string(), rhs: number(2) },
    ];
    assert_eq!(
        eval(program, &mut scope, &mut out),
        Err(EvalError::VariableNotFound { name: "z".to_string() })
    );
    assert_eq!(scope.get_var("x".to_string()), Some(&1));
    assert_eq!(scope.get_var("y".to_string()), None);
    assert_eq!(out, vec![1]);
}

#[test]
fn a_scope_handed_on_keeps_its_bindings() {
    let mut scope = Scope::new();
    let mut out = Vec::new();
    let first = vec![Node::Declare { id: "x".to_string(), rhs: Some(number(20)) }];
    assert_eq!(eval(first, &mut scope, &mut out), Ok(None));
    let second = vec![Node::Add { lhs: id("x"), rhs: number(1) }];
    assert_eq!(eval(second, &mut scope, &mut out), Ok(Some(21)));
    let mut fresh = Scope::new();
    let third = vec![Node::Add { lhs: id("x"), rhs: number(1) }];
    assert_eq!(
        eval(third, &mut fresh, &mut out),
        Err(EvalError::VariableNotFound { name: "x".to_string() })
    );
}

#[test]
fn arithmetic_leaves_one_value_and_the_scope_alone() {
    let mut scope = Scope::new();
    scope.set_var("x".to_string(), 9);
    let mut out = Vec::new();
    let tree = Node::Mul {
        lhs: Box::new(Node::Add { lhs: number(1), rhs: number(2) }),
        rhs: Box::new(Node::Add { lhs: number(3), rhs: number(4) }),
    };
    assert_eq!(eval(vec![tree], &mut scope, &mut out), Ok(Some(21)));
    assert_eq!(scope.get_var("x".to_string()), Some(&9));
    assert!(out.is_empty());
}

#[test]
fn an_empty_operand_starves_the_operator() {
    let mut scope = Scope::new();
    let mut out = Vec::new();
    let tree = Node::Add { lhs: Box::new(Node::Empty), rhs: number(1) };
    assert_eq!(eval(vec![tree], &mut scope, &mut out), Err(EvalError::StackUnderflow));
}

#[test]
fn a_copy_is_the_same_tree() {
    let tree = Node::Declare {
        id: "x".to_string(),
        rhs: Some(Box::new(Node::Add {
            lhs: Box::new(Node::Mul { lhs: number(2), rhs: id("y") }),
            rhs: Box::new(Node::PrintLn { rhs: Box::new(Node::Empty) }),
        })),
    };
    assert_eq!(tree.clone(), tree);
    let op = Op::Load { id: "name".to_string() };
    assert_eq!(op.clone(), op);
    let error = EvalError::VariableNotFound { name: "name".to_string() };
    assert_eq!(error.clone(), error);
}

#[test]
fn empty_statements_leave_nothing() {
    let mut scope = Scope::new();
    let mut out = Vec::new();
    let program = vec![Node::Empty, Node::Number { value: 8 }, Node::Empty];
    assert_eq!(eval(program, &mut scope, &mut out), Ok(Some(8)));
    assert_eq!(eval(vec![Node::Empty], &mut scope, &mut out), Ok(None));
    assert!(out.is_empty());
}
