use coconut::error::EvalError;
use coconut::eval_str;

fn eval(input: &str) -> Result<Option<u64>, EvalError> {
    let mut out = Vec::new();
    eval_str(&input.to_string(), &mut out)
}

#[test]
fn comments() {
    assert_eq!(eval("// 2+2\n 1+1").unwrap(), Some(2), "expected 1+1=2");
    assert_eq!(eval("// 2+2").unwrap(), None, "expected 1+1=2");
}

#[test]
fn main_eval_expressions() {
    assert_eq!(eval("0+1*1*1").unwrap(), Some(1), "expected 0+1*1*1");
    assert_eq!(eval("1+1").unwrap(), Some(2), "expected 1+1=2");
    assert_eq!(eval("1*(1+2)").unwrap(), Some(3), "expected 1*(1+2)=3");
}

#[test]
fn test_comments() {
    let mut out = Vec::new();
    assert_eq!(
        eval_str(&"// 2+2\n 1+1".to_string(), &mut out).unwrap(),
        Some(2),
        "expected 1+1=2"
    );
    assert_eq!(
        eval_str(&"// 2+2".to_string(), &mut out).unwrap(),
        None,
        "expected 1+1=2"
    );
    assert!(out.is_empty());
}

#[test]
fn math_expressions() {
    let mut out = Vec::new();
    assert_eq!(
        eval_str(&"0+1*1*1".to_string(), &mut out).unwrap(),
        Some(1),
        "expected 0+1*1*1"
    );
    assert_eq!(
        eval_str(&"1+1".to_string(), &mut out).unwrap(),
        Some(2),
        "expected 1+1=2"
    );
    assert_eq!(
        eval_str(&"1*(1+2)".to_string(), &mut out).unwrap(),
        Some(3),
        "expected 1*(1+2)=3"
    );
}

#[test]
fn vars_declare_match() {
    let mut out = Vec::new();
    assert_eq!(
        eval_str(&"let x = 1; let y = 2; y + x;".to_string(), &mut out).unwrap(),
        Some(3)
    );
}

#[test]
fn vars_reassign_math() {
    let mut out = Vec::new();
    assert_eq!(
        eval_str(&"let x = 1; let y = 2; x = 3; x + y;".to_string(), &mut out).unwrap(),
        Some(5)
    );
}

#[test]
fn vars_undeclared_variable() {
    let mut out = Vec::new();
    assert_eq!(
        eval_str(&"a + 1;".to_string(), &mut out).map_err(|e| e.message()),
        Err("Variable 'a' not found".to_string())
    );
    assert_eq!(
        eval("a + 1;"),
        Err(EvalError::VariableNotFound { name: "a".to_string() })
    );
}

#[test]
fn precedence_puts_products_first() {
    assert_eq!(eval("2+3*4"), Ok(Some(14)));
    assert_eq!(eval("2*3+4"), Ok(Some(10)));
    assert_eq!(eval("(2+3)*4"), Ok(Some(20)));
    assert_eq!(eval("2*(3+4)"), Ok(Some(14)));
    assert_eq!(eval("1+2*3+4*5*6+7"), Ok(Some(134)));
}

#[test]
fn sums_and_products_overflow_as_errors() {
    assert_eq!(eval("18446744073709551615"), Ok(Some(u64::MAX)));
    assert_eq!(eval("18446744073709551615 + 0"), Ok(Some(u64::MAX)));
    assert_eq!(eval("18446744073709551615 + 1"), Err(EvalError::ArithmeticOverflow));
    assert_eq!(eval("4294967296 * 4294967296"), Err(EvalError::ArithmeticOverflow));
    assert_eq!(eval("4294967296 * 4294967295"), Ok(Some(18446744069414584320)));
    assert_eq!(eval("(18446744073709551615 + 1) * 0"), Err(EvalError::ArithmeticOverflow));
    assert_eq!(
        EvalError::ArithmeticOverflow.message(),
        "overflowed".to_string()
    );
}

#[test]
fn the_last_value_is_the_result() {
    assert_eq!(eval("1; 2; 3"), Ok(Some(3)));
    assert_eq!(eval("1; 2; 3;"), Ok(Some(3)));
    assert_eq!(eval("7; let x = 1;"), Ok(Some(7)));
    assert_eq!(eval(""), Ok(None));
    assert_eq!(eval(";;;"), Ok(None));
    assert_eq!(eval("let x = 5;"), Ok(None));
}

#[test]
fn printing_goes_to_the_output_in_order() {
    let mut out = vec![9];
    let res = eval_str(
        &"let x = 2; println(x); println(x * 21); x = x + 1; println(x); x".to_string(),
        &mut out,
    );
    assert_eq!(res, Ok(Some(3)));
    assert_eq!(out, vec![9, 2, 42, 3]);
}

#[test]
fn what_was_printed_before_an_error_stays() {
    let mut out = Vec::new();
    let res = eval_str(&"println(1); println(y); println(2);".to_string(), &mut out);
    assert_eq!(res, Err(EvalError::VariableNotFound { name: "y".to_string() }));
    assert_eq!(out, vec![1]);
}

#[test]
fn a_declaration_without_a_value_binds_nothing() {
    assert_eq!(eval("let x;"), Ok(None));
    assert_eq!(
        eval("let x; x"),
        Err(EvalError::VariableNotFound { name: "x".to_string() })
    );
    assert_eq!(eval("let x; x = 4; x"), Ok(Some(4)));
}

#[test]
fn assignment_needs_no_declaration() {
    assert_eq!(eval("x = 4; x * x"), Ok(Some(16)));
    assert_eq!(eval("let x = 1; let x = 2; x"), Ok(Some(2)));
}

#[test]
fn calls_do_not_share_bindings() {
    let mut out = Vec::new();
    assert_eq!(eval_str(&"let x = 1; x".to_string(), &mut out), Ok(Some(1)));
    assert_eq!(
        eval_str(&"x".to_string(), &mut out),
        Err(EvalError::VariableNotFound { name: "x".to_string() })
    );
}

#[test]
fn the_left_operand_fails_first() {
    assert_eq!(
        eval("a + b"),
        Err(EvalError::VariableNotFound { name: "a".to_string() })
    );
    assert_eq!(
        eval("let a = 1; a + b"),
        Err(EvalError::VariableNotFound { name: "b".to_string() })
    );
    assert_eq!(
        eval("b + 18446744073709551615 * 2"),
        Err(EvalError::VariableNotFound { name: "b".to_string() })
    );
    assert_eq!(
        eval("18446744073709551615 * 2 + b"),
        Err(EvalError::ArithmeticOverflow)
    );
}

#[test]
fn messages() {
    assert_eq!(
        eval("1 +").map_err(|e| e.message()),
        Err("Unable to parse input.".to_string())
    );
    assert_eq!(
        EvalError::VariableNotFound { name: "long_name_1".to_string() }.message(),
        "Variable 'long_name_1' not found".to_string()
    );
    assert_eq!(
        EvalError::StackUnderflow.message(),
        "Couldn't evaluate given opcodes.".to_string()
    );
}
