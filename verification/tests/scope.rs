use coconut::scope::Scope;

#[test]
fn expected_declare_variable() {
    let mut scope = Scope::new();
    scope.dec_var("x".to_string(), 1);
    assert_eq!(*scope.get_var("x".to_string()).unwrap(), 1);
}

#[test]
fn expected_declare_and_set_variable() {
    let mut scope = Scope::new();
    scope.dec_var("x".to_string(), 1);
    scope.set_var("x".to_string(), 2);
    assert_eq!(*scope.get_var("x".to_string()).unwrap(), 2);
}

#[test]
fn a_new_scope_binds_nothing() {
    let scope = Scope::new();
    assert_eq!(scope.get_var("x".to_string()), None);
    assert_eq!(scope.get_var("".to_string()), None);
}

#[test]
fn a_store_returns_the_value_bound_before() {
    let mut scope = Scope::new();
    assert_eq!(scope.dec_var("x".to_string(), 1), None);
    assert_eq!(scope.dec_var("x".to_string(), 2), Some(1));
    assert_eq!(scope.set_var("x".to_string(), 3), Some(2));
    assert_eq!(scope.set_var("y".to_string(), 4), None);
    assert_eq!(scope.get_var("x".to_string()), Some(&3));
    assert_eq!(scope.get_var("y".to_string()), Some(&4));
}

#[test]
fn names_are_told_apart_exactly() {
    let mut scope = Scope::new();
    scope.set_var("x".to_string(), 1);
    assert_eq!(scope.get_var("X".to_string()), None);
    assert_eq!(scope.get_var("x ".to_string()), None);
    assert_eq!(scope.get_var("xx".to_string()), None);
}
