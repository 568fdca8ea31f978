use expr_x86::Scope;

#[test]
fn new_scope_is_empty() {
    let scope = Scope::new();
    assert_eq!(scope.get_size(), 0);
    assert!(!scope.contains("x"));
    assert_eq!(scope.get_variable_index("x"), None);
}

#[test]
fn slots_follow_the_order_of_declaration() {
    let mut scope = Scope::new();
    assert_eq!(scope.declare_or_reuse("x"), 0);
    assert_eq!(scope.declare_or_reuse("y"), 1);
    assert_eq!(scope.declare_or_reuse("z"), 2);
    assert_eq!(scope.get_size(), 3);
    assert_eq!(scope.get_variable_index("x"), Some(0));
    assert_eq!(scope.get_variable_index("y"), Some(1));
    assert_eq!(scope.get_variable_index("z"), Some(2));
}

#[test]
fn declaring_again_reuses_the_slot() {
    let mut scope = Scope::new();
    assert_eq!(scope.declare_or_reuse("x"), 0);
    assert_eq!(scope.declare_or_reuse("y"), 1);
    assert_eq!(scope.declare_or_reuse("x"), 0);
    assert_eq!(scope.get_size(), 2);
    assert!(scope.contains("x"));
    assert!(scope.contains("y"));
}

#[test]
fn names_are_compared_whole() {
    let mut scope = Scope::new();
    scope.declare_or_reuse("value");
    assert!(!scope.contains("val"));
    assert!(!scope.contains("values"));
    assert!(!scope.contains("Value"));
    assert!(!scope.contains(""));
    assert_eq!(scope.declare_or_reuse(""), 1);
    assert!(scope.contains(""));
}
