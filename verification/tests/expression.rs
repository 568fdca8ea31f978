use expr_x86::{
    BinaryOperator, Compile, ErrorKind, Expression, Factor, Scope, Term, TermOperation,
    UnaryOperator,
};

fn lower<C: Compile>(syntax: &C, scope: &mut Scope) -> (Result<(), ErrorKind>, String) {
    let mut output: Vec<u8> = Vec::new();
    let result = syntax.compile(&mut output, scope);
    (result, String::from_utf8(output).unwrap())
}

fn constant(value: i32) -> Box<Expression> {
    Box::new(Expression::Constant(value))
}

fn variable(name: &str) -> Box<Expression> {
    Box::new(Expression::Var(name.to_string()))
}

#[test]
fn constant_is_one_load() {
    let mut scope = Scope::new();
    assert_eq!(lower(&Expression::Constant(42), &mut scope), (Ok(()), "movl $42, %eax\n".to_string()));
    assert_eq!(lower(&Expression::Constant(0), &mut scope), (Ok(()), "movl $0, %eax\n".to_string()));
}

#[test]
fn constant_keeps_its_sign() {
    let mut scope = Scope::new();
    assert_eq!(lower(&Expression::Constant(-5), &mut scope).1, "movl $-5, %eax\n");
    assert_eq!(lower(&Expression::Constant(i32::MAX), &mut scope).1, "movl $2147483647, %eax\n");
    assert_eq!(lower(&Expression::Constant(i32::MIN), &mut scope).1, "movl $-2147483648, %eax\n");
}

#[test]
fn unknown_variable_is_refused() {
    let mut scope = Scope::new();
    assert_eq!(
        lower(&Expression::Var("x".to_string()), &mut scope),
        (Err(ErrorKind::UnknownVariable), String::new())
    );
}

#[test]
fn assignment_to_unknown_variable_is_refused() {
    let mut scope = Scope::new();
    let assignment = Expression::Assign("x".to_string(), constant(5));
    assert_eq!(lower(&assignment, &mut scope), (Err(ErrorKind::UnknownVariable), String::new()));
    assert_eq!(scope.get_size(), 0);
}

#[test]
fn store_and_load_use_the_same_offset() {
    let mut scope = Scope::new();
    scope.declare_or_reuse("x");
    let assignment = Expression::Assign("x".to_string(), constant(5));
    assert_eq!(
        lower(&assignment, &mut scope),
        (Ok(()), "movl $5, %eax\nmovl %eax, -4(%ebp)\n".to_string())
    );
    assert_eq!(
        lower(&Expression::Var("x".to_string()), &mut scope),
        (Ok(()), "movl -4(%ebp), %eax\n".to_string())
    );
}

#[test]
fn first_variable_is_farthest_from_the_frame_base() {
    let mut scope = Scope::new();
    scope.declare_or_reuse("a");
    scope.declare_or_reuse("b");
    scope.declare_or_reuse("c");
    assert_eq!(lower(&*variable("a"), &mut scope).1, "movl -12(%ebp), %eax\n");
    assert_eq!(lower(&*variable("b"), &mut scope).1, "movl -8(%ebp), %eax\n");
    assert_eq!(lower(&*variable("c"), &mut scope).1, "movl -4(%ebp), %eax\n");
}

#[test]
fn lowering_leaves_the_scope_alone() {
    let mut scope = Scope::new();
    scope.declare_or_reuse("a");
    let tree = Expression::BinOp(
        BinaryOperator::Addition,
        Box::new(Expression::Assign("a".to_string(), constant(1))),
        variable("b"),
    );
    let (result, _) = lower(&tree, &mut scope);
    assert_eq!(result, Err(ErrorKind::UnknownVariable));
    assert_eq!(scope.get_size(), 1);
    assert_eq!(scope.get_variable_index("a"), Some(0));
    assert_eq!(scope.get_variable_index("b"), None);
}

#[test]
fn unary_operators() {
    let mut scope = Scope::new();
    let apply = |operator: UnaryOperator| Expression::UnOp(operator, constant(7));
    assert_eq!(
        lower(&apply(UnaryOperator::Negation), &mut scope).1,
        "movl $7, %eax\nneg %eax\n"
    );
    assert_eq!(
        lower(&apply(UnaryOperator::Bitwise), &mut scope).1,
        "movl $7, %eax\nnot %eax\n"
    );
    assert_eq!(
        lower(&apply(UnaryOperator::LogicalNegation), &mut scope).1,
        "movl $7, %eax\ncmpl $0, %eax\nmovl $0, %eax\nsete %al\n"
    );
}

#[test]
fn leftmost_prefix_is_applied_last() {
    let mut scope = Scope::new();
    let tree = Expression::UnOp(
        UnaryOperator::Negation,
        Box::new(Expression::UnOp(
            UnaryOperator::Bitwise,
            Box::new(Expression::UnOp(UnaryOperator::LogicalNegation, constant(3))),
        )),
    );
    assert_eq!(
        lower(&tree, &mut scope).1,
        "movl $3, %eax\ncmpl $0, %eax\nmovl $0, %eax\nsete %al\nnot %eax\nneg %eax\n"
    );
}

#[test]
fn binary_operators() {
    let mut scope = Scope::new();
    let apply = |operator: BinaryOperator| Expression::BinOp(operator, constant(10), constant(3));
    let operands = "movl $10, %eax\npush %eax\nmovl $3, %eax\npop %ecx\n";
    assert_eq!(
        lower(&apply(BinaryOperator::Addition), &mut scope).1,
        format!("{}addl %ecx, %eax\n", operands)
    );
    assert_eq!(
        lower(&apply(BinaryOperator::Subtraction), &mut scope).1,
        format!("{}xchg %ecx, %eax\nsubl %ecx, %eax\n", operands)
    );
    assert_eq!(
        lower(&apply(BinaryOperator::Multiplication), &mut scope).1,
        format!("{}imul %ecx, %eax\n", operands)
    );
    assert_eq!(
        lower(&apply(BinaryOperator::Division), &mut scope).1,
        format!("{}xchg %ecx, %eax\nxor %edx, %edx\nidivl %ecx\n", operands)
    );
}

#[test]
fn division_clears_the_extension_and_multiplication_ignores_it() {
    let mut scope = Scope::new();
    let division = lower(
        &Expression::BinOp(BinaryOperator::Division, constant(9), constant(3)),
        &mut scope,
    ).1;
    let clear = division.find("xor %edx, %edx\n").unwrap();
    let divide = division.find("idivl %ecx\n").unwrap();
    assert!(clear < divide);
    let multiplication = lower(
        &Expression::BinOp(BinaryOperator::Multiplication, constant(9), constant(3)),
        &mut scope,
    ).1;
    assert!(!multiplication.contains("%edx"));
}

#[test]
fn nested_left_operand_is_staged() {
    let mut scope = Scope::new();
    let tree = Expression::BinOp(
        BinaryOperator::Subtraction,
        Box::new(Expression::BinOp(BinaryOperator::Addition, constant(1), constant(2))),
        Box::new(Expression::BinOp(BinaryOperator::Multiplication, constant(3), constant(4))),
    );
    assert_eq!(
        lower(&tree, &mut scope).1,
        "movl $1, %eax\npush %eax\nmovl $2, %eax\npop %ecx\naddl %ecx, %eax\n\
         push %eax\n\
         movl $3, %eax\npush %eax\nmovl $4, %eax\npop %ecx\nimul %ecx, %eax\n\
         pop %ecx\n\
         xchg %ecx, %eax\nsubl %ecx, %eax\n"
    );
}

#[test]
fn failure_keeps_what_was_written() {
    let mut scope = Scope::new();
    let tree = Expression::BinOp(BinaryOperator::Addition, constant(1), variable("y"));
    assert_eq!(
        lower(&tree, &mut scope),
        (Err(ErrorKind::UnknownVariable), "movl $1, %eax\npush %eax\n".to_string())
    );
}

#[test]
fn output_is_appended() {
    let mut scope = Scope::new();
    let mut output: Vec<u8> = b"# start\n".to_vec();
    Expression::Constant(1).compile(&mut output, &mut scope).unwrap();
    assert_eq!(output, b"# start\nmovl $1, %eax\n".to_vec());
}

#[test]
fn clone_is_equal() {
    let tree = Expression::Assign(
        "x".to_string(),
        Box::new(Expression::BinOp(
            BinaryOperator::Division,
            variable("y"),
            Box::new(Expression::UnOp(UnaryOperator::Negation, constant(2))),
        )),
    );
    assert_eq!(tree.clone(), tree);
}

#[test]
fn declare_targets_in_source_order() {
    let tree = Expression::Assign(
        "x".to_string(),
        Box::new(Expression::BinOp(
            BinaryOperator::Addition,
            Box::new(Expression::Assign("y".to_string(), constant(1))),
            Box::new(Expression::Assign("x".to_string(), variable("z"))),
        )),
    );
    let mut scope = Scope::new();
    tree.declare_targets(&mut scope);
    assert_eq!(scope.get_size(), 2);
    assert_eq!(scope.get_variable_index("x"), Some(0));
    assert_eq!(scope.get_variable_index("y"), Some(1));
    assert!(!scope.contains("z"));
}

#[test]
fn term_new_is_the_factor_alone() {
    let term = Term::new(Factor::Literal(9));
    assert_eq!(term, Term { factor: Factor::Literal(9), operations: vec![] });
    let mut scope = Scope::new();
    assert_eq!(lower(&term, &mut scope), (Ok(()), "movl $9, %eax\n".to_string()));
}

#[test]
fn term_and_its_expression_lower_alike() {
    let term = Term {
        factor: Factor::Unary(UnaryOperator::Negation, Box::new(Factor::Var("a".to_string()))),
        operations: vec![
            (TermOperation::Multiplication, Factor::Literal(3)),
            (
                TermOperation::Division,
                Factor::Parenthesized(Box::new(Expression::BinOp(
                    BinaryOperator::Addition,
                    variable("a"),
                    constant(1),
                ))),
            ),
        ],
    };
    let flat = term.to_expression();
    assert_eq!(
        flat,
        Expression::BinOp(
            BinaryOperator::Division,
            Box::new(Expression::BinOp(
                BinaryOperator::Multiplication,
                Box::new(Expression::UnOp(UnaryOperator::Negation, variable("a"))),
                constant(3),
            )),
            Box::new(Expression::BinOp(BinaryOperator::Addition, variable("a"), constant(1))),
        )
    );
    let mut scope = Scope::new();
    scope.declare_or_reuse("a");
    let from_term = lower(&term, &mut scope);
    assert_eq!(from_term.0, Ok(()));
    assert_eq!(from_term, lower(&flat, &mut scope));
    let mut empty = Scope::new();
    let failed = lower(&term, &mut empty);
    assert_eq!(failed.0, Err(ErrorKind::UnknownVariable));
    assert_eq!(failed, lower(&flat, &mut empty));
}

#[test]
fn term_stops_at_an_unknown_variable() {
    let term = Term {
        factor: Factor::Literal(1),
        operations: vec![
            (TermOperation::Multiplication, Factor::Var("q".to_string())),
            (TermOperation::Multiplication, Factor::Literal(2)),
        ],
    };
    let mut scope = Scope::new();
    assert_eq!(
        lower(&term, &mut scope),
        (Err(ErrorKind::UnknownVariable), "movl $1, %eax\npush %eax\n".to_string())
    );
}

#[test]
fn operators_lower_on_their_own() {
    let mut scope = Scope::new();
    assert_eq!(lower(&UnaryOperator::Negation, &mut scope).1, "neg %eax\n");
    assert_eq!(lower(&BinaryOperator::Addition, &mut scope).1, "addl %ecx, %eax\n");
    assert_eq!(lower(&TermOperation::Multiplication, &mut scope).1, "imul %ecx, %eax\n");
    assert_eq!(
        lower(&TermOperation::Division, &mut scope).1,
        lower(&BinaryOperator::Division, &mut scope).1
    );
}
