use expr_x86::{
    parse, parse_expression, parse_factor, parse_int_literal, parse_term, BinaryOperator, Expression,
    Factor, Scope, SyntaxError, Term, TermOperation, UnaryOperator,
};
use expr_x86::Expression::{BinOp, Constant, UnOp, Var};

fn constant(value: i32) -> Box<Expression> {
    Box::new(Constant(value))
}

#[test]
fn test_parse_simple_expression() {
    assert_eq!(parse_expression("42".as_bytes()), Ok(("".as_bytes(), Constant(42))));
}

#[test]
fn test_parse_unary_operator() {
    assert_eq!(parse_expression("!42".as_bytes()),
               Ok(("".as_bytes(),
                   UnOp(UnaryOperator::LogicalNegation,
                        Box::new(Constant(42))))));
    assert_eq!(parse_expression("!!42".as_bytes()),
               Ok(("".as_bytes(),
                   UnOp(UnaryOperator::LogicalNegation,
                        Box::new(UnOp(UnaryOperator::LogicalNegation, Box::new(Constant(42))))))));
    assert_eq!(parse_expression("~42".as_bytes()),
               Ok(("".as_bytes(),
                   UnOp(UnaryOperator::Bitwise,
                        Box::new(Constant(42))))));
    assert_eq!(parse_expression("-42".as_bytes()),
               Ok(("".as_bytes(),
                   UnOp(UnaryOperator::Negation,
                        Box::new(Constant(42))))));
}

#[test]
fn test_parse_int_literal() {
    assert_eq!(parse_int_literal("42".as_bytes()), Ok(("".as_bytes(), Constant(42))));
}

#[test]
fn int_literal_takes_the_longest_run_of_digits() {
    assert_eq!(parse_int_literal(b"123abc"), Ok((&b"abc"[..], Constant(123))));
    assert_eq!(parse_int_literal(b"007"), Ok((&b""[..], Constant(7))));
    assert_eq!(parse_int_literal(b"0"), Ok((&b""[..], Constant(0))));
}

#[test]
fn int_literal_needs_a_digit() {
    assert_eq!(parse_int_literal(b""), Err(SyntaxError { remaining: b"" }));
    assert_eq!(parse_int_literal(b" 1"), Err(SyntaxError { remaining: b" 1" }));
    assert_eq!(parse_int_literal(b"x"), Err(SyntaxError { remaining: b"x" }));
}

#[test]
fn int_literal_that_overflows_is_an_error() {
    assert_eq!(parse_int_literal(b"2147483647"), Ok((&b""[..], Constant(i32::MAX))));
    assert_eq!(parse_int_literal(b"2147483648"), Err(SyntaxError { remaining: b"2147483648" }));
    assert_eq!(
        parse_expression(b"1 + 99999999999999999999999"),
        Err(SyntaxError { remaining: b"99999999999999999999999" })
    );
}

#[test]
fn term_of_two_factors() {
    assert_eq!(
        parse_term(b"42 * 32"),
        Ok((
            &b""[..],
            Term {
                factor: Factor::Literal(42),
                operations: vec![(TermOperation::Multiplication, Factor::Literal(32))],
            }
        ))
    );
}

#[test]
fn term_chains_in_source_order() {
    assert_eq!(
        parse_term(b"8/4*x"),
        Ok((
            &b""[..],
            Term {
                factor: Factor::Literal(8),
                operations: vec![
                    (TermOperation::Division, Factor::Literal(4)),
                    (TermOperation::Multiplication, Factor::Var("x".to_string())),
                ],
            }
        ))
    );
}

#[test]
fn term_stops_before_a_sum_operator() {
    assert_eq!(
        parse_term(b"2 * 3 + 4"),
        Ok((
            &b" + 4"[..],
            Term {
                factor: Factor::Literal(2),
                operations: vec![(TermOperation::Multiplication, Factor::Literal(3))],
            }
        ))
    );
}

#[test]
fn operator_without_operand_is_an_error() {
    assert_eq!(parse_term(b"42 *"), Err(SyntaxError { remaining: b"" }));
    assert_eq!(parse_expression(b"1 + * 2"), Err(SyntaxError { remaining: b"* 2" }));
    assert_eq!(parse_expression(b"!"), Err(SyntaxError { remaining: b"" }));
}

#[test]
fn factor_forms() {
    assert_eq!(parse_factor(b"7"), Ok((&b""[..], Factor::Literal(7))));
    assert_eq!(parse_factor(b"seven_7"), Ok((&b""[..], Factor::Var("seven_7".to_string()))));
    assert_eq!(parse_factor(b"_x y"), Ok((&b" y"[..], Factor::Var("_x".to_string()))));
    assert_eq!(
        parse_factor(b"-~x"),
        Ok((
            &b""[..],
            Factor::Unary(
                UnaryOperator::Negation,
                Box::new(Factor::Unary(UnaryOperator::Bitwise, Box::new(Factor::Var("x".to_string()))))
            )
        ))
    );
    assert_eq!(
        parse_factor(b"( 1 )"),
        Ok((&b""[..], Factor::Parenthesized(Box::new(Constant(1)))))
    );
}

#[test]
fn factor_errors() {
    assert_eq!(parse_factor(b""), Err(SyntaxError { remaining: b"" }));
    assert_eq!(parse_factor(b"   "), Err(SyntaxError { remaining: b"" }));
    assert_eq!(parse_factor(b" ?"), Err(SyntaxError { remaining: b"?" }));
    assert_eq!(parse_factor(b"(1"), Err(SyntaxError { remaining: b"" }));
    assert_eq!(parse_factor(b"(1 2)"), Err(SyntaxError { remaining: b"2)" }));
    assert_eq!(parse_factor(b"()"), Err(SyntaxError { remaining: b")" }));
}

#[test]
fn multiplication_binds_tighter_than_addition() {
    assert_eq!(
        parse_expression(b"1 + 2 * 3"),
        Ok((
            &b""[..],
            BinOp(
                BinaryOperator::Addition,
                constant(1),
                Box::new(BinOp(BinaryOperator::Multiplication, constant(2), constant(3)))
            )
        ))
    );
    assert_eq!(
        parse_expression(b"1 * 2 + 3"),
        Ok((
            &b""[..],
            BinOp(
                BinaryOperator::Addition,
                Box::new(BinOp(BinaryOperator::Multiplication, constant(1), constant(2))),
                constant(3)
            )
        ))
    );
}

#[test]
fn binary_operators_group_to_the_left() {
    assert_eq!(
        parse_expression(b"10 - 3 - 2"),
        Ok((
            &b""[..],
            BinOp(
                BinaryOperator::Subtraction,
                Box::new(BinOp(BinaryOperator::Subtraction, constant(10), constant(3))),
                constant(2)
            )
        ))
    );
    assert_eq!(
        parse_expression(b"8 / 4 / 2"),
        Ok((
            &b""[..],
            BinOp(
                BinaryOperator::Division,
                Box::new(BinOp(BinaryOperator::Division, constant(8), constant(4))),
                constant(2)
            )
        ))
    );
}

#[test]
fn parentheses_override_precedence() {
    assert_eq!(
        parse_expression(b"(1 + 2) * 3"),
        Ok((
            &b""[..],
            BinOp(
                BinaryOperator::Multiplication,
                Box::new(BinOp(BinaryOperator::Addition, constant(1), constant(2))),
                constant(3)
            )
        ))
    );
}

#[test]
fn prefix_binds_tighter_than_binary_operators() {
    assert_eq!(
        parse_expression(b"-1 + 2"),
        Ok((
            &b""[..],
            BinOp(
                BinaryOperator::Addition,
                Box::new(UnOp(UnaryOperator::Negation, constant(1))),
                constant(2)
            )
        ))
    );
    assert_eq!(
        parse_expression(b"1 - -2"),
        Ok((
            &b""[..],
            BinOp(
                BinaryOperator::Subtraction,
                constant(1),
                Box::new(UnOp(UnaryOperator::Negation, constant(2)))
            )
        ))
    );
}

#[test]
fn four_prefixes_nest_four_deep() {
    let not = |inner: Expression| UnOp(UnaryOperator::LogicalNegation, Box::new(inner));
    assert_eq!(
        parse_expression(b"!!!!7"),
        Ok((&b""[..], not(not(not(not(Constant(7)))))))
    );
}

#[test]
fn assignment_nests_to_the_right() {
    assert_eq!(
        parse_expression(b"x = y = 5"),
        Ok((
            &b""[..],
            Expression::Assign(
                "x".to_string(),
                Box::new(Expression::Assign("y".to_string(), constant(5)))
            )
        ))
    );
}

#[test]
fn name_without_equals_is_a_variable() {
    assert_eq!(
        parse_expression(b"x + 1"),
        Ok((
            &b""[..],
            BinOp(BinaryOperator::Addition, Box::new(Var("x".to_string())), constant(1))
        ))
    );
}

#[test]
fn whitespace_is_insignificant_between_tokens() {
    let dense = parse_expression(b"x=(1+2)*-3").unwrap().1;
    let spread = parse_expression(b" \t x\n=\r\n( 1 +  2 ) * - 3").unwrap().1;
    assert_eq!(dense, spread);
}

#[test]
fn expression_leaves_what_follows_it() {
    assert_eq!(parse_expression(b"42 )"), Ok((&b" )"[..], Constant(42))));
    assert_eq!(parse_expression(b"1 2"), Ok((&b" 2"[..], Constant(1))));
}

#[test]
fn parse_wants_the_whole_input() {
    let mut scope = Scope::new();
    assert_eq!(parse(b"1 2", &mut scope), Err(SyntaxError { remaining: b"2" }));
    assert_eq!(parse(b" 1 \n", &mut scope), Ok(Constant(1)));
    assert_eq!(parse(b"", &mut scope), Err(SyntaxError { remaining: b"" }));
    assert_eq!(scope.get_size(), 0);
}

#[test]
fn parse_declares_targets_in_source_order() {
    let mut scope = Scope::new();
    parse(b"b = (a = 1) + (b = 2) + c", &mut scope).unwrap();
    assert_eq!(scope.get_size(), 2);
    assert_eq!(scope.get_variable_index("b"), Some(0));
    assert_eq!(scope.get_variable_index("a"), Some(1));
    assert_eq!(scope.get_variable_index("c"), None);
}

#[test]
fn parse_that_fails_declares_nothing() {
    let mut scope = Scope::new();
    assert!(parse(b"a = b = ", &mut scope).is_err());
    assert_eq!(scope.get_size(), 0);
}
