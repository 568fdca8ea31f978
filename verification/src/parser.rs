//! The parser: a reader of the grammar that goes through the text once,
//! from left to right.

use vstd::prelude::*;
use vstd::slice::slice_subrange;
use vstd::string::*;
use crate::ascii::{
    BANG, CARRIAGE_RETURN, CLOSE, EQUALS, LINE_FEED, LOWER_A, LOWER_Z, MINUS, NINE, OPEN, PLUS, SLASH,
    SPACE, STAR, TAB, TILDE, UNDERSCORE, UPPER_A, UPPER_Z, ZERO,
};
use crate::binary::{BinaryOperator, TermOperation};
use crate::errors::SyntaxError;
use crate::expression::{Expression, ExpressionView};
use crate::grammar;
use crate::grammar::Parsed;
use crate::scope::Scope;
use crate::term::{operations_view, Factor, FactorView, Term, TermView};
use crate::unary::UnaryOperator;

verus! {

/// `String::push` of the standard library appends the character to the end
/// of the string and changes nothing else.
pub assume_specification[ String::push ](string: &mut String, character: char)
    ensures
        final(string)@ == old(string)@.push(character),
;

fn is_whitespace(byte: u8) -> (yes: bool)
    ensures
        yes == grammar::is_whitespace(byte),
{
    byte == SPACE || byte == TAB || byte == LINE_FEED || byte == CARRIAGE_RETURN
}

fn is_digit(byte: u8) -> (yes: bool)
    ensures
        yes == grammar::is_digit(byte),
{
    ZERO <= byte && byte <= NINE
}

fn is_name_start(byte: u8) -> (yes: bool)
    ensures
        yes == grammar::is_name_start(byte),
{
    (LOWER_A <= byte && byte <= LOWER_Z) || (UPPER_A <= byte && byte <= UPPER_Z) || byte
        == UNDERSCORE
}

fn is_name_part(byte: u8) -> (yes: bool)
    ensures
        yes == grammar::is_name_part(byte),
{
    is_name_start(byte) || is_digit(byte)
}

fn unary_operator(byte: u8) -> (operator: Option<UnaryOperator>)
    ensures
        operator == grammar::unary_operator(byte),
{
    if byte == MINUS {
        Some(UnaryOperator::Negation)
    } else if byte == BANG {
        Some(UnaryOperator::LogicalNegation)
    } else if byte == TILDE {
        Some(UnaryOperator::Bitwise)
    } else {
        None
    }
}

fn term_operation(byte: u8) -> (operation: Option<TermOperation>)
    ensures
        operation == grammar::term_operation(byte),
{
    if byte == STAR {
        Some(TermOperation::Multiplication)
    } else if byte == SLASH {
        Some(TermOperation::Division)
    } else {
        None
    }
}

fn sum_operator(byte: u8) -> (operator: Option<BinaryOperator>)
    ensures
        operator == grammar::sum_operator(byte),
{
    if byte == PLUS {
        Some(BinaryOperator::Addition)
    } else if byte == MINUS {
        Some(BinaryOperator::Subtraction)
    } else {
        None
    }
}

fn skip_whitespace(input: &[u8], from: usize) -> (at: usize)
    requires
        from <= input@.len(),
    ensures
        at == grammar::skip_whitespace(input@, from as int),
        from <= at <= input@.len(),
{
    let mut at: usize = from;
    while at < input.len() && is_whitespace(input[at])
        invariant
            from <= at <= input@.len(),
            grammar::skip_whitespace(input@, from as int) == grammar::skip_whitespace(
                input@,
                at as int,
            ),
        decreases input@.len() - at,
    {
        at += 1;
    }
    at
}

fn literal_at(input: &[u8], from: usize) -> (res: Result<(i32, usize), usize>)
    requires
        from <= input@.len(),
    ensures
        match res {
            Ok((value, to)) => grammar::literal(input@, from as int) == Ok::<(i32, int), int>(
                (value, to as int),
            ) && from < to <= input@.len(),
            Err(at) => grammar::literal(input@, from as int) == Err::<(i32, int), int>(at as int)
                && at == from,
        },
{
    let mut to: usize = from;
    let mut value: u64 = 0;
    let mut fits: bool = true;
    while to < input.len() && is_digit(input[to])
        invariant
            from <= to <= input@.len(),
            grammar::digits_end(input@, from as int) == grammar::digits_end(input@, to as int),
            fits ==> value == grammar::number(input@.subrange(from as int, to as int)) && value
                <= i32::MAX,
            !fits ==> grammar::number(input@.subrange(from as int, to as int)) > i32::MAX,
        decreases input@.len() - to,
    {
        proof {
            let longer = input@.subrange(from as int, to + 1);
            assert(longer.drop_last() =~= input@.subrange(from as int, to as int));
            assert(longer.last() == input@[to as int]);
        }
        if fits {
            value = value * 10 + (input[to] - ZERO) as u64;
            fits = value <= 0x7fff_ffff;
        }
        to += 1;
    }
    if to == from || !fits {
        Err(from)
    } else {
        Ok((value as i32, to))
    }
}

fn name_at(input: &[u8], from: usize) -> (res: Result<(String, usize), usize>)
    requires
        from <= input@.len(),
    ensures
        match res {
            Ok((name, to)) => grammar::name(input@, from as int) == Ok::<(Seq<char>, int), int>(
                (name@, to as int),
            ) && from < to <= input@.len(),
            Err(at) => grammar::name(input@, from as int) == Err::<(Seq<char>, int), int>(
                at as int,
            ) && at == from,
        },
{
    if from >= input.len() || !is_name_start(input[from]) {
        return Err(from);
    }
    let mut name = String::new();
    name.push(input[from] as char);
    let mut to: usize = from + 1;
    assert(name@ =~= grammar::characters(input@.subrange(from as int, to as int)));
    while to < input.len() && is_name_part(input[to])
        invariant
            from < to <= input@.len(),
            grammar::name_end(input@, from + 1) == grammar::name_end(input@, to as int),
            name@ == grammar::characters(input@.subrange(from as int, to as int)),
        decreases input@.len() - to,
    {
        name.push(input[to] as char);
        assert(name@ =~= grammar::characters(input@.subrange(from as int, to + 1)));
        to += 1;
    }
    Ok((name, to))
}

fn assignment_target_at(input: &[u8], from: usize) -> (res: Option<(String, usize)>)
    requires
        from <= input@.len(),
    ensures
        match res {
            Some((target, after)) => grammar::assignment_target(input@, from as int) == Some(
                (target@, after as int),
            ) && from < after <= input@.len(),
            None => grammar::assignment_target(input@, from as int) is None,
        },
{
    let at = skip_whitespace(input, from);
    match name_at(input, at) {
        Ok((target, to)) => {
            let sign = skip_whitespace(input, to);
            if sign < input.len() && input[sign] == EQUALS {
                Some((target, sign + 1))
            } else {
                None
            }
        },
        Err(_) => None,
    }
}

fn factor_at(input: &[u8], from: usize) -> (res: Result<(Factor, usize), usize>)
    requires
        from <= input@.len(),
    ensures
        match res {
            Ok((tree, to)) => grammar::factor(input@, from as int) == Ok::<(FactorView, int), int>(
                (tree@, to as int),
            ) && from < to <= input@.len(),
            Err(at) => grammar::factor(input@, from as int) == Err::<(FactorView, int), int>(
                at as int,
            ) && from <= at <= input@.len(),
        },
    decreases input@.len() - from, 1int,
{
    let at = skip_whitespace(input, from);
    if at >= input.len() {
        return Err(at);
    }
    let byte = input[at];
    match unary_operator(byte) {
        Some(operator) => {
            return match factor_at(input, at + 1) {
                Ok((operand, to)) => Ok((Factor::Unary(operator, Box::new(operand)), to)),
                Err(stuck) => Err(stuck),
            };
        },
        None => {},
    }
    if byte == OPEN {
        match expression_at(input, at + 1) {
            Ok((inner, to)) => {
                let close = skip_whitespace(input, to);
                if close < input.len() && input[close] == CLOSE {
                    Ok((Factor::Parenthesized(Box::new(inner)), close + 1))
                } else {
                    Err(close)
                }
            },
            Err(stuck) => Err(stuck),
        }
    } else if is_digit(byte) {
        match literal_at(input, at) {
            Ok((value, to)) => Ok((Factor::Literal(value), to)),
            Err(stuck) => Err(stuck),
        }
    } else {
        match name_at(input, at) {
            Ok((variable, to)) => Ok((Factor::Var(variable), to)),
            Err(stuck) => Err(stuck),
        }
    }
}

/// The operations read so far followed by what the grammar reads after
/// them.
spec fn continued(
    done: Seq<(TermOperation, FactorView)>,
    rest: Parsed<Seq<(TermOperation, FactorView)>>,
) -> Parsed<Seq<(TermOperation, FactorView)>> {
    match rest {
        Ok((more, end)) => Ok((done + more, end)),
        Err(stuck) => Err(stuck),
    }
}

fn term_at(input: &[u8], from: usize) -> (res: Result<(Term, usize), usize>)
    requires
        from <= input@.len(),
    ensures
        match res {
            Ok((tree, to)) => grammar::term(input@, from as int) == Ok::<(TermView, int), int>(
                (tree@, to as int),
            ) && from < to <= input@.len(),
            Err(at) => grammar::term(input@, from as int) == Err::<(TermView, int), int>(at as int)
                && from <= at <= input@.len(),
        },
    decreases input@.len() - from, 2int,
{
    let (first, start) = match factor_at(input, from) {
        Ok(read) => read,
        Err(stuck) => {
            return Err(stuck);
        },
    };
    let mut operations: Vec<(TermOperation, Factor)> = Vec::new();
    let mut to: usize = start;
    let mut open: bool = true;
    assert(operations_view(operations@) =~= Seq::empty());
    while open
        invariant
            from < start <= to <= input@.len(),
            grammar::factor(input@, from as int) == Ok::<(FactorView, int), int>(
                (first@, start as int),
            ),
            grammar::operations(input@, start as int) == continued(
                operations_view(operations@),
                grammar::operations(input@, to as int),
            ),
            !open ==> grammar::operations(input@, to as int) == Ok::<
                (Seq<(TermOperation, FactorView)>, int),
                int,
            >((Seq::empty(), to as int)),
        decreases
                input@.len() - to + if open {
                    1int
                } else {
                    0int
                },
    {
        let at = skip_whitespace(input, to);
        let operator = if at < input.len() {
            term_operation(input[at])
        } else {
            None
        };
        match operator {
            None => {
                open = false;
            },
            Some(operation) => match factor_at(input, at + 1) {
                Ok((operand, next)) => {
                    let ghost before = operations_view(operations@);
                    operations.push((operation, operand));
                    proof {
                        assert(operations_view(operations@) =~= before.push((operation, operand@)));
                        match grammar::operations(input@, next as int) {
                            Ok((more, end)) => {
                                assert(before + (seq![(operation, operand@)] + more)
                                    =~= operations_view(operations@) + more);
                            },
                            Err(_) => {},
                        }
                    }
                    to = next;
                },
                Err(stuck) => {
                    return Err(stuck);
                },
            },
        }
    }
    let tree = Term { factor: first, operations };
    assert(operations_view(tree.operations@) + Seq::empty() =~= operations_view(tree.operations@));
    Ok((tree, to))
}

fn sum_at(input: &[u8], from: usize) -> (res: Result<(Expression, usize), usize>)
    requires
        from <= input@.len(),
    ensures
        match res {
            Ok((tree, to)) => grammar::sum(input@, from as int) == Ok::<(ExpressionView, int), int>(
                (tree@, to as int),
            ) && from < to <= input@.len(),
            Err(at) => grammar::sum(input@, from as int) == Err::<(ExpressionView, int), int>(
                at as int,
            ) && from <= at <= input@.len(),
        },
    decreases input@.len() - from, 3int,
{
    let (first, start) = match term_at(input, from) {
        Ok(read) => read,
        Err(stuck) => {
            return Err(stuck);
        },
    };
    let mut left = first.to_expression();
    let mut to: usize = start;
    let mut open: bool = true;
    while open
        invariant
            from < start <= to <= input@.len(),
            grammar::sum(input@, from as int) == grammar::sum_after(input@, to as int, left@),
            !open ==> grammar::sum_after(input@, to as int, left@) == Ok::<
                (ExpressionView, int),
                int,
            >((left@, to as int)),
        decreases
                input@.len() - to + if open {
                    1int
                } else {
                    0int
                },
    {
        let at = skip_whitespace(input, to);
        let operator = if at < input.len() {
            sum_operator(input[at])
        } else {
            None
        };
        match operator {
            None => {
                open = false;
            },
            Some(operator) => match term_at(input, at + 1) {
                Ok((right, next)) => {
                    left = Expression::BinOp(
                        operator,
                        Box::new(left),
                        Box::new(right.to_expression()),
                    );
                    to = next;
                },
                Err(stuck) => {
                    return Err(stuck);
                },
            },
        }
    }
    Ok((left, to))
}

fn expression_at(input: &[u8], from: usize) -> (res: Result<(Expression, usize), usize>)
    requires
        from <= input@.len(),
    ensures
        match res {
            Ok((tree, to)) => grammar::expression(input@, from as int) == Ok::<
                (ExpressionView, int),
                int,
            >((tree@, to as int)) && from < to <= input@.len(),
            Err(at) => grammar::expression(input@, from as int) == Err::<
                (ExpressionView, int),
                int,
            >(at as int) && from <= at <= input@.len(),
        },
    decreases input@.len() - from, 4int,
{
    match assignment_target_at(input, from) {
        Some((target, after)) => match expression_at(input, after) {
            Ok((value, to)) => Ok((Expression::Assign(target, Box::new(value)), to)),
            Err(stuck) => Err(stuck),
        },
        None => sum_at(input, from),
    }
}

/// What is left of `input` from `at` on.
fn rest_from<'a>(input: &'a [u8], at: usize) -> (rest: &'a [u8])
    requires
        at <= input@.len(),
    ensures
        rest@ == input@.skip(at as int),
{
    slice_subrange(input, at, input.len())
}

/// Reads an integer literal at the start of `input`. Gives the literal as
/// an expression and the input that follows it.
pub fn parse_int_literal<'a>(input: &'a [u8]) -> (res: Result<
    (&'a [u8], Expression),
    SyntaxError<'a>,
>)
    ensures
        match res {
            Ok((rest, tree)) => grammar::literal(input@, 0) matches Ok((value, to)) && tree@
                == ExpressionView::Constant(value) && rest@ == input@.skip(to),
            Err(error) => grammar::literal(input@, 0) matches Err(at) && error.remaining@
                == input@.skip(at),
        },
{
    match literal_at(input, 0) {
        Ok((value, to)) => Ok((rest_from(input, to), Expression::Constant(value))),
        Err(at) => Err(SyntaxError { remaining: rest_from(input, at) }),
    }
}

/// Reads a factor at the start of `input`. Gives the factor and the input
/// that follows it.
pub fn parse_factor<'a>(input: &'a [u8]) -> (res: Result<(&'a [u8], Factor), SyntaxError<'a>>)
    ensures
        match res {
            Ok((rest, tree)) => grammar::factor(input@, 0) matches Ok((read, to)) && tree@ == read
                && rest@ == input@.skip(to),
            Err(error) => grammar::factor(input@, 0) matches Err(at) && error.remaining@
                == input@.skip(at),
        },
{
    match factor_at(input, 0) {
        Ok((tree, to)) => Ok((rest_from(input, to), tree)),
        Err(at) => Err(SyntaxError { remaining: rest_from(input, at) }),
    }
}

/// Reads a term at the start of `input`. Gives the term and the input that
/// follows it.
pub fn parse_term<'a>(input: &'a [u8]) -> (res: Result<(&'a [u8], Term), SyntaxError<'a>>)
    ensures
        match res {
            Ok((rest, tree)) => grammar::term(input@, 0) matches Ok((read, to)) && tree@ == read
                && rest@ == input@.skip(to),
            Err(error) => grammar::term(input@, 0) matches Err(at) && error.remaining@
                == input@.skip(at),
        },
{
    match term_at(input, 0) {
        Ok((tree, to)) => Ok((rest_from(input, to), tree)),
        Err(at) => Err(SyntaxError { remaining: rest_from(input, at) }),
    }
}

/// Reads an expression at the start of `input`. Gives the expression and
/// the input that follows it.
pub fn parse_expression<'a>(input: &'a [u8]) -> (res: Result<
    (&'a [u8], Expression),
    SyntaxError<'a>,
>)
    ensures
        match res {
            Ok((rest, tree)) => grammar::expression(input@, 0) matches Ok((read, to)) && tree@
                == read && rest@ == input@.skip(to),
            Err(error) => grammar::expression(input@, 0) matches Err(at) && error.remaining@
                == input@.skip(at),
        },
{
    match expression_at(input, 0) {
        Ok((tree, to)) => Ok((rest_from(input, to), tree)),
        Err(at) => Err(SyntaxError { remaining: rest_from(input, at) }),
    }
}

/// Reads `input` as one expression and declares in `scope` the targets of
/// its assignments, in the order of the source. Nothing but white space may
/// follow the expression. If the input does not parse, the scope is left as
/// it is.
pub fn parse<'a>(input: &'a [u8], scope: &mut Scope) -> (res: Result<Expression, SyntaxError<'a>>)
    ensures
        match res {
            Ok(tree) => grammar::program(input@) == Ok::<ExpressionView, int>(tree@)
                && final(scope)@ == tree@.declaring(old(scope)@),
            Err(error) => grammar::program(input@) matches Err(at) && error.remaining@
                == input@.skip(at) && *final(scope) == *old(scope),
        },
{
    match expression_at(input, 0) {
        Ok((tree, to)) => {
            let end = skip_whitespace(input, to);
            if end < input.len() {
                Err(SyntaxError { remaining: rest_from(input, end) })
            } else {
                tree.declare_targets(scope);
                Ok(tree)
            }
        },
        Err(at) => Err(SyntaxError { remaining: rest_from(input, at) }),
    }
}

} // verus!
