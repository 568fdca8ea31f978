//! The grammar of the expression language.
//!
//! ```text
//! expression := name '=' expression | sum
//! sum        := term (('+' | '-') term)*
//! term       := factor (('*' | '/') factor)*
//! factor     := ('-' | '!' | '~') factor | '(' expression ')' | literal | name
//! literal    := digit+
//! name       := (letter | '_') (letter | digit | '_')*
//! ```
//!
//! White space may stand before any token. Each rule is a function from a
//! text and a position in it to what the rule reads there: the tree it
//! builds and the position after its last byte, or the position at which
//! the text stops matching. An alternative is chosen by the bytes at the
//! position and is never given up after that.

use vstd::prelude::*;
use crate::ascii::{
    BANG, CARRIAGE_RETURN, CLOSE, EQUALS, LINE_FEED, LOWER_A, LOWER_Z, MINUS, NINE, OPEN, PLUS, SLASH,
    SPACE, STAR, TAB, TILDE, UNDERSCORE, UPPER_A, UPPER_Z, ZERO,
};
use crate::binary::{BinaryOperator, TermOperation};
use crate::decimal::{decimal, lemma_decimal_is_digits};
use crate::expression::ExpressionView;
use crate::term::{FactorView, TermView};
use crate::unary::UnaryOperator;

verus! {

/// What a rule reads: `Ok` with a value and the position after it, or `Err`
/// with the position of the first byte that does not fit.
pub type Parsed<T> = Result<(T, int), int>;

/// Space, tab, line feed and carriage return.
pub open spec fn is_whitespace(byte: u8) -> bool {
    byte == SPACE || byte == TAB || byte == LINE_FEED || byte == CARRIAGE_RETURN
}

/// `0` to `9`.
pub open spec fn is_digit(byte: u8) -> bool {
    ZERO <= byte <= NINE
}

/// A byte that may start a name: a letter or `_`.
pub open spec fn is_name_start(byte: u8) -> bool {
    LOWER_A <= byte <= LOWER_Z || UPPER_A <= byte <= UPPER_Z || byte == UNDERSCORE
}

/// A byte that may continue a name: a letter, a digit or `_`.
pub open spec fn is_name_part(byte: u8) -> bool {
    is_name_start(byte) || is_digit(byte)
}

/// The prefix operator that `byte` spells.
pub open spec fn unary_operator(byte: u8) -> Option<UnaryOperator> {
    if byte == MINUS {
        Some(UnaryOperator::Negation)
    } else if byte == BANG {
        Some(UnaryOperator::LogicalNegation)
    } else if byte == TILDE {
        Some(UnaryOperator::Bitwise)
    } else {
        None
    }
}

/// The operator between the factors of a term that `byte` spells.
pub open spec fn term_operation(byte: u8) -> Option<TermOperation> {
    if byte == STAR {
        Some(TermOperation::Multiplication)
    } else if byte == SLASH {
        Some(TermOperation::Division)
    } else {
        None
    }
}

/// The operator between the terms of a sum that `byte` spells.
pub open spec fn sum_operator(byte: u8) -> Option<BinaryOperator> {
    if byte == PLUS {
        Some(BinaryOperator::Addition)
    } else if byte == MINUS {
        Some(BinaryOperator::Subtraction)
    } else {
        None
    }
}

/// The first position from `from` on that holds no white space.
pub open spec fn skip_whitespace(text: Seq<u8>, from: int) -> int
    decreases text.len() - from,
{
    if 0 <= from < text.len() && is_whitespace(text[from]) {
        skip_whitespace(text, from + 1)
    } else {
        from
    }
}

/// The first position from `from` on that holds no digit.
pub open spec fn digits_end(text: Seq<u8>, from: int) -> int
    decreases text.len() - from,
{
    if 0 <= from < text.len() && is_digit(text[from]) {
        digits_end(text, from + 1)
    } else {
        from
    }
}

/// The first position from `from` on that cannot continue a name.
pub open spec fn name_end(text: Seq<u8>, from: int) -> int
    decreases text.len() - from,
{
    if 0 <= from < text.len() && is_name_part(text[from]) {
        name_end(text, from + 1)
    } else {
        from
    }
}

/// The number that a run of digits spells in decimal.
pub open spec fn number(digits: Seq<u8>) -> nat
    decreases digits.len(),
{
    if digits.len() == 0 {
        0
    } else {
        (number(digits.drop_last()) * 10 + (digits.last() - ZERO)) as nat
    }
}

/// The characters that the bytes of a name stand for.
pub open spec fn characters(bytes: Seq<u8>) -> Seq<char> {
    bytes.map_values(|byte: u8| byte as char)
}

/// An integer literal at `from`: the longest run of digits, read in decimal.
/// A number that does not fit in 32 bits with a sign is an error.
pub open spec fn literal(text: Seq<u8>, from: int) -> Parsed<i32> {
    let to = digits_end(text, from);
    if to <= from || number(text.subrange(from, to)) > i32::MAX {
        Err(from)
    } else {
        Ok((number(text.subrange(from, to)) as i32, to))
    }
}

/// A name at `from`: a byte that may start a name and the longest run of
/// bytes that may continue it.
pub open spec fn name(text: Seq<u8>, from: int) -> Parsed<Seq<char>> {
    if 0 <= from < text.len() && is_name_start(text[from]) {
        let to = name_end(text, from + 1);
        Ok((characters(text.subrange(from, to)), to))
    } else {
        Err(from)
    }
}

/// The target of an assignment from `from` on: a name and, after it, `=`.
/// Gives the name and the position after the `=`.
pub open spec fn assignment_target(text: Seq<u8>, from: int) -> Option<(Seq<char>, int)> {
    match name(text, skip_whitespace(text, from)) {
        Ok((target, to)) => {
            let sign = skip_whitespace(text, to);
            if 0 <= sign < text.len() && text[sign] == EQUALS {
                Some((target, sign + 1))
            } else {
                None
            }
        },
        Err(_) => None,
    }
}

/// A factor from `from` on. Prefix operators nest to the right: each one
/// applies to the whole factor that follows it.
pub open spec fn factor(text: Seq<u8>, from: int) -> Parsed<FactorView>
    decreases text.len() - from, 1int,
{
    let at = skip_whitespace(text, from);
    if !(0 <= from <= at < text.len()) {
        Err(at)
    } else if unary_operator(text[at]) is Some {
        match factor(text, at + 1) {
            Ok((operand, to)) => Ok(
                (FactorView::Unary(unary_operator(text[at])->0, Box::new(operand)), to),
            ),
            Err(stuck) => Err(stuck),
        }
    } else if text[at] == OPEN {
        match expression(text, at + 1) {
            Ok((inner, to)) => {
                let close = skip_whitespace(text, to);
                if 0 <= close < text.len() && text[close] == CLOSE {
                    Ok((FactorView::Parenthesized(Box::new(inner)), close + 1))
                } else {
                    Err(close)
                }
            },
            Err(stuck) => Err(stuck),
        }
    } else if is_digit(text[at]) {
        match literal(text, at) {
            Ok((value, to)) => Ok((FactorView::Literal(value), to)),
            Err(stuck) => Err(stuck),
        }
    } else {
        match name(text, at) {
            Ok((variable, to)) => Ok((FactorView::Var(variable), to)),
            Err(stuck) => Err(stuck),
        }
    }
}

/// The operations of a term from `from` on: as long as an operator of a term
/// follows, that operator and the factor after it. An operator without a
/// factor is an error.
pub open spec fn operations(text: Seq<u8>, from: int) -> Parsed<Seq<(TermOperation, FactorView)>>
    decreases text.len() - from, 0int,
{
    let at = skip_whitespace(text, from);
    if 0 <= from <= at < text.len() && term_operation(text[at]) is Some {
        match factor(text, at + 1) {
            Ok((operand, to)) => if !(at < to <= text.len()) {
                Err(to)
            } else {
                match operations(text, to) {
                    Ok((more, end)) => Ok(
                        (seq![(term_operation(text[at])->0, operand)] + more, end),
                    ),
                    Err(stuck) => Err(stuck),
                }
            },
            Err(stuck) => Err(stuck),
        }
    } else {
        Ok((Seq::empty(), from))
    }
}

/// A term from `from` on: a factor and the operations that follow it.
pub open spec fn term(text: Seq<u8>, from: int) -> Parsed<TermView>
    decreases text.len() - from, 2int,
{
    match factor(text, from) {
        Ok((first, to)) => if !(from < to <= text.len()) {
            Err(to)
        } else {
            match operations(text, to) {
                Ok((more, end)) => Ok((TermView { factor: first, operations: more }, end)),
                Err(stuck) => Err(stuck),
            }
        },
        Err(stuck) => Err(stuck),
    }
}

/// What follows the terms read so far, which stand for `left`: as long as an
/// operator of a sum follows, that operator and the term after it. The
/// operators group to the left.
pub open spec fn sum_after(text: Seq<u8>, from: int, left: ExpressionView) -> Parsed<
    ExpressionView,
>
    decreases text.len() - from, 0int,
{
    let at = skip_whitespace(text, from);
    if 0 <= from <= at < text.len() && sum_operator(text[at]) is Some {
        match term(text, at + 1) {
            Ok((right, to)) => if !(at < to <= text.len()) {
                Err(to)
            } else {
                sum_after(
                    text,
                    to,
                    ExpressionView::BinOp(
                        sum_operator(text[at])->0,
                        Box::new(left),
                        Box::new(right.expression()),
                    ),
                )
            },
            Err(stuck) => Err(stuck),
        }
    } else {
        Ok((left, from))
    }
}

/// A sum from `from` on: a term and the terms added to it or subtracted
/// from it.
pub open spec fn sum(text: Seq<u8>, from: int) -> Parsed<ExpressionView>
    decreases text.len() - from, 3int,
{
    match term(text, from) {
        Ok((first, to)) => if !(from < to <= text.len()) {
            Err(to)
        } else {
            sum_after(text, to, first.expression())
        },
        Err(stuck) => Err(stuck),
    }
}

/// An expression from `from` on: an assignment if the text starts with a
/// name and `=`, a sum otherwise. Assignments nest to the right.
pub open spec fn expression(text: Seq<u8>, from: int) -> Parsed<ExpressionView>
    decreases text.len() - from, 4int,
{
    match assignment_target(text, from) {
        Some((target, after)) => if !(from < after <= text.len()) {
            Err(after)
        } else {
            match expression(text, after) {
                Ok((value, to)) => Ok((ExpressionView::Assign(target, Box::new(value)), to)),
                Err(stuck) => Err(stuck),
            }
        },
        None => sum(text, from),
    }
}

/// A whole text: one expression and, after it, nothing but white space.
pub open spec fn program(text: Seq<u8>) -> Result<ExpressionView, int> {
    match expression(text, 0) {
        Ok((tree, to)) => {
            let end = skip_whitespace(text, to);
            if end >= text.len() {
                Ok(tree)
            } else {
                Err(end)
            }
        },
        Err(stuck) => Err(stuck),
    }
}

/// The byte that spells a prefix operator.
pub open spec fn symbol(operator: UnaryOperator) -> u8 {
    match operator {
        UnaryOperator::Negation => MINUS,
        UnaryOperator::LogicalNegation => BANG,
        UnaryOperator::Bitwise => TILDE,
    }
}

/// Whether a rule that began at `from` ended, or stuck, at or after `from`
/// and within the text.
pub open spec fn stays<T>(read: Parsed<T>, text: Seq<u8>, from: int) -> bool {
    match read {
        Ok((_, to)) => from <= to <= text.len(),
        Err(stuck) => from <= stuck <= text.len(),
    }
}

/// Whether a rule that began at `from` read at least one byte, or stuck at
/// or after `from`, and stayed within the text.
pub open spec fn advances<T>(read: Parsed<T>, text: Seq<u8>, from: int) -> bool {
    match read {
        Ok((_, to)) => from < to <= text.len(),
        Err(stuck) => from <= stuck <= text.len(),
    }
}

/// Skipping white space moves forward, to a byte that is no white space or
/// to the end of the text.
pub proof fn lemma_skip_whitespace_stays(text: Seq<u8>, from: int)
    requires
        0 <= from <= text.len(),
    ensures
        from <= skip_whitespace(text, from) <= text.len(),
        skip_whitespace(text, from) < text.len() ==> !is_whitespace(
            text[skip_whitespace(text, from)],
        ),
    decreases text.len() - from,
{
    if from < text.len() && is_whitespace(text[from]) {
        lemma_skip_whitespace_stays(text, from + 1);
    }
}

proof fn lemma_digits_end_stays(text: Seq<u8>, from: int)
    requires
        0 <= from <= text.len(),
    ensures
        from <= digits_end(text, from) <= text.len(),
    decreases text.len() - from,
{
    if from < text.len() && is_digit(text[from]) {
        lemma_digits_end_stays(text, from + 1);
    }
}

proof fn lemma_name_end_stays(text: Seq<u8>, from: int)
    requires
        0 <= from <= text.len(),
    ensures
        from <= name_end(text, from) <= text.len(),
    decreases text.len() - from,
{
    if from < text.len() && is_name_part(text[from]) {
        lemma_name_end_stays(text, from + 1);
    }
}

/// A factor is never empty: where the rule reads one, it has moved forward.
pub proof fn lemma_factor_advances(text: Seq<u8>, from: int)
    requires
        0 <= from <= text.len(),
    ensures
        advances(factor(text, from), text, from),
    decreases text.len() - from, 1int,
{
    let at = skip_whitespace(text, from);
    lemma_skip_whitespace_stays(text, from);
    if at < text.len() {
        if unary_operator(text[at]) is Some {
            lemma_factor_advances(text, at + 1);
        } else if text[at] == OPEN {
            lemma_expression_advances(text, at + 1);
            if expression(text, at + 1) is Ok {
                lemma_skip_whitespace_stays(text, expression(text, at + 1)->Ok_0.1);
            }
        } else if is_digit(text[at]) {
            lemma_digits_end_stays(text, at);
        } else if is_name_start(text[at]) {
            lemma_name_end_stays(text, at + 1);
        }
    }
}

/// The operations of a term end, or stick, within the text.
pub proof fn lemma_operations_stay(text: Seq<u8>, from: int)
    requires
        0 <= from <= text.len(),
    ensures
        stays(operations(text, from), text, from),
    decreases text.len() - from, 0int,
{
    let at = skip_whitespace(text, from);
    lemma_skip_whitespace_stays(text, from);
    if at < text.len() && term_operation(text[at]) is Some {
        lemma_factor_advances(text, at + 1);
        if factor(text, at + 1) is Ok {
            lemma_operations_stay(text, factor(text, at + 1)->Ok_0.1);
        }
    }
}

/// A term is never empty.
pub proof fn lemma_term_advances(text: Seq<u8>, from: int)
    requires
        0 <= from <= text.len(),
    ensures
        advances(term(text, from), text, from),
    decreases text.len() - from, 2int,
{
    lemma_factor_advances(text, from);
    if factor(text, from) is Ok {
        lemma_operations_stay(text, factor(text, from)->Ok_0.1);
    }
}

/// The rest of a sum ends, or sticks, within the text.
pub proof fn lemma_sum_after_stays(text: Seq<u8>, from: int, left: ExpressionView)
    requires
        0 <= from <= text.len(),
    ensures
        stays(sum_after(text, from, left), text, from),
    decreases text.len() - from, 0int,
{
    let at = skip_whitespace(text, from);
    lemma_skip_whitespace_stays(text, from);
    if at < text.len() && sum_operator(text[at]) is Some {
        lemma_term_advances(text, at + 1);
        if term(text, at + 1) is Ok {
            let (right, to) = term(text, at + 1)->Ok_0;
            lemma_sum_after_stays(
                text,
                to,
                ExpressionView::BinOp(
                    sum_operator(text[at])->0,
                    Box::new(left),
                    Box::new(right.expression()),
                ),
            );
        }
    }
}

/// A sum is never empty.
pub proof fn lemma_sum_advances(text: Seq<u8>, from: int)
    requires
        0 <= from <= text.len(),
    ensures
        advances(sum(text, from), text, from),
    decreases text.len() - from, 3int,
{
    lemma_term_advances(text, from);
    if term(text, from) is Ok {
        let (first, to) = term(text, from)->Ok_0;
        lemma_sum_after_stays(text, to, first.expression());
    }
}

/// The target of an assignment, where there is one, ends after where it
/// began and within the text.
pub proof fn lemma_assignment_target_advances(text: Seq<u8>, from: int)
    requires
        0 <= from <= text.len(),
    ensures
        assignment_target(text, from) matches Some((_, after)) ==> from < after <= text.len(),
{
    let at = skip_whitespace(text, from);
    lemma_skip_whitespace_stays(text, from);
    if name(text, at) is Ok {
        lemma_name_end_stays(text, at + 1);
        lemma_skip_whitespace_stays(text, name(text, at)->Ok_0.1);
    }
}

/// An expression is never empty. With this, every rule that follows
/// another in the grammar starts where the first one ended, and the checks
/// of the rules on the position they are handed never fail.
pub proof fn lemma_expression_advances(text: Seq<u8>, from: int)
    requires
        0 <= from <= text.len(),
    ensures
        advances(expression(text, from), text, from),
    decreases text.len() - from, 4int,
{
    lemma_assignment_target_advances(text, from);
    match assignment_target(text, from) {
        Some((_, after)) => {
            lemma_expression_advances(text, after);
        },
        None => {
            lemma_sum_advances(text, from);
        },
    }
}

/// A chain of prefix operators in the text nests in the tree, the leftmost
/// operator outermost: what the factor rule reads at the first prefix is
/// what it reads after the last one, under the whole chain.
pub proof fn lemma_prefixes_nest(text: Seq<u8>, from: int, prefixes: Seq<UnaryOperator>)
    requires
        0 <= from,
        from + prefixes.len() <= text.len(),
        forall|i: int| 0 <= i < prefixes.len() ==> text[from + i] == symbol(#[trigger] prefixes[i]),
    ensures
        factor(text, from) == match factor(text, from + prefixes.len()) {
            Ok((operand, to)) => Ok::<(FactorView, int), int>((operand.prefixed(prefixes), to)),
            Err(stuck) => Err::<(FactorView, int), int>(stuck),
        },
    decreases prefixes.len(),
{
    if prefixes.len() > 0 {
        let rest = prefixes.drop_first();
        assert(text[from + 0] == symbol(prefixes[0]));
        assert(unary_operator(text[from]) == Some(prefixes.first()));
        assert(skip_whitespace(text, from) == from);
        assert forall|i: int| 0 <= i < rest.len() implies text[from + 1 + i] == symbol(
            #[trigger] rest[i],
        ) by {
            assert(text[from + (i + 1)] == symbol(prefixes[i + 1]));
        }
        lemma_prefixes_nest(text, from + 1, rest);
    }
}

/// A run of digits to the end of the text is read to the end.
proof fn lemma_digits_end_of_digits(text: Seq<u8>, from: int)
    requires
        0 <= from <= text.len(),
        forall|i: int| from <= i < text.len() ==> is_digit(#[trigger] text[i]),
    ensures
        digits_end(text, from) == text.len(),
    decreases text.len() - from,
{
    if from < text.len() {
        lemma_digits_end_of_digits(text, from + 1);
    }
}

/// The digits that write a number in decimal spell that number.
pub proof fn lemma_number_of_decimal(n: nat)
    ensures
        number(decimal(n)) == n,
    decreases n,
{
    let digits = decimal(n);
    assert(digits.last() - ZERO == n % 10);
    if n >= 10 {
        lemma_number_of_decimal(n / 10);
        assert(digits.drop_last() =~= decimal(n / 10));
    } else {
        assert(digits.drop_last() =~= Seq::<u8>::empty());
        assert(number(Seq::<u8>::empty()) == 0);
    }
}

/// The literal rule reads back what the decimal writer writes: the decimal
/// text of a number that is not negative is a literal of that value.
pub proof fn lemma_literal_reads_decimal(value: i32)
    requires
        value >= 0,
    ensures
        literal(decimal(value as nat), 0) == Ok::<(i32, int), int>(
            (value, decimal(value as nat).len() as int),
        ),
{
    let text = decimal(value as nat);
    lemma_decimal_is_digits(value as nat);
    lemma_digits_end_of_digits(text, 0);
    lemma_number_of_decimal(value as nat);
    assert(text.subrange(0, text.len() as int) =~= text);
}

} // verus!
