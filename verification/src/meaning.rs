//! What an expression means, and the proof that lowering preserves it.

use vstd::prelude::*;
use crate::assembly::Instruction;
use crate::binary::BinaryOperator;
use crate::expression::ExpressionView;
use crate::machine::{
    dividend, lemma_run_concat, lemma_run_one, lemma_run_push, wrap, Machine, WORD,
};
use crate::scope::distance;
use crate::unary::UnaryOperator;

verus! {

impl ExpressionView {
    /// The value of the expression and the frame that its assignments leave,
    /// when evaluated in `frame` with the variables in `names` declared.
    /// `None` if the expression reaches a variable that is not declared or
    /// divides by zero.
    ///
    /// Operands are evaluated from left to right, and an assignment has the
    /// value that it assigns.
    pub open spec fn meaning(self, names: Seq<Seq<char>>, frame: Map<usize, u32>) -> Option<
        (u32, Map<usize, u32>),
    >
        decreases self,
    {
        match self {
            ExpressionView::Assign(name, value) => if names.contains(name) {
                match value.meaning(names, frame) {
                    Some((assigned, after)) => Some(
                        (assigned, after.insert(distance(names, name) as usize, assigned)),
                    ),
                    None => None,
                }
            } else {
                None
            },
            ExpressionView::Var(name) => if names.contains(name) {
                Some((frame[distance(names, name) as usize], frame))
            } else {
                None
            },
            ExpressionView::Constant(value) => Some((wrap(value as int), frame)),
            ExpressionView::UnOp(operator, operand) => match operand.meaning(names, frame) {
                Some((value, after)) => Some((operator.applied(value), after)),
                None => None,
            },
            ExpressionView::BinOp(operator, left, right) => match left.meaning(names, frame) {
                Some((left_value, after_left)) => match right.meaning(names, after_left) {
                    Some((right_value, after_right)) => match operator.applied(
                        left_value,
                        right_value,
                    ) {
                        Some(value) => Some((value, after_right)),
                        None => None,
                    },
                    None => None,
                },
                None => None,
            },
        }
    }
}

/// The instructions of a unary operator replace the accumulator by the
/// operator applied to it, and touch neither the stack nor the frame.
pub proof fn lemma_unary_instructions_apply(operator: UnaryOperator, machine: Machine)
    ensures
        machine.run(operator.instructions()) matches Some(end) && end.accumulator
            == operator.applied(machine.accumulator) && end.stack == machine.stack && end.frame
            == machine.frame,
{
    match operator {
        UnaryOperator::Negation => {
            lemma_run_one(machine, Instruction::Negate);
        },
        UnaryOperator::LogicalNegation => {
            let compared = seq![Instruction::CompareWithZero];
            let cleared = compared.push(Instruction::LoadImmediate(0));
            lemma_run_one(machine, Instruction::CompareWithZero);
            lemma_run_push(machine, compared, Instruction::LoadImmediate(0));
            lemma_run_push(machine, cleared, Instruction::SetIfZero);
            assert(operator.instructions() =~= cleared.push(Instruction::SetIfZero));
        },
        UnaryOperator::Bitwise => {
            lemma_run_one(machine, Instruction::Complement);
        },
    }
}

/// What the instructions of a binary operator are to do, run from `machine`
/// with the left operand in the scratch register and the right operand in
/// the accumulator: leave the operator applied to the two in the
/// accumulator, touch neither the stack nor the frame, and fault exactly
/// where the operator has no value.
pub open spec fn applies(operator: BinaryOperator, machine: Machine) -> bool {
    match operator.applied(machine.scratch, machine.accumulator) {
        Some(value) => machine.run(operator.instructions()) matches Some(end) && end.accumulator
            == value && end.stack == machine.stack && end.frame == machine.frame,
        None => machine.run(operator.instructions()) is None,
    }
}

proof fn lemma_addition_applies(machine: Machine)
    ensures
        applies(BinaryOperator::Addition, machine),
{
    lemma_run_one(machine, Instruction::Add);
}

proof fn lemma_subtraction_applies(machine: Machine)
    ensures
        applies(BinaryOperator::Subtraction, machine),
{
    let swapped = seq![Instruction::Exchange];
    lemma_run_one(machine, Instruction::Exchange);
    lemma_run_push(machine, swapped, Instruction::Subtract);
    assert(BinaryOperator::Subtraction.instructions() =~= swapped.push(Instruction::Subtract));
}

proof fn lemma_multiplication_applies(machine: Machine)
    ensures
        applies(BinaryOperator::Multiplication, machine),
{
    lemma_run_one(machine, Instruction::Multiply);
    assert(machine.scratch * machine.accumulator == machine.accumulator * machine.scratch)
        by (nonlinear_arith);
}

/// A division divides with a clear extension register. When the divide
/// instruction of a division runs, the extension register is zero, the left
/// operand is in the accumulator and the right operand is in the scratch
/// register. So the dividend is the left operand, read as a number that is
/// not negative, and the divisor is the right operand.
pub proof fn lemma_division_runs_on_clear_extension(machine: Machine)
    ensures
        machine.run(seq![Instruction::Exchange, Instruction::ClearExtension]) matches Some(ready)
            && ready.extension == 0 && ready.accumulator == machine.scratch && ready.scratch
            == machine.accumulator && ready.stack == machine.stack && ready.frame == machine.frame
            && dividend(ready.extension, ready.accumulator) == machine.scratch
            && machine.run(BinaryOperator::Division.instructions()) == ready.step(
            Instruction::Divide,
        ),
{
    let swapped = seq![Instruction::Exchange];
    let cleared = swapped.push(Instruction::ClearExtension);
    lemma_run_one(machine, Instruction::Exchange);
    lemma_run_push(machine, swapped, Instruction::ClearExtension);
    lemma_run_push(machine, cleared, Instruction::Divide);
    assert(seq![Instruction::Exchange, Instruction::ClearExtension] =~= cleared);
    assert(BinaryOperator::Division.instructions() =~= cleared.push(Instruction::Divide));
    assert(0 * WORD + machine.scratch == machine.scratch);
}

/// The instructions of a division leave the signed quotient of the left
/// operand, read as a number that is not negative, by the right operand in
/// the accumulator. They fault on a zero divisor and on a quotient that is
/// no signed 32-bit number.
pub proof fn lemma_division_applies(machine: Machine)
    ensures
        applies(BinaryOperator::Division, machine),
{
    lemma_division_runs_on_clear_extension(machine);
}

/// A multiplication leaves the extension register as it found it.
pub proof fn lemma_multiplication_keeps_extension(machine: Machine)
    ensures
        machine.run(BinaryOperator::Multiplication.instructions()) matches Some(end)
            && end.extension == machine.extension,
{
    lemma_run_one(machine, Instruction::Multiply);
}

/// The instructions of a binary operator, run with the left operand in the
/// scratch register and the right operand in the accumulator, leave the
/// operator applied to the two in the accumulator, and touch neither the
/// stack nor the frame. They fault exactly where the operator has no value.
pub proof fn lemma_binary_instructions_apply(operator: BinaryOperator, machine: Machine)
    ensures
        applies(operator, machine),
{
    match operator {
        BinaryOperator::Addition => lemma_addition_applies(machine),
        BinaryOperator::Subtraction => lemma_subtraction_applies(machine),
        BinaryOperator::Multiplication => lemma_multiplication_applies(machine),
        BinaryOperator::Division => lemma_division_applies(machine),
    }
}

/// The instructions of a binary operation run in stages: those of the left
/// operand, the push, those of the right operand, the pop, and those of the
/// operator. A fault in one stage is a fault of the whole.
proof fn lemma_binary_runs_in_stages(
    operator: BinaryOperator,
    left: ExpressionView,
    right: ExpressionView,
    names: Seq<Seq<char>>,
    machine: Machine,
)
    requires
        left.lowered(names).complete,
        right.lowered(names).complete,
    ensures
        machine.run(
            ExpressionView::BinOp(operator, Box::new(left), Box::new(right)).lowered(
                names,
            ).instructions,
        ) == match machine.run(left.lowered(names).instructions) {
            Some(after_left) => match after_left.step(Instruction::Push)->0.run(
                right.lowered(names).instructions,
            ) {
                Some(after_right) => match after_right.step(Instruction::Pop) {
                    Some(placed) => placed.run(operator.instructions()),
                    None => None,
                },
                None => None,
            },
            None => None,
        },
{
    let first = left.lowered(names).instructions;
    let second = right.lowered(names).instructions;
    let staged = first.push(Instruction::Push);
    let evaluated = staged + second;
    let unstaged = evaluated.push(Instruction::Pop);
    let whole = ExpressionView::BinOp(operator, Box::new(left), Box::new(right)).lowered(
        names,
    ).instructions;
    assert(first + seq![Instruction::Push] =~= staged);
    assert(evaluated + seq![Instruction::Pop] =~= unstaged);
    assert(whole =~= unstaged + operator.instructions());
    lemma_run_push(machine, first, Instruction::Push);
    lemma_run_concat(machine, staged, second);
    lemma_run_push(machine, evaluated, Instruction::Pop);
    lemma_run_concat(machine, unstaged, operator.instructions());
}

/// Lowering preserves meaning. Run from any state of the machine, the
/// instructions of a completely lowered expression leave the value of the
/// expression in the accumulator and the frame as the expression's
/// assignments leave it, and give the stack back as they found it. They
/// fault exactly where the expression has no value.
pub proof fn lemma_lowering_preserves_meaning(
    expression: ExpressionView,
    names: Seq<Seq<char>>,
    machine: Machine,
)
    requires
        expression.lowered(names).complete,
    ensures
        match expression.meaning(names, machine.frame) {
            Some((value, frame)) => machine.run(expression.lowered(names).instructions) matches Some(
                end,
            ) && end.accumulator == value && end.frame == frame && end.stack == machine.stack,
            None => machine.run(expression.lowered(names).instructions) is None,
        },
    decreases expression,
{
    match expression {
        ExpressionView::Assign(name, value) => {
            let store = Instruction::StoreVariable(distance(names, name) as usize);
            let evaluated = value.lowered(names).instructions;
            lemma_lowering_preserves_meaning(*value, names, machine);
            lemma_run_push(machine, evaluated, store);
            assert(evaluated + seq![store] =~= evaluated.push(store));
        },
        ExpressionView::Var(name) => {
            lemma_run_one(machine, Instruction::LoadVariable(distance(names, name) as usize));
        },
        ExpressionView::Constant(value) => {
            lemma_run_one(machine, Instruction::LoadImmediate(value));
        },
        ExpressionView::UnOp(operator, operand) => {
            let evaluated = operand.lowered(names).instructions;
            lemma_lowering_preserves_meaning(*operand, names, machine);
            lemma_run_concat(machine, evaluated, operator.instructions());
            if machine.run(evaluated) is Some {
                lemma_unary_instructions_apply(operator, machine.run(evaluated)->0);
            }
        },
        ExpressionView::BinOp(operator, left, right) => {
            lemma_binary_runs_in_stages(operator, *left, *right, names, machine);
            lemma_lowering_preserves_meaning(*left, names, machine);
            let after_left = machine.run(left.lowered(names).instructions);
            if after_left is Some {
                let staged = after_left->0.step(Instruction::Push)->0;
                lemma_lowering_preserves_meaning(*right, names, staged);
                let after_right = staged.run(right.lowered(names).instructions);
                if after_right is Some {
                    assert(after_right->0.stack.drop_last() =~= machine.stack);
                    lemma_binary_instructions_apply(
                        operator,
                        after_right->0.step(Instruction::Pop)->0,
                    );
                }
            }
        },
    }
}

/// The instructions of a completely lowered expression give the stack back
/// as they found it.
pub proof fn lemma_lowering_keeps_stack(
    expression: ExpressionView,
    names: Seq<Seq<char>>,
    machine: Machine,
)
    requires
        expression.lowered(names).complete,
    ensures
        machine.run(expression.lowered(names).instructions) matches Some(end) ==> end.stack
            == machine.stack,
{
    lemma_lowering_preserves_meaning(expression, names, machine);
}

/// Whatever the operator and however deep the operands, a binary operation
/// finds its operands where it expects them. When the instructions of the
/// left operand, the push, the instructions of the right operand and the pop
/// have run, the value that the left operand left in the accumulator is in
/// the scratch register, the value of the right operand is in the
/// accumulator, and the stack is as it was at the start. The operator's own
/// instructions run from there.
pub proof fn lemma_operands_are_placed(
    operator: BinaryOperator,
    left: ExpressionView,
    right: ExpressionView,
    names: Seq<Seq<char>>,
    machine: Machine,
)
    requires
        left.lowered(names).complete,
        right.lowered(names).complete,
        machine.run(left.lowered(names).instructions) is Some,
        machine.run(left.lowered(names).instructions)->0.step(Instruction::Push)->0.run(
            right.lowered(names).instructions,
        ) is Some,
    ensures
        ({
            let after_left = machine.run(left.lowered(names).instructions)->0;
            let after_right = after_left.step(Instruction::Push)->0.run(
                right.lowered(names).instructions,
            )->0;
            let placed = after_right.step(Instruction::Pop);
            &&& placed is Some
            &&& placed->0.scratch == after_left.accumulator
            &&& placed->0.accumulator == after_right.accumulator
            &&& placed->0.stack == machine.stack
            &&& machine.run(
                ExpressionView::BinOp(operator, Box::new(left), Box::new(right)).lowered(
                    names,
                ).instructions,
            ) == placed->0.run(operator.instructions())
        }),
{
    lemma_binary_runs_in_stages(operator, left, right, names, machine);
    lemma_lowering_keeps_stack(left, names, machine);
    let after_left = machine.run(left.lowered(names).instructions)->0;
    let staged = after_left.step(Instruction::Push)->0;
    lemma_lowering_keeps_stack(right, names, staged);
    let after_right = staged.run(right.lowered(names).instructions)->0;
    assert(after_right.stack.drop_last() =~= machine.stack);
}

} // verus!
