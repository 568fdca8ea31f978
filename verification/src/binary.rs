//! The binary operators and the instructions that realise them.

use vstd::prelude::*;
use crate::assembly::{write_listing, Instruction};
use crate::compile::{Compile, Lowered};
use crate::errors::ErrorKind;
use crate::machine::{fits_signed, quotient, signed, wrap};
use crate::scope::Scope;

verus! {

/// An operator with two operands. Its instructions find the left operand in
/// the scratch register and the right operand in the accumulator, and leave
/// the result in the accumulator.
#[derive(Clone, Copy, Debug, PartialEq, Eq, Structural)]
pub enum BinaryOperator {
    /// `+`
    Addition,
    /// `-`
    Subtraction,
    /// `*`
    Multiplication,
    /// `/`
    Division,
}

/// The operators that bind as tightly as multiplication: the ones that chain
/// the factors of a term.
#[derive(Clone, Copy, Debug, PartialEq, Eq, Structural)]
pub enum TermOperation {
    /// `*`
    Multiplication,
    /// `/`
    Division,
}

impl BinaryOperator {
    /// The instructions that combine the scratch register and the accumulator.
    ///
    /// Subtraction and division do not commute, so they first swap the two
    /// registers to have the left operand in the accumulator. Division then
    /// clears the extension register, which the signed divide instruction
    /// takes as the high half of the dividend.
    pub open spec fn instructions(self) -> Seq<Instruction> {
        match self {
            BinaryOperator::Addition => seq![Instruction::Add],
            BinaryOperator::Subtraction => seq![Instruction::Exchange, Instruction::Subtract],
            BinaryOperator::Multiplication => seq![Instruction::Multiply],
            BinaryOperator::Division => seq![
                Instruction::Exchange,
                Instruction::ClearExtension,
                Instruction::Divide,
            ],
        }
    }

    /// The value of the operator applied to `left` and `right`, all as 32-bit
    /// patterns, or `None` where the machine would fault. Addition,
    /// subtraction and multiplication wrap around.
    ///
    /// Division is the signed division of the machine with its extension
    /// register clear: the dividend is `left` read as a number that is not
    /// negative, the divisor is `right` read with its sign, and the quotient
    /// rounds toward zero. It faults on a zero divisor and on a quotient
    /// that is no signed 32-bit number.
    pub open spec fn applied(self, left: u32, right: u32) -> Option<u32> {
        match self {
            BinaryOperator::Addition => Some(wrap(left + right)),
            BinaryOperator::Subtraction => Some(wrap(left - right)),
            BinaryOperator::Multiplication => Some(wrap(left * right)),
            BinaryOperator::Division => if signed(right) == 0 || !fits_signed(
                quotient(left as int, signed(right)),
            ) {
                None
            } else {
                Some(wrap(quotient(left as int, signed(right))))
            },
        }
    }

    /// The instructions that combine the scratch register and the accumulator.
    pub fn emission(&self) -> (emitted: Vec<Instruction>)
        ensures
            emitted@ == self.instructions(),
    {
        match self {
            BinaryOperator::Addition => vec![Instruction::Add],
            BinaryOperator::Subtraction => vec![Instruction::Exchange, Instruction::Subtract],
            BinaryOperator::Multiplication => vec![Instruction::Multiply],
            BinaryOperator::Division => vec![
                Instruction::Exchange,
                Instruction::ClearExtension,
                Instruction::Divide,
            ],
        }
    }
}

/// Whether every division in `instructions` comes directly after the
/// instruction that clears the extension register, so that no division
/// takes stale bits for the high half of its dividend.
pub open spec fn divisions_are_guarded(instructions: Seq<Instruction>) -> bool {
    forall|i: int|
        0 <= i < instructions.len() && #[trigger] instructions[i] == Instruction::Divide ==> i > 0
            && instructions[i - 1] == Instruction::ClearExtension
}

/// Whether no instruction in `instructions` reads or writes the extension
/// register.
pub open spec fn spares_extension(instructions: Seq<Instruction>) -> bool {
    forall|i: int| 0 <= i < instructions.len() ==> !(#[trigger] instructions[i]).uses_extension()
}

/// Division clears the extension register directly before it divides, and
/// no other operator touches that register. Multiplication, in particular,
/// never refers to it.
pub proof fn lemma_only_division_uses_extension(operator: BinaryOperator)
    ensures
        divisions_are_guarded(operator.instructions()),
        operator != BinaryOperator::Division ==> spares_extension(operator.instructions()),
        BinaryOperator::Division.instructions().last() == Instruction::Divide,
        BinaryOperator::Division.instructions()[BinaryOperator::Division.instructions().len() - 2]
            == Instruction::ClearExtension,
{
}

/// Where divisions are guarded in two sequences, they are guarded in the
/// two put together.
pub proof fn lemma_guarded_concat(first: Seq<Instruction>, second: Seq<Instruction>)
    requires
        divisions_are_guarded(first),
        divisions_are_guarded(second),
    ensures
        divisions_are_guarded(first + second),
{
    let both = first + second;
    assert forall|i: int| 0 <= i < both.len() && #[trigger] both[i] == Instruction::Divide implies i
        > 0 && both[i - 1] == Instruction::ClearExtension by {
        if i < first.len() {
            assert(first[i] == Instruction::Divide);
        } else {
            assert(second[i - first.len()] == Instruction::Divide);
            assert(both[i - 1] == second[i - first.len() - 1]);
        }
    }
}

impl Compile for BinaryOperator {
    open spec fn lowered(&self, names: Seq<Seq<char>>) -> Lowered {
        Lowered::emits(self.instructions())
    }

    fn compile(&self, output: &mut Vec<u8>, scope: &mut Scope) -> (res: Result<(), ErrorKind>) {
        write_listing(output, &self.emission());
        Ok(())
    }
}

impl TermOperation {
    /// The same operator among all the binary operators.
    pub open spec fn binary(self) -> BinaryOperator {
        match self {
            TermOperation::Multiplication => BinaryOperator::Multiplication,
            TermOperation::Division => BinaryOperator::Division,
        }
    }

    /// The same operator among all the binary operators.
    pub fn to_binary(&self) -> (operator: BinaryOperator)
        ensures
            operator == self.binary(),
    {
        match self {
            TermOperation::Multiplication => BinaryOperator::Multiplication,
            TermOperation::Division => BinaryOperator::Division,
        }
    }
}

impl Compile for TermOperation {
    open spec fn lowered(&self, names: Seq<Seq<char>>) -> Lowered {
        Lowered::emits(self.binary().instructions())
    }

    fn compile(&self, output: &mut Vec<u8>, scope: &mut Scope) -> (res: Result<(), ErrorKind>) {
        self.to_binary().compile(output, scope)
    }
}

} // verus!
