//! The unary operators and the instructions that realise them.

use vstd::prelude::*;
use crate::assembly::{write_listing, Instruction};
use crate::compile::{Compile, Lowered};
use crate::errors::ErrorKind;
use crate::machine::wrap;
use crate::scope::Scope;

verus! {

/// An operator with one operand. Its instructions find the operand in the
/// accumulator and leave the result there.
#[derive(Clone, Copy, Debug, PartialEq, Eq, Structural)]
pub enum UnaryOperator {
    /// Arithmetic negation, `-`.
    Negation,
    /// Logical negation, `!`: 1 for zero and 0 for anything else.
    LogicalNegation,
    /// Bitwise complement, `~`.
    Bitwise,
}

impl UnaryOperator {
    /// The instructions that apply the operator to the accumulator.
    pub open spec fn instructions(self) -> Seq<Instruction> {
        match self {
            UnaryOperator::Negation => seq![Instruction::Negate],
            UnaryOperator::LogicalNegation => seq![
                Instruction::CompareWithZero,
                Instruction::LoadImmediate(0),
                Instruction::SetIfZero,
            ],
            UnaryOperator::Bitwise => seq![Instruction::Complement],
        }
    }

    /// The value of the operator applied to `operand`, both as 32-bit
    /// patterns.
    pub open spec fn applied(self, operand: u32) -> u32 {
        match self {
            UnaryOperator::Negation => wrap(0 - operand),
            UnaryOperator::LogicalNegation => if operand == 0 {
                1
            } else {
                0
            },
            UnaryOperator::Bitwise => wrap(0 - operand - 1),
        }
    }

    /// The instructions that apply the operator to the accumulator.
    pub fn emission(&self) -> (emitted: Vec<Instruction>)
        ensures
            emitted@ == self.instructions(),
    {
        match self {
            UnaryOperator::Negation => vec![Instruction::Negate],
            UnaryOperator::LogicalNegation => vec![
                Instruction::CompareWithZero,
                Instruction::LoadImmediate(0),
                Instruction::SetIfZero,
            ],
            UnaryOperator::Bitwise => vec![Instruction::Complement],
        }
    }
}

impl Compile for UnaryOperator {
    open spec fn lowered(&self, names: Seq<Seq<char>>) -> Lowered {
        Lowered::emits(self.instructions())
    }

    fn compile(&self, output: &mut Vec<u8>, scope: &mut Scope) -> (res: Result<(), ErrorKind>) {
        write_listing(output, &self.emission());
        Ok(())
    }
}

} // verus!
