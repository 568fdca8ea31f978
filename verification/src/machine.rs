//! A model of the part of the machine that the emitted instructions touch.
//!
//! The model gives each instruction a meaning, so that what lowering emits
//! can be said to compute the right value and not only to have the right
//! shape.

use vstd::prelude::*;
use crate::assembly::Instruction;

verus! {

/// The number of 32-bit patterns.
pub const WORD: u64 = 0x1_0000_0000;

/// The 32-bit pattern of `value`: `value` modulo two to the thirty-second.
pub open spec fn wrap(value: int) -> u32 {
    (value % (WORD as int)) as u32
}

/// The number that a 32-bit pattern stands for when its top bit is a sign.
pub open spec fn signed(pattern: u32) -> int {
    if pattern < 0x8000_0000 {
        pattern as int
    } else {
        pattern - WORD
    }
}

/// The signed number that the extension register and the accumulator stand
/// for as the high and the low half of one 64-bit pattern. With a clear
/// extension register it is the accumulator, read as a number that is not
/// negative.
pub open spec fn dividend(extension: u32, accumulator: u32) -> int {
    if extension < 0x8000_0000 {
        extension * WORD + accumulator
    } else {
        extension * WORD + accumulator - WORD * WORD
    }
}

/// The quotient of a signed division, which rounds toward zero.
pub open spec fn quotient(dividend: int, divisor: int) -> int
    recommends
        divisor != 0,
{
    if dividend >= 0 {
        if divisor > 0 {
            dividend / divisor
        } else {
            -(dividend / (-divisor))
        }
    } else {
        if divisor > 0 {
            -((-dividend) / divisor)
        } else {
            (-dividend) / (-divisor)
        }
    }
}

/// The remainder of a signed division, which has the sign of the dividend.
pub open spec fn remainder(dividend: int, divisor: int) -> int
    recommends
        divisor != 0,
{
    let size = if divisor > 0 {
        divisor
    } else {
        -divisor
    };
    if dividend >= 0 {
        dividend % size
    } else {
        -((-dividend) % size)
    }
}

/// Whether `value` is a signed 32-bit number.
pub open spec fn fits_signed(value: int) -> bool {
    -0x8000_0000 <= value <= 0x7fff_ffff
}

/// The registers, the flag, the stack and the frame of the running function.
pub struct Machine {
    /// `%eax`.
    pub accumulator: u32,
    /// `%ecx`.
    pub scratch: u32,
    /// `%edx`.
    pub extension: u32,
    /// The zero flag.
    pub zero: bool,
    /// The values staged on the machine stack, the latest last.
    pub stack: Seq<u32>,
    /// The variables of the frame, by their distance from the frame base in
    /// storage units. A variable that was never stored holds whatever the
    /// map gives for it.
    pub frame: Map<usize, u32>,
}

impl Machine {
    /// The machine after `instruction`, or `None` if the instruction faults:
    /// a pop from an empty stack, a division by zero, or a quotient that
    /// is no signed 32-bit number.
    ///
    /// Multiplication and division leave the zero flag undefined; here it
    /// gets a value of which nothing is known.
    pub open spec fn step(self, instruction: Instruction) -> Option<Machine> {
        match instruction {
            Instruction::LoadImmediate(value) => Some(
                Machine { accumulator: wrap(value as int), ..self },
            ),
            Instruction::LoadVariable(units) => Some(
                Machine { accumulator: self.frame[units], ..self },
            ),
            Instruction::StoreVariable(units) => Some(
                Machine { frame: self.frame.insert(units, self.accumulator), ..self },
            ),
            Instruction::Push => Some(
                Machine { stack: self.stack.push(self.accumulator), ..self },
            ),
            Instruction::Pop => if self.stack.len() > 0 {
                Some(Machine { scratch: self.stack.last(), stack: self.stack.drop_last(), ..self })
            } else {
                None
            },
            Instruction::Negate => {
                let result = wrap(0 - self.accumulator);
                Some(Machine { accumulator: result, zero: result == 0, ..self })
            },
            Instruction::Complement => Some(
                Machine { accumulator: wrap(0 - self.accumulator - 1), ..self },
            ),
            Instruction::CompareWithZero => Some(Machine { zero: self.accumulator == 0, ..self }),
            Instruction::SetIfZero => {
                let low: int = if self.zero {
                    1
                } else {
                    0
                };
                Some(
                    Machine {
                        accumulator: wrap(self.accumulator - self.accumulator % 256 + low),
                        ..self
                    },
                )
            },
            Instruction::Add => {
                let result = wrap(self.accumulator + self.scratch);
                Some(Machine { accumulator: result, zero: result == 0, ..self })
            },
            Instruction::Subtract => {
                let result = wrap(self.accumulator - self.scratch);
                Some(Machine { accumulator: result, zero: result == 0, ..self })
            },
            Instruction::Multiply => Some(
                Machine {
                    accumulator: wrap(self.accumulator * self.scratch),
                    zero: arbitrary(),
                    ..self
                },
            ),
            Instruction::Exchange => Some(
                Machine { accumulator: self.scratch, scratch: self.accumulator, ..self },
            ),
            Instruction::ClearExtension => Some(Machine { extension: 0, zero: true, ..self }),
            Instruction::Divide => {
                let divided = dividend(self.extension, self.accumulator);
                let divisor = signed(self.scratch);
                if divisor == 0 || !fits_signed(quotient(divided, divisor)) {
                    None
                } else {
                    Some(
                        Machine {
                            accumulator: wrap(quotient(divided, divisor)),
                            extension: wrap(remainder(divided, divisor)),
                            zero: arbitrary(),
                            ..self
                        },
                    )
                }
            },
        }
    }

    /// The machine after `instructions`, run in order, or `None` if one of
    /// them faults.
    #[verifier::opaque]
    pub open spec fn run(self, instructions: Seq<Instruction>) -> Option<Machine>
        decreases instructions.len(),
    {
        if instructions.len() == 0 {
            Some(self)
        } else {
            match self.run(instructions.drop_last()) {
                Some(reached) => reached.step(instructions.last()),
                None => None,
            }
        }
    }
}

/// Running one more instruction is a step from where the others ended.
pub proof fn lemma_run_push(machine: Machine, instructions: Seq<Instruction>, next: Instruction)
    ensures
        machine.run(instructions.push(next)) == match machine.run(instructions) {
            Some(reached) => reached.step(next),
            None => None,
        },
{
    reveal(Machine::run);
    assert(instructions.push(next).drop_last() =~= instructions);
}

/// Running no instruction changes nothing.
pub proof fn lemma_run_none(machine: Machine)
    ensures
        machine.run(Seq::empty()) == Some(machine),
{
    reveal(Machine::run);
}

/// Running a single instruction is one step.
pub proof fn lemma_run_one(machine: Machine, instruction: Instruction)
    ensures
        machine.run(seq![instruction]) == machine.step(instruction),
{
    assert(seq![instruction] =~= Seq::<Instruction>::empty().push(instruction));
    lemma_run_none(machine);
    lemma_run_push(machine, Seq::empty(), instruction);
}

/// Running two sequences, one after the other, is running the second from
/// where the first ended.
pub proof fn lemma_run_concat(machine: Machine, first: Seq<Instruction>, second: Seq<Instruction>)
    ensures
        machine.run(first + second) == match machine.run(first) {
            Some(reached) => reached.run(second),
            None => None,
        },
    decreases second.len(),
{
    reveal(Machine::run);
    if second.len() == 0 {
        assert(first + second =~= first);
    } else {
        lemma_run_concat(machine, first, second.drop_last());
        assert((first + second).drop_last() =~= first + second.drop_last());
        assert((first + second).last() == second.last());
    }
}

} // verus!
