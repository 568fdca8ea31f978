//! The instructions that lowering emits, and their AT&T text.
//!
//! `%eax` is the accumulator: it holds the value of the expression that was
//! lowered last. `%ecx` is the scratch register of the binary operators and
//! `%edx` extends the dividend of a division. Variables live in the frame,
//! below `%ebp`.

use vstd::prelude::*;
use vstd::string::*;
use crate::decimal::{displacement, signed_decimal, write_displacement, write_signed_decimal};

verus! {

/// One instruction of the target machine.
#[derive(Clone, Copy, Debug, PartialEq, Eq, Structural)]
pub enum Instruction {
    /// `movl $n, %eax`: the accumulator becomes `n`.
    LoadImmediate(i32),
    /// `movl -d(%ebp), %eax`: the accumulator becomes the variable that lives
    /// the given number of storage units below the frame base.
    LoadVariable(usize),
    /// `movl %eax, -d(%ebp)`: that variable becomes the accumulator.
    StoreVariable(usize),
    /// `push %eax`: stages the accumulator on the machine stack.
    Push,
    /// `pop %ecx`: moves the value staged last into the scratch register.
    Pop,
    /// `neg %eax`: two's-complement negation of the accumulator.
    Negate,
    /// `not %eax`: flips every bit of the accumulator.
    Complement,
    /// `cmpl $0, %eax`: sets the zero flag if the accumulator is zero.
    CompareWithZero,
    /// `sete %al`: sets the low byte of the accumulator to the zero flag.
    SetIfZero,
    /// `addl %ecx, %eax`: adds the scratch register to the accumulator.
    Add,
    /// `subl %ecx, %eax`: subtracts the scratch register from the accumulator.
    Subtract,
    /// `imul %ecx, %eax`: multiplies the accumulator by the scratch register.
    Multiply,
    /// `xchg %ecx, %eax`: swaps the accumulator and the scratch register.
    Exchange,
    /// `xor %edx, %edx`: clears the extension register.
    ClearExtension,
    /// `idivl %ecx`: signed division of the extension register and the
    /// accumulator, taken as one 64-bit dividend, by the scratch register.
    /// The quotient goes to the accumulator, the remainder to the extension
    /// register.
    Divide,
}

impl Instruction {
    /// The line of assembly for this instruction, newline included.
    pub open spec fn text(self) -> Seq<u8> {
        match self {
            Instruction::LoadImmediate(value) => "movl $".spec_bytes() + signed_decimal(value)
                + ", %eax\n".spec_bytes(),
            Instruction::LoadVariable(units) => "movl -".spec_bytes() + displacement(units)
                + "(%ebp), %eax\n".spec_bytes(),
            Instruction::StoreVariable(units) => "movl %eax, -".spec_bytes() + displacement(units)
                + "(%ebp)\n".spec_bytes(),
            Instruction::Push => "push %eax\n".spec_bytes(),
            Instruction::Pop => "pop %ecx\n".spec_bytes(),
            Instruction::Negate => "neg %eax\n".spec_bytes(),
            Instruction::Complement => "not %eax\n".spec_bytes(),
            Instruction::CompareWithZero => "cmpl $0, %eax\n".spec_bytes(),
            Instruction::SetIfZero => "sete %al\n".spec_bytes(),
            Instruction::Add => "addl %ecx, %eax\n".spec_bytes(),
            Instruction::Subtract => "subl %ecx, %eax\n".spec_bytes(),
            Instruction::Multiply => "imul %ecx, %eax\n".spec_bytes(),
            Instruction::Exchange => "xchg %ecx, %eax\n".spec_bytes(),
            Instruction::ClearExtension => "xor %edx, %edx\n".spec_bytes(),
            Instruction::Divide => "idivl %ecx\n".spec_bytes(),
        }
    }

    /// Whether the instruction reads or writes the extension register `%edx`.
    pub open spec fn uses_extension(self) -> bool {
        self == Instruction::ClearExtension || self == Instruction::Divide
    }

    /// Appends the text of this instruction to `output`.
    pub fn write(&self, output: &mut Vec<u8>)
        ensures
            final(output)@ == old(output)@ + self.text(),
    {
        match *self {
            Instruction::LoadImmediate(value) => {
                output.extend_from_slice("movl $".as_bytes());
                write_signed_decimal(output, value);
                output.extend_from_slice(", %eax\n".as_bytes());
            },
            Instruction::LoadVariable(units) => {
                output.extend_from_slice("movl -".as_bytes());
                write_displacement(output, units);
                output.extend_from_slice("(%ebp), %eax\n".as_bytes());
            },
            Instruction::StoreVariable(units) => {
                output.extend_from_slice("movl %eax, -".as_bytes());
                write_displacement(output, units);
                output.extend_from_slice("(%ebp)\n".as_bytes());
            },
            Instruction::Push => output.extend_from_slice("push %eax\n".as_bytes()),
            Instruction::Pop => output.extend_from_slice("pop %ecx\n".as_bytes()),
            Instruction::Negate => output.extend_from_slice("neg %eax\n".as_bytes()),
            Instruction::Complement => output.extend_from_slice("not %eax\n".as_bytes()),
            Instruction::CompareWithZero => output.extend_from_slice("cmpl $0, %eax\n".as_bytes()),
            Instruction::SetIfZero => output.extend_from_slice("sete %al\n".as_bytes()),
            Instruction::Add => output.extend_from_slice("addl %ecx, %eax\n".as_bytes()),
            Instruction::Subtract => output.extend_from_slice("subl %ecx, %eax\n".as_bytes()),
            Instruction::Multiply => output.extend_from_slice("imul %ecx, %eax\n".as_bytes()),
            Instruction::Exchange => output.extend_from_slice("xchg %ecx, %eax\n".as_bytes()),
            Instruction::ClearExtension => output.extend_from_slice("xor %edx, %edx\n".as_bytes()),
            Instruction::Divide => output.extend_from_slice("idivl %ecx\n".as_bytes()),
        }
    }
}

/// The text of a sequence of instructions: their lines, one after another.
pub open spec fn listing(instructions: Seq<Instruction>) -> Seq<u8>
    decreases instructions.len(),
{
    if instructions.len() == 0 {
        Seq::empty()
    } else {
        listing(instructions.drop_last()) + instructions.last().text()
    }
}

/// The listing of a sequence with one more instruction at its end.
pub proof fn lemma_listing_push(instructions: Seq<Instruction>, next: Instruction)
    ensures
        listing(instructions.push(next)) == listing(instructions) + next.text(),
{
    assert(instructions.push(next).drop_last() =~= instructions);
}

/// The listing of two sequences, one after the other, is the two listings,
/// one after the other.
pub proof fn lemma_listing_concat(first: Seq<Instruction>, second: Seq<Instruction>)
    ensures
        listing(first + second) == listing(first) + listing(second),
    decreases second.len(),
{
    if second.len() == 0 {
        assert(first + second =~= first);
    } else {
        lemma_listing_concat(first, second.drop_last());
        assert((first + second).drop_last() =~= first + second.drop_last());
        assert((first + second).last() == second.last());
    }
}

/// Appends the text of each of `instructions`, in order.
pub fn write_listing(output: &mut Vec<u8>, instructions: &Vec<Instruction>)
    ensures
        final(output)@ == old(output)@ + listing(instructions@),
{
    let mut i: usize = 0;
    while i < instructions.len()
        invariant
            i <= instructions@.len(),
            output@ == old(output)@ + listing(instructions@.take(i as int)),
        decreases instructions@.len() - i,
    {
        instructions[i].write(output);
        proof {
            assert(instructions@.take(i + 1) =~= instructions@.take(i as int).push(
                instructions@[i as int],
            ));
            lemma_listing_push(instructions@.take(i as int), instructions@[i as int]);
        }
        i += 1;
    }
    assert(instructions@.take(i as int) =~= instructions@);
}

} // verus!
