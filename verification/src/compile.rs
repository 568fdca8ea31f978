//! What it means to lower a piece of syntax to assembly.

use vstd::prelude::*;
use vstd::string::*;
use crate::assembly::{listing, Instruction};
use crate::errors::ErrorKind;
use crate::grammar;
use crate::parser::parse;
use crate::scope::Scope;

verus! {

/// The outcome of lowering: the instructions that were emitted, and whether
/// lowering ran to its end. Lowering stops at the first variable that has no
/// slot; what it emitted until there stays emitted and is of no use.
pub struct Lowered {
    pub instructions: Seq<Instruction>,
    pub complete: bool,
}

impl Lowered {
    /// Lowering that emits `instructions` and cannot fail.
    pub open spec fn emits(instructions: Seq<Instruction>) -> Lowered {
        Lowered { instructions, complete: true }
    }

    /// Lowering that fails before it emits anything.
    pub open spec fn stops() -> Lowered {
        Lowered { instructions: Seq::empty(), complete: false }
    }

    /// This lowering and then `next`, which is reached only if this one is
    /// complete.
    pub open spec fn followed_by(self, next: Lowered) -> Lowered {
        if self.complete {
            Lowered { instructions: self.instructions + next.instructions, complete: next.complete }
        } else {
            self
        }
    }
}

/// Syntax that can be lowered to assembly.
///
/// Once lowered, every construct leaves its value in the accumulator.
pub trait Compile {
    /// What lowering emits when the variables in `names` are declared.
    spec fn lowered(&self, names: Seq<Seq<char>>) -> Lowered;

    /// Appends the assembly of `self` to `output`.
    ///
    /// Fails with `UnknownVariable`, and stops writing, at the first variable
    /// that is not declared in `scope`. The scope itself is left as it is.
    fn compile(&self, output: &mut Vec<u8>, scope: &mut Scope) -> (res: Result<(), ErrorKind>)
        ensures
            *final(scope) == *old(scope),
            final(output)@ == old(output)@ + listing(self.lowered(old(scope)@).instructions),
            res is Ok <==> self.lowered(old(scope)@).complete,
            res is Err ==> res == Err::<(), ErrorKind>(ErrorKind::UnknownVariable),
    ;
}

/// The assembly of a source text: that of the one expression that the text
/// holds, lowered with the targets of its assignments declared and nothing
/// else.
pub open spec fn compiled(source: Seq<u8>) -> Result<Seq<u8>, ErrorKind> {
    match grammar::program(source) {
        Ok(tree) => {
            let lowered = tree.lowered(tree.declaring(Seq::empty()));
            if lowered.complete {
                Ok(listing(lowered.instructions))
            } else {
                Err(ErrorKind::UnknownVariable)
            }
        },
        Err(_) => Err(ErrorKind::SyntaxError),
    }
}

/// Compiles a source text to assembly.
///
/// Fails with `SyntaxError` if the text is not one expression, and with
/// `UnknownVariable` if the expression reads a variable that it does not
/// assign anywhere.
pub fn compile_source(source: &[u8]) -> (res: Result<Vec<u8>, ErrorKind>)
    ensures
        match res {
            Ok(assembly) => compiled(source@) == Ok::<Seq<u8>, ErrorKind>(assembly@),
            Err(kind) => compiled(source@) == Err::<Seq<u8>, ErrorKind>(kind),
        },
{
    let mut scope = Scope::new();
    let tree = match parse(source, &mut scope) {
        Ok(tree) => tree,
        Err(_) => {
            return Err(ErrorKind::SyntaxError);
        },
    };
    let mut assembly: Vec<u8> = Vec::new();
    match tree.compile(&mut assembly, &mut scope) {
        Ok(()) => Ok(assembly),
        Err(kind) => Err(kind),
    }
}

/// The text that ends a function: it releases the frame and returns.
pub open spec fn epilogue() -> Seq<u8> {
    "movl %ebp, %esp\npop %ebp\nret\n".spec_bytes()
}

/// Appends the epilogue of a function to `output`.
pub fn write_epilogue(output: &mut Vec<u8>)
    ensures
        final(output)@ == old(output)@ + epilogue(),
{
    output.extend_from_slice("movl %ebp, %esp\npop %ebp\nret\n".as_bytes());
}

} // verus!
