//! A compiler for a small expression language that targets 32-bit x86.
//!
//! Source text is parsed into a syntax tree, and the tree is lowered to
//! AT&T-style assembly that keeps the value of every sub-expression in
//! `%eax`. Each stage is described by a mathematical model, and the
//! executable code is proved to agree with it:
//!
//! * [`grammar`] defines the language, and [`parser`] reads it;
//! * [`expression`] and [`term`] hold the two shapes of the syntax tree;
//! * [`scope`] maps variable names to the slots of one call frame;
//! * [`assembly`] defines the instructions and their text;
//! * [`unary`] and [`binary`] say how each operator is realised;
//! * [`compile`] says what lowering is, and compiles a text from end to end;
//! * [`machine`] gives the instructions a meaning, and [`meaning`] proves
//!   that the instructions of an expression compute its value.

pub mod ascii;
pub mod assembly;
pub mod binary;
pub mod compile;
pub mod decimal;
pub mod errors;
pub mod expression;
pub mod grammar;
pub mod machine;
pub mod meaning;
pub mod parser;
pub mod scope;
pub mod term;
pub mod unary;

pub use crate::assembly::Instruction;
pub use crate::binary::{BinaryOperator, TermOperation};
pub use crate::compile::{compile_source, write_epilogue, Compile};
pub use crate::errors::{ErrorKind, SyntaxError};
pub use crate::expression::Expression;
pub use crate::parser::{parse, parse_expression, parse_factor, parse_int_literal, parse_term};
pub use crate::scope::Scope;
pub use crate::term::{Factor, Term};
pub use crate::unary::UnaryOperator;
