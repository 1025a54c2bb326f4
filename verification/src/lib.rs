//! An interpreter for an eight-symbol language that works on a flat tape of
//! bytes.
//!
//! A program passes through three stages. [`lexer`] keeps the eight command
//! characters of a source text and drops everything else. [`parse`] turns the
//! tokens into a tree of instructions, folding runs of cell and pointer
//! commands and nesting loop bodies. [`Machine`] executes that tree against a
//! tape of [`TAPE_LENGTH`] cells, one transition at a time;
//! [`exec_vm_instructions`] runs it up to the next byte it wants to read or
//! write, and [`run`] runs it against a whole input held in memory.
pub mod laws;
pub mod machine;
pub mod parser;
pub mod program;
pub mod runner;
pub mod tokens;

pub use machine::{exec_vm_instructions, Action, Activation, Configuration, Machine, TAPE_LENGTH};
pub use parser::parse;
pub use program::{Instruction, VMInstruction};
pub use runner::{run, Execution, Exit};
pub use tokens::{lexer, BFInstruction};
