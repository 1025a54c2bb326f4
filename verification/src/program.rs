//! The instruction tree that the parser builds and the machine executes.
use vstd::prelude::*;

verus! {

/// One executable instruction.
#[derive(Debug, PartialEq, Eq)]
pub enum VMInstruction {
    /// Adds the amount to the current cell, modulo 256.
    Increment(i8),
    /// Moves the pointer by the amount.
    Move(isize),
    /// Writes the current cell.
    Print,
    /// Reads one byte into the current cell.
    Read,
    /// Repeats the body while the current cell is not zero.
    Loop(Vec<VMInstruction>),
}

/// The mathematical form of a [`VMInstruction`]: the same tree, with a
/// sequence for each loop body.
pub enum Instruction {
    /// A folded run of cell increments and decrements.
    Add(i8),
    /// A folded run of pointer moves.
    Shift(isize),
    /// Writes the current cell.
    Output,
    /// Reads one byte into the current cell.
    Input,
    /// Everything between a loop's brackets.
    Loop(Seq<Instruction>),
}

/// The mathematical form of an instruction. Each loop body is taken
/// instruction by instruction.
pub open spec fn instruction_of(instruction: VMInstruction) -> Instruction
    decreases instruction,
{
    match instruction {
        VMInstruction::Increment(amount) => Instruction::Add(amount),
        VMInstruction::Move(amount) => Instruction::Shift(amount),
        VMInstruction::Print => Instruction::Output,
        VMInstruction::Read => Instruction::Input,
        VMInstruction::Loop(body) => Instruction::Loop(
            Seq::new(
                body@.len(),
                |i: int|
                    if 0 <= i < body@.len() {
                        instruction_of(body@[i])
                    } else {
                        arbitrary()
                    },
            ),
        ),
    }
}

impl DeepView for VMInstruction {
    type V = Instruction;

    open spec fn deep_view(&self) -> Instruction {
        instruction_of(*self)
    }
}

/// A loop is seen as the loop of what its body is seen as.
pub proof fn lemma_loop_deep_view(body: Vec<VMInstruction>)
    ensures
        VMInstruction::Loop(body).deep_view() == Instruction::Loop(body.deep_view()),
{
    assert(VMInstruction::Loop(body).deep_view()->Loop_0 =~= body.deep_view());
}

} // verus!
