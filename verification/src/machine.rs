//! The machine: a tape of bytes, a pointer into it, and the place that
//! execution has reached in the instruction tree.
//!
//! The machine never reads or writes by itself. When the program wants to
//! write a byte, or read one and none has been offered, it stops and says so;
//! its caller does the work and resumes it.
use crate::program::{lemma_loop_deep_view, Instruction, VMInstruction};
use vstd::prelude::*;
use vstd::wrapping::usize_specs;

verus! {

/// The number of cells of the tape.
pub const TAPE_LENGTH: usize = 30_000;

/// What the machine asks of its caller when it stops.
#[derive(Debug, PartialEq, Eq, Clone, Copy)]
pub enum Action {
    /// Nothing: the machine took a step, or ran out of fuel, and can go on.
    Continue,
    /// Write this byte, then resume.
    Print(u8),
    /// Read one byte, offer it to the machine, then resume.
    Read,
    /// The program has ended.
    Halt,
    /// The program touched the cell under a pointer that is outside the tape.
    OutOfBounds,
}

/// A loop body, or the program itself, that is being executed, and the
/// position of its next instruction.
pub struct Activation {
    pub body: Seq<Instruction>,
    pub index: nat,
}

/// Everything that decides what the machine does next.
pub struct Configuration {
    /// The cells of the tape.
    pub memory: Seq<u8>,
    /// The index of the current cell. It may lie outside the tape.
    pub data_pointer: usize,
    /// A byte that was offered and not yet read by the program.
    pub pending: Option<u8>,
    /// The program, then each loop body that execution is inside of, the
    /// innermost last.
    pub stack: Seq<Activation>,
}

/// The cell value after an amount is added: `(cell + amount) mod 256`.
pub open spec fn add_to_cell(cell: u8, amount: i8) -> u8 {
    ((cell + amount) % 256) as u8
}

/// The pointer after it is moved by an amount, with wraparound in the
/// pointer's own width, not the tape's length.
pub open spec fn move_pointer(data_pointer: usize, amount: isize) -> usize {
    usize_specs::wrapping_add_signed(data_pointer, amount)
}

impl Configuration {
    /// The machine before the first step of `program`: every cell zero, the
    /// pointer at cell zero, no byte offered.
    pub open spec fn initial(program: Seq<Instruction>) -> Configuration {
        Configuration {
            memory: Seq::new(TAPE_LENGTH as nat, |i: int| 0u8),
            data_pointer: 0,
            pending: None,
            stack: seq![Activation { body: program, index: 0 }],
        }
    }

    /// Whether the pointer is at a cell of the tape.
    pub open spec fn in_bounds(self) -> bool {
        self.data_pointer < self.memory.len()
    }

    /// The current cell.
    pub open spec fn cell(self) -> u8
        recommends
            self.in_bounds(),
    {
        self.memory[self.data_pointer as int]
    }

    /// The next instruction, if execution is not at the end of a body.
    pub open spec fn instruction(self) -> Option<Instruction> {
        if self.stack.len() > 0 && self.stack.last().index < self.stack.last().body.len() {
            Some(self.stack.last().body[self.stack.last().index as int])
        } else {
            None
        }
    }

    /// With the current cell set to `value`.
    pub open spec fn store(self, value: u8) -> Configuration {
        Configuration { memory: self.memory.update(self.data_pointer as int, value), ..self }
    }

    /// With `byte` offered to the program. A byte that was offered before and
    /// not read is replaced.
    pub open spec fn offer(self, byte: u8) -> Configuration {
        Configuration { pending: Some(byte), ..self }
    }

    /// With the position moved behind the next instruction.
    pub open spec fn skip(self) -> Configuration {
        let top = self.stack.last();
        Configuration {
            stack: self.stack.drop_last().push(Activation { index: top.index + 1, ..top }),
            ..self
        }
    }

    /// With the position moved to the start of `body`, the body of the loop
    /// that is the next instruction. Once `body` is left, execution goes on
    /// behind that loop.
    pub open spec fn enter(self, body: Seq<Instruction>) -> Configuration {
        let outside = self.skip();
        Configuration { stack: outside.stack.push(Activation { body, index: 0 }), ..outside }
    }

    /// With the position moved back to the start of the innermost body.
    pub open spec fn repeat(self) -> Configuration {
        let top = self.stack.last();
        Configuration {
            stack: self.stack.drop_last().push(Activation { index: 0, ..top }),
            ..self
        }
    }

    /// With the innermost body left.
    pub open spec fn leave(self) -> Configuration {
        Configuration { stack: self.stack.drop_last(), ..self }
    }
}

/// One step of the machine: the configuration after it, and what the step
/// asks of the caller. A step that asks for a read, halts or goes out of
/// bounds changes nothing.
///
/// Every access to the current cell, to change, write, read into or test it,
/// needs the pointer on the tape. A move of the pointer does not.
pub open spec fn step(c: Configuration) -> (Configuration, Action) {
    match c.instruction() {
        Some(Instruction::Add(amount)) => if c.in_bounds() {
            (c.store(add_to_cell(c.cell(), amount)).skip(), Action::Continue)
        } else {
            (c, Action::OutOfBounds)
        },
        Some(Instruction::Shift(amount)) => (
            Configuration { data_pointer: move_pointer(c.data_pointer, amount), ..c }.skip(),
            Action::Continue,
        ),
        Some(Instruction::Output) => if c.in_bounds() {
            (c.skip(), Action::Print(c.cell()))
        } else {
            (c, Action::OutOfBounds)
        },
        Some(Instruction::Input) => match c.pending {
            None => (c, Action::Read),
            Some(byte) => if c.in_bounds() {
                (Configuration { pending: None, ..c }.store(byte).skip(), Action::Continue)
            } else {
                (c, Action::OutOfBounds)
            },
        },
        Some(Instruction::Loop(body)) => if !c.in_bounds() {
            (c, Action::OutOfBounds)
        } else if c.cell() != 0 {
            (c.enter(body), Action::Continue)
        } else {
            (c.skip(), Action::Continue)
        },
        None => if c.stack.len() <= 1 {
            (c, Action::Halt)
        } else if !c.in_bounds() {
            (c, Action::OutOfBounds)
        } else if c.cell() != 0 {
            (c.repeat(), Action::Continue)
        } else {
            (c.leave(), Action::Continue)
        },
    }
}

/// The machine run for at most `fuel` steps, up to the first step that asks
/// something of the caller: the configuration it stops in, what it asks, and
/// the fuel that is left. A step that changes nothing takes no fuel. With
/// the fuel used up the machine asks nothing and can go on.
pub open spec fn advance(c: Configuration, fuel: nat) -> (Configuration, Action, nat)
    decreases fuel,
{
    if fuel == 0 {
        (c, Action::Continue, 0)
    } else {
        let (next, action) = step(c);
        match action {
            Action::Continue => advance(next, (fuel - 1) as nat),
            Action::Print(_) => (next, action, (fuel - 1) as nat),
            _ => (c, action, fuel),
        }
    }
}

/// What `advance` does with the fuel: it never gives any back, a step that
/// writes takes some, and the machine asks nothing only when none is left.
pub proof fn lemma_advance_fuel(c: Configuration, fuel: nat)
    ensures
        advance(c, fuel).2 <= fuel,
        advance(c, fuel).1 is Print ==> advance(c, fuel).2 < fuel,
        advance(c, fuel).1 is Continue ==> advance(c, fuel).2 == 0,
    decreases fuel,
{
    if fuel > 0 && step(c).1 is Continue {
        lemma_advance_fuel(step(c).0, (fuel - 1) as nat);
    }
}

/// A body under execution, and the index of its next instruction.
#[derive(Clone, Copy)]
struct Frame<'a> {
    body: &'a [VMInstruction],
    index: usize,
}

impl<'a> View for Frame<'a> {
    type V = Activation;

    closed spec fn view(&self) -> Activation {
        Activation { body: self.body.deep_view(), index: self.index as nat }
    }
}

/// A machine that executes one program.
pub struct Machine<'a> {
    memory: [u8; TAPE_LENGTH],
    data_pointer: usize,
    pending: Option<u8>,
    frames: Vec<Frame<'a>>,
}

impl<'a> View for Machine<'a> {
    type V = Configuration;

    closed spec fn view(&self) -> Configuration {
        Configuration {
            memory: self.memory@,
            data_pointer: self.data_pointer,
            pending: self.pending,
            stack: self.frames@.map_values(|frame: Frame<'a>| frame@),
        }
    }
}

impl<'a> Machine<'a> {
    /// A machine at the start of `program`, with an all-zero tape.
    pub fn new(program: &'a [VMInstruction]) -> (machine: Machine<'a>)
        ensures
            machine@ == Configuration::initial(program.deep_view()),
    {
        let mut frames: Vec<Frame<'a>> = Vec::new();
        frames.push(Frame { body: program, index: 0 });
        let machine = Machine { memory: [0u8; TAPE_LENGTH], data_pointer: 0, pending: None, frames };
        proof {
            assert(machine@.memory =~= Configuration::initial(program.deep_view()).memory);
            assert(machine@.stack =~= Configuration::initial(program.deep_view()).stack);
        }
        machine
    }

    /// The tape.
    pub fn memory(&self) -> (memory: &[u8; TAPE_LENGTH])
        ensures
            memory@ == self@.memory,
    {
        &self.memory
    }

    /// The index of the current cell.
    pub fn data_pointer(&self) -> (data_pointer: usize)
        ensures
            data_pointer == self@.data_pointer,
    {
        self.data_pointer
    }

    /// Offers `byte` to the program: the next instruction that reads gets it.
    /// A byte that was offered before and not read is replaced.
    pub fn offer(&mut self, byte: u8)
        ensures
            final(self)@ == old(self)@.offer(byte),
    {
        self.pending = Some(byte);
    }

    /// Moves the position behind the next instruction.
    fn skip(&mut self)
        requires
            old(self)@.instruction() is Some,
        ensures
            final(self)@ == old(self)@.skip(),
    {
        let innermost = self.frames.len() - 1;
        let frame = self.frames[innermost];
        proof {
            assert(self@.stack.last() == frame@);
            assert(frame.index < frame.body@.len() == frame.body.len());
        }
        self.frames[innermost] = Frame { body: frame.body, index: frame.index + 1 };
        proof {
            assert(self@.stack =~= old(self)@.skip().stack);
        }
    }

    /// Takes one step.
    pub fn step(&mut self) -> (action: Action)
        ensures
            (final(self)@, action) == step(old(self)@),
    {
        let depth = self.frames.len();
        if depth == 0 {
            return Action::Halt;
        }
        let frame = self.frames[depth - 1];
        let body: &'a [VMInstruction] = frame.body;
        if frame.index < body.len() {
            let ghost instruction = body@[frame.index as int];
            assert(self@.instruction() == Some(instruction.deep_view()));
            match &body[frame.index] {
                VMInstruction::Increment(amount) => {
                    if self.data_pointer < TAPE_LENGTH {
                        let cell = self.memory[self.data_pointer];
                        self.memory[self.data_pointer] = cell.wrapping_add_signed(*amount);
                        self.skip();
                        Action::Continue
                    } else {
                        Action::OutOfBounds
                    }
                },
                VMInstruction::Move(amount) => {
                    self.data_pointer = self.data_pointer.wrapping_add_signed(*amount);
                    self.skip();
                    Action::Continue
                },
                VMInstruction::Print => {
                    if self.data_pointer < TAPE_LENGTH {
                        let cell = self.memory[self.data_pointer];
                        self.skip();
                        Action::Print(cell)
                    } else {
                        Action::OutOfBounds
                    }
                },
                VMInstruction::Read => {
                    match self.pending {
                        None => Action::Read,
                        Some(byte) => {
                            if self.data_pointer < TAPE_LENGTH {
                                self.pending = None;
                                self.memory[self.data_pointer] = byte;
                                self.skip();
                                Action::Continue
                            } else {
                                Action::OutOfBounds
                            }
                        },
                    }
                },
                VMInstruction::Loop(vm_instructions) => {
                    if self.data_pointer >= TAPE_LENGTH {
                        Action::OutOfBounds
                    } else if self.memory[self.data_pointer] != 0 {
                        let inner = vm_instructions.as_slice();
                        proof {
                            lemma_loop_deep_view(*vm_instructions);
                            assert(inner.deep_view() =~= vm_instructions.deep_view());
                        }
                        self.skip();
                        self.frames.push(Frame { body: inner, index: 0 });
                        proof {
                            assert(self@.stack =~= old(self)@.enter(
                                vm_instructions.deep_view(),
                            ).stack);
                        }
                        Action::Continue
                    } else {
                        self.skip();
                        Action::Continue
                    }
                },
            }
        } else if depth == 1 {
            Action::Halt
        } else if self.data_pointer >= TAPE_LENGTH {
            Action::OutOfBounds
        } else if self.memory[self.data_pointer] != 0 {
            self.frames[depth - 1] = Frame { body, index: 0 };
            proof {
                assert(self@.stack =~= old(self)@.repeat().stack);
            }
            Action::Continue
        } else {
            self.frames.pop();
            proof {
                assert(self@.stack =~= old(self)@.leave().stack);
            }
            Action::Continue
        }
    }
}

/// Runs the machine for at most `*fuel` steps, up to the first step that asks
/// something of the caller, and takes the steps made from `*fuel`.
///
/// On `Action::Print` the caller writes the byte; on `Action::Read` it reads
/// one and offers it; on `Action::Continue` the fuel is used up. After each
/// of these the machine may be resumed by another call.
pub fn exec_vm_instructions(machine: &mut Machine<'_>, fuel: &mut u64) -> (action: Action)
    ensures
        (final(machine)@, action, *final(fuel) as nat) == advance(old(machine)@, *old(fuel) as nat),
{
    while *fuel > 0
        invariant
            advance(machine@, *fuel as nat) == advance(old(machine)@, *old(fuel) as nat),
        decreases *fuel,
    {
        match machine.step() {
            Action::Continue => {
                *fuel -= 1;
            },
            Action::Print(byte) => {
                *fuel -= 1;
                return Action::Print(byte);
            },
            action => {
                return action;
            },
        }
    }
    Action::Continue
}

} // verus!
