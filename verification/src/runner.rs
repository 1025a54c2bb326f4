//! Running a program against an input that is held in memory.
use crate::machine::{
    advance, exec_vm_instructions, lemma_advance_fuel, step, Action, Configuration, Machine,
    TAPE_LENGTH,
};
use crate::program::VMInstruction;
use vstd::prelude::*;

verus! {

/// How a run ended.
#[derive(Debug, PartialEq, Eq, Clone, Copy)]
pub enum Exit {
    /// The program ran to its end.
    Completed,
    /// The program wanted to read a byte and the input had none left.
    InputExhausted,
    /// The program touched the cell under a pointer that is outside the tape.
    OutOfBounds,
    /// The fuel was used up before the program ended.
    OutOfFuel,
}

/// What a run leaves behind.
pub struct Execution {
    /// The tape as the run left it.
    pub memory: [u8; TAPE_LENGTH],
    /// The bytes that the program wrote, in order.
    pub output: Vec<u8>,
    /// How the run ended.
    pub exit: Exit,
}

/// The run of a machine from configuration `c` for at most `fuel` steps: the
/// tape it leaves, `output` followed by the bytes it writes, and how it ends.
/// Each instruction that reads takes the next byte of `input`.
pub open spec fn run_from(c: Configuration, input: Seq<u8>, output: Seq<u8>, fuel: nat) -> (
    Seq<u8>,
    Seq<u8>,
    Exit,
)
    decreases fuel, input.len(),
{
    if fuel == 0 {
        (c.memory, output, Exit::OutOfFuel)
    } else {
        let (next, action) = step(c);
        match action {
            Action::Continue => run_from(next, input, output, (fuel - 1) as nat),
            Action::Print(byte) => run_from(next, input, output.push(byte), (fuel - 1) as nat),
            Action::Read => if input.len() == 0 {
                (c.memory, output, Exit::InputExhausted)
            } else {
                run_from(c.offer(input.first()), input.drop_first(), output, fuel)
            },
            Action::Halt => (c.memory, output, Exit::Completed),
            Action::OutOfBounds => (c.memory, output, Exit::OutOfBounds),
        }
    }
}

/// A run goes as far as `advance` goes, and on from there by what the machine
/// asks.
pub proof fn lemma_run_from_advance(c: Configuration, input: Seq<u8>, output: Seq<u8>, fuel: nat)
    ensures
        run_from(c, input, output, fuel) == ({
            let (stopped, action, left) = advance(c, fuel);
            match action {
                Action::Continue => (stopped.memory, output, Exit::OutOfFuel),
                Action::Print(byte) => run_from(stopped, input, output.push(byte), left),
                Action::Read => if input.len() == 0 {
                    (stopped.memory, output, Exit::InputExhausted)
                } else {
                    run_from(stopped.offer(input.first()), input.drop_first(), output, left)
                },
                Action::Halt => (stopped.memory, output, Exit::Completed),
                Action::OutOfBounds => (stopped.memory, output, Exit::OutOfBounds),
            }
        }),
    decreases fuel,
{
    if fuel > 0 && step(c).1 is Continue {
        lemma_run_from_advance(step(c).0, input, output, (fuel - 1) as nat);
    }
}

/// Runs a program from an all-zero tape for at most `fuel` steps. Each
/// instruction that reads takes the next byte of `input`; the bytes that the
/// program writes are collected.
pub fn run(vm_instructions: &[VMInstruction], input: &[u8], fuel: u64) -> (execution: Execution)
    ensures
        (execution.memory@, execution.output@, execution.exit) == run_from(
            Configuration::initial(vm_instructions.deep_view()),
            input@,
            Seq::empty(),
            fuel as nat,
        ),
{
    let mut machine = Machine::new(vm_instructions);
    let mut output: Vec<u8> = Vec::new();
    let mut left = fuel;
    let mut taken: usize = 0;
    let ghost whole = run_from(
        Configuration::initial(vm_instructions.deep_view()),
        input@,
        Seq::empty(),
        fuel as nat,
    );
    proof {
        assert(input@.skip(0) =~= input@);
        assert(output@ =~= Seq::empty());
    }

    loop
        invariant
            taken <= input@.len(),
            run_from(machine@, input@.skip(taken as int), output@, left as nat) == whole,
            whole == run_from(
                Configuration::initial(vm_instructions.deep_view()),
                input@,
                Seq::empty(),
                fuel as nat,
            ),
        decreases left, input@.len() - taken,
    {
        proof {
            lemma_run_from_advance(machine@, input@.skip(taken as int), output@, left as nat);
            lemma_advance_fuel(machine@, left as nat);
        }
        let exit = match exec_vm_instructions(&mut machine, &mut left) {
            Action::Continue => Exit::OutOfFuel,
            Action::Print(byte) => {
                output.push(byte);
                continue ;
            },
            Action::Read => {
                if taken < input.len() {
                    machine.offer(input[taken]);
                    proof {
                        assert(input@.skip(taken as int).drop_first() =~= input@.skip(taken + 1));
                    }
                    taken += 1;
                    continue ;
                }
                Exit::InputExhausted
            },
            Action::Halt => Exit::Completed,
            Action::OutOfBounds => Exit::OutOfBounds,
        };
        return Execution { memory: *machine.memory(), output, exit };
    }
}

} // verus!
