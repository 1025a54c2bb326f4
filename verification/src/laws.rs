//! What holds of the parser and the machine together.
use crate::machine::{add_to_cell, move_pointer, step, Action, Activation, Configuration};
use crate::parser::{
    folded, increment_direction, join, lemma_scope_len_bound, move_direction, parse_scope,
    scope_len,
};
use crate::program::Instruction;
use crate::runner::{run_from, Exit};
use crate::tokens::BFInstruction;
use vstd::prelude::*;
use vstd::wrapping::i8_specs;
use vstd::wrapping::isize_specs;

verus! {

/// Whether a token changes the current cell.
pub open spec fn is_increment(token: BFInstruction) -> bool {
    token is Increment || token is Decrement
}

/// Whether a token moves the pointer.
pub open spec fn is_move(token: BFInstruction) -> bool {
    token is MoveRight || token is MoveLeft
}

/// What a run of tokens adds to the current cell, all in all.
pub open spec fn net_increment(tokens: Seq<BFInstruction>) -> int
    decreases tokens.len(),
{
    if tokens.len() == 0 {
        0
    } else {
        increment_direction(tokens.first()) + net_increment(tokens.drop_first())
    }
}

/// What a run of tokens adds to the pointer, all in all.
pub open spec fn net_move(tokens: Seq<BFInstruction>) -> int
    decreases tokens.len(),
{
    if tokens.len() == 0 {
        0
    } else {
        move_direction(tokens.first()) + net_move(tokens.drop_first())
    }
}

/// The signed byte that an integer is congruent to modulo 256.
pub open spec fn as_signed_byte(value: int) -> i8 {
    ((value + 128) % 256 - 128) as i8
}

/// A scope begins with a cell change exactly where its tokens begin with `+`
/// or `-`, and with a pointer move exactly where they begin with `>` or `<`.
pub proof fn lemma_parse_scope_first(tokens: Seq<BFInstruction>)
    ensures
        (parse_scope(tokens).len() > 0 && parse_scope(tokens).first() is Add) <==> (tokens.len() > 0
            && is_increment(tokens.first())),
        (parse_scope(tokens).len() > 0 && parse_scope(tokens).first() is Shift) <==> (tokens.len()
            > 0 && is_move(tokens.first())),
{
}

/// The net effect of a run of `+` and `-` is within its length.
proof fn lemma_net_increment_bound(run: Seq<BFInstruction>)
    ensures
        -run.len() <= net_increment(run) <= run.len(),
    decreases run.len(),
{
    if run.len() > 0 {
        lemma_net_increment_bound(run.drop_first());
    }
}

/// The net effect of a run of `>` and `<` is within its length.
proof fn lemma_net_move_bound(run: Seq<BFInstruction>)
    ensures
        -run.len() <= net_move(run) <= run.len(),
    decreases run.len(),
{
    if run.len() > 0 {
        lemma_net_move_bound(run.drop_first());
    }
}

/// A run of `+` and `-`, however long, folds into exactly one instruction,
/// which adds the net effect of the run modulo 256. What follows the run is
/// parsed as if the run were not there.
pub proof fn run_of_increments_folds_into_one(run: Seq<BFInstruction>, rest: Seq<BFInstruction>)
    requires
        run.len() > 0,
        forall|i: int| 0 <= i < run.len() ==> is_increment(#[trigger] run[i]),
        rest.len() > 0 ==> !is_increment(rest.first()),
    ensures
        parse_scope(run + rest) == seq![Instruction::Add(as_signed_byte(net_increment(run)))]
            + parse_scope(rest),
    decreases run.len(),
{
    let tokens = run + rest;
    let shorter = run.drop_first();
    assert(tokens.drop_first() =~= shorter + rest);
    assert(tokens.first() == run[0]);
    assert(net_increment(run) == increment_direction(run[0]) + net_increment(shorter));
    assert(parse_scope(tokens) == join(
        seq![Instruction::Add(increment_direction(run[0]))],
        parse_scope(shorter + rest),
    ));
    assert(seq![Instruction::Add(increment_direction(run[0]))].drop_last() =~= Seq::<
        Instruction,
    >::empty());
    if shorter.len() == 0 {
        assert(shorter + rest =~= rest);
        lemma_parse_scope_first(rest);
        assert(parse_scope(tokens) =~= seq![Instruction::Add(increment_direction(run[0]))]
            + parse_scope(rest));
    } else {
        assert forall|i: int| 0 <= i < shorter.len() implies is_increment(
            #[trigger] shorter[i],
        ) by {
            assert(shorter[i] == run[i + 1]);
        }
        run_of_increments_folds_into_one(shorter, rest);
        assert(i8_specs::wrapping_add(
            increment_direction(run[0]),
            as_signed_byte(net_increment(shorter)),
        ) == as_signed_byte(net_increment(run)));
        assert(parse_scope(tokens) =~= seq![Instruction::Add(as_signed_byte(net_increment(run)))]
            + parse_scope(rest));
    }
}

/// A run of `>` and `<` that is shorter than the largest offset folds into
/// exactly one instruction, which moves the pointer by the net effect of the
/// run. What follows the run is parsed as if the run were not there.
pub proof fn run_of_moves_folds_into_one(run: Seq<BFInstruction>, rest: Seq<BFInstruction>)
    requires
        0 < run.len() <= isize::MAX,
        forall|i: int| 0 <= i < run.len() ==> is_move(#[trigger] run[i]),
        rest.len() > 0 ==> !is_move(rest.first()),
    ensures
        parse_scope(run + rest) == seq![Instruction::Shift(net_move(run) as isize)] + parse_scope(
            rest,
        ),
    decreases run.len(),
{
    let tokens = run + rest;
    let shorter = run.drop_first();
    assert(tokens.drop_first() =~= shorter + rest);
    assert(tokens.first() == run[0]);
    lemma_net_move_bound(run);
    assert(net_move(run) == move_direction(run[0]) + net_move(shorter));
    assert(parse_scope(tokens) == join(
        seq![Instruction::Shift(move_direction(run[0]))],
        parse_scope(shorter + rest),
    ));
    assert(seq![Instruction::Shift(move_direction(run[0]))].drop_last() =~= Seq::<
        Instruction,
    >::empty());
    if shorter.len() == 0 {
        assert(shorter + rest =~= rest);
        lemma_parse_scope_first(rest);
        assert(parse_scope(tokens) =~= seq![Instruction::Shift(move_direction(run[0]))]
            + parse_scope(rest));
    } else {
        assert forall|i: int| 0 <= i < shorter.len() implies is_move(#[trigger] shorter[i]) by {
            assert(shorter[i] == run[i + 1]);
        }
        lemma_net_move_bound(shorter);
        run_of_moves_folds_into_one(shorter, rest);
        assert(isize_specs::wrapping_add(move_direction(run[0]), net_move(shorter) as isize)
            == net_move(run) as isize);
        assert(parse_scope(tokens) =~= seq![Instruction::Shift(net_move(run) as isize)]
            + parse_scope(rest));
    }
}

/// Whether nothing is left to fold: no two neighbours fold into one, here
/// and in the body of every loop.
pub open spec fn fully_folded(instructions: Seq<Instruction>) -> bool
    decreases instructions,
{
    &&& forall|i: int|
        0 <= i < instructions.len() - 1 ==> folded(#[trigger] instructions[i], instructions[i + 1])
            is None
    &&& forall|i: int|
        0 <= i < instructions.len() ==> (#[trigger] instructions[i] matches Instruction::Loop(body)
            ==> fully_folded(body))
}

/// An instruction in front of folded instructions, joined to them, leaves
/// nothing to fold.
proof fn lemma_join_fully_folded(first: Instruction, rest: Seq<Instruction>)
    requires
        fully_folded(rest),
        first matches Instruction::Loop(body) ==> fully_folded(body),
    ensures
        fully_folded(join(seq![first], rest)),
{
    let joined = join(seq![first], rest);
    assert(seq![first].drop_last() =~= Seq::<Instruction>::empty());
    if rest.len() > 0 && folded(first, rest.first()) is Some {
        let one = folded(first, rest.first()).unwrap();
        assert(joined =~= seq![one] + rest.drop_first());
        assert forall|i: int| 0 <= i < joined.len() - 1 implies folded(
            #[trigger] joined[i],
            joined[i + 1],
        ) is None by {
            assert(joined[i + 1] == rest[i + 1]);
            if i == 0 {
                assert(folded(rest[0], rest[1]) is None);
            } else {
                assert(joined[i] == rest[i]);
            }
        }
        assert forall|i: int| 0 <= i < joined.len() implies (#[trigger] joined[i] matches Instruction::Loop(
            body,
        ) ==> fully_folded(body)) by {
            if i > 0 {
                assert(joined[i] == rest[i]);
            }
        }
    } else {
        assert(joined =~= seq![first] + rest);
        assert forall|i: int| 0 <= i < joined.len() - 1 implies folded(
            #[trigger] joined[i],
            joined[i + 1],
        ) is None by {
            assert(joined[i + 1] == rest[i]);
            if i > 0 {
                assert(joined[i] == rest[i - 1]);
            }
        }
        assert forall|i: int| 0 <= i < joined.len() implies (#[trigger] joined[i] matches Instruction::Loop(
            body,
        ) ==> fully_folded(body)) by {
            if i > 0 {
                assert(joined[i] == rest[i - 1]);
            }
        }
    }
}

/// The parser leaves nothing to fold: in what it gives, and in every loop
/// body of it, no cell change stands next to a cell change and no pointer
/// move next to a pointer move.
pub proof fn parsing_folds_every_run(tokens: Seq<BFInstruction>)
    ensures
        fully_folded(parse_scope(tokens)),
    decreases tokens.len(),
{
    if tokens.len() > 0 {
        let rest = tokens.drop_first();
        parsing_folds_every_run(rest);
        let first = match tokens.first() {
            BFInstruction::Increment => Instruction::Add(1i8),
            BFInstruction::Decrement => Instruction::Add(-1i8),
            BFInstruction::MoveRight => Instruction::Shift(1isize),
            BFInstruction::MoveLeft => Instruction::Shift(-1isize),
            BFInstruction::PutChar => Instruction::Output,
            BFInstruction::ReadChar => Instruction::Input,
            BFInstruction::JumpIfZero => Instruction::Loop(parse_scope(rest)),
            BFInstruction::JumpIfNotZero => Instruction::Output,
        };
        if tokens.first() is JumpIfZero {
            lemma_scope_len_bound(rest, 0);
            let after = rest.skip(scope_len(rest, 0) as int);
            parsing_folds_every_run(after);
            lemma_join_fully_folded(first, parse_scope(after));
            assert(parse_scope(tokens) =~= join(seq![first], parse_scope(after)));
        } else if !(tokens.first() is JumpIfNotZero) {
            lemma_join_fully_folded(first, parse_scope(rest));
            assert(parse_scope(tokens) =~= join(seq![first], parse_scope(rest)));
        }
    }
}

/// An instruction that adds to the current cell leaves `(cell + amount) mod
/// 256` in it, and every other cell and the pointer as they are.
pub proof fn add_is_modulo_256(c: Configuration, amount: i8)
    requires
        c.instruction() == Some(Instruction::Add(amount)),
        c.in_bounds(),
    ensures
        step(c).1 == Action::Continue,
        step(c).0.memory == c.memory.update(
            c.data_pointer as int,
            ((c.cell() + amount) % 256) as u8,
        ),
        step(c).0.data_pointer == c.data_pointer,
{
}

/// A loop that is reached with a zero in the current cell is not entered:
/// the next step goes on behind it, whatever its body, and leaves tape and
/// pointer as they are.
pub proof fn loop_on_zero_is_skipped(c: Configuration, body: Seq<Instruction>)
    requires
        c.instruction() == Some(Instruction::Loop(body)),
        c.in_bounds(),
        c.cell() == 0,
    ensures
        step(c) == (c.skip(), Action::Continue),
        c.skip().memory == c.memory,
        c.skip().data_pointer == c.data_pointer,
        c.skip().stack.len() == c.stack.len(),
{
}

/// No step changes the length of the tape, and a step that finds the pointer
/// outside the tape changes no cell.
pub proof fn step_keeps_the_tape(c: Configuration)
    ensures
        step(c).0.memory.len() == c.memory.len(),
        !c.in_bounds() ==> step(c).0.memory == c.memory,
{
}

/// No run changes the length of the tape, and every run keeps what was
/// written before it.
pub proof fn run_keeps_the_tape_length(
    c: Configuration,
    input: Seq<u8>,
    output: Seq<u8>,
    fuel: nat,
)
    ensures
        run_from(c, input, output, fuel).0.len() == c.memory.len(),
        output.is_prefix_of(run_from(c, input, output, fuel).1),
    decreases fuel, input.len(),
{
    if fuel > 0 {
        let (next, action) = step(c);
        match action {
            Action::Continue => {
                run_keeps_the_tape_length(next, input, output, (fuel - 1) as nat);
            },
            Action::Print(byte) => {
                run_keeps_the_tape_length(next, input, output.push(byte), (fuel - 1) as nat);
            },
            Action::Read => {
                if input.len() > 0 {
                    run_keeps_the_tape_length(
                        c.offer(input.first()),
                        input.drop_first(),
                        output,
                        fuel,
                    );
                }
            },
            _ => {},
        }
    }
}

/// Whether an instruction is arithmetic: it changes a cell or the pointer,
/// and neither reads, writes nor loops.
pub open spec fn is_arithmetic(instruction: Instruction) -> bool {
    instruction is Add || instruction is Shift
}

/// Tape and pointer after the tokens of a program without input, output and
/// loops are carried out one by one, each `+` and `-` on the current cell
/// and each `>` and `<` on the pointer, and whether that went through: it
/// stops at the first `+` or `-` that finds the pointer outside the tape.
pub open spec fn simulate(tokens: Seq<BFInstruction>, memory: Seq<u8>, data_pointer: usize) -> (
    Seq<u8>,
    usize,
    bool,
)
    decreases tokens.len(),
{
    if tokens.len() == 0 {
        (memory, data_pointer, true)
    } else if is_increment(tokens.first()) {
        if data_pointer < memory.len() {
            simulate(
                tokens.drop_first(),
                memory.update(
                    data_pointer as int,
                    add_to_cell(memory[data_pointer as int], increment_direction(tokens.first())),
                ),
                data_pointer,
            )
        } else {
            (memory, data_pointer, false)
        }
    } else if is_move(tokens.first()) {
        simulate(
            tokens.drop_first(),
            memory,
            move_pointer(data_pointer, move_direction(tokens.first())),
        )
    } else {
        (memory, data_pointer, true)
    }
}

/// Tape and pointer after arithmetic instructions are carried out one by
/// one, and whether that went through: it stops at the first cell change
/// that finds the pointer outside the tape.
pub open spec fn effect(instructions: Seq<Instruction>, memory: Seq<u8>, data_pointer: usize) -> (
    Seq<u8>,
    usize,
    bool,
)
    decreases instructions.len(),
{
    if instructions.len() == 0 {
        (memory, data_pointer, true)
    } else {
        match instructions.first() {
            Instruction::Add(amount) => if data_pointer < memory.len() {
                effect(
                    instructions.drop_first(),
                    memory.update(
                        data_pointer as int,
                        add_to_cell(memory[data_pointer as int], amount),
                    ),
                    data_pointer,
                )
            } else {
                (memory, data_pointer, false)
            },
            Instruction::Shift(amount) => effect(
                instructions.drop_first(),
                memory,
                move_pointer(data_pointer, amount),
            ),
            _ => (memory, data_pointer, true),
        }
    }
}

/// Two additions to a cell are one addition of the two amounts, added with
/// wraparound.
proof fn lemma_add_twice(cell: u8, a: i8, b: i8)
    ensures
        add_to_cell(add_to_cell(cell, a), b) == add_to_cell(cell, i8_specs::wrapping_add(a, b)),
{
    let once = add_to_cell(cell, a);
    let both = i8_specs::wrapping_add(a, b);
    assert(once == reduced(cell + a));
    assert(add_to_cell(once, b) == reduced(once + b));
    assert(add_to_cell(cell, both) == reduced(cell + both));
}

/// An integer between -256 and 511, taken modulo 256.
spec fn reduced(value: int) -> int {
    if value < 0 {
        value + 256
    } else if value >= 256 {
        value - 256
    } else {
        value
    }
}

/// Two moves of the pointer are one move by the two amounts, added with
/// wraparound.
proof fn lemma_move_twice(data_pointer: usize, a: isize, b: isize)
    ensures
        move_pointer(move_pointer(data_pointer, a), b) == move_pointer(
            data_pointer,
            isize_specs::wrapping_add(a, b),
        ),
{
}

/// An arithmetic instruction that is folded into what follows it has the
/// effect that it has unfolded.
proof fn lemma_effect_join(
    first: Instruction,
    rest: Seq<Instruction>,
    memory: Seq<u8>,
    data_pointer: usize,
)
    requires
        is_arithmetic(first),
    ensures
        effect(join(seq![first], rest), memory, data_pointer) == effect(
            seq![first] + rest,
            memory,
            data_pointer,
        ),
{
    let plain = seq![first] + rest;
    assert(plain.drop_first() =~= rest);
    assert(plain.first() == first);
    assert(seq![first].drop_last() =~= Seq::<Instruction>::empty());
    if rest.len() > 0 && folded(first, rest.first()) is Some {
        let joined = seq![folded(first, rest.first()).unwrap()] + rest.drop_first();
        assert(join(seq![first], rest) =~= joined);
        assert(joined.drop_first() =~= rest.drop_first());
        match (first, rest.first()) {
            (Instruction::Add(a), Instruction::Add(b)) => {
                if data_pointer < memory.len() {
                    let at = data_pointer as int;
                    let once = memory.update(at, add_to_cell(memory[at], a));
                    lemma_add_twice(memory[at], a, b);
                    assert(once.update(at, add_to_cell(once[at], b)) =~= memory.update(
                        at,
                        add_to_cell(memory[at], i8_specs::wrapping_add(a, b)),
                    ));
                    assert(effect(plain, memory, data_pointer) == effect(rest, once, data_pointer));
                }
            },
            (Instruction::Shift(a), Instruction::Shift(b)) => {
                lemma_move_twice(data_pointer, a, b);
                assert(effect(plain, memory, data_pointer) == effect(
                    rest,
                    memory,
                    move_pointer(data_pointer, a),
                ));
            },
            _ => {},
        }
    } else {
        assert(join(seq![first], rest) =~= plain);
    }
}

/// Parsing a program without input, output and loops gives arithmetic
/// instructions, no more than it has tokens, and their effect is that of the
/// tokens carried out one by one.
pub proof fn folding_keeps_the_effect(
    tokens: Seq<BFInstruction>,
    memory: Seq<u8>,
    data_pointer: usize,
)
    requires
        forall|i: int|
            0 <= i < tokens.len() ==> is_increment(#[trigger] tokens[i]) || is_move(tokens[i]),
    ensures
        parse_scope(tokens).len() <= tokens.len(),
        forall|i: int|
            0 <= i < parse_scope(tokens).len() ==> is_arithmetic(#[trigger] parse_scope(tokens)[i]),
        effect(parse_scope(tokens), memory, data_pointer) == simulate(tokens, memory, data_pointer),
    decreases tokens.len(),
{
    if tokens.len() > 0 {
        let rest = tokens.drop_first();
        let parsed = parse_scope(rest);
        let first = if is_increment(tokens.first()) {
            Instruction::Add(increment_direction(tokens.first()))
        } else {
            Instruction::Shift(move_direction(tokens.first()))
        };
        assert(is_increment(tokens[0]) || is_move(tokens[0]));
        assert forall|i: int| 0 <= i < rest.len() implies is_increment(#[trigger] rest[i])
            || is_move(rest[i]) by {
            assert(rest[i] == tokens[i + 1]);
        }
        assert(parse_scope(tokens) == join(seq![first], parsed));
        assert(seq![first].drop_last() =~= Seq::<Instruction>::empty());
        let plain = seq![first] + parsed;
        assert(plain.drop_first() =~= parsed);
        lemma_effect_join(first, parsed, memory, data_pointer);
        if is_increment(tokens.first()) {
            if data_pointer < memory.len() {
                let cell = memory[data_pointer as int];
                folding_keeps_the_effect(
                    rest,
                    memory.update(
                        data_pointer as int,
                        add_to_cell(cell, increment_direction(tokens.first())),
                    ),
                    data_pointer,
                );
            } else {
                folding_keeps_the_effect(rest, memory, data_pointer);
            }
        } else {
            folding_keeps_the_effect(
                rest,
                memory,
                move_pointer(data_pointer, move_direction(tokens.first())),
            );
        }
    }
}

/// The run of a machine that is left with arithmetic instructions of the
/// program itself, and with more fuel than instructions.
proof fn lemma_run_arithmetic(c: Configuration, input: Seq<u8>, output: Seq<u8>, fuel: nat)
    requires
        c.stack.len() == 1,
        c.stack[0].index <= c.stack[0].body.len(),
        forall|i: int|
            c.stack[0].index <= i < c.stack[0].body.len() ==> is_arithmetic(
                #[trigger] c.stack[0].body[i],
            ),
        fuel > c.stack[0].body.len() - c.stack[0].index,
    ensures
        run_from(c, input, output, fuel) == ({
            let left = c.stack[0].body.skip(c.stack[0].index as int);
            let (memory, data_pointer, through) = effect(left, c.memory, c.data_pointer);
            (
                memory,
                output,
                if through {
                    Exit::Completed
                } else {
                    Exit::OutOfBounds
                },
            )
        }),
    decreases c.stack[0].body.len() - c.stack[0].index,
{
    let top = c.stack[0];
    let left = top.body.skip(top.index as int);
    if top.index < top.body.len() {
        assert(left.first() == top.body[top.index as int]);
        assert(left.drop_first() =~= top.body.skip(top.index as int + 1));
        let (next, action) = step(c);
        if action is Continue {
            assert(next.stack =~= seq![Activation { body: top.body, index: top.index + 1 }]);
            lemma_run_arithmetic(next, input, output, (fuel - 1) as nat);
        }
    }
}

/// A program without input, output and loops that is parsed and run from an
/// all-zero tape, with more fuel than it has tokens, leaves the tape that
/// its tokens leave when they are carried out one by one. It writes nothing
/// and reads nothing. It ends out of bounds where a `+` or `-` finds the
/// pointer outside the tape, and runs to its end otherwise.
pub proof fn arithmetic_program_round_trip(tokens: Seq<BFInstruction>, input: Seq<u8>, fuel: nat)
    requires
        forall|i: int|
            0 <= i < tokens.len() ==> is_increment(#[trigger] tokens[i]) || is_move(tokens[i]),
        fuel > tokens.len(),
    ensures
        run_from(Configuration::initial(parse_scope(tokens)), input, Seq::empty(), fuel) == ({
            let blank = Configuration::initial(parse_scope(tokens));
            let (memory, data_pointer, through) = simulate(tokens, blank.memory, 0);
            (
                memory,
                Seq::<u8>::empty(),
                if through {
                    Exit::Completed
                } else {
                    Exit::OutOfBounds
                },
            )
        }),
{
    let blank = Configuration::initial(parse_scope(tokens));
    folding_keeps_the_effect(tokens, blank.memory, 0);
    assert(parse_scope(tokens).skip(0) =~= parse_scope(tokens));
    lemma_run_arithmetic(blank, input, Seq::empty(), fuel);
}

} // verus!
