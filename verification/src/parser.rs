//! The parser: from tokens to the instruction tree.
use crate::program::{lemma_loop_deep_view, Instruction, VMInstruction};
use crate::tokens::BFInstruction;
use vstd::prelude::*;
use vstd::wrapping::i8_specs;
use vstd::wrapping::isize_specs;

verus! {

/// What a token adds to the current cell: `+1`, `-1`, or nothing.
pub open spec fn increment_direction(token: BFInstruction) -> i8 {
    match token {
        BFInstruction::Increment => 1i8,
        BFInstruction::Decrement => -1i8,
        _ => 0i8,
    }
}

/// What a token adds to the pointer: `+1`, `-1`, or nothing.
pub open spec fn move_direction(token: BFInstruction) -> isize {
    match token {
        BFInstruction::MoveRight => 1isize,
        BFInstruction::MoveLeft => -1isize,
        _ => 0isize,
    }
}

/// The one instruction that two adjacent instructions fold into, if they fold:
/// two cell changes, or two pointer moves. The amounts are added with
/// wraparound in their own width.
pub open spec fn folded(first: Instruction, second: Instruction) -> Option<Instruction> {
    match (first, second) {
        (Instruction::Add(a), Instruction::Add(b)) => Some(
            Instruction::Add(i8_specs::wrapping_add(a, b)),
        ),
        (Instruction::Shift(a), Instruction::Shift(b)) => Some(
            Instruction::Shift(isize_specs::wrapping_add(a, b)),
        ),
        _ => None,
    }
}

/// `front` followed by `back`, with the last instruction of `front` and the
/// first of `back` folded into one where they fold.
pub open spec fn join(front: Seq<Instruction>, back: Seq<Instruction>) -> Seq<Instruction> {
    if front.len() > 0 && back.len() > 0 && folded(front.last(), back.first()) is Some {
        front.drop_last().push(folded(front.last(), back.first()).unwrap()) + back.drop_first()
    } else {
        front + back
    }
}

/// How many tokens the scope at the start of `tokens` takes up when `depth`
/// loops are open inside it: everything up to and including the `]` that
/// closes the scope itself, or all of `tokens` where no such `]` comes.
pub open spec fn scope_len(tokens: Seq<BFInstruction>, depth: nat) -> nat
    decreases tokens.len(),
{
    if tokens.len() == 0 {
        0
    } else {
        match tokens.first() {
            BFInstruction::JumpIfZero => 1 + scope_len(tokens.drop_first(), depth + 1),
            BFInstruction::JumpIfNotZero => if depth == 0 {
                1
            } else {
                1 + scope_len(tokens.drop_first(), (depth - 1) as nat)
            },
            _ => 1 + scope_len(tokens.drop_first(), depth),
        }
    }
}

/// A scope never takes up more tokens than there are.
pub proof fn lemma_scope_len_bound(tokens: Seq<BFInstruction>, depth: nat)
    ensures
        scope_len(tokens, depth) <= tokens.len(),
    decreases tokens.len(),
{
    if tokens.len() > 0 {
        lemma_scope_len_bound(tokens.drop_first(), depth + 1);
        lemma_scope_len_bound(tokens.drop_first(), depth);
        if depth > 0 {
            lemma_scope_len_bound(tokens.drop_first(), (depth - 1) as nat);
        }
    }
}

/// The instructions of the scope at the start of `tokens`.
///
/// A `+` or `-` is a cell change of one, a `>` or `<` a pointer move of one,
/// and each folds into the instruction after it where that is of its own
/// kind, so that a run of them is one instruction. A `.` or `,` is an
/// instruction of its own. A `[` opens a loop whose body is the scope that
/// starts behind it, and the scope goes on behind the end of that body. A `]`
/// or the end of the tokens ends the scope.
pub open spec fn parse_scope(tokens: Seq<BFInstruction>) -> Seq<Instruction>
    decreases tokens.len(),
    via parse_scope_decreases
{
    if tokens.len() == 0 {
        Seq::empty()
    } else {
        let rest = tokens.drop_first();
        match tokens.first() {
            BFInstruction::Increment => join(seq![Instruction::Add(1i8)], parse_scope(rest)),
            BFInstruction::Decrement => join(seq![Instruction::Add(-1i8)], parse_scope(rest)),
            BFInstruction::MoveRight => join(seq![Instruction::Shift(1isize)], parse_scope(rest)),
            BFInstruction::MoveLeft => join(seq![Instruction::Shift(-1isize)], parse_scope(rest)),
            BFInstruction::PutChar => seq![Instruction::Output] + parse_scope(rest),
            BFInstruction::ReadChar => seq![Instruction::Input] + parse_scope(rest),
            BFInstruction::JumpIfZero => seq![Instruction::Loop(parse_scope(rest))] + parse_scope(
                rest.skip(scope_len(rest, 0) as int),
            ),
            BFInstruction::JumpIfNotZero => Seq::empty(),
        }
    }
}

#[via_fn]
proof fn parse_scope_decreases(tokens: Seq<BFInstruction>) {
    if tokens.len() > 0 {
        lemma_scope_len_bound(tokens.drop_first(), 0);
    }
}

/// Opening one more loop inside a scope lengthens it by the scope that
/// follows where it ended before.
proof fn lemma_scope_len_split(tokens: Seq<BFInstruction>, outer: nat, inner: nat)
    ensures
        scope_len(tokens, outer) <= tokens.len(),
        scope_len(tokens, outer + inner + 1) == scope_len(tokens, outer) + scope_len(
            tokens.skip(scope_len(tokens, outer) as int),
            inner,
        ),
    decreases tokens.len(),
{
    lemma_scope_len_bound(tokens, outer);
    if tokens.len() == 0 {
        assert(tokens.skip(0) =~= tokens);
    } else {
        let rest = tokens.drop_first();
        match tokens.first() {
            BFInstruction::JumpIfZero => {
                lemma_scope_len_split(rest, outer + 1, inner);
                assert(tokens.skip(1 + scope_len(rest, outer + 1) as int) =~= rest.skip(
                    scope_len(rest, outer + 1) as int,
                ));
            },
            BFInstruction::JumpIfNotZero => {
                if outer == 0 {
                    assert(tokens.skip(1) =~= rest);
                } else {
                    let below = (outer - 1) as nat;
                    lemma_scope_len_split(rest, below, inner);
                    assert(tokens.skip(1 + scope_len(rest, below) as int) =~= rest.skip(
                        scope_len(rest, below) as int,
                    ));
                }
            },
            _ => {
                lemma_scope_len_split(rest, outer, inner);
                assert(tokens.skip(1 + scope_len(rest, outer) as int) =~= rest.skip(
                    scope_len(rest, outer) as int,
                ));
            },
        }
    }
}

/// Joining is associative around a single instruction: it folds to the left
/// and to the right alike, whichever is done first.
proof fn lemma_join_single(front: Seq<Instruction>, middle: Instruction, back: Seq<Instruction>)
    ensures
        join(join(front, seq![middle]), back) == join(front, join(seq![middle], back)),
{
    let left = join(front, seq![middle]);
    let right = join(seq![middle], back);
    assert(seq![middle].drop_last() =~= Seq::<Instruction>::empty());
    assert(seq![middle].drop_first() =~= Seq::<Instruction>::empty());
    assert(join(left, back) =~= join(front, right));
}

/// Joining with nothing changes nothing.
proof fn lemma_join_empty(instructions: Seq<Instruction>)
    ensures
        join(instructions, Seq::empty()) == instructions,
        join(Seq::empty(), instructions) == instructions,
{
    assert(join(instructions, Seq::empty()) =~= instructions);
    assert(join(Seq::empty(), instructions) =~= instructions);
}

/// The amount that a token adds to the current cell.
pub fn infer_increment_direction(bf_instruction: &BFInstruction) -> (direction: i8)
    ensures
        direction == increment_direction(*bf_instruction),
{
    match bf_instruction {
        BFInstruction::Increment => 1,
        BFInstruction::Decrement => -1,
        _ => 0,
    }
}

/// The amount that a token adds to the pointer.
pub fn infer_move_direction(bf_instruction: &BFInstruction) -> (direction: isize)
    ensures
        direction == move_direction(*bf_instruction),
{
    match bf_instruction {
        BFInstruction::MoveRight => 1,
        BFInstruction::MoveLeft => -1,
        _ => 0,
    }
}

/// Parses one scope: the instructions of the tokens up to the `]` that ends
/// the scope, or up to the end, are added to `vm_instructions`, the first of
/// them folded into the instruction that was last before. Returns how many
/// tokens the scope took up, the closing `]` included.
pub fn parse_internal(
    bf_instructions: &[BFInstruction],
    vm_instructions: &mut Vec<VMInstruction>,
) -> (consumed: usize)
    ensures
        consumed == scope_len(bf_instructions@, 0),
        final(vm_instructions).deep_view() == join(
            old(vm_instructions).deep_view(),
            parse_scope(bf_instructions@),
        ),
    decreases bf_instructions@.len(),
{
    let ghost tokens = bf_instructions@;
    let ghost before = vm_instructions.deep_view();
    let mut index: usize = 0;
    proof {
        assert(tokens.skip(0) =~= tokens);
    }
    while index < bf_instructions.len()
        invariant
            tokens == bf_instructions@,
            before == old(vm_instructions).deep_view(),
            index <= tokens.len(),
            index + scope_len(tokens.skip(index as int), 0) == scope_len(tokens, 0),
            join(vm_instructions.deep_view(), parse_scope(tokens.skip(index as int))) == join(
                before,
                parse_scope(tokens),
            ),
        decreases tokens.len() - index,
    {
        let bf_instruction = &bf_instructions[index];
        let ghost here = tokens.skip(index as int);
        let ghost rest = tokens.skip(index + 1);
        let ghost so_far = vm_instructions.deep_view();
        proof {
            assert(here.drop_first() =~= rest);
            assert(here.first() == tokens[index as int]);
        }
        let last_vm_instruction = vm_instructions.last_mut();

        match bf_instruction {
            BFInstruction::Increment | BFInstruction::Decrement => {
                let direction = infer_increment_direction(bf_instruction);
                if let Some(VMInstruction::Increment(last_increment)) = last_vm_instruction {
                    *last_increment = last_increment.wrapping_add(direction);
                } else {
                    vm_instructions.push(VMInstruction::Increment(direction));
                }
                proof {
                    assert(vm_instructions.deep_view() =~= join(
                        so_far,
                        seq![Instruction::Add(direction)],
                    ));
                    lemma_join_single(so_far, Instruction::Add(direction), parse_scope(rest));
                }
            },
            BFInstruction::MoveRight | BFInstruction::MoveLeft => {
                let direction = infer_move_direction(bf_instruction);
                if let Some(VMInstruction::Move(last_move)) = last_vm_instruction {
                    *last_move = last_move.wrapping_add(direction);
                } else {
                    vm_instructions.push(VMInstruction::Move(direction));
                }
                proof {
                    assert(vm_instructions.deep_view() =~= join(
                        so_far,
                        seq![Instruction::Shift(direction)],
                    ));
                    lemma_join_single(so_far, Instruction::Shift(direction), parse_scope(rest));
                }
            },
            BFInstruction::PutChar => {
                vm_instructions.push(VMInstruction::Print);
                proof {
                    assert(vm_instructions.deep_view() =~= join(so_far, seq![Instruction::Output]));
                    lemma_join_single(so_far, Instruction::Output, parse_scope(rest));
                }
            },
            BFInstruction::ReadChar => {
                vm_instructions.push(VMInstruction::Read);
                proof {
                    assert(vm_instructions.deep_view() =~= join(so_far, seq![Instruction::Input]));
                    lemma_join_single(so_far, Instruction::Input, parse_scope(rest));
                }
            },
            BFInstruction::JumpIfZero => {
                let mut instructions_in_loop: Vec<VMInstruction> = Vec::new();
                proof {
                    assert(instructions_in_loop.deep_view() =~= Seq::empty());
                }

                let bf_instructions_consumed = parse_internal(
                    &bf_instructions[(index + 1)..bf_instructions.len()],
                    &mut instructions_in_loop,
                );

                proof {
                    let body = parse_scope(rest);
                    let after = rest.skip(bf_instructions_consumed as int);
                    assert(tokens.subrange(index + 1, tokens.len() as int) =~= rest);
                    lemma_join_empty(body);
                    lemma_loop_deep_view(instructions_in_loop);
                    lemma_scope_len_split(rest, 0, 0);
                    assert(tokens.skip(index + 1 + bf_instructions_consumed) =~= after);
                    lemma_join_single(so_far, Instruction::Loop(body), parse_scope(after));
                }

                vm_instructions.push(VMInstruction::Loop(instructions_in_loop));

                proof {
                    assert(vm_instructions.deep_view() =~= join(
                        so_far,
                        seq![Instruction::Loop(parse_scope(rest))],
                    ));
                }

                index += bf_instructions_consumed;
            },
            BFInstruction::JumpIfNotZero => {
                proof {
                    assert(vm_instructions.deep_view() =~= so_far);
                    lemma_join_empty(so_far);
                }
                return index + 1;
            },
        }

        index += 1
    }

    proof {
        assert(tokens.skip(index as int) =~= Seq::<BFInstruction>::empty());
        lemma_join_empty(vm_instructions.deep_view());
    }
    index
}

/// Parses a whole program: the instructions of the outermost scope. A `]`
/// that closes no loop ends the program there, and a loop that is never
/// closed runs to the end of the tokens.
pub fn parse(bf_instructions: &[BFInstruction]) -> (vm_instructions: Vec<VMInstruction>)
    ensures
        vm_instructions.deep_view() == parse_scope(bf_instructions@),
{
    let mut vm_instructions: Vec<VMInstruction> = Vec::new();
    proof {
        assert(vm_instructions.deep_view() =~= Seq::empty());
    }

    parse_internal(bf_instructions, &mut vm_instructions);

    proof {
        lemma_join_empty(parse_scope(bf_instructions@));
    }
    vm_instructions
}

} // verus!
