//! Tokens and the lexer.
use vstd::prelude::*;

verus! {

/// One recognised command character of a source text.
#[derive(Debug, PartialEq, Eq)]
pub enum BFInstruction {
    /// `+`: add one to the current cell.
    Increment,
    /// `-`: subtract one from the current cell.
    Decrement,
    /// `>`: move the pointer one cell to the right.
    MoveRight,
    /// `<`: move the pointer one cell to the left.
    MoveLeft,
    /// `.`: write the current cell.
    PutChar,
    /// `,`: read a byte into the current cell.
    ReadChar,
    /// `[`: begin a loop.
    JumpIfZero,
    /// `]`: end a loop.
    JumpIfNotZero,
}

/// The token that a character stands for, if it is one of the eight commands.
pub open spec fn token_of(character: char) -> Option<BFInstruction> {
    if character == '+' {
        Some(BFInstruction::Increment)
    } else if character == '-' {
        Some(BFInstruction::Decrement)
    } else if character == '>' {
        Some(BFInstruction::MoveRight)
    } else if character == '<' {
        Some(BFInstruction::MoveLeft)
    } else if character == '.' {
        Some(BFInstruction::PutChar)
    } else if character == ',' {
        Some(BFInstruction::ReadChar)
    } else if character == '[' {
        Some(BFInstruction::JumpIfZero)
    } else if character == ']' {
        Some(BFInstruction::JumpIfNotZero)
    } else {
        None
    }
}

/// The tokens of a source text: its command characters, in source order.
pub open spec fn lex(source: Seq<char>) -> Seq<BFInstruction> {
    source.filter(|character: char| token_of(character) is Some).map_values(
        |character: char| token_of(character).unwrap(),
    )
}

/// Lexing a text that grew by one character: a command adds its token at the
/// end, any other character adds nothing.
proof fn lemma_lex_push(source: Seq<char>, character: char)
    ensures
        lex(source.push(character)) == match token_of(character) {
            Some(token) => lex(source).push(token),
            None => lex(source),
        },
{
    reveal(Seq::filter);
    assert(source.push(character).drop_last() =~= source);
    match token_of(character) {
        Some(token) => {
            assert(lex(source.push(character)) =~= lex(source).push(token));
        },
        None => {},
    }
}

/// Classifies one character.
fn classify(character: char) -> (token: Option<BFInstruction>)
    ensures
        token == token_of(character),
{
    match character {
        '+' => Some(BFInstruction::Increment),
        '-' => Some(BFInstruction::Decrement),
        '>' => Some(BFInstruction::MoveRight),
        '<' => Some(BFInstruction::MoveLeft),
        '.' => Some(BFInstruction::PutChar),
        ',' => Some(BFInstruction::ReadChar),
        '[' => Some(BFInstruction::JumpIfZero),
        ']' => Some(BFInstruction::JumpIfNotZero),
        _ => None,
    }
}

/// Turns a source text into its tokens. Every character that is not one of
/// the eight commands is a comment and is dropped; no text is an error.
pub fn lexer(source_code: &String) -> (bf_instructions: Vec<BFInstruction>)
    ensures
        bf_instructions@ == lex(source_code@),
{
    let mut bf_instructions: Vec<BFInstruction> = Vec::new();
    proof {
        reveal(Seq::filter);
        assert(source_code@.take(0) =~= Seq::<char>::empty());
    }
    for character in characters: source_code.as_str().chars()
        invariant
            characters.seq() == source_code@,
            bf_instructions@ == lex(source_code@.take(characters.index() as int)),
    {
        proof {
            let seen = source_code@.take(characters.index() as int);
            lemma_lex_push(seen, character);
            assert(seen.push(character) =~= source_code@.take(characters.index() + 1));
        }
        if let Some(bf_instruction) = classify(character) {
            bf_instructions.push(bf_instruction);
        }
    }
    proof {
        assert(source_code@.take(source_code@.len() as int) =~= source_code@);
    }
    bf_instructions
}

} // verus!
