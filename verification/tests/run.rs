use bf_vm::{lexer, parse, run, Exit, VMInstruction};

const HELLO_WORLD_PROGRAM: &str =
    "++++++++++[>+++++++>++++++++++>+++>+<<<<-]>++.>+.+++++++..+++.>++.<<+++++++++++++++.>.+++.------.--------.>+.>.";

fn parsed(source_code: &str) -> Vec<VMInstruction> {
    parse(&lexer(&String::from(source_code)))
}

#[test]
fn run_successfully_executes_hello_world() {
    let input = "fake input".as_bytes();

    let source_code = String::from(HELLO_WORLD_PROGRAM);
    let bf_instructions = lexer(&source_code);
    let vm_instructions = parse(&bf_instructions);

    let execution = run(&vm_instructions, input, u64::MAX);

    assert_eq!(Exit::Completed, execution.exit);
    assert_eq!(
        "Hello World!\n",
        String::from_utf8(execution.output).expect("cannot convert output")
    )
}

#[test]
fn run_of_hello_world_leaves_its_tape() {
    let execution = run(&parsed(HELLO_WORLD_PROGRAM), &[], 1_000_000);
    assert_eq!([0, 87, 100, 33, 10, 0], execution.memory[..6]);
    assert!(execution.memory[6..].iter().all(|cell| *cell == 0));
}

#[test]
fn run_of_the_empty_program_completes() {
    let execution = run(&[], &[], 1);
    assert_eq!(Exit::Completed, execution.exit);
    assert_eq!(Vec::<u8>::new(), execution.output);
    assert!(execution.memory.iter().all(|cell| *cell == 0));
}

#[test]
fn run_writes_the_cell_it_counted_up() {
    let execution = run(&parsed("++."), &[], 100);
    assert_eq!(Exit::Completed, execution.exit);
    assert_eq!(vec![2], execution.output);
    assert_eq!(2, execution.memory[0]);
    assert!(execution.memory[1..].iter().all(|cell| *cell == 0));
}

#[test]
fn run_of_a_clearing_loop_ends_with_a_blank_tape() {
    let execution = run(&parsed("+[-]"), &[], 100);
    assert_eq!(Exit::Completed, execution.exit);
    assert_eq!(Vec::<u8>::new(), execution.output);
    assert!(execution.memory.iter().all(|cell| *cell == 0));
}

#[test]
fn run_of_a_clearing_loop_goes_through_the_body_once() {
    // add, enter, subtract, test and leave, halt
    assert_eq!(Exit::Completed, run(&parsed("+[-]"), &[], 5).exit);
    assert_eq!(Exit::OutOfFuel, run(&parsed("+[-]"), &[], 4).exit);
}

#[test]
fn run_echoes_a_byte() {
    let execution = run(&parsed(",."), &[0x41], 100);
    assert_eq!(Exit::Completed, execution.exit);
    assert_eq!(vec![0x41], execution.output);
    assert_eq!(65, execution.memory[0]);
}

#[test]
fn run_moves_a_cell_with_a_loop() {
    let execution = run(&parsed("++[>+<-]"), &[], 1_000);
    assert_eq!(Exit::Completed, execution.exit);
    assert_eq!(0, execution.memory[0]);
    assert_eq!(2, execution.memory[1]);
    assert!(execution.memory[2..].iter().all(|cell| *cell == 0));
}

#[test]
fn run_goes_through_nested_loops() {
    // 3 times 4 times 5
    let execution = run(&parsed("+++[>++++[>+++++<-]<-]>>."), &[], 10_000);
    assert_eq!(Exit::Completed, execution.exit);
    assert_eq!(vec![60], execution.output);
    assert_eq!([0, 0, 60], execution.memory[..3]);
}

#[test]
fn run_takes_the_input_in_order() {
    let execution = run(&parsed(",>,>,<<.>.>."), b"abc and more", 100);
    assert_eq!(Exit::Completed, execution.exit);
    assert_eq!(b"abc".to_vec(), execution.output);
    assert_eq!([97, 98, 99, 0], execution.memory[..4]);
}

#[test]
fn run_copies_its_input_until_a_zero() {
    let execution = run(&parsed(",[.,]"), &[104, 105, 0, 33], 1_000);
    assert_eq!(Exit::Completed, execution.exit);
    assert_eq!(vec![104, 105], execution.output);
}

#[test]
fn run_stops_where_the_input_ends() {
    let execution = run(&parsed("+.,."), &[], 100);
    assert_eq!(Exit::InputExhausted, execution.exit);
    assert_eq!(vec![1], execution.output);
    assert_eq!(1, execution.memory[0]);

    let execution = run(&parsed(",[.,]"), &[1, 2], 1_000);
    assert_eq!(Exit::InputExhausted, execution.exit);
    assert_eq!(vec![1, 2], execution.output);
    assert_eq!(2, execution.memory[0]);
}

#[test]
fn run_stops_at_a_cell_outside_the_tape() {
    let execution = run(&parsed("+.<+."), &[], 100);
    assert_eq!(Exit::OutOfBounds, execution.exit);
    assert_eq!(vec![1], execution.output);
    assert_eq!(1, execution.memory[0]);

    let right = format!("{}.", ">".repeat(30_000));
    assert_eq!(Exit::OutOfBounds, run(&parsed(&right), &[], 100).exit);
}

#[test]
fn run_stops_when_the_fuel_is_used_up() {
    let execution = run(&parsed("+[.]"), &[], 7);
    assert_eq!(Exit::OutOfFuel, execution.exit);
    assert_eq!(vec![1, 1, 1], execution.output);
    assert_eq!(1, execution.memory[0]);

    assert_eq!(Exit::OutOfFuel, run(&parsed("+[]"), &[], 100_000).exit);
    assert_eq!(Exit::OutOfFuel, run(&parsed("+"), &[], 0).exit);
}

#[test]
fn run_needs_one_unit_of_fuel_more_than_it_takes_steps() {
    let execution = run(&parsed("+>+"), &[], 3);
    assert_eq!(Exit::OutOfFuel, execution.exit);
    assert_eq!([1, 1], execution.memory[..2]);
    assert_eq!(Exit::Completed, run(&parsed("+>+"), &[], 4).exit);
}

#[test]
fn run_of_folded_arithmetic_is_the_tokens_one_by_one() {
    let execution = run(&parsed("+++>++<->>-<<<>"), &[], 100);
    assert_eq!(Exit::Completed, execution.exit);
    assert_eq!(Vec::<u8>::new(), execution.output);
    assert_eq!([2, 2, 255, 0], execution.memory[..4]);

    let long = format!("{}>{}", "+".repeat(300), "-".repeat(3));
    let execution = run(&parsed(&long), &[], 100);
    assert_eq!([44, 253, 0], execution.memory[..3]);
}

#[test]
fn run_past_the_left_end_and_back_touches_nothing() {
    let execution = run(&parsed("<<>>+"), &[], 100);
    assert_eq!(Exit::Completed, execution.exit);
    assert_eq!(1, execution.memory[0]);

    let execution = run(&parsed("<-"), &[], 100);
    assert_eq!(Exit::OutOfBounds, execution.exit);
    assert!(execution.memory.iter().all(|cell| *cell == 0));
}

#[test]
fn run_wraps_a_cell_both_ways() {
    assert_eq!(vec![255], run(&parsed("-."), &[], 100).output);
    assert_eq!(vec![0], run(&parsed("-+."), &[], 100).output);
    let up = format!("{}.+.", "+".repeat(255));
    assert_eq!(vec![255, 0], run(&parsed(&up), &[], 100).output);
}
