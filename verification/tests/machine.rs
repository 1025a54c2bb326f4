use bf_vm::{exec_vm_instructions, lexer, parse, Action, Machine, VMInstruction, TAPE_LENGTH};

fn parsed(source_code: &str) -> Vec<VMInstruction> {
    parse(&lexer(&String::from(source_code)))
}

#[test]
fn new_machine_has_a_blank_tape() {
    let program = parsed("+");
    let machine = Machine::new(&program);
    assert_eq!(30_000, TAPE_LENGTH);
    assert_eq!(TAPE_LENGTH, machine.memory().len());
    assert!(machine.memory().iter().all(|cell| *cell == 0));
    assert_eq!(0, machine.data_pointer());
}

#[test]
fn step_takes_one_instruction_at_a_time() {
    let program = parsed("++>-");
    let mut machine = Machine::new(&program);

    assert_eq!(Action::Continue, machine.step());
    assert_eq!(2, machine.memory()[0]);
    assert_eq!(0, machine.data_pointer());

    assert_eq!(Action::Continue, machine.step());
    assert_eq!(1, machine.data_pointer());

    assert_eq!(Action::Continue, machine.step());
    assert_eq!(255, machine.memory()[1]);

    assert_eq!(Action::Halt, machine.step());
    assert_eq!(Action::Halt, machine.step());
    assert_eq!(2, machine.memory()[0]);
    assert_eq!(255, machine.memory()[1]);
    assert_eq!(1, machine.data_pointer());
}

#[test]
fn add_wraps_from_255_to_0() {
    let program = vec![
        VMInstruction::Increment(127),
        VMInstruction::Print,
        VMInstruction::Increment(127),
        VMInstruction::Print,
        VMInstruction::Increment(1),
        VMInstruction::Print,
        VMInstruction::Increment(1),
    ];
    let mut machine = Machine::new(&program);
    let mut fuel = 100;
    assert_eq!(Action::Print(127), exec_vm_instructions(&mut machine, &mut fuel));
    assert_eq!(Action::Print(254), exec_vm_instructions(&mut machine, &mut fuel));
    assert_eq!(Action::Print(255), exec_vm_instructions(&mut machine, &mut fuel));
    assert_eq!(Action::Halt, exec_vm_instructions(&mut machine, &mut fuel));
    assert_eq!(0, machine.memory()[0]);
}

#[test]
fn add_wraps_from_0_to_255() {
    let program = vec![VMInstruction::Increment(-1)];
    let mut machine = Machine::new(&program);
    assert_eq!(Action::Continue, machine.step());
    assert_eq!(255, machine.memory()[0]);
}

#[test]
fn add_of_the_least_amount_takes_128_off() {
    let program = vec![VMInstruction::Increment(100), VMInstruction::Increment(-128)];
    let mut machine = Machine::new(&program);
    machine.step();
    machine.step();
    assert_eq!(228, machine.memory()[0]);
}

#[test]
fn loop_on_a_zero_cell_is_not_entered() {
    let program = vec![
        VMInstruction::Loop(vec![VMInstruction::Increment(1), VMInstruction::Print]),
        VMInstruction::Move(1),
    ];
    let mut machine = Machine::new(&program);
    assert_eq!(Action::Continue, machine.step());
    assert!(machine.memory().iter().all(|cell| *cell == 0));
    assert_eq!(0, machine.data_pointer());
    assert_eq!(Action::Continue, machine.step());
    assert_eq!(1, machine.data_pointer());
    assert_eq!(Action::Halt, machine.step());
}

#[test]
fn loop_body_is_repeated_until_the_cell_is_zero() {
    let program = parsed("+++[.-]");
    let mut machine = Machine::new(&program);
    let mut fuel = 1_000;
    assert_eq!(Action::Print(3), exec_vm_instructions(&mut machine, &mut fuel));
    assert_eq!(Action::Print(2), exec_vm_instructions(&mut machine, &mut fuel));
    assert_eq!(Action::Print(1), exec_vm_instructions(&mut machine, &mut fuel));
    assert_eq!(Action::Halt, exec_vm_instructions(&mut machine, &mut fuel));
    assert_eq!(0, machine.memory()[0]);
}

#[test]
fn exec_vm_instructions_takes_the_steps_from_the_fuel() {
    let program = parsed("+>+>+.");
    let mut machine = Machine::new(&program);
    let mut fuel = 10;
    assert_eq!(Action::Print(1), exec_vm_instructions(&mut machine, &mut fuel));
    assert_eq!(4, fuel);
    assert_eq!(Action::Halt, exec_vm_instructions(&mut machine, &mut fuel));
    assert_eq!(4, fuel);
}

#[test]
fn exec_vm_instructions_stops_when_the_fuel_is_used_up() {
    let program = parsed("+[]");
    let mut machine = Machine::new(&program);
    let mut fuel = 1_000;
    assert_eq!(Action::Continue, exec_vm_instructions(&mut machine, &mut fuel));
    assert_eq!(0, fuel);
    assert_eq!(1, machine.memory()[0]);

    fuel = 5;
    assert_eq!(Action::Continue, exec_vm_instructions(&mut machine, &mut fuel));
    assert_eq!(0, fuel);
}

#[test]
fn exec_vm_instructions_without_fuel_does_nothing() {
    let program = parsed("+.");
    let mut machine = Machine::new(&program);
    let mut fuel = 0;
    assert_eq!(Action::Continue, exec_vm_instructions(&mut machine, &mut fuel));
    assert_eq!(0, machine.memory()[0]);

    fuel = 1;
    assert_eq!(Action::Continue, exec_vm_instructions(&mut machine, &mut fuel));
    assert_eq!(1, machine.memory()[0]);
    assert_eq!(0, fuel);

    fuel = 1;
    assert_eq!(Action::Print(1), exec_vm_instructions(&mut machine, &mut fuel));
    assert_eq!(0, fuel);
}

#[test]
fn read_waits_for_a_byte_and_stores_it() {
    let program = parsed(">,.");
    let mut machine = Machine::new(&program);
    let mut fuel = 100;
    assert_eq!(Action::Read, exec_vm_instructions(&mut machine, &mut fuel));
    assert_eq!(99, fuel);
    assert_eq!(Action::Read, exec_vm_instructions(&mut machine, &mut fuel));
    assert_eq!(99, fuel);

    machine.offer(0x41);
    assert_eq!(Action::Print(0x41), exec_vm_instructions(&mut machine, &mut fuel));
    assert_eq!(0x41, machine.memory()[1]);
    assert_eq!(0, machine.memory()[0]);
    assert_eq!(Action::Halt, exec_vm_instructions(&mut machine, &mut fuel));
}

#[test]
fn offered_byte_is_read_once() {
    let program = parsed(",>,");
    let mut machine = Machine::new(&program);
    machine.offer(7);
    machine.offer(9);
    let mut fuel = 100;
    assert_eq!(Action::Read, exec_vm_instructions(&mut machine, &mut fuel));
    assert_eq!(9, machine.memory()[0]);
    assert_eq!(1, machine.data_pointer());
    assert_eq!(0, machine.memory()[1]);
}

#[test]
fn pointer_wraps_at_its_own_width_not_at_the_end_of_the_tape() {
    let program = parsed("<");
    let mut machine = Machine::new(&program);
    assert_eq!(Action::Continue, machine.step());
    assert_eq!(usize::MAX, machine.data_pointer());

    let back = parsed("<>+");
    let mut machine = Machine::new(&back);
    let mut fuel = 100;
    assert_eq!(Action::Halt, exec_vm_instructions(&mut machine, &mut fuel));
    assert_eq!(0, machine.data_pointer());
    assert_eq!(1, machine.memory()[0]);
}

#[test]
fn cell_outside_the_tape_cannot_be_touched() {
    for source_code in ["<+", "<-", "<.", "<[+]", "+[<]"] {
        let program = parsed(source_code);
        let mut machine = Machine::new(&program);
        let mut fuel = 100;
        assert_eq!(Action::OutOfBounds, exec_vm_instructions(&mut machine, &mut fuel));
        assert_eq!(Action::OutOfBounds, exec_vm_instructions(&mut machine, &mut fuel));
        assert_eq!(usize::MAX, machine.data_pointer());
    }
}

#[test]
fn read_outside_the_tape_asks_for_the_byte_first() {
    let program = parsed("<,");
    let mut machine = Machine::new(&program);
    let mut fuel = 100;
    assert_eq!(Action::Read, exec_vm_instructions(&mut machine, &mut fuel));
    machine.offer(1);
    assert_eq!(Action::OutOfBounds, exec_vm_instructions(&mut machine, &mut fuel));
}

#[test]
fn last_cell_of_the_tape_is_in_bounds() {
    let program = vec![VMInstruction::Move(29_999), VMInstruction::Increment(1)];
    let mut machine = Machine::new(&program);
    let mut fuel = 100;
    assert_eq!(Action::Halt, exec_vm_instructions(&mut machine, &mut fuel));
    assert_eq!(1, machine.memory()[29_999]);

    let beyond = vec![VMInstruction::Move(30_000), VMInstruction::Increment(1)];
    let mut machine = Machine::new(&beyond);
    assert_eq!(Action::OutOfBounds, exec_vm_instructions(&mut machine, &mut fuel));
    assert_eq!(30_000, machine.data_pointer());
}
