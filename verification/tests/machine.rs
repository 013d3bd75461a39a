use bf_machine::error::ExecutionError;
use bf_machine::machine::{execute, execute_bounded, Machine, Status, STEP_BUDGET, TAPE_LENGTH};

#[test]
fn multiplies_eight_by_nine() {
    let program = ",>,<[>[->+>+<<]>>[-<<+>>]<<<-]>>.";
    assert_eq!(execute(program.as_bytes(), &[8, 9]), Ok(vec![72]));
}

#[test]
fn plus_dot_writes_one() {
    assert_eq!(execute(b"+.", &[]), Ok(vec![1]));
}

#[test]
fn empty_program_writes_nothing() {
    assert_eq!(execute(b"", &[]), Ok(vec![]));
    assert_eq!(execute(b"", &[1, 2, 3]), Ok(vec![]));
    assert_eq!(execute_bounded(b"", &[1, 2, 3], 0), Ok(vec![]));
}

#[test]
fn cell_wraps_in_a_run() {
    assert_eq!(execute(b"-.+.", &[]), Ok(vec![255, 0]));
    assert_eq!(execute(b",+.", &[255]), Ok(vec![0]));
    assert_eq!(execute(b",-.", &[0]), Ok(vec![255]));
}

#[test]
fn data_pointer_wraps_in_a_run() {
    assert_eq!(execute(b"+<++>.<.", &[]), Ok(vec![1, 2]));
    let mut program = vec![b'+'];
    program.resize(1 + TAPE_LENGTH, b'>');
    program.push(b'.');
    assert_eq!(execute(&program, &[]), Ok(vec![1]));
    let mut program = vec![b'+'];
    program.resize(TAPE_LENGTH, b'>');
    program.push(b'.');
    assert_eq!(execute(&program, &[]), Ok(vec![0]));
}

#[test]
fn input_is_read_in_a_circle() {
    assert_eq!(execute(b",.,.,.,.,.", &[4, 5]), Ok(vec![4, 5, 4, 5, 4]));
    assert_eq!(execute(b",.,.", &[7]), Ok(vec![7, 7]));
}

#[test]
fn reading_empty_input_is_an_error() {
    assert_eq!(execute(b"+,", &[]), Err(ExecutionError::InputExhausted(1)));
    assert_eq!(execute(b",", &[]), Err(ExecutionError::InputExhausted(0)));
}

#[test]
fn invalid_instruction_is_reported_where_it_is_met() {
    assert_eq!(execute(b"+x.", &[]), Err(ExecutionError::InvalidInstruction(b'x', 1)));
    assert_eq!(execute(b" ", &[]), Err(ExecutionError::InvalidInstruction(b' ', 0)));
    assert_eq!(execute(b"+.\n", &[]), Err(ExecutionError::InvalidInstruction(b'\n', 2)));
}

#[test]
fn skipped_loop_body_is_not_decoded() {
    assert_eq!(execute(b"[x]+.", &[]), Ok(vec![1]));
}

#[test]
fn unmatched_brackets_are_reported() {
    assert_eq!(execute(b"[", &[]), Err(ExecutionError::BracketMismatch(0)));
    assert_eq!(execute(b"+]", &[]), Err(ExecutionError::BracketMismatch(1)));
    assert_eq!(execute(b"+[[-]", &[]), Ok(vec![]));
    assert_eq!(execute(b"[[-]", &[]), Err(ExecutionError::BracketMismatch(0)));
}

#[test]
fn brackets_that_are_not_taken_need_no_partner() {
    assert_eq!(execute(b"]+.", &[]), Ok(vec![1]));
    assert_eq!(execute(b"+[.", &[]), Ok(vec![1]));
}

#[test]
fn loop_counts_down() {
    assert_eq!(execute(b"+++[.-]", &[]), Ok(vec![3, 2, 1]));
    assert_eq!(execute(b",[>+<-]>.", &[200]), Ok(vec![200]));
}

#[test]
fn endless_loop_uses_up_the_budget() {
    assert_eq!(execute_bounded(b"+[]", &[], 1000), Err(ExecutionError::StepLimitExceeded));
    assert_eq!(execute_bounded(b"+[.]", &[], 0), Err(ExecutionError::StepLimitExceeded));
}

#[test]
fn budget_counts_instructions() {
    assert_eq!(execute_bounded(b"+.", &[], 1), Err(ExecutionError::StepLimitExceeded));
    assert_eq!(execute_bounded(b"+.", &[], 2), Ok(vec![1]));
    assert_eq!(execute_bounded(b"+.", &[], 3), Ok(vec![1]));
    assert_eq!(execute_bounded(b"+x", &[], 1), Err(ExecutionError::StepLimitExceeded));
    assert_eq!(execute_bounded(b"+x", &[], 2), Err(ExecutionError::InvalidInstruction(b'x', 1)));
    assert_eq!(STEP_BUDGET, u64::MAX);
}

#[test]
fn machine_steps_one_instruction_at_a_time() {
    let mut machine = Machine::new(b"+.[", &[]);
    assert_eq!(machine.status(), Status::Running);
    assert_eq!(machine.step(), Status::Running);
    assert_eq!(machine.output(), &Vec::<u8>::new());
    assert_eq!(machine.step(), Status::Running);
    assert_eq!(machine.output(), &vec![1]);
    assert_eq!(machine.step(), Status::Halted);
    assert_eq!(machine.step(), Status::Halted);
    assert_eq!(machine.status(), Status::Halted);
    assert_eq!(machine.into_output(), vec![1]);
}

#[test]
fn fault_leaves_the_machine_as_it_is() {
    let mut machine = Machine::new(b"-.?", &[]);
    assert_eq!(machine.run(5), Status::Faulted(ExecutionError::InvalidInstruction(b'?', 2)));
    assert_eq!(machine.status(), Status::Running);
    assert_eq!(machine.step(), Status::Faulted(ExecutionError::InvalidInstruction(b'?', 2)));
    assert_eq!(machine.output(), &vec![255]);
}

#[test]
fn run_stops_when_the_budget_is_used_up() {
    let mut machine = Machine::new(b"+.+.+.", &[]);
    assert_eq!(machine.run(0), Status::Running);
    assert_eq!(machine.output(), &Vec::<u8>::new());
    assert_eq!(machine.run(3), Status::Running);
    assert_eq!(machine.output(), &vec![1]);
    assert_eq!(machine.run(3), Status::Halted);
    assert_eq!(machine.output(), &vec![1, 2, 3]);
    assert_eq!(machine.run(3), Status::Halted);
}

#[test]
fn empty_machine_is_halted() {
    let mut machine = Machine::new(b"", &[1]);
    assert_eq!(machine.status(), Status::Halted);
    assert_eq!(machine.run(10), Status::Halted);
    assert_eq!(machine.into_output(), Vec::<u8>::new());
}
