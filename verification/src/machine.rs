use vstd::prelude::*;
use crate::decoder::{decode, operation_of, Operations, CLOSE, OPEN};
use crate::error::ExecutionError;
use crate::jump::{
    balanced, closes, jump, jump_target, jumps_backward, jumps_forward, lemma_balanced_has_partners,
    lemma_closing_partner_is_close, lemma_opening_partner_is_open, opens,
};
use crate::tape::{
    cell_after_add, cell_after_subtract, increment, index_after_decrement, index_after_increment,
    lemma_index_wraps, Tape, TapeState,
};

verus! {

/// The number of cells on the tape of a fresh machine.
pub const TAPE_LENGTH: usize = 300;

/// What a machine is to a contract.
pub ghost struct MachineState {
    /// The cells and the data pointer.
    pub tape: TapeState,
    /// The index of the next instruction.
    pub instruction_pointer: int,
    /// The index of the next input byte.
    pub input_cursor: int,
    /// What has been written so far.
    pub output: Seq<u8>,
}

/// Where a run stands.
#[derive(Clone, Copy, Debug, PartialEq, Eq, Structural)]
pub enum Status {
    /// There is an instruction to execute.
    Running,
    /// The instruction pointer has run past the end of the program.
    Halted,
    /// The next instruction cannot be executed.
    Faulted(ExecutionError),
}

/// The state a run starts in: a zeroed tape of `tape_length` cells, every
/// pointer at 0, nothing written.
pub open spec fn initial_state(tape_length: nat) -> MachineState {
    MachineState {
        tape: TapeState { cells: Seq::new(tape_length, |i: int| 0u8), pointer: 0 },
        instruction_pointer: 0,
        input_cursor: 0,
        output: Seq::empty(),
    }
}

/// The pointers of `state` are in range for `program` and `input`.
pub open spec fn state_wf(program: Seq<u8>, input: Seq<u8>, state: MachineState) -> bool {
    &&& 0 <= state.tape.pointer < state.tape.cells.len()
    &&& 0 <= state.instruction_pointer <= program.len()
    &&& 0 <= state.input_cursor
    &&& state.input_cursor < input.len() || (input.len() == 0 && state.input_cursor == 0)
}

/// The instruction pointer has run past the end of the program.
pub open spec fn halted(program: Seq<u8>, state: MachineState) -> bool {
    state.instruction_pointer >= program.len()
}

/// The state after the instruction under the instruction pointer, or the
/// reason why that instruction cannot be executed. It is meant for a state
/// that has not halted.
pub open spec fn step_of(program: Seq<u8>, input: Seq<u8>, state: MachineState) -> Result<
    MachineState,
    ExecutionError,
> {
    let at = state.instruction_pointer;
    let byte = program[at];
    let cells = state.tape.cells;
    let pointer = state.tape.pointer;
    let next = MachineState { instruction_pointer: at + 1, ..state };
    match operation_of(byte) {
        None => Err(ExecutionError::InvalidInstruction(byte, at as usize)),
        Some(Operations::Add) => Ok(
            MachineState {
                tape: TapeState { cells: cells.update(pointer, cell_after_add(cells[pointer])), pointer },
                ..next
            },
        ),
        Some(Operations::Subtract) => Ok(
            MachineState {
                tape: TapeState {
                    cells: cells.update(pointer, cell_after_subtract(cells[pointer])),
                    pointer,
                },
                ..next
            },
        ),
        Some(Operations::Increment) => Ok(
            MachineState {
                tape: TapeState {
                    cells,
                    pointer: index_after_increment(pointer, cells.len() as int),
                },
                ..next
            },
        ),
        Some(Operations::Decrement) => Ok(
            MachineState {
                tape: TapeState {
                    cells,
                    pointer: index_after_decrement(pointer, cells.len() as int),
                },
                ..next
            },
        ),
        Some(Operations::Output) => Ok(MachineState { output: state.output.push(cells[pointer]), ..next }),
        Some(Operations::Input) => if input.len() == 0 {
            Err(ExecutionError::InputExhausted(at as usize))
        } else {
            Ok(
                MachineState {
                    tape: TapeState { cells: cells.update(pointer, input[state.input_cursor]), pointer },
                    input_cursor: index_after_increment(state.input_cursor, input.len() as int),
                    ..next
                },
            )
        },
        Some(Operations::Jump) => match jump_target(byte, cells[pointer], at, program) {
            None => Err(ExecutionError::BracketMismatch(at as usize)),
            Some(target) => Ok(MachineState { instruction_pointer: target + 1, ..state }),
        },
    }
}

/// Where a run from `state` stands after at most `budget` instructions, and
/// in which state: halted, faulted on the next instruction, or still running
/// with the budget used up.
pub open spec fn run_of(program: Seq<u8>, input: Seq<u8>, state: MachineState, budget: nat) -> (
    MachineState,
    Status,
)
    decreases budget,
{
    if halted(program, state) {
        (state, Status::Halted)
    } else if budget == 0 {
        (state, Status::Running)
    } else {
        match step_of(program, input, state) {
            Err(e) => (state, Status::Faulted(e)),
            Ok(next) => run_of(program, input, next, (budget - 1) as nat),
        }
    }
}

/// What a run from `state` hands to its caller: the output once it has
/// halted, or the reason why it did not.
pub open spec fn result_of(program: Seq<u8>, input: Seq<u8>, state: MachineState, budget: nat) -> Result<
    Seq<u8>,
    ExecutionError,
> {
    match run_of(program, input, state, budget) {
        (end, Status::Halted) => Ok(end.output),
        (_, Status::Faulted(e)) => Err(e),
        (_, Status::Running) => Err(ExecutionError::StepLimitExceeded),
    }
}

/// A step keeps every pointer in range and the tape at its length.
pub proof fn lemma_step_keeps_wf(program: Seq<u8>, input: Seq<u8>, state: MachineState)
    requires
        state_wf(program, input, state),
        !halted(program, state),
        step_of(program, input, state) is Ok,
    ensures
        state_wf(program, input, step_of(program, input, state).unwrap()),
        step_of(program, input, state).unwrap().tape.cells.len() == state.tape.cells.len(),
{
    lemma_index_wraps(state.tape.pointer, state.tape.cells.len() as int);
    if input.len() > 0 {
        lemma_index_wraps(state.input_cursor, input.len() as int);
    }
}

/// A run keeps every pointer in range and the tape at its length.
pub proof fn lemma_run_keeps_wf(program: Seq<u8>, input: Seq<u8>, state: MachineState, budget: nat)
    requires
        state_wf(program, input, state),
    ensures
        state_wf(program, input, run_of(program, input, state, budget).0),
        run_of(program, input, state, budget).0.tape.cells.len() == state.tape.cells.len(),
    decreases budget,
{
    if !halted(program, state) && budget > 0 && step_of(program, input, state) is Ok {
        lemma_step_keeps_wf(program, input, state);
        lemma_run_keeps_wf(
            program,
            input,
            step_of(program, input, state).unwrap(),
            (budget - 1) as nat,
        );
    }
}

/// The empty program halts at once, on any input, and has written nothing.
pub proof fn lemma_empty_program(input: Seq<u8>, tape_length: nat, budget: nat)
    ensures
        result_of(Seq::<u8>::empty(), input, initial_state(tape_length), budget) == Ok::<
            Seq<u8>,
            ExecutionError,
        >(Seq::<u8>::empty()),
{
}

/// A program whose brackets are balanced never faults on a bracket.
pub proof fn lemma_balanced_never_mismatches(program: Seq<u8>, input: Seq<u8>, state: MachineState)
    requires
        balanced(program),
        0 <= state.instruction_pointer < program.len(),
    ensures
        !(step_of(program, input, state) matches Err(ExecutionError::BracketMismatch(_))),
{
    let at = state.instruction_pointer;
    lemma_balanced_has_partners(program, at, state.tape.cells[state.tape.pointer]);
}

/// A taken jump lands on the partner bracket, so the step after a `[` on a
/// zero cell or a `]` on a nonzero cell goes on behind a `]` or a `[`.
pub proof fn lemma_jump_lands_on_partner(program: Seq<u8>, input: Seq<u8>, state: MachineState)
    requires
        0 <= state.instruction_pointer < program.len(),
        operation_of(program[state.instruction_pointer]) == Some(Operations::Jump),
        step_of(program, input, state) is Ok,
    ensures
        ({
            let at = state.instruction_pointer;
            let value = state.tape.cells[state.tape.pointer];
            let landed = step_of(program, input, state).unwrap().instruction_pointer - 1;
            &&& 0 <= landed < program.len()
            &&& jumps_forward(program[at], value) ==> program[landed] == CLOSE && closes(
                program,
                at,
                landed,
            )
            &&& jumps_backward(program[at], value) ==> program[landed] == OPEN && opens(
                program,
                at,
                landed,
            )
            &&& !jumps_forward(program[at], value) && !jumps_backward(program[at], value)
                ==> landed == at
        }),
{
    let at = state.instruction_pointer;
    let value = state.tape.cells[state.tape.pointer];
    let landed = step_of(program, input, state).unwrap().instruction_pointer - 1;
    if jumps_forward(program[at], value) {
        lemma_closing_partner_is_close(program, at, landed);
    } else if jumps_backward(program[at], value) {
        lemma_opening_partner_is_open(program, at, landed);
    }
}

/// A run that has halted or faulted within a budget ends the same way within
/// any larger one.
pub proof fn lemma_larger_budget(
    program: Seq<u8>,
    input: Seq<u8>,
    state: MachineState,
    budget: nat,
    larger: nat,
)
    requires
        budget <= larger,
        run_of(program, input, state, budget).1 != Status::Running,
    ensures
        run_of(program, input, state, larger) == run_of(program, input, state, budget),
        result_of(program, input, state, larger) == result_of(program, input, state, budget),
    decreases budget,
{
    if !halted(program, state) && budget > 0 {
        match step_of(program, input, state) {
            Err(_) => {},
            Ok(next) => {
                lemma_larger_budget(
                    program,
                    input,
                    next,
                    (budget - 1) as nat,
                    (larger - 1) as nat,
                );
            },
        }
    }
}

/// One run of a program on an input: the tape, the three pointers and the
/// output written so far.
pub struct Machine<'a> {
    program: &'a [u8],
    input: &'a [u8],
    tape: Tape,
    instruction_pointer: usize,
    input_cursor: usize,
    output: Vec<u8>,
}

impl<'a> View for Machine<'a> {
    type V = MachineState;

    closed spec fn view(&self) -> MachineState {
        MachineState {
            tape: self.tape@,
            instruction_pointer: self.instruction_pointer as int,
            input_cursor: self.input_cursor as int,
            output: self.output@,
        }
    }
}

impl<'a> Machine<'a> {
    /// The program that this machine runs.
    pub closed spec fn program(&self) -> Seq<u8> {
        self.program@
    }

    /// The input that this machine reads.
    pub closed spec fn input(&self) -> Seq<u8> {
        self.input@
    }

    /// The machine's pointers are in range.
    pub open spec fn wf(&self) -> bool {
        state_wf(self.program(), self.input(), self@)
    }

    /// A machine about to execute the first instruction of `program`.
    pub fn new(program: &'a [u8], input: &'a [u8]) -> (machine: Machine<'a>)
        ensures
            machine.wf(),
            machine.program() == program@,
            machine.input() == input@,
            machine@ == initial_state(TAPE_LENGTH as nat),
    {
        Machine {
            program,
            input,
            tape: Tape::new(TAPE_LENGTH),
            instruction_pointer: 0,
            input_cursor: 0,
            output: Vec::new(),
        }
    }

    /// Where the run stands before its next instruction.
    pub fn status(&self) -> (status: Status)
        ensures
            status == if halted(self.program(), self@) {
                Status::Halted
            } else {
                Status::Running
            },
    {
        if self.instruction_pointer >= self.program.len() {
            Status::Halted
        } else {
            Status::Running
        }
    }

    /// What the run has written so far.
    pub fn output(&self) -> (output: &Vec<u8>)
        ensures
            output@ == self@.output,
    {
        &self.output
    }

    /// Executes the instruction under the instruction pointer.
    ///
    /// A halted machine stays as it is. An instruction that cannot be
    /// executed leaves the machine as it is and is reported as the fault.
    pub fn step(&mut self) -> (status: Status)
        requires
            old(self).wf(),
        ensures
            final(self).wf(),
            final(self).program() == old(self).program(),
            final(self).input() == old(self).input(),
            halted(old(self).program(), old(self)@) ==> status == Status::Halted && final(self)@
                == old(self)@,
            !halted(old(self).program(), old(self)@) ==> match step_of(
                old(self).program(),
                old(self).input(),
                old(self)@,
            ) {
                Err(e) => status == Status::Faulted(e) && final(self)@ == old(self)@,
                Ok(next) => final(self)@ == next && status == if halted(old(self).program(), next) {
                    Status::Halted
                } else {
                    Status::Running
                },
            },
    {
        let at: usize = self.instruction_pointer;
        if at >= self.program.len() {
            return Status::Halted;
        }
        let byte: u8 = self.program[at];
        let ghost before: MachineState = self@;
        proof {
            lemma_index_wraps(self@.tape.pointer, self@.tape.cells.len() as int);
            if self.input@.len() > 0 {
                lemma_index_wraps(self@.input_cursor, self.input@.len() as int);
            }
        }
        match decode(byte, at) {
            Err(e) => {
                return Status::Faulted(e);
            },
            Ok(Operations::Add) => {
                self.tape.increment_cell();
            },
            Ok(Operations::Subtract) => {
                self.tape.decrement_cell();
            },
            Ok(Operations::Increment) => {
                self.tape.move_right();
            },
            Ok(Operations::Decrement) => {
                self.tape.move_left();
            },
            Ok(Operations::Output) => {
                let value: u8 = self.tape.read_cell();
                self.output.push(value);
            },
            Ok(Operations::Input) => {
                if self.input.len() == 0 {
                    return Status::Faulted(ExecutionError::InputExhausted(at));
                }
                self.tape.write_cell(self.input[self.input_cursor]);
                self.input_cursor = increment(self.input_cursor, self.input.len());
            },
            Ok(Operations::Jump) => {
                match jump(byte, self.tape.read_cell(), at, self.program) {
                    Err(e) => {
                        return Status::Faulted(e);
                    },
                    Ok(target) => {
                        self.instruction_pointer = target;
                    },
                }
            },
        }
        self.instruction_pointer = self.instruction_pointer + 1;
        assert(step_of(self.program@, self.input@, before) == Ok::<MachineState, ExecutionError>(
            self@,
        ));
        if self.instruction_pointer >= self.program.len() {
            Status::Halted
        } else {
            Status::Running
        }
    }

    /// Executes instructions until the machine halts or faults, but no more
    /// than `budget` of them.
    pub fn run(&mut self, budget: u64) -> (status: Status)
        requires
            old(self).wf(),
        ensures
            final(self).wf(),
            final(self).program() == old(self).program(),
            final(self).input() == old(self).input(),
            (final(self)@, status) == run_of(
                old(self).program(),
                old(self).input(),
                old(self)@,
                budget as nat,
            ),
    {
        let ghost start: MachineState = self@;
        let ghost program: Seq<u8> = self.program();
        let ghost input: Seq<u8> = self.input();
        let mut remaining: u64 = budget;
        let mut status: Status = self.status();
        while remaining > 0 && matches!(status, Status::Running)
            invariant
                self.wf(),
                self.program() == program,
                self.input() == input,
                status is Faulted ==> run_of(program, input, start, budget as nat) == (self@, status),
                !(status is Faulted) ==> run_of(program, input, start, budget as nat) == run_of(
                    program,
                    input,
                    self@,
                    remaining as nat,
                ) && status == if halted(program, self@) {
                    Status::Halted
                } else {
                    Status::Running
                },
            decreases remaining,
        {
            proof {
                reveal_with_fuel(run_of, 2);
            }
            status = self.step();
            remaining = remaining - 1;
        }
        status
    }

    /// Gives up the machine for what it has written.
    pub fn into_output(self) -> (output: Vec<u8>)
        ensures
            output@ == self@.output,
    {
        self.output
    }
}

/// The number of instructions that `execute` is willing to run.
pub const STEP_BUDGET: u64 = 0xffff_ffff_ffff_ffff;

/// Runs `program` on `input` for at most `budget` instructions and returns
/// what it wrote, if it halted within them.
pub fn execute_bounded(program: &[u8], input: &[u8], budget: u64) -> (r: Result<
    Vec<u8>,
    ExecutionError,
>)
    ensures
        match r {
            Ok(output) => result_of(
                program@,
                input@,
                initial_state(TAPE_LENGTH as nat),
                budget as nat,
            ) == Ok::<Seq<u8>, ExecutionError>(output@),
            Err(e) => result_of(program@, input@, initial_state(TAPE_LENGTH as nat), budget as nat)
                == Err::<Seq<u8>, ExecutionError>(e),
        },
{
    let mut machine = Machine::new(program, input);
    match machine.run(budget) {
        Status::Halted => Ok(machine.into_output()),
        Status::Faulted(e) => Err(e),
        Status::Running => Err(ExecutionError::StepLimitExceeded),
    }
}

/// Runs `program` on `input` and returns what it wrote.
///
/// The input is read in a circle: after its last byte comes its first again.
/// Reading from an empty input is an error. A program that has not halted
/// after `STEP_BUDGET` instructions is given up.
pub fn execute(program: &[u8], input: &[u8]) -> (r: Result<Vec<u8>, ExecutionError>)
    ensures
        match r {
            Ok(output) => result_of(
                program@,
                input@,
                initial_state(TAPE_LENGTH as nat),
                STEP_BUDGET as nat,
            ) == Ok::<Seq<u8>, ExecutionError>(output@),
            Err(e) => result_of(
                program@,
                input@,
                initial_state(TAPE_LENGTH as nat),
                STEP_BUDGET as nat,
            ) == Err::<Seq<u8>, ExecutionError>(e),
        },
        program@.len() == 0 ==> r is Ok && r.unwrap()@ == Seq::<u8>::empty(),
{
    execute_bounded(program, input, STEP_BUDGET)
}

} // verus!
