//! The execution engine: a machine that interprets a list of instructions
//! against a tape of byte cells.
//!
//! The machine does no input or output of its own. It is handed the input
//! that has arrived so far, together with the word whether more may come, and
//! it collects what it writes. Where it needs input that has not arrived, it
//! says so and stays where it is; its caller fetches more and lets it go on.

use vstd::prelude::*;
use crate::config::{Configuration, RuntimeError};
use crate::instruction::{listing, Instruction, InstructionKind, InstructionView};
use crate::machine_laws::{
    law_output_only_grows, law_run_keeps_machine_sound, law_step_keeps_machine_sound,
};

verus! {

/// Where a machine stands after it was run.
#[derive(Clone, Copy, Debug, PartialEq, Eq, Structural)]
pub enum Status {
    /// There are instructions left to execute.
    Running,
    /// The next instruction reads more input than has arrived, and more may
    /// come.
    AwaitingInput,
    /// The instruction index has left the list: the run is complete.
    Halted,
}

/// The mathematical value of a [`Machine`].
pub ghost struct MachineView {
    pub config: Configuration,
    /// The cells.
    pub tape: Seq<u8>,
    /// The index of the current cell.
    pub cell_index: nat,
    /// The index of the instruction to execute next.
    pub instruction_index: nat,
    /// The number of input bytes read so far.
    pub consumed: nat,
    /// Whether a read has met the end of the input.
    pub eof: bool,
    /// The bytes written and not yet taken.
    pub output: Seq<u8>,
}

impl MachineView {
    /// The machine before its first step: a tape of zeros, both indices at
    /// the start, nothing read and nothing written.
    pub open spec fn initial(config: Configuration) -> MachineView {
        MachineView {
            config,
            tape: Seq::new(config.tape_length as nat, |i: int| 0u8),
            cell_index: 0,
            instruction_index: 0,
            consumed: 0,
            eof: false,
            output: Seq::empty(),
        }
    }

    /// The tape has the configured length, and the cell pointer is on it.
    pub open spec fn sound(self) -> bool {
        &&& self.config.valid()
        &&& self.tape.len() == self.config.tape_length
        &&& self.cell_index < self.tape.len()
    }

    /// The value of the current cell.
    pub open spec fn cell(self) -> u8 {
        self.tape[self.cell_index as int]
    }

    /// The machine with `value` in the current cell.
    pub open spec fn storing(self, value: u8) -> MachineView {
        MachineView { tape: self.tape.update(self.cell_index as int, value), ..self }
    }

    /// The machine with the cell pointer at `index`.
    pub open spec fn pointing_at(self, index: nat) -> MachineView {
        MachineView { cell_index: index, ..self }
    }

    /// The machine about to execute the instruction at `index`.
    pub open spec fn going_to(self, index: nat) -> MachineView {
        MachineView { instruction_index: index, ..self }
    }

    /// How many bytes of `input` are still unread.
    pub open spec fn available(self, input: Seq<u8>) -> nat {
        if self.consumed <= input.len() {
            (input.len() - self.consumed) as nat
        } else {
            0
        }
    }

    /// `reads` reads cannot all be served yet: the input has not ended, more
    /// of it may come, and fewer bytes than that have arrived.
    pub open spec fn starved(self, input: Seq<u8>, complete: bool, reads: nat) -> bool {
        !self.eof && !complete && self.available(input) < reads
    }

    /// The machine after one read. Before the end of the input the next byte
    /// goes into the current cell. At the end, and ever after, the end-of-input
    /// policy says what the cell holds.
    pub open spec fn read(self, input: Seq<u8>) -> MachineView {
        if !self.eof && self.consumed < input.len() {
            MachineView { consumed: self.consumed + 1, ..self.storing(input[self.consumed as int]) }
        } else {
            MachineView { eof: true, ..self.storing(self.config.at_end_of_input(self.cell())) }
        }
    }

    /// The machine after `times` reads, one after the other.
    pub open spec fn read_by(self, input: Seq<u8>, times: nat) -> MachineView
        decreases times,
    {
        if times == 0 {
            self
        } else {
            self.read(input).read_by(input, (times - 1) as nat)
        }
    }

    /// The machine after it wrote the current cell `times` times.
    pub open spec fn written_by(self, times: nat) -> MachineView {
        MachineView { output: self.output + Seq::new(times, |i: int| self.cell()), ..self }
    }

    /// Whether the instruction index has left the list.
    pub open spec fn halted(self, code: Seq<InstructionView>) -> bool {
        self.instruction_index >= code.len()
    }

    /// The machine after the instruction one further on was made the next.
    pub open spec fn proceeding(self) -> MachineView {
        self.going_to(self.instruction_index + 1)
    }
}

/// One step of a machine: the instruction at the instruction index, applied
/// as often as it counts.
///
/// Gives the machine after the step and what the step reports. A step that
/// executes its instruction reports `Running`. A machine that has halted, a
/// read that has to wait for input, and an instruction that aborts the run
/// leave the machine as it was. A read instruction is executed as a whole:
/// it waits until all the bytes that it counts have arrived, unless the input
/// is complete or has ended before.
///
/// A loop start on a zero cell goes to its target, past the loop; a loop end
/// on any other cell goes to its target, back into the loop.
pub open spec fn step_of(
    code: Seq<InstructionView>,
    input: Seq<u8>,
    complete: bool,
    m: MachineView,
) -> (MachineView, Result<Status, RuntimeError>) {
    if m.halted(code) {
        (m, Ok(Status::Halted))
    } else {
        let instruction = code[m.instruction_index as int];
        match instruction.kind {
            InstructionKind::ValueIncrement => match m.config.raised_by(
                m.cell(),
                instruction.repeat,
            ) {
                Ok(value) => (m.storing(value).proceeding(), Ok(Status::Running)),
                Err(error) => (m, Err(error)),
            },
            InstructionKind::ValueDecrement => match m.config.lowered_by(
                m.cell(),
                instruction.repeat,
            ) {
                Ok(value) => (m.storing(value).proceeding(), Ok(Status::Running)),
                Err(error) => (m, Err(error)),
            },
            InstructionKind::PointerIncrement => match m.config.advanced_by(
                m.cell_index,
                instruction.repeat,
            ) {
                Ok(index) => (m.pointing_at(index).proceeding(), Ok(Status::Running)),
                Err(error) => (m, Err(error)),
            },
            InstructionKind::PointerDecrement => match m.config.retreated_by(
                m.cell_index,
                instruction.repeat,
            ) {
                Ok(index) => (m.pointing_at(index).proceeding(), Ok(Status::Running)),
                Err(error) => (m, Err(error)),
            },
            InstructionKind::Input => if m.starved(input, complete, instruction.repeat) {
                (m, Ok(Status::AwaitingInput))
            } else {
                (m.read_by(input, instruction.repeat).proceeding(), Ok(Status::Running))
            },
            InstructionKind::Output => (
                m.written_by(instruction.repeat).proceeding(),
                Ok(Status::Running),
            ),
            InstructionKind::LoopStart => if m.cell() == 0 {
                (m.going_to(instruction.target), Ok(Status::Running))
            } else {
                (m.proceeding(), Ok(Status::Running))
            },
            InstructionKind::LoopEnd => if m.cell() != 0 {
                (m.going_to(instruction.target), Ok(Status::Running))
            } else {
                (m.proceeding(), Ok(Status::Running))
            },
        }
    }
}

/// A run of at most `budget` steps: step after step until the machine halts,
/// has to wait for input, is aborted, or has used up the budget.
///
/// Gives the machine after the run and what the run reports: `Halted`,
/// `AwaitingInput`, the error, or `Running` where only the budget ended it.
pub open spec fn run_of(
    code: Seq<InstructionView>,
    input: Seq<u8>,
    complete: bool,
    m: MachineView,
    budget: nat,
) -> (MachineView, Result<Status, RuntimeError>)
    decreases budget,
{
    if budget == 0 {
        (m, Ok(if m.halted(code) { Status::Halted } else { Status::Running }))
    } else {
        let (next, report) = step_of(code, input, complete, m);
        if report == Ok::<Status, RuntimeError>(Status::Running) {
            run_of(code, input, complete, next, (budget - 1) as nat)
        } else {
            (next, report)
        }
    }
}

/// A tape machine: the cells, the cell pointer and the instruction index,
/// how far the input was read, and what was written.
pub struct Machine {
    config: Configuration,
    tape: Vec<u8>,
    cell_index: usize,
    instruction_index: usize,
    consumed: usize,
    eof: bool,
    output: Vec<u8>,
}

impl View for Machine {
    type V = MachineView;

    closed spec fn view(&self) -> MachineView {
        MachineView {
            config: self.config,
            tape: self.tape@,
            cell_index: self.cell_index as nat,
            instruction_index: self.instruction_index as nat,
            consumed: self.consumed as nat,
            eof: self.eof,
            output: self.output@,
        }
    }
}

impl Machine {
    /// Every machine is sound, at every moment.
    #[verifier::type_invariant]
    spec fn always_sound(self) -> bool {
        self@.sound()
    }

    /// A machine before its first step, for a valid configuration; `None`
    /// for any other.
    pub fn new(config: Configuration) -> (machine: Option<Machine>)
        ensures
            match machine {
                Some(m) => config.valid() && m@ == MachineView::initial(config),
                None => !config.valid(),
            },
    {
        if !config.is_valid() {
            return None;
        }
        let mut tape: Vec<u8> = Vec::new();
        let mut filled: usize = 0;
        while filled < config.tape_length
            invariant
                filled <= config.tape_length,
                tape@ == Seq::new(filled as nat, |i: int| 0u8),
            decreases config.tape_length - filled,
        {
            tape.push(0);
            filled = filled + 1;
        }
        Some(
            Machine {
                config,
                tape,
                cell_index: 0,
                instruction_index: 0,
                consumed: 0,
                eof: false,
                output: Vec::new(),
            },
        )
    }

    /// The configuration that the machine runs under. It is valid.
    pub fn configuration(&self) -> (config: Configuration)
        ensures
            config == self@.config,
            self@.sound(),
    {
        proof {
            use_type_invariant(self);
        }
        self.config
    }

    /// The cells. There are as many as the configuration says.
    pub fn tape(&self) -> (tape: &Vec<u8>)
        ensures
            tape@ == self@.tape,
            self@.sound(),
    {
        proof {
            use_type_invariant(self);
        }
        &self.tape
    }

    /// The index of the current cell. It lies on the tape.
    pub fn cell_index(&self) -> (index: usize)
        ensures
            index == self@.cell_index,
            self@.sound(),
    {
        proof {
            use_type_invariant(self);
        }
        self.cell_index
    }

    /// The index of the instruction to execute next.
    pub fn instruction_index(&self) -> (index: usize)
        ensures
            index == self@.instruction_index,
    {
        self.instruction_index
    }

    /// The number of input bytes read so far.
    pub fn consumed(&self) -> (count: usize)
        ensures
            count == self@.consumed,
    {
        self.consumed
    }

    /// Whether a read has met the end of the input.
    pub fn input_ended(&self) -> (ended: bool)
        ensures
            ended == self@.eof,
    {
        self.eof
    }

    /// The bytes written and not yet taken.
    pub fn output(&self) -> (output: &Vec<u8>)
        ensures
            output@ == self@.output,
    {
        &self.output
    }

    /// Hands out the bytes written so far and starts collecting afresh.
    /// Nothing else about the machine changes.
    pub fn take_output(&mut self) -> (output: Vec<u8>)
        ensures
            output@ == old(self)@.output,
            final(self)@ == (MachineView { output: Seq::empty(), ..old(self)@ }),
    {
        proof {
            use_type_invariant(&*self);
        }
        let mut output: Vec<u8> = Vec::new();
        std::mem::swap(&mut self.output, &mut output);
        output
    }

    /// One read from the input.
    fn read(&mut self, input: &[u8])
        ensures
            final(self)@ == old(self)@.read(input@),
            final(self)@.sound(),
    {
        proof {
            use_type_invariant(&*self);
        }
        if !self.eof && self.consumed < input.len() {
            self.tape[self.cell_index] = input[self.consumed];
            self.consumed = self.consumed + 1;
        } else {
            self.tape[self.cell_index] = self.config.end_of_input(self.tape[self.cell_index]);
            self.eof = true;
        }
    }

    /// Executes the instruction at the instruction index.
    ///
    /// Does and reports exactly what [`step_of`] says. The machine stays
    /// sound under its configuration, and what it had written stays written.
    pub fn step(&mut self, instructions: &Vec<Instruction>, input: &[u8], complete: bool) -> (report:
        Result<Status, RuntimeError>)
        ensures
            (final(self)@, report) == step_of(
                listing(instructions@),
                input@,
                complete,
                old(self)@,
            ),
            final(self)@.sound(),
            final(self)@.config == old(self)@.config,
            old(self)@.output.is_prefix_of(final(self)@.output),
    {
        proof {
            use_type_invariant(&*self);
            law_step_keeps_machine_sound(listing(instructions@), input@, complete, self@);
            law_output_only_grows(listing(instructions@), input@, complete, self@);
        }
        let ghost before = self@;
        if self.instruction_index >= instructions.len() {
            return Ok(Status::Halted);
        }
        let instruction: Instruction = instructions[self.instruction_index];
        match instruction.kind {
            InstructionKind::ValueIncrement => {
                self.tape[self.cell_index] = self.config.raise(
                    self.tape[self.cell_index],
                    instruction.repeat,
                )?;
                self.instruction_index = self.instruction_index + 1;
            },
            InstructionKind::ValueDecrement => {
                self.tape[self.cell_index] = self.config.lower(
                    self.tape[self.cell_index],
                    instruction.repeat,
                )?;
                self.instruction_index = self.instruction_index + 1;
            },
            InstructionKind::PointerIncrement => {
                self.cell_index = self.config.advance(self.cell_index, instruction.repeat)?;
                self.instruction_index = self.instruction_index + 1;
            },
            InstructionKind::PointerDecrement => {
                self.cell_index = self.config.retreat(self.cell_index, instruction.repeat)?;
                self.instruction_index = self.instruction_index + 1;
            },
            InstructionKind::Input => {
                let available: usize = if self.consumed <= input.len() {
                    input.len() - self.consumed
                } else {
                    0
                };
                if !self.eof && !complete && available < instruction.repeat {
                    return Ok(Status::AwaitingInput);
                }
                let mut done: usize = 0;
                while done < instruction.repeat
                    invariant
                        done <= instruction.repeat,
                        self@.sound(),
                        self@.instruction_index == before.instruction_index,
                        self@.read_by(input@, (instruction.repeat - done) as nat) == before.read_by(
                            input@,
                            instruction.repeat as nat,
                        ),
                    decreases instruction.repeat - done,
                {
                    self.read(input);
                    done = done + 1;
                }
                self.instruction_index = self.instruction_index + 1;
            },
            InstructionKind::Output => {
                let value: u8 = self.tape[self.cell_index];
                let mut output: Vec<u8> = Vec::new();
                std::mem::swap(&mut self.output, &mut output);
                let mut done: usize = 0;
                while done < instruction.repeat
                    invariant
                        done <= instruction.repeat,
                        output@ == before.output + Seq::new(done as nat, |i: int| value),
                    decreases instruction.repeat - done,
                {
                    output.push(value);
                    done = done + 1;
                }
                self.output = output;
                self.instruction_index = self.instruction_index + 1;
            },
            InstructionKind::LoopStart => {
                if self.tape[self.cell_index] == 0 {
                    self.instruction_index = instruction.target;
                } else {
                    self.instruction_index = self.instruction_index + 1;
                }
            },
            InstructionKind::LoopEnd => {
                if self.tape[self.cell_index] != 0 {
                    self.instruction_index = instruction.target;
                } else {
                    self.instruction_index = self.instruction_index + 1;
                }
            },
        }
        Ok(Status::Running)
    }
}

/// Runs a machine for at most `budget` instructions.
///
/// `input` is all of the input that has arrived so far, and `complete` says
/// that no more will come. Does and reports exactly what [`run_of`] says:
/// `Halted` once the instruction index has left the list, `AwaitingInput`
/// where the next instruction reads more than has arrived, the error of the
/// instruction that aborted the run, or `Running` where the budget ended it.
/// The machine stays sound under its configuration, and what it had written
/// stays written.
pub fn execute(
    instructions: &Vec<Instruction>,
    machine: &mut Machine,
    input: &[u8],
    complete: bool,
    budget: usize,
) -> (report: Result<Status, RuntimeError>)
    ensures
        (final(machine)@, report) == run_of(
            listing(instructions@),
            input@,
            complete,
            old(machine)@,
            budget as nat,
        ),
        final(machine)@.sound(),
        final(machine)@.config == old(machine)@.config,
        old(machine)@.output.is_prefix_of(final(machine)@.output),
{
    proof {
        use_type_invariant(&*machine);
    }
    let mut left: usize = budget;
    while left > 0
        invariant
            machine@.sound(),
            old(machine)@.sound(),
            run_of(listing(instructions@), input@, complete, machine@, left as nat) == run_of(
                listing(instructions@),
                input@,
                complete,
                old(machine)@,
                budget as nat,
            ),
        decreases left,
    {
        let report = machine.step(instructions, input, complete);
        match report {
            Ok(Status::Running) => {
                left = left - 1;
            },
            _ => {
                proof {
                    law_run_keeps_machine_sound(
                        listing(instructions@),
                        input@,
                        complete,
                        old(machine)@,
                        budget as nat,
                    );
                }
                return report;
            },
        }
    }
    proof {
        law_run_keeps_machine_sound(
            listing(instructions@),
            input@,
            complete,
            old(machine)@,
            budget as nat,
        );
    }
    if machine.instruction_index >= instructions.len() {
        Ok(Status::Halted)
    } else {
        Ok(Status::Running)
    }
}

} // verus!
