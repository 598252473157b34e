//! What holds of every step and of every run of a machine.

use vstd::prelude::*;
use crate::config::{OverflowPolicy, RuntimeError};
use crate::instruction::{InstructionKind, InstructionView};
use crate::machine::{run_of, step_of, MachineView, Status};
use crate::policy_laws::law_only_the_error_policy_aborts;
use crate::program::{matched_at, partner, well_formed};

verus! {

/// Reads keep a machine sound, leave its configuration, its instruction index
/// and what it wrote alone, and never hand back a byte.
pub proof fn lemma_reads_keep_sound(m: MachineView, input: Seq<u8>, times: nat)
    requires
        m.sound(),
    ensures
        m.read_by(input, times).sound(),
        m.read_by(input, times).config == m.config,
        m.read_by(input, times).instruction_index == m.instruction_index,
        m.read_by(input, times).output == m.output,
        m.read_by(input, times).consumed >= m.consumed,
        m.eof ==> m.read_by(input, times).eof && m.read_by(input, times).consumed == m.consumed,
    decreases times,
{
    if times > 0 {
        lemma_reads_keep_sound(m.read(input), input, (times - 1) as nat);
    }
}

/// The tape always has the configured length and the cell pointer is always
/// on it, whatever the policies: a step of a sound machine gives a sound
/// machine under the same configuration.
pub proof fn law_step_keeps_machine_sound(
    code: Seq<InstructionView>,
    input: Seq<u8>,
    complete: bool,
    m: MachineView,
)
    requires
        m.sound(),
    ensures
        step_of(code, input, complete, m).0.sound(),
        step_of(code, input, complete, m).0.config == m.config,
{
    if !m.halted(code) {
        let instruction = code[m.instruction_index as int];
        m.config.lemma_pointer_stays_on_tape(m.cell_index, instruction.repeat);
        lemma_reads_keep_sound(m, input, instruction.repeat);
    }
}

/// The instruction index of a program never passes the end of the program:
/// from an index within `0..=code.len()` a step leads to one.
pub proof fn law_step_stays_in_program(
    code: Seq<InstructionView>,
    input: Seq<u8>,
    complete: bool,
    m: MachineView,
)
    requires
        well_formed(code),
        m.sound(),
        m.instruction_index <= code.len(),
    ensures
        step_of(code, input, complete, m).0.instruction_index <= code.len(),
{
    if !m.halted(code) {
        let instruction = code[m.instruction_index as int];
        assert(matched_at(code, m.instruction_index as int));
        lemma_reads_keep_sound(m, input, instruction.repeat);
    }
}

/// In a program a loop is skipped or repeated as a whole. A loop start on a
/// zero cell leads one past its loop end, so that nothing of the loop is
/// executed; on any other cell it leads into the loop. A loop end on a cell
/// that is not zero leads back to the first instruction of the loop; on a
/// zero cell it leads on. Neither changes anything but the instruction index.
pub proof fn law_loops_are_skipped_or_repeated(
    code: Seq<InstructionView>,
    input: Seq<u8>,
    complete: bool,
    m: MachineView,
)
    requires
        well_formed(code),
        m.instruction_index < code.len(),
        code[m.instruction_index as int].kind.is_loop_marker(),
    ensures
        step_of(code, input, complete, m) == (
            m.going_to(
                if code[m.instruction_index as int].kind == InstructionKind::LoopStart {
                    if m.cell() == 0 {
                        (partner(code, m.instruction_index as int) + 1) as nat
                    } else {
                        m.instruction_index + 1
                    }
                } else {
                    if m.cell() != 0 {
                        (partner(code, m.instruction_index as int) + 1) as nat
                    } else {
                        m.instruction_index + 1
                    }
                },
            ),
            Ok::<Status, RuntimeError>(Status::Running),
        ),
        code[m.instruction_index as int].kind == InstructionKind::LoopStart ==> m.instruction_index
            < partner(code, m.instruction_index as int) < code.len(),
        code[m.instruction_index as int].kind == InstructionKind::LoopEnd ==> 0 <= partner(
            code,
            m.instruction_index as int,
        ) < m.instruction_index,
{
    assert(matched_at(code, m.instruction_index as int));
}

/// The input does not come back once it has ended: after a read has met its
/// end, every step leaves the machine at the end of the input, and no step
/// consumes another byte. Before that, a step never hands a byte back.
pub proof fn law_end_of_input_is_final(
    code: Seq<InstructionView>,
    input: Seq<u8>,
    complete: bool,
    m: MachineView,
)
    requires
        m.sound(),
    ensures
        step_of(code, input, complete, m).0.consumed >= m.consumed,
        m.eof ==> {
            &&& step_of(code, input, complete, m).0.eof
            &&& step_of(code, input, complete, m).0.consumed == m.consumed
        },
{
    if !m.halted(code) {
        let instruction = code[m.instruction_index as int];
        lemma_reads_keep_sound(m, input, instruction.repeat);
    }
}

/// What was written stays written: the output before a step is the beginning
/// of the output after it, and a step that does not execute an `Output`
/// instruction writes nothing.
pub proof fn law_output_only_grows(
    code: Seq<InstructionView>,
    input: Seq<u8>,
    complete: bool,
    m: MachineView,
)
    requires
        m.sound(),
    ensures
        m.output.is_prefix_of(step_of(code, input, complete, m).0.output),
        m.halted(code) || code[m.instruction_index as int].kind != InstructionKind::Output
            ==> step_of(code, input, complete, m).0.output == m.output,
{
    if !m.halted(code) {
        let instruction = code[m.instruction_index as int];
        lemma_reads_keep_sound(m, input, instruction.repeat);
    }
}

/// A step is aborted by a value error only under the value policy `Error`,
/// and by a pointer error only under the pointer policy `Error`. Under any
/// other pair of policies no step, and so no run, is ever aborted.
pub proof fn law_steps_abort_under_the_error_policy_only(
    code: Seq<InstructionView>,
    input: Seq<u8>,
    complete: bool,
    m: MachineView,
)
    ensures
        step_of(code, input, complete, m).1 matches Err(error) ==> {
            &&& error == RuntimeError::ValueOverflow || error == RuntimeError::ValueUnderflow
                ==> m.config.value_overflow_policy == OverflowPolicy::Error
            &&& error == RuntimeError::PointerOverflow || error == RuntimeError::PointerUnderflow
                ==> m.config.pointer_overflow_policy == OverflowPolicy::Error
        },
{
    if !m.halted(code) {
        let instruction = code[m.instruction_index as int];
        law_only_the_error_policy_aborts(m.config, m.cell(), m.cell_index, instruction.repeat);
    }
}

/// A machine that has halted stays as it is, however long it is run.
pub proof fn lemma_halted_machine_rests(
    code: Seq<InstructionView>,
    input: Seq<u8>,
    complete: bool,
    m: MachineView,
    budget: nat,
)
    requires
        m.halted(code),
    ensures
        run_of(code, input, complete, m, budget) == (m, Ok::<Status, RuntimeError>(Status::Halted)),
{
}

/// A run may be made in parts: running for `first` steps and then, if only
/// the budget ended that, for `second` more, is running for `first + second`
/// steps at once.
pub proof fn law_run_in_parts(
    code: Seq<InstructionView>,
    input: Seq<u8>,
    complete: bool,
    m: MachineView,
    first: nat,
    second: nat,
)
    ensures
        run_of(code, input, complete, m, first + second) == {
            let (between, report) = run_of(code, input, complete, m, first);
            if report == Ok::<Status, RuntimeError>(Status::Running) {
                run_of(code, input, complete, between, second)
            } else {
                (between, report)
            }
        },
    decreases first,
{
    if first == 0 {
        if m.halted(code) {
            lemma_halted_machine_rests(code, input, complete, m, second);
        }
    } else {
        let (next, report) = step_of(code, input, complete, m);
        if report == Ok::<Status, RuntimeError>(Status::Running) {
            law_run_in_parts(code, input, complete, next, (first - 1) as nat, second);
        }
    }
}

/// The budget decides how far a run goes and nothing else: a run that ended
/// for another reason than its budget ends in the same way under any larger
/// budget.
pub proof fn law_larger_budget_changes_no_end(
    code: Seq<InstructionView>,
    input: Seq<u8>,
    complete: bool,
    m: MachineView,
    budget: nat,
    larger: nat,
)
    requires
        budget <= larger,
        run_of(code, input, complete, m, budget).1 != Ok::<Status, RuntimeError>(Status::Running),
    ensures
        run_of(code, input, complete, m, larger) == run_of(code, input, complete, m, budget),
{
    law_run_in_parts(code, input, complete, m, budget, (larger - budget) as nat);
}

/// Every run keeps what every step keeps: the machine stays sound under its
/// configuration, what was written stays written, no byte is handed back, and
/// the instruction index of a program stays within `0..=code.len()`.
pub proof fn law_run_keeps_machine_sound(
    code: Seq<InstructionView>,
    input: Seq<u8>,
    complete: bool,
    m: MachineView,
    budget: nat,
)
    requires
        m.sound(),
    ensures
        run_of(code, input, complete, m, budget).0.sound(),
        run_of(code, input, complete, m, budget).0.config == m.config,
        m.output.is_prefix_of(run_of(code, input, complete, m, budget).0.output),
        run_of(code, input, complete, m, budget).0.consumed >= m.consumed,
        m.eof ==> run_of(code, input, complete, m, budget).0.eof,
        well_formed(code) && m.instruction_index <= code.len() ==> run_of(
            code,
            input,
            complete,
            m,
            budget,
        ).0.instruction_index <= code.len(),
    decreases budget,
{
    if budget > 0 {
        let (next, report) = step_of(code, input, complete, m);
        law_step_keeps_machine_sound(code, input, complete, m);
        law_end_of_input_is_final(code, input, complete, m);
        law_output_only_grows(code, input, complete, m);
        if well_formed(code) && m.instruction_index <= code.len() {
            law_step_stays_in_program(code, input, complete, m);
        }
        if report == Ok::<Status, RuntimeError>(Status::Running) {
            law_run_keeps_machine_sound(code, input, complete, next, (budget - 1) as nat);
        }
    }
}

/// Reads that find their bytes, or come after the end of the input, do not
/// depend on what arrives later.
pub proof fn lemma_later_input_changes_no_read(
    m: MachineView,
    early: Seq<u8>,
    late: Seq<u8>,
    times: nat,
)
    requires
        early.is_prefix_of(late),
        m.eof || m.available(early) >= times,
    ensures
        m.read_by(late, times) == m.read_by(early, times),
    decreases times,
{
    if times > 0 {
        lemma_later_input_changes_no_read(m.read(early), early, late, (times - 1) as nat);
    }
}

/// Waiting is all that missing input can cause: a step that did not have to
/// wait, taken while more input could still come, is the step that is taken
/// once more input has come, whether or not that is all of it.
pub proof fn law_later_input_changes_no_step(
    code: Seq<InstructionView>,
    early: Seq<u8>,
    late: Seq<u8>,
    complete: bool,
    m: MachineView,
)
    requires
        early.is_prefix_of(late),
        step_of(code, early, false, m).1 != Ok::<Status, RuntimeError>(Status::AwaitingInput),
    ensures
        step_of(code, late, complete, m) == step_of(code, early, false, m),
{
    if !m.halted(code) {
        let instruction = code[m.instruction_index as int];
        if instruction.kind == InstructionKind::Input {
            lemma_later_input_changes_no_read(m, early, late, instruction.repeat);
        }
    }
}

/// The same of a whole run: a run that did not end waiting, made while more
/// input could still come, is the run that is made once more input has come.
pub proof fn law_later_input_changes_no_run(
    code: Seq<InstructionView>,
    early: Seq<u8>,
    late: Seq<u8>,
    complete: bool,
    m: MachineView,
    budget: nat,
)
    requires
        early.is_prefix_of(late),
        run_of(code, early, false, m, budget).1 != Ok::<Status, RuntimeError>(
            Status::AwaitingInput,
        ),
    ensures
        run_of(code, late, complete, m, budget) == run_of(code, early, false, m, budget),
    decreases budget,
{
    if budget > 0 {
        let (next, report) = step_of(code, early, false, m);
        law_later_input_changes_no_step(code, early, late, complete, m);
        if report == Ok::<Status, RuntimeError>(Status::Running) {
            law_later_input_changes_no_run(code, early, late, complete, next, (budget - 1) as nat);
        }
    }
}

} // verus!
