use tape_machine::{
    execute, preprocess, Configuration, EofPolicy, Instruction, InstructionKind, Machine,
    OverflowPolicy, RuntimeError, Status,
};

const PLENTY: usize = 1_000_000;

fn small() -> Configuration {
    Configuration { tape_length: 4, ..Configuration::default() }
}

fn machine(config: Configuration) -> Machine {
    Machine::new(config).expect("a valid configuration")
}

/// Compiles and runs `source` to the end on the whole of `input`.
fn run(source: &str, config: Configuration, input: &[u8]) -> (Machine, Result<Status, RuntimeError>) {
    let program = preprocess(source).expect("a balanced text");
    let mut m = machine(config);
    let report = execute(&program, &mut m, input, true, PLENTY);
    (m, report)
}

#[test]
fn a_new_machine_is_blank() {
    let m = machine(small());
    assert_eq!(m.tape(), &vec![0u8; 4]);
    assert_eq!(m.cell_index(), 0);
    assert_eq!(m.instruction_index(), 0);
    assert_eq!(m.consumed(), 0);
    assert!(!m.input_ended());
    assert!(m.output().is_empty());
    assert_eq!(m.configuration(), small());
}

#[test]
fn the_default_tape_has_thirty_thousand_cells() {
    let m = machine(Configuration::default());
    assert_eq!(m.tape().len(), 30000);
    assert!(m.tape().iter().all(|cell| *cell == 0));
}

#[test]
fn an_invalid_configuration_gives_no_machine() {
    assert!(Machine::new(Configuration { tape_length: 0, ..Configuration::default() }).is_none());
    assert!(Machine::new(Configuration { min_value: 9, max_value: 8, ..Configuration::default() })
        .is_none());
}

#[test]
fn the_empty_program_halts_at_once() {
    let (m, report) = run("", small(), b"");
    assert_eq!(report, Ok(Status::Halted));
    assert_eq!(m.instruction_index(), 0);
    assert_eq!(m.tape(), &vec![0u8; 4]);
}

#[test]
fn values_and_pointer_move() {
    let (m, report) = run("+++>++>+<<-", small(), b"");
    assert_eq!(report, Ok(Status::Halted));
    assert_eq!(m.tape(), &vec![2u8, 2, 1, 0]);
    assert_eq!(m.cell_index(), 0);
    assert_eq!(m.instruction_index(), 7);
}

#[test]
fn two_hundred_and_fifty_six_increments_wrap_to_zero() {
    let source = "+".repeat(255);
    let (m, _) = run(&source, small(), b"");
    assert_eq!(m.tape()[0], 255);
    let source = "+".repeat(256);
    let (m, report) = run(&source, small(), b"");
    assert_eq!(report, Ok(Status::Halted));
    assert_eq!(m.tape()[0], 0);
}

#[test]
fn a_value_error_aborts_the_run() {
    let config = Configuration { value_overflow_policy: OverflowPolicy::Error, ..small() };
    let (m, report) = run("+.-.-.", config, b"");
    assert_eq!(report, Err(RuntimeError::ValueUnderflow));
    assert_eq!(m.output(), &vec![1u8, 0]);
    assert_eq!(m.instruction_index(), 4);
    assert_eq!(m.tape()[0], 0);

    let config = Configuration { max_value: 2, ..config };
    let (m, report) = run("++.+.", config, b"");
    assert_eq!(report, Err(RuntimeError::ValueOverflow));
    assert_eq!(m.output(), &vec![2u8]);
}

#[test]
fn an_overflow_inside_a_run_leaves_the_cell_as_it_was() {
    let config =
        Configuration { max_value: 5, value_overflow_policy: OverflowPolicy::Error, ..small() };
    let program = preprocess("+++>++++++").expect("balanced");
    let mut m = machine(config);
    assert_eq!(execute(&program, &mut m, b"", true, PLENTY), Err(RuntimeError::ValueOverflow));
    assert_eq!(m.tape(), &vec![3u8, 0, 0, 0]);
    assert_eq!(m.cell_index(), 1);
    assert_eq!(m.instruction_index(), 2);
}

#[test]
fn the_pointer_cannot_leave_a_tape_of_one_cell() {
    let config = Configuration {
        tape_length: 1,
        pointer_overflow_policy: OverflowPolicy::Error,
        ..Configuration::default()
    };
    let (m, report) = run(">", config, b"");
    assert_eq!(report, Err(RuntimeError::PointerOverflow));
    assert_eq!(m.cell_index(), 0);
    assert_eq!(m.instruction_index(), 0);
    let (_, report) = run("<", config, b"");
    assert_eq!(report, Err(RuntimeError::PointerUnderflow));
}

#[test]
fn the_pointer_wraps_at_both_ends() {
    let (m, _) = run("<+", small(), b"");
    assert_eq!(m.cell_index(), 3);
    assert_eq!(m.tape(), &vec![0u8, 0, 0, 1]);
    let (m, _) = run(">>>>+", small(), b"");
    assert_eq!(m.cell_index(), 0);
    assert_eq!(m.tape(), &vec![1u8, 0, 0, 0]);
}

#[test]
fn the_pointer_stays_at_the_ends_when_told_to() {
    let config = Configuration { pointer_overflow_policy: OverflowPolicy::Ignore, ..small() };
    let (m, report) = run("<<+>>>>>>+", config, b"");
    assert_eq!(report, Ok(Status::Halted));
    assert_eq!(m.tape(), &vec![1u8, 0, 0, 1]);
    assert_eq!(m.cell_index(), 3);
}

#[test]
fn reading_nothing_stores_zero() {
    let config = Configuration { eof_policy: EofPolicy::Zero, ..small() };
    let (m, report) = run("+++,.", config, b"");
    assert_eq!(report, Ok(Status::Halted));
    assert_eq!(m.output(), &vec![0u8]);
    assert!(m.input_ended());
    assert_eq!(m.consumed(), 0);
}

#[test]
fn input_then_output_on_empty_input_emits_zero() {
    let (m, report) = run(",.", Configuration::default(), b"");
    assert_eq!(report, Ok(Status::Halted));
    assert_eq!(m.output(), &vec![0u8]);
}

#[test]
fn each_end_of_input_policy() {
    let base = Configuration { min_value: 2, max_value: 9, ..small() };
    let stored = |eof_policy| {
        let (m, _) = run("+++++,", Configuration { eof_policy, ..base }, b"");
        m.tape()[0]
    };
    assert_eq!(stored(EofPolicy::Zero), 0);
    assert_eq!(stored(EofPolicy::Minimum), 2);
    assert_eq!(stored(EofPolicy::Maximum), 9);
    assert_eq!(stored(EofPolicy::NegativeOne), 255);
    assert_eq!(stored(EofPolicy::NoChange), 5);
}

#[test]
fn input_is_read_byte_by_byte() {
    let (m, report) = run(",.>,.>,.", small(), b"abc");
    assert_eq!(report, Ok(Status::Halted));
    assert_eq!(m.output(), &b"abc".to_vec());
    assert_eq!(m.tape(), &vec![b'a', b'b', b'c', 0]);
    assert_eq!(m.consumed(), 3);
    assert!(!m.input_ended());
}

#[test]
fn a_merged_read_keeps_the_last_byte() {
    let (m, _) = run(",,,", small(), b"xyz!");
    assert_eq!(m.tape()[0], b'z');
    assert_eq!(m.consumed(), 3);
}

#[test]
fn a_merged_read_meets_the_end_part_way() {
    let config = Configuration { eof_policy: EofPolicy::NoChange, ..small() };
    let (m, _) = run(",,,", config, b"xy");
    assert_eq!(m.tape()[0], b'y');
    assert_eq!(m.consumed(), 2);
    assert!(m.input_ended());

    let config = Configuration { eof_policy: EofPolicy::Maximum, ..small() };
    let (m, _) = run(",,,", config, b"xy");
    assert_eq!(m.tape()[0], 255);
}

#[test]
fn the_echo_program_copies_its_input() {
    let (m, report) = run(",[.,]", small(), b"hello");
    assert_eq!(report, Ok(Status::Halted));
    assert_eq!(m.output(), &b"hello".to_vec());
}

#[test]
fn a_merged_output_repeats_the_cell() {
    let (m, _) = run("+++...", small(), b"");
    assert_eq!(m.output(), &vec![3u8, 3, 3]);
}

#[test]
fn eight_times_eight_is_an_at_sign() {
    let config = Configuration { tape_length: 2, ..Configuration::default() };
    let (m, report) = run("++++++++[>++++++++<-]>.", config, b"");
    assert_eq!(report, Ok(Status::Halted));
    assert_eq!(m.tape(), &vec![0u8, 64]);
    assert_eq!(m.output(), &vec![64u8]);
    assert_eq!(m.output()[0] as char, '@');

    let (m, report) = run("++++++++[>++++++++<-]>.", Configuration::default(), b"");
    assert_eq!(report, Ok(Status::Halted));
    assert_eq!(m.tape()[1], 64);
    assert_eq!(m.output(), &vec![64u8]);
}

#[test]
fn a_loop_on_a_zero_cell_is_skipped() {
    let program = preprocess("[]").expect("balanced");
    let mut m = machine(small());
    assert_eq!(m.step(&program, b"", true), Ok(Status::Running));
    assert_eq!(m.instruction_index(), 2);
    assert_eq!(m.step(&program, b"", true), Ok(Status::Halted));

    let (m, report) = run("[+.>+.]", small(), b"");
    assert_eq!(report, Ok(Status::Halted));
    assert!(m.output().is_empty());
    assert_eq!(m.tape(), &vec![0u8; 4]);
    assert_eq!(m.instruction_index(), 7);
}

#[test]
fn an_increment_that_leaves_zero_lets_the_loop_be_skipped() {
    let config = Configuration { max_value: 0, ..small() };
    let (m, report) = run("+[]", config, b"");
    assert_eq!(report, Ok(Status::Halted));
    assert_eq!(m.tape()[0], 0);
    assert_eq!(m.instruction_index(), 3);
}

#[test]
fn an_empty_loop_on_a_cell_that_is_not_zero_never_ends() {
    let program = preprocess("+[]").expect("balanced");
    let mut m = machine(small());
    assert_eq!(execute(&program, &mut m, b"", true, 10_000), Ok(Status::Running));
    assert_eq!(m.tape()[0], 1);
    assert!(m.instruction_index() == 1 || m.instruction_index() == 2);
}

#[test]
fn a_loop_runs_until_its_cell_is_zero() {
    let (m, report) = run("+++[>++<-]", small(), b"");
    assert_eq!(report, Ok(Status::Halted));
    assert_eq!(m.tape(), &vec![0u8, 6, 0, 0]);
}

#[test]
fn nested_loops() {
    let (m, report) = run("++[>+++[>++++<-]<-]", small(), b"");
    assert_eq!(report, Ok(Status::Halted));
    assert_eq!(m.tape(), &vec![0u8, 0, 24, 0]);
}

#[test]
fn one_step_at_a_time() {
    let program = preprocess("++>.").expect("balanced");
    let mut m = machine(small());
    assert_eq!(m.step(&program, b"", true), Ok(Status::Running));
    assert_eq!((m.tape()[0], m.cell_index(), m.instruction_index()), (2, 0, 1));
    assert_eq!(m.step(&program, b"", true), Ok(Status::Running));
    assert_eq!((m.cell_index(), m.instruction_index()), (1, 2));
    assert_eq!(m.step(&program, b"", true), Ok(Status::Running));
    assert_eq!(m.output(), &vec![0u8]);
    assert_eq!(m.instruction_index(), 3);
    assert_eq!(m.step(&program, b"", true), Ok(Status::Halted));
    assert_eq!(m.step(&program, b"", true), Ok(Status::Halted));
    assert_eq!(m.instruction_index(), 3);
}

#[test]
fn a_budget_of_nothing_does_nothing() {
    let program = preprocess("+").expect("balanced");
    let mut m = machine(small());
    assert_eq!(execute(&program, &mut m, b"", true, 0), Ok(Status::Running));
    assert_eq!(m.tape()[0], 0);
    assert_eq!(execute(&program, &mut m, b"", true, 1), Ok(Status::Halted));
    assert_eq!(m.tape()[0], 1);
    assert_eq!(execute(&program, &mut m, b"", true, 0), Ok(Status::Halted));
}

#[test]
fn a_run_in_parts_is_the_run_at_once() {
    let program = preprocess("++++++++[>++++++++<-]>.,.").expect("balanced");
    let mut whole = machine(small());
    let report = execute(&program, &mut whole, b"!", true, PLENTY);
    for part in [1usize, 2, 3, 7, 50] {
        let mut m = machine(small());
        let mut last = execute(&program, &mut m, b"!", true, part);
        while last == Ok(Status::Running) {
            last = execute(&program, &mut m, b"!", true, part);
        }
        assert_eq!(last, report);
        assert_eq!(m.tape(), whole.tape());
        assert_eq!(m.output(), whole.output());
        assert_eq!(m.cell_index(), whole.cell_index());
        assert_eq!(m.instruction_index(), whole.instruction_index());
        assert_eq!(m.consumed(), whole.consumed());
    }
}

#[test]
fn a_read_waits_for_input_that_may_still_come() {
    let program = preprocess("+.,.").expect("balanced");
    let mut m = machine(small());
    assert_eq!(execute(&program, &mut m, b"", false, PLENTY), Ok(Status::AwaitingInput));
    assert_eq!(m.output(), &vec![1u8]);
    assert_eq!(m.instruction_index(), 2);
    assert_eq!(m.tape()[0], 1);
    assert_eq!(execute(&program, &mut m, b"", false, PLENTY), Ok(Status::AwaitingInput));
    assert_eq!(execute(&program, &mut m, b"k", false, PLENTY), Ok(Status::Halted));
    assert_eq!(m.output(), &vec![1u8, b'k']);
}

#[test]
fn a_merged_read_waits_for_all_of_its_bytes() {
    let program = preprocess(",,,").expect("balanced");
    let mut m = machine(small());
    assert_eq!(m.step(&program, b"ab", false), Ok(Status::AwaitingInput));
    assert_eq!(m.consumed(), 0);
    assert_eq!(m.tape()[0], 0);
    assert_eq!(m.step(&program, b"abc", false), Ok(Status::Running));
    assert_eq!(m.consumed(), 3);
    assert_eq!(m.tape()[0], b'c');
}

#[test]
fn a_waiting_read_gives_up_when_the_input_is_complete() {
    let program = preprocess(",,,").expect("balanced");
    let mut m = machine(Configuration { eof_policy: EofPolicy::NoChange, ..small() });
    assert_eq!(m.step(&program, b"ab", false), Ok(Status::AwaitingInput));
    assert_eq!(m.step(&program, b"ab", true), Ok(Status::Running));
    assert_eq!(m.tape()[0], b'b');
    assert!(m.input_ended());
}

#[test]
fn the_input_does_not_come_back_after_its_end() {
    let program = preprocess(",>,>,").expect("balanced");
    let mut m = machine(Configuration { eof_policy: EofPolicy::Maximum, ..small() });
    assert_eq!(execute(&program, &mut m, b"a", true, 3), Ok(Status::Running));
    assert!(m.input_ended());
    assert_eq!(m.tape(), &vec![b'a', 255, 0, 0]);
    assert_eq!(execute(&program, &mut m, b"abc", false, PLENTY), Ok(Status::Halted));
    assert_eq!(m.tape(), &vec![b'a', 255, 255, 0]);
    assert_eq!(m.consumed(), 1);
}

#[test]
fn taking_the_output_empties_it() {
    let program = preprocess("+.+.+.").expect("balanced");
    let mut m = machine(small());
    assert_eq!(execute(&program, &mut m, b"", true, 4), Ok(Status::Running));
    assert_eq!(m.take_output(), vec![1u8, 2]);
    assert!(m.output().is_empty());
    assert_eq!(m.tape()[0], 2);
    assert_eq!(execute(&program, &mut m, b"", true, PLENTY), Ok(Status::Halted));
    assert_eq!(m.take_output(), vec![3u8]);
}

#[test]
fn the_tape_keeps_its_length() {
    let (m, _) = run(">>>>>>>>+<<<<<<<<<<<-[>+<-]", small(), b"");
    assert_eq!(m.tape().len(), 4);
    assert!(m.cell_index() < 4);
}

#[test]
fn a_jump_out_of_the_list_halts() {
    let program = vec![
        Instruction { kind: InstructionKind::LoopStart, repeat: 1, target: 40 },
        Instruction { kind: InstructionKind::ValueIncrement, repeat: 1, target: 0 },
    ];
    let mut m = machine(small());
    assert_eq!(execute(&program, &mut m, b"", true, PLENTY), Ok(Status::Halted));
    assert_eq!(m.instruction_index(), 40);
    assert_eq!(m.tape()[0], 0);
}

#[test]
fn input_that_comes_later_changes_nothing_done() {
    let program = preprocess(",.>,.>,.").expect("balanced");
    let mut early = machine(small());
    assert_eq!(execute(&program, &mut early, b"ab", false, 5), Ok(Status::Running));
    let mut late = machine(small());
    assert_eq!(execute(&program, &mut late, b"abcd", true, 5), Ok(Status::Running));
    assert_eq!(early.tape(), late.tape());
    assert_eq!(early.output(), late.output());
    assert_eq!(early.consumed(), late.consumed());
    assert_eq!(early.instruction_index(), late.instruction_index());
    assert_eq!(early.input_ended(), late.input_ended());
}

#[test]
fn the_instruction_index_of_a_program_stays_within_it() {
    let program = preprocess("++[>+[-]<-]>[[]]").expect("balanced");
    let mut m = machine(small());
    loop {
        assert!(m.instruction_index() <= program.len());
        if m.step(&program, b"", true) != Ok(Status::Running) {
            break;
        }
    }
    assert_eq!(m.instruction_index(), program.len());
}

#[test]
fn what_was_written_stays_written() {
    let program = preprocess("+.+.[-].,.").expect("balanced");
    let mut m = machine(small());
    let mut written: Vec<u8> = Vec::new();
    while m.step(&program, b"", true) == Ok(Status::Running) {
        assert!(m.output().starts_with(&written));
        written = m.output().clone();
    }
    assert_eq!(written, vec![1u8, 2, 0, 0]);
}
