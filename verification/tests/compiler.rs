use tape_machine::{preprocess, variant_eq, Instruction, InstructionKind, SyntaxError};

fn counted(kind: InstructionKind, repeat: usize) -> Instruction {
    Instruction { kind, repeat, target: 0 }
}

fn marker(kind: InstructionKind, target: usize) -> Instruction {
    Instruction { kind, repeat: 1, target }
}

fn operator_count(source: &str) -> usize {
    source.chars().filter(|c| "+-<>.,[]".contains(*c)).count()
}

#[test]
fn empty_text_compiles_to_nothing() {
    assert_eq!(preprocess(""), Ok(vec![]));
}

#[test]
fn each_operator_has_its_kind() {
    assert_eq!(preprocess("+"), Ok(vec![counted(InstructionKind::ValueIncrement, 1)]));
    assert_eq!(preprocess("-"), Ok(vec![counted(InstructionKind::ValueDecrement, 1)]));
    assert_eq!(preprocess(">"), Ok(vec![counted(InstructionKind::PointerIncrement, 1)]));
    assert_eq!(preprocess("<"), Ok(vec![counted(InstructionKind::PointerDecrement, 1)]));
    assert_eq!(preprocess("."), Ok(vec![counted(InstructionKind::Output, 1)]));
    assert_eq!(preprocess(","), Ok(vec![counted(InstructionKind::Input, 1)]));
}

#[test]
fn a_run_becomes_one_instruction() {
    assert_eq!(preprocess("+++"), Ok(vec![counted(InstructionKind::ValueIncrement, 3)]));
}

#[test]
fn different_operators_stay_apart() {
    assert_eq!(
        preprocess("+>+"),
        Ok(vec![
            counted(InstructionKind::ValueIncrement, 1),
            counted(InstructionKind::PointerIncrement, 1),
            counted(InstructionKind::ValueIncrement, 1),
        ])
    );
}

#[test]
fn every_countable_kind_is_merged() {
    assert_eq!(
        preprocess("--<<<>>,,,,.."),
        Ok(vec![
            counted(InstructionKind::ValueDecrement, 2),
            counted(InstructionKind::PointerDecrement, 3),
            counted(InstructionKind::PointerIncrement, 2),
            counted(InstructionKind::Input, 4),
            counted(InstructionKind::Output, 2),
        ])
    );
}

#[test]
fn commentary_is_skipped_and_does_not_end_a_run() {
    assert_eq!(
        preprocess("add + one\n+ and another +\r\n"),
        Ok(vec![counted(InstructionKind::ValueIncrement, 3)])
    );
    assert_eq!(preprocess("no operators here\n"), Ok(vec![]));
    assert_eq!(preprocess("\u{e9}+\u{4e16}+"), Ok(vec![counted(InstructionKind::ValueIncrement, 2)]));
}

#[test]
fn a_loop_is_resolved_in_both_directions() {
    assert_eq!(
        preprocess("[-]"),
        Ok(vec![
            marker(InstructionKind::LoopStart, 3),
            counted(InstructionKind::ValueDecrement, 1),
            marker(InstructionKind::LoopEnd, 1),
        ])
    );
}

#[test]
fn brackets_are_never_merged() {
    assert_eq!(
        preprocess("[[]]"),
        Ok(vec![
            marker(InstructionKind::LoopStart, 4),
            marker(InstructionKind::LoopStart, 3),
            marker(InstructionKind::LoopEnd, 2),
            marker(InstructionKind::LoopEnd, 1),
        ])
    );
    assert_eq!(
        preprocess("[][]"),
        Ok(vec![
            marker(InstructionKind::LoopStart, 2),
            marker(InstructionKind::LoopEnd, 1),
            marker(InstructionKind::LoopStart, 4),
            marker(InstructionKind::LoopEnd, 3),
        ])
    );
}

#[test]
fn runs_on_both_sides_of_a_bracket_stay_apart() {
    assert_eq!(
        preprocess("++[++]++"),
        Ok(vec![
            counted(InstructionKind::ValueIncrement, 2),
            marker(InstructionKind::LoopStart, 4),
            counted(InstructionKind::ValueIncrement, 2),
            marker(InstructionKind::LoopEnd, 2),
            counted(InstructionKind::ValueIncrement, 2),
        ])
    );
}

#[test]
fn the_multiplication_program_compiles() {
    assert_eq!(
        preprocess("++++++++[>++++++++<-]>."),
        Ok(vec![
            counted(InstructionKind::ValueIncrement, 8),
            marker(InstructionKind::LoopStart, 7),
            counted(InstructionKind::PointerIncrement, 1),
            counted(InstructionKind::ValueIncrement, 8),
            counted(InstructionKind::PointerDecrement, 1),
            counted(InstructionKind::ValueDecrement, 1),
            marker(InstructionKind::LoopEnd, 2),
            counted(InstructionKind::PointerIncrement, 1),
            counted(InstructionKind::Output, 1),
        ])
    );
}

#[test]
fn a_close_without_an_open_is_rejected() {
    assert_eq!(preprocess("]"), Err(SyntaxError::UnmatchedClose));
    assert_eq!(preprocess("+]+"), Err(SyntaxError::UnmatchedClose));
    assert_eq!(preprocess("[]]"), Err(SyntaxError::UnmatchedClose));
    assert_eq!(preprocess("[+]-]["), Err(SyntaxError::UnmatchedClose));
}

#[test]
fn an_open_without_a_close_is_rejected() {
    assert_eq!(preprocess("["), Err(SyntaxError::UnmatchedOpen));
    assert_eq!(preprocess("[[]"), Err(SyntaxError::UnmatchedOpen));
    assert_eq!(preprocess("+[>+[-]"), Err(SyntaxError::UnmatchedOpen));
}

#[test]
fn the_first_violation_decides_the_error() {
    assert_eq!(preprocess("]["), Err(SyntaxError::UnmatchedClose));
    assert_eq!(preprocess("[]]["), Err(SyntaxError::UnmatchedClose));
    assert_eq!(preprocess("[[]"), Err(SyntaxError::UnmatchedOpen));
}

#[test]
fn balanced_texts_compile_to_no_more_instructions_than_operators() {
    let sources = [
        "",
        "+",
        "+++",
        "+>+",
        "[]",
        "[[][]]",
        "++++++++[>++++++++<-]>.",
        ",[.,]",
        "a[b]c+d+e",
        ">>>><<<<++--..,,",
    ];
    for source in sources {
        let instructions = preprocess(source).expect("balanced");
        assert!(instructions.len() <= operator_count(source));
    }
}

#[test]
fn a_program_spells_the_operators_of_its_text() {
    let source = "++[>,,.<-]  >>..[[-]<]";
    let instructions = preprocess(source).expect("balanced");
    let mut spelled = String::new();
    for instruction in &instructions {
        let operator = match instruction.kind {
            InstructionKind::ValueIncrement => '+',
            InstructionKind::ValueDecrement => '-',
            InstructionKind::PointerIncrement => '>',
            InstructionKind::PointerDecrement => '<',
            InstructionKind::Input => ',',
            InstructionKind::Output => '.',
            InstructionKind::LoopStart => '[',
            InstructionKind::LoopEnd => ']',
        };
        for _ in 0..instruction.repeat {
            spelled.push(operator);
        }
    }
    let operators: String = source.chars().filter(|c| "+-<>.,[]".contains(*c)).collect();
    assert_eq!(spelled, operators);
}

#[test]
fn loop_markers_of_a_program_pair_up() {
    let instructions = preprocess("+[>[-]<[>+<-]]>[[.]]").expect("balanced");
    for (i, instruction) in instructions.iter().enumerate() {
        assert!(instruction.repeat >= 1);
        match instruction.kind {
            InstructionKind::LoopStart => {
                assert_eq!(instruction.repeat, 1);
                let end = instruction.target - 1;
                assert!(i < end && end < instructions.len());
                assert_eq!(instructions[end].kind, InstructionKind::LoopEnd);
                assert_eq!(instructions[end].target, i + 1);
            }
            InstructionKind::LoopEnd => {
                assert_eq!(instruction.repeat, 1);
                let start = instruction.target - 1;
                assert!(start < i);
                assert_eq!(instructions[start].kind, InstructionKind::LoopStart);
                assert_eq!(instructions[start].target, i + 1);
            }
            _ => {
                if i > 0 {
                    assert_ne!(instructions[i - 1].kind, instruction.kind);
                }
            }
        }
    }
}

#[test]
fn a_long_run_is_counted_in_full() {
    let source = "+".repeat(100_000);
    assert_eq!(preprocess(&source), Ok(vec![counted(InstructionKind::ValueIncrement, 100_000)]));
}

#[test]
fn inc_counts_one_more() {
    let mut instruction = Instruction::new(InstructionKind::Output);
    assert_eq!(instruction, counted(InstructionKind::Output, 1));
    instruction.inc();
    instruction.inc();
    assert_eq!(instruction, counted(InstructionKind::Output, 3));
}

#[test]
fn inc_leaves_loop_markers_alone() {
    let mut start = marker(InstructionKind::LoopStart, 7);
    start.inc();
    assert_eq!(start, marker(InstructionKind::LoopStart, 7));
    let mut end = marker(InstructionKind::LoopEnd, 2);
    end.inc();
    assert_eq!(end, marker(InstructionKind::LoopEnd, 2));
}

#[test]
fn variant_eq_compares_kinds_only() {
    let a = Instruction { kind: InstructionKind::ValueIncrement, repeat: 1, target: 0 };
    let b = Instruction { kind: InstructionKind::ValueIncrement, repeat: 9, target: 4 };
    let c = Instruction { kind: InstructionKind::ValueDecrement, repeat: 1, target: 0 };
    assert!(variant_eq(&a, &b));
    assert!(!variant_eq(&a, &c));
    assert!(!variant_eq(
        &marker(InstructionKind::LoopStart, 0),
        &marker(InstructionKind::LoopEnd, 0)
    ));
}

#[test]
fn there_is_one_instruction_for_each_run() {
    let sources = ["+++", "+>+", "++--++", "[[]]", "+[+]+", "..,,..", "a+b+c-d", ">><<[[..]]"];
    for source in sources {
        let operators: Vec<char> = source.chars().filter(|c| "+-<>.,[]".contains(*c)).collect();
        let mut runs = 0;
        for (i, operator) in operators.iter().enumerate() {
            if i == 0 || "[]".contains(*operator) || operators[i - 1] != *operator {
                runs += 1;
            }
        }
        assert_eq!(preprocess(source).expect("balanced").len(), runs);
    }
}

#[test]
fn syntax_errors_in_words() {
    assert_eq!(SyntaxError::UnmatchedClose.message(), "Unmatched ] operator");
    assert_eq!(SyntaxError::UnmatchedOpen.message(), "Not enough ] operators!");
}

/// Puts two instruction lists together, merging at the seam.
fn join(first: &[Instruction], second: &[Instruction]) -> Vec<Instruction> {
    let mut whole = first.to_vec();
    let mut rest = second;
    if let (Some(last), Some(next)) = (whole.last_mut(), second.first()) {
        let marker =
            matches!(last.kind, InstructionKind::LoopStart | InstructionKind::LoopEnd);
        if last.kind == next.kind && !marker {
            last.repeat += next.repeat;
            rest = &second[1..];
        }
    }
    whole.extend_from_slice(rest);
    whole
}

#[test]
fn it_makes_no_difference_where_a_text_is_cut() {
    let source = "+++ >> x ..,,,--<<+";
    let whole = preprocess(source).expect("no brackets");
    for cut in 0..=source.len() {
        let first = preprocess(&source[..cut]).expect("no brackets");
        let second = preprocess(&source[cut..]).expect("no brackets");
        assert_eq!(join(&first, &second), whole);
    }
}

#[test]
fn joining_is_associative() {
    let parts = ["", "+", "++", "+>", ">+", "..", "-"];
    for a in parts {
        for b in parts {
            for c in parts {
                let (a, b, c) = (
                    preprocess(a).expect("no brackets"),
                    preprocess(b).expect("no brackets"),
                    preprocess(c).expect("no brackets"),
                );
                assert_eq!(join(&join(&a, &b), &c), join(&a, &join(&b, &c)));
            }
        }
    }
}
