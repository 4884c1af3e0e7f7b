use pseudo_asm::assembler::{assemble, AsmError, MEMORY_CELLS};
use pseudo_asm::instructions::{AsmErrorKind, Data, Instruction};
use pseudo_asm::machine::{Effect, Fault, FaultKind, Machine, JUMP_SLOTS};

fn source(text: &[&str]) -> Vec<String> {
    text.iter().map(|l| l.to_string()).collect()
}

struct Run {
    machine: Machine,
    output: String,
    fault: Option<Fault>,
    halted: bool,
}

fn run_program(program: &Vec<Instruction>, max_steps: usize) -> Run {
    let mut machine = Machine::new();
    let mut output = String::new();
    for _ in 0..max_steps {
        match machine.step(program) {
            Ok(Effect::Continue) => {}
            Ok(Effect::Output(value, text)) => {
                if let Some(v) = value {
                    output.push_str(&v.to_string());
                }
                output.push_str(&text);
            }
            Ok(Effect::Input(cell)) => machine.store_input(cell, 42),
            Ok(Effect::Halt) => {
                return Run { machine, output, fault: None, halted: true };
            }
            Err(f) => {
                return Run { machine, output, fault: Some(f), halted: false };
            }
        }
    }
    Run { machine, output, fault: None, halted: false }
}

fn run(text: &[&str]) -> Run {
    let program = assemble(&source(text)).expect("program assembles");
    run_program(&program, 100_000)
}

#[test]
fn equal_program_prints_equal() {
    let r = run(&[
        "set a 3",
        "set b 3",
        "cmp a b L",
        "print \"unequal\"",
        "goto End",
        "label L",
        "print \"equal\"",
        "label End",
        "end",
    ]);
    assert!(r.halted);
    assert_eq!(r.output, "equal");
}

#[test]
fn label_binds_to_previous_instruction() {
    let program = assemble(&source(&["set x 1", "label L", "set x 2", "goto L"])).unwrap();
    assert_eq!(program.len(), 4);
    assert_eq!(program[0], Instruction::Start);
    assert_eq!(program[3], Instruction::Goto(1));
    let r = run_program(&program, 1000);
    assert!(!r.halted);
    assert!(r.fault.is_none());
    assert_eq!(r.machine.memory[0], 2);
    assert!(r.machine.ip >= 2 && r.machine.ip <= 3);
}

#[test]
fn label_before_any_instruction_binds_to_start() {
    let program = assemble(&source(&["label Top", "goto Top"])).unwrap();
    assert_eq!(program[1], Instruction::Goto(0));
}

#[test]
fn cmp_jumps_when_equal() {
    let r = run(&["set a 5", "cmp a 5 L", "print \"no\"", "label L", "print \"yes\""]);
    assert_eq!(r.output, "yes");
    let r = run(&["set a 4", "cmp a 5 L", "print \"no\"", "label L", "print \"yes\""]);
    assert_eq!(r.output, "noyes");
}

#[test]
fn ncmp_jumps_when_not_equal() {
    let r = run(&["set a 4", "ncmp a 5 L", "print \"no\"", "label L", "print \"yes\""]);
    assert_eq!(r.output, "yes");
    let r = run(&["set a 5", "ncmp a 5 L", "print \"no\"", "label L", "print \"yes\""]);
    assert_eq!(r.output, "noyes");
}

#[test]
fn cmp_against_cell() {
    let r = run(&["set a 7", "set b 7", "cmp a b L", "print \"no\"", "label L", "end"]);
    assert_eq!(r.output, "");
}

#[test]
fn ret_resumes_after_goto() {
    let r = run(&[
        "goto Sub",
        "print \"back\"",
        "end",
        "label Sub",
        "print \"sub \"",
        "ret",
    ]);
    assert!(r.halted);
    assert_eq!(r.output, "sub back");
}

#[test]
fn ret_resumes_after_taken_cmp() {
    let r = run(&["set a 1", "cmp a 1 Sub", "print \"back\"", "end", "label Sub", "print \"in \"", "ret"]);
    assert_eq!(r.output, "in back");
}

#[test]
fn jump_buffer_drops_oldest_entry() {
    assert_eq!(JUMP_SLOTS, 100);
    // Each `goto Lk` lands on the next line, so the gotos record the sites 1..=101.
    let mut text: Vec<String> = Vec::new();
    for i in 0..=JUMP_SLOTS {
        text.push(format!("goto L{}", i));
        text.push(format!("label L{}", i));
    }
    text.push("ret".to_string());
    let program = assemble(&text).unwrap();
    let mut machine = Machine::new();
    for _ in 0..=(JUMP_SLOTS + 1) {
        assert_eq!(machine.step(&program), Ok(Effect::Continue));
    }
    assert_eq!(machine.ip, JUMP_SLOTS + 2);
    assert_eq!(machine.cursor, 1);
    // The 101st site overwrote the 1st; the next slot still holds the 2nd.
    assert_eq!(machine.jumps[0], JUMP_SLOTS + 1);
    assert_eq!(machine.jumps[1], 2);
    assert_eq!(machine.step(&program), Ok(Effect::Continue));
    // Resumes after the 101st site, not after the first one.
    assert_eq!(machine.ip, JUMP_SLOTS + 2);
    assert_ne!(machine.ip, 2);
    assert_eq!(machine.cursor, 0);
}

#[test]
fn print_literal_has_no_newline() {
    assert_eq!(run(&["print \"hello world\""]).output, "hello world");
}

#[test]
fn printl_literal_adds_newline() {
    assert_eq!(run(&["printl \"hi\""]).output, "hi\n");
}

#[test]
fn print_cell_prints_decimal_value() {
    assert_eq!(run(&["set x -12", "print x"]).output, "-12");
    assert_eq!(run(&["set x 12", "printl x"]).output, "12\n");
}

#[test]
fn change_adds_immediate_and_cell() {
    let r = run(&["set x 10", "change x 5"]);
    assert_eq!(r.machine.memory[0], 15);
    let r = run(&["set x 10", "set y -3", "change x y"]);
    assert_eq!(r.machine.memory[0], 7);
}

#[test]
fn mul_div_mod_copy() {
    let r = run(&["set x 7", "mul x -3", "copy x y", "div y 2", "copy x z", "mod z 4"]);
    assert_eq!(r.machine.memory[0], -21);
    assert_eq!(r.machine.memory[1], -10);
    assert_eq!(r.machine.memory[2], -1);
}

#[test]
fn div_by_zero_is_fatal() {
    let r = run(&["set x 1", "div x 0"]);
    assert_eq!(r.fault, Some(Fault { kind: FaultKind::DivisionByZero, at: 2 }));
}

#[test]
fn mod_by_zero_is_fatal() {
    let r = run(&["set x 1", "set z 0", "mod x z"]);
    assert_eq!(r.fault, Some(Fault { kind: FaultKind::DivisionByZero, at: 3 }));
}

#[test]
fn overflow_is_fatal() {
    let r = run(&["set x 2147483647", "change x 1"]);
    assert_eq!(r.fault.unwrap().kind, FaultKind::Overflow);
    let r = run(&["set x -2147483648", "abs x"]);
    assert_eq!(r.fault.unwrap().kind, FaultKind::Overflow);
    let r = run(&["set x -2147483648", "div x -1"]);
    assert_eq!(r.fault.unwrap().kind, FaultKind::Overflow);
    let r = run(&["set x -2147483648", "mod x -1"]);
    assert_eq!(r.fault.unwrap().kind, FaultKind::Overflow);
    let r = run(&["set x 65536", "mul x 65536"]);
    assert_eq!(r.fault.unwrap().kind, FaultKind::Overflow);
}

#[test]
fn abs_of_negative_seven() {
    let r = run(&["set x -7", "abs x"]);
    assert_eq!(r.machine.memory[0], 7);
}

#[test]
fn end_stops_early() {
    let r = run(&["print \"a\"", "end", "print \"b\""]);
    assert!(r.halted);
    assert_eq!(r.output, "a");
}

#[test]
fn getnum_asks_for_input() {
    let program = assemble(&source(&["getnum n"])).unwrap();
    let mut m = Machine::new();
    assert_eq!(m.step(&program), Ok(Effect::Continue));
    assert_eq!(m.step(&program), Ok(Effect::Input(0)));
    m.store_input(0, 9);
    assert_eq!(m.memory[0], 9);
    assert_eq!(m.step(&program), Ok(Effect::Halt));
}

#[test]
fn rand_stores_in_its_cell_only() {
    let program = assemble(&source(&["set a 5", "rand b"])).unwrap();
    let r = run_program(&program, 10);
    assert!(r.halted);
    assert_eq!(r.machine.memory[0], 5);
    assert!(r.machine.memory[2..].iter().all(|v| *v == 0));
}

#[test]
fn execute_uses_given_random_number() {
    let program = assemble(&source(&["rand b"])).unwrap();
    let mut m = Machine::new();
    m.execute(&program, 0).unwrap();
    m.execute(&program, -77).unwrap();
    assert_eq!(m.memory[0], -77);
}

#[test]
fn leading_and_trailing_spaces_are_trimmed() {
    let program = assemble(&source(&["   set x 3   ", "\tprint x"])).unwrap();
    assert_eq!(program[1], Instruction::SetValue(0, 3));
    assert_eq!(program[2], Instruction::Print(Some(0), String::new()));
}

#[test]
fn blank_lines_are_skipped() {
    let program = assemble(&source(&["", "   ", "end"])).unwrap();
    assert_eq!(program, vec![Instruction::Start, Instruction::End]);
}

#[test]
fn resolved_cmp_targets() {
    let program = assemble(&source(&["set a 1", "label X", "ncmp a b X"])).unwrap();
    assert_eq!(program[2], Instruction::Cmp(0, Data::Address(1), 1, true));
}

#[test]
fn unknown_instruction_is_reported_with_line() {
    let e = assemble(&source(&["set x 1", "", "jump x"])).unwrap_err();
    assert_eq!(e, AsmError { kind: AsmErrorKind::UnknownInstruction, line: 2 });
}

#[test]
fn missing_argument_is_reported() {
    let e = assemble(&source(&["set x"])).unwrap_err();
    assert_eq!(e, AsmError { kind: AsmErrorKind::MissingArgument, line: 0 });
    let e = assemble(&source(&["end", "print"])).unwrap_err();
    assert_eq!(e, AsmError { kind: AsmErrorKind::MissingArgument, line: 1 });
    let e = assemble(&source(&["cmp a 1"])).unwrap_err();
    assert_eq!(e.kind, AsmErrorKind::MissingArgument);
}

#[test]
fn invalid_integer_is_reported() {
    let e = assemble(&source(&["set x abc"])).unwrap_err();
    assert_eq!(e, AsmError { kind: AsmErrorKind::InvalidInteger, line: 0 });
    let e = assemble(&source(&["set x 2147483648"])).unwrap_err();
    assert_eq!(e.kind, AsmErrorKind::InvalidInteger);
}

#[test]
fn mismatched_quote_is_reported() {
    let e = assemble(&source(&["print \"open"])).unwrap_err();
    assert_eq!(e.kind, AsmErrorKind::MismatchedQuote);
    let e = assemble(&source(&["print close\""])).unwrap_err();
    assert_eq!(e.kind, AsmErrorKind::MismatchedQuote);
    let e = assemble(&source(&["print \""])).unwrap_err();
    assert_eq!(e.kind, AsmErrorKind::MismatchedQuote);
}

#[test]
fn undefined_label_is_reported() {
    let e = assemble(&source(&["set x 1", "goto Nowhere"])).unwrap_err();
    assert_eq!(e, AsmError { kind: AsmErrorKind::UndefinedLabel, line: 1 });
}

#[test]
fn too_many_variables_is_reported() {
    let text: Vec<String> = (0..=MEMORY_CELLS).map(|i| format!("set v{} 1", i)).collect();
    let e = assemble(&text).unwrap_err();
    assert_eq!(e, AsmError { kind: AsmErrorKind::TooManyVariables, line: MEMORY_CELLS });
    let ok: Vec<String> = (0..MEMORY_CELLS).map(|i| format!("set v{} 1", i)).collect();
    assert!(assemble(&ok).is_ok());
}

#[test]
fn out_of_range_operand_stops_assembly() {
    let e = assemble(&source(&["set x 1", "change x 99999999999"])).unwrap_err();
    assert_eq!(e, AsmError { kind: AsmErrorKind::InvalidInteger, line: 1 });
}

#[test]
fn unicode_white_space_is_trimmed() {
    let program = assemble(&source(&["\u{3000}end\u{a0}\u{2003}"])).unwrap();
    assert_eq!(program, vec![Instruction::Start, Instruction::End]);
}
