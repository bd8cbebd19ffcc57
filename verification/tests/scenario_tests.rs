use regvm::parser::parse_program;
use regvm::vm::{Instruction, Reg, Source, StepOutcome, Vm, VmError};

/// Runs a loaded machine to its end, collecting output bytes. Panics
/// if the program needs a peripheral or runs past the step limit.
fn run_to_halt(vm: &mut Vm) -> Vec<u8> {
    let mut out: Vec<u8> = Vec::new();
    for _ in 0..10_000 {
        match vm.step() {
            StepOutcome::Ran => {},
            StepOutcome::Output(mut bytes) => out.append(&mut bytes),
            StepOutcome::Halted => return out,
            other => panic!("unexpected step outcome: {:?}", other),
        }
    }
    panic!("program did not halt");
}

fn load(src: &[u8]) -> Vm {
    let prog = parse_program(src).unwrap();
    let mut vm = Vm::new();
    vm.load_program(prog);
    vm
}

#[test]
fn add_and_print_scenario() {
    // MOV A 5; MOV B 10; ADD A B; PRINT A; HALT prints 15 and halts
    let mut vm = load(b"MOV A 5; MOV B 10; ADD A B; PRINT A; HALT");
    let out = run_to_halt(&mut vm);
    assert_eq!(out, b"15\n");
    assert_eq!(vm.reg[0], 15);
    assert!(!vm.zf);
}

#[test]
fn countdown_scenario() {
    // the loop label resolves to instruction index 1
    let mut vm = load(b"MOV C 3; loop: PRINT C; SUB C 1; JNZ loop; HALT");
    let out = run_to_halt(&mut vm);
    assert_eq!(out, b"3\n2\n1\n");
    assert_eq!(vm.reg[2], 0);
    assert!(vm.zf);
}

#[test]
fn division_by_zero_scenario() {
    // fatal even though the dividend is also zero
    let mut vm = load(b"MOV A 0\nDIV A A");
    assert!(matches!(vm.step(), StepOutcome::Ran));
    let r = vm.step();
    assert!(matches!(r, StepOutcome::Failed(VmError::DivisionByZero)));
}

#[test]
fn forward_label_runs_like_numeric_address() {
    let mut with_label = load(b"MOV A 9\nJMP end\nMOV A 1\nend: PRINT A\nHALT");
    let mut with_addr = load(b"MOV A 9\nJMP 3\nMOV A 1\nPRINT A\nHALT");
    let out_label = run_to_halt(&mut with_label);
    let out_addr = run_to_halt(&mut with_addr);
    assert_eq!(out_label, out_addr);
    assert_eq!(out_label, b"9\n");
    assert_eq!(with_label.reg, with_addr.reg);
    assert_eq!(with_label.zf, with_addr.zf);
}

#[test]
fn not_taken_branch_advances_by_one() {
    // after MOV A 1 the flag is clear, so JZ falls through to HALT
    let mut vm = load(b"MOV A 1\nJZ 0\nHALT");
    assert!(matches!(vm.step(), StepOutcome::Ran));
    assert_eq!(vm.pc, 1);
    assert!(matches!(vm.step(), StepOutcome::Ran));
    // the branch-setting instruction is not re-run: the counter is +1
    assert_eq!(vm.pc, 2);
    assert!(matches!(vm.step(), StepOutcome::Halted));
    assert_eq!(vm.reg[0], 1);
}

#[test]
fn taken_branch_skips_ahead() {
    let mut vm = load(b"MOV A 0\nJZ 3\nMOV A 7\nHALT");
    let out = run_to_halt(&mut vm);
    assert_eq!(out, b"");
    assert_eq!(vm.reg[0], 0);
}

#[test]
fn draw_scenario_bounds_and_null() {
    let mut vm = load(b"DRAW 79 24 'x'\nDRAW 80 0 'x'\nDRAW 0 25 'x'\nDRAW 1 1 0\nHALT");
    run_to_halt(&mut vm);
    assert_eq!(vm.screen[24 * 80 + 79], b'x');
    assert_eq!(vm.screen[0 * 80 + 80 - 80], b' ');
    assert_eq!(vm.screen[1 * 80 + 1], b' ');
    // only the one in-bounds visible write landed
    assert_eq!(vm.screen.iter().filter(|&&c| c != b' ').count(), 1);
}

#[test]
fn render_scenario_emits_bordered_screen() {
    let mut vm = load(b"DRAW 0 0 'Q'\nRENDER\nHALT");
    let out = run_to_halt(&mut vm);
    assert_eq!(out.len(), 27 * 83);
    assert_eq!(out[0], b'+');
    assert_eq!(out[83 + 1], b'Q');
}

#[test]
fn halt_stops_before_later_instructions() {
    let mut vm = load(b"MOV A 1\nHALT\nMOV A 2");
    run_to_halt(&mut vm);
    assert_eq!(vm.reg[0], 1);
    assert_eq!(vm.pc, 1);
}

#[test]
fn running_off_the_end_halts() {
    let mut vm = load(b"MOV A 1\nMOV B 2");
    run_to_halt(&mut vm);
    assert_eq!(vm.reg[0], 1);
    assert_eq!(vm.reg[1], 2);
    assert_eq!(vm.pc, 2);
}

#[test]
fn peripheral_outcomes_and_replies() {
    let mut vm = load(b"INPUT A\nINKEY B\nRAND C\nSLP 5\nCTS\nHALT");
    match vm.step() {
        StepOutcome::NeedInput(r) => {
            assert_eq!(r, Reg::A);
            vm.input(r, b"9").unwrap();
        },
        other => panic!("expected an input request, got {:?}", other),
    }
    assert_eq!(vm.reg[0], 9);
    match vm.step() {
        StepOutcome::NeedKey(r) => {
            assert_eq!(r, Reg::B);
            vm.inkey(r, None);
        },
        other => panic!("expected a key request, got {:?}", other),
    }
    assert_eq!(vm.reg[1], 0);
    assert!(vm.zf);
    match vm.step() {
        StepOutcome::NeedRand(r) => {
            assert_eq!(r, Reg::C);
            vm.random(r, 77);
        },
        other => panic!("expected a random request, got {:?}", other),
    }
    assert_eq!(vm.reg[2], 77);
    assert!(matches!(vm.step(), StepOutcome::Sleep(5)));
    assert!(matches!(vm.step(), StepOutcome::ClearTerminal));
    assert!(matches!(vm.step(), StepOutcome::Halted));
}

#[test]
fn print_without_newline_joins_output() {
    let mut vm = load(b"MOV A 1\nPRINT A -N\nMOV A 2\nPRINT A -N\nPRINT A\nHALT");
    let out = run_to_halt(&mut vm);
    assert_eq!(out, b"122\n");
}

#[test]
fn memory_operands_end_to_end() {
    let mut vm = load(b"MOV A 42\nSTORE A [10]\nMOV B [10]\nMOV C 10\nMOV D [C]\nHALT");
    run_to_halt(&mut vm);
    assert_eq!(vm.mem[10], 42);
    assert_eq!(vm.reg[1], 42);
    assert_eq!(vm.reg[3], 42);
}

#[test]
fn loop_instruction_end_to_end() {
    // LOOP does not decrement: the program must do it
    let mut vm = load(b"MOV C 2\ntop: PRINT C -N\nSUB C 1\nLOOP top C\nHALT");
    let out = run_to_halt(&mut vm);
    assert_eq!(out, b"21");
    assert_eq!(vm.reg[2], 0);
}

#[test]
fn step_outcome_for_plain_instruction_is_ran() {
    let mut vm = Vm::new();
    vm.load_program(vec![Instruction::MOV(Reg::A, Source::Lit(3))]);
    assert!(matches!(vm.step(), StepOutcome::Ran));
    assert_eq!(vm.reg[0], 3);
    assert_eq!(vm.pc, 1);
}
