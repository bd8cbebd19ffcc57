use regvm::parser::{parse_instruction, parse_label_or_addr, parse_mem_src, parse_program,
    parse_reg, parse_source, AsmErrKind};
use regvm::vm::{Instruction, MemSrc, Reg, Source};

fn toks(s: &str) -> Vec<Vec<u8>> {
    s.split_whitespace().map(|t| t.as_bytes().to_vec()).collect()
}

#[test]
fn registers_parse() {
    assert_eq!(parse_reg(b"A").unwrap(), Reg::A);
    assert_eq!(parse_reg(b"B").unwrap(), Reg::B);
    assert_eq!(parse_reg(b"C").unwrap(), Reg::C);
    assert_eq!(parse_reg(b"D").unwrap(), Reg::D);
    assert_eq!(parse_reg(b"E").unwrap(), Reg::E);
    let e = parse_reg(b"F").unwrap_err();
    assert_eq!(e.kind, AsmErrKind::UnknownRegister);
    assert_eq!(e.token, b"F");
    assert!(parse_reg(b"AB").is_err());
    assert!(parse_reg(b"a").is_err());
}

#[test]
fn sources_parse() {
    assert_eq!(parse_source(b"65").unwrap(), Source::Lit(65));
    assert_eq!(parse_source(b"0").unwrap(), Source::Lit(0));
    assert_eq!(parse_source(b"255").unwrap(), Source::Lit(255));
    assert_eq!(parse_source(b"007").unwrap(), Source::Lit(7));
    assert_eq!(parse_source(b"'a'").unwrap(), Source::Lit(97));
    assert_eq!(parse_source(b"'0'").unwrap(), Source::Lit(48));
    assert_eq!(parse_source(b"[5]").unwrap(), Source::Mem(MemSrc::Addr(5)));
    assert_eq!(parse_source(b"[A]").unwrap(), Source::Mem(MemSrc::Reg(Reg::A)));
    assert_eq!(parse_source(b"B").unwrap(), Source::Reg(Reg::B));
}

#[test]
fn source_errors() {
    // out of range: not a literal, so it is read as a register name
    let e = parse_source(b"256").unwrap_err();
    assert_eq!(e.kind, AsmErrKind::UnknownRegister);
    let e = parse_source(b"[1x]").unwrap_err();
    assert_eq!(e.kind, AsmErrKind::InvalidMemorySource);
    assert_eq!(e.token, b"[1x]");
    let e = parse_source(b"[F]").unwrap_err();
    assert_eq!(e.kind, AsmErrKind::UnknownRegister);
    assert_eq!(e.token, b"F");
    let e = parse_source(b"[300]").unwrap_err();
    assert_eq!(e.kind, AsmErrKind::InvalidMemorySource);
}

#[test]
fn mem_sources_parse() {
    assert_eq!(parse_mem_src(b"[B]").unwrap(), MemSrc::Reg(Reg::B));
    assert_eq!(parse_mem_src(b"[200]").unwrap(), MemSrc::Addr(200));
    let e = parse_mem_src(b"x").unwrap_err();
    assert_eq!(e.kind, AsmErrKind::InvalidMemorySource);
    let e = parse_mem_src(b"[12a]").unwrap_err();
    assert_eq!(e.kind, AsmErrKind::ExpectedNumericAddress);
    // empty brackets read as an (unknown) register name
    let e = parse_mem_src(b"[]").unwrap_err();
    assert_eq!(e.kind, AsmErrKind::UnknownRegister);
}

#[test]
fn label_or_addr_resolution() {
    let labels: Vec<(Vec<u8>, usize)> = vec![(b"end".to_vec(), 3), (b"top".to_vec(), 0)];
    assert_eq!(parse_label_or_addr(b"7", &labels).unwrap(), 7);
    assert_eq!(parse_label_or_addr(b"end", &labels).unwrap(), 3);
    assert_eq!(parse_label_or_addr(b"top", &labels).unwrap(), 0);
    let e = parse_label_or_addr(b"nowhere", &labels).unwrap_err();
    assert_eq!(e.kind, AsmErrKind::UnknownLabel);
    assert_eq!(e.token, b"nowhere");
}

#[test]
fn later_label_binding_wins() {
    let labels: Vec<(Vec<u8>, usize)> = vec![(b"x".to_vec(), 1), (b"x".to_vec(), 5)];
    assert_eq!(parse_label_or_addr(b"x", &labels).unwrap(), 5);
}

#[test]
fn instructions_parse() {
    let labels: Vec<(Vec<u8>, usize)> = Vec::new();
    assert_eq!(
        parse_instruction(&toks("MOV A 5"), &labels).unwrap(),
        Instruction::MOV(Reg::A, Source::Lit(5))
    );
    assert_eq!(
        parse_instruction(&toks("STORE A [9]"), &labels).unwrap(),
        Instruction::STORE(Reg::A, MemSrc::Addr(9))
    );
    assert_eq!(
        parse_instruction(&toks("ADD A B"), &labels).unwrap(),
        Instruction::ADD(Reg::A, Source::Reg(Reg::B))
    );
    assert_eq!(
        parse_instruction(&toks("MULH C A B"), &labels).unwrap(),
        Instruction::MULH(Reg::C, Reg::A, Reg::B)
    );
    assert_eq!(
        parse_instruction(&toks("JMP 4"), &labels).unwrap(),
        Instruction::JMP(4)
    );
    assert_eq!(
        parse_instruction(&toks("LOOP 2 C"), &labels).unwrap(),
        Instruction::LOOP(2, Reg::C)
    );
    assert_eq!(
        parse_instruction(&toks("PRINT A"), &labels).unwrap(),
        Instruction::PRINT(Reg::A, true)
    );
    assert_eq!(
        parse_instruction(&toks("PRINT A -N"), &labels).unwrap(),
        Instruction::PRINT(Reg::A, false)
    );
    assert_eq!(
        parse_instruction(&toks("PRINTCH B -N"), &labels).unwrap(),
        Instruction::PRINTCH(Reg::B, false)
    );
    assert_eq!(
        parse_instruction(&toks("INPUT D"), &labels).unwrap(),
        Instruction::INPUT(Reg::D)
    );
    assert_eq!(
        parse_instruction(&toks("INKEY E"), &labels).unwrap(),
        Instruction::INKEY(Reg::E)
    );
    assert_eq!(
        parse_instruction(&toks("RAND A"), &labels).unwrap(),
        Instruction::RAND(Reg::A)
    );
    assert_eq!(
        parse_instruction(&toks("DRAW 1 2 'x'"), &labels).unwrap(),
        Instruction::DRAW(Source::Lit(1), Source::Lit(2), Source::Lit(120))
    );
    assert_eq!(
        parse_instruction(&toks("SLP 100"), &labels).unwrap(),
        Instruction::SLP(100)
    );
    assert_eq!(
        parse_instruction(&toks("CMP A 3"), &labels).unwrap(),
        Instruction::CMP(Reg::A, Source::Lit(3))
    );
    assert_eq!(parse_instruction(&toks("CLS"), &labels).unwrap(), Instruction::CLS);
    assert_eq!(parse_instruction(&toks("CTS"), &labels).unwrap(), Instruction::CTS);
    assert_eq!(parse_instruction(&toks("RENDER"), &labels).unwrap(), Instruction::RENDER);
    assert_eq!(parse_instruction(&toks("HALT"), &labels).unwrap(), Instruction::HALT);
}

#[test]
fn instruction_errors() {
    let labels: Vec<(Vec<u8>, usize)> = Vec::new();
    let e = parse_instruction(&toks("FOO A"), &labels).unwrap_err();
    assert_eq!(e.kind, AsmErrKind::UnknownInstruction);
    // wrong arity is an unknown instruction
    let e = parse_instruction(&toks("MOV A"), &labels).unwrap_err();
    assert_eq!(e.kind, AsmErrKind::UnknownInstruction);
    let e = parse_instruction(&toks("HALT A"), &labels).unwrap_err();
    assert_eq!(e.kind, AsmErrKind::UnknownInstruction);
    // a PRINT option other than -N does not parse
    let e = parse_instruction(&toks("PRINT A -X"), &labels).unwrap_err();
    assert_eq!(e.kind, AsmErrKind::UnknownInstruction);
    // a bad operand keeps its own error
    let e = parse_instruction(&toks("MOV F 5"), &labels).unwrap_err();
    assert_eq!(e.kind, AsmErrKind::UnknownRegister);
    let e = parse_instruction(&toks("SLP abc"), &labels).unwrap_err();
    assert_eq!(e.kind, AsmErrKind::InvalidLiteral);
    assert_eq!(e.token, b"abc");
    let e = parse_instruction(&toks("JMP nowhere"), &labels).unwrap_err();
    assert_eq!(e.kind, AsmErrKind::UnknownLabel);
}

#[test]
fn program_parses_with_comments_and_separators() {
    let src = b"MOV A 5 // set it up\n  PRINT A ; HALT // done\n\n// only a comment\n";
    let prog = parse_program(src).unwrap();
    assert_eq!(
        prog,
        vec![
            Instruction::MOV(Reg::A, Source::Lit(5)),
            Instruction::PRINT(Reg::A, true),
            Instruction::HALT,
        ]
    );
}

#[test]
fn forward_label_resolves() {
    let prog = parse_program(b"JMP end\nPRINT A\nend: HALT").unwrap();
    assert_eq!(prog[0], Instruction::JMP(2));
    assert_eq!(prog.len(), 3);
}

#[test]
fn label_equals_numeric_address() {
    // a forward-referenced label behaves exactly like its numeric address
    let with_label = parse_program(b"JMP end\nPRINT A\nend: HALT").unwrap();
    let with_addr = parse_program(b"JMP 2\nPRINT A\nHALT").unwrap();
    assert_eq!(with_label, with_addr);
}

#[test]
fn label_on_shared_line_binds_next_instruction() {
    let prog = parse_program(b"MOV C 3; loop: PRINT C; SUB C 1; JNZ loop; HALT").unwrap();
    assert_eq!(prog[3], Instruction::JNZ(1));
    assert_eq!(prog.len(), 5);
}

#[test]
fn duplicate_label_uses_last_binding() {
    let prog = parse_program(b"x: MOV A 1\nx: MOV A 2\nJMP x").unwrap();
    assert_eq!(prog[2], Instruction::JMP(1));
}

#[test]
fn unknown_statement_is_reported_whole() {
    let e = parse_program(b"MOV A 5\nBLORP A 5\nHALT").unwrap_err();
    assert_eq!(e.kind, AsmErrKind::UnknownInstruction);
    assert_eq!(e.token, b"BLORP A 5");
}

#[test]
fn unknown_label_is_fatal() {
    let e = parse_program(b"JMP missing\nHALT").unwrap_err();
    assert_eq!(e.kind, AsmErrKind::UnknownLabel);
    assert_eq!(e.token, b"missing");
}

#[test]
fn empty_source_is_an_empty_program() {
    assert_eq!(parse_program(b"").unwrap(), Vec::<Instruction>::new());
    assert_eq!(parse_program(b"   \n\n  // nothing\n").unwrap(), Vec::<Instruction>::new());
}
