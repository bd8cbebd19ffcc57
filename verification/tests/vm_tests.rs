use regvm::vm::{Instruction, KeyPress, MemSrc, Reg, Source, Vm, VmError};

fn fresh() -> Vm {
    Vm::new()
}

#[test]
fn mov_literal_sets_register_and_flag() {
    // MOV r v stores v and sets the zero flag to v == 0, for every register.
    let regs = [Reg::A, Reg::B, Reg::C, Reg::D, Reg::E];
    for (i, r) in regs.iter().enumerate() {
        let mut vm = fresh();
        vm.mov(*r, Source::Lit(42));
        assert_eq!(vm.reg[i], 42);
        assert!(!vm.zf);
        vm.mov(*r, Source::Lit(0));
        assert_eq!(vm.reg[i], 0);
        assert!(vm.zf);
        vm.mov(*r, Source::Lit(255));
        assert_eq!(vm.reg[i], 255);
        assert!(!vm.zf);
    }
}

#[test]
fn mov_from_memory_and_register() {
    let mut vm = fresh();
    vm.mem[7] = 99;
    vm.mov(Reg::A, Source::Mem(MemSrc::Addr(7)));
    assert_eq!(vm.reg[0], 99);
    assert!(!vm.zf);
    // register-indirect: B holds the address
    vm.mov(Reg::B, Source::Lit(7));
    vm.mov(Reg::C, Source::Mem(MemSrc::Reg(Reg::B)));
    assert_eq!(vm.reg[2], 99);
    // register to register; the flag follows the moved value
    vm.mov(Reg::D, Source::Lit(0));
    vm.mov(Reg::E, Source::Reg(Reg::D));
    assert_eq!(vm.reg[4], 0);
    assert!(vm.zf);
}

#[test]
fn add_wraps_modulo_256() {
    // result == (a + b) mod 256, zero flag == (result == 0)
    let mut vm = fresh();
    vm.mov(Reg::A, Source::Lit(255));
    vm.add(Reg::A, Source::Lit(1));
    assert_eq!(vm.reg[0], 0);
    assert!(vm.zf);
    vm.mov(Reg::A, Source::Lit(100));
    vm.add(Reg::A, Source::Lit(55));
    assert_eq!(vm.reg[0], 155);
    assert!(!vm.zf);
    vm.mov(Reg::A, Source::Lit(200));
    vm.add(Reg::A, Source::Lit(100));
    assert_eq!(vm.reg[0], 44);
    assert!(!vm.zf);
}

#[test]
fn sub_wraps_modulo_256() {
    let mut vm = fresh();
    vm.mov(Reg::A, Source::Lit(0));
    vm.sub(Reg::A, Source::Lit(1));
    assert_eq!(vm.reg[0], 255);
    assert!(!vm.zf);
    vm.mov(Reg::B, Source::Lit(5));
    vm.sub(Reg::B, Source::Lit(5));
    assert_eq!(vm.reg[1], 0);
    assert!(vm.zf);
}

#[test]
fn mul_wraps_modulo_256() {
    let mut vm = fresh();
    vm.mov(Reg::A, Source::Lit(16));
    vm.mul(Reg::A, Source::Lit(16));
    assert_eq!(vm.reg[0], 0);
    assert!(vm.zf);
    vm.mov(Reg::B, Source::Lit(13));
    vm.mul(Reg::B, Source::Lit(3));
    assert_eq!(vm.reg[1], 39);
    assert!(!vm.zf);
}

#[test]
fn mulh_stores_high_byte() {
    let mut vm = fresh();
    vm.mov(Reg::A, Source::Lit(200));
    vm.mov(Reg::B, Source::Lit(200));
    vm.mulh(Reg::C, Reg::A, Reg::B);
    // 200 * 200 = 40000 = 156 * 256 + 64
    assert_eq!(vm.reg[2], 156);
    assert!(!vm.zf);
    vm.mov(Reg::A, Source::Lit(2));
    vm.mov(Reg::B, Source::Lit(3));
    vm.mulh(Reg::C, Reg::A, Reg::B);
    assert_eq!(vm.reg[2], 0);
    assert!(vm.zf);
}

#[test]
fn div_and_mod_results() {
    let mut vm = fresh();
    vm.mov(Reg::A, Source::Lit(10));
    assert!(vm.div(Reg::A, Source::Lit(3)).is_ok());
    assert_eq!(vm.reg[0], 3);
    assert!(!vm.zf);
    vm.mov(Reg::B, Source::Lit(10));
    assert!(vm.mod_fn(Reg::B, Source::Lit(3)).is_ok());
    assert_eq!(vm.reg[1], 1);
    assert!(!vm.zf);
    vm.mov(Reg::C, Source::Lit(2));
    assert!(vm.div(Reg::C, Source::Lit(3)).is_ok());
    assert_eq!(vm.reg[2], 0);
    assert!(vm.zf);
}

#[test]
fn div_by_zero_register_is_fatal() {
    let mut vm = fresh();
    vm.mov(Reg::A, Source::Lit(10));
    vm.mov(Reg::B, Source::Lit(0));
    let r = vm.div(Reg::A, Source::Reg(Reg::B));
    assert!(matches!(r, Err(VmError::DivisionByZero)));
    // the failed instruction changes nothing
    assert_eq!(vm.reg[0], 10);
}

#[test]
fn div_by_zero_memory_is_fatal() {
    let mut vm = fresh();
    vm.mov(Reg::A, Source::Lit(10));
    // mem[5] is 0 by construction
    let r = vm.div(Reg::A, Source::Mem(MemSrc::Addr(5)));
    assert!(matches!(r, Err(VmError::DivisionByZero)));
    let r2 = vm.mod_fn(Reg::A, Source::Mem(MemSrc::Addr(5)));
    assert!(matches!(r2, Err(VmError::DivisionByZero)));
}

#[test]
fn div_by_zero_literal_is_fatal() {
    let mut vm = fresh();
    vm.mov(Reg::A, Source::Lit(10));
    assert!(matches!(vm.div(Reg::A, Source::Lit(0)), Err(VmError::DivisionByZero)));
    assert!(matches!(vm.mod_fn(Reg::A, Source::Lit(0)), Err(VmError::DivisionByZero)));
}

#[test]
fn store_absolute_and_indirect() {
    let mut vm = fresh();
    vm.mov(Reg::A, Source::Lit(77));
    vm.store(Reg::A, MemSrc::Addr(10));
    assert_eq!(vm.mem[10], 77);
    vm.mov(Reg::B, Source::Lit(200));
    vm.store(Reg::A, MemSrc::Reg(Reg::B));
    assert_eq!(vm.mem[200], 77);
    // STORE leaves the zero flag alone
    vm.mov(Reg::C, Source::Lit(0));
    assert!(vm.zf);
    vm.store(Reg::A, MemSrc::Addr(11));
    assert!(vm.zf);
}

#[test]
fn cmp_sets_flag_from_equality() {
    let mut vm = fresh();
    vm.mov(Reg::A, Source::Lit(5));
    vm.cmp(Reg::A, Source::Lit(5));
    assert!(vm.zf);
    vm.cmp(Reg::A, Source::Lit(6));
    assert!(!vm.zf);
    assert_eq!(vm.reg[0], 5);
}

#[test]
fn branch_counters() {
    // after a not-taken branch the counter is exactly +1
    let mut vm = fresh();
    vm.pc = 4;
    vm.zf = false;
    vm.jz(9);
    assert_eq!(vm.pc, 5);
    vm.zf = true;
    vm.jz(9);
    assert_eq!(vm.pc, 9);
    vm.pc = 4;
    vm.zf = true;
    vm.jnz(9);
    assert_eq!(vm.pc, 5);
    vm.zf = false;
    vm.jnz(9);
    assert_eq!(vm.pc, 9);
    vm.jmp(3);
    assert_eq!(vm.pc, 3);
}

#[test]
fn loop_jumps_while_register_nonzero() {
    let mut vm = fresh();
    vm.pc = 4;
    vm.mov(Reg::C, Source::Lit(2));
    vm.loop_fn(1, Reg::C);
    assert_eq!(vm.pc, 1);
    // LOOP does not decrement the register itself
    assert_eq!(vm.reg[2], 2);
    vm.mov(Reg::C, Source::Lit(0));
    vm.pc = 4;
    vm.loop_fn(1, Reg::C);
    assert_eq!(vm.pc, 5);
}

#[test]
fn draw_writes_and_bounds() {
    let mut vm = fresh();
    vm.draw(Source::Lit(3), Source::Lit(2), Source::Lit(120));
    assert_eq!(vm.screen[2 * 80 + 3], 120);
    // x == 80 and y == 25 are out of bounds: buffer unchanged
    let before = vm.screen.clone();
    vm.draw(Source::Lit(80), Source::Lit(0), Source::Lit(120));
    assert_eq!(vm.screen, before);
    vm.draw(Source::Lit(0), Source::Lit(25), Source::Lit(120));
    assert_eq!(vm.screen, before);
}

#[test]
fn draw_normalizes_control_characters() {
    let mut vm = fresh();
    // a resolved character value of 0 writes a space
    vm.draw(Source::Lit(5), Source::Lit(5), Source::Lit(0));
    assert_eq!(vm.screen[5 * 80 + 5], 32);
    vm.draw(Source::Lit(6), Source::Lit(5), Source::Lit(9));
    assert_eq!(vm.screen[5 * 80 + 6], 32);
    vm.draw(Source::Lit(7), Source::Lit(5), Source::Lit(127));
    assert_eq!(vm.screen[5 * 80 + 7], 32);
    vm.draw(Source::Lit(8), Source::Lit(5), Source::Lit(130));
    assert_eq!(vm.screen[5 * 80 + 8], 32);
    // a printable byte is written as itself
    vm.draw(Source::Lit(9), Source::Lit(5), Source::Lit(65));
    assert_eq!(vm.screen[5 * 80 + 9], 65);
}

#[test]
fn cls_blanks_the_screen() {
    let mut vm = fresh();
    vm.draw(Source::Lit(0), Source::Lit(0), Source::Lit(88));
    vm.cls();
    assert!(vm.screen.iter().all(|&c| c == 32));
}

#[test]
fn input_parses_number_char_and_empty() {
    let mut vm = fresh();
    assert!(vm.input(Reg::A, b"42").is_ok());
    assert_eq!(vm.reg[0], 42);
    assert!(vm.input(Reg::A, b" 7 \n").is_ok());
    assert_eq!(vm.reg[0], 7);
    assert!(vm.input(Reg::B, b"x").is_ok());
    assert_eq!(vm.reg[1], 120);
    vm.zf = false;
    assert!(vm.input(Reg::C, b"  \n").is_ok());
    assert_eq!(vm.reg[2], 0);
    assert!(vm.zf);
}

#[test]
fn input_rejects_other_text() {
    let mut vm = fresh();
    vm.mov(Reg::A, Source::Lit(9));
    let r = vm.input(Reg::A, b"hello");
    assert!(matches!(r, Err(VmError::InvalidInput)));
    assert_eq!(vm.reg[0], 9);
    // "300" is neither a byte nor a single character
    assert!(matches!(vm.input(Reg::A, b"300"), Err(VmError::InvalidInput)));
}

#[test]
fn inkey_maps_keys_and_flag() {
    let mut vm = fresh();
    vm.inkey(Reg::A, Some(KeyPress::Char(97)));
    assert_eq!(vm.reg[0], 97);
    assert!(!vm.zf);
    vm.inkey(Reg::A, Some(KeyPress::Enter));
    assert_eq!(vm.reg[0], 10);
    vm.inkey(Reg::A, Some(KeyPress::Tab));
    assert_eq!(vm.reg[0], 9);
    vm.inkey(Reg::A, Some(KeyPress::Backspace));
    assert_eq!(vm.reg[0], 8);
    vm.inkey(Reg::A, Some(KeyPress::Esc));
    assert_eq!(vm.reg[0], 27);
    vm.inkey(Reg::A, Some(KeyPress::Other));
    assert_eq!(vm.reg[0], 0);
    assert!(vm.zf);
    vm.inkey(Reg::A, None);
    assert_eq!(vm.reg[0], 0);
    assert!(vm.zf);
}

#[test]
fn random_stores_without_touching_flag() {
    let mut vm = fresh();
    vm.mov(Reg::A, Source::Lit(0));
    assert!(vm.zf);
    vm.random(Reg::B, 123);
    assert_eq!(vm.reg[1], 123);
    assert!(vm.zf);
}

#[test]
fn print_formats_decimal() {
    let mut vm = fresh();
    vm.mov(Reg::A, Source::Lit(15));
    assert_eq!(vm.print(Reg::A, true), b"15\n");
    assert_eq!(vm.print(Reg::A, false), b"15");
    vm.mov(Reg::A, Source::Lit(0));
    assert_eq!(vm.print(Reg::A, true), b"0\n");
    vm.mov(Reg::A, Source::Lit(255));
    assert_eq!(vm.print(Reg::A, true), b"255\n");
    vm.mov(Reg::A, Source::Lit(100));
    assert_eq!(vm.print(Reg::A, false), b"100");
    vm.mov(Reg::A, Source::Lit(7));
    assert_eq!(vm.print(Reg::A, false), b"7");
}

#[test]
fn printch_formats_character() {
    let mut vm = fresh();
    vm.mov(Reg::A, Source::Lit(65));
    assert_eq!(vm.printch(Reg::A, true), b"A\n");
    assert_eq!(vm.printch(Reg::A, false), b"A");
    // a byte above 127 prints as that character, two bytes in UTF-8
    vm.mov(Reg::A, Source::Lit(200));
    assert_eq!(vm.printch(Reg::A, false), vec![0xC3, 0x88]);
    let expected: String = (200u8 as char).to_string();
    assert_eq!(vm.printch(Reg::A, false), expected.as_bytes());
}

#[test]
fn render_screen_is_a_bordered_block() {
    let mut vm = fresh();
    let out = vm.render_screen();
    // border, 25 rows, border; every cell a space, so one byte per cell
    let border: Vec<u8> = {
        let mut b = vec![b'+'];
        b.extend(std::iter::repeat(b'-').take(80));
        b.push(b'+');
        b.push(b'\n');
        b
    };
    assert_eq!(out.len(), 27 * 83);
    assert_eq!(&out[0..83], border.as_slice());
    assert_eq!(&out[26 * 83..], border.as_slice());
    assert_eq!(out[83], b'|');
    assert_eq!(out[83 + 81], b'|');
    assert!(out[84..83 + 81].iter().all(|&c| c == b' '));
    // a drawn character shows up at its row and column
    vm.draw(Source::Lit(3), Source::Lit(0), Source::Lit(88));
    let out2 = vm.render_screen();
    assert_eq!(out2[83 + 1 + 3], 88);
}

#[test]
fn new_machine_is_blank() {
    let vm = fresh();
    assert_eq!(vm.pc, 0);
    assert!(!vm.zf);
    assert_eq!(vm.reg, vec![0u8; 5]);
    assert_eq!(vm.mem.len(), 256);
    assert!(vm.mem.iter().all(|&b| b == 0));
    assert_eq!(vm.screen.len(), 2000);
    assert!(vm.screen.iter().all(|&b| b == 32));
    assert!(vm.program.is_empty());
}

#[test]
fn load_program_and_reg_index() {
    let mut vm = fresh();
    vm.load_program(vec![Instruction::HALT]);
    assert_eq!(vm.program.len(), 1);
    assert_eq!(vm.reg_index(Reg::A), 0);
    assert_eq!(vm.reg_index(Reg::B), 1);
    assert_eq!(vm.reg_index(Reg::C), 2);
    assert_eq!(vm.reg_index(Reg::D), 3);
    assert_eq!(vm.reg_index(Reg::E), 4);
}
