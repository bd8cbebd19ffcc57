//! The execution engine: machine state, operand resolution, and the
//! semantics of every instruction.
//!
//! The machine owns five 8-bit registers, 256 bytes of memory, a program
//! counter, a zero flag, and an 80x25 display buffer stored row-major as
//! 2000 bytes. Arithmetic wraps modulo 256. Division and modulus by a
//! zero-valued operand are fatal and reported as errors, never panics.
//!
//! Instructions that touch the outside world (printing, keyboard, random
//! bytes, sleeping, clearing the terminal) are surfaced through
//! [`Vm::step`] as [`StepOutcome`] values: the caller performs the
//! effect and hands any produced value back through [`Vm::input`],
//! [`Vm::inkey`] or [`Vm::random`]. Everything the machine itself does
//! is specified against the ghost model [`VmModel`].

use vstd::prelude::*;
use crate::text::{is_dec, dec_val, dec_of, trim_of, utf8_of};
use crate::text::{parse_u8, trim_bytes, u8_to_dec, byte_utf8};

verus! {

/// One of the five registers, A through E.
#[derive(Clone, Copy, Debug, PartialEq, Eq, Structural)]
pub enum Reg {
    A,
    B,
    C,
    D,
    E,
}

/// A memory addressing mode: an absolute address, or the current value
/// of a register used as the address.
#[derive(Clone, Copy, Debug, PartialEq, Eq, Structural)]
pub enum MemSrc {
    Reg(Reg),
    Addr(u8),
}

/// An operand: a register, a memory reference, or an immediate literal.
#[derive(Clone, Copy, Debug, PartialEq, Eq, Structural)]
pub enum Source {
    Reg(Reg),
    Mem(MemSrc),
    Lit(u8),
}

/// One machine instruction.
#[derive(Clone, Copy, Debug, PartialEq, Eq, Structural)]
pub enum Instruction {
    MOV(Reg, Source),
    STORE(Reg, MemSrc),
    ADD(Reg, Source),
    SUB(Reg, Source),
    MUL(Reg, Source),
    MULH(Reg, Reg, Reg),
    DIV(Reg, Source),
    MOD(Reg, Source),
    JMP(usize),
    JZ(usize),
    JNZ(usize),
    LOOP(usize, Reg),
    PRINT(Reg, bool),
    PRINTCH(Reg, bool),
    INPUT(Reg),
    INKEY(Reg),
    DRAW(Source, Source, Source),
    SLP(usize),
    CMP(Reg, Source),
    RAND(Reg),
    CLS,
    CTS,
    RENDER,
    HALT,
}

/// A fatal runtime error: execution stops at once.
#[derive(Clone, Copy, Debug, PartialEq, Eq, Structural)]
pub enum VmError {
    DivisionByZero,
    InvalidInput,
}

/// A key reported by the keyboard poll, already mapped away from any
/// particular terminal backend.
#[derive(Clone, Copy, Debug, PartialEq, Eq, Structural)]
pub enum KeyPress {
    Char(u8),
    Enter,
    Tab,
    Backspace,
    Esc,
    Other,
}

/// What one execution step asks of its caller.
///
/// `Ran` means the instruction completed internally. `Output` carries
/// bytes to write to the output stream. The `Need...` outcomes name a
/// peripheral value the caller must produce and hand back through the
/// matching entry point; the program counter has already advanced.
#[derive(Debug)]
pub enum StepOutcome {
    Ran,
    Output(Vec<u8>),
    NeedInput(Reg),
    NeedKey(Reg),
    NeedRand(Reg),
    Sleep(usize),
    ClearTerminal,
    Halted,
    Failed(VmError),
}

/// The machine state: registers, memory, program, program counter, zero
/// flag, and the display buffer stored row-major (`screen[y * 80 + x]`).
#[derive(Debug)]
pub struct Vm {
    pub pc: u16,
    pub reg: Vec<u8>,
    pub mem: Vec<u8>,
    pub program: Vec<Instruction>,
    pub zf: bool,
    pub screen: Vec<u8>,
}

/// The mathematical model of a machine state.
#[verifier::ext_equal]
pub ghost struct VmModel {
    pub pc: nat,
    pub reg: Seq<u8>,
    pub mem: Seq<u8>,
    pub program: Seq<Instruction>,
    pub zf: bool,
    pub screen: Seq<u8>,
}

impl View for Vm {
    type V = VmModel;

    open spec fn view(&self) -> VmModel {
        VmModel {
            pc: self.pc as nat,
            reg: self.reg@,
            mem: self.mem@,
            program: self.program@,
            zf: self.zf,
            screen: self.screen@,
        }
    }
}

/// Index of a register in the register file.
pub open spec fn reg_idx(r: Reg) -> int {
    match r {
        Reg::A => 0,
        Reg::B => 1,
        Reg::C => 2,
        Reg::D => 3,
        Reg::E => 4,
    }
}

impl VmModel {
    /// Shapes every machine state keeps: five registers, 256 memory
    /// cells, a 2000-cell screen, and a program short enough that every
    /// position fits the 16-bit program counter.
    pub open spec fn wf(self) -> bool {
        &&& self.reg.len() == 5
        &&& self.mem.len() == 256
        &&& self.screen.len() == 2000
        &&& self.program.len() <= 0xFFFF
    }

    /// The current value of a register.
    pub open spec fn reg_val(self, r: Reg) -> u8 {
        self.reg[reg_idx(r)]
    }

    /// The address a memory reference denotes: the literal address, or
    /// the named register's current value.
    pub open spec fn addr_of(self, m: MemSrc) -> u8 {
        match m {
            MemSrc::Addr(a) => a,
            MemSrc::Reg(r) => self.reg_val(r),
        }
    }

    /// The byte an operand resolves to: a literal yields itself, a
    /// register its value, a memory reference the byte at its address.
    pub open spec fn resolve(self, s: Source) -> u8 {
        match s {
            Source::Lit(v) => v,
            Source::Reg(r) => self.reg_val(r),
            Source::Mem(m) => self.mem[self.addr_of(m) as int],
        }
    }

    /// The same state with the program counter moved to the next
    /// instruction.
    pub open spec fn advanced(self) -> VmModel {
        VmModel { pc: (self.pc + 1) as nat, ..self }
    }

    /// MOV: the resolved source is copied into the register; the zero
    /// flag says whether the moved value is zero.
    pub open spec fn mov_post(self, r: Reg, s: Source) -> VmModel {
        let v = self.resolve(s);
        VmModel { reg: self.reg.update(reg_idx(r), v), zf: v == 0, ..self }
    }

    /// STORE: the register's value is written to memory at the resolved
    /// address; no flag changes.
    pub open spec fn store_post(self, r: Reg, m: MemSrc) -> VmModel {
        VmModel { mem: self.mem.update(self.addr_of(m) as int, self.reg_val(r)), ..self }
    }

    /// ADD: wrapping sum into the register; zero flag from the result.
    pub open spec fn add_post(self, r: Reg, s: Source) -> VmModel {
        let v = ((self.reg_val(r) + self.resolve(s)) % 256) as u8;
        VmModel { reg: self.reg.update(reg_idx(r), v), zf: v == 0, ..self }
    }

    /// SUB: wrapping difference into the register; zero flag from the
    /// result.
    pub open spec fn sub_post(self, r: Reg, s: Source) -> VmModel {
        let v = ((self.reg_val(r) - self.resolve(s) + 256) % 256) as u8;
        VmModel { reg: self.reg.update(reg_idx(r), v), zf: v == 0, ..self }
    }

    /// MUL: wrapping product into the register; zero flag from the
    /// result.
    pub open spec fn mul_post(self, r: Reg, s: Source) -> VmModel {
        let v = ((self.reg_val(r) * self.resolve(s)) % 256) as u8;
        VmModel { reg: self.reg.update(reg_idx(r), v), zf: v == 0, ..self }
    }

    /// DIV: quotient into the register; zero flag from the result. Only
    /// meaningful when the resolved divisor is nonzero.
    pub open spec fn div_post(self, r: Reg, s: Source) -> VmModel {
        let v = (self.reg_val(r) / self.resolve(s)) as u8;
        VmModel { reg: self.reg.update(reg_idx(r), v), zf: v == 0, ..self }
    }

    /// MOD: remainder into the register; zero flag from the result.
    /// Only meaningful when the resolved divisor is nonzero.
    pub open spec fn mod_post(self, r: Reg, s: Source) -> VmModel {
        let v = (self.reg_val(r) % self.resolve(s)) as u8;
        VmModel { reg: self.reg.update(reg_idx(r), v), zf: v == 0, ..self }
    }

    /// MULH: the high byte of the 16-bit product of two registers goes
    /// into the destination; zero flag from that high byte.
    pub open spec fn mulh_post(self, dest: Reg, s1: Reg, s2: Reg) -> VmModel {
        let v = ((self.reg_val(s1) * self.reg_val(s2)) / 256) as u8;
        VmModel { reg: self.reg.update(reg_idx(dest), v), zf: v == 0, ..self }
    }

    /// CMP: the zero flag records whether the register equals the
    /// resolved source; nothing else changes.
    pub open spec fn cmp_post(self, r: Reg, s: Source) -> VmModel {
        VmModel { zf: self.reg_val(r) == self.resolve(s), ..self }
    }

    /// JMP: the program counter becomes the target, truncated to its
    /// 16-bit width.
    pub open spec fn jmp_post(self, addr: usize) -> VmModel {
        VmModel { pc: (addr as u16) as nat, ..self }
    }

    /// JZ: jump if the zero flag is set, else fall through to the next
    /// instruction.
    pub open spec fn jz_post(self, addr: usize) -> VmModel {
        if self.zf {
            VmModel { pc: (addr as u16) as nat, ..self }
        } else {
            VmModel { pc: (self.pc + 1) as nat, ..self }
        }
    }

    /// JNZ: jump if the zero flag is clear, else fall through.
    pub open spec fn jnz_post(self, addr: usize) -> VmModel {
        if !self.zf {
            VmModel { pc: (addr as u16) as nat, ..self }
        } else {
            VmModel { pc: (self.pc + 1) as nat, ..self }
        }
    }

    /// LOOP: jump while the named register is nonzero, else fall
    /// through. The register itself is not decremented.
    pub open spec fn loop_post(self, addr: usize, r: Reg) -> VmModel {
        if self.reg_val(r) > 0 {
            VmModel { pc: (addr as u16) as nat, ..self }
        } else {
            VmModel { pc: (self.pc + 1) as nat, ..self }
        }
    }

    /// DRAW: the normalized character is written at column x of row y
    /// when both coordinates are in bounds; an out-of-bounds write is
    /// dropped without any other effect.
    pub open spec fn draw_post(self, x: Source, y: Source, c: Source) -> VmModel {
        let xv = self.resolve(x);
        let yv = self.resolve(y);
        let cv = norm_char(self.resolve(c));
        if xv < 80 && yv < 25 {
            VmModel { screen: self.screen.update(yv * 80 + xv, cv), ..self }
        } else {
            self
        }
    }

    /// CLS: every screen cell becomes a space.
    pub open spec fn cls_post(self) -> VmModel {
        VmModel { screen: Seq::new(2000, |i: int| 32u8), ..self }
    }

    /// The lines INPUT accepts: after trimming, a decimal byte, a
    /// single character, or nothing at all.
    pub open spec fn input_accepts(self, line: Seq<u8>) -> bool {
        let t = trim_of(line);
        (is_dec(t) && dec_val(t) <= 255) || t.len() <= 1
    }

    /// INPUT on an accepted line: a decimal byte stores its value, a
    /// single character stores its byte, an empty line stores zero and
    /// sets the zero flag (the flag is untouched otherwise).
    pub open spec fn input_post(self, r: Reg, line: Seq<u8>) -> VmModel {
        let t = trim_of(line);
        if is_dec(t) && dec_val(t) <= 255 {
            VmModel { reg: self.reg.update(reg_idx(r), dec_val(t) as u8), ..self }
        } else if t.len() == 1 {
            VmModel { reg: self.reg.update(reg_idx(r), t[0]), ..self }
        } else {
            VmModel { reg: self.reg.update(reg_idx(r), 0u8), zf: true, ..self }
        }
    }

    /// INKEY: the mapped key byte (zero when nothing was pending) goes
    /// into the register; the zero flag says whether it is zero.
    pub open spec fn inkey_post(self, r: Reg, key: Option<KeyPress>) -> VmModel {
        let v = key_byte_of(key);
        VmModel { reg: self.reg.update(reg_idx(r), v), zf: v == 0, ..self }
    }

    /// RAND: the supplied byte goes into the register; the zero flag is
    /// untouched.
    pub open spec fn rand_post(self, r: Reg, v: u8) -> VmModel {
        VmModel { reg: self.reg.update(reg_idx(r), v), ..self }
    }

    /// The bytes PRINT emits: the register's value as a decimal
    /// numeral, newline-terminated unless suppressed.
    pub open spec fn print_out(self, r: Reg, newline: bool) -> Seq<u8> {
        dec_of(self.reg_val(r) as nat) + (if newline {
            seq![10u8]
        } else {
            Seq::<u8>::empty()
        })
    }

    /// The bytes PRINTCH emits: the register's value read as a
    /// character, newline-terminated unless suppressed.
    pub open spec fn printch_out(self, r: Reg, newline: bool) -> Seq<u8> {
        utf8_of(self.reg_val(r)) + (if newline {
            seq![10u8]
        } else {
            Seq::<u8>::empty()
        })
    }
}

/// Control characters and the null byte are drawn as spaces; every
/// other byte is drawn as itself.
pub open spec fn norm_char(b: u8) -> u8 {
    if b < 32 || b == 127 || (128 <= b && b <= 159) {
        32
    } else {
        b
    }
}

/// The byte a polled key stands for: a printable key its own byte,
/// Enter 10, Tab 9, Backspace 8, Escape 27, anything else (or no key
/// pending) 0.
pub open spec fn key_byte_of(key: Option<KeyPress>) -> u8 {
    match key {
        Option::None => 0,
        Option::Some(KeyPress::Char(c)) => c,
        Option::Some(KeyPress::Enter) => 10,
        Option::Some(KeyPress::Tab) => 9,
        Option::Some(KeyPress::Backspace) => 8,
        Option::Some(KeyPress::Esc) => 27,
        Option::Some(KeyPress::Other) => 0,
    }
}

/// The horizontal border of the rendered screen: a corner, eighty
/// dashes, a corner, a newline.
pub open spec fn border_bytes() -> Seq<u8> {
    seq![43u8] + Seq::new(80, |i: int| 45u8) + seq![43u8, 10u8]
}

/// The rendered cells of row `y`, from column `x` to the right edge.
pub open spec fn row_cells(s: Seq<u8>, y: int, x: int) -> Seq<u8>
    decreases 80 - x,
{
    if x < 0 || x >= 80 {
        Seq::<u8>::empty()
    } else {
        utf8_of(s[y * 80 + x]) + row_cells(s, y, x + 1)
    }
}

/// One rendered row: a bar, the row's cells, a bar, a newline.
pub open spec fn row_bytes(s: Seq<u8>, y: int) -> Seq<u8> {
    seq![124u8] + row_cells(s, y, 0) + seq![124u8, 10u8]
}

/// The rendered rows from `y` to the bottom edge.
pub open spec fn rows_from(s: Seq<u8>, y: int) -> Seq<u8>
    decreases 25 - y,
{
    if y < 0 || y >= 25 {
        Seq::<u8>::empty()
    } else {
        row_bytes(s, y) + rows_from(s, y + 1)
    }
}

/// The full rendered screen: a border, twenty-five rows, a border.
pub open spec fn render_of(s: Seq<u8>) -> Seq<u8> {
    border_bytes() + rows_from(s, 0) + border_bytes()
}

/// What one execution step does: how the new state `post` and the
/// outcome `r` follow from the old state `pre`, by the instruction at
/// the old program counter.
///
/// A counter at or past the end of the program halts, as HALT does.
/// Control transfers own the counter; every other instruction advances
/// it by one. DIV and MOD with a zero-valued resolved divisor fail
/// fatally and change nothing. Instructions that need the outside
/// world (output bytes, a line of input, a key, a random byte, a
/// sleep, clearing the terminal) advance the counter and hand the
/// request to the caller.
pub open spec fn step_rel(pre: VmModel, post: VmModel, r: StepOutcome) -> bool {
    if pre.pc >= pre.program.len() {
        post == pre && r == StepOutcome::Halted
    } else {
        match pre.program[pre.pc as int] {
            Instruction::MOV(rg, s) => post == pre.mov_post(rg, s).advanced() && r
                == StepOutcome::Ran,
            Instruction::STORE(rg, ms) => post == pre.store_post(rg, ms).advanced() && r
                == StepOutcome::Ran,
            Instruction::ADD(rg, s) => post == pre.add_post(rg, s).advanced() && r
                == StepOutcome::Ran,
            Instruction::SUB(rg, s) => post == pre.sub_post(rg, s).advanced() && r
                == StepOutcome::Ran,
            Instruction::MUL(rg, s) => post == pre.mul_post(rg, s).advanced() && r
                == StepOutcome::Ran,
            Instruction::MULH(d, s1, s2) => post == pre.mulh_post(d, s1, s2).advanced() && r
                == StepOutcome::Ran,
            Instruction::DIV(rg, s) => if pre.resolve(s) == 0 {
                post == pre && r == StepOutcome::Failed(VmError::DivisionByZero)
            } else {
                post == pre.div_post(rg, s).advanced() && r == StepOutcome::Ran
            },
            Instruction::MOD(rg, s) => if pre.resolve(s) == 0 {
                post == pre && r == StepOutcome::Failed(VmError::DivisionByZero)
            } else {
                post == pre.mod_post(rg, s).advanced() && r == StepOutcome::Ran
            },
            Instruction::JMP(a) => post == pre.jmp_post(a) && r == StepOutcome::Ran,
            Instruction::JZ(a) => post == pre.jz_post(a) && r == StepOutcome::Ran,
            Instruction::JNZ(a) => post == pre.jnz_post(a) && r == StepOutcome::Ran,
            Instruction::LOOP(a, rg) => post == pre.loop_post(a, rg) && r == StepOutcome::Ran,
            Instruction::PRINT(rg, nl) => post == pre.advanced() && (r matches StepOutcome::Output(
                o,
            ) && o@ == pre.print_out(rg, nl)),
            Instruction::PRINTCH(rg, nl) => post == pre.advanced() && (r
                matches StepOutcome::Output(o) && o@ == pre.printch_out(rg, nl)),
            Instruction::INPUT(rg) => post == pre.advanced() && r == StepOutcome::NeedInput(rg),
            Instruction::INKEY(rg) => post == pre.advanced() && r == StepOutcome::NeedKey(rg),
            Instruction::DRAW(x, y, c) => post == pre.draw_post(x, y, c).advanced() && r
                == StepOutcome::Ran,
            Instruction::SLP(d) => post == pre.advanced() && r == StepOutcome::Sleep(d),
            Instruction::CMP(rg, s) => post == pre.cmp_post(rg, s).advanced() && r
                == StepOutcome::Ran,
            Instruction::RAND(rg) => post == pre.advanced() && r == StepOutcome::NeedRand(rg),
            Instruction::CLS => post == pre.cls_post().advanced() && r == StepOutcome::Ran,
            Instruction::CTS => post == pre.advanced() && r == StepOutcome::ClearTerminal,
            Instruction::RENDER => post == pre.advanced() && (r matches StepOutcome::Output(o) && o@
                == render_of(pre.screen)),
            Instruction::HALT => post == pre && r == StepOutcome::Halted,
        }
    }
}

impl Vm {
    /// Everything [`VmModel::wf`] asks, on the executable state.
    pub open spec fn wf(&self) -> bool {
        self@.wf()
    }

    /// A fresh machine: counters and cells zero, flag clear, screen
    /// blank, no program.
    pub fn new() -> (r: Vm)
        ensures
            r.wf(),
            r@.pc == 0,
            r@.reg == Seq::new(5, |i: int| 0u8),
            r@.mem == Seq::new(256, |i: int| 0u8),
            r@.program == Seq::<Instruction>::empty(),
            r@.zf == false,
            r@.screen == Seq::new(2000, |i: int| 32u8),
    {
        let r = Vm {
            pc: 0,
            reg: filled_vec(5, 0),
            mem: filled_vec(256, 0),
            program: Vec::new(),
            zf: false,
            screen: filled_vec(2000, 32),
        };
        r
    }

    /// Installs a program. The length bound keeps every instruction
    /// index representable in the 16-bit program counter.
    pub fn load_program(&mut self, program: Vec<Instruction>)
        requires
            old(self).wf(),
            program@.len() <= 0xFFFF,
        ensures
            final(self).wf(),
            final(self)@ == (VmModel { program: program@, ..old(self)@ }),
    {
        self.program = program;
        proof {
            assert(self@ =~= (VmModel { program: self.program@, ..old(self)@ }));
        }
    }

    /// Index of a register in the register file.
    pub fn reg_index(&self, reg: Reg) -> (r: usize)
        ensures
            r == reg_idx(reg),
    {
        match reg {
            Reg::A => 0,
            Reg::B => 1,
            Reg::C => 2,
            Reg::D => 3,
            Reg::E => 4,
        }
    }

    /// The address a memory reference denotes right now.
    pub fn mem_addr(&self, m: MemSrc) -> (r: u8)
        requires
            self.wf(),
        ensures
            r == self@.addr_of(m),
    {
        match m {
            MemSrc::Addr(a) => a,
            MemSrc::Reg(rg) => self.reg[self.reg_index(rg)],
        }
    }

    /// Resolves an operand to a byte. Pure: resolving the same operand
    /// twice in a row gives the same byte.
    pub fn resolve(&self, src: Source) -> (r: u8)
        requires
            self.wf(),
        ensures
            r == self@.resolve(src),
    {
        match src {
            Source::Lit(v) => v,
            Source::Reg(rg) => self.reg[self.reg_index(rg)],
            Source::Mem(m) => self.mem[self.mem_addr(m) as usize],
        }
    }

    /// MOV: copy the resolved source into the register; the zero flag
    /// records whether the moved value is zero.
    pub fn mov(&mut self, reg: Reg, src: Source)
        requires
            old(self).wf(),
        ensures
            final(self).wf(),
            final(self)@ == old(self)@.mov_post(reg, src),
    {
        let v = self.resolve(src);
        let i = self.reg_index(reg);
        self.reg.set(i, v);
        self.zf = v == 0;
        proof {
            assert(self@ =~= old(self)@.mov_post(reg, src));
        }
    }

    /// STORE: write the register's value to memory at the resolved
    /// address; the zero flag is untouched.
    pub fn store(&mut self, reg: Reg, mem_src: MemSrc)
        requires
            old(self).wf(),
        ensures
            final(self).wf(),
            final(self)@ == old(self)@.store_post(reg, mem_src),
    {
        let a = self.mem_addr(mem_src);
        let i = self.reg_index(reg);
        let v = self.reg[i];
        self.mem.set(a as usize, v);
        proof {
            assert(self@ =~= old(self)@.store_post(reg, mem_src));
        }
    }

    /// ADD: wrapping sum of the register and the resolved source; the
    /// zero flag records whether the result is zero.
    pub fn add(&mut self, reg: Reg, src: Source)
        requires
            old(self).wf(),
        ensures
            final(self).wf(),
            final(self)@ == old(self)@.add_post(reg, src),
    {
        let v = self.resolve(src);
        let i = self.reg_index(reg);
        let a = self.reg[i];
        let r = ((a as u16 + v as u16) % 256) as u8;
        self.zf = r == 0;
        self.reg.set(i, r);
        proof {
            assert(self@ =~= old(self)@.add_post(reg, src));
        }
    }

    /// SUB: wrapping difference; the zero flag records whether the
    /// result is zero.
    pub fn sub(&mut self, reg: Reg, src: Source)
        requires
            old(self).wf(),
        ensures
            final(self).wf(),
            final(self)@ == old(self)@.sub_post(reg, src),
    {
        let v = self.resolve(src);
        let i = self.reg_index(reg);
        let a = self.reg[i];
        let r = ((a as u16 + 256 - v as u16) % 256) as u8;
        self.zf = r == 0;
        self.reg.set(i, r);
        proof {
            assert(self@ =~= old(self)@.sub_post(reg, src));
        }
    }

    /// MUL: wrapping product; the zero flag records whether the result
    /// is zero.
    pub fn mul(&mut self, reg: Reg, src: Source)
        requires
            old(self).wf(),
        ensures
            final(self).wf(),
            final(self)@ == old(self)@.mul_post(reg, src),
    {
        let v = self.resolve(src);
        let i = self.reg_index(reg);
        let a = self.reg[i];
        proof {
            assert(a as int * v as int <= 255 * 255) by (nonlinear_arith)
                requires a <= 255 && v <= 255;
        }
        let r = ((a as u16 * v as u16) % 256) as u8;
        self.zf = r == 0;
        self.reg.set(i, r);
        proof {
            assert(self@ =~= old(self)@.mul_post(reg, src));
        }
    }

    /// DIV: fatal if the resolved divisor is zero, in which case the
    /// state is unchanged; otherwise the quotient goes into the
    /// register and the zero flag records whether it is zero.
    pub fn div(&mut self, reg: Reg, src: Source) -> (res: Result<(), VmError>)
        requires
            old(self).wf(),
        ensures
            final(self).wf(),
            old(self)@.resolve(src) == 0 ==> res == Err::<(), VmError>(VmError::DivisionByZero)
                && final(self)@ == old(self)@,
            old(self)@.resolve(src) != 0 ==> res == Ok::<(), VmError>(())
                && final(self)@ == old(self)@.div_post(reg, src),
    {
        let v = self.resolve(src);
        if v == 0 {
            return Err(VmError::DivisionByZero);
        }
        let i = self.reg_index(reg);
        let a = self.reg[i];
        let r = a / v;
        self.zf = r == 0;
        self.reg.set(i, r);
        proof {
            assert(self@ =~= old(self)@.div_post(reg, src));
        }
        Ok(())
    }

    /// MOD: fatal if the resolved divisor is zero, in which case the
    /// state is unchanged; otherwise the remainder goes into the
    /// register and the zero flag records whether it is zero.
    pub fn mod_fn(&mut self, reg: Reg, src: Source) -> (res: Result<(), VmError>)
        requires
            old(self).wf(),
        ensures
            final(self).wf(),
            old(self)@.resolve(src) == 0 ==> res == Err::<(), VmError>(VmError::DivisionByZero)
                && final(self)@ == old(self)@,
            old(self)@.resolve(src) != 0 ==> res == Ok::<(), VmError>(())
                && final(self)@ == old(self)@.mod_post(reg, src),
    {
        let v = self.resolve(src);
        if v == 0 {
            return Err(VmError::DivisionByZero);
        }
        let i = self.reg_index(reg);
        let a = self.reg[i];
        let r = a % v;
        self.zf = r == 0;
        self.reg.set(i, r);
        proof {
            assert(self@ =~= old(self)@.mod_post(reg, src));
        }
        Ok(())
    }

    /// MULH: the high byte of the 16-bit product of two registers; the
    /// zero flag records whether that high byte is zero.
    pub fn mulh(&mut self, dest: Reg, src1: Reg, src2: Reg)
        requires
            old(self).wf(),
        ensures
            final(self).wf(),
            final(self)@ == old(self)@.mulh_post(dest, src1, src2),
    {
        let a = self.reg[self.reg_index(src1)];
        let b = self.reg[self.reg_index(src2)];
        proof {
            assert(a as int * b as int <= 255 * 255) by (nonlinear_arith)
                requires a <= 255 && b <= 255;
        }
        let product = (a as u16) * (b as u16);
        let h = (product / 256) as u8;
        let i = self.reg_index(dest);
        self.reg.set(i, h);
        self.zf = h == 0;
        proof {
            assert(self@ =~= old(self)@.mulh_post(dest, src1, src2));
        }
    }

    /// CMP: the zero flag records whether the register equals the
    /// resolved source.
    pub fn cmp(&mut self, reg: Reg, src: Source)
        requires
            old(self).wf(),
        ensures
            final(self).wf(),
            final(self)@ == old(self)@.cmp_post(reg, src),
    {
        let v = self.resolve(src);
        let i = self.reg_index(reg);
        self.zf = self.reg[i] == v;
        proof {
            assert(self@ =~= old(self)@.cmp_post(reg, src));
        }
    }

    /// JMP: unconditional transfer; the target is truncated to the
    /// program counter's 16-bit width.
    pub fn jmp(&mut self, addr: usize)
        requires
            old(self).wf(),
        ensures
            final(self).wf(),
            final(self)@ == old(self)@.jmp_post(addr),
    {
        self.pc = addr as u16;
        proof {
            assert(self@ =~= old(self)@.jmp_post(addr));
        }
    }

    /// JZ: transfer when the zero flag is set, else advance by exactly
    /// one, so a not-taken branch never re-runs the instruction that
    /// set the flag.
    pub fn jz(&mut self, addr: usize)
        requires
            old(self).wf(),
            old(self).pc < 0xFFFF,
        ensures
            final(self).wf(),
            final(self)@ == old(self)@.jz_post(addr),
    {
        if self.zf {
            self.pc = addr as u16;
        } else {
            self.pc = self.pc + 1;
        }
        proof {
            assert(self@ =~= old(self)@.jz_post(addr));
        }
    }

    /// JNZ: transfer when the zero flag is clear, else advance by
    /// exactly one.
    pub fn jnz(&mut self, addr: usize)
        requires
            old(self).wf(),
            old(self).pc < 0xFFFF,
        ensures
            final(self).wf(),
            final(self)@ == old(self)@.jnz_post(addr),
    {
        if !self.zf {
            self.pc = addr as u16;
        } else {
            self.pc = self.pc + 1;
        }
        proof {
            assert(self@ =~= old(self)@.jnz_post(addr));
        }
    }

    /// LOOP: transfer while the named register is nonzero, else advance
    /// by one. The register is not decremented here.
    pub fn loop_fn(&mut self, addr: usize, reg: Reg)
        requires
            old(self).wf(),
            old(self).pc < 0xFFFF,
        ensures
            final(self).wf(),
            final(self)@ == old(self)@.loop_post(addr, reg),
    {
        let i = self.reg_index(reg);
        if self.reg[i] > 0 {
            self.pc = addr as u16;
        } else {
            self.pc = self.pc + 1;
        }
        proof {
            assert(self@ =~= old(self)@.loop_post(addr, reg));
        }
    }

    /// DRAW: resolve the two coordinates and the character, normalize
    /// control characters to a space, and write the cell when the
    /// coordinates are in bounds; otherwise do nothing.
    pub fn draw(&mut self, x: Source, y: Source, src: Source)
        requires
            old(self).wf(),
        ensures
            final(self).wf(),
            final(self)@ == old(self)@.draw_post(x, y, src),
    {
        let x_val = self.resolve(x);
        let y_val = self.resolve(y);
        let c = self.resolve(src);
        let c = if c < 32 || c == 127 || (128 <= c && c <= 159) {
            32
        } else {
            c
        };
        if x_val < 80 && y_val < 25 {
            self.screen.set(y_val as usize * 80 + x_val as usize, c);
        }
        proof {
            assert(self@ =~= old(self)@.draw_post(x, y, src));
        }
    }

    /// CLS: reset every screen cell to a space.
    pub fn cls(&mut self)
        requires
            old(self).wf(),
        ensures
            final(self).wf(),
            final(self)@ == old(self)@.cls_post(),
    {
        self.screen = filled_vec(2000, 32);
        proof {
            assert(self@ =~= old(self)@.cls_post());
        }
    }

    /// INPUT applied to an already-read line: a decimal byte stores its
    /// value, a single character stores its byte, an empty line stores
    /// zero and sets the zero flag; anything else is fatal and leaves
    /// the state unchanged.
    pub fn input(&mut self, reg: Reg, line: &[u8]) -> (res: Result<(), VmError>)
        requires
            old(self).wf(),
        ensures
            final(self).wf(),
            old(self)@.input_accepts(line@) ==> res == Ok::<(), VmError>(())
                && final(self)@ == old(self)@.input_post(reg, line@),
            !old(self)@.input_accepts(line@) ==> res == Err::<(), VmError>(VmError::InvalidInput)
                && final(self)@ == old(self)@,
    {
        let t = trim_bytes(line);
        let i = self.reg_index(reg);
        match parse_u8(t.as_slice()) {
            Some(v) => {
                self.reg.set(i, v);
            },
            None => {
                if t.len() == 1 {
                    let b = t[0];
                    self.reg.set(i, b);
                } else if t.len() == 0 {
                    self.zf = true;
                    self.reg.set(i, 0);
                } else {
                    return Err(VmError::InvalidInput);
                }
            },
        }
        proof {
            assert(self@ =~= old(self)@.input_post(reg, line@));
        }
        Ok(())
    }

    /// INKEY applied to the result of a non-blocking key poll: the
    /// mapped byte goes into the register and the zero flag records
    /// whether it is zero (no pending key maps to zero).
    pub fn inkey(&mut self, reg: Reg, key: Option<KeyPress>)
        requires
            old(self).wf(),
        ensures
            final(self).wf(),
            final(self)@ == old(self)@.inkey_post(reg, key),
    {
        let v: u8 = match key {
            None => 0,
            Some(KeyPress::Char(c)) => c,
            Some(KeyPress::Enter) => 10,
            Some(KeyPress::Tab) => 9,
            Some(KeyPress::Backspace) => 8,
            Some(KeyPress::Esc) => 27,
            Some(KeyPress::Other) => 0,
        };
        self.zf = v == 0;
        let i = self.reg_index(reg);
        self.reg.set(i, v);
        proof {
            assert(self@ =~= old(self)@.inkey_post(reg, key));
        }
    }

    /// RAND applied to an externally produced byte: store it in the
    /// register without touching the zero flag.
    pub fn random(&mut self, reg: Reg, value: u8)
        requires
            old(self).wf(),
        ensures
            final(self).wf(),
            final(self)@ == old(self)@.rand_post(reg, value),
    {
        let i = self.reg_index(reg);
        self.reg.set(i, value);
        proof {
            assert(self@ =~= old(self)@.rand_post(reg, value));
        }
    }

    /// The bytes PRINT emits: the register's value as a decimal
    /// numeral, with a trailing newline unless suppressed.
    pub fn print(&self, reg: Reg, newline: bool) -> (r: Vec<u8>)
        requires
            self.wf(),
        ensures
            r@ == self@.print_out(reg, newline),
    {
        let i = self.reg_index(reg);
        let mut out = u8_to_dec(self.reg[i]);
        if newline {
            out.push(10);
        }
        proof {
            assert(out@ =~= self@.print_out(reg, newline));
        }
        out
    }

    /// The bytes PRINTCH emits: the register's value read as a
    /// character, with a trailing newline unless suppressed.
    pub fn printch(&self, reg: Reg, newline: bool) -> (r: Vec<u8>)
        requires
            self.wf(),
        ensures
            r@ == self@.printch_out(reg, newline),
    {
        let i = self.reg_index(reg);
        let mut out = byte_utf8(self.reg[i]);
        if newline {
            out.push(10);
        }
        proof {
            assert(out@ =~= self@.printch_out(reg, newline));
        }
        out
    }

    /// One fetch-decode-execute step, related to the old state by
    /// [`step_rel`]: pure instructions run to completion, instructions
    /// that need the outside world advance the counter and report what
    /// the caller must do, HALT and a counter past the end of the
    /// program halt, and a zero-valued divisor fails fatally.
    #[verifier::rlimit(100)]
    #[verifier::spinoff_prover]
    pub fn step(&mut self) -> (r: StepOutcome)
        requires
            old(self).wf(),
        ensures
            final(self).wf(),
            step_rel(old(self)@, final(self)@, r),
    {
        if self.pc as usize >= self.program.len() {
            return StepOutcome::Halted;
        }
        let ins = self.program[self.pc as usize];
        match ins {
            Instruction::MOV(rg, s) => {
                self.mov(rg, s);
                self.pc = self.pc + 1;
                proof {
                    assert(self@ =~= old(self)@.mov_post(rg, s).advanced());
                }
                return StepOutcome::Ran;
            },
            Instruction::STORE(rg, ms) => {
                self.store(rg, ms);
                self.pc = self.pc + 1;
                proof {
                    assert(self@ =~= old(self)@.store_post(rg, ms).advanced());
                }
                return StepOutcome::Ran;
            },
            Instruction::ADD(rg, s) => {
                self.add(rg, s);
                self.pc = self.pc + 1;
                proof {
                    assert(self@ =~= old(self)@.add_post(rg, s).advanced());
                }
                return StepOutcome::Ran;
            },
            Instruction::SUB(rg, s) => {
                self.sub(rg, s);
                self.pc = self.pc + 1;
                proof {
                    assert(self@ =~= old(self)@.sub_post(rg, s).advanced());
                }
                return StepOutcome::Ran;
            },
            Instruction::MUL(rg, s) => {
                self.mul(rg, s);
                self.pc = self.pc + 1;
                proof {
                    assert(self@ =~= old(self)@.mul_post(rg, s).advanced());
                }
                return StepOutcome::Ran;
            },
            Instruction::MULH(d, s1, s2) => {
                self.mulh(d, s1, s2);
                self.pc = self.pc + 1;
                proof {
                    assert(self@ =~= old(self)@.mulh_post(d, s1, s2).advanced());
                }
                return StepOutcome::Ran;
            },
            Instruction::DIV(rg, s) => {
                match self.div(rg, s) {
                    Ok(()) => {
                        self.pc = self.pc + 1;
                        proof {
                            assert(self@ =~= old(self)@.div_post(rg, s).advanced());
                        }
                        return StepOutcome::Ran;
                    },
                    Err(e) => return StepOutcome::Failed(e),
                }
            },
            Instruction::MOD(rg, s) => {
                match self.mod_fn(rg, s) {
                    Ok(()) => {
                        self.pc = self.pc + 1;
                        proof {
                            assert(self@ =~= old(self)@.mod_post(rg, s).advanced());
                        }
                        return StepOutcome::Ran;
                    },
                    Err(e) => return StepOutcome::Failed(e),
                }
            },
            Instruction::JMP(a) => {
                self.jmp(a);
                return StepOutcome::Ran;
            },
            Instruction::JZ(a) => {
                self.jz(a);
                return StepOutcome::Ran;
            },
            Instruction::JNZ(a) => {
                self.jnz(a);
                return StepOutcome::Ran;
            },
            Instruction::LOOP(a, rg) => {
                self.loop_fn(a, rg);
                return StepOutcome::Ran;
            },
            Instruction::PRINT(rg, nl) => {
                let o = self.print(rg, nl);
                self.pc = self.pc + 1;
                proof {
                    assert(self@ =~= old(self)@.advanced());
                }
                return StepOutcome::Output(o);
            },
            Instruction::PRINTCH(rg, nl) => {
                let o = self.printch(rg, nl);
                self.pc = self.pc + 1;
                proof {
                    assert(self@ =~= old(self)@.advanced());
                }
                return StepOutcome::Output(o);
            },
            Instruction::INPUT(rg) => {
                self.pc = self.pc + 1;
                proof {
                    assert(self@ =~= old(self)@.advanced());
                }
                return StepOutcome::NeedInput(rg);
            },
            Instruction::INKEY(rg) => {
                self.pc = self.pc + 1;
                proof {
                    assert(self@ =~= old(self)@.advanced());
                }
                return StepOutcome::NeedKey(rg);
            },
            Instruction::DRAW(x, y, c) => {
                self.draw(x, y, c);
                self.pc = self.pc + 1;
                proof {
                    assert(self@ =~= old(self)@.draw_post(x, y, c).advanced());
                }
                return StepOutcome::Ran;
            },
            Instruction::SLP(d) => {
                self.pc = self.pc + 1;
                proof {
                    assert(self@ =~= old(self)@.advanced());
                }
                return StepOutcome::Sleep(d);
            },
            Instruction::CMP(rg, s) => {
                self.cmp(rg, s);
                self.pc = self.pc + 1;
                proof {
                    assert(self@ =~= old(self)@.cmp_post(rg, s).advanced());
                }
                return StepOutcome::Ran;
            },
            Instruction::RAND(rg) => {
                self.pc = self.pc + 1;
                proof {
                    assert(self@ =~= old(self)@.advanced());
                }
                return StepOutcome::NeedRand(rg);
            },
            Instruction::CLS => {
                self.cls();
                self.pc = self.pc + 1;
                proof {
                    assert(self@ =~= old(self)@.cls_post().advanced());
                }
                return StepOutcome::Ran;
            },
            Instruction::CTS => {
                self.pc = self.pc + 1;
                proof {
                    assert(self@ =~= old(self)@.advanced());
                }
                return StepOutcome::ClearTerminal;
            },
            Instruction::RENDER => {
                let o = self.render_screen();
                self.pc = self.pc + 1;
                proof {
                    assert(self@ =~= old(self)@.advanced());
                }
                return StepOutcome::Output(o);
            },
            Instruction::HALT => StepOutcome::Halted,
        }
    }

    /// One rendered screen row: a bar, eighty cells, a bar, a newline.
    fn render_row(&self, y: usize) -> (r: Vec<u8>)
        requires
            self.wf(),
            y < 25,
        ensures
            r@ == row_bytes(self@.screen, y as int),
    {
        let mut out: Vec<u8> = Vec::new();
        out.push(124);
        let mut x: usize = 0;
        while x < 80
            invariant
                self.wf(),
                y < 25,
                0 <= x <= 80,
                out@ + row_cells(self@.screen, y as int, x as int) == seq![124u8] + row_cells(
                    self@.screen,
                    y as int,
                    0,
                ),
            decreases 80 - x,
        {
            let mut cb = byte_utf8(self.screen[y * 80 + x]);
            out.append(&mut cb);
            proof {
                assert(out@ + row_cells(self@.screen, y as int, x + 1) =~= seq![124u8]
                    + row_cells(self@.screen, y as int, 0));
            }
            x = x + 1;
        }
        out.push(124);
        out.push(10);
        proof {
            assert(row_cells(self@.screen, y as int, 80) =~= Seq::<u8>::empty());
            assert(out@ =~= row_bytes(self@.screen, y as int));
        }
        out
    }

    /// RENDER: the screen as a bordered block of text, one row per
    /// line. The machine state is not changed.
    pub fn render_screen(&self) -> (r: Vec<u8>)
        requires
            self.wf(),
        ensures
            r@ == render_of(self@.screen),
    {
        let mut out = border_vec();
        let mut y: usize = 0;
        while y < 25
            invariant
                self.wf(),
                0 <= y <= 25,
                out@ + rows_from(self@.screen, y as int) == border_bytes() + rows_from(
                    self@.screen,
                    0,
                ),
            decreases 25 - y,
        {
            let mut row = self.render_row(y);
            out.append(&mut row);
            proof {
                assert(out@ + rows_from(self@.screen, y + 1) =~= border_bytes() + rows_from(
                    self@.screen,
                    0,
                ));
            }
            y = y + 1;
        }
        proof {
            assert(rows_from(self@.screen, 25) =~= Seq::<u8>::empty());
            assert(out@ =~= border_bytes() + rows_from(self@.screen, 0));
        }
        let mut bottom = border_vec();
        out.append(&mut bottom);
        proof {
            assert(out@ =~= render_of(self@.screen));
        }
        out
    }
}

/// The bytes of one horizontal border line.
fn border_vec() -> (r: Vec<u8>)
    ensures
        r@ == border_bytes(),
{
    let mut out: Vec<u8> = Vec::new();
    out.push(43);
    let mut k: usize = 0;
    while k < 80
        invariant
            0 <= k <= 80,
            out@ == seq![43u8] + Seq::new(k as nat, |i: int| 45u8),
        decreases 80 - k,
    {
        out.push(45);
        proof {
            assert(out@ =~= seq![43u8] + Seq::new((k + 1) as nat, |i: int| 45u8));
        }
        k = k + 1;
    }
    out.push(43);
    out.push(10);
    proof {
        assert(out@ =~= border_bytes());
    }
    out
}

/// For every machine and every literal v, MOV r v puts v in register r
/// and sets the zero flag exactly when v is zero.
pub proof fn lemma_mov_literal(m: VmModel, r: Reg, v: u8)
    requires
        m.wf(),
    ensures
        m.mov_post(r, Source::Lit(v)).reg_val(r) == v,
        m.mov_post(r, Source::Lit(v)).zf == (v == 0),
{
}

/// For every machine, ADD stores the sum of the register and the
/// resolved source modulo 256, and the zero flag records whether that
/// result is zero.
pub proof fn lemma_add_wraps(m: VmModel, r: Reg, s: Source)
    requires
        m.wf(),
    ensures
        m.add_post(r, s).reg_val(r) == (m.reg_val(r) + m.resolve(s)) % 256,
        m.add_post(r, s).zf == (m.add_post(r, s).reg_val(r) == 0),
{
}

/// A not-taken conditional branch advances the counter by exactly one,
/// so the instruction that set the flag is never re-run; a taken branch
/// moves the counter to the target.
pub proof fn lemma_branch_counter(m: VmModel, addr: usize)
    requires
        m.wf(),
    ensures
        !m.zf ==> m.jz_post(addr).pc == m.pc + 1,
        m.zf ==> m.jz_post(addr).pc == (addr as u16) as nat,
        m.zf ==> m.jnz_post(addr).pc == m.pc + 1,
        !m.zf ==> m.jnz_post(addr).pc == (addr as u16) as nat,
{
}

/// DRAW with either coordinate out of bounds leaves the screen
/// unchanged; DRAW of a zero-valued character in bounds writes a space.
pub proof fn lemma_draw_bounds(m: VmModel, x: Source, y: Source, c: Source)
    requires
        m.wf(),
    ensures
        m.resolve(x) >= 80 || m.resolve(y) >= 25 ==> m.draw_post(x, y, c).screen == m.screen,
        m.resolve(x) < 80 && m.resolve(y) < 25 && m.resolve(c) == 0 ==> m.draw_post(
            x,
            y,
            c,
        ).screen[m.resolve(y) * 80 + m.resolve(x)] == 32,
{
}

/// A vector of `n` copies of `b`.
pub fn filled_vec(n: usize, b: u8) -> (r: Vec<u8>)
    ensures
        r@ == Seq::new(n as nat, |i: int| b),
{
    let mut r: Vec<u8> = Vec::new();
    let mut k: usize = 0;
    while k < n
        invariant
            0 <= k <= n,
            r@ == Seq::new(k as nat, |i: int| b),
        decreases n - k,
    {
        r.push(b);
        proof {
            assert(r@ =~= Seq::new((k + 1) as nat, |i: int| b));
        }
        k = k + 1;
    }
    r
}

} // verus!

