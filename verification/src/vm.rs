//! The virtual machine: ten byte-wide registers (four pairs of which
//! alias as 16-bit registers), 64 KiB of memory, a stack pointer, and the
//! fetch-decode-execute loop.  Every instruction's effect is given by a
//! functional model over [`VmState`], and the run loop is proved to
//! follow that model step by step.  The machine's only output channel is
//! the printer port: a fixed memory cell drained into a side buffer after
//! every instruction, and released to the caller only on a clean halt.

use vstd::prelude::*;

use crate::opcode::OpCode;
use crate::opcode::spec_opcode_of;
use crate::util::hi8;
use crate::util::lo8;

verus! {

/// The memory cell drained into the printer buffer after every step.
pub const PRINTER_ADDR: u16 = 0xFFFD;

/// The cell holding the high byte of the reset vector.
pub const RESET_VECTOR: u16 = 0xFFFE;

/// One contiguous block of assembled bytes with its load origin: the
/// artifact handed from the assembler and linker to the machine loader.
#[derive(Debug)]
pub struct CodeSection {
    pub org: u16,
    pub code: Vec<u8>,
}

/// A compiled image: an ordered list of code sections.
pub type Code = Vec<CodeSection>;

/// True for the register encodings that name a paired 16-bit register.
pub open spec fn spec_is_double_reg(r: u8) -> bool {
    10 <= r <= 13
}

/// Executable twin of [`spec_is_double_reg`].
pub fn is_double_reg(r: u8) -> (b: bool)
    ensures
        b == spec_is_double_reg(r),
{
    10 <= r && r <= 13
}

/// The slot of a paired register's high byte in the register file.
pub open spec fn dreg_lo(r: u8) -> int {
    (r - 9) * 2
}

/// A register's natural width in bytes: 2 for a paired register, 1
/// otherwise.
pub open spec fn spec_reg_width(r: u8) -> u8 {
    if spec_is_double_reg(r) {
        2
    } else {
        1
    }
}

/// Executable twin of [`spec_reg_width`].
pub fn reg_width(r: u8) -> (w: u8)
    ensures
        w == spec_reg_width(r),
{
    if is_double_reg(r) {
        2
    } else {
        1
    }
}

/// The abstract machine state: register file, memory image, program
/// counter, stack pointer, released output, and the printer side buffer.
pub struct VmState {
    pub regs: Seq<u8>,
    pub mem: Seq<u8>,
    pub pc: u16,
    pub sp: u16,
    pub output: Seq<u8>,
    pub printer: Seq<u8>,
}

impl VmState {
    /// Ten registers and a full 64 KiB address space.
    pub open spec fn wf(self) -> bool {
        self.regs.len() == 10 && self.mem.len() == 0x10000
    }

    /// A register's value at its natural width.  A paired register reads
    /// its two byte slots big-endian; an encoding beyond the register
    /// file reads 0.
    pub open spec fn read_reg(self, r: u8) -> u16 {
        if spec_is_double_reg(r) {
            ((self.regs[dreg_lo(r)] as u16) * 256 + (self.regs[dreg_lo(r) + 1] as u16)) as u16
        } else if r < 10 {
            self.regs[r as int] as u16
        } else {
            0
        }
    }

    /// Writes a register at its natural width: both byte slots of a
    /// paired register, the low byte for a single one; an encoding
    /// beyond the register file writes nothing.
    pub open spec fn write_reg(self, r: u8, v: u16) -> VmState {
        if spec_is_double_reg(r) {
            VmState {
                regs: self.regs.update(dreg_lo(r), hi8(v)).update(dreg_lo(r) + 1, lo8(v)),
                ..self
            }
        } else if r < 10 {
            VmState { regs: self.regs.update(r as int, lo8(v)), ..self }
        } else {
            self
        }
    }

    /// One memory byte.
    pub open spec fn read_mem8(self, a: u16) -> u8 {
        self.mem[a as int]
    }

    /// Two memory bytes big-endian; the second address wraps.
    pub open spec fn read_mem16(self, a: u16) -> u16 {
        ((self.mem[a as int] as u16) * 256 + (self.mem[a.wrapping_add(1) as int] as u16)) as u16
    }

    /// Writes one memory byte.
    pub open spec fn write_mem8(self, a: u16, v: u8) -> VmState {
        VmState { mem: self.mem.update(a as int, v), ..self }
    }

    /// Writes two memory bytes big-endian; the second address wraps.
    pub open spec fn write_mem16(self, a: u16, v: u16) -> VmState {
        VmState {
            mem: self.mem.update(a as int, hi8(v)).update(a.wrapping_add(1) as int, lo8(v)),
            ..self
        }
    }

    /// A width-dispatched memory read: 1 or 2 bytes, anything else 0.
    pub open spec fn read_mem_w(self, a: u16, w: u8) -> u16 {
        if w == 1 {
            self.read_mem8(a) as u16
        } else if w == 2 {
            self.read_mem16(a)
        } else {
            0
        }
    }

    /// A width-dispatched memory write: 1 or 2 bytes, anything else a
    /// no-op.
    pub open spec fn write_mem_w(self, a: u16, w: u8, v: u16) -> VmState {
        if w == 1 {
            self.write_mem8(a, lo8(v))
        } else if w == 2 {
            self.write_mem16(a, v)
        } else {
            self
        }
    }
}

/// A 16-bit rotate right by `places` (modulo 16).
pub open spec fn ror16(v: u16, places: u8) -> u16 {
    let k = (places % 16) as u16;
    if k == 0 {
        v
    } else {
        (v >> k) | (v << ((16 - k) as u16))
    }
}

/// A 16-bit rotate left by `places` (modulo 16).
pub open spec fn rol16(v: u16, places: u8) -> u16 {
    let k = (places % 16) as u16;
    if k == 0 {
        v
    } else {
        (v << k) | (v >> ((16 - k) as u16))
    }
}

/// Fetching one byte: the byte under the program counter, and the
/// counter moved on (wrapping).
pub open spec fn sfetch8(s: VmState) -> (u8, VmState) {
    (s.mem[s.pc as int], VmState { pc: s.pc.wrapping_add(1), ..s })
}

/// Fetching a big-endian 16-bit operand.
pub open spec fn sfetch16(s: VmState) -> (u16, VmState) {
    let (b1, s1) = sfetch8(s);
    let (b2, s2) = sfetch8(s1);
    (((b1 as u16) * 256 + (b2 as u16)) as u16, s2)
}

/// `LOADI`: moves an immediate into a register.
pub open spec fn sloadi(s: VmState, r: u8, data: u16) -> VmState {
    s.write_reg(r, data)
}

/// `LOADA`: moves memory at an absolute address into a register, at the
/// register's natural width.
pub open spec fn sloada(s: VmState, r: u8, a: u16) -> VmState {
    s.write_reg(r, s.read_mem_w(a, spec_reg_width(r)))
}

/// `LOADR`: like `LOADA` at the address held in another register.
pub open spec fn sloadr(s: VmState, dest: u8, src: u8) -> VmState {
    sloada(s, dest, s.read_reg(src))
}

/// `STRA`: stores a register to memory at its natural width.
pub open spec fn sstra(s: VmState, src: u8, a: u16) -> VmState {
    s.write_mem_w(a, spec_reg_width(src), s.read_reg(src))
}

/// `STRR`: stores the second register at the address held in the first.
pub open spec fn sstrr(s: VmState, src: u8, dest: u8) -> VmState {
    sstra(s, dest, s.read_reg(src))
}

/// `XFER`: copies one register into another, each at its own width.
pub open spec fn sxfer(s: VmState, dest: u8, src: u8) -> VmState {
    s.write_reg(dest, s.read_reg(src))
}

/// The arithmetic/logic family's combining step, by opcode family:
/// addition wraps silently.
pub open spec fn sadd_i(s: VmState, r: u8, data: u16) -> VmState {
    s.write_reg(r, s.read_reg(r).wrapping_add(data))
}

/// `ADDA`: adds a memory operand, wrapping.
pub open spec fn sadd_a(s: VmState, r: u8, a: u16) -> VmState {
    sadd_i(s, r, s.read_mem_w(a, spec_reg_width(r)))
}

/// `ADDR`: adds one register into another, wrapping.
pub open spec fn sadd_r(s: VmState, dest: u8, src: u8) -> VmState {
    s.write_reg(dest, s.read_reg(src).wrapping_add(s.read_reg(dest)))
}

/// `ORI`.
pub open spec fn sor_i(s: VmState, r: u8, data: u16) -> VmState {
    s.write_reg(r, s.read_reg(r) | data)
}

/// `ORA`.
pub open spec fn sor_a(s: VmState, r: u8, a: u16) -> VmState {
    sor_i(s, r, s.read_mem_w(a, spec_reg_width(r)))
}

/// `ORR`.
pub open spec fn sor_r(s: VmState, dest: u8, src: u8) -> VmState {
    s.write_reg(dest, s.read_reg(src) | s.read_reg(dest))
}

/// `ANDI`.
pub open spec fn sand_i(s: VmState, r: u8, data: u16) -> VmState {
    s.write_reg(r, s.read_reg(r) & data)
}

/// `ANDA`.
pub open spec fn sand_a(s: VmState, r: u8, a: u16) -> VmState {
    sand_i(s, r, s.read_mem_w(a, spec_reg_width(r)))
}

/// `ANDR`.
pub open spec fn sand_r(s: VmState, dest: u8, src: u8) -> VmState {
    s.write_reg(dest, s.read_reg(src) & s.read_reg(dest))
}

/// `XORI`.
pub open spec fn sxor_i(s: VmState, r: u8, data: u16) -> VmState {
    s.write_reg(r, s.read_reg(r) ^ data)
}

/// `XORA`.
pub open spec fn sxor_a(s: VmState, r: u8, a: u16) -> VmState {
    sxor_i(s, r, s.read_mem_w(a, spec_reg_width(r)))
}

/// `XORR`.
pub open spec fn sxor_r(s: VmState, dest: u8, src: u8) -> VmState {
    s.write_reg(dest, s.read_reg(src) ^ s.read_reg(dest))
}

/// `ROTR`: rotates a paired register right; single registers are left
/// untouched.
pub open spec fn srotr(s: VmState, dest: u8, places: u8) -> VmState {
    if spec_is_double_reg(dest) {
        s.write_reg(dest, ror16(s.read_reg(dest), places))
    } else {
        s
    }
}

/// `ROTL`: rotates a paired register left; single registers are left
/// untouched.
pub open spec fn srotl(s: VmState, dest: u8, places: u8) -> VmState {
    if spec_is_double_reg(dest) {
        s.write_reg(dest, rol16(s.read_reg(dest), places))
    } else {
        s
    }
}

/// `JMP`: jumps when the chosen register equals register 0.
pub open spec fn sjmp(s: VmState, r: u8, a: u16) -> VmState {
    if s.read_reg(r) == s.read_reg(0) {
        VmState { pc: a, ..s }
    } else {
        s
    }
}

/// `JMPA`: always jumps.
pub open spec fn sjmpa(s: VmState, a: u16) -> VmState {
    VmState { pc: a, ..s }
}

/// `LDSPI`: sets the stack pointer from an immediate.
pub open spec fn sldspi(s: VmState, a: u16) -> VmState {
    VmState { sp: a, ..s }
}

/// `LDSPA`: sets the stack pointer from memory.
pub open spec fn sldspa(s: VmState, a: u16) -> VmState {
    VmState { sp: s.read_mem16(a), ..s }
}

/// `LDSPR`: sets the stack pointer from a register.
pub open spec fn sldspr(s: VmState, r: u8) -> VmState {
    VmState { sp: s.read_reg(r), ..s }
}

/// Pushes two bytes: the stack pointer drops by two first, wrapping.
pub open spec fn spush16(s: VmState, v: u16) -> VmState {
    let sp2 = s.sp.wrapping_sub(2);
    VmState { sp: sp2, ..s }.write_mem16(sp2, v)
}

/// Pushes one byte.
pub open spec fn spush8(s: VmState, v: u8) -> VmState {
    let sp2 = s.sp.wrapping_sub(1);
    VmState { sp: sp2, ..s }.write_mem8(sp2, v)
}

/// Pops two bytes: read at the stack pointer, which then rises by two.
pub open spec fn spop16(s: VmState) -> (u16, VmState) {
    (s.read_mem16(s.sp), VmState { sp: s.sp.wrapping_add(2), ..s })
}

/// Pops one byte.
pub open spec fn spop8(s: VmState) -> (u8, VmState) {
    (s.read_mem8(s.sp), VmState { sp: s.sp.wrapping_add(1), ..s })
}

/// `PUSH`: pushes a register at its natural width.
pub open spec fn sinst_push(s: VmState, r: u8) -> VmState {
    if spec_is_double_reg(r) {
        spush16(s, s.read_reg(r))
    } else {
        spush8(s, lo8(s.read_reg(r)))
    }
}

/// `POP`: pops into a register at its natural width.
pub open spec fn sinst_pop(s: VmState, r: u8) -> VmState {
    if spec_is_double_reg(r) {
        let (v, s2) = spop16(s);
        s2.write_reg(r, v)
    } else {
        let (v, s2) = spop8(s);
        s2.write_reg(r, v as u16)
    }
}

/// `CALLA`: pushes the return address and jumps.
pub open spec fn scalla(s: VmState, a: u16) -> VmState {
    let s2 = spush16(s, s.pc);
    VmState { pc: a, ..s2 }
}

/// `CALLR`: pushes the return address and jumps to the address a
/// register holds.
pub open spec fn scallr(s: VmState, r: u8) -> VmState {
    let s2 = spush16(s, s.pc);
    VmState { pc: s.read_reg(r), ..s2 }
}

/// `RTN`: pops the return address into the program counter.
pub open spec fn srtn(s: VmState) -> VmState {
    let (v, s2) = spop16(s);
    VmState { pc: v, ..s2 }
}

/// The printer drain run after each instruction: a non-zero byte in the
/// printer cell moves into the printer buffer and the cell clears.
pub open spec fn sdrain(s: VmState) -> VmState {
    if s.mem[PRINTER_ADDR as int] > 0 {
        VmState {
            printer: s.printer.push(s.mem[PRINTER_ADDR as int]),
            mem: s.mem.update(PRINTER_ADDR as int, 0),
            ..s
        }
    } else {
        s
    }
}

/// Why a run ended without a clean halt: an opcode byte with no defined
/// mapping, or an exhausted step budget.
#[derive(Copy, Clone, PartialEq, Eq, Structural, Debug)]
pub enum RunError {
    UnknownOpcode,
    OutOfSteps,
}

/// The outcome of one machine step (or of a bounded run): still going,
/// cleanly halted, or faulted on an unknown opcode.
pub enum Step {
    Next(VmState),
    Halted(VmState),
    Faulted(VmState),
}

/// One fetch-decode-execute step: fetch the opcode byte, decode it
/// (bytes beyond the table fault), fetch the operands the instruction's
/// shape demands, apply its effect, and drain the printer cell.  `HALT`
/// stops the machine; the drain does not run after a halt or a fault.
pub open spec fn spec_step(s: VmState) -> Step {
    let (b, s1) = sfetch8(s);
    match spec_opcode_of(b) {
        None => Step::Faulted(s1),
        Some(op) => match op {
            OpCode::HALT => Step::Halted(s1),
            OpCode::NOOP => Step::Next(sdrain(s1)),
            OpCode::DEBUG => Step::Next(sdrain(s1)),
            OpCode::LOADI => {
                let (r, s2) = sfetch8(s1);
                let (v, s3) = sfetch16(s2);
                Step::Next(sdrain(sloadi(s3, r, v)))
            },
            OpCode::LOADA => {
                let (r, s2) = sfetch8(s1);
                let (v, s3) = sfetch16(s2);
                Step::Next(sdrain(sloada(s3, r, v)))
            },
            OpCode::LOADR => {
                let (r1, s2) = sfetch8(s1);
                let (r2, s3) = sfetch8(s2);
                Step::Next(sdrain(sloadr(s3, r1, r2)))
            },
            OpCode::STRA => {
                let (r, s2) = sfetch8(s1);
                let (v, s3) = sfetch16(s2);
                Step::Next(sdrain(sstra(s3, r, v)))
            },
            OpCode::STRR => {
                let (r1, s2) = sfetch8(s1);
                let (r2, s3) = sfetch8(s2);
                Step::Next(sdrain(sstrr(s3, r1, r2)))
            },
            OpCode::XFER => {
                let (r1, s2) = sfetch8(s1);
                let (r2, s3) = sfetch8(s2);
                Step::Next(sdrain(sxfer(s3, r1, r2)))
            },
            OpCode::ADDI => {
                let (r, s2) = sfetch8(s1);
                let (v, s3) = sfetch16(s2);
                Step::Next(sdrain(sadd_i(s3, r, v)))
            },
            OpCode::ADDA => {
                let (r, s2) = sfetch8(s1);
                let (v, s3) = sfetch16(s2);
                Step::Next(sdrain(sadd_a(s3, r, v)))
            },
            OpCode::ADDR => {
                let (r1, s2) = sfetch8(s1);
                let (r2, s3) = sfetch8(s2);
                Step::Next(sdrain(sadd_r(s3, r1, r2)))
            },
            OpCode::ORI => {
                let (r, s2) = sfetch8(s1);
                let (v, s3) = sfetch16(s2);
                Step::Next(sdrain(sor_i(s3, r, v)))
            },
            OpCode::ORA => {
                let (r, s2) = sfetch8(s1);
                let (v, s3) = sfetch16(s2);
                Step::Next(sdrain(sor_a(s3, r, v)))
            },
            OpCode::ORR => {
                let (r1, s2) = sfetch8(s1);
                let (r2, s3) = sfetch8(s2);
                Step::Next(sdrain(sor_r(s3, r1, r2)))
            },
            OpCode::ANDI => {
                let (r, s2) = sfetch8(s1);
                let (v, s3) = sfetch16(s2);
                Step::Next(sdrain(sand_i(s3, r, v)))
            },
            OpCode::ANDA => {
                let (r, s2) = sfetch8(s1);
                let (v, s3) = sfetch16(s2);
                Step::Next(sdrain(sand_a(s3, r, v)))
            },
            OpCode::ANDR => {
                let (r1, s2) = sfetch8(s1);
                let (r2, s3) = sfetch8(s2);
                Step::Next(sdrain(sand_r(s3, r1, r2)))
            },
            OpCode::XORI => {
                let (r, s2) = sfetch8(s1);
                let (v, s3) = sfetch16(s2);
                Step::Next(sdrain(sxor_i(s3, r, v)))
            },
            OpCode::XORA => {
                let (r, s2) = sfetch8(s1);
                let (v, s3) = sfetch16(s2);
                Step::Next(sdrain(sxor_a(s3, r, v)))
            },
            OpCode::XORR => {
                let (r1, s2) = sfetch8(s1);
                let (r2, s3) = sfetch8(s2);
                Step::Next(sdrain(sxor_r(s3, r1, r2)))
            },
            OpCode::ROTR => {
                let (r, s2) = sfetch8(s1);
                let (p, s3) = sfetch8(s2);
                Step::Next(sdrain(srotr(s3, r, p)))
            },
            OpCode::ROTL => {
                let (r, s2) = sfetch8(s1);
                let (p, s3) = sfetch8(s2);
                Step::Next(sdrain(srotl(s3, r, p)))
            },
            OpCode::JMP => {
                let (r, s2) = sfetch8(s1);
                let (v, s3) = sfetch16(s2);
                Step::Next(sdrain(sjmp(s3, r, v)))
            },
            OpCode::JMPA => {
                let (v, s2) = sfetch16(s1);
                Step::Next(sdrain(sjmpa(s2, v)))
            },
            OpCode::LDSPI => {
                let (v, s2) = sfetch16(s1);
                Step::Next(sdrain(sldspi(s2, v)))
            },
            OpCode::LDSPA => {
                let (v, s2) = sfetch16(s1);
                Step::Next(sdrain(sldspa(s2, v)))
            },
            OpCode::LDSPR => {
                let (r, s2) = sfetch8(s1);
                Step::Next(sdrain(sldspr(s2, r)))
            },
            OpCode::PUSH => {
                let (r, s2) = sfetch8(s1);
                Step::Next(sdrain(sinst_push(s2, r)))
            },
            OpCode::POP => {
                let (r, s2) = sfetch8(s1);
                Step::Next(sdrain(sinst_pop(s2, r)))
            },
            OpCode::CALLA => {
                let (v, s2) = sfetch16(s1);
                Step::Next(sdrain(scalla(s2, v)))
            },
            OpCode::CALLR => {
                let (r, s2) = sfetch8(s1);
                Step::Next(sdrain(scallr(s2, r)))
            },
            OpCode::RTN => Step::Next(sdrain(srtn(s1))),
        },
    }
}

/// The machine after `n` steps from `s`, stopping early at a halt or
/// fault.
pub open spec fn run_steps(s: VmState, n: nat) -> Step
    decreases n,
{
    if n == 0 {
        Step::Next(s)
    } else {
        match run_steps(s, (n - 1) as nat) {
            Step::Next(t) => spec_step(t),
            done => done,
        }
    }
}

/// A clean halt releases the printer buffer into the visible output.
pub open spec fn sflush(s: VmState) -> VmState {
    VmState { output: s.output + s.printer, ..s }
}

/// Installing one section: its bytes copied in ascending order, each at
/// the origin plus its index, wrapping around the address space.
pub open spec fn sinstall_section(mem: Seq<u8>, org: u16, bytes: Seq<u8>) -> Seq<u8>
    decreases bytes.len(),
{
    if bytes.len() == 0 {
        mem
    } else {
        sinstall_section(mem.update(org as int, bytes.first()), org.wrapping_add(1), bytes.drop_first())
    }
}

/// Installing a whole image, section by section in order.
pub open spec fn sinstall(mem: Seq<u8>, code: Seq<CodeSection>) -> Seq<u8>
    decreases code.len(),
{
    if code.len() == 0 {
        mem
    } else {
        sinstall(sinstall_section(mem, code.first().org, code.first().code@), code.drop_first())
    }
}

/// The machine: register file, memory, counters and the two output
/// buffers.
#[derive(Debug)]
pub struct VM {
    registers: Vec<u8>,
    memory: Vec<u8>,
    pc: u16,
    sp: u16,
    output: Vec<u8>,
    printer: Vec<u8>,
}

impl View for VM {
    type V = VmState;

    closed spec fn view(&self) -> VmState {
        VmState {
            regs: self.registers@,
            mem: self.memory@,
            pc: self.pc,
            sp: self.sp,
            output: self.output@,
            printer: self.printer@,
        }
    }
}

impl VM {
    /// A machine with cleared registers, memory and counters.
    pub fn new() -> (r: VM)
        ensures
            r@.wf(),
            r@.regs == Seq::new(10, |i: int| 0u8),
            r@.mem == Seq::new(0x10000, |i: int| 0u8),
            r@.pc == 0,
            r@.sp == 0,
            r@.output == Seq::<u8>::empty(),
            r@.printer == Seq::<u8>::empty(),
    {
        let registers = make_zeroed(10);
        let memory = make_zeroed(65536);
        VM { registers, memory, pc: 0, sp: 0, output: Vec::new(), printer: Vec::new() }
    }

    /// Copies every code section into memory at its origin, then points
    /// the program counter at the reset vector's value.
    pub fn install_code(&mut self, code: &[CodeSection])
        requires
            old(self)@.wf(),
        ensures
            final(self)@.wf(),
            final(self)@.mem == sinstall(old(self)@.mem, code@),
            final(self)@.regs == old(self)@.regs,
            final(self)@.sp == old(self)@.sp,
            final(self)@.output == old(self)@.output,
            final(self)@.printer == old(self)@.printer,
            ({
                let m = final(self)@.mem;
                final(self)@.pc == (m[RESET_VECTOR as int] as u16) * 256 + (m[RESET_VECTOR
                    as int + 1] as u16)
            }),
    {
        let ghost mem0 = self@.mem;
        let mut si: usize = 0;
        proof {
            assert(code@.skip(0) =~= code@);
        }
        while si < code.len()
            invariant
                self@.mem.len() == 0x10000,
                self.registers@.len() == 10,
                0 <= si <= code@.len(),
                sinstall(mem0, code@) == sinstall(self@.mem, code@.skip(si as int)),
                self@.regs == old(self)@.regs,
                self@.sp == old(self)@.sp,
                self@.pc == old(self)@.pc,
                self@.output == old(self)@.output,
                self@.printer == old(self)@.printer,
            decreases code@.len() - si,
        {
            let org = code[si].org;
            let n = code[si].code.len();
            let ghost mempre = self@.mem;
            let mut i: usize = 0;
            proof {
                assert(code@.skip(si as int)[0] == code@[si as int]);
                assert(code@.skip(si as int).drop_first() =~= code@.skip(si as int + 1));
                assert(code@[si as int].code@.skip(0) =~= code@[si as int].code@);
                assert(org.wrapping_add((0int % 0x10000) as u16) == org);
            }
            while i < n
                invariant
                    self@.mem.len() == 0x10000,
                    self.registers@.len() == 10,
                    0 <= i <= n,
                    si < code@.len(),
                    n == code@[si as int].code@.len(),
                    org == code@[si as int].org,
                    sinstall_section(mempre, org, code@[si as int].code@) == sinstall_section(
                        self@.mem,
                        org.wrapping_add((i % 0x10000) as u16),
                        code@[si as int].code@.skip(i as int),
                    ),
                    self@.regs == old(self)@.regs,
                    self@.sp == old(self)@.sp,
                    self@.pc == old(self)@.pc,
                    self@.output == old(self)@.output,
                    self@.printer == old(self)@.printer,
                decreases n - i,
            {
                let loc = org.wrapping_add((i % 65536) as u16);
                let b = code[si].code[i];
                self.memory[loc as usize] = b;
                proof {
                    let bs = code@[si as int].code@;
                    assert(bs.skip(i as int)[0] == bs[i as int]);
                    assert(bs.skip(i as int).drop_first() =~= bs.skip(i as int + 1));
                    assert(org.wrapping_add((i % 0x10000) as u16).wrapping_add(1)
                        == org.wrapping_add(((i + 1) % 0x10000) as u16));
                }
                i += 1;
            }
            proof {
                assert(code@[si as int].code@.skip(n as int) =~= Seq::<u8>::empty());
            }
            si += 1;
        }
        proof {
            assert(code@.skip(code@.len() as int) =~= Seq::<CodeSection>::empty());
        }
        self.reset();
    }

    /// Reads the big-endian reset vector into the program counter.
    pub fn reset(&mut self)
        requires
            old(self)@.wf(),
        ensures
            final(self)@ == (VmState {
                pc: ((old(self)@.mem[RESET_VECTOR as int] as u16) * 256 + (old(self)@.mem[
                    RESET_VECTOR as int + 1] as u16)) as u16,
                ..old(self)@
            }),
    {
        self.pc = (self.memory[0xFFFE] as u16) * 256 + (self.memory[0xFFFF] as u16);
    }

    /// The output a clean halt has released so far.
    pub fn output(&self) -> (r: Vec<u8>)
        ensures
            r@ == self@.output,
    {
        crate::util::copy_bytes(self.output.as_slice())
    }
}

/// A zero-filled byte vector of the given length.
fn make_zeroed(n: usize) -> (r: Vec<u8>)
    ensures
        r@ == Seq::new(n as nat, |i: int| 0u8),
{
    let mut v: Vec<u8> = Vec::new();
    let mut i: usize = 0;
    while i < n
        invariant
            0 <= i <= n,
            v@ =~= Seq::new(i as nat, |k: int| 0u8),
        decreases n - i,
    {
        v.push(0);
        proof {
            assert(v@ =~= Seq::new((i + 1) as nat, |k: int| 0u8));
        }
        i += 1;
    }
    v
}


impl VM {
    /// Fetches the byte under the program counter and moves on.
    fn fetch_byte(&mut self) -> (b: u8)
        requires
            old(self)@.wf(),
        ensures
            ({
                let (bb, s2) = sfetch8(old(self)@);
                b == bb && final(self)@ == s2
            }),
    {
        let b = self.memory[self.pc as usize];
        self.pc = self.pc.wrapping_add(1);
        b
    }

    /// Fetches a big-endian 16-bit operand.
    fn fetch_u16(&mut self) -> (v: u16)
        requires
            old(self)@.wf(),
        ensures
            ({
                let (vv, s2) = sfetch16(old(self)@);
                v == vv && final(self)@ == s2
            }),
    {
        let b1 = self.fetch_byte();
        let b2 = self.fetch_byte();
        (b1 as u16) * 256 + (b2 as u16)
    }

    /// A register's value at its natural width.
    fn read_reg(&self, r: u8) -> (v: u16)
        requires
            self@.wf(),
        ensures
            v == self@.read_reg(r),
    {
        if is_double_reg(r) {
            self.read_double_reg(r)
        } else {
            self.read_single_reg(r) as u16
        }
    }

    /// Writes a register at its natural width; the value is truncated to
    /// one byte for a single register.
    fn write_reg(&mut self, r: u8, data: u16)
        requires
            old(self)@.wf(),
        ensures
            final(self)@ == old(self)@.write_reg(r, data),
    {
        if is_double_reg(r) {
            self.write_double_reg(r, data);
        } else {
            self.write_single_reg(r, (data % 256) as u8);
        }
    }

    /// One byte register read; an encoding beyond the register file
    /// reads 0.
    fn read_single_reg(&self, r: u8) -> (v: u8)
        requires
            self@.wf(),
        ensures
            r < 10 ==> v == self@.regs[r as int],
            r >= 10 ==> v == 0,
    {
        if r < 10 {
            self.registers[r as usize]
        } else {
            0
        }
    }

    /// One byte register write; an encoding beyond the register file
    /// writes nothing.
    fn write_single_reg(&mut self, r: u8, data: u8)
        requires
            old(self)@.wf(),
        ensures
            r < 10 ==> final(self)@ == (VmState {
                regs: old(self)@.regs.update(r as int, data),
                ..old(self)@
            }),
            r >= 10 ==> final(self)@ == old(self)@,
    {
        if r < 10 {
            self.registers[r as usize] = data;
        }
    }

    /// A paired register's 16-bit value; a non-paired encoding reads 0.
    fn read_double_reg(&self, r: u8) -> (v: u16)
        requires
            self@.wf(),
        ensures
            spec_is_double_reg(r) ==> v == self@.read_reg(r),
            !spec_is_double_reg(r) ==> v == 0,
    {
        if r == 10 {
            (self.registers[2] as u16) * 256 + (self.registers[3] as u16)
        } else if r == 11 {
            (self.registers[4] as u16) * 256 + (self.registers[5] as u16)
        } else if r == 12 {
            (self.registers[6] as u16) * 256 + (self.registers[7] as u16)
        } else if r == 13 {
            (self.registers[8] as u16) * 256 + (self.registers[9] as u16)
        } else {
            0
        }
    }

    /// Writes a paired register's two byte slots; a non-paired encoding
    /// writes nothing.
    fn write_double_reg(&mut self, r: u8, data: u16)
        requires
            old(self)@.wf(),
        ensures
            spec_is_double_reg(r) ==> final(self)@ == old(self)@.write_reg(r, data),
            !spec_is_double_reg(r) ==> final(self)@ == old(self)@,
    {
        let hi = (data / 256) as u8;
        let lo = (data % 256) as u8;
        if r == 10 {
            self.registers[2] = hi;
            self.registers[3] = lo;
        } else if r == 11 {
            self.registers[4] = hi;
            self.registers[5] = lo;
        } else if r == 12 {
            self.registers[6] = hi;
            self.registers[7] = lo;
        } else if r == 13 {
            self.registers[8] = hi;
            self.registers[9] = lo;
        }
    }

    /// A width-dispatched memory read.
    fn read_mem(&self, addr: u16, width: u8) -> (v: u16)
        requires
            self@.wf(),
        ensures
            v == self@.read_mem_w(addr, width),
    {
        if width == 1 {
            self.memory[addr as usize] as u16
        } else if width == 2 {
            (self.memory[addr as usize] as u16) * 256 + (self.memory[addr.wrapping_add(1)
                as usize] as u16)
        } else {
            0
        }
    }

    /// A width-dispatched memory write.
    fn write_mem(&mut self, addr: u16, width: u8, data: u16)
        requires
            old(self)@.wf(),
        ensures
            final(self)@ == old(self)@.write_mem_w(addr, width, data),
    {
        if width == 1 {
            self.memory[addr as usize] = (data % 256) as u8;
        } else if width == 2 {
            self.memory[addr as usize] = (data / 256) as u8;
            self.memory[addr.wrapping_add(1) as usize] = (data % 256) as u8;
        }
    }

    /// One memory byte.
    fn read_mem_u8(&self, addr: u16) -> (v: u8)
        requires
            self@.wf(),
        ensures
            v == self@.read_mem8(addr),
    {
        let v = self.read_mem(addr, 1);
        (v % 256) as u8
    }

    /// Writes one memory byte.
    fn write_mem_u8(&mut self, addr: u16, data: u8)
        requires
            old(self)@.wf(),
        ensures
            final(self)@ == old(self)@.write_mem8(addr, data),
    {
        self.write_mem(addr, 1, data as u16)
    }

    /// Two memory bytes big-endian.
    fn read_mem_u16(&self, addr: u16) -> (v: u16)
        requires
            self@.wf(),
        ensures
            v == self@.read_mem16(addr),
    {
        self.read_mem(addr, 2)
    }

    /// Writes two memory bytes big-endian.
    fn write_mem_u16(&mut self, addr: u16, data: u16)
        requires
            old(self)@.wf(),
        ensures
            final(self)@ == old(self)@.write_mem16(addr, data),
    {
        self.write_mem(addr, 2, data)
    }

    /// `LOADI`.
    fn inst_loadi(&mut self, r: u8, data: u16)
        requires
            old(self)@.wf(),
        ensures
            final(self)@ == sloadi(old(self)@, r, data),
    {
        self.write_reg(r, data);
    }

    /// `LOADA`.
    fn inst_loada(&mut self, r: u8, addr: u16)
        requires
            old(self)@.wf(),
        ensures
            final(self)@ == sloada(old(self)@, r, addr),
    {
        let data = self.read_mem(addr, reg_width(r));
        self.write_reg(r, data);
    }

    /// `LOADR`.
    fn inst_loadr(&mut self, dest: u8, src: u8)
        requires
            old(self)@.wf(),
        ensures
            final(self)@ == sloadr(old(self)@, dest, src),
    {
        let addr = self.read_reg(src);
        self.inst_loada(dest, addr);
    }

    /// `STRA`.
    fn inst_stra(&mut self, src: u8, addr: u16)
        requires
            old(self)@.wf(),
        ensures
            final(self)@ == sstra(old(self)@, src, addr),
    {
        let data = self.read_reg(src);
        self.write_mem(addr, reg_width(src), data);
    }

    /// `STRR`.
    fn inst_strr(&mut self, src: u8, dest: u8)
        requires
            old(self)@.wf(),
        ensures
            final(self)@ == sstrr(old(self)@, src, dest),
    {
        let addr = self.read_reg(src);
        self.inst_stra(dest, addr);
    }

    /// `XFER`.
    fn inst_xfer(&mut self, dest: u8, src: u8)
        requires
            old(self)@.wf(),
        ensures
            final(self)@ == sxfer(old(self)@, dest, src),
    {
        let data = self.read_reg(src);
        self.write_reg(dest, data);
    }

    /// `ADDI`: wrapping.
    fn inst_addi(&mut self, r: u8, data: u16)
        requires
            old(self)@.wf(),
        ensures
            final(self)@ == sadd_i(old(self)@, r, data),
    {
        let val = self.read_reg(r);
        self.write_reg(r, val.wrapping_add(data));
    }

    /// `ADDA`: wrapping.
    fn inst_adda(&mut self, r: u8, addr: u16)
        requires
            old(self)@.wf(),
        ensures
            final(self)@ == sadd_a(old(self)@, r, addr),
    {
        let data = self.read_mem(addr, reg_width(r));
        let val = self.read_reg(r);
        self.write_reg(r, val.wrapping_add(data));
    }

    /// `ADDR`: wrapping.
    fn inst_addr(&mut self, dest: u8, src: u8)
        requires
            old(self)@.wf(),
        ensures
            final(self)@ == sadd_r(old(self)@, dest, src),
    {
        let data1 = self.read_reg(src);
        let data2 = self.read_reg(dest);
        self.write_reg(dest, data1.wrapping_add(data2));
    }

    /// `ORI`.
    fn inst_ori(&mut self, r: u8, data: u16)
        requires
            old(self)@.wf(),
        ensures
            final(self)@ == sor_i(old(self)@, r, data),
    {
        let val = self.read_reg(r);
        self.write_reg(r, val | data);
    }

    /// `ORA`.
    fn inst_ora(&mut self, r: u8, addr: u16)
        requires
            old(self)@.wf(),
        ensures
            final(self)@ == sor_a(old(self)@, r, addr),
    {
        let data = self.read_mem(addr, reg_width(r));
        let val = self.read_reg(r);
        self.write_reg(r, val | data);
    }

    /// `ORR`.
    fn inst_orr(&mut self, dest: u8, src: u8)
        requires
            old(self)@.wf(),
        ensures
            final(self)@ == sor_r(old(self)@, dest, src),
    {
        let data1 = self.read_reg(src);
        let data2 = self.read_reg(dest);
        self.write_reg(dest, data1 | data2);
    }

    /// `ANDI`.
    fn inst_andi(&mut self, r: u8, data: u16)
        requires
            old(self)@.wf(),
        ensures
            final(self)@ == sand_i(old(self)@, r, data),
    {
        let val = self.read_reg(r);
        self.write_reg(r, val & data);
    }

    /// `ANDA`.
    fn inst_anda(&mut self, r: u8, addr: u16)
        requires
            old(self)@.wf(),
        ensures
            final(self)@ == sand_a(old(self)@, r, addr),
    {
        let data = self.read_mem(addr, reg_width(r));
        let val = self.read_reg(r);
        self.write_reg(r, val & data);
    }

    /// `ANDR`.
    fn inst_andr(&mut self, dest: u8, src: u8)
        requires
            old(self)@.wf(),
        ensures
            final(self)@ == sand_r(old(self)@, dest, src),
    {
        let data1 = self.read_reg(src);
        let data2 = self.read_reg(dest);
        self.write_reg(dest, data1 & data2);
    }

    /// `XORI`.
    fn inst_xori(&mut self, r: u8, data: u16)
        requires
            old(self)@.wf(),
        ensures
            final(self)@ == sxor_i(old(self)@, r, data),
    {
        let val = self.read_reg(r);
        self.write_reg(r, val ^ data);
    }

    /// `XORA`.
    fn inst_xora(&mut self, r: u8, addr: u16)
        requires
            old(self)@.wf(),
        ensures
            final(self)@ == sxor_a(old(self)@, r, addr),
    {
        let data = self.read_mem(addr, reg_width(r));
        let val = self.read_reg(r);
        self.write_reg(r, val ^ data);
    }

    /// `XORR`.
    fn inst_xorr(&mut self, dest: u8, src: u8)
        requires
            old(self)@.wf(),
        ensures
            final(self)@ == sxor_r(old(self)@, dest, src),
    {
        let data1 = self.read_reg(src);
        let data2 = self.read_reg(dest);
        self.write_reg(dest, data1 ^ data2);
    }

    /// `ROTR`: rotates a paired register; single registers are left
    /// untouched.
    fn inst_rotr(&mut self, dest: u8, places: u8)
        requires
            old(self)@.wf(),
        ensures
            final(self)@ == srotr(old(self)@, dest, places),
    {
        if is_double_reg(dest) {
            let val = self.read_double_reg(dest);
            let k = (places % 16) as u16;
            let data = if k == 0 {
                val
            } else {
                (val >> k) | (val << (16 - k))
            };
            self.write_double_reg(dest, data);
        }
    }

    /// `ROTL`: rotates a paired register; single registers are left
    /// untouched.
    fn inst_rotl(&mut self, dest: u8, places: u8)
        requires
            old(self)@.wf(),
        ensures
            final(self)@ == srotl(old(self)@, dest, places),
    {
        if is_double_reg(dest) {
            let val = self.read_double_reg(dest);
            let k = (places % 16) as u16;
            let data = if k == 0 {
                val
            } else {
                (val << k) | (val >> (16 - k))
            };
            self.write_double_reg(dest, data);
        }
    }

    /// `JMP`.
    fn inst_jmp(&mut self, r: u8, pc: u16)
        requires
            old(self)@.wf(),
        ensures
            final(self)@ == sjmp(old(self)@, r, pc),
    {
        let zero_reg = self.read_reg(0);
        let check_reg = self.read_reg(r);
        if check_reg == zero_reg {
            self.pc = pc;
        }
    }

    /// `JMPA`.
    fn inst_jmpa(&mut self, pc: u16)
        requires
            old(self)@.wf(),
        ensures
            final(self)@ == sjmpa(old(self)@, pc),
    {
        self.pc = pc;
    }

    /// `LDSPI`.
    fn inst_ldspi(&mut self, addr: u16)
        requires
            old(self)@.wf(),
        ensures
            final(self)@ == sldspi(old(self)@, addr),
    {
        self.sp = addr;
    }

    /// `LDSPA`.
    fn inst_ldspa(&mut self, addr: u16)
        requires
            old(self)@.wf(),
        ensures
            final(self)@ == sldspa(old(self)@, addr),
    {
        let sp_val = self.read_mem_u16(addr);
        self.sp = sp_val;
    }

    /// `LDSPR`.
    fn inst_ldspr(&mut self, r: u8)
        requires
            old(self)@.wf(),
        ensures
            final(self)@ == sldspr(old(self)@, r),
    {
        let sp_val = self.read_reg(r);
        self.sp = sp_val;
    }

    /// Pushes two bytes; the stack pointer drops first, wrapping.
    fn push_u16(&mut self, data: u16)
        requires
            old(self)@.wf(),
        ensures
            final(self)@ == spush16(old(self)@, data),
    {
        self.sp = self.sp.wrapping_sub(2);
        let sp = self.sp;
        self.write_mem_u16(sp, data);
    }

    /// Pushes one byte.
    fn push_u8(&mut self, data: u8)
        requires
            old(self)@.wf(),
        ensures
            final(self)@ == spush8(old(self)@, data),
    {
        self.sp = self.sp.wrapping_sub(1);
        let sp = self.sp;
        self.write_mem_u8(sp, data);
    }

    /// Pops two bytes; the stack pointer rises after the read.
    fn pop_u16(&mut self) -> (v: u16)
        requires
            old(self)@.wf(),
        ensures
            ({
                let (vv, s2) = spop16(old(self)@);
                v == vv && final(self)@ == s2
            }),
    {
        let sp = self.sp;
        let data = self.read_mem_u16(sp);
        self.sp = self.sp.wrapping_add(2);
        data
    }

    /// Pops one byte.
    fn pop_u8(&mut self) -> (v: u8)
        requires
            old(self)@.wf(),
        ensures
            ({
                let (vv, s2) = spop8(old(self)@);
                v == vv && final(self)@ == s2
            }),
    {
        let sp = self.sp;
        let data = self.read_mem_u8(sp);
        self.sp = self.sp.wrapping_add(1);
        data
    }

    /// `PUSH`.
    fn inst_push(&mut self, r: u8)
        requires
            old(self)@.wf(),
        ensures
            final(self)@ == sinst_push(old(self)@, r),
    {
        if is_double_reg(r) {
            let val = self.read_double_reg(r);
            self.push_u16(val);
        } else {
            let val = self.read_single_reg(r);
            self.push_u8(val);
        }
    }

    /// `POP`.
    fn inst_pop(&mut self, r: u8)
        requires
            old(self)@.wf(),
        ensures
            final(self)@ == sinst_pop(old(self)@, r),
    {
        if is_double_reg(r) {
            let val = self.pop_u16();
            self.write_double_reg(r, val);
        } else {
            let val = self.pop_u8();
            self.write_single_reg(r, val);
        }
    }

    /// `CALLA`.
    fn inst_calla(&mut self, addr: u16)
        requires
            old(self)@.wf(),
        ensures
            final(self)@ == scalla(old(self)@, addr),
    {
        let pc = self.pc;
        self.push_u16(pc);
        self.pc = addr;
    }

    /// `CALLR`.
    fn inst_callr(&mut self, r: u8)
        requires
            old(self)@.wf(),
        ensures
            final(self)@ == scallr(old(self)@, r),
    {
        let new_pc = self.read_reg(r);
        let pc = self.pc;
        self.push_u16(pc);
        self.pc = new_pc;
    }

    /// `RTN`.
    fn inst_rtn(&mut self)
        requires
            old(self)@.wf(),
        ensures
            final(self)@ == srtn(old(self)@),
    {
        let pc = self.pop_u16();
        self.pc = pc;
    }

    /// Drains the printer cell: a non-zero byte moves into the printer
    /// buffer and the cell clears.
    fn drain_printer(&mut self)
        requires
            old(self)@.wf(),
        ensures
            final(self)@ == sdrain(old(self)@),
    {
        if self.memory[0xFFFD] > 0 {
            let b = self.memory[0xFFFD];
            self.printer.push(b);
            self.memory[0xFFFD] = 0;
        }
    }

    /// The fetch-decode-execute loop, bounded by a step budget.  On a
    /// clean `HALT` the printer buffer is released into the visible
    /// output and the machine's state is the halted state of the step
    /// model; on an opcode byte with no defined mapping the run aborts,
    /// the accumulated printer output is withheld, and the state is the
    /// faulted state of the model; a run that is still going when the
    /// budget ends reports so, with the state exactly `max_steps` steps
    /// along.
    pub fn run(&mut self, max_steps: u64) -> (r: Result<(), RunError>)
        requires
            old(self)@.wf(),
        ensures
            r is Ok ==> exists|n: nat|
                n <= max_steps && ((#[trigger] run_steps(old(self)@, n)) matches Step::Halted(h)
                    && final(self)@ == sflush(h)),
            r == Err::<(), RunError>(RunError::UnknownOpcode) ==> exists|n: nat|
                n <= max_steps && ((#[trigger] run_steps(old(self)@, n)) matches Step::Faulted(f)
                    && final(self)@ == f),
            r == Err::<(), RunError>(RunError::OutOfSteps) ==> run_steps(
                old(self)@,
                max_steps as nat,
            ) == Step::Next(final(self)@),
    {
        let ghost s0 = self@;
        let ghost mut n: nat = 0nat;
        let mut steps_left: u64 = max_steps;
        loop
            invariant_except_break
                s0 == old(self)@,
                self@.wf(),
                run_steps(s0, n) == Step::Next(self@),
                n + steps_left == max_steps,
            ensures
                s0 == old(self)@,
                run_steps(s0, n) == Step::Halted(self@),
                n <= max_steps,
            decreases steps_left,
        {
            if steps_left == 0 {
                return Err(RunError::OutOfSteps);
            }
            steps_left = steps_left - 1;
            let ghost spre = self@;
            let opbyte = self.fetch_byte();
            let op = OpCode::from_u8(opbyte);
            match op {
                None => {
                    proof {
                        n = n + 1;
                        assert(run_steps(s0, n) == Step::Faulted(self@));
                    }
                    return Err(RunError::UnknownOpcode);
                },
                Some(oc) => {
                    match oc {
                        OpCode::HALT => {
                            proof {
                                n = n + 1;
                                assert(run_steps(s0, n) == Step::Halted(self@));
                            }
                            break ;
                        },
                        OpCode::NOOP => {},
                        OpCode::DEBUG => {},
                        OpCode::LOADI => {
                            let a1 = self.fetch_byte();
                            let a2 = self.fetch_u16();
                            self.inst_loadi(a1, a2);
                        },
                        OpCode::LOADA => {
                            let a1 = self.fetch_byte();
                            let a2 = self.fetch_u16();
                            self.inst_loada(a1, a2);
                        },
                        OpCode::LOADR => {
                            let a1 = self.fetch_byte();
                            let a2 = self.fetch_byte();
                            self.inst_loadr(a1, a2);
                        },
                        OpCode::STRA => {
                            let a1 = self.fetch_byte();
                            let a2 = self.fetch_u16();
                            self.inst_stra(a1, a2);
                        },
                        OpCode::STRR => {
                            let a1 = self.fetch_byte();
                            let a2 = self.fetch_byte();
                            self.inst_strr(a1, a2);
                        },
                        OpCode::XFER => {
                            let a1 = self.fetch_byte();
                            let a2 = self.fetch_byte();
                            self.inst_xfer(a1, a2);
                        },
                        OpCode::ADDI => {
                            let a1 = self.fetch_byte();
                            let a2 = self.fetch_u16();
                            self.inst_addi(a1, a2);
                        },
                        OpCode::ADDA => {
                            let a1 = self.fetch_byte();
                            let a2 = self.fetch_u16();
                            self.inst_adda(a1, a2);
                        },
                        OpCode::ADDR => {
                            let a1 = self.fetch_byte();
                            let a2 = self.fetch_byte();
                            self.inst_addr(a1, a2);
                        },
                        OpCode::ORI => {
                            let a1 = self.fetch_byte();
                            let a2 = self.fetch_u16();
                            self.inst_ori(a1, a2);
                        },
                        OpCode::ORA => {
                            let a1 = self.fetch_byte();
                            let a2 = self.fetch_u16();
                            self.inst_ora(a1, a2);
                        },
                        OpCode::ORR => {
                            let a1 = self.fetch_byte();
                            let a2 = self.fetch_byte();
                            self.inst_orr(a1, a2);
                        },
                        OpCode::ANDI => {
                            let a1 = self.fetch_byte();
                            let a2 = self.fetch_u16();
                            self.inst_andi(a1, a2);
                        },
                        OpCode::ANDA => {
                            let a1 = self.fetch_byte();
                            let a2 = self.fetch_u16();
                            self.inst_anda(a1, a2);
                        },
                        OpCode::ANDR => {
                            let a1 = self.fetch_byte();
                            let a2 = self.fetch_byte();
                            self.inst_andr(a1, a2);
                        },
                        OpCode::XORI => {
                            let a1 = self.fetch_byte();
                            let a2 = self.fetch_u16();
                            self.inst_xori(a1, a2);
                        },
                        OpCode::XORA => {
                            let a1 = self.fetch_byte();
                            let a2 = self.fetch_u16();
                            self.inst_xora(a1, a2);
                        },
                        OpCode::XORR => {
                            let a1 = self.fetch_byte();
                            let a2 = self.fetch_byte();
                            self.inst_xorr(a1, a2);
                        },
                        OpCode::ROTR => {
                            let a1 = self.fetch_byte();
                            let a2 = self.fetch_byte();
                            self.inst_rotr(a1, a2);
                        },
                        OpCode::ROTL => {
                            let a1 = self.fetch_byte();
                            let a2 = self.fetch_byte();
                            self.inst_rotl(a1, a2);
                        },
                        OpCode::JMP => {
                            let a1 = self.fetch_byte();
                            let a2 = self.fetch_u16();
                            self.inst_jmp(a1, a2);
                        },
                        OpCode::JMPA => {
                            let a1 = self.fetch_u16();
                            self.inst_jmpa(a1);
                        },
                        OpCode::LDSPI => {
                            let a1 = self.fetch_u16();
                            self.inst_ldspi(a1);
                        },
                        OpCode::LDSPA => {
                            let a1 = self.fetch_u16();
                            self.inst_ldspa(a1);
                        },
                        OpCode::LDSPR => {
                            let a1 = self.fetch_byte();
                            self.inst_ldspr(a1);
                        },
                        OpCode::PUSH => {
                            let a1 = self.fetch_byte();
                            self.inst_push(a1);
                        },
                        OpCode::POP => {
                            let a1 = self.fetch_byte();
                            self.inst_pop(a1);
                        },
                        OpCode::CALLA => {
                            let a1 = self.fetch_u16();
                            self.inst_calla(a1);
                        },
                        OpCode::CALLR => {
                            let a1 = self.fetch_byte();
                            self.inst_callr(a1);
                        },
                        OpCode::RTN => {
                            self.inst_rtn();
                        },
                    }
                    self.drain_printer();
                    proof {
                        n = n + 1;
                        assert(run_steps(s0, n) == Step::Next(self@));
                    }
                },
            }
        }
        let pr = crate::util::copy_bytes(self.printer.as_slice());
        crate::util::append_bytes(&mut self.output, pr.as_slice());
        Ok(())
    }
}

/// Pushing a paired register and popping into a paired register round-
/// trips the 16-bit value, and the stack pointer returns to where it
/// began.
pub proof fn lemma_push_pop_roundtrip(s: VmState, r1: u8, r2: u8)
    requires
        s.wf(),
        spec_is_double_reg(r1),
        spec_is_double_reg(r2),
    ensures
        ({
            let s2 = sinst_pop(sinst_push(s, r1), r2);
            s2.read_reg(r2) == s.read_reg(r1) && s2.sp == s.sp
        }),
{
    let v = s.read_reg(r1);
    let s1 = sinst_push(s, r1);
    let sp2 = s.sp.wrapping_sub(2);
    assert(sp2 != sp2.wrapping_add(1));
    assert(s1.read_mem16(sp2) == v);
    let s2 = sinst_pop(s1, r2);
    assert(s2.read_reg(r2) == v);
}

/// A call followed at once by a return brings the program counter back
/// to the instruction after the call, with the stack pointer restored.
pub proof fn lemma_call_rtn_roundtrip(s: VmState, addr: u16)
    requires
        s.wf(),
    ensures
        ({
            let s2 = srtn(scalla(s, addr));
            s2.pc == s.pc && s2.sp == s.sp
        }),
{
    let s1 = scalla(s, addr);
    let sp2 = s.sp.wrapping_sub(2);
    assert(sp2 != sp2.wrapping_add(1));
    assert(s1.read_mem16(sp2) == s.pc);
}

/// The general form of the call/return round trip: however the machine
/// runs on after a call, a return restores the program counter to the
/// instruction after the call and the stack pointer to its pre-call
/// value, provided the stack pointer and the two stack cells the call
/// wrote are as the call left them.
pub proof fn lemma_call_rtn_preserved(s: VmState, addr: u16, t: VmState)
    requires
        s.wf(),
        t.sp == scalla(s, addr).sp,
        t.mem[t.sp as int] == scalla(s, addr).mem[t.sp as int],
        t.mem[t.sp.wrapping_add(1) as int] == scalla(s, addr).mem[t.sp.wrapping_add(1) as int],
        t.mem.len() == s.mem.len(),
    ensures
        srtn(t).pc == s.pc,
        srtn(t).sp == s.sp,
{
    let s1 = scalla(s, addr);
    let sp2 = s.sp.wrapping_sub(2);
    assert(sp2 != sp2.wrapping_add(1));
    assert(s1.read_mem16(sp2) == s.pc);
    assert(t.read_mem16(t.sp) == s1.read_mem16(sp2));
}


} // verus!
