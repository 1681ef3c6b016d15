//! The execution core: the architectural register file, status flags,
//! program counter and stack pointer, advanced by exactly one instruction
//! per step against a memory-mapped bus.
//!
//! A step fetches the opcode word at the program counter through the bus,
//! decodes it, executes its register/memory/flag/stack effects and advances
//! the program counter past the consumed word or words. The whole transition
//! is specified by `spec_step`, a total function of the core and bus models.

use vstd::prelude::*;
use crate::isa::{
    alu_add, alu_sub, decode, flag_bit, instr_wf, lemma_decode_wf, spec_add, spec_com, spec_dec,
    spec_decode,
    spec_flag, spec_flags_cleared, spec_inc, spec_logic_flags, spec_lsr, spec_neg,
    spec_sub, Flags, Instr,
};
use crate::memory::{
    lemma_mapped_write_then_read, lemma_write_same_shape, map_read, map_resolve, map_write,
    same_shape, EntryModel, MemoryMap,
};

verus! {

/// Bus address at which flash is mapped.
pub const FLASH_BASE: u16 = 0x8000;

/// Number of flash bytes the program counter ranges over; program-counter
/// arithmetic wraps at this size.
pub const FLASH_SIZE: u16 = 0x4000;

/// The execution-engine flavour of the emulated part.
pub enum CoreType {
    AVRxt,
}

/// Why the core stopped: an explicit break or sleep encoding, an opcode
/// outside the implemented set, or a stack pointer that would leave the
/// valid stack window.
#[derive(Clone, Copy, PartialEq, Eq, Structural, Debug)]
pub enum HaltReason {
    Break,
    Sleep,
    IllegalOpcode,
    StackOverflow,
    StackUnderflow,
}

/// Mathematical model of the core: the 32 general-purpose registers, the
/// status flags, program counter, stack pointer, the stack window bounds,
/// the trace flag and the recorded halt reason, if any.
#[verifier::ext_equal]
pub struct CoreModel {
    pub regs: Seq<u8>,
    pub flags: Flags,
    pub pc: u16,
    pub sp: u16,
    pub sram_base: u16,
    pub ramend: u16,
    pub debug: bool,
    pub halt: Option<HaltReason>,
}

/// Core well-formedness: 32 registers, a non-empty stack window starting
/// above address zero, the stack pointer inside `[sram_base - 1, ramend]`
/// (it denotes the next free byte, so it rests one below the lowest used
/// address), and the program counter inside flash.
pub open spec fn core_wf(c: CoreModel) -> bool {
    &&& c.regs.len() == 32
    &&& 1 <= c.sram_base <= c.ramend
    &&& c.sram_base - 1 <= c.sp <= c.ramend
    &&& c.pc < FLASH_SIZE
}

/// The outcome of one step: the new core and bus states, and whether the
/// caller's run loop should continue.
#[verifier::ext_equal]
pub struct StepModel {
    pub core: CoreModel,
    pub mem: Seq<EntryModel>,
    pub running: bool,
}

/// The program counter after a one-word instruction.
pub open spec fn next_pc(pc: u16) -> u16 {
    ((pc + 2) % (FLASH_SIZE as int)) as u16
}

/// The program counter after a two-word instruction.
pub open spec fn next2_pc(pc: u16) -> u16 {
    ((pc + 4) % (FLASH_SIZE as int)) as u16
}

/// Target of a 12-bit relative jump. `k` encodes a two's-complement word
/// offset: a value at or above 2048 stands for `k - 4096` words, and adding
/// 8192 bytes is congruent to that subtraction modulo the flash size.
pub open spec fn rel12_target(pc: u16, k: u16) -> u16 {
    ((pc + 2 + 2 * k + if k >= 2048 {
        8192int
    } else {
        0int
    }) % (FLASH_SIZE as int)) as u16
}

/// Target of a 7-bit conditional branch. `k` encodes a two's-complement
/// word offset: a value at or above 64 stands for `k - 128` words, and
/// adding 16128 bytes is congruent to that subtraction modulo the flash
/// size.
pub open spec fn rel7_target(pc: u16, k: u8) -> u16 {
    ((pc + 2 + 2 * k + if k >= 64 {
        16128int
    } else {
        0int
    }) % (FLASH_SIZE as int)) as u16
}

/// The little-endian 16-bit word at bus address `a`, or `None` when either
/// byte is unmapped.
pub open spec fn spec_fetch_word(m: Seq<EntryModel>, a: int) -> Option<u16> {
    let lo = map_read(m, a);
    let hi = map_read(m, a + 1);
    if lo.1 && hi.1 {
        Some((lo.0 + 256 * hi.0) as u16)
    } else {
        None
    }
}

/// A continuing step outcome.
pub open spec fn running(c: CoreModel, m: Seq<EntryModel>) -> StepModel {
    StepModel { core: c, mem: m, running: true }
}

/// A halting step outcome recording its reason.
pub open spec fn halting(c: CoreModel, m: Seq<EntryModel>, why: HaltReason) -> StepModel {
    StepModel { core: CoreModel { halt: Some(why), ..c }, mem: m, running: false }
}

/// Core after an arithmetic/logic result is written back to register `d`.
pub open spec fn alu_result(c: CoreModel, d: u8, rf: (u8, Flags)) -> CoreModel {
    CoreModel { regs: c.regs.update(d as int, rf.0), flags: rf.1, pc: next_pc(c.pc), ..c }
}

/// Core after a flags-only comparison result.
pub open spec fn cmp_result(c: CoreModel, rf: (u8, Flags)) -> CoreModel {
    CoreModel { flags: rf.1, pc: next_pc(c.pc), ..c }
}

/// The effects of one decoded instruction on the core and bus: the
/// instruction-set semantics the step function implements, one case per
/// variant.
pub open spec fn spec_exec(c: CoreModel, m: Seq<EntryModel>, ins: Instr) -> StepModel {
    match ins {
        Instr::Nop => running(CoreModel { pc: next_pc(c.pc), ..c }, m),
        Instr::Ldi { d, k } => running(
            CoreModel { regs: c.regs.update(d as int, k), pc: next_pc(c.pc), ..c },
            m,
        ),
        Instr::Mov { d, r } => running(
            CoreModel { regs: c.regs.update(d as int, c.regs[r as int]), pc: next_pc(c.pc), ..c },
            m,
        ),
        Instr::Add { d, r } => running(
            alu_result(c, d, spec_add(c.regs[d as int], c.regs[r as int], false, c.flags)),
            m,
        ),
        Instr::Adc { d, r } => running(
            alu_result(c, d, spec_add(c.regs[d as int], c.regs[r as int], c.flags.c, c.flags)),
            m,
        ),
        Instr::Sub { d, r } => running(
            alu_result(c, d, spec_sub(c.regs[d as int], c.regs[r as int], false, c.flags)),
            m,
        ),
        Instr::Cp { d, r } => running(
            cmp_result(c, spec_sub(c.regs[d as int], c.regs[r as int], false, c.flags)),
            m,
        ),
        Instr::And { d, r } => running(
            ({
                let x = c.regs[d as int] & c.regs[r as int];
                alu_result(c, d, (x, spec_logic_flags(x, c.flags)))
            }),
            m,
        ),
        Instr::Or { d, r } => running(
            ({
                let x = c.regs[d as int] | c.regs[r as int];
                alu_result(c, d, (x, spec_logic_flags(x, c.flags)))
            }),
            m,
        ),
        Instr::Eor { d, r } => running(
            ({
                let x = c.regs[d as int] ^ c.regs[r as int];
                alu_result(c, d, (x, spec_logic_flags(x, c.flags)))
            }),
            m,
        ),
        Instr::Cpi { d, k } => running(
            cmp_result(c, spec_sub(c.regs[d as int], k, false, c.flags)),
            m,
        ),
        Instr::Subi { d, k } => running(
            alu_result(c, d, spec_sub(c.regs[d as int], k, false, c.flags)),
            m,
        ),
        Instr::Ori { d, k } => running(
            ({
                let x = c.regs[d as int] | k;
                alu_result(c, d, (x, spec_logic_flags(x, c.flags)))
            }),
            m,
        ),
        Instr::Andi { d, k } => running(
            ({
                let x = c.regs[d as int] & k;
                alu_result(c, d, (x, spec_logic_flags(x, c.flags)))
            }),
            m,
        ),
        Instr::Com { d } => running(alu_result(c, d, spec_com(c.regs[d as int], c.flags)), m),
        Instr::Neg { d } => running(alu_result(c, d, spec_neg(c.regs[d as int], c.flags)), m),
        Instr::Inc { d } => running(alu_result(c, d, spec_inc(c.regs[d as int], c.flags)), m),
        Instr::Dec { d } => running(alu_result(c, d, spec_dec(c.regs[d as int], c.flags)), m),
        Instr::Lsr { d } => running(alu_result(c, d, spec_lsr(c.regs[d as int], c.flags)), m),
        Instr::Push { r } => if c.sp < c.sram_base {
            halting(c, m, HaltReason::StackOverflow)
        } else {
            StepModel {
                core: CoreModel { sp: (c.sp - 1) as u16, pc: next_pc(c.pc), ..c },
                mem: map_write(m, c.sp as int, c.regs[r as int]),
                running: true,
            }
        },
        Instr::Pop { d } => if c.sp >= c.ramend {
            halting(c, m, HaltReason::StackUnderflow)
        } else {
            running(
                CoreModel {
                    regs: c.regs.update(d as int, map_read(m, c.sp + 1).0),
                    sp: (c.sp + 1) as u16,
                    pc: next_pc(c.pc),
                    ..c
                },
                m,
            )
        },
        Instr::Lds { d } => match spec_fetch_word(m, FLASH_BASE + c.pc + 2) {
            Option::None => halting(c, m, HaltReason::IllegalOpcode),
            Option::Some(a) => running(
                CoreModel {
                    regs: c.regs.update(d as int, map_read(m, a as int).0),
                    pc: next2_pc(c.pc),
                    ..c
                },
                m,
            ),
        },
        Instr::Sts { r } => match spec_fetch_word(m, FLASH_BASE + c.pc + 2) {
            Option::None => halting(c, m, HaltReason::IllegalOpcode),
            Option::Some(a) => StepModel {
                core: CoreModel { pc: next2_pc(c.pc), ..c },
                mem: map_write(m, a as int, c.regs[r as int]),
                running: true,
            },
        },
        Instr::Rjmp { k } => running(CoreModel { pc: rel12_target(c.pc, k), ..c }, m),
        Instr::Rcall { k } => if c.sp < c.sram_base + 1 {
            halting(c, m, HaltReason::StackOverflow)
        } else {
            ({
                let ret = next_pc(c.pc);
                let m1 = map_write(m, c.sp as int, (ret % 256) as u8);
                let m2 = map_write(m1, c.sp - 1, (ret / 256) as u8);
                StepModel {
                    core: CoreModel {
                        sp: (c.sp - 2) as u16,
                        pc: rel12_target(c.pc, k),
                        ..c
                    },
                    mem: m2,
                    running: true,
                }
            })
        },
        Instr::Ret => if c.sp + 2 > c.ramend {
            halting(c, m, HaltReason::StackUnderflow)
        } else {
            ({
                let hi = map_read(m, c.sp + 1).0;
                let lo = map_read(m, c.sp + 2).0;
                running(
                    CoreModel {
                        pc: ((hi * 256 + lo) % (FLASH_SIZE as int)) as u16,
                        sp: (c.sp + 2) as u16,
                        ..c
                    },
                    m,
                )
            })
        },
        Instr::Brbs { s, k } => if spec_flag(c.flags, s) {
            running(CoreModel { pc: rel7_target(c.pc, k), ..c }, m)
        } else {
            running(CoreModel { pc: next_pc(c.pc), ..c }, m)
        },
        Instr::Brbc { s, k } => if !spec_flag(c.flags, s) {
            running(CoreModel { pc: rel7_target(c.pc, k), ..c }, m)
        } else {
            running(CoreModel { pc: next_pc(c.pc), ..c }, m)
        },
        Instr::Break => StepModel {
            core: CoreModel { pc: next_pc(c.pc), halt: Some(HaltReason::Break), ..c },
            mem: m,
            running: false,
        },
        Instr::Sleep => StepModel {
            core: CoreModel { pc: next_pc(c.pc), halt: Some(HaltReason::Sleep), ..c },
            mem: m,
            running: false,
        },
        Instr::Illegal => halting(c, m, HaltReason::IllegalOpcode),
    }
}

/// One whole step: fetch the opcode word at the program counter through the
/// bus (halting as on an illegal opcode when the fetch address is unmapped),
/// decode it and apply its effects.
pub open spec fn spec_step(c: CoreModel, m: Seq<EntryModel>) -> StepModel {
    match spec_fetch_word(m, FLASH_BASE + c.pc) {
        Option::None => halting(c, m, HaltReason::IllegalOpcode),
        Option::Some(w) => spec_exec(c, m, spec_decode(w)),
    }
}

/// A step taken from a well-formed core leaves a well-formed core, whatever
/// the bus holds.
pub proof fn lemma_step_preserves_wf(c: CoreModel, m: Seq<EntryModel>)
    requires
        core_wf(c),
    ensures
        core_wf(spec_step(c, m).core),
{
    match spec_fetch_word(m, FLASH_BASE + c.pc) {
        Option::None => {},
        Option::Some(w) => {
            lemma_decode_wf(w);
        },
    }
}

/// A step never changes the bus's shape: the registered regions, their
/// bases, sizes, fill values and writability stay as they were; only bytes
/// inside writable regions move.
pub proof fn lemma_step_same_shape(c: CoreModel, m: Seq<EntryModel>)
    ensures
        same_shape(m, spec_step(c, m).mem),
{
    match spec_fetch_word(m, FLASH_BASE + c.pc) {
        Option::None => {},
        Option::Some(w) => {
            match spec_decode(w) {
                Instr::Push { r } => {
                    if c.sp >= c.sram_base {
                        lemma_write_same_shape(m, c.sp as int, c.regs[r as int]);
                    }
                },
                Instr::Sts { r } => {
                    match spec_fetch_word(m, FLASH_BASE + c.pc + 2) {
                        Option::None => {},
                        Option::Some(a) => {
                            lemma_write_same_shape(m, a as int, c.regs[r as int]);
                        },
                    }
                },
                Instr::Rcall { k } => {
                    if c.sp > c.sram_base {
                        let ret = next_pc(c.pc);
                        let m1 = map_write(m, c.sp as int, (ret % 256) as u8);
                        lemma_write_same_shape(m, c.sp as int, (ret % 256) as u8);
                        lemma_write_same_shape(m1, c.sp - 1, (ret / 256) as u8);
                    }
                },
                _ => {},
            }
        },
    }
}

/// A step that tells the run loop to stop always records why: a break or
/// sleep encoding, an illegal opcode (or unmapped fetch), or a stack-bound
/// fault.
pub proof fn lemma_halt_reason_recorded(c: CoreModel, m: Seq<EntryModel>)
    ensures
        !spec_step(c, m).running ==> spec_step(c, m).core.halt is Some,
        spec_step(c, m).running ==> spec_step(c, m).core.halt == c.halt,
{
}

/// The execution core.
pub struct Core {
    regs: Vec<u8>,
    flags: Flags,
    pc: u16,
    sp: u16,
    sram_base: u16,
    ramend: u16,
    debug: bool,
    halt: Option<HaltReason>,
}

impl View for Core {
    type V = CoreModel;

    closed spec fn view(&self) -> CoreModel {
        CoreModel {
            regs: self.regs@,
            flags: self.flags,
            pc: self.pc,
            sp: self.sp,
            sram_base: self.sram_base,
            ramend: self.ramend,
            debug: self.debug,
            halt: self.halt,
        }
    }
}

impl Core {
    /// A core at reset: registers and flags clear, program counter zero,
    /// stack pointer at `ramend` (the highest valid stack byte), trace off.
    pub fn new(ct: CoreType, sram_base: u16, ramend: u16) -> (r: Core)
        requires
            1 <= sram_base <= ramend,
        ensures
            core_wf(r@),
            r@.regs =~= Seq::new(32, |i: int| 0u8),
            r@.flags == spec_flags_cleared(),
            r@.pc == 0,
            r@.sp == ramend,
            r@.sram_base == sram_base,
            r@.ramend == ramend,
            !r@.debug,
            r@.halt is None,
    {
        match ct {
            CoreType::AVRxt => {
                let mut regs: Vec<u8> = Vec::new();
                while regs.len() < 32
                    invariant
                        regs.len() <= 32,
                        forall|i: int| 0 <= i < regs.len() ==> regs@[i] == 0u8,
                    decreases 32 - regs.len(),
                {
                    regs.push(0);
                }
                Core {
                    regs,
                    flags: Flags::cleared(),
                    pc: 0,
                    sp: ramend,
                    sram_base,
                    ramend,
                    debug: false,
                    halt: None,
                }
            },
        }
    }

    /// Register `index`, for diagnostics.
    pub fn get_r(&self, index: u8) -> (r: u8)
        requires
            index < 32,
            self@.regs.len() == 32,
        ensures
            r == self@.regs[index as int],
    {
        self.regs[index as usize]
    }

    /// The stack pointer, for diagnostics.
    pub fn get_sp(&self) -> (r: u16)
        ensures
            r == self@.sp,
    {
        self.sp
    }

    /// The program counter, for diagnostics.
    pub fn get_pc(&self) -> (r: u16)
        ensures
            r == self@.pc,
    {
        self.pc
    }

    /// The highest valid stack address the core was built with.
    pub fn get_ramend(&self) -> (r: u16)
        ensures
            r == self@.ramend,
    {
        self.ramend
    }

    /// Why the core last halted, or `None` while it has not.
    pub fn halt_reason(&self) -> (r: Option<HaltReason>)
        ensures
            r == self@.halt,
    {
        self.halt
    }

    /// Toggle per-step tracing; execution semantics are unaffected, only the
    /// flag changes.
    pub fn debug(&mut self, enabled: bool)
        ensures
            final(self)@ == (CoreModel { debug: enabled, ..old(self)@ }),
    {
        self.debug = enabled;
    }

    /// Advance machine state by exactly one instruction against `mm`,
    /// returning whether the run loop should continue. The entire effect —
    /// registers, flags, program counter, stack pointer, bytes written
    /// through the bus, and the continue/halt outcome — is `spec_step` of
    /// the starting state.
    #[verifier::rlimit(60)]
    pub fn step(&mut self, mm: &mut MemoryMap) -> (keep_running: bool)
        requires
            core_wf(old(self)@),
        ensures
            final(self)@ == spec_step(old(self)@, old(mm)@).core,
            final(mm)@ == spec_step(old(self)@, old(mm)@).mem,
            keep_running == spec_step(old(self)@, old(mm)@).running,
            core_wf(final(self)@),
    {
        proof {
            lemma_step_preserves_wf(old(self)@, old(mm)@);
        }
        let (lo, lo_ok) = mm.read(FLASH_BASE + self.pc);
        let (hi, hi_ok) = mm.read(FLASH_BASE + self.pc + 1);
        if !lo_ok || !hi_ok {
            self.halt = Some(HaltReason::IllegalOpcode);
            return false;
        }
        let w: u16 = lo as u16 + 256 * hi as u16;
        let ins = decode(w);
        match ins {
            Instr::Push { .. } | Instr::Pop { .. } => self.exec_stack(mm, ins),
            Instr::Lds { .. } | Instr::Sts { .. } => self.exec_data(mm, ins),
            Instr::Rcall { .. } | Instr::Ret => self.exec_call(mm, ins),
            Instr::Rjmp { .. } | Instr::Brbs { .. } | Instr::Brbc { .. } | Instr::Break
            | Instr::Sleep | Instr::Illegal => self.exec_flow(ins, Ghost(mm@)),
            Instr::Add { .. } | Instr::Adc { .. } | Instr::Sub { .. } | Instr::Cp { .. }
            | Instr::And { .. } | Instr::Or { .. } | Instr::Eor { .. } | Instr::Mov { .. } => self
                .exec_alu2(ins, Ghost(mm@)),
            _ => self.exec_alu1(ins, Ghost(mm@)),
        }
    }

    /// Execute a two-register arithmetic or logic instruction.
    fn exec_alu2(&mut self, ins: Instr, Ghost(m): Ghost<Seq<EntryModel>>) -> (ret: bool)
        requires
            core_wf(old(self)@),
            instr_wf(ins),
            ins is Add || ins is Adc || ins is Sub || ins is Cp || ins is And || ins is Or
                || ins is Eor || ins is Mov,
        ensures
            ({
                let s = spec_exec(old(self)@, m, ins);
                &&& final(self)@ == s.core
                &&& ret == s.running
                &&& s.mem == m
            }),
    {
        match ins {
            Instr::Add { d, r } => {
                let (x, fl) = alu_add(self.regs[d as usize], self.regs[r as usize], false, self.flags);
                self.write_back(d, x, fl);
                true
            },
            Instr::Adc { d, r } => {
                let cin = self.flags.c;
                let (x, fl) = alu_add(self.regs[d as usize], self.regs[r as usize], cin, self.flags);
                self.write_back(d, x, fl);
                true
            },
            Instr::Sub { d, r } => {
                let (x, fl) = alu_sub(self.regs[d as usize], self.regs[r as usize], false, self.flags);
                self.write_back(d, x, fl);
                true
            },
            Instr::Cp { d, r } => {
                let (_, fl) = alu_sub(self.regs[d as usize], self.regs[r as usize], false, self.flags);
                self.flags = fl;
                self.pc = Self::advance1(self.pc);
                true
            },
            Instr::And { d, r } => {
                let x = self.regs[d as usize] & self.regs[r as usize];
                let fl = self.logic_flags(x);
                self.write_back(d, x, fl);
                true
            },
            Instr::Or { d, r } => {
                let x = self.regs[d as usize] | self.regs[r as usize];
                let fl = self.logic_flags(x);
                self.write_back(d, x, fl);
                true
            },
            Instr::Eor { d, r } => {
                let x = self.regs[d as usize] ^ self.regs[r as usize];
                let fl = self.logic_flags(x);
                self.write_back(d, x, fl);
                true
            },
            Instr::Mov { d, r } => {
                let v = self.regs[r as usize];
                self.regs.set(d as usize, v);
                self.pc = Self::advance1(self.pc);
                true
            },
            _ => {
                assert(false);
                false
            },
        }
    }

    /// Execute an immediate-operand or single-register instruction, or the
    /// no-operation.
    #[verifier::rlimit(60)]
    fn exec_alu1(&mut self, ins: Instr, Ghost(m): Ghost<Seq<EntryModel>>) -> (ret: bool)
        requires
            core_wf(old(self)@),
            instr_wf(ins),
            ins is Nop || ins is Ldi || ins is Cpi || ins is Subi || ins is Ori || ins is Andi
                || ins is Com || ins is Neg || ins is Inc || ins is Dec || ins is Lsr,
        ensures
            ({
                let s = spec_exec(old(self)@, m, ins);
                &&& final(self)@ == s.core
                &&& ret == s.running
                &&& s.mem == m
            }),
    {
        match ins {
            Instr::Nop => {
                self.pc = Self::advance1(self.pc);
                true
            },
            Instr::Ldi { d, k } => {
                self.regs.set(d as usize, k);
                self.pc = Self::advance1(self.pc);
                true
            },
            Instr::Cpi { d, k } => {
                let (_, fl) = alu_sub(self.regs[d as usize], k, false, self.flags);
                self.flags = fl;
                self.pc = Self::advance1(self.pc);
                true
            },
            Instr::Subi { d, k } => {
                let (x, fl) = alu_sub(self.regs[d as usize], k, false, self.flags);
                self.write_back(d, x, fl);
                true
            },
            Instr::Ori { d, k } => {
                let x = self.regs[d as usize] | k;
                let fl = self.logic_flags(x);
                self.write_back(d, x, fl);
                true
            },
            Instr::Andi { d, k } => {
                let x = self.regs[d as usize] & k;
                let fl = self.logic_flags(x);
                self.write_back(d, x, fl);
                true
            },
            Instr::Com { d } => {
                let a = self.regs[d as usize];
                let x: u8 = 0xFF - a;
                let n = (x >> 7) & 1 == 1;
                let fl = Flags {
                    c: true,
                    z: x == 0,
                    n,
                    v: false,
                    s: n,
                    h: self.flags.h,
                    t: self.flags.t,
                    i: self.flags.i,
                };
                self.write_back(d, x, fl);
                true
            },
            Instr::Neg { d } => {
                let a = self.regs[d as usize];
                let x: u8 = ((256u16 - a as u16) % 256) as u8;
                let n = (x >> 7) & 1 == 1;
                let v = x == 0x80;
                let fl = Flags {
                    c: x != 0,
                    z: x == 0,
                    n,
                    v,
                    s: n != v,
                    h: (x >> 3) & 1 == 1 || (a >> 3) & 1 == 1,
                    t: self.flags.t,
                    i: self.flags.i,
                };
                self.write_back(d, x, fl);
                true
            },
            Instr::Inc { d } => {
                let a = self.regs[d as usize];
                let x: u8 = ((a as u16 + 1) % 256) as u8;
                let n = (x >> 7) & 1 == 1;
                let v = a == 0x7F;
                let fl = Flags {
                    c: self.flags.c,
                    z: x == 0,
                    n,
                    v,
                    s: n != v,
                    h: self.flags.h,
                    t: self.flags.t,
                    i: self.flags.i,
                };
                self.write_back(d, x, fl);
                true
            },
            Instr::Dec { d } => {
                let a = self.regs[d as usize];
                let x: u8 = ((256u16 + a as u16 - 1) % 256) as u8;
                let n = (x >> 7) & 1 == 1;
                let v = a == 0x80;
                let fl = Flags {
                    c: self.flags.c,
                    z: x == 0,
                    n,
                    v,
                    s: n != v,
                    h: self.flags.h,
                    t: self.flags.t,
                    i: self.flags.i,
                };
                self.write_back(d, x, fl);
                true
            },
            Instr::Lsr { d } => {
                let a = self.regs[d as usize];
                let x: u8 = a >> 1;
                let cf = a & 1 == 1;
                let fl = Flags {
                    c: cf,
                    z: x == 0,
                    n: false,
                    v: cf,
                    s: cf,
                    h: self.flags.h,
                    t: self.flags.t,
                    i: self.flags.i,
                };
                self.write_back(d, x, fl);
                true
            },
            _ => {
                assert(false);
                false
            },
        }
    }

    /// Execute a jump, conditional branch or halting instruction.
    fn exec_flow(&mut self, ins: Instr, Ghost(m): Ghost<Seq<EntryModel>>) -> (ret: bool)
        requires
            core_wf(old(self)@),
            instr_wf(ins),
            ins is Rjmp || ins is Brbs || ins is Brbc || ins is Break || ins is Sleep
                || ins is Illegal,
        ensures
            ({
                let s = spec_exec(old(self)@, m, ins);
                &&& final(self)@ == s.core
                &&& ret == s.running
                &&& s.mem == m
            }),
    {
        match ins {
            Instr::Rjmp { k } => {
                self.pc = Self::rel12(self.pc, k);
                true
            },
            Instr::Brbs { s, k } => {
                if flag_bit(self.flags, s) {
                    self.pc = Self::rel7(self.pc, k);
                } else {
                    self.pc = Self::advance1(self.pc);
                }
                true
            },
            Instr::Brbc { s, k } => {
                if !flag_bit(self.flags, s) {
                    self.pc = Self::rel7(self.pc, k);
                } else {
                    self.pc = Self::advance1(self.pc);
                }
                true
            },
            Instr::Break => {
                self.pc = Self::advance1(self.pc);
                self.halt = Some(HaltReason::Break);
                false
            },
            Instr::Sleep => {
                self.pc = Self::advance1(self.pc);
                self.halt = Some(HaltReason::Sleep);
                false
            },
            Instr::Illegal => {
                self.halt = Some(HaltReason::IllegalOpcode);
                false
            },
            _ => {
                assert(false);
                false
            },
        }
    }

    /// Execute a stack push or pop against the bus.
    #[verifier::rlimit(100)]
    fn exec_stack(&mut self, mm: &mut MemoryMap, ins: Instr) -> (ret: bool)
        requires
            core_wf(old(self)@),
            instr_wf(ins),
            ins is Push || ins is Pop,
        ensures
            ({
                let s = spec_exec(old(self)@, old(mm)@, ins);
                &&& final(self)@ == s.core
                &&& final(mm)@ == s.mem
                &&& ret == s.running
            }),
    {
        match ins {
            Instr::Push { r } => {
                if self.sp < self.sram_base {
                    self.halt = Some(HaltReason::StackOverflow);
                    false
                } else {
                    mm.write(self.sp, self.regs[r as usize]);
                    self.sp = self.sp - 1;
                    self.pc = Self::advance1(self.pc);
                    true
                }
            },
            Instr::Pop { d } => {
                if self.sp >= self.ramend {
                    self.halt = Some(HaltReason::StackUnderflow);
                    false
                } else {
                    self.sp = self.sp + 1;
                    let (v, _) = mm.read(self.sp);
                    self.regs.set(d as usize, v);
                    self.pc = Self::advance1(self.pc);
                    true
                }
            },
            _ => {
                assert(false);
                false
            },
        }
    }

    /// Execute a direct data load or store against the bus; the data
    /// address is the second opcode word.
    #[verifier::rlimit(100)]
    fn exec_data(&mut self, mm: &mut MemoryMap, ins: Instr) -> (ret: bool)
        requires
            core_wf(old(self)@),
            instr_wf(ins),
            ins is Lds || ins is Sts,
        ensures
            ({
                let s = spec_exec(old(self)@, old(mm)@, ins);
                &&& final(self)@ == s.core
                &&& final(mm)@ == s.mem
                &&& ret == s.running
            }),
    {
        match ins {
            Instr::Lds { d } => {
                let (alo, alo_ok) = mm.read(FLASH_BASE + self.pc + 2);
                let (ahi, ahi_ok) = mm.read(FLASH_BASE + self.pc + 3);
                if !alo_ok || !ahi_ok {
                    self.halt = Some(HaltReason::IllegalOpcode);
                    false
                } else {
                    let a: u16 = alo as u16 + 256 * ahi as u16;
                    let (v, _) = mm.read(a);
                    self.regs.set(d as usize, v);
                    self.pc = Self::advance2(self.pc);
                    true
                }
            },
            Instr::Sts { r } => {
                let (alo, alo_ok) = mm.read(FLASH_BASE + self.pc + 2);
                let (ahi, ahi_ok) = mm.read(FLASH_BASE + self.pc + 3);
                if !alo_ok || !ahi_ok {
                    self.halt = Some(HaltReason::IllegalOpcode);
                    false
                } else {
                    let a: u16 = alo as u16 + 256 * ahi as u16;
                    mm.write(a, self.regs[r as usize]);
                    self.pc = Self::advance2(self.pc);
                    true
                }
            },
            _ => {
                assert(false);
                false
            },
        }
    }

    /// Execute a relative call or a return: the return address crosses the
    /// stack, high byte at the lower address.
    #[verifier::spinoff_prover]
    #[verifier::rlimit(100)]
    fn exec_call(&mut self, mm: &mut MemoryMap, ins: Instr) -> (ret: bool)
        requires
            core_wf(old(self)@),
            instr_wf(ins),
            ins is Rcall || ins is Ret,
        ensures
            ({
                let s = spec_exec(old(self)@, old(mm)@, ins);
                &&& final(self)@ == s.core
                &&& final(mm)@ == s.mem
                &&& ret == s.running
            }),
    {
        match ins {
            Instr::Rcall { k } => {
                if self.sp <= self.sram_base {
                    self.halt = Some(HaltReason::StackOverflow);
                    false
                } else {
                    let ret_addr = Self::advance1(self.pc);
                    mm.write(self.sp, (ret_addr % 256) as u8);
                    mm.write(self.sp - 1, (ret_addr / 256) as u8);
                    self.sp = self.sp - 2;
                    self.pc = Self::rel12(self.pc, k);
                    true
                }
            },
            Instr::Ret => {
                if self.ramend - self.sp < 2 {
                    self.halt = Some(HaltReason::StackUnderflow);
                    false
                } else {
                    let (hi2, _) = mm.read(self.sp + 1);
                    let (lo2, _) = mm.read(self.sp + 2);
                    self.pc = ((hi2 as u32 * 256 + lo2 as u32) % FLASH_SIZE as u32) as u16;
                    self.sp = self.sp + 2;
                    true
                }
            },
            _ => {
                assert(false);
                false
            },
        }
    }

    /// Write an arithmetic result and its flags back and advance past a
    /// one-word instruction.
    fn write_back(&mut self, d: u8, x: u8, fl: Flags)
        requires
            d < 32,
            old(self)@.regs.len() == 32,
        ensures
            final(self)@ == (CoreModel {
                regs: old(self)@.regs.update(d as int, x),
                flags: fl,
                pc: next_pc(old(self)@.pc),
                ..old(self)@
            }),
    {
        self.regs.set(d as usize, x);
        self.flags = fl;
        self.pc = Self::advance1(self.pc);
    }

    /// Flags after a bitwise result.
    fn logic_flags(&self, x: u8) -> (r: Flags)
        ensures
            r == spec_logic_flags(x, self@.flags),
    {
        let n = (x >> 7) & 1 == 1;
        Flags {
            c: self.flags.c,
            z: x == 0,
            n,
            v: false,
            s: n,
            h: self.flags.h,
            t: self.flags.t,
            i: self.flags.i,
        }
    }

    fn advance1(pc: u16) -> (r: u16)
        ensures
            r == next_pc(pc),
    {
        ((pc as u32 + 2) % FLASH_SIZE as u32) as u16
    }

    fn advance2(pc: u16) -> (r: u16)
        ensures
            r == next2_pc(pc),
    {
        ((pc as u32 + 4) % FLASH_SIZE as u32) as u16
    }

    fn rel12(pc: u16, k: u16) -> (r: u16)
        ensures
            r == rel12_target(pc, k),
    {
        let off: u32 = if k >= 2048 {
            8192
        } else {
            0
        };
        ((pc as u32 + 2 + 2 * k as u32 + off) % FLASH_SIZE as u32) as u16
    }

    fn rel7(pc: u16, k: u8) -> (r: u16)
        ensures
            r == rel7_target(pc, k),
    {
        let off: u32 = if k >= 64 {
            16128
        } else {
            0
        };
        ((pc as u32 + 2 + 2 * k as u32 + off) % FLASH_SIZE as u32) as u16
    }
}

/// A push of one byte followed by a pop restores the stack pointer to its
/// pre-push value and the popped value equals the pushed one, provided
/// there is room to push and the stack address is mapped to writable
/// storage.
pub proof fn lemma_push_then_pop(c: CoreModel, m: Seq<EntryModel>, rr: u8, dd: u8)
    requires
        core_wf(c),
        rr < 32,
        dd < 32,
        c.sp >= c.sram_base,
        map_resolve(m, c.sp as int) >= 0,
        !m[map_resolve(m, c.sp as int)].mem.read_only,
    ensures
        ({
            let s1 = spec_exec(c, m, Instr::Push { r: rr });
            let s2 = spec_exec(s1.core, s1.mem, Instr::Pop { d: dd });
            &&& s1.running
            &&& s2.running
            &&& s2.core.sp == c.sp
            &&& s2.core.regs[dd as int] == c.regs[rr as int]
            &&& s2.mem == s1.mem
        }),
{
    lemma_mapped_write_then_read(m, c.sp as int, c.regs[rr as int]);
}

/// A step on an opcode word of all-zero bits — the no-operation encoding —
/// advances the program counter by one instruction width, mutates no
/// register, flag or stack state, leaves the bus untouched and keeps
/// running.
pub proof fn lemma_step_nop(c: CoreModel, m: Seq<EntryModel>)
    requires
        spec_fetch_word(m, FLASH_BASE + c.pc) == Some(0x0000u16),
    ensures
        ({
            let r = spec_step(c, m);
            &&& r.running
            &&& r.mem == m
            &&& r.core == (CoreModel { pc: next_pc(c.pc), ..c })
        }),
{
    assert(spec_decode(0x0000) == Instr::Nop);
}

} // verus!
