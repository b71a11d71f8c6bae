//! The ARM7TDMI core: registers, banks, pipeline and the way to memory.

use vstd::prelude::*;
use crate::alu::multiplier_cycles;
use crate::bits::{
    bit, offset_by, rotate_right, rotated_right, sign_extend, signed_field, test_bit, word,
};
use crate::cache::{BlockCache, CacheState, DecodedInstr};
use crate::cond::ArmCond;
use crate::laws::words::lemma_cut;
use crate::memory::{MemoryAccess, MemoryInterface, Request};
use crate::psr::{CpuMode, CpuState, RegPSR};

verus! {

pub const REG_SP: usize = 13;

pub const REG_LR: usize = 14;

pub const REG_PC: usize = 15;

/// What the core does after an instruction.
#[derive(Clone, Copy, PartialEq, Eq, Structural, Debug)]
pub enum CpuAction {
    /// On to the next instruction, fetched with the given access.
    AdvancePC(MemoryAccess),
    /// The pipeline was refilled elsewhere.
    PipelineFlushed,
}

/// The exceptions that the core enters by itself.
#[derive(Clone, Copy, PartialEq, Eq, Structural, Debug)]
pub enum Exception {
    Reset,
    UndefinedInstruction,
    SoftwareInterrupt,
}

impl Exception {
    /// The mode in which the exception is handled.
    pub open spec fn handled_in(self) -> CpuMode {
        match self {
            Exception::UndefinedInstruction => CpuMode::Undefined,
            _ => CpuMode::Supervisor,
        }
    }

    /// The address of the exception's vector.
    pub open spec fn vector_at(self) -> u32 {
        match self {
            Exception::Reset => 0,
            Exception::UndefinedInstruction => 4,
            Exception::SoftwareInterrupt => 8,
        }
    }

    pub fn mode_on_entry(self) -> (m: CpuMode)
        ensures
            m == self.handled_in(),
    {
        match self {
            Exception::UndefinedInstruction => CpuMode::Undefined,
            _ => CpuMode::Supervisor,
        }
    }

    pub fn vector(self) -> (v: u32)
        ensures
            v == self.vector_at(),
    {
        match self {
            Exception::Reset => 0,
            Exception::UndefinedInstruction => 4,
            Exception::SoftwareInterrupt => 8,
        }
    }
}

/// The registers that the current mode hides.
#[derive(Clone, Copy, Debug)]
pub struct BankedRegisters {
    /// R13 and R14 of each bank.
    pub gpr_banked_r13: [u32; 6],
    pub gpr_banked_r14: [u32; 6],
    /// R8 to R12 outside and inside FIQ mode.
    pub gpr_banked_old_r8_12: [u32; 5],
    pub gpr_banked_fiq_r8_12: [u32; 5],
    pub spsr_bank: [RegPSR; 6],
}

/// What the banks hold.
pub ghost struct BanksState {
    pub r13: Seq<u32>,
    pub r14: Seq<u32>,
    pub old_r8_12: Seq<u32>,
    pub fiq_r8_12: Seq<u32>,
    pub spsr: Seq<RegPSR>,
}

impl View for BankedRegisters {
    type V = BanksState;

    open spec fn view(&self) -> BanksState {
        BanksState {
            r13: self.gpr_banked_r13@,
            r14: self.gpr_banked_r14@,
            old_r8_12: self.gpr_banked_old_r8_12@,
            fiq_r8_12: self.gpr_banked_fiq_r8_12@,
            spsr: self.spsr_bank@,
        }
    }
}

impl BanksState {
    /// Banks full of zeros.
    pub open spec fn zero() -> BanksState {
        BanksState {
            r13: Seq::new(6, |i: int| 0u32),
            r14: Seq::new(6, |i: int| 0u32),
            old_r8_12: Seq::new(5, |i: int| 0u32),
            fiq_r8_12: Seq::new(5, |i: int| 0u32),
            spsr: Seq::new(6, |i: int| RegPSR { raw: 0 }),
        }
    }
}

impl Default for BankedRegisters {
    fn default() -> (b: BankedRegisters)
        ensures
            b@ == BanksState::zero(),
    {
        let z = RegPSR { raw: 0 };
        let b = BankedRegisters {
            gpr_banked_r13: [0;6],
            gpr_banked_r14: [0;6],
            gpr_banked_old_r8_12: [0;5],
            gpr_banked_fiq_r8_12: [0;5],
            spsr_bank: [z, z, z, z, z, z],
        };
        assert(b@.r13 =~= BanksState::zero().r13);
        assert(b@.r14 =~= BanksState::zero().r14);
        assert(b@.old_r8_12 =~= BanksState::zero().old_r8_12);
        assert(b@.fiq_r8_12 =~= BanksState::zero().fiq_r8_12);
        assert(b@.spsr =~= BanksState::zero().spsr);
        b
    }
}

/// The part of a core that a saved state keeps.
#[derive(Clone, Copy, Debug)]
pub struct SavedCpuState {
    pub pc: u32,
    pub gpr: [u32; 15],
    pub next_fetch_access: MemoryAccess,
    pub pipeline: [u32; 2],
    pub cpsr: RegPSR,
    pub spsr: RegPSR,
    pub banks: BankedRegisters,
}

/// The part of a core's state that a saved state keeps.
pub ghost struct SavedState {
    pub pc: u32,
    pub gpr: Seq<u32>,
    pub next_fetch_access: MemoryAccess,
    pub pipeline: Seq<u32>,
    pub cpsr: RegPSR,
    pub spsr: RegPSR,
    pub banks: BanksState,
}

impl View for SavedCpuState {
    type V = SavedState;

    open spec fn view(&self) -> SavedState {
        SavedState {
            pc: self.pc,
            gpr: self.gpr@,
            next_fetch_access: self.next_fetch_access,
            pipeline: self.pipeline@,
            cpsr: self.cpsr,
            spsr: self.spsr,
            banks: self.banks@,
        }
    }
}

/// An instruction that was executed, and its address.
#[derive(Clone, Copy, PartialEq, Eq, Structural, Debug)]
pub struct ExecutedInstr {
    pub instr: DecodedInstr,
    pub pc: u32,
}

/// What a debugger wants to know of a core.
#[derive(Debug)]
pub struct DebuggerState {
    /// The instruction that single steps executed last.
    pub last_executed: Option<ExecutedInstr>,
    /// The registers before that instruction.
    pub gpr_previous: [u32; 15],
    pub breakpoints: Vec<u32>,
    pub verbose: bool,
    pub trace_opcodes: bool,
    pub trace_exceptions: bool,
}

/// The state of a debugger.
pub ghost struct DebugState {
    pub last_executed: Option<ExecutedInstr>,
    pub gpr_previous: Seq<u32>,
    pub breakpoints: Seq<u32>,
    pub verbose: bool,
    pub trace_opcodes: bool,
    pub trace_exceptions: bool,
}

impl DebugState {
    /// A debugger that has seen nothing and prints nothing.
    pub open spec fn quiet() -> DebugState {
        DebugState {
            last_executed: None,
            gpr_previous: Seq::new(15, |i: int| 0u32),
            breakpoints: Seq::empty(),
            verbose: false,
            trace_opcodes: false,
            trace_exceptions: false,
        }
    }
}

impl View for DebuggerState {
    type V = DebugState;

    open spec fn view(&self) -> DebugState {
        DebugState {
            last_executed: self.last_executed,
            gpr_previous: self.gpr_previous@,
            breakpoints: self.breakpoints@,
            verbose: self.verbose,
            trace_opcodes: self.trace_opcodes,
            trace_exceptions: self.trace_exceptions,
        }
    }
}

impl Default for DebuggerState {
    fn default() -> (d: DebuggerState)
        ensures
            d@ == DebugState::quiet(),
    {
        let d = DebuggerState {
            last_executed: None,
            gpr_previous: [0;15],
            breakpoints: Vec::new(),
            verbose: false,
            trace_opcodes: false,
            trace_exceptions: false,
        };
        assert(d@.gpr_previous =~= DebugState::quiet().gpr_previous);
        assert(d@.breakpoints =~= Seq::empty());
        d
    }
}

impl Clone for DebuggerState {
    fn clone(&self) -> (d: DebuggerState)
        ensures
            d@ == self@,
    {
        DebuggerState {
            last_executed: self.last_executed,
            gpr_previous: self.gpr_previous,
            breakpoints: copied(&self.breakpoints),
            verbose: self.verbose,
            trace_opcodes: self.trace_opcodes,
            trace_exceptions: self.trace_exceptions,
        }
    }
}

/// A copy of some words.
fn copied(words: &Vec<u32>) -> (r: Vec<u32>)
    ensures
        r@ == words@,
{
    let mut r: Vec<u32> = Vec::new();
    let mut i: usize = 0;
    while i < words.len()
        invariant
            i <= words@.len(),
            r@ == words@.take(i as int),
        decreases words@.len() - i,
    {
        r.push(words[i]);
        i = i + 1;
        assert(words@.take(i as int) =~= words@.take(i - 1).push(words@[i - 1]));
    }
    assert(r@ =~= words@);
    r
}

/// An ARM7TDMI core on a memory bus.
#[derive(Debug)]
pub struct Arm7tdmiCore<I: MemoryInterface> {
    pub pc: u32,
    pub bus: I,
    pub next_fetch_access: MemoryAccess,
    pub pipeline: [u32; 2],
    pub gpr: [u32; 15],
    pub cpsr: RegPSR,
    pub spsr: RegPSR,
    pub banks: BankedRegisters,
    pub breakpoints: Vec<u32>,
    pub dbg: DebuggerState,
    pub block_cache: BlockCache,
    pub aot: AotHook,
}

/// The hook into blocks that were compiled ahead of time: a table handle, whether a lookup is
/// installed for each instruction set, and how often lookups hit and missed.
#[derive(Clone, Copy, PartialEq, Eq, Structural, Debug)]
pub struct AotHook {
    pub table: usize,
    pub thumb: bool,
    pub arm: bool,
    pub hits_thumb: u64,
    pub hits_arm: u64,
    pub misses_thumb: u64,
    pub misses_arm: u64,
}

/// The state of a core.
pub ghost struct CoreState<I: MemoryInterface> {
    pub pc: u32,
    pub bus: I::State,
    pub next_fetch_access: MemoryAccess,
    pub pipeline: Seq<u32>,
    pub gpr: Seq<u32>,
    pub cpsr: RegPSR,
    pub spsr: RegPSR,
    pub banks: BanksState,
    pub breakpoints: Seq<u32>,
    pub dbg: DebugState,
    pub cache: CacheState,
    pub aot: AotHook,
}

impl<I: MemoryInterface> View for Arm7tdmiCore<I> {
    type V = CoreState<I>;

    open spec fn view(&self) -> CoreState<I> {
        CoreState {
            pc: self.pc,
            bus: self.bus.state(),
            next_fetch_access: self.next_fetch_access,
            pipeline: self.pipeline@,
            gpr: self.gpr@,
            cpsr: self.cpsr,
            spsr: self.spsr,
            banks: self.banks@,
            breakpoints: self.breakpoints@,
            dbg: self.dbg@,
            cache: self.block_cache@,
            aot: self.aot,
        }
    }
}

impl AotHook {
    /// No hook.
    pub open spec fn absent() -> AotHook {
        AotHook {
            table: 0,
            thumb: false,
            arm: false,
            hits_thumb: 0,
            hits_arm: 0,
            misses_thumb: 0,
            misses_arm: 0,
        }
    }

    pub fn none() -> (h: AotHook)
        ensures
            h == AotHook::absent(),
    {
        AotHook {
            table: 0,
            thumb: false,
            arm: false,
            hits_thumb: 0,
            hits_arm: 0,
            misses_thumb: 0,
            misses_arm: 0,
        }
    }
}

impl<I: MemoryInterface> CoreState<I> {
    /// The shape that every state of a core has.
    pub open spec fn shaped(self) -> bool {
        &&& self.pipeline.len() == 2
        &&& self.gpr.len() == 15
        &&& self.banks.r13.len() == 6
        &&& self.banks.r14.len() == 6
        &&& self.banks.old_r8_12.len() == 5
        &&& self.banks.fiq_r8_12.len() == 5
        &&& self.banks.spsr.len() == 6
    }

    /// The part of the state that a saved state keeps.
    pub open spec fn saved(self) -> SavedState {
        SavedState {
            pc: self.pc,
            gpr: self.gpr,
            next_fetch_access: self.next_fetch_access,
            pipeline: self.pipeline,
            cpsr: self.cpsr,
            spsr: self.spsr,
            banks: self.banks,
        }
    }

    /// The state with the saved part replaced.
    pub open spec fn restored(self, saved: SavedState) -> Self {
        CoreState {
            pc: saved.pc,
            gpr: saved.gpr,
            next_fetch_access: saved.next_fetch_access,
            pipeline: saved.pipeline,
            cpsr: saved.cpsr,
            spsr: saved.spsr,
            banks: saved.banks,
            ..self
        }
    }

    /// The bus's reply to a request.
    pub open spec fn got(self, request: Request) -> u32 {
        I::reply(self.bus, request)
    }

    /// The state after a request.
    pub open spec fn did(self, request: Request) -> Self {
        CoreState { bus: I::next(self.bus, request), ..self }
    }

    pub open spec fn with_gpr(self, r: int, v: u32) -> Self {
        CoreState { gpr: self.gpr.update(r, v), ..self }
    }

    pub open spec fn with_pc(self, pc: u32) -> Self {
        CoreState { pc, ..self }
    }

    pub open spec fn with_fetch(self, access: MemoryAccess) -> Self {
        CoreState { next_fetch_access: access, ..self }
    }

    pub open spec fn with_cpsr(self, cpsr: RegPSR) -> Self {
        CoreState { cpsr, ..self }
    }

    pub open spec fn with_cache(self, cache: CacheState) -> Self {
        CoreState { cache, ..self }
    }

    /// The state with an instruction noted by the debugger.
    pub open spec fn noted(self, e: ExecutedInstr) -> Self {
        CoreState {
            dbg: DebugState { gpr_previous: self.gpr, last_executed: Some(e), ..self.dbg },
            ..self
        }
    }

    pub open spec fn thumb(self) -> bool {
        self.cpsr.state_of() == CpuState::THUMB
    }

    /// Register `r`, the program counter among them.
    pub open spec fn reg(self, r: int) -> u32 {
        if r == 15 {
            self.pc
        } else {
            self.gpr[r]
        }
    }

    /// The state with register `r` replaced; the program counter is aligned for the instruction
    /// set.
    pub open spec fn set_reg(self, r: int, v: u32) -> Self {
        if r == 15 {
            self.with_pc(
                if self.thumb() {
                    v & 0xffff_fffe
                } else {
                    v & 0xffff_fffc
                },
            )
        } else {
            self.with_gpr(r, v)
        }
    }

    /// The pipeline refilled from two Thumb instructions at the program counter.
    pub open spec fn reloaded16(self) -> Self {
        let a = Request::Load16(self.pc, MemoryAccess::NonSeq);
        let s = self.did(a);
        let b = Request::Load16(self.pc.wrapping_add(2), MemoryAccess::Sequential);
        CoreState {
            pipeline: seq![self.got(a), s.got(b)],
            pc: self.pc.wrapping_add(2).wrapping_add(2),
            next_fetch_access: MemoryAccess::Sequential,
            ..s.did(b)
        }
    }

    /// The pipeline refilled from two ARM instructions at the program counter.
    pub open spec fn reloaded32(self) -> Self {
        let a = Request::Load32(self.pc, MemoryAccess::NonSeq);
        let s = self.did(a);
        let b = Request::Load32(self.pc.wrapping_add(4), MemoryAccess::Sequential);
        CoreState {
            pipeline: seq![self.got(a), s.got(b)],
            pc: self.pc.wrapping_add(4).wrapping_add(4),
            next_fetch_access: MemoryAccess::Sequential,
            ..s.did(b)
        }
    }

    /// A jump to `addr`, whose bit 0 selects the instruction set.
    pub open spec fn exchanged(self, addr: u32) -> Self {
        if addr & 1 != 0 {
            self.with_cpsr(self.cpsr.with_state(CpuState::THUMB)).with_pc(
                addr & 0xffff_fffe,
            ).reloaded16()
        } else {
            self.with_cpsr(self.cpsr.with_state(CpuState::ARM)).with_pc(
                addr & 0xffff_fffc,
            ).reloaded32()
        }
    }

    /// A register as user mode sees it.
    pub open spec fn user_reg(self, r: int) -> u32 {
        if r < 8 {
            self.gpr[r]
        } else if r < 13 {
            if self.cpsr.mode_of() == Some(CpuMode::Fiq) {
                self.gpr[r]
            } else {
                self.banks.old_r8_12[r - 8]
            }
        } else if r == 13 {
            self.banks.r13[0]
        } else {
            self.banks.r14[0]
        }
    }

    /// The state with a register of user mode replaced.
    pub open spec fn set_user_reg(self, r: int, v: u32) -> Self {
        if r < 8 || (r < 13 && self.cpsr.mode_of() == Some(CpuMode::Fiq)) {
            self.with_gpr(r, v)
        } else if r < 13 {
            CoreState {
                banks: BanksState {
                    old_r8_12: self.banks.old_r8_12.update(r - 8, v),
                    ..self.banks
                },
                ..self
            }
        } else if r == 13 {
            CoreState {
                banks: BanksState { r13: self.banks.r13.update(0, v), ..self.banks },
                ..self
            }
        } else {
            CoreState {
                banks: BanksState { r14: self.banks.r14.update(0, v), ..self.banks },
                ..self
            }
        }
    }

    /// A register file with R8 to R12 replaced.
    pub open spec fn with_middle(gpr: Seq<u32>, middle: Seq<u32>) -> Seq<u32> {
        gpr.update(8, middle[0]).update(9, middle[1]).update(10, middle[2]).update(
            11,
            middle[3],
        ).update(12, middle[4])
    }

    /// The state after a change of mode: the banked registers change places.
    pub open spec fn mode_changed(self, old_mode: CpuMode, new_mode: CpuMode) -> Self {
        let oi = old_mode.bank() as int;
        let ni = new_mode.bank() as int;
        if oi == ni {
            self
        } else {
            let b = BanksState {
                spsr: self.banks.spsr.update(oi, self.spsr),
                r13: self.banks.r13.update(oi, self.gpr[13]),
                r14: self.banks.r14.update(oi, self.gpr[14]),
                ..self.banks
            };
            let g = self.gpr.update(13, b.r13[ni]).update(14, b.r14[ni]);
            let middle = seq![self.gpr[8], self.gpr[9], self.gpr[10], self.gpr[11], self.gpr[12]];
            CoreState {
                spsr: b.spsr[ni],
                cpsr: self.cpsr.with_mode(new_mode),
                gpr: if new_mode == CpuMode::Fiq {
                    Self::with_middle(g, b.fiq_r8_12)
                } else if old_mode == CpuMode::Fiq {
                    Self::with_middle(g, b.old_r8_12)
                } else {
                    g
                },
                banks: if new_mode == CpuMode::Fiq {
                    BanksState { old_r8_12: middle, ..b }
                } else if old_mode == CpuMode::Fiq {
                    BanksState { fiq_r8_12: middle, ..b }
                } else {
                    b
                },
                ..self
            }
        }
    }

    /// The entry of an exception with return address `lr`.
    pub open spec fn excepted(self, e: Exception, lr: u32) -> Self {
        let mode = e.handled_in();
        let i = mode.bank() as int;
        let banked = CoreState {
            banks: BanksState {
                spsr: self.banks.spsr.update(i, self.cpsr),
                r14: self.banks.r14.update(i, lr),
                ..self.banks
            },
            ..self
        };
        let s = banked.mode_changed(self.cpsr.mode_of()->0, mode);
        let psr = s.cpsr.with_state(CpuState::ARM).with_mode(mode).with_irq_disabled(true);
        s.with_cpsr(
            if e == Exception::Reset {
                psr.with_fiq_disabled(true)
            } else {
                psr
            },
        ).with_pc(e.vector_at()).reloaded32()
    }

    /// A word load as `LDR` does it: a misaligned word is rotated so that the addressed byte
    /// comes lowest, and the carry is then the top bit of the result.
    pub open spec fn word_loaded(self, addr: u32, access: MemoryAccess) -> (u32, Self) {
        let off = addr & 3;
        let req = Request::Load32(addr & 0xffff_fffc, access);
        if off != 0 {
            let v = rotated_right(self.got(req), (8 * off) as u32);
            let s = self.did(req);
            (v, s.with_cpsr(s.cpsr.with_carry(bit(v, 31))))
        } else {
            (self.got(Request::Load32(addr, access)), self.did(Request::Load32(addr, access)))
        }
    }

    /// A halfword load as `LDRH` does it: at an odd address the halfword is rotated by a byte,
    /// and the carry is then the top bit of the result.
    pub open spec fn half_loaded(self, addr: u32, access: MemoryAccess) -> (u32, Self) {
        let req = Request::Load16(addr & 0xffff_fffe, access);
        if addr & 1 != 0 {
            let v = rotated_right(self.got(req), 8);
            let s = self.did(req);
            (v, s.with_cpsr(s.cpsr.with_carry(bit(v, 31))))
        } else {
            (self.got(Request::Load16(addr, access)), self.did(Request::Load16(addr, access)))
        }
    }

    /// A load as `LDSH` does it: a sign-extended halfword, or a sign-extended byte at an odd
    /// address.
    pub open spec fn signed_half_loaded(self, addr: u32, access: MemoryAccess) -> (u32, Self) {
        if addr & 1 != 0 {
            let req = Request::Load8(addr, access);
            (word(signed_field(self.got(req), 0x80)), self.did(req))
        } else {
            let req = Request::Load16(addr, access);
            (word(signed_field(self.got(req), 0x8000)), self.did(req))
        }
    }
}

impl<I: MemoryInterface> Arm7tdmiCore<I> {
    /// A core in supervisor mode with interrupts off and everything else zero.
    pub fn new(bus: I) -> (c: Arm7tdmiCore<I>)
        ensures
            c@ == (CoreState::<I> {
                pc: 0,
                bus: bus.state(),
                next_fetch_access: MemoryAccess::NonSeq,
                pipeline: seq![0u32, 0u32],
                gpr: Seq::new(15, |i: int| 0u32),
                cpsr: RegPSR::of(0xd3),
                spsr: RegPSR { raw: 0 },
                banks: BanksState::zero(),
                breakpoints: Seq::empty(),
                dbg: DebugState::quiet(),
                cache: CacheState::empty(),
                aot: AotHook::absent(),
            }),
    {
        let c = Arm7tdmiCore {
            pc: 0,
            bus,
            next_fetch_access: MemoryAccess::NonSeq,
            pipeline: [0;2],
            gpr: [0;15],
            cpsr: RegPSR::new(0x0000_00d3),
            spsr: RegPSR { raw: 0 },
            banks: BankedRegisters::default(),
            breakpoints: Vec::new(),
            dbg: DebuggerState::default(),
            block_cache: BlockCache::new(),
            aot: AotHook::none(),
        };
        assert(c@.pipeline =~= seq![0u32, 0u32]);
        assert(c@.gpr =~= Seq::new(15, |i: int| 0u32));
        assert(c@.breakpoints =~= Seq::empty());
        c
    }

    /// A core in a saved state, without breakpoints, cached blocks or hooks.
    pub fn from_saved_state(bus: I, state: SavedCpuState) -> (c: Arm7tdmiCore<I>)
        ensures
            c@.saved() == state@,
            c@.bus == bus.state(),
            c@.breakpoints == Seq::<u32>::empty(),
            c@.dbg == DebugState::quiet(),
            c@.cache == CacheState::empty(),
            c@.aot == AotHook::absent(),
    {
        let c = Arm7tdmiCore {
            pc: state.pc,
            bus,
            next_fetch_access: state.next_fetch_access,
            pipeline: state.pipeline,
            gpr: state.gpr,
            cpsr: state.cpsr,
            spsr: state.spsr,
            banks: state.banks,
            breakpoints: Vec::new(),
            dbg: DebuggerState::default(),
            block_cache: BlockCache::new(),
            aot: AotHook::none(),
        };
        assert(c@.breakpoints =~= Seq::empty());
        c
    }

    /// The part of the state that a saved state keeps.
    pub fn save_state(&self) -> (s: SavedCpuState)
        ensures
            s@ == self@.saved(),
    {
        SavedCpuState {
            pc: self.pc,
            gpr: self.gpr,
            next_fetch_access: self.next_fetch_access,
            pipeline: self.pipeline,
            cpsr: self.cpsr,
            spsr: self.spsr,
            banks: self.banks,
        }
    }

    /// Takes over a saved state; the bus, breakpoints, cached blocks and hooks stay.
    pub fn restore_state(&mut self, state: SavedCpuState)
        ensures
            final(self)@ == old(self)@.restored(state@),
    {
        self.pc = state.pc;
        self.cpsr = state.cpsr;
        self.gpr = state.gpr;
        self.spsr = state.spsr;
        self.banks = state.banks;
        self.pipeline = state.pipeline;
        self.next_fetch_access = state.next_fetch_access;
    }

    /// A copy on another bus. Cached blocks and hooks are not copied.
    pub fn clone_onto(&self, bus: I) -> (c: Arm7tdmiCore<I>)
        ensures
            c@ == (CoreState::<I> {
                bus: bus.state(),
                cache: CacheState::empty(),
                aot: AotHook::absent(),
                ..self@
            }),
    {
        Arm7tdmiCore {
            pc: self.pc,
            bus,
            next_fetch_access: self.next_fetch_access,
            pipeline: self.pipeline,
            gpr: self.gpr,
            cpsr: self.cpsr,
            spsr: self.spsr,
            banks: self.banks,
            breakpoints: copied(&self.breakpoints),
            dbg: self.dbg.clone(),
            block_cache: BlockCache::new(),
            aot: AotHook::none(),
        }
    }

    pub fn set_memory_interface(&mut self, i: I)
        ensures
            final(self)@ == (CoreState::<I> { bus: i.state(), ..old(self)@ }),
    {
        self.bus = i;
    }

    pub fn add_breakpoint(&mut self, addr: u32)
        ensures
            final(self)@ == (CoreState::<I> {
                breakpoints: old(self)@.breakpoints.push(addr),
                ..old(self)@
            }),
    {
        self.breakpoints.push(addr);
    }

    /// Removes the first breakpoint at `addr`, if there is one.
    pub fn del_breakpoint(&mut self, addr: u32)
        ensures
            final(self)@ == (CoreState::<I> {
                breakpoints: without_first(old(self)@.breakpoints, addr),
                ..old(self)@
            }),
    {
        let mut i: usize = 0;
        while i < self.breakpoints.len()
            invariant
                i <= self.breakpoints@.len(),
                *self == *old(self),
                forall|j: int| 0 <= j < i ==> self.breakpoints@[j] != addr,
            decreases self.breakpoints@.len() - i,
        {
            if self.breakpoints[i] == addr {
                proof {
                    lemma_first(self.breakpoints@, addr, i as int);
                }
                self.breakpoints.remove(i);
                return;
            }
            i = i + 1;
        }
        proof {
            lemma_none(self.breakpoints@, addr);
        }
    }

    /// The first breakpoint on the instruction that comes next.
    pub fn check_breakpoint(&self) -> (r: Option<u32>)
        requires
            self@.pc >= 2 * word_bytes(self@.thumb()),
        ensures
            r == first_hit(self@.breakpoints, (self@.pc - 2 * word_bytes(self@.thumb())) as u32),
    {
        let next_pc: u32 = self.get_next_pc();
        let mut i: usize = 0;
        proof {
            assert(self.breakpoints@.skip(0) =~= self.breakpoints@);
        }
        while i < self.breakpoints.len()
            invariant
                i <= self.breakpoints@.len(),
                next_pc == self@.pc - 2 * word_bytes(self@.thumb()),
                first_hit(self.breakpoints@, next_pc) == first_hit(
                    self.breakpoints@.skip(i as int),
                    next_pc,
                ),
            decreases self.breakpoints@.len() - i,
        {
            let bp: u32 = self.breakpoints[i];
            proof {
                assert(self.breakpoints@.skip(i as int).skip(1) =~= self.breakpoints@.skip(i + 1));
            }
            if bp & 0xffff_fffe == next_pc {
                return Some(bp);
            }
            i = i + 1;
        }
        None
    }

    pub fn set_verbose(&mut self, v: bool)
        ensures
            final(self)@ == (CoreState::<I> {
                dbg: DebugState { verbose: v, ..old(self)@.dbg },
                ..old(self)@
            }),
    {
        self.dbg.verbose = v;
    }

    /// Takes note of an instruction that is about to be executed, and of the registers before it.
    pub(crate) fn debugger_record_step(&mut self, e: ExecutedInstr)
        ensures
            final(self)@ == old(self)@.noted(e),
    {
        self.dbg.gpr_previous = self.copy_registers();
        self.dbg.last_executed = Some(e);
    }

    pub fn get_reg(&self, r: usize) -> (v: u32)
        requires
            r < 16,
        ensures
            v == self@.reg(r as int),
    {
        if r == 15 {
            self.pc
        } else {
            self.gpr[r]
        }
    }

    pub fn set_reg(&mut self, r: usize, val: u32)
        requires
            r < 16,
        ensures
            final(self)@ == old(self)@.set_reg(r as int, val),
    {
        if r == 15 {
            self.pc = match self.cpsr.state() {
                CpuState::THUMB => val & 0xffff_fffe,
                CpuState::ARM => val & 0xffff_fffc,
            };
        } else {
            self.gpr[r] = val;
        }
    }

    /// The address of the instruction that runs, in ARM state.
    pub fn pc_arm(&self) -> (r: u32)
        ensures
            r == self@.pc.wrapping_sub(8),
    {
        self.pc.wrapping_sub(8)
    }

    /// The address of the instruction that runs, in Thumb state.
    pub fn pc_thumb(&self) -> (r: u32)
        ensures
            r == self@.pc.wrapping_sub(4),
    {
        self.pc.wrapping_sub(4)
    }

    /// A register as user mode sees it.
    pub fn get_reg_user(&mut self, r: usize) -> (v: u32)
        requires
            r < 15,
            8 <= r < 13 ==> old(self)@.cpsr.mode_of() is Some,
        ensures
            v == old(self)@.user_reg(r as int),
            *final(self) == *old(self),
    {
        if r < 8 {
            self.gpr[r]
        } else if r < 13 {
            if self.cpsr.mode() == Some(CpuMode::Fiq) {
                self.gpr[r]
            } else {
                self.banks.gpr_banked_old_r8_12[r - 8]
            }
        } else if r == 13 {
            self.banks.gpr_banked_r13[0]
        } else {
            self.banks.gpr_banked_r14[0]
        }
    }

    /// Writes a register as user mode sees it.
    pub fn set_reg_user(&mut self, r: usize, val: u32)
        requires
            r < 15,
            8 <= r < 13 ==> old(self)@.cpsr.mode_of() is Some,
        ensures
            final(self)@ == old(self)@.set_user_reg(r as int, val),
    {
        if r < 8 {
            self.gpr[r] = val;
        } else if r < 13 {
            if self.cpsr.mode() == Some(CpuMode::Fiq) {
                self.gpr[r] = val;
            } else {
                self.banks.gpr_banked_old_r8_12[r - 8] = val;
            }
        } else if r == 13 {
            self.banks.gpr_banked_r13[0] = val;
        } else {
            self.banks.gpr_banked_r14[0] = val;
        }
    }

    pub fn copy_registers(&self) -> (r: [u32; 15])
        ensures
            r@ == self@.gpr,
    {
        self.gpr
    }

    /// Changes the mode: the banked registers change places.
    pub fn change_mode(&mut self, old_mode: CpuMode, new_mode: CpuMode)
        ensures
            final(self)@ == old(self)@.mode_changed(old_mode, new_mode),
    {
        let new_index: usize = new_mode.bank_index();
        let old_index: usize = old_mode.bank_index();
        if new_index == old_index {
            return;
        }
        self.banks.spsr_bank[old_index] = self.spsr;
        self.banks.gpr_banked_r13[old_index] = self.gpr[13];
        self.banks.gpr_banked_r14[old_index] = self.gpr[14];
        self.spsr = self.banks.spsr_bank[new_index];
        self.gpr[13] = self.banks.gpr_banked_r13[new_index];
        self.gpr[14] = self.banks.gpr_banked_r14[new_index];
        if new_mode == CpuMode::Fiq {
            let middle: [u32; 5] = self.middle();
            self.set_middle(self.banks.gpr_banked_fiq_r8_12);
            self.banks.gpr_banked_old_r8_12 = middle;
        } else if old_mode == CpuMode::Fiq {
            let middle: [u32; 5] = self.middle();
            self.set_middle(self.banks.gpr_banked_old_r8_12);
            self.banks.gpr_banked_fiq_r8_12 = middle;
        }
        self.cpsr.set_mode(new_mode);
    }

    /// R8 to R12.
    fn middle(&self) -> (r: [u32; 5])
        ensures
            r@ == seq![self@.gpr[8], self@.gpr[9], self@.gpr[10], self@.gpr[11], self@.gpr[12]],
    {
        let r: [u32; 5] = [self.gpr[8], self.gpr[9], self.gpr[10], self.gpr[11], self.gpr[12]];
        let ghost middle = seq![
            self@.gpr[8],
            self@.gpr[9],
            self@.gpr[10],
            self@.gpr[11],
            self@.gpr[12],
        ];
        assert(r@ =~= middle);
        r
    }

    fn set_middle(&mut self, m: [u32; 5])
        ensures
            final(self)@ == (CoreState::<I> {
                gpr: CoreState::<I>::with_middle(old(self)@.gpr, m@),
                ..old(self)@
            }),
    {
        self.gpr[8] = m[0];
        self.gpr[9] = m[1];
        self.gpr[10] = m[2];
        self.gpr[11] = m[3];
        self.gpr[12] = m[4];
    }

    /// Enters an exception.
    pub fn exception(&mut self, e: Exception, lr: u32)
        requires
            old(self)@.cpsr.mode_of() is Some,
        ensures
            final(self)@ == old(self)@.excepted(e, lr),
    {
        let new_mode: CpuMode = e.mode_on_entry();
        let new_bank: usize = new_mode.bank_index();
        self.banks.spsr_bank[new_bank] = self.cpsr;
        self.banks.gpr_banked_r14[new_bank] = lr;
        if let Some(mode) = self.cpsr.mode() {
            self.change_mode(mode, new_mode);
        }
        self.cpsr.set_state(CpuState::ARM);
        self.cpsr.set_mode(new_mode);
        self.cpsr.set_irq_disabled(true);
        if e == Exception::Reset {
            self.cpsr.set_fiq_disabled(true);
        }
        self.pc = e.vector();
        self.reload_pipeline32();
    }

    /// Resets the core.
    pub fn reset(&mut self)
        requires
            old(self)@.cpsr.mode_of() is Some,
        ensures
            final(self)@ == old(self)@.excepted(Exception::Reset, 0),
    {
        self.exception(Exception::Reset, 0);
    }

    /// The size of an instruction in bytes.
    pub fn word_size(&self) -> (r: usize)
        ensures
            r == word_bytes(self@.thumb()),
    {
        match self.cpsr.state() {
            CpuState::ARM => 4,
            CpuState::THUMB => 2,
        }
    }

    /// The internal cycles of a multiplication.
    pub fn get_required_multipiler_array_cycles(&self, rs: u32) -> (r: usize)
        ensures
            r == multiplier_cycles(rs),
    {
        if rs < 0x100 {
            1
        } else if rs < 0x1_0000 {
            2
        } else if rs < 0x100_0000 {
            3
        } else {
            4
        }
    }

    /// Evaluates a condition against the status register.
    pub fn check_arm_cond(&self, cond: ArmCond) -> (r: bool)
        ensures
            r == cond.passes(self@.cpsr.raw),
    {
        cond.check(self.cpsr.get())
    }

    /// Refills the pipeline in Thumb state.
    pub fn reload_pipeline16(&mut self)
        ensures
            final(self)@ == old(self)@.reloaded16(),
    {
        self.pipeline[0] = self.load_16(self.pc, MemoryAccess::NonSeq) as u32;
        self.advance_thumb();
        self.pipeline[1] = self.load_16(self.pc, MemoryAccess::Sequential) as u32;
        self.advance_thumb();
        self.next_fetch_access = MemoryAccess::Sequential;
        assert(self@.pipeline =~= old(self)@.reloaded16().pipeline);
    }

    /// Refills the pipeline in ARM state.
    pub fn reload_pipeline32(&mut self)
        ensures
            final(self)@ == old(self)@.reloaded32(),
    {
        self.pipeline[0] = self.load_32(self.pc, MemoryAccess::NonSeq);
        self.advance_arm();
        self.pipeline[1] = self.load_32(self.pc, MemoryAccess::Sequential);
        self.advance_arm();
        self.next_fetch_access = MemoryAccess::Sequential;
        assert(self@.pipeline =~= old(self)@.reloaded32().pipeline);
    }

    pub fn advance_thumb(&mut self)
        ensures
            final(self)@ == old(self)@.with_pc(old(self)@.pc.wrapping_add(2)),
    {
        self.pc = self.pc.wrapping_add(2);
    }

    pub fn advance_arm(&mut self)
        ensures
            final(self)@ == old(self)@.with_pc(old(self)@.pc.wrapping_add(4)),
    {
        self.pc = self.pc.wrapping_add(4);
    }

    /// The opcode that runs next.
    pub fn get_decoded_opcode(&self) -> (r: u32)
        ensures
            r == self@.pipeline[0],
    {
        self.pipeline[0]
    }

    /// The opcode that runs after the next.
    pub fn get_prefetched_opcode(&self) -> (r: u32)
        ensures
            r == self@.pipeline[1],
    {
        self.pipeline[1]
    }

    /// The address of the instruction that runs next.
    pub fn get_next_pc(&self) -> (r: u32)
        requires
            self@.pc >= 2 * word_bytes(self@.thumb()),
        ensures
            r == self@.pc - 2 * word_bytes(self@.thumb()),
    {
        self.pc - 2 * (self.word_size() as u32)
    }

    pub fn get_cpu_state(&self) -> (r: CpuState)
        ensures
            r == self@.cpsr.state_of(),
    {
        self.cpsr.state()
    }

    /// Jumps to `addr`, whose bit 0 selects the instruction set.
    pub fn branch_exchange(&mut self, addr: u32) -> (a: CpuAction)
        ensures
            final(self)@ == old(self)@.exchanged(addr),
            a == CpuAction::PipelineFlushed,
    {
        if addr & 1 != 0 {
            self.cpsr.set_state(CpuState::THUMB);
            self.pc = addr & 0xffff_fffe;
            self.reload_pipeline16();
        } else {
            self.cpsr.set_state(CpuState::ARM);
            self.pc = addr & 0xffff_fffc;
            self.reload_pipeline32();
        }
        CpuAction::PipelineFlushed
    }

    pub fn load_8(&mut self, addr: u32, access: MemoryAccess) -> (r: u8)
        ensures
            r == old(self)@.got(Request::Load8(addr, access)),
            final(self)@ == old(self)@.did(Request::Load8(addr, access)),
    {
        self.bus.load_8(addr, access)
    }

    pub fn load_16(&mut self, addr: u32, access: MemoryAccess) -> (r: u16)
        ensures
            r == old(self)@.got(Request::Load16(addr, access)),
            final(self)@ == old(self)@.did(Request::Load16(addr, access)),
    {
        self.bus.load_16(addr, access)
    }

    pub fn load_32(&mut self, addr: u32, access: MemoryAccess) -> (r: u32)
        ensures
            r == old(self)@.got(Request::Load32(addr, access)),
            final(self)@ == old(self)@.did(Request::Load32(addr, access)),
    {
        self.bus.load_32(addr, access)
    }

    pub fn store_8(&mut self, addr: u32, value: u8, access: MemoryAccess)
        ensures
            final(self)@ == old(self)@.did(Request::Store8(addr, value, access)),
    {
        self.bus.store_8(addr, value, access);
    }

    pub fn store_16(&mut self, addr: u32, value: u16, access: MemoryAccess)
        ensures
            final(self)@ == old(self)@.did(Request::Store16(addr, value, access)),
    {
        self.bus.store_16(addr, value, access);
    }

    pub fn store_32(&mut self, addr: u32, value: u32, access: MemoryAccess)
        ensures
            final(self)@ == old(self)@.did(Request::Store32(addr, value, access)),
    {
        self.bus.store_32(addr, value, access);
    }

    /// One internal cycle.
    pub fn idle_cycle(&mut self)
        ensures
            final(self)@ == old(self)@.did(Request::IdleCycle),
    {
        self.bus.idle_cycle();
    }

    /// Loads a word as `LDR` does.
    pub fn ldr_word(&mut self, addr: u32, access: MemoryAccess) -> (r: u32)
        ensures
            (r, final(self)@) == old(self)@.word_loaded(addr, access),
    {
        let off: u32 = addr & 3;
        if off != 0 {
            proof {
                lemma_cut(addr);
            }
            let v: u32 = rotate_right(self.load_32(addr & 0xffff_fffc, access), 8 * off);
            self.cpsr.set_C(test_bit(v, 31));
            v
        } else {
            self.load_32(addr, access)
        }
    }

    /// Loads a halfword as `LDRH` does.
    pub fn ldr_half(&mut self, addr: u32, access: MemoryAccess) -> (r: u32)
        ensures
            (r, final(self)@) == old(self)@.half_loaded(addr, access),
    {
        if addr & 1 != 0 {
            let v: u32 = rotate_right(self.load_16(addr & 0xffff_fffe, access) as u32, 8);
            self.cpsr.set_C(test_bit(v, 31));
            v
        } else {
            self.load_16(addr, access) as u32
        }
    }

    /// Loads a signed halfword as `LDSH` does.
    pub fn ldr_sign_half(&mut self, addr: u32, access: MemoryAccess) -> (r: u32)
        ensures
            (r, final(self)@) == old(self)@.signed_half_loaded(addr, access),
    {
        if addr & 1 != 0 {
            offset_by(0, sign_extend(self.load_8(addr, access) as u32, 0x80))
        } else {
            offset_by(0, sign_extend(self.load_16(addr, access) as u32, 0x8000))
        }
    }
}

/// The size of an instruction in bytes.
pub open spec fn word_bytes(thumb: bool) -> int {
    if thumb {
        2
    } else {
        4
    }
}

/// A sequence without the first occurrence of an item.
pub open spec fn without_first(s: Seq<u32>, x: u32) -> Seq<u32>
    decreases s.len(),
{
    if s.len() == 0 {
        s
    } else if s[0] == x {
        s.skip(1)
    } else {
        seq![s[0]] + without_first(s.skip(1), x)
    }
}

proof fn lemma_first(s: Seq<u32>, x: u32, i: int)
    requires
        0 <= i < s.len(),
        s[i] == x,
        forall|j: int| 0 <= j < i ==> s[j] != x,
    ensures
        without_first(s, x) == s.remove(i),
    decreases i,
{
    if i == 0 {
        assert(s.remove(0) =~= s.skip(1));
    } else {
        lemma_first(s.skip(1), x, i - 1);
        assert(seq![s[0]] + s.skip(1).remove(i - 1) =~= s.remove(i));
    }
}

proof fn lemma_none(s: Seq<u32>, x: u32)
    requires
        forall|j: int| 0 <= j < s.len() ==> s[j] != x,
    ensures
        without_first(s, x) == s,
    decreases s.len(),
{
    if s.len() > 0 {
        lemma_none(s.skip(1), x);
        assert(seq![s[0]] + s.skip(1) =~= s);
    }
}

/// The first breakpoint that stands for `pc`, bit 0 left aside.
pub open spec fn first_hit(breakpoints: Seq<u32>, pc: u32) -> Option<u32>
    decreases breakpoints.len(),
{
    if breakpoints.len() == 0 {
        None
    } else if breakpoints[0] & 0xffff_fffe == pc {
        Some(breakpoints[0])
    } else {
        first_hit(breakpoints.skip(1), pc)
    }
}

/// A register reads back what was written to it, and every other register keeps its value.
pub proof fn law_register_round_trip<I: MemoryInterface>(s: CoreState<I>, r: int, q: int, v: u32)
    requires
        s.shaped(),
        0 <= r < 15,
        0 <= q < 16,
    ensures
        s.set_reg(r, v).reg(r) == v,
        q != r ==> s.set_reg(r, v).reg(q) == s.reg(q),
{
}

/// A change of mode and back restores every register that the program sees.
pub proof fn law_mode_round_trip<I: MemoryInterface>(
    s: CoreState<I>,
    old_mode: CpuMode,
    new_mode: CpuMode,
)
    requires
        s.shaped(),
        s.cpsr.mode_of() == Some(old_mode),
    ensures
        ({
            let back = s.mode_changed(old_mode, new_mode).mode_changed(new_mode, old_mode);
            &&& back.gpr == s.gpr
            &&& back.spsr == s.spsr
            &&& back.cpsr == s.cpsr
        }),
{
    let there = s.mode_changed(old_mode, new_mode);
    let back = there.mode_changed(new_mode, old_mode);
    assert(back.gpr =~= s.gpr);
    let raw = s.cpsr.raw;
    let a = old_mode.number();
    let b = new_mode.number();
    assert((((raw & !0x1fu32) | b) & !0x1fu32) | a == raw) by (bit_vector)
        requires
            raw & 0x1f == a,
            b < 32,
    ;
}

/// A restored state saves again as what was restored, and the part that a saved state does not
/// keep stays.
pub proof fn law_saved_state_round_trip<I: MemoryInterface>(s: CoreState<I>, saved: SavedState)
    ensures
        s.restored(saved).saved() == saved,
        s.restored(saved).restored(s.saved()) == s,
        s.restored(s.saved()) == s,
{
}

/// A register of user mode reads back what was written to it.
pub proof fn law_user_register_round_trip<I: MemoryInterface>(s: CoreState<I>, r: int, v: u32)
    requires
        s.shaped(),
        0 <= r < 15,
    ensures
        s.set_user_reg(r, v).user_reg(r) == v,
{
}

} // verus!
