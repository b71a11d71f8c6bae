//! The dispatcher: single steps, replay and recording of cached blocks, and blocks that were
//! compiled ahead of time.

use vstd::prelude::*;
use crate::bits::{bits, field};
use crate::cache::{Block, BlockKey, DecodedInstr};
use crate::cond::ArmCond;
use crate::cpu::{AotHook, Arm7tdmiCore, CoreState, CpuAction, ExecutedInstr};
use crate::fastpath::{Handlers, arm_slot, arm_slot_of, thumb_slot, thumb_slot_of};
use crate::memory::{MemoryAccess, MemoryInterface, Request};
use crate::psr::CpuState;

verus! {

/// The most blocks that one call of the dispatcher runs through.
pub const CHAIN_MAX_DEPTH: u32 = 16;

/// The most instructions that one recording runs.
pub const RECORD_MAX_INSTRUCTIONS: u32 = 64;

/// Blocks that were compiled ahead of time: a lookup in a table for each instruction set, and a
/// way to run what it found. A block leads from the state of the core to a next state, a result
/// and a branch target, and leaves the block compiler alone.
pub trait AotBlocks<I: MemoryInterface>: Sized {
    /// The Thumb block at `pc`; zero if there is none.
    spec fn thumb_block(table: usize, pc: u32) -> usize;

    /// The ARM block at `pc`; zero if there is none.
    spec fn arm_block(table: usize, pc: u32) -> usize;

    /// What a block does: bit 0 of the result tells that it branched, and bit 1 that it was left
    /// in the middle.
    spec fn block_done(block: usize, core: CoreState<I>) -> (CoreState<I>, (u32, u32));

    fn lookup_thumb(table: usize, pc: u32) -> (r: usize)
        ensures
            r == Self::thumb_block(table, pc),
    ;

    fn lookup_arm(table: usize, pc: u32) -> (r: usize)
        ensures
            r == Self::arm_block(table, pc),
    ;

    fn run_block(block: usize, core: &mut Arm7tdmiCore<I>) -> (r: (u32, u32))
        requires
            block != 0,
        ensures
            (final(core)@, r) == Self::block_done(block, old(core)@),
            final(core)@.cache.compiler == old(core)@.cache.compiler,
    ;
}

/// The lookup that never finds a block.
pub fn aot_lookup_noop(_table: usize, _pc: u32) -> (r: usize)
    ensures
        r == 0,
{
    0
}

/// No blocks at all.
pub struct NoAot;

impl<I: MemoryInterface> AotBlocks<I> for NoAot {
    open spec fn thumb_block(table: usize, pc: u32) -> usize {
        0
    }

    open spec fn arm_block(table: usize, pc: u32) -> usize {
        0
    }

    open spec fn block_done(block: usize, core: CoreState<I>) -> (CoreState<I>, (u32, u32)) {
        (core, (0, 0))
    }

    fn lookup_thumb(table: usize, pc: u32) -> (r: usize) {
        aot_lookup_noop(table, pc)
    }

    fn lookup_arm(table: usize, pc: u32) -> (r: usize) {
        aot_lookup_noop(table, pc)
    }

    fn run_block(_block: usize, _core: &mut Arm7tdmiCore<I>) -> (r: (u32, u32)) {
        (0, 0)
    }
}

impl<I: MemoryInterface> CoreState<I> {
    /// The effect of an ARM instruction after its fetch, and whether the pipeline was refilled.
    /// An instruction whose condition does not hold is passed over.
    pub open spec fn arm_executed<H: Handlers<I>>(self, slot: usize, insn: u32) -> (Self, bool) {
        if !ArmCond::named(bits(insn, 28, 4)).passes(self.cpsr.raw) {
            (self.with_pc(self.pc.wrapping_add(4)).with_fetch(MemoryAccess::NonSeq), false)
        } else {
            let (s, a) = H::arm_done(slot, self, insn);
            match a {
                CpuAction::AdvancePC(access) => (
                    s.with_fetch(access).with_pc(s.pc.wrapping_add(4)),
                    false,
                ),
                CpuAction::PipelineFlushed => (s, true),
            }
        }
    }

    /// The effect of a Thumb instruction after its fetch, and whether the pipeline was refilled.
    pub open spec fn thumb_executed<H: Handlers<I>>(self, slot: usize, insn: u16) -> (Self, bool) {
        let (s, a) = H::thumb_done(slot, self, insn);
        match a {
            CpuAction::AdvancePC(access) => (
                s.with_pc(s.pc.wrapping_add(2)).with_fetch(access),
                false,
            ),
            CpuAction::PipelineFlushed => (s, true),
        }
    }

    /// The instruction that runs next, as a Thumb instruction.
    pub open spec fn next_thumb(self) -> u16 {
        (self.pipeline[0] % 0x1_0000) as u16
    }

    /// The state with the instruction noted that runs next. An instruction whose condition does
    /// not hold is not noted.
    pub open spec fn watched(self) -> Self {
        if self.thumb() {
            self.noted(
                ExecutedInstr {
                    instr: DecodedInstr::Thumb { raw: self.next_thumb() },
                    pc: self.pc.wrapping_sub(4),
                },
            )
        } else if ArmCond::named(bits(self.pipeline[0], 28, 4)).passes(self.cpsr.raw) {
            self.noted(
                ExecutedInstr {
                    instr: DecodedInstr::Arm { raw: self.pipeline[0] },
                    pc: self.pc.wrapping_sub(8),
                },
            )
        } else {
            self
        }
    }

    /// One pipeline step.
    pub open spec fn stepped<H: Handlers<I>>(self) -> Self {
        if self.thumb() {
            self.watched().fetched16(self.pc & 0xffff_fffe).thumb_executed::<H>(
                thumb_slot_of(self.pipeline[0]),
                self.next_thumb(),
            ).0
        } else {
            self.watched().fetched32(self.pc & 0xffff_fffc).arm_executed::<H>(
                arm_slot_of(self.pipeline[0]),
                self.pipeline[0],
            ).0
        }
    }

    /// The check before instruction `k` of a block: at every odd place, whether the block must be
    /// left because the instruction set changed, writable memory was written, or the bus asks.
    pub open spec fn checked(self, k: nat, entry_thumb: bool, recording: bool) -> (Self, bool) {
        if k % 2 == 0 {
            (self, false)
        } else if self.thumb() != entry_thumb {
            (self, true)
        } else {
            let dirty = self.got(Request::TakeBlockCacheDirty) != 0;
            let s = self.did(Request::TakeBlockCacheDirty);
            if dirty {
                (
                    s.with_cache(
                        if recording {
                            s.cache.dropped().flushed()
                        } else {
                            s.cache.flushed()
                        },
                    ),
                    true,
                )
            } else {
                (s, s.got(Request::CachedBlockShouldAbort) != 0)
            }
        }
    }

    /// One instruction of a cached block, run by the handler of the recorded encoding.
    pub open spec fn replayed_one<H: Handlers<I>>(self, instr: DecodedInstr) -> (Self, bool) {
        match instr {
            DecodedInstr::Arm { raw } => self.fetched32(self.pc & 0xffff_fffc).arm_executed::<H>(
                arm_slot_of(raw),
                self.pipeline[0],
            ),
            DecodedInstr::Thumb { raw } => self.fetched16(
                self.pc & 0xffff_fffe,
            ).thumb_executed::<H>(thumb_slot_of(raw as u32), self.next_thumb()),
        }
    }

    /// The replay of a cached block from instruction `k` on, and whether the next block may
    /// follow at once.
    pub open spec fn replayed<H: Handlers<I>>(
        self,
        instrs: Seq<DecodedInstr>,
        k: nat,
        entry_thumb: bool,
    ) -> (Self, bool)
        decreases instrs.len() - k,
    {
        if k >= instrs.len() {
            (self, true)
        } else {
            let (s, leave) = self.checked(k, entry_thumb, false);
            if leave {
                (s, false)
            } else {
                let (t, flushed) = s.replayed_one::<H>(instrs[k as int]);
                if flushed {
                    (t, true)
                } else {
                    t.replayed::<H>(instrs, k + 1, entry_thumb)
                }
            }
        }
    }

    /// One instruction run and recorded.
    pub open spec fn recorded_one<H: Handlers<I>>(self, entry_thumb: bool) -> (Self, bool) {
        let insn = self.pipeline[0];
        if entry_thumb {
            let s = self.fetched16(self.pc & 0xffff_fffe);
            let slot = thumb_slot_of(insn);
            s.with_cache(
                s.cache.recorded(DecodedInstr::Thumb { raw: self.next_thumb() }),
            ).thumb_executed::<H>(slot, self.next_thumb())
        } else {
            let s = self.fetched32(self.pc & 0xffff_fffc);
            let slot = arm_slot_of(insn);
            s.with_cache(s.cache.recorded(DecodedInstr::Arm { raw: insn })).arm_executed::<H>(
                slot,
                insn,
            )
        }
    }

    /// The recording of a new block from instruction `k` on.
    pub open spec fn recorded_run<H: Handlers<I>>(self, k: nat, entry_thumb: bool) -> Self
        decreases RECORD_MAX_INSTRUCTIONS - k,
    {
        if k >= RECORD_MAX_INSTRUCTIONS {
            self
        } else {
            let (s, leave) = self.checked(k, entry_thumb, true);
            if leave {
                s
            } else {
                let (t, flushed) = s.recorded_one::<H>(entry_thumb);
                if flushed {
                    t
                } else {
                    t.recorded_run::<H>(k + 1, entry_thumb)
                }
            }
        }
    }

    /// The attempt to run a block that was compiled ahead of time: `None` if there was none, and
    /// otherwise whether the next block may follow at once. With an empty pipeline nothing is looked
    /// up.
    pub open spec fn aot_dispatched<A: AotBlocks<I>>(self) -> (Self, Option<bool>) {
        let thumb = self.thumb();
        let block = if self.pipeline[0] == 0 {
            0
        } else if thumb {
            if self.aot.thumb {
                A::thumb_block(self.aot.table, self.pc)
            } else {
                0
            }
        } else {
            if self.aot.arm {
                A::arm_block(self.aot.table, self.pc)
            } else {
                0
            }
        };
        if block == 0 {
            (self, None)
        } else {
            let counted = CoreState {
                aot: if thumb {
                    AotHook { hits_thumb: self.aot.hits_thumb.wrapping_add(1), ..self.aot }
                } else {
                    AotHook { hits_arm: self.aot.hits_arm.wrapping_add(1), ..self.aot }
                },
                ..self
            };
            let (s, r) = A::block_done(block, counted);
            if r.0 & 2 != 0 {
                (s, Some(false))
            } else if r.0 & 1 != 0 {
                (s.exchanged(r.1), Some(true))
            } else {
                (s, Some(true))
            }
        }
    }

    /// The count of a lookup that missed, where a hook is installed.
    pub open spec fn missed(self) -> Self {
        if self.aot.thumb || self.aot.arm {
            CoreState {
                aot: if self.thumb() {
                    AotHook { misses_thumb: self.aot.misses_thumb.wrapping_add(1), ..self.aot }
                } else {
                    AotHook { misses_arm: self.aot.misses_arm.wrapping_add(1), ..self.aot }
                },
                ..self
            }
        } else {
            self
        }
    }

    /// A new block recorded and stored.
    pub open spec fn newly_recorded<H: Handlers<I>>(self, key: BlockKey, thumb: bool) -> Self {
        let s = self.with_cache(self.cache.begun(key)).recorded_run::<H>(0, thumb);
        s.with_cache(s.cache.finished())
    }

    /// One round of the dispatcher: a cached or compiled block, or the recording of a new one;
    /// and whether another round may follow.
    pub open spec fn dispatched<H: Handlers<I>, A: AotBlocks<I>>(self) -> (Self, bool) {
        let dirty = self.got(Request::TakeBlockCacheDirty) != 0;
        let s = self.did(Request::TakeBlockCacheDirty);
        if dirty {
            (s.with_cache(s.cache.flushed()), false)
        } else {
            let (t, hit) = s.aot_dispatched::<A>();
            match hit {
                Some(chain) => (t, chain && t.got(Request::CachedBlockShouldAbort) == 0),
                None => {
                    let u = t.missed();
                    let key = BlockKey::of(u.pc, u.thumb());
                    if u.cache.has(key) {
                        let (v, chain) = u.replayed::<H>(u.cache.at(key).instrs, 0, u.thumb());
                        (v, chain && v.got(Request::CachedBlockShouldAbort) == 0)
                    } else {
                        (u.newly_recorded::<H>(key, u.thumb()), false)
                    }
                },
            }
        }
    }

    /// Up to `n` rounds of the dispatcher.
    pub open spec fn rounds<H: Handlers<I>, A: AotBlocks<I>>(self, n: nat) -> Self
        decreases n,
    {
        if n == 0 {
            self
        } else {
            let (s, more) = self.dispatched::<H, A>();
            if more {
                s.rounds::<H, A>((n - 1) as nat)
            } else {
                s
            }
        }
    }
}

impl<I: MemoryInterface> Arm7tdmiCore<I> {
    /// Installs the lookup for Thumb blocks that were compiled ahead of time, and the table.
    pub fn install_aot_hook(&mut self, table: usize)
        ensures
            final(self)@ == (CoreState::<I> {
                aot: AotHook { table, thumb: true, ..old(self)@.aot },
                ..old(self)@
            }),
    {
        self.aot.table = table;
        self.aot.thumb = true;
    }

    /// Installs the lookup for ARM blocks that were compiled ahead of time.
    pub fn install_aot_hook_arm(&mut self)
        ensures
            final(self)@ == (CoreState::<I> {
                aot: AotHook { arm: true, ..old(self)@.aot },
                ..old(self)@
            }),
    {
        self.aot.arm = true;
    }

    /// Whether a compiled Thumb block must be left.
    pub fn aot_block_should_abort_thumb(&mut self) -> (r: bool)
        ensures
            (final(self)@, r) == old(self)@.checked(1, true, false),
    {
        self.block_should_abort(true)
    }

    /// Whether a compiled ARM block must be left.
    pub fn aot_block_should_abort_arm(&mut self) -> (r: bool)
        ensures
            (final(self)@, r) == old(self)@.checked(1, false, false),
    {
        self.block_should_abort(false)
    }

    /// Whether a block that was entered in the given state must be left.
    fn block_should_abort(&mut self, entry_thumb: bool) -> (r: bool)
        ensures
            (final(self)@, r) == old(self)@.checked(1, entry_thumb, false),
            final(self)@.cache.compiler == old(self)@.cache.compiler,
    {
        if (self.cpsr.state() == CpuState::THUMB) != entry_thumb {
            return true;
        }
        if self.bus.take_block_cache_dirty() {
            self.block_cache.flush();
            return true;
        }
        self.bus.cached_block_should_abort()
    }

    /// Runs an ARM instruction after its fetch; tells whether the pipeline was refilled.
    fn run_arm<H: Handlers<I>>(&mut self, slot: usize, insn: u32) -> (r: bool)
        requires
            slot < 4096,
        ensures
            (final(self)@, r) == old(self)@.arm_executed::<H>(slot, insn),
            final(self)@.cache.compiler == old(self)@.cache.compiler,
    {
        if !self.check_arm_cond(ArmCond::from_bits(field(insn, 28, 4))) {
            self.advance_arm();
            self.next_fetch_access = MemoryAccess::NonSeq;
            return false;
        }
        match H::exec_arm(slot, self, insn) {
            CpuAction::AdvancePC(access) => {
                self.next_fetch_access = access;
                self.advance_arm();
                false
            },
            CpuAction::PipelineFlushed => true,
        }
    }

    /// Runs a Thumb instruction after its fetch; tells whether the pipeline was refilled.
    fn run_thumb<H: Handlers<I>>(&mut self, slot: usize, insn: u16) -> (r: bool)
        requires
            slot < 1024,
        ensures
            (final(self)@, r) == old(self)@.thumb_executed::<H>(slot, insn),
            final(self)@.cache.compiler == old(self)@.cache.compiler,
    {
        match H::exec_thumb(slot, self, insn) {
            CpuAction::AdvancePC(access) => {
                self.advance_thumb();
                self.next_fetch_access = access;
                false
            },
            CpuAction::PipelineFlushed => true,
        }
    }

    /// Performs one pipeline step.
    pub fn step<H: Handlers<I>>(&mut self)
        ensures
            final(self)@ == old(self)@.stepped::<H>(),
    {
        let insn: u32 = self.pipeline[0];
        match self.cpsr.state() {
            CpuState::ARM => {
                self.arm_fetch_only(self.pc & 0xffff_fffc);
                if self.check_arm_cond(ArmCond::from_bits(field(insn, 28, 4))) {
                    self.debugger_record_step(
                        ExecutedInstr {
                            instr: DecodedInstr::Arm { raw: insn },
                            pc: self.pc.wrapping_sub(8),
                        },
                    );
                }
                self.run_arm::<H>(arm_slot(insn), insn);
            },
            CpuState::THUMB => {
                self.aot_thumb_fetch_only(self.pc & 0xffff_fffe);
                let raw: u16 = (insn % 0x1_0000) as u16;
                self.debugger_record_step(
                    ExecutedInstr {
                        instr: DecodedInstr::Thumb { raw },
                        pc: self.pc.wrapping_sub(4),
                    },
                );
                self.run_thumb::<H>(thumb_slot(insn), raw);
            },
        }
    }

    /// Runs one instruction of a cached block.
    fn replay_one<H: Handlers<I>>(&mut self, instr: DecodedInstr) -> (r: bool)
        ensures
            (final(self)@, r) == old(self)@.replayed_one::<H>(instr),
            final(self)@.cache.compiler == old(self)@.cache.compiler,
    {
        let insn: u32 = self.pipeline[0];
        match instr {
            DecodedInstr::Arm { raw } => {
                self.arm_fetch_only(self.pc & 0xffff_fffc);
                self.run_arm::<H>(arm_slot(raw), insn)
            },
            DecodedInstr::Thumb { raw } => {
                self.aot_thumb_fetch_only(self.pc & 0xffff_fffe);
                self.run_thumb::<H>(thumb_slot(raw as u32), (insn % 0x1_0000) as u16)
            },
        }
    }

    /// Replays a cached block. Tells whether the next block may follow at once.
    fn replay_cached_block<H: Handlers<I>>(&mut self, block: &Block, entry_thumb: bool) -> (r: bool)
        ensures
            (final(self)@, r) == old(self)@.replayed::<H>(block@.instrs, 0, entry_thumb),
            final(self)@.cache.compiler == old(self)@.cache.compiler,
    {
        let mut k: usize = 0;
        while k < block.len()
            invariant
                k <= block@.instrs.len(),
                self@.replayed::<H>(block@.instrs, k as nat, entry_thumb) == old(
                    self,
                )@.replayed::<H>(block@.instrs, 0, entry_thumb),
                self@.cache.compiler == old(self)@.cache.compiler,
            decreases block@.instrs.len() - k,
        {
            if k % 2 == 1 && self.block_should_abort(entry_thumb) {
                return false;
            }
            if self.replay_one::<H>(block.instr(k)) {
                return true;
            }
            k = k + 1;
        }
        true
    }

    /// Runs and records one instruction.
    fn record_one<H: Handlers<I>>(&mut self, entry_thumb: bool) -> (r: bool)
        ensures
            (final(self)@, r) == old(self)@.recorded_one::<H>(entry_thumb),
            final(self)@.cache.compiler == old(self)@.cache.compiler,
    {
        let insn: u32 = self.pipeline[0];
        if entry_thumb {
            let raw: u16 = (insn % 0x1_0000) as u16;
            self.aot_thumb_fetch_only(self.pc & 0xffff_fffe);
            let slot: usize = thumb_slot(insn);
            self.block_cache.record_instr(DecodedInstr::Thumb { raw });
            self.run_thumb::<H>(slot, raw)
        } else {
            self.arm_fetch_only(self.pc & 0xffff_fffc);
            let slot: usize = arm_slot(insn);
            self.block_cache.record_instr(DecodedInstr::Arm { raw: insn });
            self.run_arm::<H>(slot, insn)
        }
    }

    /// Runs instructions and records them until the pipeline is refilled, the block must be left,
    /// or enough were recorded.
    fn record_new_block<H: Handlers<I>>(&mut self, entry_thumb: bool)
        ensures
            final(self)@ == old(self)@.recorded_run::<H>(0, entry_thumb),
            final(self)@.cache.compiler == old(self)@.cache.compiler,
    {
        let mut k: u32 = 0;
        while k < RECORD_MAX_INSTRUCTIONS
            invariant
                k <= RECORD_MAX_INSTRUCTIONS,
                self@.recorded_run::<H>(k as nat, entry_thumb) == old(self)@.recorded_run::<H>(
                    0,
                    entry_thumb,
                ),
                self@.cache.compiler == old(self)@.cache.compiler,
            decreases RECORD_MAX_INSTRUCTIONS - k,
        {
            if k % 2 == 1 {
                if (self.cpsr.state() == CpuState::THUMB) != entry_thumb {
                    return;
                }
                if self.bus.take_block_cache_dirty() {
                    self.block_cache.abort_record();
                    self.block_cache.flush();
                    return;
                }
                if self.bus.cached_block_should_abort() {
                    return;
                }
            }
            if self.record_one::<H>(entry_thumb) {
                return;
            }
            k = k + 1;
        }
    }

    /// Runs the block that was compiled ahead of time for the program counter, if there is one and
    /// the pipeline is not empty. Tells whether the next block may follow at once.
    pub fn try_aot_dispatch<A: AotBlocks<I>>(&mut self) -> (r: Option<bool>)
        ensures
            (final(self)@, r) == old(self)@.aot_dispatched::<A>(),
            final(self)@.cache.compiler == old(self)@.cache.compiler,
    {
        if self.pipeline[0] == 0 {
            return None;
        }
        let thumb: bool = self.cpsr.state() == CpuState::THUMB;
        let block: usize = if thumb {
            if self.aot.thumb {
                A::lookup_thumb(self.aot.table, self.pc)
            } else {
                aot_lookup_noop(self.aot.table, self.pc)
            }
        } else {
            if self.aot.arm {
                A::lookup_arm(self.aot.table, self.pc)
            } else {
                aot_lookup_noop(self.aot.table, self.pc)
            }
        };
        if block == 0 {
            return None;
        }
        if thumb {
            self.aot.hits_thumb = self.aot.hits_thumb.wrapping_add(1);
        } else {
            self.aot.hits_arm = self.aot.hits_arm.wrapping_add(1);
        }
        let (ret, pc_out): (u32, u32) = A::run_block(block, self);
        if ret & 2 != 0 {
            return Some(false);
        }
        if ret & 1 != 0 {
            self.branch_exchange(pc_out);
        }
        Some(true)
    }

    /// Counts a lookup that missed, where a hook is installed.
    fn count_miss(&mut self)
        ensures
            final(self)@ == old(self)@.missed(),
    {
        if self.aot.thumb || self.aot.arm {
            if self.cpsr.state() == CpuState::THUMB {
                self.aot.misses_thumb = self.aot.misses_thumb.wrapping_add(1);
            } else {
                self.aot.misses_arm = self.aot.misses_arm.wrapping_add(1);
            }
        }
    }

    /// Runs one round of the dispatcher; tells whether another may follow.
    fn dispatch_round<H: Handlers<I>, A: AotBlocks<I>>(&mut self) -> (more: bool)
        requires
            old(self)@.cache.can_number(),
        ensures
            (final(self)@, more) == old(self)@.dispatched::<H, A>(),
            more ==> final(self)@.cache.compiler == old(self)@.cache.compiler,
    {
        if self.bus.take_block_cache_dirty() {
            self.block_cache.flush();
            return false;
        }
        if let Some(chain) = self.try_aot_dispatch::<A>() {
            return chain && !self.bus.cached_block_should_abort();
        }
        self.count_miss();
        let thumb: bool = self.cpsr.state() == CpuState::THUMB;
        let key = BlockKey::new(self.pc, thumb);
        match self.block_cache.get(key) {
            Some(block) => {
                let chain: bool = self.replay_cached_block::<H>(&block, thumb);
                chain && !self.bus.cached_block_should_abort()
            },
            None => {
                self.block_cache.begin_record(key);
                self.record_new_block::<H>(thumb);
                self.block_cache.finish_record();
                false
            },
        }
    }

    /// Runs cached, compiled or newly recorded blocks until the bus asks for control, a block was
    /// recorded or dropped, or enough blocks ran.
    pub fn step_block<H: Handlers<I>, A: AotBlocks<I>>(&mut self)
        requires
            old(self)@.cache.can_number(),
        ensures
            final(self)@ == old(self)@.rounds::<H, A>(CHAIN_MAX_DEPTH as nat),
    {
        let mut i: u32 = 0;
        while i < CHAIN_MAX_DEPTH
            invariant
                i <= CHAIN_MAX_DEPTH,
                self@.cache.can_number(),
                self@.rounds::<H, A>((CHAIN_MAX_DEPTH - i) as nat) == old(self)@.rounds::<H, A>(
                    CHAIN_MAX_DEPTH as nat,
                ),
            decreases CHAIN_MAX_DEPTH - i,
        {
            if !self.dispatch_round::<H, A>() {
                return;
            }
            i = i + 1;
        }
    }
}

/// Replaying a recorded instruction that still stands in the pipeline is a pipeline step, but for
/// the debugger's note.
pub proof fn law_replaying_is_stepping<I: MemoryInterface, H: Handlers<I>>(
    s: CoreState<I>,
    instr: DecodedInstr,
)
    requires
        delivers(s, instr),
    ensures
        s.watched().replayed_one::<H>(instr).0 == s.stepped::<H>(),
{
}

/// The replay of a block always runs its first instruction, whatever the bus asks for.
pub proof fn law_replay_makes_progress<I: MemoryInterface, H: Handlers<I>>(
    s: CoreState<I>,
    instrs: Seq<DecodedInstr>,
    entry_thumb: bool,
)
    requires
        instrs.len() > 0,
    ensures
        ({
            let (t, flushed) = s.replayed_one::<H>(instrs[0]);
            s.replayed::<H>(instrs, 0, entry_thumb) == if flushed {
                (t, true)
            } else {
                t.replayed::<H>(instrs, 1, entry_thumb)
            }
        }),
{
}

/// Whether a bus never reports a write, never asks for control and takes no notice of being asked.
pub open spec fn undisturbed<I: MemoryInterface>() -> bool {
    &&& forall|state: I::State| #[trigger] I::next(state, Request::TakeBlockCacheDirty) == state
    &&& forall|state: I::State| #[trigger] I::reply(state, Request::TakeBlockCacheDirty) == 0
    &&& forall|state: I::State| #[trigger] I::reply(state, Request::CachedBlockShouldAbort) == 0
}

/// Whether the pipeline delivers a recorded instruction.
pub open spec fn delivers<I: MemoryInterface>(s: CoreState<I>, instr: DecodedInstr) -> bool {
    match instr {
        DecodedInstr::Arm { raw } => !s.thumb() && s.pipeline[0] == raw,
        DecodedInstr::Thumb { raw } => s.thumb() && s.pipeline[0] == raw,
    }
}

/// Pipeline steps, unseen by the debugger, from instruction `k` of a block to its end or to the
/// first one that refills the pipeline.
pub open spec fn stepped_through<I: MemoryInterface, H: Handlers<I>>(
    s: CoreState<I>,
    instrs: Seq<DecodedInstr>,
    k: nat,
) -> CoreState<I>
    decreases instrs.len() - k,
{
    if k >= instrs.len() {
        s
    } else {
        let (t, flushed) = if s.thumb() {
            s.fetched16(s.pc & 0xffff_fffe).thumb_executed::<H>(
                thumb_slot_of(s.pipeline[0]),
                s.next_thumb(),
            )
        } else {
            s.fetched32(s.pc & 0xffff_fffc).arm_executed::<H>(
                arm_slot_of(s.pipeline[0]),
                s.pipeline[0],
            )
        };
        if flushed {
            t
        } else {
            stepped_through::<I, H>(t, instrs, k + 1)
        }
    }
}

/// Whether the pipeline delivers every recorded instruction from `k` on when its turn comes.
pub open spec fn delivers_all<I: MemoryInterface, H: Handlers<I>>(
    s: CoreState<I>,
    instrs: Seq<DecodedInstr>,
    k: nat,
    entry_thumb: bool,
) -> bool
    decreases instrs.len() - k,
{
    k < instrs.len() ==> {
        let (t, flushed) = s.replayed_one::<H>(instrs[k as int]);
        &&& s.thumb() == entry_thumb
        &&& delivers(s, instrs[k as int])
        &&& !flushed ==> delivers_all::<I, H>(t, instrs, k + 1, entry_thumb)
    }
}

/// On an undisturbed bus the replay of a block is the same as stepping through it, as long as the
/// pipeline delivers what was recorded.
pub proof fn law_replay_is_stepping_through<I: MemoryInterface, H: Handlers<I>>(
    s: CoreState<I>,
    instrs: Seq<DecodedInstr>,
    k: nat,
    entry_thumb: bool,
)
    requires
        undisturbed::<I>(),
        delivers_all::<I, H>(s, instrs, k, entry_thumb),
    ensures
        s.replayed::<H>(instrs, k, entry_thumb) == (stepped_through::<I, H>(s, instrs, k), true),
    decreases instrs.len() - k,
{
    if k < instrs.len() {
        let (t, flushed) = s.replayed_one::<H>(instrs[k as int]);
        if !flushed {
            law_replay_is_stepping_through::<I, H>(t, instrs, k + 1, entry_thumb);
        }
    }
}

} // verus!
