//! Single Thumb and ARM steps for blocks that were compiled ahead of time.
//!
//! Most Thumb formats run here directly; what is left goes to the instruction handlers.

use vstd::prelude::*;
use crate::alu::{
    BarrelShiftOpCode, Computed, added, added_with_carry, alu_adc_flags, alu_add_flags,
    alu_sbc_flags, alu_sub_flags, barrel_shift_op, multiplier_cycles, shifted, subtracted,
    subtracted_with_carry,
};
use crate::bits::{
    bits, field, flag_c, flag_v, negative, offset_by, sign_extend, signed_field, word,
};
use crate::cond::ArmCond;
use crate::cpu::{Arm7tdmiCore, CoreState, CpuAction, REG_LR, REG_PC, REG_SP};
use crate::dynarec::decode::{DecodedThumb14, in_list, listed, lists};
use crate::dynarec::sem::slot;
use crate::memory::{MemoryAccess, MemoryInterface, Request};

verus! {

/// The instruction handlers of a core, found by their slot in a table. A handler is a state
/// machine step: it leads from the state of the core and the instruction to a next state and an
/// action, and leaves the block compiler alone.
pub trait Handlers<I: MemoryInterface>: Sized {
    /// What the ARM handler in a slot does.
    spec fn arm_done(slot: usize, core: CoreState<I>, insn: u32) -> (CoreState<I>, CpuAction);

    /// What the Thumb handler in a slot does.
    spec fn thumb_done(slot: usize, core: CoreState<I>, insn: u16) -> (CoreState<I>, CpuAction);

    fn exec_arm(slot: usize, core: &mut Arm7tdmiCore<I>, insn: u32) -> (a: CpuAction)
        requires
            slot < 4096,
        ensures
            (final(core)@, a) == Self::arm_done(slot, old(core)@, insn),
            final(core)@.cache.compiler == old(core)@.cache.compiler,
    ;

    fn exec_thumb(slot: usize, core: &mut Arm7tdmiCore<I>, insn: u16) -> (a: CpuAction)
        requires
            slot < 1024,
        ensures
            (final(core)@, a) == Self::thumb_done(slot, old(core)@, insn),
            final(core)@.cache.compiler == old(core)@.cache.compiler,
    ;
}

/// The slot of a Thumb instruction in the handler table.
pub open spec fn thumb_slot_of(insn: u32) -> usize {
    bits(insn, 6, 10) as usize
}

/// The slot of a Thumb instruction in the handler table.
pub fn thumb_slot(insn: u32) -> (r: usize)
    ensures
        r == thumb_slot_of(insn),
        r < 1024,
{
    field(insn, 6, 10) as usize
}

/// The slot of an ARM instruction in the handler table: bits 20 to 27 over bits 4 to 7.
pub open spec fn arm_slot_of(insn: u32) -> usize {
    (16 * bits(insn, 20, 8) + bits(insn, 4, 4)) as usize
}

/// The slot of an ARM instruction in the handler table.
pub fn arm_slot(insn: u32) -> (r: usize)
    ensures
        r == arm_slot_of(insn),
        r < 4096,
{
    (16 * field(insn, 20, 8) + field(insn, 4, 4)) as usize
}

/// The access of transfer `n` of a multiple transfer: the first is non-sequential.
pub open spec fn access_at(n: nat) -> MemoryAccess {
    if n == 0 {
        MemoryAccess::NonSeq
    } else {
        MemoryAccess::Sequential
    }
}

impl<I: MemoryInterface> CoreState<I> {
    /// The state after a Thumb fetch at `addr`: the pipeline moved along.
    pub open spec fn fetched16(self, addr: u32) -> Self {
        let req = Request::Load16(addr, self.next_fetch_access);
        CoreState { pipeline: seq![self.pipeline[1], self.got(req)], ..self.did(req) }
    }

    /// The state after an ARM fetch at `addr`: the pipeline moved along.
    pub open spec fn fetched32(self, addr: u32) -> Self {
        let req = Request::Load32(addr, self.next_fetch_access);
        CoreState { pipeline: seq![self.pipeline[1], self.got(req)], ..self.did(req) }
    }

    /// A state from which the core goes on to the next instruction.
    pub open spec fn going(self, access: MemoryAccess) -> (Self, CpuAction) {
        (self, CpuAction::AdvancePC(access))
    }

    /// The end of a step that fetched at `fetch_addr`: the next state, and 1 if the pipeline was
    /// refilled.
    pub open spec fn concluded(done: (Self, CpuAction), fetch_addr: u32, size: u32) -> (Self, u32) {
        match done.1 {
            CpuAction::AdvancePC(access) => (
                done.0.with_fetch(access).with_pc(fetch_addr.wrapping_add(size)),
                0,
            ),
            CpuAction::PipelineFlushed => (done.0, 1),
        }
    }

    /// The flags set from a result, a carry and an overflow.
    pub open spec fn flags_set(self, result: u32, c: bool, v: bool) -> Self {
        self.with_cpsr(self.cpsr.with_flags(negative(result), result == 0, c, v))
    }

    pub open spec fn carry(self) -> bool {
        flag_c(self.cpsr.raw)
    }

    pub open spec fn overflow(self) -> bool {
        flag_v(self.cpsr.raw)
    }

    /// The state after `n` internal cycles.
    pub open spec fn idled(self, n: nat) -> Self
        decreases n,
    {
        if n == 0 {
            self
        } else {
            self.idled((n - 1) as nat).did(Request::IdleCycle)
        }
    }

    /// Format 1: an immediate shift.
    pub open spec fn thumb_shift(self, insn: u32) -> Self {
        let oo = bits(insn, 11, 2);
        let op = if oo == 0 {
            BarrelShiftOpCode::LSL
        } else if oo == 1 {
            BarrelShiftOpCode::LSR
        } else {
            BarrelShiftOpCode::ASR
        };
        let r = shifted(
            op,
            self.gpr[bits(insn, 3, 3) as int],
            bits(insn, 6, 5),
            self.carry(),
            true,
        );
        self.with_gpr(bits(insn, 0, 3) as int, r.0).flags_set(r.0, r.1, self.overflow())
    }

    /// Format 2: three-operand addition and subtraction.
    pub open spec fn thumb_add_sub(self, insn: u32) -> Self {
        let n = bits(insn, 6, 3);
        let a = self.gpr[bits(insn, 3, 3) as int];
        let b = if bits(insn, 10, 1) == 1 {
            n
        } else {
            self.gpr[n as int]
        };
        let r = if bits(insn, 9, 1) == 1 {
            subtracted(a, b)
        } else {
            added(a, b)
        };
        self.flags_set(r.value, r.carry, r.overflow).with_gpr(bits(insn, 0, 3) as int, r.value)
    }

    /// Format 3: operations with a byte.
    pub open spec fn thumb_imm(self, insn: u32) -> Self {
        let op = bits(insn, 11, 2);
        let rd = bits(insn, 8, 3) as int;
        let imm = bits(insn, 0, 8);
        let r = if op == 0 {
            Computed { value: imm, carry: self.carry(), overflow: self.overflow() }
        } else if op == 2 {
            added(self.gpr[rd], imm)
        } else {
            subtracted(self.gpr[rd], imm)
        };
        let s = self.flags_set(r.value, r.carry, r.overflow);
        if op == 1 {
            s
        } else {
            s.with_gpr(rd, r.value)
        }
    }

    /// The barrel shifter operation of a format 4 opcode.
    pub open spec fn thumb_alu_shift(op: u32) -> Option<BarrelShiftOpCode> {
        if op == 0b0010 {
            Some(BarrelShiftOpCode::LSL)
        } else if op == 0b0011 {
            Some(BarrelShiftOpCode::LSR)
        } else if op == 0b0100 {
            Some(BarrelShiftOpCode::ASR)
        } else if op == 0b0111 {
            Some(BarrelShiftOpCode::ROR)
        } else {
            None
        }
    }

    /// What a format 4 operation computes from its two registers and the flags.
    pub open spec fn thumb_alu_result(self, op: u32, dst: u32, src: u32) -> Computed {
        let c = self.carry();
        let v = self.overflow();
        match Self::thumb_alu_shift(op) {
            Some(shift) => {
                let r = shifted(shift, dst, src & 0xff, c, false);
                Computed { value: r.0, carry: r.1, overflow: v }
            },
            None => if op == 0b0101 {
                added_with_carry(dst, src, c)
            } else if op == 0b0110 {
                subtracted_with_carry(dst, src, c)
            } else if op == 0b1001 {
                subtracted(0, src)
            } else if op == 0b1010 {
                subtracted(dst, src)
            } else if op == 0b1011 {
                added(dst, src)
            } else if op == 0b1101 {
                Computed { value: dst.wrapping_mul(src), carry: false, overflow: false }
            } else {
                let value = if op == 0b0001 {
                    dst ^ src
                } else if op == 0b1100 {
                    dst | src
                } else if op == 0b1110 {
                    dst & !src
                } else if op == 0b1111 {
                    !src
                } else {
                    dst & src
                };
                Computed { value, carry: c, overflow: v }
            },
        }
    }

    /// The internal cycles of a format 4 operation.
    pub open spec fn thumb_alu_cycles(op: u32, src: u32) -> nat {
        if Self::thumb_alu_shift(op) is Some {
            1
        } else if op == 0b1101 {
            multiplier_cycles(src) as nat
        } else {
            0
        }
    }

    /// Format 4: two-register operations.
    pub open spec fn thumb_alu(self, insn: u32) -> Self {
        let op = bits(insn, 6, 4);
        let rd = bits(insn, 0, 3) as int;
        let src = self.gpr[bits(insn, 3, 3) as int];
        let r = self.thumb_alu_result(op, self.gpr[rd], src);
        let s = self.idled(Self::thumb_alu_cycles(op, src)).flags_set(
            r.value,
            r.carry,
            r.overflow,
        );
        if op == 0b1000 || op == 0b1010 || op == 0b1011 {
            s
        } else {
            s.with_gpr(rd, r.value)
        }
    }

    /// Format 5: high registers and branch exchange.
    pub open spec fn thumb_hi(self, insn: u32) -> (Self, CpuAction) {
        let op = bits(insn, 8, 2);
        let dst = (bits(insn, 0, 3) + 8 * bits(insn, 7, 1)) as int;
        let src = (bits(insn, 3, 3) + 8 * bits(insn, 6, 1)) as int;
        let a = self.reg(dst);
        let b = self.reg(src);
        if op == 3 {
            (self.exchanged(b), CpuAction::PipelineFlushed)
        } else if op == 1 {
            let r = subtracted(a, b);
            self.flags_set(r.value, r.carry, r.overflow).going(MemoryAccess::Sequential)
        } else {
            let s = self.set_reg(
                dst,
                if op == 0 {
                    a.wrapping_add(b)
                } else {
                    b
                },
            );
            if dst == 15 {
                (s.reloaded16(), CpuAction::PipelineFlushed)
            } else {
                s.going(MemoryAccess::Sequential)
            }
        }
    }

    /// A load into `rd` followed by an internal cycle.
    pub open spec fn loaded_reg(self, rd: int, load: (u32, Self)) -> Self {
        load.1.with_gpr(rd, load.0).did(Request::IdleCycle)
    }

    /// A zero-extended byte load.
    pub open spec fn byte_loaded(self, addr: u32) -> (u32, Self) {
        let req = Request::Load8(addr, MemoryAccess::NonSeq);
        (self.got(req), self.did(req))
    }

    /// A word or byte access between `rd` and `addr`.
    pub open spec fn thumb_access(self, load: bool, byte: bool, rd: int, addr: u32) -> Self {
        if load {
            self.loaded_reg(
                rd,
                if byte {
                    self.byte_loaded(addr)
                } else {
                    self.word_loaded(addr, MemoryAccess::NonSeq)
                },
            )
        } else if byte {
            self.did(Request::Store8(addr, (self.gpr[rd] % 0x100) as u8, MemoryAccess::NonSeq))
        } else {
            self.did(Request::Store32(addr & 0xffff_fffc, self.gpr[rd], MemoryAccess::NonSeq))
        }
    }

    /// The access of the fetch after a load or a store.
    pub open spec fn access_after(load: bool) -> MemoryAccess {
        if load {
            MemoryAccess::Sequential
        } else {
            MemoryAccess::NonSeq
        }
    }

    /// A halfword store of `rd` at `addr`.
    pub open spec fn half_stored(self, rd: int, addr: u32) -> Self {
        self.did(
            Request::Store16(
                addr & 0xffff_fffe,
                (self.gpr[rd] % 0x1_0000) as u16,
                MemoryAccess::NonSeq,
            ),
        )
    }

    /// Format 8: signed and halfword accesses with a register offset.
    pub open spec fn thumb_signed(self, insn: u32) -> Self {
        let half = bits(insn, 11, 1) == 1;
        let sign = bits(insn, 10, 1) == 1;
        let rd = bits(insn, 0, 3) as int;
        let addr = self.gpr[bits(insn, 3, 3) as int].wrapping_add(
            self.gpr[bits(insn, 6, 3) as int],
        );
        if sign && half {
            self.loaded_reg(rd, self.signed_half_loaded(addr, MemoryAccess::NonSeq))
        } else if sign {
            let b = self.byte_loaded(addr);
            self.loaded_reg(rd, (word(signed_field(b.0, 0x80)), b.1))
        } else if half {
            self.loaded_reg(rd, self.half_loaded(addr, MemoryAccess::NonSeq))
        } else {
            self.half_stored(rd, addr)
        }
    }

    /// The listed registers below `k` loaded upwards from `base`.
    pub open spec fn ldm(self, list: u8, base: u32, k: nat) -> Self
        decreases k,
    {
        if k == 0 {
            self
        } else {
            let p = self.ldm(list, base, (k - 1) as nat);
            let n = listed(list, (k - 1) as nat);
            if in_list(list, (k - 1) as usize) {
                let req = Request::Load32(slot(base, n), access_at(n));
                p.did(req).with_gpr(k - 1, p.got(req))
            } else {
                p
            }
        }
    }

    /// What a multiple store writes for register `r`. For the base register that is the address
    /// of its slot if it comes first, and that address moved on by all other slots otherwise.
    pub open spec fn stm_value(self, list: u8, rb: int, base: u32, r: int) -> u32 {
        let n = listed(list, r as nat);
        if r != rb {
            self.gpr[r]
        } else if n == 0 {
            slot(base, n)
        } else {
            slot(slot(base, n), (listed(list, 8) - 1) as nat)
        }
    }

    /// The listed registers below `k` stored upwards from `base`.
    pub open spec fn stm(self, list: u8, rb: int, base: u32, k: nat) -> Self
        decreases k,
    {
        if k == 0 {
            self
        } else {
            let p = self.stm(list, rb, base, (k - 1) as nat);
            let n = listed(list, (k - 1) as nat);
            if in_list(list, (k - 1) as usize) {
                p.did(
                    Request::Store32(
                        slot(base, n),
                        self.stm_value(list, rb, base, k - 1),
                        access_at(n),
                    ),
                )
            } else {
                p
            }
        }
    }

    /// Format 15: multiple loads and stores with write-back. An empty list transfers the program
    /// counter and moves the base on by 64.
    pub open spec fn thumb_multiple(self, insn: u32) -> (Self, CpuAction) {
        let load = bits(insn, 11, 1) == 1;
        let rb = bits(insn, 8, 3) as int;
        let list = bits(insn, 0, 8) as u8;
        let align = self.gpr[rb] & 3;
        let base = self.gpr[rb] & 0xffff_fffc;
        let end = slot(base, listed(list, 8)).wrapping_add(align);
        if list == 0 {
            let moved = base.wrapping_add(0x40).wrapping_add(align);
            if load {
                let req = Request::Load32(base, MemoryAccess::NonSeq);
                (
                    self.did(req).with_pc(self.got(req) & 0xffff_fffe).reloaded16().with_gpr(
                        rb,
                        moved,
                    ),
                    CpuAction::PipelineFlushed,
                )
            } else {
                self.did(
                    Request::Store32(base, self.pc.wrapping_add(2), MemoryAccess::NonSeq),
                ).with_gpr(rb, moved).going(MemoryAccess::NonSeq)
            }
        } else if load {
            let s = self.ldm(list, base, 8).did(Request::IdleCycle);
            (if in_list(list, rb as usize) {
                s
            } else {
                s.with_gpr(rb, end)
            }).going(MemoryAccess::NonSeq)
        } else {
            self.stm(list, rb, base, 8).with_gpr(rb, end).going(MemoryAccess::NonSeq)
        }
    }

    /// The listed registers below `k` popped.
    pub open spec fn popped(self, list: u8, k: nat) -> Self
        decreases k,
    {
        if k == 0 {
            self
        } else {
            let p = self.popped(list, (k - 1) as nat);
            if in_list(list, (k - 1) as usize) {
                let req = Request::Load32(
                    p.gpr[13] & 0xffff_fffc,
                    access_at(listed(list, (k - 1) as nat)),
                );
                p.did(req).with_gpr(k - 1, p.got(req)).with_gpr(13, p.gpr[13].wrapping_add(4))
            } else {
                p
            }
        }
    }

    /// One register pushed.
    pub open spec fn pushed_one(self, r: int, access: MemoryAccess) -> Self {
        let sp = self.gpr[13].wrapping_sub(4);
        self.with_gpr(13, sp).did(Request::Store32(sp & 0xffff_fffc, self.gpr[r], access))
    }

    /// The listed registers from R7 down to `k` pushed, after the link register where `lr` says
    /// so.
    pub open spec fn pushed(self, list: u8, lr: bool, k: nat) -> Self
        decreases 8 - k,
    {
        if k >= 8 {
            if lr {
                self.pushed_one(14, MemoryAccess::NonSeq)
            } else {
                self
            }
        } else {
            let p = self.pushed(list, lr, k + 1);
            if in_list(list, k as usize) {
                p.pushed_one(
                    k as int,
                    if !lr && listed(list, 8) == listed(list, k + 1) {
                        MemoryAccess::NonSeq
                    } else {
                        MemoryAccess::Sequential
                    },
                )
            } else {
                p
            }
        }
    }

    /// Format 14: push and pop. A pop of the program counter stays in Thumb state.
    pub open spec fn thumb_stack(self, insn: u32) -> (Self, CpuAction) {
        let pop = bits(insn, 11, 1) == 1;
        let extra = bits(insn, 8, 1) == 1;
        let list = bits(insn, 0, 8) as u8;
        if pop && extra {
            let s = self.popped(list, 8);
            let req = Request::Load32(s.gpr[13] & 0xffff_fffc, MemoryAccess::Sequential);
            let t = s.did(req).set_reg(15, s.got(req)).with_gpr(13, s.gpr[13].wrapping_add(4));
            (
                t.with_pc(t.pc & 0xffff_fffe).reloaded16().did(Request::IdleCycle),
                CpuAction::PipelineFlushed,
            )
        } else if pop {
            self.popped(list, 8).did(Request::IdleCycle).going(MemoryAccess::NonSeq)
        } else {
            self.pushed(list, extra, 0).going(MemoryAccess::NonSeq)
        }
    }

    /// Format 16: a conditional branch.
    pub open spec fn thumb_bcond(self, insn: u32) -> (Self, CpuAction) {
        if ArmCond::named(bits(insn, 8, 4)).passes(self.cpsr.raw) {
            (
                self.with_pc(
                    word(self.pc + 2 * signed_field(bits(insn, 0, 8), 0x80)),
                ).reloaded16(),
                CpuAction::PipelineFlushed,
            )
        } else {
            self.going(MemoryAccess::Sequential)
        }
    }

    /// Loads, stores and addresses: formats 6 to 13. `None` for every other instruction.
    pub open spec fn thumb_transfer(self, insn: u32) -> Option<(Self, CpuAction)> {
        let seq_access = MemoryAccess::Sequential;
        let load = bits(insn, 11, 1) == 1;
        let low = bits(insn, 0, 3) as int;
        let base = self.gpr[bits(insn, 3, 3) as int];
        let high = bits(insn, 8, 3) as int;
        let imm8 = bits(insn, 0, 8);
        if bits(insn, 11, 5) == 0b01001 {
            let addr = (self.pc & 0xffff_fffc).wrapping_add((imm8 * 4) as u32);
            Some(
                self.loaded_reg(high, self.word_loaded(addr, MemoryAccess::NonSeq)).going(
                    MemoryAccess::NonSeq,
                ),
            )
        } else if bits(insn, 12, 4) == 0b0101 && bits(insn, 9, 1) == 0 {
            let addr = base.wrapping_add(self.gpr[bits(insn, 6, 3) as int]);
            Some(
                self.thumb_access(load, bits(insn, 10, 1) == 1, low, addr).going(
                    Self::access_after(load),
                ),
            )
        } else if bits(insn, 12, 4) == 0b0101 {
            Some(
                self.thumb_signed(insn).going(MemoryAccess::NonSeq),
            )
        } else if bits(insn, 12, 4) == 0b1000 {
            let addr = base.wrapping_add((bits(insn, 6, 5) * 2) as u32);
            Some(
                (if load {
                    self.loaded_reg(low, self.half_loaded(addr, MemoryAccess::NonSeq))
                } else {
                    self.half_stored(low, addr)
                }).going(Self::access_after(load)),
            )
        } else if bits(insn, 13, 3) == 0b011 {
            let byte = bits(insn, 12, 1) == 1;
            let imm5 = bits(insn, 6, 5);
            let addr = base.wrapping_add(
                if byte {
                    imm5
                } else {
                    (imm5 * 4) as u32
                },
            );
            Some(
                self.thumb_access(load, byte, low, addr).going(Self::access_after(load)),
            )
        } else if bits(insn, 12, 4) == 0b1001 {
            let addr = self.gpr[13].wrapping_add((imm8 * 4) as u32);
            Some(
                self.thumb_access(load, false, high, addr).going(Self::access_after(load)),
            )
        } else if bits(insn, 12, 4) == 0b1010 {
            Some(
                self.with_gpr(
                    high,
                    if load {
                        self.gpr[13].wrapping_add((imm8 * 4) as u32)
                    } else {
                        (self.pc.wrapping_sub(4) & 0xffff_fffd).wrapping_add(4).wrapping_add(
                            (imm8 * 4) as u32,
                        )
                    },
                ).going(seq_access),
            )
        } else if bits(insn, 8, 8) == 0xb0 {
            let offset = (bits(insn, 0, 7) * 4) as u32;
            Some(
                self.with_gpr(
                    13,
                    if bits(insn, 7, 1) == 1 {
                        self.gpr[13].wrapping_sub(offset)
                    } else {
                        self.gpr[13].wrapping_add(offset)
                    },
                ).going(seq_access),
            )
        } else {
            None
        }
    }

    /// Multiple transfers, branches and what only a handler knows.
    pub open spec fn thumb_flow<H: Handlers<I>>(self, insn: u32) -> (Self, CpuAction) {
        let seq_access = MemoryAccess::Sequential;
        if bits(insn, 12, 4) == 0b1100 {
            self.thumb_multiple(insn)
        } else if bits(insn, 12, 4) == 0b1011 && bits(insn, 9, 2) == 0b10 {
            self.thumb_stack(insn)
        } else if bits(insn, 12, 4) == 0b1101 && bits(insn, 8, 4) < 14 {
            self.thumb_bcond(insn)
        } else if insn >> 11u32 == 0b11110 {
            let offset = 0x1000 * signed_field(bits(insn, 0, 11), 0x400);
            self.with_gpr(14, word(self.pc + offset)).going(seq_access)
        } else {
            H::thumb_done(thumb_slot_of(insn), self, (insn % 0x1_0000) as u16)
        }
    }

    /// The effect of a Thumb instruction after its fetch.
    pub open spec fn thumb_effect<H: Handlers<I>>(self, insn: u32) -> (Self, CpuAction) {
        let seq_access = MemoryAccess::Sequential;
        if bits(insn, 13, 3) == 0b000 {
            if bits(insn, 11, 2) != 3 {
                self.thumb_shift(insn).going(seq_access)
            } else {
                self.thumb_add_sub(insn).going(seq_access)
            }
        } else if bits(insn, 13, 3) == 0b001 {
            self.thumb_imm(insn).going(seq_access)
        } else if bits(insn, 10, 6) == 0b010000 {
            self.thumb_alu(insn).going(seq_access)
        } else if bits(insn, 10, 6) == 0b010001 {
            self.thumb_hi(insn)
        } else {
            match self.thumb_transfer(insn) {
                Some(done) => done,
                None => self.thumb_flow::<H>(insn),
            }
        }
    }

    /// A whole Thumb step: the fetch and the instruction.
    pub open spec fn thumb_stepped<H: Handlers<I>>(
        self,
        fetch_addr: u32,
        insn: u32,
    ) -> (Self, u32) {
        Self::concluded(
            self.fetched16(fetch_addr).with_pc(fetch_addr).thumb_effect::<H>(insn),
            fetch_addr,
            2,
        )
    }

    /// A whole ARM step: the fetch and, if its condition holds, the instruction.
    pub open spec fn arm_stepped<H: Handlers<I>>(self, fetch_addr: u32, insn: u32) -> (Self, u32) {
        let s = self.fetched32(fetch_addr).with_pc(fetch_addr);
        Self::concluded(
            if ArmCond::named(bits(insn, 28, 4)).passes(s.cpsr.raw) {
                H::arm_done(arm_slot_of(insn), s, insn)
            } else {
                s.going(MemoryAccess::NonSeq)
            },
            fetch_addr,
            4,
        )
    }
}

impl<I: MemoryInterface> Arm7tdmiCore<I> {
    /// Sets the flags from a result, a carry and an overflow.
    pub fn alu_update_flags(&mut self, result: u32, carry: bool, overflow: bool)
        ensures
            final(self)@.cache == old(self)@.cache,
            final(self)@ == old(self)@.flags_set(result, carry, overflow),
    {
        self.cpsr.set_flags(result >= 0x8000_0000, result == 0, carry, overflow);
    }

    /// Fetches a Thumb instruction and moves the pipeline along.
    pub fn aot_thumb_fetch_only(&mut self, fetch_addr: u32)
        ensures
            final(self)@.cache == old(self)@.cache,
            final(self)@ == old(self)@.fetched16(fetch_addr),
    {
        let access: MemoryAccess = self.next_fetch_access;
        let val: u16 = self.load_16(fetch_addr, access);
        self.pipeline[0] = self.pipeline[1];
        self.pipeline[1] = val as u32;
        assert(self@.pipeline =~= old(self)@.fetched16(fetch_addr).pipeline);
    }

    /// Fetches an ARM instruction and moves the pipeline along.
    pub fn arm_fetch_only(&mut self, fetch_addr: u32)
        ensures
            final(self)@.cache == old(self)@.cache,
            final(self)@ == old(self)@.fetched32(fetch_addr),
    {
        let access: MemoryAccess = self.next_fetch_access;
        let val: u32 = self.load_32(fetch_addr, access);
        self.pipeline[0] = self.pipeline[1];
        self.pipeline[1] = val;
        assert(self@.pipeline =~= old(self)@.fetched32(fetch_addr).pipeline);
    }

    /// Loads a word as `LDR` does.
    pub fn aot_ldr_word(&mut self, addr: u32, access: MemoryAccess) -> (r: u32)
        ensures
            final(self)@.cache == old(self)@.cache,
            (r, final(self)@) == old(self)@.word_loaded(addr, access),
    {
        self.ldr_word(addr, access)
    }

    /// Loads a halfword as `LDRH` does.
    pub fn aot_ldr_half(&mut self, addr: u32, access: MemoryAccess) -> (r: u32)
        ensures
            final(self)@.cache == old(self)@.cache,
            (r, final(self)@) == old(self)@.half_loaded(addr, access),
    {
        self.ldr_half(addr, access)
    }

    /// Loads a signed halfword as `LDSH` does.
    pub fn aot_ldr_sign_half(&mut self, addr: u32, access: MemoryAccess) -> (r: u32)
        ensures
            final(self)@.cache == old(self)@.cache,
            (r, final(self)@) == old(self)@.signed_half_loaded(addr, access),
    {
        self.ldr_sign_half(addr, access)
    }

    fn run_thumb_shift(&mut self, insn: u32)
        ensures
            final(self)@.cache == old(self)@.cache,
            final(self)@ == old(self)@.thumb_shift(insn),
    {
        let oo: u32 = field(insn, 11, 2);
        let op: BarrelShiftOpCode = if oo == 0 {
            BarrelShiftOpCode::LSL
        } else if oo == 1 {
            BarrelShiftOpCode::LSR
        } else {
            BarrelShiftOpCode::ASR
        };
        let rs: usize = field(insn, 3, 3) as usize;
        let rd: usize = field(insn, 0, 3) as usize;
        let (value, carry): (u32, bool) = barrel_shift_op(
            op,
            self.gpr[rs],
            field(insn, 6, 5),
            self.cpsr.C(),
            true,
        );
        self.gpr[rd] = value;
        self.alu_update_flags(value, carry, self.cpsr.V());
    }

    fn run_thumb_add_sub(&mut self, insn: u32)
        ensures
            final(self)@.cache == old(self)@.cache,
            final(self)@ == old(self)@.thumb_add_sub(insn),
    {
        let n: u32 = field(insn, 6, 3);
        let a: u32 = self.gpr[field(insn, 3, 3) as usize];
        let b: u32 = if field(insn, 10, 1) == 1 {
            n
        } else {
            self.gpr[n as usize]
        };
        let r: Computed = if field(insn, 9, 1) == 1 {
            alu_sub_flags(a, b)
        } else {
            alu_add_flags(a, b)
        };
        self.alu_update_flags(r.value, r.carry, r.overflow);
        let rd: usize = field(insn, 0, 3) as usize;
        self.gpr[rd] = r.value;
    }

    fn run_thumb_imm(&mut self, insn: u32)
        ensures
            final(self)@.cache == old(self)@.cache,
            final(self)@ == old(self)@.thumb_imm(insn),
    {
        let op: u32 = field(insn, 11, 2);
        let rd: usize = field(insn, 8, 3) as usize;
        let imm: u32 = field(insn, 0, 8);
        let r: Computed = if op == 0 {
            Computed { value: imm, carry: self.cpsr.C(), overflow: self.cpsr.V() }
        } else if op == 2 {
            alu_add_flags(self.gpr[rd], imm)
        } else {
            alu_sub_flags(self.gpr[rd], imm)
        };
        self.alu_update_flags(r.value, r.carry, r.overflow);
        if op != 1 {
            self.gpr[rd] = r.value;
        }
    }

    /// Spends `n` internal cycles.
    fn idle_cycles(&mut self, n: usize)
        ensures
            final(self)@.cache == old(self)@.cache,
            final(self)@ == old(self)@.idled(n as nat),
    {
        let mut i: usize = 0;
        while i < n
            invariant
                self@.cache == old(self)@.cache,
                i <= n,
                self@ == old(self)@.idled(i as nat),
            decreases n - i,
        {
            self.idle_cycle();
            i = i + 1;
        }
    }

    /// What a format 4 operation computes.
    fn compute_thumb_alu(&self, op: u32, dst: u32, src: u32) -> (r: Computed)
        requires
            op < 16,
        ensures
            r == self@.thumb_alu_result(op, dst, src),
    {
        let c: bool = self.cpsr.C();
        let v: bool = self.cpsr.V();
        match op {
            0b0010 | 0b0011 | 0b0100 | 0b0111 => {
                let shift: BarrelShiftOpCode = if op == 0b0010 {
                    BarrelShiftOpCode::LSL
                } else if op == 0b0011 {
                    BarrelShiftOpCode::LSR
                } else if op == 0b0100 {
                    BarrelShiftOpCode::ASR
                } else {
                    BarrelShiftOpCode::ROR
                };
                let (value, carry): (u32, bool) = barrel_shift_op(shift, dst, src & 0xff, c, false);
                Computed { value, carry, overflow: v }
            },
            0b0101 => alu_adc_flags(dst, src, c),
            0b0110 => alu_sbc_flags(dst, src, c),
            0b1001 => alu_sub_flags(0, src),
            0b1010 => alu_sub_flags(dst, src),
            0b1011 => alu_add_flags(dst, src),
            0b1101 => Computed { value: dst.wrapping_mul(src), carry: false, overflow: false },
            0b0001 => Computed { value: dst ^ src, carry: c, overflow: v },
            0b1100 => Computed { value: dst | src, carry: c, overflow: v },
            0b1110 => Computed { value: dst & !src, carry: c, overflow: v },
            0b1111 => Computed { value: !src, carry: c, overflow: v },
            _ => Computed { value: dst & src, carry: c, overflow: v },
        }
    }

    fn run_thumb_alu(&mut self, insn: u32)
        ensures
            final(self)@.cache == old(self)@.cache,
            final(self)@ == old(self)@.thumb_alu(insn),
    {
        let op: u32 = field(insn, 6, 4);
        let rd: usize = field(insn, 0, 3) as usize;
        let dst: u32 = self.gpr[rd];
        let src: u32 = self.gpr[field(insn, 3, 3) as usize];
        let r: Computed = self.compute_thumb_alu(op, dst, src);
        let cycles: usize = match op {
            0b0010 | 0b0011 | 0b0100 | 0b0111 => 1,
            0b1101 => self.get_required_multipiler_array_cycles(src),
            _ => 0,
        };
        self.idle_cycles(cycles);
        self.alu_update_flags(r.value, r.carry, r.overflow);
        if !(op == 0b1000 || op == 0b1010 || op == 0b1011) {
            self.gpr[rd] = r.value;
            proof {
                lemma_idled_keeps(old(self)@, cycles as nat);
            }
        }
    }

    fn run_thumb_hi(&mut self, insn: u32) -> (r: CpuAction)
        ensures
            final(self)@.cache == old(self)@.cache,
            (final(self)@, r) == old(self)@.thumb_hi(insn),
    {
        let op: u32 = field(insn, 8, 2);
        let dst: usize = (field(insn, 0, 3) + 8 * field(insn, 7, 1)) as usize;
        let src: usize = (field(insn, 3, 3) + 8 * field(insn, 6, 1)) as usize;
        let a: u32 = self.get_reg(dst);
        let b: u32 = self.get_reg(src);
        if op == 3 {
            self.branch_exchange(b);
            return CpuAction::PipelineFlushed;
        }
        if op == 1 {
            let r: Computed = alu_sub_flags(a, b);
            self.alu_update_flags(r.value, r.carry, r.overflow);
        } else {
            self.set_reg(
                dst,
                if op == 0 {
                    a.wrapping_add(b)
                } else {
                    b
                },
            );
            if dst == 15 {
                self.reload_pipeline16();
                return CpuAction::PipelineFlushed;
            }
        }
        CpuAction::AdvancePC(MemoryAccess::Sequential)
    }

    /// A word or byte access between `rd` and `addr`.
    fn run_thumb_access(&mut self, load: bool, byte: bool, rd: usize, addr: u32)
        requires
            rd < 8,
        ensures
            final(self)@.cache == old(self)@.cache,
            final(self)@ == old(self)@.thumb_access(load, byte, rd as int, addr),
    {
        if load {
            let data: u32 = if byte {
                self.load_8(addr, MemoryAccess::NonSeq) as u32
            } else {
                self.ldr_word(addr, MemoryAccess::NonSeq)
            };
            self.gpr[rd] = data;
            self.idle_cycle();
        } else if byte {
            self.store_8(addr, (self.gpr[rd] % 0x100) as u8, MemoryAccess::NonSeq);
        } else {
            self.store_32(addr & 0xffff_fffc, self.gpr[rd], MemoryAccess::NonSeq);
        }
    }

    fn run_thumb_half(&mut self, load: bool, rd: usize, addr: u32)
        requires
            rd < 8,
        ensures
            final(self)@.cache == old(self)@.cache,
            final(self)@ == if load {
                old(self)@.loaded_reg(
                    rd as int,
                    old(self)@.half_loaded(addr, MemoryAccess::NonSeq),
                )
            } else {
                old(self)@.half_stored(rd as int, addr)
            },
    {
        if load {
            let data: u32 = self.ldr_half(addr, MemoryAccess::NonSeq);
            self.gpr[rd] = data;
            self.idle_cycle();
        } else {
            self.store_16(
                addr & 0xffff_fffe,
                (self.gpr[rd] % 0x1_0000) as u16,
                MemoryAccess::NonSeq,
            );
        }
    }

    fn run_thumb_signed(&mut self, insn: u32)
        ensures
            final(self)@.cache == old(self)@.cache,
            final(self)@ == old(self)@.thumb_signed(insn),
    {
        let half: bool = field(insn, 11, 1) == 1;
        let sign: bool = field(insn, 10, 1) == 1;
        let rd: usize = field(insn, 0, 3) as usize;
        let addr: u32 = self.gpr[field(insn, 3, 3) as usize].wrapping_add(
            self.gpr[field(insn, 6, 3) as usize],
        );
        if !sign {
            self.run_thumb_half(half, rd, addr);
        } else {
            let data: u32 = if half {
                self.ldr_sign_half(addr, MemoryAccess::NonSeq)
            } else {
                offset_by(0, sign_extend(self.load_8(addr, MemoryAccess::NonSeq) as u32, 0x80))
            };
            self.gpr[rd] = data;
            self.idle_cycle();
        }
    }

    /// Loads the listed registers upwards from `base` and returns the address after them.
    fn run_ldm(&mut self, list: u8, base: u32) -> (end: u32)
        ensures
            final(self)@.cache == old(self)@.cache,
            final(self)@ == old(self)@.ldm(list, base, 8),
            end == slot(base, listed(list, 8)),
    {
        let mut addr: u32 = base;
        let mut access: MemoryAccess = MemoryAccess::NonSeq;
        let mut k: usize = 0;
        while k < 8
            invariant
                self@.cache == old(self)@.cache,
                k <= 8,
                self@ == old(self)@.ldm(list, base, k as nat),
                addr == slot(base, listed(list, k as nat)),
                access == access_at(listed(list, k as nat)),
                listed(list, k as nat) <= k,
            decreases 8 - k,
        {
            if lists(list, k) {
                let val: u32 = self.load_32(addr, access);
                access = MemoryAccess::Sequential;
                addr = addr.wrapping_add(4);
                self.gpr[k] = val;
            }
            k = k + 1;
        }
        addr
    }

    /// Stores the listed registers upwards from `base` and moves the base register on.
    fn run_stm(&mut self, list: u8, rb: usize, base: u32, align: u32)
        requires
            rb < 8,
            list != 0,
        ensures
            final(self)@.cache == old(self)@.cache,
            final(self)@ == old(self)@.stm(list, rb as int, base, 8).with_gpr(
                rb as int,
                slot(base, listed(list, 8)).wrapping_add(align),
            ),
    {
        let count: u32 = DecodedThumb14 { push: true, extra_reg: false, reg_list: list }.count();
        proof {
            lemma_nonempty(list);
        }
        let mut addr: u32 = base;
        let mut access: MemoryAccess = MemoryAccess::NonSeq;
        let mut first: bool = true;
        let mut k: usize = 0;
        while k < 8
            invariant
                self@.cache == old(self)@.cache,
                k <= 8,
                rb < 8,
                count == listed(list, 8),
                1 <= count <= 9,
                addr == slot(base, listed(list, k as nat)),
                access == access_at(listed(list, k as nat)),
                first == (listed(list, k as nat) == 0),
                listed(list, k as nat) <= k,
                self@.gpr.len() == 15,
                old(self)@.stm(list, rb as int, base, k as nat).gpr == old(self)@.gpr,
                k == 0 ==> self@ == old(self)@,
                k > 0 ==> self@ == old(self)@.stm(list, rb as int, base, k as nat).with_gpr(
                    rb as int,
                    addr.wrapping_add(align),
                ),
            decreases 8 - k,
        {
            if lists(list, k) {
                let v: u32 = if k != rb {
                    self.gpr[k]
                } else if first {
                    addr
                } else {
                    addr.wrapping_add((count - 1) * 4)
                };
                self.store_32(addr, v, access);
                access = MemoryAccess::Sequential;
                addr = addr.wrapping_add(4);
                first = false;
            }
            self.gpr[rb] = addr.wrapping_add(align);
            k = k + 1;
            assert(self@.gpr =~= old(self)@.gpr.update(rb as int, addr.wrapping_add(align)));
        }
    }

    fn run_thumb_multiple(&mut self, insn: u32) -> (r: CpuAction)
        ensures
            final(self)@.cache == old(self)@.cache,
            (final(self)@, r) == old(self)@.thumb_multiple(insn),
    {
        let load: bool = field(insn, 11, 1) == 1;
        let rb: usize = field(insn, 8, 3) as usize;
        let list: u8 = field(insn, 0, 8) as u8;
        let align: u32 = self.gpr[rb] & 3;
        let base: u32 = self.gpr[rb] & 0xffff_fffc;
        if list == 0 {
            let moved: u32 = base.wrapping_add(0x40).wrapping_add(align);
            if load {
                let val: u32 = self.load_32(base, MemoryAccess::NonSeq);
                self.pc = val & 0xffff_fffe;
                self.reload_pipeline16();
                self.gpr[rb] = moved;
                return CpuAction::PipelineFlushed;
            }
            self.store_32(base, self.pc.wrapping_add(2), MemoryAccess::NonSeq);
            self.gpr[rb] = moved;
        } else if load {
            let end: u32 = self.run_ldm(list, base);
            self.idle_cycle();
            if !lists(list, rb) {
                self.gpr[rb] = end.wrapping_add(align);
            }
        } else {
            self.run_stm(list, rb, base, align);
        }
        CpuAction::AdvancePC(MemoryAccess::NonSeq)
    }

    /// Pops the listed registers.
    fn run_pop(&mut self, list: u8)
        ensures
            final(self)@.cache == old(self)@.cache,
            final(self)@ == old(self)@.popped(list, 8),
    {
        let mut access: MemoryAccess = MemoryAccess::NonSeq;
        let mut k: usize = 0;
        while k < 8
            invariant
                self@.cache == old(self)@.cache,
                k <= 8,
                self@ == old(self)@.popped(list, k as nat),
                access == access_at(listed(list, k as nat)),
            decreases 8 - k,
        {
            if lists(list, k) {
                let val: u32 = self.load_32(self.gpr[REG_SP] & 0xffff_fffc, access);
                self.gpr[k] = val;
                access = MemoryAccess::Sequential;
                self.gpr[REG_SP] = self.gpr[REG_SP].wrapping_add(4);
            }
            k = k + 1;
        }
    }

    /// Pushes one register.
    fn push_one(&mut self, r: usize, access: MemoryAccess)
        requires
            r < 15,
            r != 13,
        ensures
            final(self)@.cache == old(self)@.cache,
            final(self)@ == old(self)@.pushed_one(r as int, access),
    {
        self.gpr[REG_SP] = self.gpr[REG_SP].wrapping_sub(4);
        self.store_32(self.gpr[REG_SP] & 0xffff_fffc, self.gpr[r], access);
    }

    /// Pushes the link register where `lr` says so, and then the listed registers from the top.
    fn run_push(&mut self, list: u8, lr: bool)
        ensures
            final(self)@.cache == old(self)@.cache,
            final(self)@ == old(self)@.pushed(list, lr, 0),
    {
        let mut access: MemoryAccess = MemoryAccess::NonSeq;
        if lr {
            self.push_one(REG_LR, access);
            access = MemoryAccess::Sequential;
        }
        let mut k: usize = 8;
        while k > 0
            invariant
                self@.cache == old(self)@.cache,
                k <= 8,
                self@ == old(self)@.pushed(list, lr, k as nat),
                listed(list, k as nat) <= listed(list, 8),
                access == if !lr && listed(list, 8) == listed(list, k as nat) {
                    MemoryAccess::NonSeq
                } else {
                    MemoryAccess::Sequential
                },
            decreases k,
        {
            k = k - 1;
            if lists(list, k) {
                self.push_one(k, access);
                access = MemoryAccess::Sequential;
            }
        }
    }

    fn run_thumb_stack(&mut self, insn: u32) -> (r: CpuAction)
        ensures
            final(self)@.cache == old(self)@.cache,
            (final(self)@, r) == old(self)@.thumb_stack(insn),
    {
        let extra: bool = field(insn, 8, 1) == 1;
        let list: u8 = field(insn, 0, 8) as u8;
        if field(insn, 11, 1) == 1 {
            self.run_pop(list);
            if extra {
                let val: u32 = self.load_32(
                    self.gpr[REG_SP] & 0xffff_fffc,
                    MemoryAccess::Sequential,
                );
                self.set_reg(REG_PC, val);
                self.gpr[REG_SP] = self.gpr[REG_SP].wrapping_add(4);
                self.pc = self.pc & 0xffff_fffe;
                self.reload_pipeline16();
                self.idle_cycle();
                return CpuAction::PipelineFlushed;
            }
            self.idle_cycle();
        } else {
            self.run_push(list, extra);
        }
        CpuAction::AdvancePC(MemoryAccess::NonSeq)
    }

    fn run_thumb_bcond(&mut self, insn: u32) -> (r: CpuAction)
        ensures
            final(self)@.cache == old(self)@.cache,
            (final(self)@, r) == old(self)@.thumb_bcond(insn),
    {
        if !self.check_arm_cond(ArmCond::from_bits(field(insn, 8, 4))) {
            return CpuAction::AdvancePC(MemoryAccess::Sequential);
        }
        self.pc = offset_by(self.pc, 2 * sign_extend(field(insn, 0, 8), 0x80));
        self.reload_pipeline16();
        CpuAction::PipelineFlushed
    }

    /// Loads, stores and addresses: formats 6 to 13.
    fn run_thumb_transfer(&mut self, insn: u32) -> (r: Option<CpuAction>)
        ensures
            final(self)@.cache == old(self)@.cache,
            r is Some == old(self)@.thumb_transfer(insn) is Some,
            r matches Some(v) ==> old(self)@.thumb_transfer(insn) == Some(
                (final(self)@, v),
            ),
            r is None ==> *final(self) == *old(self),
    {
        let load: bool = field(insn, 11, 1) == 1;
        let low: usize = field(insn, 0, 3) as usize;
        let base: u32 = self.gpr[field(insn, 3, 3) as usize];
        let high: usize = field(insn, 8, 3) as usize;
        let imm8: u32 = field(insn, 0, 8);
        let after: MemoryAccess = if load {
            MemoryAccess::Sequential
        } else {
            MemoryAccess::NonSeq
        };
        if field(insn, 11, 5) == 0b01001 {
            let addr: u32 = (self.pc & 0xffff_fffc).wrapping_add(imm8 * 4);
            self.run_thumb_access(true, false, high, addr);
            return Some(CpuAction::AdvancePC(MemoryAccess::NonSeq));
        }
        if field(insn, 12, 4) == 0b0101 && field(insn, 9, 1) == 0 {
            let addr: u32 = base.wrapping_add(self.gpr[field(insn, 6, 3) as usize]);
            self.run_thumb_access(load, field(insn, 10, 1) == 1, low, addr);
            return Some(CpuAction::AdvancePC(after));
        }
        if field(insn, 12, 4) == 0b0101 {
            self.run_thumb_signed(insn);
            return Some(CpuAction::AdvancePC(MemoryAccess::NonSeq));
        }
        if field(insn, 12, 4) == 0b1000 {
            self.run_thumb_half(load, low, base.wrapping_add(field(insn, 6, 5) * 2));
            return Some(CpuAction::AdvancePC(after));
        }
        if field(insn, 13, 3) == 0b011 {
            let byte: bool = field(insn, 12, 1) == 1;
            let imm5: u32 = field(insn, 6, 5);
            let addr: u32 = base.wrapping_add(
                if byte {
                    imm5
                } else {
                    imm5 * 4
                },
            );
            self.run_thumb_access(load, byte, low, addr);
            return Some(CpuAction::AdvancePC(after));
        }
        if field(insn, 12, 4) == 0b1001 {
            let addr: u32 = self.gpr[REG_SP].wrapping_add(imm8 * 4);
            self.run_thumb_access(load, false, high, addr);
            return Some(CpuAction::AdvancePC(after));
        }
        if field(insn, 12, 4) == 0b1010 {
            self.gpr[high] = if load {
                self.gpr[REG_SP].wrapping_add(imm8 * 4)
            } else {
                (self.pc.wrapping_sub(4) & 0xffff_fffd).wrapping_add(4).wrapping_add(imm8 * 4)
            };
            return Some(CpuAction::AdvancePC(MemoryAccess::Sequential));
        }
        if field(insn, 8, 8) == 0xb0 {
            let offset: u32 = field(insn, 0, 7) * 4;
            self.gpr[REG_SP] = if field(insn, 7, 1) == 1 {
                self.gpr[REG_SP].wrapping_sub(offset)
            } else {
                self.gpr[REG_SP].wrapping_add(offset)
            };
            return Some(CpuAction::AdvancePC(MemoryAccess::Sequential));
        }
        None
    }

    /// Multiple transfers, branches and what only a handler knows.
    fn run_thumb_flow<H: Handlers<I>>(&mut self, insn: u32) -> (r: CpuAction)
        ensures
            final(self)@.cache.compiler == old(self)@.cache.compiler,
            (final(self)@, r) == old(self)@.thumb_flow::<H>(insn),
    {
        if field(insn, 12, 4) == 0b1100 {
            return self.run_thumb_multiple(insn);
        }
        if field(insn, 12, 4) == 0b1011 && field(insn, 9, 2) == 0b10 {
            return self.run_thumb_stack(insn);
        }
        if field(insn, 12, 4) == 0b1101 && field(insn, 8, 4) < 14 {
            return self.run_thumb_bcond(insn);
        }
        if insn >> 11u32 == 0b11110 {
            self.gpr[REG_LR] = offset_by(
                self.pc,
                0x1000 * sign_extend(field(insn, 0, 11), 0x400),
            );
            return CpuAction::AdvancePC(MemoryAccess::Sequential);
        }
        H::exec_thumb(thumb_slot(insn), self, (insn % 0x1_0000) as u16)
    }

    /// Runs a Thumb instruction after its fetch.
    pub fn run_thumb_effect<H: Handlers<I>>(&mut self, insn: u32) -> (r: CpuAction)
        ensures
            final(self)@.cache.compiler == old(self)@.cache.compiler,
            (final(self)@, r) == old(self)@.thumb_effect::<H>(insn),
    {
        let top3: u32 = field(insn, 13, 3);
        if top3 == 0b000 {
            if field(insn, 11, 2) != 3 {
                self.run_thumb_shift(insn);
            } else {
                self.run_thumb_add_sub(insn);
            }
        } else if top3 == 0b001 {
            self.run_thumb_imm(insn);
        } else if field(insn, 10, 6) == 0b010000 {
            self.run_thumb_alu(insn);
        } else if field(insn, 10, 6) == 0b010001 {
            return self.run_thumb_hi(insn);
        } else {
            match self.run_thumb_transfer(insn) {
                Some(r) => {
                    return r;
                },
                None => {
                    return self.run_thumb_flow::<H>(insn);
                },
            }
        }
        CpuAction::AdvancePC(MemoryAccess::Sequential)
    }

    /// Ends a step that fetched at `fetch_addr`.
    fn conclude(&mut self, action: CpuAction, fetch_addr: u32, size: u32) -> (r: u32)
        ensures
            final(self)@.cache == old(self)@.cache,
            (final(self)@, r) == CoreState::<I>::concluded((old(self)@, action), fetch_addr, size),
    {
        match action {
            CpuAction::AdvancePC(access) => {
                self.next_fetch_access = access;
                self.pc = fetch_addr.wrapping_add(size);
                0
            },
            CpuAction::PipelineFlushed => 1,
        }
    }

    /// One Thumb step: the fetch at `fetch_addr` and the instruction `insn`. Returns 1 if the
    /// pipeline was refilled.
    pub fn aot_thumb_step<H: Handlers<I>>(&mut self, fetch_addr: u32, insn: u32) -> (r: u32)
        ensures
            (final(self)@, r) == old(self)@.thumb_stepped::<H>(fetch_addr, insn),
    {
        self.aot_thumb_fetch_only(fetch_addr);
        self.pc = fetch_addr;
        let action: CpuAction = self.run_thumb_effect::<H>(insn);
        self.conclude(action, fetch_addr, 2)
    }

    /// One ARM step: the fetch at `fetch_addr` and the instruction `insn` if its condition holds.
    /// Returns 1 if the pipeline was refilled.
    pub fn aot_arm_step<H: Handlers<I>>(&mut self, fetch_addr: u32, insn: u32) -> (r: u32)
        ensures
            (final(self)@, r) == old(self)@.arm_stepped::<H>(fetch_addr, insn),
    {
        self.arm_fetch_only(fetch_addr);
        self.pc = fetch_addr;
        let action: CpuAction = if self.check_arm_cond(ArmCond::from_bits(field(insn, 28, 4))) {
            H::exec_arm(arm_slot(insn), self, insn)
        } else {
            CpuAction::AdvancePC(MemoryAccess::NonSeq)
        };
        self.conclude(action, fetch_addr, 4)
    }
}

/// Internal cycles change nothing but the bus.
pub proof fn lemma_idled_keeps<I: MemoryInterface>(s: CoreState<I>, n: nat)
    ensures
        s.idled(n) == (CoreState::<I> { bus: s.idled(n).bus, ..s }),
    decreases n,
{
    if n > 0 {
        lemma_idled_keeps(s, (n - 1) as nat);
    }
}

/// A list that is not zero selects a register.
proof fn lemma_nonempty(list: u8)
    requires
        list != 0,
    ensures
        listed(list, 8) >= 1,
{
    reveal_with_fuel(listed, 9);
    let x = list as u32;
    assert(exists|r: u32| r < 8 && #[trigger] ((x >> r) & 1) == 1) by {
        assert((x >> 0u32) & 1 == 1 || (x >> 1u32) & 1 == 1 || (x >> 2u32) & 1 == 1 || (x >> 3u32)
            & 1 == 1 || (x >> 4u32) & 1 == 1 || (x >> 5u32) & 1 == 1 || (x >> 6u32) & 1 == 1 || (x
            >> 7u32) & 1 == 1) by (bit_vector)
            requires
                0 < x < 256,
        ;
    }
    assert((1u32 << 1u32) - 1 == 1) by (bit_vector);
}

} // verus!
