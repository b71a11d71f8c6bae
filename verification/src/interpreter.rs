//! Instruction handlers for what the recompiler lowers: the Thumb formats, ARM data processing
//! and ARM branches. Any other instruction is passed over.

use vstd::prelude::*;
use crate::alu::{Computed, added, alu_add_flags, alu_sub_flags, subtracted};
use crate::bits::{bit, bits, field, offset_by, sign_extend, signed_field, test_bit, word};
use crate::cpu::{Arm7tdmiCore, CoreState, CpuAction, REG_LR};
use crate::dynarec::DynarecCompiler;
use crate::dynarec::decode::{DecodedBranch, DecodedDp, DpOp, Operand2, arm_branch, arm_dp};
use crate::dynarec::sem::dp_result;
use crate::fastpath::Handlers;
use crate::memory::{MemoryAccess, MemoryInterface};

verus! {

/// The carry that the shifter leaves for a data-processing operand: the top bit of a rotated
/// immediate, and the carry as it was for anything else.
pub open spec fn operand_carry(insn: u32, value: u32, carry: bool) -> bool {
    if bits(insn, 25, 1) == 1 && bits(insn, 8, 4) != 0 {
        bit(value, 31)
    } else {
        carry
    }
}

/// Whether a data-processing operation is logical.
pub open spec fn logical(op: DpOp) -> bool {
    op == DpOp::Mov || op == DpOp::Mvn || op == DpOp::Tst || op == DpOp::Teq
}

impl<I: MemoryInterface> CoreState<I> {
    /// The value of a data-processing operand.
    pub open spec fn operand(self, o: Operand2) -> u32 {
        match o {
            Operand2::Imm(v) => v,
            Operand2::Reg(r) => self.gpr[r as int],
        }
    }

    /// ARM data processing. Logical operations take the carry from the shifter.
    pub open spec fn arm_processed(self, d: DecodedDp, insn: u32) -> Self {
        let a = self.gpr[d.rn as int];
        let b = self.operand(d.operand2);
        let r = if d.op == DpOp::Add || d.op == DpOp::Cmn {
            added(a, b)
        } else if d.op == DpOp::Sub || d.op == DpOp::Cmp {
            subtracted(a, b)
        } else {
            Computed {
                value: dp_result(d.op, a, b),
                carry: operand_carry(insn, b, self.carry()),
                overflow: self.overflow(),
            }
        };
        let s = if d.op.compares() {
            self
        } else {
            self.with_gpr(d.rd as int, r.value)
        };
        if d.s {
            s.flags_set(r.value, r.carry, r.overflow)
        } else {
            s
        }
    }

    /// An ARM branch; the program counter is two instructions ahead.
    pub open spec fn arm_branched(self, d: DecodedBranch) -> Self {
        let s = if d.link {
            self.with_gpr(14, self.pc.wrapping_sub(4))
        } else {
            self
        };
        s.with_pc(word(s.pc + 4 * d.offset24_signed)).reloaded32()
    }

    /// The effect of an ARM instruction whose condition holds.
    pub open spec fn arm_effect(self, insn: u32) -> (Self, CpuAction) {
        if arm_dp(insn) is Some {
            self.arm_processed(arm_dp(insn)->0, insn).going(MemoryAccess::Sequential)
        } else if arm_branch(insn) is Some {
            (self.arm_branched(arm_branch(insn)->0), CpuAction::PipelineFlushed)
        } else {
            self.going(MemoryAccess::Sequential)
        }
    }

    /// The Thumb instructions that the fast path leaves over: the unconditional branch and the
    /// second half of a long branch.
    pub open spec fn thumb_rest(self, insn: u16) -> (Self, CpuAction) {
        let x = insn as u32;
        if bits(x, 11, 5) == 0b11100 {
            (
                self.with_pc(
                    word(self.pc + 2 * signed_field(bits(x, 0, 11), 0x400)),
                ).reloaded16(),
                CpuAction::PipelineFlushed,
            )
        } else if bits(x, 11, 5) == 0b11111 {
            (
                self.with_gpr(14, self.pc.wrapping_sub(2) | 1).with_pc(
                    (self.gpr[14] & 0xffff_fffe).wrapping_add((bits(x, 0, 11) * 2) as u32),
                ).reloaded16(),
                CpuAction::PipelineFlushed,
            )
        } else {
            self.going(MemoryAccess::Sequential)
        }
    }
}

impl<I: MemoryInterface> Arm7tdmiCore<I> {
    /// Runs ARM data processing.
    fn run_arm_processing(&mut self, d: DecodedDp, insn: u32)
        requires
            d.ok(),
        ensures
            final(self)@ == old(self)@.arm_processed(d, insn),
            final(self)@.cache.compiler == old(self)@.cache.compiler,
    {
        let a: u32 = self.gpr[d.rn];
        let b: u32 = match d.operand2 {
            Operand2::Imm(v) => v,
            Operand2::Reg(r) => self.gpr[r],
        };
        let r: Computed = match d.op {
            DpOp::Add | DpOp::Cmn => alu_add_flags(a, b),
            DpOp::Sub | DpOp::Cmp => alu_sub_flags(a, b),
            DpOp::Mov | DpOp::Mvn | DpOp::Tst | DpOp::Teq => {
                let value: u32 = match d.op {
                    DpOp::Mov => b,
                    DpOp::Mvn => !b,
                    DpOp::Tst => a & b,
                    _ => a ^ b,
                };
                let rotated: bool = field(insn, 25, 1) == 1 && field(insn, 8, 4) != 0;
                let carry: bool = if rotated {
                    test_bit(b, 31)
                } else {
                    self.cpsr.C()
                };
                Computed { value, carry, overflow: self.cpsr.V() }
            },
        };
        if !d.op.is_compare_only() {
            self.gpr[d.rd] = r.value;
        }
        if d.s {
            self.alu_update_flags(r.value, r.carry, r.overflow);
        }
    }

    /// Runs an ARM branch.
    fn run_arm_branch(&mut self, d: DecodedBranch)
        requires
            -0x80_0000 <= d.offset24_signed < 0x80_0000,
        ensures
            final(self)@ == old(self)@.arm_branched(d),
            final(self)@.cache.compiler == old(self)@.cache.compiler,
    {
        if d.link {
            self.gpr[REG_LR] = self.pc.wrapping_sub(4);
        }
        self.pc = offset_by(self.pc, 4 * d.offset24_signed);
        self.reload_pipeline32();
    }

    /// Runs an ARM instruction whose condition holds.
    fn run_arm_effect(&mut self, insn: u32) -> (a: CpuAction)
        ensures
            (final(self)@, a) == old(self)@.arm_effect(insn),
            final(self)@.cache.compiler == old(self)@.cache.compiler,
    {
        if let Some(d) = DynarecCompiler::decode_supported_dp(insn) {
            self.run_arm_processing(d, insn);
            return CpuAction::AdvancePC(MemoryAccess::Sequential);
        }
        if let Some(d) = DynarecCompiler::decode_branch(insn) {
            self.run_arm_branch(d);
            return CpuAction::PipelineFlushed;
        }
        CpuAction::AdvancePC(MemoryAccess::Sequential)
    }

    /// Runs a Thumb instruction that the fast path leaves over.
    fn run_thumb_rest(&mut self, insn: u16) -> (a: CpuAction)
        ensures
            (final(self)@, a) == old(self)@.thumb_rest(insn),
            final(self)@.cache.compiler == old(self)@.cache.compiler,
    {
        let x: u32 = insn as u32;
        if field(x, 11, 5) == 0b11100 {
            self.pc = offset_by(self.pc, 2 * sign_extend(field(x, 0, 11), 0x400));
            self.reload_pipeline16();
            CpuAction::PipelineFlushed
        } else if field(x, 11, 5) == 0b11111 {
            let target: u32 = (self.gpr[REG_LR] & 0xffff_fffe).wrapping_add(field(x, 0, 11) * 2);
            self.gpr[REG_LR] = self.pc.wrapping_sub(2) | 1;
            self.pc = target;
            self.reload_pipeline16();
            CpuAction::PipelineFlushed
        } else {
            CpuAction::AdvancePC(MemoryAccess::Sequential)
        }
    }
}

/// The handlers behind the fast path.
pub struct Remaining;

impl<I: MemoryInterface> Handlers<I> for Remaining {
    open spec fn arm_done(slot: usize, core: CoreState<I>, insn: u32) -> (CoreState<I>, CpuAction) {
        core.arm_effect(insn)
    }

    open spec fn thumb_done(slot: usize, core: CoreState<I>, insn: u16) -> (
        CoreState<I>,
        CpuAction,
    ) {
        core.thumb_rest(insn)
    }

    fn exec_arm(_slot: usize, core: &mut Arm7tdmiCore<I>, insn: u32) -> (a: CpuAction) {
        core.run_arm_effect(insn)
    }

    fn exec_thumb(_slot: usize, core: &mut Arm7tdmiCore<I>, insn: u16) -> (a: CpuAction) {
        core.run_thumb_rest(insn)
    }
}

/// The whole interpreter.
pub struct Interpreter;

/// What the interpreter makes of an instruction after its fetch.
#[verifier::opaque]
pub open spec fn effect_of<I: MemoryInterface>(
    core: CoreState<I>,
    op: u16,
) -> (CoreState<I>, CpuAction) {
    core.thumb_effect::<Remaining>(op as u32)
}

impl<I: MemoryInterface> Handlers<I> for Interpreter {
    open spec fn arm_done(slot: usize, core: CoreState<I>, insn: u32) -> (CoreState<I>, CpuAction) {
        core.arm_effect(insn)
    }

    open spec fn thumb_done(slot: usize, core: CoreState<I>, insn: u16) -> (
        CoreState<I>,
        CpuAction,
    ) {
        effect_of(core, insn)
    }

    fn exec_arm(_slot: usize, core: &mut Arm7tdmiCore<I>, insn: u32) -> (a: CpuAction) {
        core.run_arm_effect(insn)
    }

    fn exec_thumb(_slot: usize, core: &mut Arm7tdmiCore<I>, insn: u16) -> (a: CpuAction) {
        reveal(effect_of);
        core.run_thumb_effect::<Remaining>(insn as u32)
    }
}

} // verus!
