//! What each supported guest instruction does to the guest state.

use vstd::prelude::*;
use crate::bits::{add_flags, bit, flag_c, sshr, sub_flags, with_nz, with_nzc, word};
use crate::dynarec::decode::{
    DecodedBranch, DecodedDp, DecodedMem, DecodedThumb1, DecodedThumb10, DecodedThumb11,
    DecodedThumb12, DecodedThumb13, DecodedThumb14, DecodedThumb15, DecodedThumb2, DecodedThumb3,
    DecodedThumb4, DecodedThumb5, DecodedThumb6, DecodedThumb7, DecodedThumb8Ldsb, DecodedThumb9,
    DecodedThumbBx, DecodedThumbPcBranch, DpOp, Operand2, ShiftKind, Thumb2Operand, Thumb3Op,
    Thumb4Op, Thumb5Op, in_list, listed,
};
use crate::dynarec::ir::{Callee, Cpu};

verus! {

/// The register number of the stack pointer.
pub const SP: usize = 13;

/// The register number of the link register.
pub const LR: usize = 14;

/// The result of a data-processing operation.
pub open spec fn dp_result(op: DpOp, a: u32, b: u32) -> u32 {
    match op {
        DpOp::Mov => b,
        DpOp::Mvn => !b,
        DpOp::Add | DpOp::Cmn => a.wrapping_add(b),
        DpOp::Sub | DpOp::Cmp => a.wrapping_sub(b),
        DpOp::Tst => a & b,
        DpOp::Teq => a ^ b,
    }
}

/// The status word after a flag-setting data-processing operation with result `r`. The logical
/// operations leave C and V alone.
pub open spec fn dp_flags(op: DpOp, cpsr: u32, a: u32, b: u32, r: u32) -> u32 {
    match op {
        DpOp::Add | DpOp::Cmn => add_flags(cpsr, a, b),
        DpOp::Sub | DpOp::Cmp => sub_flags(cpsr, a, b),
        DpOp::Mov | DpOp::Mvn | DpOp::Tst | DpOp::Teq => with_nz(cpsr, r),
    }
}

/// The result of an immediate shift; a zero amount of a right shift stands for 32.
pub open spec fn shift_result(kind: ShiftKind, n: u32, x: u32) -> u32 {
    match kind {
        ShiftKind::Lsl => x << n,
        ShiftKind::Lsr => if n == 0 {
            0
        } else {
            x >> n
        },
        ShiftKind::Asr => if n == 0 {
            sshr(x, 31)
        } else {
            sshr(x, n)
        },
    }
}

/// The last bit shifted out; a left shift by zero keeps the carry.
pub open spec fn shift_carry(kind: ShiftKind, n: u32, x: u32, carry: bool) -> bool {
    match kind {
        ShiftKind::Lsl => if n == 0 {
            carry
        } else {
            bit(x, (32 - n) as u32)
        },
        _ => if n == 0 {
            bit(x, 31)
        } else {
            bit(x, (n - 1) as u32)
        },
    }
}

pub open spec fn exec1(d: DecodedThumb1, s: Cpu) -> Cpu {
    let x = s.reg(d.rs);
    let r = shift_result(d.kind, d.imm5, x);
    s.set(d.rd, r).flagged(
        with_nzc(s.cpsr, r, shift_carry(d.kind, d.imm5, x, flag_c(s.cpsr))),
    )
}

/// The value of a format 2 operand.
pub open spec fn operand_value(o: Thumb2Operand, s: Cpu) -> u32 {
    match o {
        Thumb2Operand::Imm3(v) => v,
        Thumb2Operand::Reg(r) => s.reg(r),
    }
}

pub open spec fn exec2(d: DecodedThumb2, s: Cpu) -> Cpu {
    let a = s.reg(d.rs);
    let b = operand_value(d.operand, s);
    if d.sub {
        s.set(d.rd, a.wrapping_sub(b)).flagged(sub_flags(s.cpsr, a, b))
    } else {
        s.set(d.rd, a.wrapping_add(b)).flagged(add_flags(s.cpsr, a, b))
    }
}

pub open spec fn exec3(d: DecodedThumb3, s: Cpu) -> Cpu {
    let a = s.reg(d.rd);
    let b = d.imm8;
    match d.op {
        Thumb3Op::Mov => s.set(d.rd, b).flagged(with_nz(s.cpsr, b)),
        Thumb3Op::Cmp => s.flagged(sub_flags(s.cpsr, a, b)),
        Thumb3Op::Add => s.set(d.rd, a.wrapping_add(b)).flagged(add_flags(s.cpsr, a, b)),
        Thumb3Op::Sub => s.set(d.rd, a.wrapping_sub(b)).flagged(sub_flags(s.cpsr, a, b)),
    }
}

pub open spec fn exec4(d: DecodedThumb4, s: Cpu) -> Cpu {
    let a = s.reg(d.rd);
    let b = s.reg(d.rs);
    match d.op {
        Thumb4Op::And => s.set(d.rd, a & b).flagged(with_nz(s.cpsr, a & b)),
        Thumb4Op::Eor => s.set(d.rd, a ^ b).flagged(with_nz(s.cpsr, a ^ b)),
        Thumb4Op::Orr => s.set(d.rd, a | b).flagged(with_nz(s.cpsr, a | b)),
        Thumb4Op::Bic => s.set(d.rd, a & !b).flagged(with_nz(s.cpsr, a & !b)),
        Thumb4Op::Mvn => s.set(d.rd, !b).flagged(with_nz(s.cpsr, !b)),
        Thumb4Op::Tst => s.flagged(with_nz(s.cpsr, a & b)),
        Thumb4Op::Cmp => s.flagged(sub_flags(s.cpsr, a, b)),
        Thumb4Op::Cmn => s.flagged(add_flags(s.cpsr, a, b)),
    }
}

pub open spec fn exec5(d: DecodedThumb5, s: Cpu) -> Cpu {
    let a = s.reg(d.rd);
    let b = s.reg(d.rs);
    match d.op {
        Thumb5Op::Add => s.set(d.rd, a.wrapping_add(b)),
        Thumb5Op::Cmp => s.flagged(sub_flags(s.cpsr, a, b)),
        Thumb5Op::Mov => s.set(d.rd, b),
    }
}

/// A load through `to`: the call, then the answer into a register.
pub open spec fn loaded_into(rd: usize, to: Callee, addr: u32, s: Cpu) -> Cpu {
    let t = s.called(to, addr, 0, 0);
    t.set(rd, t.answer())
}

/// The address of a load relative to the program counter, for an instruction at `pc`.
pub open spec fn literal_address(pc: u32, imm8: u32) -> u32 {
    (pc.wrapping_add(4) & 0xffff_fffc).wrapping_add((imm8 * 4) as u32)
}

pub open spec fn exec6(d: DecodedThumb6, pc: u32, s: Cpu) -> Cpu {
    loaded_into(d.rd, Callee::LoadWithIdle32, literal_address(pc, d.imm8), s)
}

pub open spec fn exec7(d: DecodedThumb7, s: Cpu) -> Cpu {
    let addr = s.reg(d.rb).wrapping_add(s.reg(d.ro));
    if d.load {
        loaded_into(
            d.rd,
            if d.byte {
                Callee::LoadWithIdle8
            } else {
                Callee::LoadWithIdle32
            },
            addr,
            s,
        )
    } else if d.byte {
        s.called(Callee::Store8, addr, s.reg(d.rd), 0)
    } else {
        s.called(Callee::Store32, addr, s.reg(d.rd), 0)
    }
}

/// The low byte of a word, sign-extended.
pub open spec fn signed_byte(v: u32) -> u32 {
    let b = v & 0xff;
    if b < 0x80 {
        b
    } else {
        b | 0xffff_ff00
    }
}

pub open spec fn exec8(d: DecodedThumb8Ldsb, s: Cpu) -> Cpu {
    let t = s.called(Callee::LoadWithIdle8, s.reg(d.rb).wrapping_add(s.reg(d.ro)), 0, 0);
    t.set(d.rd, signed_byte(t.answer()))
}

/// A word or byte access at `addr`; bytes are masked on both sides of the bus.
pub open spec fn accessed(load: bool, byte: bool, rd: usize, addr: u32, s: Cpu) -> Cpu {
    if load && byte {
        let t = s.called(Callee::LoadWithIdle8, addr, 0, 0);
        t.set(rd, t.answer() & 0xff)
    } else if load {
        loaded_into(rd, Callee::LoadWithIdle32, addr, s)
    } else if byte {
        s.called(Callee::Store8, addr, s.reg(rd) & 0xff, 0)
    } else {
        s.called(Callee::Store32, addr, s.reg(rd), 0)
    }
}

pub open spec fn exec9(d: DecodedThumb9, s: Cpu) -> Cpu {
    accessed(d.load, d.byte, d.rd, s.reg(d.rs).wrapping_add(d.offset), s)
}

pub open spec fn exec10(d: DecodedThumb10, s: Cpu) -> Cpu {
    let addr = s.reg(d.rs).wrapping_add(d.offset);
    if d.load {
        loaded_into(d.rd, Callee::LoadWithIdle16, addr, s)
    } else {
        s.called(Callee::Store16, addr, s.reg(d.rd), 0)
    }
}

pub open spec fn exec11(d: DecodedThumb11, s: Cpu) -> Cpu {
    accessed(d.load, false, d.rd, s.reg(SP).wrapping_add(d.offset), s)
}

pub open spec fn exec12(d: DecodedThumb12, pc: u32, s: Cpu) -> Cpu {
    s.set(
        d.rd,
        if d.sp {
            s.reg(SP).wrapping_add(d.offset)
        } else {
            (pc & 0xffff_fffd).wrapping_add(4).wrapping_add(d.offset)
        },
    )
}

pub open spec fn exec13(d: DecodedThumb13, s: Cpu) -> Cpu {
    s.set(
        SP,
        if d.sub {
            s.reg(SP).wrapping_sub(d.offset)
        } else {
            s.reg(SP).wrapping_add(d.offset)
        },
    )
}

/// The address of slot `k` of a multiple transfer.
pub open spec fn slot(base: u32, k: nat) -> u32 {
    base.wrapping_add((4 * k) as u32)
}

/// The store callee for slot `k` of a multiple transfer: the first access is non-sequential.
pub open spec fn store_at(k: nat) -> Callee {
    if k == 0 {
        Callee::Store32
    } else {
        Callee::Store32Sequential
    }
}

/// The load callee for slot `k` of a multiple transfer.
pub open spec fn load_at(k: nat, sequential: bool) -> Callee {
    if k == 0 || !sequential {
        Callee::Load32
    } else {
        Callee::Load32Sequential
    }
}

/// The state after the listed registers below `k` were stored upwards from `base`.
pub open spec fn stored(list: u8, k: nat, base: u32, s: Cpu) -> Cpu
    decreases k,
{
    if k == 0 {
        s
    } else {
        let j = (k - 1) as nat;
        let p = stored(list, j, base, s);
        if in_list(list, j as usize) {
            p.called(
                store_at(listed(list, j)),
                slot(base, listed(list, j)),
                p.reg(j as usize),
                0,
            )
        } else {
            p
        }
    }
}

/// The state after the listed registers below `k` were loaded upwards from `base`.
pub open spec fn loaded(list: u8, k: nat, base: u32, sequential: bool, s: Cpu) -> Cpu
    decreases k,
{
    if k == 0 {
        s
    } else {
        let j = (k - 1) as nat;
        let p = loaded(list, j, base, sequential, s);
        if in_list(list, j as usize) {
            loaded_into(
                j as usize,
                load_at(listed(list, j), sequential),
                slot(base, listed(list, j)),
                p,
            )
        } else {
            p
        }
    }
}

pub open spec fn exec14(d: DecodedThumb14, s: Cpu) -> Cpu {
    let n = listed(d.reg_list, 8);
    let bytes = (4 * d.total()) as u32;
    let sp = s.reg(SP);
    if d.push {
        let base = sp.wrapping_sub(bytes);
        let t = stored(d.reg_list, 8, base, s);
        let u = if d.extra_reg {
            t.called(store_at(n), slot(base, n), t.reg(LR), 0)
        } else {
            t
        };
        u.set(SP, base)
    } else {
        loaded(d.reg_list, 8, sp, true, s).set(SP, sp.wrapping_add(bytes)).called(
            Callee::IdleCycle,
            0,
            0,
            0,
        )
    }
}

pub open spec fn exec15(d: DecodedThumb15, s: Cpu) -> Cpu {
    let n = listed(d.rlist, 8);
    let rb = s.reg(d.rb);
    let base = rb & 0xffff_fffc;
    let t = if d.load {
        loaded(d.rlist, 8, base, true, s).called(Callee::IdleCycle, 0, 0, 0)
    } else {
        stored(d.rlist, 8, base, s)
    };
    if d.load && in_list(d.rlist, d.rb) {
        t
    } else {
        t.set(d.rb, slot(base, n).wrapping_add(rb & 3))
    }
}

/// A pop of the listed registers and then the program counter, as the tail of a block. The branch
/// target always has bit 0 set: a pop does not leave Thumb state.
pub open spec fn exec_pop_pc(list: u8, s: Cpu) -> Cpu {
    let n = listed(list, 8);
    let sp = s.reg(SP);
    let t = loaded(list, 8, sp, true, s).called(load_at(n, true), slot(sp, n), 0, 0);
    t.set(SP, slot(sp, n + 1)).called(Callee::IdleCycle, 0, 0, 0).branched(t.answer() | 1)
}

/// A pop of the listed registers and then the program counter, standing alone. Bit 0 of the
/// branch target is the popped one.
pub open spec fn exec_pop_pc_alone(list: u8, s: Cpu) -> Cpu {
    let n = listed(list, 8);
    let sp = s.reg(SP);
    let t = loaded(list, 8, sp, false, s).called(Callee::Load32, slot(sp, n), 0, 0);
    t.set(SP, slot(sp, n + 1)).branched(t.answer())
}

pub open spec fn exec_bx(d: DecodedThumbBx, s: Cpu) -> Cpu {
    s.branched(s.reg(d.rs))
}

/// The target of a Thumb branch at `pc`, with the Thumb bit set.
pub open spec fn thumb_target(d: DecodedThumbPcBranch, pc: u32) -> u32 {
    word(pc.wrapping_add(4) + 2 * d.offset_signed) | 1
}

/// The target of an ARM branch at `pc`.
pub open spec fn arm_target(d: DecodedBranch, pc: u32) -> u32 {
    word(pc.wrapping_add(8) + 4 * d.offset24_signed)
}

/// The value of a data-processing operand.
pub open spec fn operand2_value(o: Operand2, s: Cpu) -> u32 {
    match o {
        Operand2::Imm(v) => v,
        Operand2::Reg(r) => s.reg(r),
    }
}

/// A data-processing instruction whose condition holds.
pub open spec fn exec_dp_body(d: DecodedDp, s: Cpu) -> Cpu {
    let a = s.reg(d.rn);
    let b = operand2_value(d.operand2, s);
    let r = dp_result(d.op, a, b);
    let t = if d.op.compares() {
        s
    } else {
        s.set(d.rd, r)
    };
    if d.s {
        t.flagged(dp_flags(d.op, s.cpsr, a, b, r))
    } else {
        t
    }
}

pub open spec fn exec_dp(d: DecodedDp, s: Cpu) -> Cpu {
    if d.cond.passes(s.cpsr) {
        exec_dp_body(d, s)
    } else {
        s
    }
}

/// An ARM load or store whose condition holds.
pub open spec fn exec_mem_body(d: DecodedMem, s: Cpu) -> Cpu {
    let rn = s.reg(d.rn);
    let addr = if d.add {
        rn.wrapping_add(d.offset)
    } else {
        rn.wrapping_sub(d.offset)
    };
    accessed(d.load, d.byte, d.rd, addr, s)
}

pub open spec fn exec_mem(d: DecodedMem, s: Cpu) -> Cpu {
    if d.cond.passes(s.cpsr) {
        exec_mem_body(d, s)
    } else {
        s
    }
}

/// An ARM branch at `pc`, with the link register written for `BL`.
pub open spec fn exec_branch(d: DecodedBranch, pc: u32, s: Cpu) -> Cpu {
    if d.cond.passes(s.cpsr) {
        let t = if d.link {
            s.set(LR, pc.wrapping_add(4))
        } else {
            s
        };
        t.branched(arm_target(d, pc))
    } else {
        s
    }
}

} // verus!
