//! What ARM instructions do, interpreted and compiled.

use vstd::prelude::*;
use crate::bits::{bits, flag_c, word};
use crate::cond::ArmCond;
use crate::cpu::{Arm7tdmiCore, CoreState, CpuAction};
use crate::dynarec::arm::{BlockItem, arm_block, arm_item, branch_block, dp_block};
use crate::dynarec::bus::Bus;
use crate::dynarec::decode::{DecodedDp, DecodedMem, DpOp, Operand2, arm_branch, arm_dp, arm_mem};
use crate::dynarec::ir::{BusCall, Callee, Cpu};
use crate::dynarec::sem::{dp_flags, dp_result, exec_dp, exec_dp_body};
use crate::interpreter::operand_carry;
use crate::laws::conditions::{condition_holds, law_conditions};
use crate::laws::words::{
    as_signed, c_of, digit_at, lemma_cut, lemma_field, lemma_flag_reads, lemma_flagged,
    lemma_low_byte, lemma_shifts, lemma_top_bit, lemma_turned, result_flags, too_wide, v_of,
    wrapped,
};
use crate::memory::{MemoryAccess, MemoryInterface, Request};
use crate::psr::RegPSR;
use vstd::arithmetic::power2::{lemma2_to64, pow2};

verus! {

/// The condition code of an ARM instruction.
#[verifier::opaque]
pub open spec fn code_field(insn: u32) -> int {
    insn as int / 0x1000_0000
}

/// The register that an ARM instruction writes or transfers.
#[verifier::opaque]
pub open spec fn rd_field(insn: u32) -> int {
    insn as int / 0x1000 % 16
}

/// The first operand or the base register of an ARM instruction.
#[verifier::opaque]
pub open spec fn rn_field(insn: u32) -> int {
    insn as int / 0x1_0000 % 16
}

/// The operation of an ARM data-processing instruction.
#[verifier::opaque]
pub open spec fn op_field(insn: u32) -> int {
    insn as int / 0x20_0000 % 16
}

/// A bit of an ARM instruction.
#[verifier::opaque]
pub open spec fn has_bit(insn: u32, n: nat) -> bool {
    digit_at(insn as int, n) == 1
}

/// The fields of an ARM instruction.
#[verifier::spinoff_prover]
proof fn lemma_arm_fields(x: u32)
    ensures
        bits(x, 28, 4) == code_field(x),
        bits(x, 25, 3) == x / 0x200_0000 % 8,
        bits(x, 26, 2) == x / 0x400_0000 % 4,
        bits(x, 21, 4) == op_field(x),
        bits(x, 16, 4) == rn_field(x),
        bits(x, 12, 4) == rd_field(x),
        bits(x, 0, 24) == x % 0x100_0000,
        bits(x, 0, 12) == x % 0x1000,
        bits(x, 4, 8) == x / 16 % 256,
        bits(x, 8, 4) == x / 256 % 16,
        bits(x, 0, 8) == x % 256,
        bits(x, 0, 4) == x % 16,
        (bits(x, 25, 1) == 1) == has_bit(x, 25),
        (bits(x, 24, 1) == 1) == has_bit(x, 24),
        (bits(x, 23, 1) == 1) == has_bit(x, 23),
        (bits(x, 22, 1) == 1) == has_bit(x, 22),
        (bits(x, 21, 1) == 1) == has_bit(x, 21),
        (bits(x, 20, 1) == 1) == has_bit(x, 20),
        bits(x, 25, 1) < 2,
        bits(x, 24, 1) < 2,
        bits(x, 21, 1) < 2,
        0 <= code_field(x) < 16,
        0 <= rd_field(x) < 16,
        0 <= rn_field(x) < 16,
        0 <= op_field(x) < 16,
        code_field(x) == x / 0x1000_0000,
{
    reveal(code_field);
    reveal(rd_field);
    reveal(rn_field);
    reveal(op_field);
    reveal(has_bit);
    lemma2_to64();
    lemma_field(x, 28, 4);
    lemma_field(x, 25, 3);
    lemma_field(x, 26, 2);
    lemma_field(x, 21, 4);
    lemma_field(x, 16, 4);
    lemma_field(x, 12, 4);
    lemma_field(x, 0, 24);
    lemma_field(x, 0, 12);
    lemma_field(x, 4, 8);
    lemma_field(x, 8, 4);
    lemma_field(x, 0, 8);
    lemma_field(x, 0, 4);
    lemma_field(x, 25, 1);
    lemma_field(x, 24, 1);
    lemma_field(x, 23, 1);
    lemma_field(x, 22, 1);
    lemma_field(x, 21, 1);
    lemma_field(x, 20, 1);
}

/// Whether an instruction is a single transfer of a word or a byte, with an immediate offset from
/// the base, no write-back and no use of R15.
pub open spec fn is_transfer(insn: u32) -> bool {
    &&& code_field(insn) != 15
    &&& insn / 0x400_0000 % 4 == 1
    &&& !has_bit(insn, 25)
    &&& has_bit(insn, 24)
    &&& !has_bit(insn, 21)
    &&& rn_field(insn) != 15
    &&& rd_field(insn) != 15
}

/// The address of a single transfer: bit 23 tells whether the offset is added to the base or taken
/// from it.
pub open spec fn transfer_address(insn: u32, gpr: Seq<u32>) -> u32 {
    let base = gpr[rn_field(insn)];
    let offset = insn as int % 0x1000;
    if has_bit(insn, 23) {
        wrapped(base + offset)
    } else {
        wrapped(base - offset)
    }
}

/// Compiled code after one call more.
pub open spec fn after_call(s: Cpu, to: Callee, a: u32, b: u32) -> Cpu {
    Cpu { calls: s.calls.push(BusCall { to, a, b, c: 0 }), ..s }
}

/// What a single transfer does: bit 20 tells a load from a store and bit 22 a byte from a word. It
/// makes one call; a load writes the answer to its register, and bytes are the low eight bits.
pub open spec fn transferred(insn: u32, s: Cpu) -> Cpu {
    let addr = transfer_address(insn, s.gpr);
    let rd = rd_field(insn);
    if has_bit(insn, 20) {
        let t = after_call(
            s,
            if has_bit(insn, 22) {
                Callee::LoadWithIdle8
            } else {
                Callee::LoadWithIdle32
            },
            addr,
            0,
        );
        let answer = (s.bus)(t.calls);
        Cpu {
            gpr: s.gpr.update(
                rd,
                if has_bit(insn, 22) {
                    (answer % 256) as u32
                } else {
                    answer
                },
            ),
            ..t
        }
    } else if has_bit(insn, 22) {
        after_call(s, Callee::Store8, addr, (s.gpr[rd] % 256) as u32)
    } else {
        after_call(s, Callee::Store32, addr, s.gpr[rd])
    }
}

/// A block compiles a single transfer wherever it stands: if its condition holds it makes its one
/// call at its address, and otherwise nothing happens.
#[verifier::spinoff_prover]
pub proof fn law_arm_transfers(ops: Seq<u32>, n: nat, s: Cpu)
    requires
        n < ops.len(),
        is_transfer(ops[n as int]),
    ensures
        arm_item(ops[n as int]) is Some,
        ({
            let before = arm_block(ops, n, s);
            arm_block(ops, n + 1, s) == if condition_holds(
                code_field(ops[n as int]),
                before.cpsr,
            ) {
                transferred(ops[n as int], before)
            } else {
                before
            }
        }),
{
    let insn = ops[n as int];
    let before = arm_block(ops, n, s);
    lemma_transfer(insn);
    law_conditions(code_field(insn) as u32, before.cpsr);
    lemma_low_byte(before.gpr[rd_field(insn)]);
    lemma_low_byte((before.bus)(transferred(insn, before).calls));
}

/// The decoded form of a single transfer.
#[verifier::spinoff_prover]
proof fn lemma_transfer(insn: u32)
    requires
        is_transfer(insn),
    ensures
        arm_item(insn) == Some(
            BlockItem::Mem(
                (DecodedMem {
                    cond: ArmCond::named(code_field(insn) as u32),
                    load: has_bit(insn, 20),
                    byte: has_bit(insn, 22),
                    add: has_bit(insn, 23),
                    rd: rd_field(insn) as usize,
                    rn: rn_field(insn) as usize,
                    offset: (insn % 0x1000) as u32,
                }),
            ),
        ),
        0 <= code_field(insn) < 16,
        0 <= rd_field(insn) < 15,
        0 <= rn_field(insn) < 15,
{
    lemma_arm_fields(insn);
}

/// The calls that transfers make are requests to memory at the same address: one each, and an
/// internal cycle after a load. A word that is loaded from an address that is not a multiple of four
/// comes rotated, the addressed byte lowest.
#[verifier::spinoff_prover]
pub proof fn law_calls_are_requests<I: MemoryInterface>(c: CoreState<I>, addr: u32, v: u32)
    ensures
        ({
            let nonseq = MemoryAccess::NonSeq;
            let store = |to: Callee| <Arm7tdmiCore<I> as Bus>::next(
                c,
                BusCall { to, a: addr, b: v, c: 0 },
            );
            let load = |to: Callee| <Arm7tdmiCore<I> as Bus>::next(
                c,
                BusCall { to, a: addr, b: 0, c: 0 },
            );
            let answer = |to: Callee| <Arm7tdmiCore<I> as Bus>::reply(
                c,
                BusCall { to, a: addr, b: 0, c: 0 },
            );
            let word_load = Request::Load32(addr, nonseq);
            let byte_load = Request::Load8(addr, nonseq);
            let w = I::reply(c.bus, word_load);
            let k = (8 * (addr % 4)) as nat;
            &&& store(Callee::Store32) == (CoreState {
                bus: I::next(c.bus, Request::Store32(addr, v, nonseq)),
                ..c
            })
            &&& store(Callee::Store8) == (CoreState {
                bus: I::next(c.bus, Request::Store8(addr, (v % 256) as u8, nonseq)),
                ..c
            })
            &&& load(Callee::LoadWithIdle32) == (CoreState {
                bus: I::next(I::next(c.bus, word_load), Request::IdleCycle),
                ..c
            })
            &&& load(Callee::LoadWithIdle8) == (CoreState {
                bus: I::next(I::next(c.bus, byte_load), Request::IdleCycle),
                ..c
            })
            &&& answer(Callee::LoadWithIdle8) == I::reply(c.bus, byte_load)
            &&& answer(Callee::LoadWithIdle32) == if addr % 4 == 0 {
                w as int
            } else {
                w as int / (pow2(k) as int) + w as int % (pow2(k) as int) * pow2((32 - k) as nat)
            }
        }),
{
    lemma_cut(addr);
    if addr % 4 != 0 {
        let w = I::reply(c.bus, Request::Load32(addr, MemoryAccess::NonSeq));
        lemma_shifts(w, (8 * (addr % 4)) as u32);
    }
}

/// Whether an instruction is data processing of a supported kind: MOV, MVN, ADD or SUB, or CMP, CMN,
/// TST or TEQ with flags, with a rotated immediate or a plain register, and no use of R15.
pub open spec fn is_processing(insn: u32) -> bool {
    let op = op_field(insn);
    &&& code_field(insn) != 15
    &&& insn / 0x400_0000 % 4 == 0
    &&& rd_field(insn) != 15
    &&& rn_field(insn) != 15
    &&& has_bit(insn, 25) || (insn / 16 % 256 == 0 && insn % 16 != 15)
    &&& op == 13 || op == 15 || op == 4 || op == 2 || (8 <= op && op <= 11 && has_bit(insn, 20))
}

/// A byte rotated right by twice a number below 16.
pub open spec fn rotated_byte(b: int, turns: int) -> int {
    if turns == 0 {
        b
    } else {
        let p = pow2((2 * turns) as nat) as int;
        b / p + b % p * pow2((32 - 2 * turns) as nat)
    }
}

/// The second operand of data processing.
pub open spec fn second_operand(insn: u32, gpr: Seq<u32>) -> u32 {
    if has_bit(insn, 25) {
        rotated_byte(insn as int % 256, insn as int / 256 % 16) as u32
    } else {
        gpr[insn as int % 16]
    }
}

/// The result of data processing.
pub open spec fn processed_value(op: int, a: u32, b: u32) -> u32 {
    if op == 13 {
        b
    } else if op == 15 {
        wrapped(-1 - b)
    } else if op == 4 || op == 11 {
        wrapped(a + b)
    } else if op == 2 || op == 10 {
        wrapped(a - b)
    } else if op == 8 {
        a & b
    } else {
        a ^ b
    }
}

/// The carry and the overflow after data processing; operations on bits keep the overflow and have
/// the carry given.
pub open spec fn processed_carry(op: int, a: u32, b: u32, kept: bool) -> bool {
    if op == 4 || op == 11 {
        a + b >= 0x1_0000_0000
    } else if op == 2 || op == 10 {
        a >= b
    } else {
        kept
    }
}

pub open spec fn processed_overflow(op: int, a: u32, b: u32, kept: bool) -> bool {
    if op == 4 || op == 11 {
        too_wide(as_signed(a) + as_signed(b))
    } else if op == 2 || op == 10 {
        too_wide(as_signed(a) - as_signed(b))
    } else {
        kept
    }
}

/// The registers after data processing.
pub open spec fn processed_gpr(insn: u32, gpr: Seq<u32>) -> Seq<u32> {
    let op = op_field(insn);
    if 8 <= op && op <= 11 {
        gpr
    } else {
        gpr.update(
            rd_field(insn),
            processed_value(op, gpr[rn_field(insn)], second_operand(insn, gpr)),
        )
    }
}

/// The status word after data processing, where operations on bits take the carry `c`.
pub open spec fn processed_raw(insn: u32, gpr: Seq<u32>, raw: u32, c: bool) -> u32 {
    let op = op_field(insn);
    let a = gpr[rn_field(insn)];
    let b = second_operand(insn, gpr);
    if has_bit(insn, 20) {
        result_flags(
            raw,
            processed_value(op, a, b),
            processed_carry(op, a, b, c),
            processed_overflow(op, a, b, v_of(raw)),
        )
    } else {
        raw
    }
}

/// The decoded form of data processing.
#[verifier::spinoff_prover]
proof fn lemma_processing(insn: u32, gpr: Seq<u32>)
    requires
        is_processing(insn),
    ensures
        arm_dp(insn) is Some,
        arm_mem(insn) is None,
        0 <= code_field(insn) < 16,
        (bits(insn, 25, 1) == 1 && bits(insn, 8, 4) != 0) == (has_bit(insn, 25) && insn / 256 % 16
            != 0),
        ({
            let d = arm_dp(insn)->0;
            let op = op_field(insn);
            &&& d.cond == ArmCond::named(code_field(insn) as u32)
            &&& d.rd == rd_field(insn)
            &&& d.rn == rn_field(insn)
            &&& d.s == has_bit(insn, 20)
            &&& d.op == (if op == 13 {
                DpOp::Mov
            } else if op == 15 {
                DpOp::Mvn
            } else if op == 4 {
                DpOp::Add
            } else if op == 2 {
                DpOp::Sub
            } else if op == 10 {
                DpOp::Cmp
            } else if op == 11 {
                DpOp::Cmn
            } else if op == 8 {
                DpOp::Tst
            } else {
                DpOp::Teq
            })
            &&& second_operand(insn, gpr) == match d.operand2 {
                Operand2::Imm(v) => v,
                Operand2::Reg(r) => gpr[r as int],
            }
        }),
{
    lemma_arm_fields(insn);
    if has_bit(insn, 25) && insn / 256 % 16 != 0 {
        lemma_shifts((insn % 256) as u32, (2 * (insn / 256 % 16)) as u32);
    }
}

/// Which instructions a compiled ARM block may hold: data processing and single transfers, or data
/// processing alone with a branch at its end.
#[verifier::spinoff_prover]
pub proof fn law_what_arm_blocks_hold(insn: u32)
    ensures
        arm_dp(insn) is Some == is_processing(insn),
        arm_item(insn) is Some == (is_processing(insn) || is_transfer(insn)),
        arm_branch(insn) is Some == is_branch(insn),
{
    lemma_arm_fields(insn);
}

/// What the interpreter does on ARM data processing whose condition holds. Operations on bits take
/// the carry from a rotated immediate.
#[verifier::spinoff_prover]
pub proof fn law_arm_processing<I: MemoryInterface>(core: CoreState<I>, insn: u32)
    requires
        is_processing(insn),
    ensures
        ({
            let raw = core.cpsr.raw;
            let c = if has_bit(insn, 25) && insn / 256 % 16 != 0 {
                second_operand(insn, core.gpr) >= 0x8000_0000
            } else {
                c_of(raw)
            };
            core.arm_effect(insn) == (
                CoreState {
                    gpr: processed_gpr(insn, core.gpr),
                    cpsr: RegPSR { raw: processed_raw(insn, core.gpr, raw, c) },
                    ..core
                },
                CpuAction::AdvancePC(MemoryAccess::Sequential),
            )
        }),
{
    lemma_processing(insn, core.gpr);
    let raw = core.cpsr.raw;
    let a = core.gpr[rn_field(insn)];
    let b = second_operand(insn, core.gpr);
    lemma_flag_reads(raw);
    lemma_turned(b);
    lemma_top_bit(b);
    let op = op_field(insn);
    let r = processed_value(op, a, b);
    let c = operand_carry(insn, b, flag_c(raw));
    lemma_flagged(
        raw,
        r >= 0x8000_0000,
        r == 0,
        processed_carry(op, a, b, c),
        processed_overflow(op, a, b, v_of(raw)),
    );
}

/// What compiled code does on ARM data processing, wherever it stands in a block: nothing if its
/// condition does not hold, and otherwise what the operation says. Operations on bits keep the carry.
#[verifier::spinoff_prover]
pub proof fn law_compiled_arm_processing(ops: Seq<u32>, n: nat, s: Cpu)
    requires
        n < ops.len(),
        is_processing(ops[n as int]),
    ensures
        arm_dp(ops[n as int]) is Some,
        arm_item(ops[n as int]) is Some,
        ({
            let insn = ops[n as int];
            let done = |t: Cpu| if condition_holds(code_field(insn), t.cpsr) {
                Cpu {
                    gpr: processed_gpr(insn, t.gpr),
                    cpsr: processed_raw(insn, t.gpr, t.cpsr, c_of(t.cpsr)),
                    ..t
                }
            } else {
                t
            };
            &&& dp_block(ops, n + 1, s) == done(dp_block(ops, n, s))
            &&& arm_block(ops, n + 1, s) == done(arm_block(ops, n, s))
        }),
{
    let insn = ops[n as int];
    lemma_compiled_processing(insn, dp_block(ops, n, s));
    lemma_compiled_processing(insn, arm_block(ops, n, s));
}

proof fn lemma_compiled_processing(insn: u32, t: Cpu)
    requires
        is_processing(insn),
    ensures
        arm_dp(insn) is Some,
        arm_mem(insn) is None,
        exec_dp(arm_dp(insn)->0, t) == if condition_holds(code_field(insn), t.cpsr) {
            Cpu {
                gpr: processed_gpr(insn, t.gpr),
                cpsr: processed_raw(insn, t.gpr, t.cpsr, c_of(t.cpsr)),
                ..t
            }
        } else {
            t
        },
{
    lemma_processing(insn, t.gpr);
    law_conditions(code_field(insn) as u32, t.cpsr);
    lemma_compiled_body(insn, arm_dp(insn)->0, t);
}

/// Data processing whose condition holds, over its decoded form.
#[verifier::spinoff_prover]
proof fn lemma_compiled_body(insn: u32, d: DecodedDp, t: Cpu)
    requires
        is_processing(insn),
        arm_dp(insn) == Some(d),
    ensures
        exec_dp_body(d, t) == (Cpu {
            gpr: processed_gpr(insn, t.gpr),
            cpsr: processed_raw(insn, t.gpr, t.cpsr, c_of(t.cpsr)),
            ..t
        }),
{
    lemma_processing(insn, t.gpr);
    let a = t.gpr[rn_field(insn)];
    let b = second_operand(insn, t.gpr);
    lemma_operation(d.op, op_field(insn), t.cpsr, a, b);
}

/// The results and flags of the operations.
#[verifier::spinoff_prover]
proof fn lemma_operation(op: DpOp, k: int, raw: u32, a: u32, b: u32)
    requires
        op == DpOp::Mov <==> k == 13,
        op == DpOp::Mvn <==> k == 15,
        op == DpOp::Add <==> k == 4,
        op == DpOp::Sub <==> k == 2,
        op == DpOp::Cmp <==> k == 10,
        op == DpOp::Cmn <==> k == 11,
        op == DpOp::Tst <==> k == 8,
        op == DpOp::Teq <==> k == 9,
    ensures
        dp_result(op, a, b) == processed_value(k, a, b),
        dp_flags(op, raw, a, b, dp_result(op, a, b)) == result_flags(
            raw,
            processed_value(k, a, b),
            processed_carry(k, a, b, c_of(raw)),
            processed_overflow(k, a, b, v_of(raw)),
        ),
{
    lemma_flag_reads(raw);
    lemma_turned(b);
    let r = processed_value(k, a, b);
    assert(dp_result(op, a, b) == r);
    lemma_flagged(
        raw,
        r >= 0x8000_0000,
        r == 0,
        processed_carry(k, a, b, c_of(raw)),
        processed_overflow(k, a, b, v_of(raw)),
    );
}

/// Whether an instruction is a branch, with or without link.
pub open spec fn is_branch(insn: u32) -> bool {
    code_field(insn) != 15 && insn / 0x200_0000 % 8 == 5
}

/// How many bytes a branch goes from eight bytes after it: the low 24 bits, signed, times four.
pub open spec fn branch_distance(insn: u32) -> int {
    let k = insn as int % 0x100_0000;
    if k >= 0x80_0000 {
        4 * (k - 0x100_0000)
    } else {
        4 * k
    }
}

/// An ARM branch whose condition holds jumps from the program counter, which is two instructions
/// ahead. With bit 24 set the address of the next instruction goes to R14.
#[verifier::spinoff_prover]
pub proof fn law_arm_branches<I: MemoryInterface>(core: CoreState<I>, insn: u32)
    requires
        is_branch(insn),
    ensures
        ({
            let target = wrapped(core.pc + branch_distance(insn));
            let gpr = if has_bit(insn, 24) {
                core.gpr.update(14, wrapped(core.pc - 4))
            } else {
                core.gpr
            };
            let first = Request::Load32(target, MemoryAccess::NonSeq);
            let second = Request::Load32(wrapped(target + 4), MemoryAccess::Sequential);
            core.arm_effect(insn) == (
                CoreState {
                    gpr,
                    bus: I::next(I::next(core.bus, first), second),
                    pipeline: seq![
                        I::reply(core.bus, first),
                        I::reply(I::next(core.bus, first), second),
                    ],
                    pc: wrapped(target + 8),
                    next_fetch_access: MemoryAccess::Sequential,
                    ..core
                },
                CpuAction::PipelineFlushed,
            )
        }),
{
    lemma_branch(insn);
    lemma_refilled(
        CoreState {
            gpr: if has_bit(insn, 24) {
                core.gpr.update(14, wrapped(core.pc - 4))
            } else {
                core.gpr
            },
            ..core
        },
        wrapped(core.pc + branch_distance(insn)),
    );
}

/// The pipeline refilled from an address in ARM state.
pub proof fn lemma_refilled<I: MemoryInterface>(core: CoreState<I>, target: u32)
    ensures
        ({
            let first = Request::Load32(target, MemoryAccess::NonSeq);
            let second = Request::Load32(wrapped(target + 4), MemoryAccess::Sequential);
            core.with_pc(target).reloaded32() == (CoreState {
                bus: I::next(I::next(core.bus, first), second),
                pipeline: seq![
                    I::reply(core.bus, first),
                    I::reply(I::next(core.bus, first), second),
                ],
                pc: wrapped(target + 8),
                next_fetch_access: MemoryAccess::Sequential,
                ..core
            })
        }),
{
}

/// A branch at the end of a compiled block tells its target and the link register if its condition
/// holds, and otherwise nothing happens.
#[verifier::spinoff_prover]
pub proof fn law_compiled_arm_branches(ops: Seq<u32>, entry_pc: u32, s: Cpu)
    requires
        ops.len() > 0,
        is_branch(ops.last()),
    ensures
        ({
            let insn = ops.last();
            let n = (ops.len() - 1) as nat;
            let t = dp_block(ops, n, s);
            let pc = entry_pc + 4 * n;
            branch_block(ops, entry_pc, s) == if condition_holds(code_field(insn), t.cpsr) {
                Cpu {
                    gpr: if has_bit(insn, 24) {
                        t.gpr.update(14, wrapped(pc + 4))
                    } else {
                        t.gpr
                    },
                    pc_out: wrapped(pc + 8 + branch_distance(insn)),
                    took: 1,
                    ..t
                }
            } else {
                t
            }
        }),
{
    let insn = ops.last();
    lemma_branch(insn);
    let t = dp_block(ops, (ops.len() - 1) as nat, s);
    law_conditions(code_field(insn) as u32, t.cpsr);
    lemma_places(entry_pc, (ops.len() - 1) as nat, branch_distance(insn));
}

/// Addresses in a block of ARM instructions.
proof fn lemma_places(entry_pc: u32, n: nat, distance: int)
    ensures
        word(entry_pc + 4 * n).wrapping_add(4) == wrapped(entry_pc + 4 * n + 4),
        word(word(entry_pc + 4 * n).wrapping_add(8) + distance) == wrapped(
            entry_pc + 4 * n + 8 + distance,
        ),
{
}

/// The decoded form of a branch.
#[verifier::spinoff_prover]
proof fn lemma_branch(insn: u32)
    requires
        is_branch(insn),
    ensures
        arm_dp(insn) is None,
        0 <= code_field(insn) < 16,
        -0x200_0000 <= branch_distance(insn) < 0x200_0000,
        ({
            let d = arm_branch(insn);
            &&& d is Some
            &&& d->0.cond == ArmCond::named(code_field(insn) as u32)
            &&& d->0.link == has_bit(insn, 24)
            &&& 4 * d->0.offset24_signed == branch_distance(insn)
        }),
{
    lemma_arm_fields(insn);
}

} // verus!
