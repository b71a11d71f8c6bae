//! Compiled code does what the interpreter does.

use vstd::prelude::*;
use crate::alu::{BarrelShiftOpCode, shifted};
use crate::bits::{
    C_MASK, N_MASK, V_MASK, Z_MASK, add_carries, add_overflows, bit, bits, flag_c, flag_v,
    lemma_bits_range, mask_if, negative, sshr, sub_overflows, with_nzcv, word,
};
use crate::cond::ArmCond;
use crate::cpu::{Arm7tdmiCore, CoreState, CpuAction};
use crate::dynarec::arm::{all_dp, dp_block};
use crate::dynarec::bus::{Bus, after_calls, last_reply};
use crate::dynarec::decode::{DpOp, ShiftKind, arm_dp};
use crate::dynarec::ir::{BusCall, Callee, Cpu};
use crate::dynarec::sem::{dp_result, exec_dp, operand2_value, shift_carry, shift_result};
use crate::dynarec::thumb::{Body, all_alu, alu_block, alu_item, exec_body};
use crate::interpreter::{Remaining, effect_of, logical};
use crate::memory::{MemoryAccess, MemoryInterface};

verus! {

/// Whether a core and a compiled block's state hold the same registers and status word.
pub open spec fn same_guest<I: MemoryInterface>(core: CoreState<I>, s: Cpu) -> bool {
    core.gpr == s.gpr && core.cpsr.raw == s.cpsr
}

/// A core with the registers and the status word of another.
pub open spec fn with_guest<I: MemoryInterface>(
    core: CoreState<I>,
    from: CoreState<I>,
) -> CoreState<
    I,
> {
    CoreState { gpr: from.gpr, cpsr: from.cpsr, ..core }
}

/// How the opcode fields of the Thumb formats overlap.
pub proof fn lemma_thumb_fields(op: u16)
    ensures
        bits(op as u32, 11, 5) == 0b00011 ==> bits(op as u32, 13, 3) == 0 && bits(op as u32, 11, 2)
            == 3,
        bits(op as u32, 10, 6) == 0b010000 ==> bits(op as u32, 13, 3) == 0b010,
        bits(op as u32, 10, 6) == 0b010001 ==> bits(op as u32, 13, 3) == 0b010,
{
    let x = op as u32;
    assert((bits(x, 11, 5) == 0b00011 ==> bits(x, 13, 3) == 0 && bits(x, 11, 2) == 3) && (bits(
        x,
        10,
        6,
    ) == 0b010000 ==> bits(x, 13, 3) == 0b010) && (bits(x, 10, 6) == 0b010001 ==> bits(x, 13, 3)
        == 0b010)) by (bit_vector);
}

/// The two ways to say that a word is shifted right arithmetically by all its bits.
proof fn lemma_sign_fill(x: u32)
    ensures
        sshr(x, 31) == if bit(x, 31) {
            0xffff_ffffu32
        } else {
            0
        },
{
    assert((if x < 0x8000_0000 {
        x >> 31u32
    } else {
        !((!x) >> 31u32)
    }) == if (x >> 31u32) & 1 == 1 {
        0xffff_ffffu32
    } else {
        0
    }) by (bit_vector);
}

/// The recompiler's shifter is the barrel shifter.
proof fn lemma_shifts_agree(kind: ShiftKind, n: u32, x: u32, c: bool)
    requires
        n < 32,
    ensures
        (shift_result(kind, n, x), shift_carry(kind, n, x, c)) == shifted(
            match kind {
                ShiftKind::Lsl => BarrelShiftOpCode::LSL,
                ShiftKind::Lsr => BarrelShiftOpCode::LSR,
                ShiftKind::Asr => BarrelShiftOpCode::ASR,
            },
            x,
            n,
            c,
            true,
        ),
{
    lemma_sign_fill(x);
    assert(x << 0u32 == x) by (bit_vector);
}

/// A data-processing instruction has the same effect on registers and flags in compiled code and
/// in the interpreter.
pub proof fn law_thumb_instruction_agrees<I: MemoryInterface>(
    core: CoreState<I>,
    op: u16,
    pc: u32,
    s: Cpu,
)
    requires
        alu_item(op) is Some,
        same_guest(core, s),
    ensures
        same_guest(
            core.thumb_effect::<Remaining>(op as u32).0,
            exec_body(alu_item(op)->0, pc, s),
        ),
        core.thumb_effect::<Remaining>(op as u32).1 == CpuAction::AdvancePC(
            MemoryAccess::Sequential,
        ),
{
    reveal(exec_body);
    let x = op as u32;
    lemma_thumb_fields(op);
    lemma_bits_range(x, 6, 5);
    lemma_bits_range(x, 6, 4);
    lemma_bits_range(x, 0, 3);
    lemma_bits_range(x, 3, 3);
    lemma_bits_range(x, 7, 1);
    lemma_bits_range(x, 6, 1);
    lemma_bits_range(x, 11, 2);
    lemma_bits_range(x, 8, 2);
    match alu_item(op)->0 {
        Body::F1(d) => {
            lemma_shifts_agree(d.kind, d.imm5, s.reg(d.rs), flag_c(s.cpsr));
        },
        _ => {},
    }
}

/// The interpreter's state after the first `n` instructions of a Thumb block at `pc`.
#[verifier::opaque]
pub open spec fn interpreted<I: MemoryInterface>(
    core: CoreState<I>,
    ops: Seq<u16>,
    pc: u32,
    n: nat,
) -> CoreState<I>
    decreases n,
{
    if n == 0 {
        core
    } else {
        interpreted(core, ops, pc, (n - 1) as nat).thumb_stepped::<Remaining>(
            word(pc + 4 + 2 * (n - 1)),
            ops[n - 1] as u32,
        ).0
    }
}

/// A whole block of Thumb data processing leaves the same registers and flags whether it is
/// compiled or interpreted instruction by instruction.
pub proof fn law_thumb_block_agrees<I: MemoryInterface>(
    core: CoreState<I>,
    ops: Seq<u16>,
    pc: u32,
    n: nat,
    s: Cpu,
)
    requires
        n <= ops.len(),
        all_alu(ops),
        same_guest(core, s),
    ensures
        same_guest(interpreted(core, ops, pc, n), alu_block(ops, n, s)),
    decreases n,
{
    reveal(interpreted);
    if n > 0 {
        let k = (n - 1) as nat;
        law_thumb_block_agrees(core, ops, pc, k, s);
        let at = word(pc + 4 + 2 * k);
        assert(alu_item(ops[k as int]) is Some);
        law_thumb_instruction_agrees(
            interpreted(core, ops, pc, k).fetched16(at).with_pc(at),
            ops[k as int],
            0,
            alu_block(ops, k, s),
        );
    }
}

/// The interpreter's data processing changes registers and flags and nothing else.
pub proof fn lemma_alu_is_quiet<I: MemoryInterface>(core: CoreState<I>, op: u16)
    requires
        alu_item(op) is Some,
    ensures
        effect_of(core, op).1 == CpuAction::AdvancePC(MemoryAccess::Sequential),
        effect_of(core, op).0 == with_guest(core, effect_of(core, op).0),
{
    reveal(effect_of);
    let x = op as u32;
    lemma_thumb_fields(op);
    lemma_bits_range(x, 6, 4);
    lemma_bits_range(x, 11, 2);
    lemma_bits_range(x, 8, 2);
}

/// Addresses wrap once or twice to the same effect.
proof fn lemma_pc_wraps(pc: u32, k: int)
    ensures
        word(pc + 4 + 2 * k) == word(pc.wrapping_add(4) + 2 * k),
{
}

/// The last of some interpreted instructions is a step from the others.
pub proof fn lemma_unfold<I: MemoryInterface>(core: CoreState<I>, ops: Seq<u16>, pc: u32, n: nat)
    requires
        0 < n <= ops.len(),
    ensures
        ({
            let at = word(pc.wrapping_add(4) + 2 * (n - 1));
            interpreted(core, ops, pc, n) == CoreState::concluded(
                effect_of(
                    interpreted(core, ops, pc, (n - 1) as nat).fetched16(at).with_pc(at),
                    ops[n - 1],
                ),
                at,
                2,
            ).0
        }),
{
    let at = word(pc + 4 + 2 * (n - 1));
    lemma_pc_wraps(pc, n - 1);
    let before = interpreted(core, ops, pc, (n - 1) as nat);
    assert(interpreted(core, ops, pc, n) == before.thumb_stepped::<Remaining>(
        at,
        ops[n - 1] as u32,
    ).0) by {
        reveal(interpreted);
    }
    let from = before.fetched16(at).with_pc(at);
    assert(effect_of(from, ops[n - 1]) == from.thumb_effect::<Remaining>(ops[n - 1] as u32)) by {
        reveal(effect_of);
    }
}

/// An instruction that changes no more than registers and flags keeps two cores alike in the rest.
proof fn lemma_step_fetches<I: MemoryInterface>(
    before: CoreState<I>,
    behind: CoreState<I>,
    done: CoreState<I>,
    at: u32,
)
    requires
        before == with_guest(behind, before),
        done == with_guest(before.fetched16(at).with_pc(at), done),
    ensures
        ({
            let after = CoreState::concluded(
                (done, CpuAction::AdvancePC(MemoryAccess::Sequential)),
                at,
                2,
            ).0;
            after == with_guest(
                behind.fetched16(at).with_fetch(MemoryAccess::Sequential).with_pc(
                    at.wrapping_add(2),
                ),
                after,
            )
        }),
{
}

/// A block of Thumb data processing leaves the bus, the pipeline, the program counter and the next
/// access as the fetches of a compiled block do: fetching all its instructions first is the same
/// as fetching them one by one.
pub proof fn law_fetching_ahead_agrees<I: MemoryInterface>(
    core: CoreState<I>,
    ops: Seq<u16>,
    pc: u32,
    n: nat,
)
    requires
        core.shaped(),
        n <= ops.len(),
        all_alu(ops),
    ensures
        interpreted(core, ops, pc, n) == with_guest(
            core.fetched_n(pc.wrapping_add(4), n),
            interpreted(core, ops, pc, n),
        ),
    decreases n,
{
    if n == 0 {
        reveal(interpreted);
    } else {
        let k = (n - 1) as nat;
        law_fetching_ahead_agrees(core, ops, pc, k);
        let before = interpreted(core, ops, pc, k);
        let at = word(pc.wrapping_add(4) + 2 * k);
        assert(alu_item(ops[k as int]) is Some);
        lemma_alu_is_quiet(before.fetched16(at).with_pc(at), ops[k as int]);
        lemma_step_fetches(
            before,
            core.fetched_n(pc.wrapping_add(4), k),
            effect_of(before.fetched16(at).with_pc(at), ops[k as int]).0,
            at,
        );
        lemma_unfold(core, ops, pc, n);
    }
}

/// Whether an ARM instruction is unconditional data processing.
pub open spec fn plain_dp(insn: u32) -> bool {
    arm_dp(insn) is Some && arm_dp(insn)->0.cond == ArmCond::Al
}

/// Whether an ARM instruction takes its carry from a rotated immediate.
pub open spec fn shifter_sets_carry(insn: u32) -> bool {
    arm_dp(insn)->0.s && logical(arm_dp(insn)->0.op) && bits(insn, 25, 1) == 1 && bits(insn, 8, 4)
        != 0
}

/// The four condition flags of a status word.
pub open spec fn nzcv(cpsr: u32) -> u32 {
    cpsr & 0xf000_0000
}

/// Status words with equal flags still have equal flags after the same flags were written, and
/// their flags read alike.
proof fn lemma_nzcv(a: u32, b: u32, n: bool, z: bool, c: bool, v: bool)
    ensures
        nzcv(with_nzcv(a, n, z, c, v)) == nzcv(with_nzcv(b, n, z, c, v)),
        nzcv(a) == nzcv(b) ==> flag_c(a) == flag_c(b) && flag_v(a) == flag_v(b),
{
    let nb = mask_if(n, N_MASK);
    let zb = mask_if(z, Z_MASK);
    let cb = mask_if(c, C_MASK);
    let vb = mask_if(v, V_MASK);
    assert(((a & 0x0fff_ffff) | nb | zb | cb | vb) & 0xf000_0000 == ((b & 0x0fff_ffff) | nb | zb
        | cb | vb) & 0xf000_0000) by (bit_vector);
    assert(a & 0xf000_0000 == b & 0xf000_0000 ==> a & 0x2000_0000 == b & 0x2000_0000 && a
        & 0x1000_0000 == b & 0x1000_0000) by (bit_vector);
}

/// ARM data processing whose condition holds writes the same registers in compiled code and in the
/// interpreter, and the same flags unless the carry comes from a rotated immediate.
pub proof fn law_arm_instruction_agrees<I: MemoryInterface>(core: CoreState<I>, insn: u32, s: Cpu)
    requires
        arm_dp(insn) is Some,
        arm_dp(insn)->0.cond.passes(s.cpsr),
        core.gpr == s.gpr,
    ensures
        core.arm_effect(insn).0.gpr == exec_dp(arm_dp(insn)->0, s).gpr,
        !shifter_sets_carry(insn) && nzcv(core.cpsr.raw) == nzcv(s.cpsr) ==> nzcv(
            core.arm_effect(insn).0.cpsr.raw,
        ) == nzcv(exec_dp(arm_dp(insn)->0, s).cpsr),
{
    let d = arm_dp(insn)->0;
    let x = s.reg(d.rn);
    let y = operand2_value(d.operand2, s);
    let r = dp_result(d.op, x, y);
    let a = core.cpsr.raw;
    let b = s.cpsr;
    if nzcv(a) == nzcv(b) {
        if d.op == DpOp::Add || d.op == DpOp::Cmn {
            lemma_nzcv(a, b, negative(r), r == 0, add_carries(x, y), add_overflows(x, y));
        } else if d.op == DpOp::Sub || d.op == DpOp::Cmp {
            lemma_nzcv(a, b, negative(r), r == 0, x >= y, sub_overflows(x, y));
        } else {
            lemma_nzcv(a, b, negative(r), r == 0, flag_c(a), flag_v(a));
        }
    }
}

/// The interpreter's state after the first `n` handlers of an ARM block.
pub open spec fn arm_interpreted<I: MemoryInterface>(
    core: CoreState<I>,
    ops: Seq<u32>,
    n: nat,
) -> CoreState<I>
    decreases n,
{
    if n == 0 {
        core
    } else {
        arm_interpreted(core, ops, (n - 1) as nat).arm_effect(ops[n - 1]).0
    }
}

/// A whole block of unconditional ARM data processing writes the same registers whether it is
/// compiled or interpreted, and the same flags if no carry comes from a rotated immediate.
pub proof fn law_arm_block_agrees<I: MemoryInterface>(
    core: CoreState<I>,
    ops: Seq<u32>,
    n: nat,
    s: Cpu,
)
    requires
        n <= ops.len(),
        forall|i: int| 0 <= i < ops.len() ==> #[trigger] plain_dp(ops[i]),
        core.gpr == s.gpr,
    ensures
        arm_interpreted(core, ops, n).gpr == dp_block(ops, n, s).gpr,
        (nzcv(core.cpsr.raw) == nzcv(s.cpsr) && forall|i: int|
            0 <= i < ops.len() ==> !#[trigger] shifter_sets_carry(ops[i])) ==> nzcv(
            arm_interpreted(core, ops, n).cpsr.raw,
        ) == nzcv(dp_block(ops, n, s).cpsr),
    decreases n,
{
    if n > 0 {
        let k = (n - 1) as nat;
        law_arm_block_agrees(core, ops, k, s);
        assert(plain_dp(ops[k as int]));
        law_arm_instruction_agrees(
            arm_interpreted(core, ops, k),
            ops[k as int],
            dp_block(ops, k, s),
        );
    }
}

/// Conditions depend on the condition flags only.
proof fn lemma_condition(cond: ArmCond, a: u32, b: u32)
    requires
        nzcv(a) == nzcv(b),
    ensures
        cond.passes(a) == cond.passes(b),
{
    assert(a & 0xf000_0000 == b & 0xf000_0000 ==> a & 0x8000_0000 == b & 0x8000_0000 && a
        & 0x4000_0000 == b & 0x4000_0000 && a & 0x2000_0000 == b & 0x2000_0000 && a & 0x1000_0000
        == b & 0x1000_0000) by (bit_vector);
}

/// An ARM instruction in the interpreter: passed over if its condition does not hold.
pub open spec fn arm_taken<I: MemoryInterface>(core: CoreState<I>, insn: u32) -> CoreState<I> {
    if ArmCond::named(bits(insn, 28, 4)).passes(core.cpsr.raw) {
        core.arm_effect(insn).0
    } else {
        core
    }
}

/// The interpreter's state after the first `n` instructions of an ARM block.
pub open spec fn arm_run<I: MemoryInterface>(
    core: CoreState<I>,
    ops: Seq<u32>,
    n: nat,
) -> CoreState<
    I,
>
    decreases n,
{
    if n == 0 {
        core
    } else {
        arm_taken(arm_run(core, ops, (n - 1) as nat), ops[n - 1])
    }
}

/// A block of ARM data processing, conditional or not, leaves the same registers and flags whether
/// it is compiled or interpreted, if no carry comes from a rotated immediate.
pub proof fn law_conditional_arm_block_agrees<I: MemoryInterface>(
    core: CoreState<I>,
    ops: Seq<u32>,
    n: nat,
    s: Cpu,
)
    requires
        n <= ops.len(),
        all_dp(ops),
        forall|i: int| 0 <= i < ops.len() ==> !#[trigger] shifter_sets_carry(ops[i]),
        core.gpr == s.gpr,
        nzcv(core.cpsr.raw) == nzcv(s.cpsr),
    ensures
        arm_run(core, ops, n).gpr == dp_block(ops, n, s).gpr,
        nzcv(arm_run(core, ops, n).cpsr.raw) == nzcv(dp_block(ops, n, s).cpsr),
    decreases n,
{
    if n > 0 {
        let k = (n - 1) as nat;
        law_conditional_arm_block_agrees(core, ops, k, s);
        let before = arm_run(core, ops, k);
        let t = dp_block(ops, k, s);
        let insn = ops[k as int];
        assert(arm_dp(ops[k as int]) is Some);
        assert(!shifter_sets_carry(ops[k as int]));
        lemma_condition(arm_dp(insn)->0.cond, before.cpsr.raw, t.cpsr);
        if arm_dp(insn)->0.cond.passes(t.cpsr) {
            law_arm_instruction_agrees(before, insn, t);
        }
    }
}

/// The core on which compiled code has come to the state `s`, started on `start`.
pub open spec fn core_behind<I: MemoryInterface>(start: CoreState<I>, s: Cpu) -> CoreState<I> {
    after_calls::<Arm7tdmiCore<I>>(start, s.calls)
}

/// One more call changes the core behind a state by that call.
pub proof fn lemma_core_behind<I: MemoryInterface>(
    start: CoreState<I>,
    s: Cpu,
    to: Callee,
    a: u32,
    b: u32,
    c: u32,
)
    requires
        s.bus == (|calls: Seq<BusCall>| last_reply::<Arm7tdmiCore<I>>(start, calls)),
    ensures
        core_behind(start, s.called(to, a, b, c)) == <Arm7tdmiCore<I> as Bus>::next(
            core_behind(start, s),
            BusCall { to, a, b, c },
        ),
        s.called(to, a, b, c).answer() == <Arm7tdmiCore<I> as Bus>::reply(
            core_behind(start, s),
            BusCall { to, a, b, c },
        ),
{
    assert(s.calls.push(BusCall { to, a, b, c }).drop_last() =~= s.calls);
}

} // verus!
