//! When an instruction runs, and what a step does with one that does not.

use vstd::prelude::*;
use crate::bits::{bits, negative, sub_flags, sub_overflows};
use crate::cache::DecodedInstr;
use crate::cond::ArmCond;
use crate::cpu::{CoreState, CpuAction, DebugState, ExecutedInstr};
use crate::fastpath::{Handlers, arm_slot_of};
use crate::laws::words::{
    as_signed, c_of, lemma_cut, lemma_field, lemma_flag_reads, lemma_flagged, lemma_set_bit, n_of,
    too_wide, v_of, wrapped, z_of,
};
use crate::memory::{MemoryAccess, MemoryInterface, Request};
use vstd::arithmetic::power2::lemma2_to64;

verus! {

/// Whether a condition code holds of the flags of a status word.
pub open spec fn condition_holds(code: int, raw: u32) -> bool {
    let (n, z, c, v) = (n_of(raw), z_of(raw), c_of(raw), v_of(raw));
    if code >= 14 {
        code == 14
    } else if code % 2 == 0 {
        condition_met(code, n, z, c, v)
    } else {
        !condition_met(code - 1, n, z, c, v)
    }
}

/// Whether an even condition code below 14 holds of given flags.
pub open spec fn condition_met(code: int, n: bool, z: bool, c: bool, v: bool) -> bool {
    if code == 0 {
        z
    } else if code == 2 {
        c
    } else if code == 4 {
        n
    } else if code == 6 {
        v
    } else if code == 8 {
        c && !z
    } else if code == 10 {
        n == v
    } else {
        !z && n == v
    }
}

/// The conditions by their codes. An odd code below 15 is the opposite of the code before it.
pub proof fn law_conditions(code: u32, raw: u32)
    requires
        code < 16,
    ensures
        ArmCond::named(code).passes(raw) == condition_holds(code as int, raw),
        code % 2 == 0 && code < 14 ==> ArmCond::named((code + 1) as u32).passes(raw)
            == !ArmCond::named(code).passes(raw),
{
    lemma_flag_reads(raw);
}

/// After a comparison of two words the conditions say how the words compare, unsigned and signed.
pub proof fn law_conditions_after_a_comparison(raw: u32, a: u32, b: u32)
    ensures
        ({
            let after = sub_flags(raw, a, b);
            &&& ArmCond::Eq.passes(after) == (a == b)
            &&& ArmCond::Ne.passes(after) == (a != b)
            &&& ArmCond::Hs.passes(after) == (a >= b)
            &&& ArmCond::Lo.passes(after) == (a < b)
            &&& ArmCond::Hi.passes(after) == (a > b)
            &&& ArmCond::Ls.passes(after) == (a <= b)
            &&& ArmCond::Ge.passes(after) == (as_signed(a) >= as_signed(b))
            &&& ArmCond::Lt.passes(after) == (as_signed(a) < as_signed(b))
            &&& ArmCond::Gt.passes(after) == (as_signed(a) > as_signed(b))
            &&& ArmCond::Le.passes(after) == (as_signed(a) <= as_signed(b))
            &&& ArmCond::Vs.passes(after) == too_wide(as_signed(a) - as_signed(b))
            &&& ArmCond::Mi.passes(after) == (wrapped(a - b) >= 0x8000_0000)
        }),
{
    let r = a.wrapping_sub(b);
    lemma_flagged(raw, negative(r), r == 0, a >= b, sub_overflows(a, b));
    lemma_flag_reads(sub_flags(raw, a, b));
}

/// The state after the fetch that every ARM step makes.
pub open spec fn arm_fetched<I: MemoryInterface>(s: CoreState<I>, at: u32) -> CoreState<I> {
    let request = Request::Load32(at, s.next_fetch_access);
    CoreState {
        bus: I::next(s.bus, request),
        pipeline: seq![s.pipeline[1], I::reply(s.bus, request)],
        ..s
    }
}

/// The state after the fetch that every Thumb step makes.
pub open spec fn thumb_fetched<I: MemoryInterface>(s: CoreState<I>, at: u32) -> CoreState<I> {
    let request = Request::Load16(at, s.next_fetch_access);
    CoreState {
        bus: I::next(s.bus, request),
        pipeline: seq![s.pipeline[1], I::reply(s.bus, request)],
        ..s
    }
}

/// The state after an ARM instruction that is passed over.
pub open spec fn passed_over<I: MemoryInterface>(s: CoreState<I>, at: u32, pc: u32) -> CoreState<I> {
    CoreState {
        pc: wrapped(pc + 4),
        next_fetch_access: MemoryAccess::NonSeq,
        ..arm_fetched(s, at)
    }
}

/// The fields of a word that choose the handler of an ARM instruction and its condition.
proof fn lemma_arm_slot(insn: u32)
    ensures
        bits(insn, 28, 4) == insn / 0x1000_0000,
        arm_slot_of(insn) == 16 * (insn / 0x10_0000 % 256) + insn / 16 % 16,
{
    lemma2_to64();
    lemma_field(insn, 28, 4);
    lemma_field(insn, 20, 8);
    lemma_field(insn, 4, 4);
}

/// An ARM instruction whose condition does not hold is passed over, whatever its handler would do:
/// a step makes the one fetch, moves the pipeline and the program counter on, makes the next fetch
/// non-sequential and changes nothing else. So does the replay of a block, the recording of one,
/// which takes note of the instruction, and a step of a block that was compiled ahead of time.
pub proof fn law_failed_condition_is_passed_over<I: MemoryInterface, H: Handlers<I>>(
    s: CoreState<I>,
    raw: u32,
    at: u32,
)
    requires
        s.cpsr.raw / 32 % 2 == 0,
        !condition_holds(s.pipeline[0] as int / 0x1000_0000, s.cpsr.raw),
    ensures
        ({
            let insn = s.pipeline[0];
            let here = (s.pc - s.pc % 4) as u32;
            let after = passed_over(s, here, s.pc);
            &&& s.stepped::<H>() == after
            &&& s.replayed_one::<H>(DecodedInstr::Arm { raw }) == (after, false)
            &&& s.recorded_one::<H>(false) == (
                CoreState {
                    cache: s.cache.recorded(DecodedInstr::Arm { raw: insn }),
                    ..after
                },
                false,
            )
            &&& s.arm_stepped::<H>(at, insn) == (passed_over(s, at, at), 0u32)
        }),
{
    let insn = s.pipeline[0];
    lemma_set_bit(s.cpsr.raw);
    lemma_cut(s.pc);
    lemma_arm_slot(insn);
    law_conditions((insn / 0x1000_0000) as u32, s.cpsr.raw);
}

/// What a step makes of the outcome of a handler: on to the next instruction, or nothing more where
/// the pipeline was refilled.
pub open spec fn after_handler<I: MemoryInterface>(
    done: (CoreState<I>, CpuAction),
    size: int,
) -> (CoreState<I>, bool) {
    match done.1 {
        CpuAction::AdvancePC(access) => (
            CoreState { pc: wrapped(done.0.pc + size), next_fetch_access: access, ..done.0 },
            false,
        ),
        CpuAction::PipelineFlushed => (done.0, true),
    }
}

/// An ARM instruction whose condition holds is run by its handler after the fetch. A single step
/// notes it with its address and the registers before it.
pub proof fn law_arm_handler_runs<I: MemoryInterface, H: Handlers<I>>(s: CoreState<I>)
    requires
        s.cpsr.raw / 32 % 2 == 0,
        condition_holds(s.pipeline[0] as int / 0x1000_0000, s.cpsr.raw),
    ensures
        ({
            let insn = s.pipeline[0];
            let slot = (16 * (insn / 0x10_0000 % 256) + insn / 16 % 16) as usize;
            let here = (s.pc - s.pc % 4) as u32;
            let note = ExecutedInstr {
                instr: DecodedInstr::Arm { raw: insn },
                pc: wrapped(s.pc - 8),
            };
            let noted = CoreState {
                dbg: DebugState { gpr_previous: s.gpr, last_executed: Some(note), ..s.dbg },
                ..s
            };
            &&& s.stepped::<H>() == after_handler(
                H::arm_done(slot, arm_fetched(noted, here), insn),
                4,
            ).0
            &&& s.replayed_one::<H>(DecodedInstr::Arm { raw: insn }) == after_handler(
                H::arm_done(slot, arm_fetched(s, here), insn),
                4,
            )
        }),
{
    let insn = s.pipeline[0];
    lemma_set_bit(s.cpsr.raw);
    lemma_cut(s.pc);
    lemma_arm_slot(insn);
    law_conditions((insn / 0x1000_0000) as u32, s.cpsr.raw);
}

/// A Thumb instruction is run by its handler after the fetch.
pub proof fn law_thumb_handler_runs<I: MemoryInterface, H: Handlers<I>>(s: CoreState<I>)
    requires
        s.cpsr.raw / 32 % 2 == 1,
        s.pipeline[0] < 0x1_0000,
    ensures
        ({
            let insn = s.pipeline[0];
            let slot = (insn / 64) as usize;
            let here = (s.pc - s.pc % 2) as u32;
            let note = ExecutedInstr {
                instr: DecodedInstr::Thumb { raw: insn as u16 },
                pc: wrapped(s.pc - 4),
            };
            let noted = CoreState {
                dbg: DebugState { gpr_previous: s.gpr, last_executed: Some(note), ..s.dbg },
                ..s
            };
            &&& s.stepped::<H>() == after_handler(
                H::thumb_done(slot, thumb_fetched(noted, here), insn as u16),
                2,
            ).0
            &&& s.replayed_one::<H>(DecodedInstr::Thumb { raw: insn as u16 }) == after_handler(
                H::thumb_done(slot, thumb_fetched(s, here), insn as u16),
                2,
            )
        }),
{
    let insn = s.pipeline[0];
    lemma_set_bit(s.cpsr.raw);
    lemma_cut(s.pc);
    lemma2_to64();
    lemma_field(insn, 6, 10);
}

} // verus!
