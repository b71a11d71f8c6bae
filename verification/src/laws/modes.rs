//! Each mode has registers of its own.

use vstd::prelude::*;
use crate::cpu::{BanksState, CoreState, Exception};
use crate::laws::words::lemma_masks;
use crate::memory::{MemoryAccess, MemoryInterface, Request};
use crate::psr::{CpuMode, CpuState, RegPSR};

verus! {

/// Where the banked registers of a mode are kept; user and system mode share theirs.
pub open spec fn place_of(mode: CpuMode) -> int {
    match mode {
        CpuMode::User => 0,
        CpuMode::Fiq => 1,
        CpuMode::Irq => 2,
        CpuMode::Supervisor => 3,
        CpuMode::Abort => 4,
        CpuMode::Undefined => 5,
        CpuMode::System => 0,
    }
}

/// The mode bits of a mode.
pub open spec fn code_of(mode: CpuMode) -> int {
    match mode {
        CpuMode::User => 16,
        CpuMode::Fiq => 17,
        CpuMode::Irq => 18,
        CpuMode::Supervisor => 19,
        CpuMode::Abort => 23,
        CpuMode::Undefined => 27,
        CpuMode::System => 31,
    }
}

/// Whether two modes do not share registers.
pub open spec fn apart(a: CpuMode, b: CpuMode) -> bool {
    &&& a != b
    &&& !(a == CpuMode::User && b == CpuMode::System)
    &&& !(a == CpuMode::System && b == CpuMode::User)
}

/// A state with R13, R14 and the saved status register replaced, as a program does it.
pub open spec fn stacked<I: MemoryInterface>(
    s: CoreState<I>,
    r13: u32,
    r14: u32,
    spsr: RegPSR,
) -> CoreState<I> {
    CoreState { gpr: s.gpr.update(13, r13).update(14, r14), spsr, ..s }
}

/// Whether a state has these in R13, R14 and the saved status register.
pub open spec fn holds_own<I: MemoryInterface>(
    s: CoreState<I>,
    r13: u32,
    r14: u32,
    spsr: RegPSR,
) -> bool {
    s.gpr[13] == r13 && s.gpr[14] == r14 && s.spsr == spsr
}

/// A status word with the mode bits of another mode.
proof fn lemma_mode_bits(raw: u32, mode: CpuMode)
    ensures
        (RegPSR { raw }).with_mode(mode).raw == raw - raw % 32 + code_of(mode),
{
    lemma_masks(raw);
    let high = raw & !0x1fu32;
    let code = mode.number();
    assert(high | code == high + code) by (bit_vector)
        requires
            high == raw & !0x1fu32,
            code < 32,
    ;
}

/// After a change between modes that do not share registers, R13, R14 and the saved status register
/// are those that were kept for the new mode, and those of the old mode are kept for it. The other
/// modes' are left alone.
pub proof fn law_modes_have_their_own_registers<I: MemoryInterface>(
    s: CoreState<I>,
    old_mode: CpuMode,
    new_mode: CpuMode,
)
    requires
        s.shaped(),
        apart(old_mode, new_mode),
    ensures
        ({
            let t = s.mode_changed(old_mode, new_mode);
            let there = place_of(new_mode);
            let here = place_of(old_mode);
            &&& holds_own(t, s.banks.r13[there], s.banks.r14[there], s.banks.spsr[there])
            &&& t.banks.r13[here] == s.gpr[13]
            &&& t.banks.r14[here] == s.gpr[14]
            &&& t.banks.spsr[here] == s.spsr
            &&& forall|k: int|
                0 <= k < 6 && k != here ==> #[trigger] t.banks.r13[k] == s.banks.r13[k]
            &&& forall|k: int|
                0 <= k < 6 && k != here ==> #[trigger] t.banks.r14[k] == s.banks.r14[k]
            &&& forall|k: int|
                0 <= k < 6 && k != here ==> #[trigger] t.banks.spsr[k] == s.banks.spsr[k]
            &&& t.cpsr.raw == s.cpsr.raw - s.cpsr.raw % 32 + code_of(new_mode)
            &&& forall|r: int| 0 <= r < 8 ==> #[trigger] t.gpr[r] == s.gpr[r]
            &&& t.pc == s.pc
            &&& t.bus == s.bus
            &&& t.pipeline == s.pipeline
            &&& t.next_fetch_access == s.next_fetch_access
        }),
{
    lemma_mode_bits(s.cpsr.raw, new_mode);
}

/// Only fast interrupts have R8 to R12 of their own: they change places on the way in and on the way
/// out, and stay between all other modes.
pub proof fn law_fast_interrupts_have_more_registers<I: MemoryInterface>(
    s: CoreState<I>,
    old_mode: CpuMode,
    new_mode: CpuMode,
    k: int,
)
    requires
        s.shaped(),
        0 <= k < 5,
    ensures
        ({
            let t = s.mode_changed(old_mode, new_mode);
            if apart(old_mode, new_mode) && new_mode == CpuMode::Fiq {
                &&& t.gpr[8 + k] == s.banks.fiq_r8_12[k]
                &&& t.banks.old_r8_12[k] == s.gpr[8 + k]
                &&& t.banks.fiq_r8_12 == s.banks.fiq_r8_12
            } else if apart(old_mode, new_mode) && old_mode == CpuMode::Fiq {
                &&& t.gpr[8 + k] == s.banks.old_r8_12[k]
                &&& t.banks.fiq_r8_12[k] == s.gpr[8 + k]
                &&& t.banks.old_r8_12 == s.banks.old_r8_12
            } else {
                &&& t.gpr[8 + k] == s.gpr[8 + k]
                &&& t.banks.old_r8_12 == s.banks.old_r8_12
                &&& t.banks.fiq_r8_12 == s.banks.fiq_r8_12
            }
        }),
{
}

/// A change between modes that share registers changes nothing.
pub proof fn law_shared_registers_stay<I: MemoryInterface>(
    s: CoreState<I>,
    old_mode: CpuMode,
    new_mode: CpuMode,
)
    requires
        !apart(old_mode, new_mode),
    ensures
        s.mode_changed(old_mode, new_mode) == s,
{
}

/// What a program does to its stack pointer, link register and saved status in one mode is not seen
/// in another: after a visit to other modes, with any writes there, each mode finds what it had.
pub proof fn law_modes_do_not_meet<I: MemoryInterface>(
    s: CoreState<I>,
    a: CpuMode,
    b: CpuMode,
    c: CpuMode,
    r13: u32,
    r14: u32,
    spsr: RegPSR,
    other13: u32,
    other14: u32,
    other_spsr: RegPSR,
)
    requires
        s.shaped(),
        apart(a, b),
        apart(b, c),
        apart(a, c),
    ensures
        ({
            let in_b = stacked(s.mode_changed(a, b), r13, r14, spsr);
            let in_c = stacked(in_b.mode_changed(b, c), other13, other14, other_spsr);
            let back = in_c.mode_changed(c, a);
            &&& holds_own(in_b.mode_changed(b, a), s.gpr[13], s.gpr[14], s.spsr)
            &&& holds_own(back, s.gpr[13], s.gpr[14], s.spsr)
            &&& holds_own(back.mode_changed(a, b), r13, r14, spsr)
            &&& holds_own(back.mode_changed(a, c), other13, other14, other_spsr)
        }),
{
}

/// User mode's stack pointer and link register, seen from another mode, are those that user mode
/// will find.
pub proof fn law_user_registers_are_seen<I: MemoryInterface>(s: CoreState<I>, mode: CpuMode, v: u32)
    requires
        s.shaped(),
        apart(mode, CpuMode::User),
    ensures
        s.user_reg(13) == s.mode_changed(mode, CpuMode::User).gpr[13],
        s.user_reg(14) == s.mode_changed(mode, CpuMode::User).gpr[14],
        s.set_user_reg(13, v).mode_changed(mode, CpuMode::User).gpr[13] == v,
        s.set_user_reg(14, v).mode_changed(mode, CpuMode::User).gpr[14] == v,
        s.set_user_reg(13, v).gpr == s.gpr,
        s.set_user_reg(14, v).gpr == s.gpr,
        forall|r: int| 0 <= r < 8 ==> #[trigger] s.user_reg(r) == s.gpr[r],
        forall|r: int|
            0 <= r < 8 ==> (#[trigger] s.set_user_reg(r, v)).gpr == s.gpr.update(r, v),
{
}

/// The mode that the mode bits name.
pub proof fn law_mode_bits_name_a_mode(psr: RegPSR, mode: CpuMode)
    ensures
        psr.mode_of() == Some(mode) <==> psr.raw % 32 == code_of(mode),
        psr.mode_of() is None <==> forall|m: CpuMode| psr.raw % 32 != #[trigger] code_of(m),
        psr.with_mode(mode).mode_of() == Some(mode),
        psr.with_mode(mode).raw == psr.raw - psr.raw % 32 + code_of(mode),
{
    lemma_masks(psr.raw);
    lemma_mode_bits(psr.raw, mode);
    lemma_masks(psr.with_mode(mode).raw);
    if psr.mode_of() is None {
        assert forall|m: CpuMode| psr.raw % 32 != #[trigger] code_of(m) by {}
    } else {
        assert(psr.raw % 32 == code_of(psr.mode_of()->0));
    }
}

/// Bit 5 tells the instruction set, bit 7 whether interrupts are off and bit 6 whether fast ones
/// are; writing one of them leaves all else alone.
pub proof fn law_status_bits(psr: RegPSR, off: bool)
    ensures
        psr.state_of() == (if psr.raw / 32 % 2 == 1 {
            CpuState::THUMB
        } else {
            CpuState::ARM
        }),
        psr.with_state(CpuState::THUMB).raw == psr.raw - 32 * (psr.raw / 32 % 2) + 32,
        psr.with_state(CpuState::ARM).raw == psr.raw - 32 * (psr.raw / 32 % 2),
        psr.with_irq_disabled(true).raw == psr.raw - 128 * (psr.raw / 128 % 2) + 128,
        psr.with_fiq_disabled(true).raw == psr.raw - 64 * (psr.raw / 64 % 2) + 64,
        RegPSR::of(psr.raw).raw == psr.raw - psr.raw % 0x1000_0000 + psr.raw % 0x100,
{
    lemma_masks(psr.raw);
}

/// The mode in which an exception is handled and the address of its vector.
pub open spec fn entry_of(e: Exception) -> (CpuMode, u32) {
    match e {
        Exception::Reset => (CpuMode::Supervisor, 0),
        Exception::UndefinedInstruction => (CpuMode::Undefined, 4),
        Exception::SoftwareInterrupt => (CpuMode::Supervisor, 8),
    }
}

/// A status word put together from the mode, bits 5, 6 and 7, and the rest.
proof fn lemma_parts(x: int, m: int, t: int, f: int, i: int, h: int)
    requires
        x == m + 32 * t + 64 * f + 128 * i + 256 * h,
        0 <= m < 32,
        0 <= t < 2,
        0 <= f < 2,
        0 <= i < 2,
        0 <= h,
    ensures
        x % 32 == m,
        x / 32 % 2 == t,
        x / 64 % 2 == f,
        x / 128 % 2 == i,
        x / 256 == h,
{
    assert(x / 32 == t + 2 * f + 4 * i + 8 * h);
    assert(x / 64 == f + 2 * i + 4 * h);
    assert(x / 128 == i + 2 * h);
}

/// A status word taken apart.
proof fn lemma_apart(x: int)
    requires
        0 <= x,
    ensures
        x == x % 32 + 32 * (x / 32 % 2) + 64 * (x / 64 % 2) + 128 * (x / 128 % 2) + 256 * (x / 256),
{
    assert(x / 64 == x / 32 / 2);
    assert(x / 128 == x / 64 / 2);
    assert(x / 256 == x / 128 / 2);
}

/// The status word of an exception handler.
#[verifier::spinoff_prover]
proof fn lemma_handler_status(psr: RegPSR, own: CpuMode)
    ensures
        ({
            let t = psr.with_mode(own).with_state(CpuState::ARM).with_mode(
                own,
            ).with_irq_disabled(true);
            let u = t.with_fiq_disabled(true);
            &&& t.raw % 32 == code_of(own) && u.raw % 32 == code_of(own)
            &&& t.raw / 32 % 2 == 0 && u.raw / 32 % 2 == 0
            &&& t.raw / 128 % 2 == 1 && u.raw / 128 % 2 == 1
            &&& t.raw / 64 % 2 == psr.raw / 64 % 2 && u.raw / 64 % 2 == 1
            &&& t.raw / 256 == psr.raw / 256 && u.raw / 256 == psr.raw / 256
        }),
{
    let x = psr.raw as int;
    let (t, f, i, h) = (x / 32 % 2, x / 64 % 2, x / 128 % 2, x / 256);
    let m = code_of(own);
    lemma_apart(x);
    let a = psr.with_mode(own);
    lemma_mode_bits(psr.raw, own);
    lemma_parts(a.raw as int, m, t, f, i, h);
    law_status_bits(a, true);
    let b = a.with_state(CpuState::ARM);
    lemma_parts(b.raw as int, m, 0, f, i, h);
    lemma_mode_bits(b.raw, own);
    let c = b.with_mode(own);
    lemma_parts(c.raw as int, m, 0, f, i, h);
    law_status_bits(c, true);
    let d = c.with_irq_disabled(true);
    lemma_parts(d.raw as int, m, 0, f, 1, h);
    law_status_bits(d, true);
    let e = d.with_fiq_disabled(true);
    lemma_parts(e.raw as int, m, 0, 1, 1, h);
}

/// An exception from another mode: the handler finds the return address in R14 and the status before
/// it in the saved status register, runs in ARM state in its own mode with interrupts off, at its
/// vector, and the stack pointer and link register of the mode before are kept for that mode.
#[verifier::spinoff_prover]
pub proof fn law_exception_entry<I: MemoryInterface>(
    s: CoreState<I>,
    e: Exception,
    lr: u32,
    mode: CpuMode,
)
    requires
        s.shaped(),
        s.cpsr.raw % 32 == code_of(mode),
        apart(mode, entry_of(e).0),
    ensures
        ({
            let t = s.excepted(e, lr);
            let (own, vector) = entry_of(e);
            let raw = s.cpsr.raw;
            let first = Request::Load32(vector, MemoryAccess::NonSeq);
            let second = Request::Load32((vector + 4) as u32, MemoryAccess::Sequential);
            &&& t.gpr[14] == lr
            &&& t.spsr == s.cpsr
            &&& t.gpr[13] == s.banks.r13[place_of(own)]
            &&& t.banks.r13[place_of(mode)] == s.gpr[13]
            &&& t.banks.r14[place_of(mode)] == s.gpr[14]
            &&& t.banks.spsr[place_of(mode)] == s.spsr
            &&& forall|r: int| 0 <= r < 8 ==> #[trigger] t.gpr[r] == s.gpr[r]
            &&& t.cpsr.raw % 32 == code_of(own)
            &&& t.cpsr.raw / 32 % 2 == 0
            &&& t.cpsr.raw / 128 % 2 == 1
            &&& t.cpsr.raw / 64 % 2 == if e == Exception::Reset {
                1
            } else {
                raw as int / 64 % 2
            }
            &&& t.cpsr.raw / 256 == raw / 256
            &&& t.bus == I::next(I::next(s.bus, first), second)
            &&& t.pipeline == seq![
                I::reply(s.bus, first),
                I::reply(I::next(s.bus, first), second),
            ]
            &&& t.pc == vector + 8
            &&& t.next_fetch_access == MemoryAccess::Sequential
        }),
{
    law_mode_bits_name_a_mode(s.cpsr, mode);
    let (own, vector) = entry_of(e);
    lemma_handler_status(s.cpsr, own);
    let i = own.bank() as int;
    let banked = CoreState {
        banks: BanksState {
            spsr: s.banks.spsr.update(i, s.cpsr),
            r14: s.banks.r14.update(i, lr),
            ..s.banks
        },
        ..s
    };
    law_modes_have_their_own_registers(banked, mode, own);
    let t = banked.mode_changed(mode, own);
    assert(s.excepted(e, lr).gpr == t.gpr);
    assert(s.excepted(e, lr).spsr == t.spsr);
    assert(s.excepted(e, lr).banks == t.banks);
}

} // verus!
