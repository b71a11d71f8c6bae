//! Where Thumb instructions jump, and what high registers do.

use vstd::prelude::*;
use crate::alu::subtracted;
use crate::bits::{bits, word};
use crate::cpu::{CoreState, CpuAction};
use crate::fastpath::Handlers;
use crate::interpreter::Remaining;
use crate::laws::conditions::{condition_holds, law_conditions};
use crate::laws::thumb::{
    computed, difference_flags, fetched_for, lemma_flags_set, lemma_gone_on, lemma_low_formats,
    lemma_step_is, lemma_sums, lemma_thumb_format, lemma_thumb_operands,
};
use crate::laws::words::{
    lemma_cut, lemma_field, lemma_masks, lemma_odd, lemma_set_bit, one_if, wrapped,
};
use crate::memory::{MemoryAccess, MemoryInterface, Request};
use crate::psr::RegPSR;

verus! {

/// A core that jumped to a Thumb instruction: two fetches refill the pipeline.
pub open spec fn jumped16<I: MemoryInterface>(core: CoreState<I>, target: u32) -> CoreState<I> {
    let first = Request::Load16(target, MemoryAccess::NonSeq);
    let second = Request::Load16(wrapped(target + 2), MemoryAccess::Sequential);
    CoreState {
        pc: wrapped(target + 4),
        bus: I::next(I::next(core.bus, first), second),
        pipeline: seq![I::reply(core.bus, first), I::reply(I::next(core.bus, first), second)],
        next_fetch_access: MemoryAccess::Sequential,
        ..core
    }
}

/// A core that jumped to an ARM instruction.
pub open spec fn jumped32<I: MemoryInterface>(core: CoreState<I>, target: u32) -> CoreState<I> {
    let first = Request::Load32(target, MemoryAccess::NonSeq);
    let second = Request::Load32(wrapped(target + 4), MemoryAccess::Sequential);
    CoreState {
        pc: wrapped(target + 8),
        bus: I::next(I::next(core.bus, first), second),
        pipeline: seq![I::reply(core.bus, first), I::reply(I::next(core.bus, first), second)],
        next_fetch_access: MemoryAccess::Sequential,
        ..core
    }
}

/// A core in the other or the same instruction set.
pub open spec fn in_set<I: MemoryInterface>(core: CoreState<I>, thumb: bool) -> CoreState<I> {
    let raw = core.cpsr.raw;
    CoreState {
        cpsr: RegPSR { raw: (raw - 32 * (raw / 32 % 2) + 32 * one_if(thumb)) as u32 },
        ..core
    }
}

/// A jump to an odd address goes to the Thumb instruction before it, a jump to an even one to the ARM
/// instruction at the multiple of four.
pub open spec fn exchanged_to<I: MemoryInterface>(core: CoreState<I>, addr: u32) -> CoreState<I> {
    if addr % 2 == 1 {
        jumped16(in_set(core, true), (addr - 1) as u32)
    } else {
        jumped32(in_set(core, false), (addr - addr % 4) as u32)
    }
}

/// Refilling the pipeline.
pub proof fn law_refilled<I: MemoryInterface>(core: CoreState<I>, target: u32)
    ensures
        core.with_pc(target).reloaded16() == jumped16(core, target),
        core.with_pc(target).reloaded32() == jumped32(core, target),
{
}

/// A branch exchange.
#[verifier::spinoff_prover]
pub proof fn law_branch_exchange<I: MemoryInterface>(core: CoreState<I>, addr: u32)
    ensures
        core.exchanged(addr) == exchanged_to(core, addr),
{
    lemma_cut(addr);
    lemma_masks(core.cpsr.raw);
    law_refilled(in_set(core, true), (addr - addr % 2) as u32);
    law_refilled(in_set(core, false), (addr - addr % 4) as u32);
}

/// A register as an instruction reads it that was fetched for at `at`.
pub open spec fn read_at(gpr: Seq<u32>, at: u32, r: int) -> u32 {
    if r == 15 {
        at
    } else {
        gpr[r]
    }
}

/// The first operand of an operation on all sixteen registers, which is also written.
pub open spec fn first_high(x: u32) -> int {
    x as int % 8 + 8 * (x as int / 128 % 2)
}

/// The second operand of an operation on all sixteen registers.
pub open spec fn second_high(x: u32) -> int {
    x as int / 8 % 8 + 8 * (x as int / 64 % 2)
}

/// The effect of operations on all sixteen registers.
#[verifier::spinoff_prover]
proof fn lemma_high<I: MemoryInterface>(s: CoreState<I>, x: u32)
    requires
        x / 1024 == 17,
    ensures
        ({
            let op = x as int / 256 % 4;
            let rd = first_high(x);
            let a = read_at(s.gpr, s.pc, rd);
            let b = read_at(s.gpr, s.pc, second_high(x));
            let r = if op == 0 {
                a.wrapping_add(b)
            } else {
                b
            };
            let d = subtracted(a, b);
            s.thumb_hi(x) == if op == 3 {
                (s.exchanged(b), CpuAction::PipelineFlushed)
            } else if op == 1 {
                s.flags_set(d.value, d.carry, d.overflow).going(MemoryAccess::Sequential)
            } else if rd == 15 {
                (s.set_reg(15, r).reloaded16(), CpuAction::PipelineFlushed)
            } else {
                s.set_reg(rd, r).going(MemoryAccess::Sequential)
            }
        }),
{
    lemma_thumb_operands(x);
}

/// BX jumps to any register's value, odd for Thumb and even for ARM.
#[verifier::spinoff_prover]
pub proof fn law_thumb_branch_exchange<I: MemoryInterface, H: Handlers<I>>(
    core: CoreState<I>,
    at: u32,
    x: u32,
)
    requires
        x / 256 == 71,
    ensures
        core.thumb_stepped::<H>(at, x) == (
            exchanged_to(fetched_for(core, at), read_at(core.gpr, at, second_high(x))),
            1u32,
        ),
{
    let s = fetched_for(core, at);
    lemma_low_formats::<I, H>(s, x);
    lemma_step_is::<I, H>(core, at, x);
    lemma_high(s, x);
    law_branch_exchange(s, read_at(core.gpr, at, second_high(x)));
}

/// CMP on all sixteen registers writes flags only.
#[verifier::spinoff_prover]
pub proof fn law_thumb_high_comparison<I: MemoryInterface, H: Handlers<I>>(
    core: CoreState<I>,
    at: u32,
    x: u32,
)
    requires
        x / 256 == 69,
    ensures
        core.thumb_stepped::<H>(at, x) == computed(
            core,
            at,
            core.gpr,
            difference_flags(
                core.cpsr.raw,
                read_at(core.gpr, at, first_high(x)),
                read_at(core.gpr, at, second_high(x)),
                0,
            ),
        ),
{
    let s = fetched_for(core, at);
    lemma_low_formats::<I, H>(s, x);
    lemma_step_is::<I, H>(core, at, x);
    lemma_high(s, x);
    lemma_high_compare(
        core,
        at,
        read_at(core.gpr, at, first_high(x)),
        read_at(core.gpr, at, second_high(x)),
    );
}

/// ADD and MOV on all sixteen registers leave the flags alone, and jump where they write R15.
#[verifier::spinoff_prover]
pub proof fn law_thumb_high_registers<I: MemoryInterface, H: Handlers<I>>(
    core: CoreState<I>,
    at: u32,
    x: u32,
)
    requires
        x / 256 == 68 || x / 256 == 70,
        core.cpsr.raw / 32 % 2 == 1,
    ensures
        ({
            let rd = first_high(x);
            let a = read_at(core.gpr, at, rd);
            let b = read_at(core.gpr, at, second_high(x));
            let r = if x / 256 == 68 {
                wrapped(a + b)
            } else {
                b
            };
            core.thumb_stepped::<H>(at, x) == if rd == 15 {
                (jumped16(fetched_for(core, at), (r - r % 2) as u32), 1u32)
            } else {
                computed(core, at, core.gpr.update(rd, r), core.cpsr.raw)
            }
        }),
{
    let s = fetched_for(core, at);
    lemma_low_formats::<I, H>(s, x);
    lemma_step_is::<I, H>(core, at, x);
    lemma_high(s, x);
    let rd = first_high(x);
    let a = read_at(core.gpr, at, rd);
    let b = read_at(core.gpr, at, second_high(x));
    let r = if x / 256 == 68 {
        wrapped(a + b)
    } else {
        b
    };
    lemma_sums(0, a, b);
    assert(a.wrapping_add(b) == wrapped(a + b));
    if rd == 15 {
        lemma_high_jump(s, r);
        assert(core.thumb_stepped::<H>(at, x) == CoreState::concluded(
            (s.set_reg(15, r).reloaded16(), CpuAction::PipelineFlushed),
            at,
            2,
        ));
    } else {
        lemma_high_write(core, at, rd, r);
        assert(core.thumb_stepped::<H>(at, x) == CoreState::concluded(
            s.set_reg(rd, r).going(MemoryAccess::Sequential),
            at,
            2,
        ));
    }
}

/// A write to another register.
proof fn lemma_high_write<I: MemoryInterface>(core: CoreState<I>, at: u32, rd: int, r: u32)
    requires
        rd != 15,
    ensures
        CoreState::concluded(
            fetched_for(core, at).set_reg(rd, r).going(MemoryAccess::Sequential),
            at,
            2,
        ) == computed(core, at, core.gpr.update(rd, r), core.cpsr.raw),
{
}

/// A comparison of any two registers.
#[verifier::spinoff_prover]
proof fn lemma_high_compare<I: MemoryInterface>(core: CoreState<I>, at: u32, a: u32, b: u32)
    ensures
        ({
            let d = subtracted(a, b);
            CoreState::concluded(
                fetched_for(core, at).flags_set(d.value, d.carry, d.overflow).going(
                    MemoryAccess::Sequential,
                ),
                at,
                2,
            ) == computed(core, at, core.gpr, difference_flags(core.cpsr.raw, a, b, 0))
        }),
{
    let d = subtracted(a, b);
    lemma_sums(core.cpsr.raw, a, b);
    lemma_flags_set(fetched_for(core, at), d.value, d.carry, d.overflow);
}

/// A write to R15.
#[verifier::spinoff_prover]
proof fn lemma_high_jump<I: MemoryInterface>(s: CoreState<I>, r: u32)
    requires
        s.cpsr.raw / 32 % 2 == 1,
    ensures
        s.set_reg(15, r).reloaded16() == jumped16(s, (r - r % 2) as u32),
{
    lemma_set_bit(s.cpsr.raw);
    lemma_cut(r);
    law_refilled(s, (r - r % 2) as u32);
}

/// A field of some bits read as a two's-complement number, where `half` is what its top bit is worth.
pub open spec fn signed_part(k: int, half: int) -> int {
    if k >= half {
        k - 2 * half
    } else {
        k
    }
}

/// The branches of the later formats.
#[verifier::spinoff_prover]
proof fn lemma_branch_formats<I: MemoryInterface, H: Handlers<I>>(core: CoreState<I>, x: u32)
    requires
        x < 0x1_0000,
    ensures
        x / 4096 == 13 && x / 256 % 16 < 14 ==> core.thumb_effect::<H>(x) == core.thumb_bcond(x),
        x / 2048 == 30 ==> core.thumb_effect::<H>(x) == core.with_gpr(
            14,
            word(core.pc + 0x1000 * signed_part(x as int % 2048, 1024)),
        ).going(MemoryAccess::Sequential),
        x / 2048 == 28 || x / 2048 == 31 ==> core.thumb_effect::<H>(x) == H::thumb_done(
            (x / 64) as usize,
            core,
            x as u16,
        ),
{
    lemma_thumb_format(x);
    lemma_thumb_operands(x);
    vstd::arithmetic::power2::lemma2_to64();
    lemma_field(x, 6, 10);
}

/// A conditional branch: taken if its condition holds, from four bytes after it.
#[verifier::spinoff_prover]
pub proof fn law_thumb_conditional_branch<I: MemoryInterface, H: Handlers<I>>(
    core: CoreState<I>,
    at: u32,
    x: u32,
)
    requires
        x / 4096 == 13,
        x / 256 % 16 < 14,
    ensures
        ({
            let raw = core.cpsr.raw;
            let target = wrapped(at + 2 * signed_part(x as int % 256, 128));
            core.thumb_stepped::<H>(at, x) == if condition_holds(x as int / 256 % 16, raw) {
                (jumped16(fetched_for(core, at), target), 1u32)
            } else {
                computed(core, at, core.gpr, raw)
            }
        }),
{
    let s = fetched_for(core, at);
    assert(core.fetched16(at).with_pc(at) == s);
    lemma_branch_formats::<I, H>(s, x);
    lemma_thumb_format(x);
    lemma_thumb_operands(x);
    law_conditions((x / 256 % 16) as u32, core.cpsr.raw);
    law_refilled(s, wrapped(at + 2 * signed_part(x as int % 256, 128)));
    if !condition_holds(x as int / 256 % 16, core.cpsr.raw) {
        lemma_gone_on::<I, H>(core, at, x, s, MemoryAccess::Sequential);
    }
}

/// An unconditional branch.
#[verifier::spinoff_prover]
pub proof fn law_thumb_branch<I: MemoryInterface>(core: CoreState<I>, at: u32, x: u32)
    requires
        x / 2048 == 28,
    ensures
        core.thumb_stepped::<Remaining>(at, x) == (
            jumped16(fetched_for(core, at), wrapped(at + 2 * signed_part(x as int % 2048, 1024))),
            1u32,
        ),
{
    let s = fetched_for(core, at);
    assert(core.fetched16(at).with_pc(at) == s);
    lemma_branch_formats::<I, Remaining>(s, x);
    lemma_thumb_format(x);
    lemma_thumb_operands(x);
    law_refilled(s, wrapped(at + 2 * signed_part(x as int % 2048, 1024)));
}

/// The two halves of a long branch: the first puts the upper part of the distance on the program
/// counter into R14, and the second adds the lower part and jumps, with the return address in R14.
#[verifier::spinoff_prover]
pub proof fn law_thumb_long_branch<I: MemoryInterface>(core: CoreState<I>, at: u32, x: u32)
    requires
        x / 2048 == 30 || x / 2048 == 31,
        core.gpr.len() == 15,
    ensures
        ({
            let lr = core.gpr[14];
            let back = wrapped(at - 2);
            core.thumb_stepped::<Remaining>(at, x) == if x / 2048 == 30 {
                computed(
                    core,
                    at,
                    core.gpr.update(14, wrapped(at + 4096 * signed_part(x as int % 2048, 1024))),
                    core.cpsr.raw,
                )
            } else {
                (
                    jumped16(
                        CoreState {
                            gpr: core.gpr.update(14, (back - back % 2 + 1) as u32),
                            ..fetched_for(core, at)
                        },
                        wrapped(lr - lr % 2 + 2 * (x % 2048)),
                    ),
                    1u32,
                )
            }
        }),
{
    let s = fetched_for(core, at);
    lemma_step_is::<I, Remaining>(core, at, x);
    lemma_branch_formats::<I, Remaining>(s, x);
    if x / 2048 == 31 {
        lemma_second_half(s, x);
    }
}

/// The second half of a long branch.
#[verifier::spinoff_prover]
proof fn lemma_second_half<I: MemoryInterface>(s: CoreState<I>, x: u32)
    requires
        x / 2048 == 31,
    ensures
        ({
            let lr = s.gpr[14];
            let back = wrapped(s.pc - 2);
            s.thumb_rest(x as u16) == (
                jumped16(
                    CoreState { gpr: s.gpr.update(14, (back - back % 2 + 1) as u32), ..s },
                    wrapped(lr - lr % 2 + 2 * (x % 2048)),
                ),
                CpuAction::PipelineFlushed,
            )
        }),
{
    lemma_second_fields(x);
    let lr = s.gpr[14];
    let back = s.pc.wrapping_sub(2);
    lemma_half_target(lr, x);
    lemma_odd(back);
    law_refilled(s.with_gpr(14, back | 1), wrapped(lr - lr % 2 + 2 * (x % 2048)));
}

/// Where the second half of a long branch jumps to.
#[verifier::spinoff_prover]
proof fn lemma_half_target(lr: u32, x: u32)
    ensures
        (lr & 0xffff_fffe).wrapping_add(((x % 2048) * 2) as u32) == wrapped(
            lr - lr % 2 + 2 * (x % 2048),
        ),
{
    lemma_cut(lr);
}

#[verifier::spinoff_prover]
proof fn lemma_second_fields(x: u32)
    requires
        x / 2048 == 31,
    ensures
        (x as u16) as u32 == x,
        bits(x, 11, 5) == 31,
        bits(x, 0, 11) == x % 2048,
{
    lemma_thumb_format(x);
    lemma_thumb_operands(x);
}

} // verus!
