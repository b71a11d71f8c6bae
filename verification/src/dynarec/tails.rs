//! The ends of blocks.

use vstd::prelude::*;
use crate::bits::bits;
use crate::cpu::CoreState;
use crate::dynarec::agreement::{core_behind, lemma_core_behind};
use crate::dynarec::decode::{DecodedThumbBx, listed, thumb_pop_pc};
use crate::dynarec::ir::{Callee, Cpu};
use crate::dynarec::keeping::lemma_lists_keep;
use crate::dynarec::plain::placid;
use crate::dynarec::sem::{SP, exec_bx, exec_pop_pc, load_at, loaded, slot};
use crate::dynarec::shapes::lemma_shape_multiple;
use crate::dynarec::transfers::{alike, lemma_aligned, lemma_pop, lemma_slot};
use crate::interpreter::effect_of;
use crate::laws::words::{lemma_cut, lemma_masks};
use crate::memory::{MemoryAccess, MemoryInterface, Request};
use crate::psr::{CpuState, RegPSR};

verus! {

/// The core on which the dispatcher goes on after compiled code: it follows a branch.
pub open spec fn resumed<I: MemoryInterface>(start: CoreState<I>, s: Cpu) -> CoreState<I> {
    let c = CoreState {
        gpr: s.gpr,
        cpsr: RegPSR { raw: s.cpsr },
        ..core_behind(start, s)
    };
    if s.took & 1 != 0 {
        c.exchanged(s.pc_out)
    } else {
        c
    }
}

/// Whether two cores have the same registers, status register, bus, program counter and next access,
/// and, where that is asked for, the same pipeline.
pub open spec fn met<I: MemoryInterface>(a: CoreState<I>, b: CoreState<I>, piped: bool) -> bool {
    &&& a.gpr == b.gpr
    &&& a.cpsr == b.cpsr
    &&& a.bus == b.bus
    &&& a.pc == b.pc
    &&& a.next_fetch_access == b.next_fetch_access
    &&& piped ==> a.pipeline == b.pipeline
}

/// Which results tell that a block branched.
pub proof fn lemma_took()
    ensures
        0u32 & 1 == 0,
        1u32 & 1 != 0,
{
    lemma_cut(0);
    lemma_cut(1);
}

/// Status words that differ in the flags only are of the same instruction set.
pub proof fn lemma_same_set(low: u32, kept: u32)
    requires
        low & 0x20 != 0,
        kept & 0x0fff_ffff == low & 0x0fff_ffff,
    ensures
        kept & 0x20 != 0,
{
    assert(low & 0x20 != 0 && kept & 0x0fff_ffff == low & 0x0fff_ffff ==> kept & 0x20 != 0)
        by (bit_vector);
}

/// A core in Thumb state stays as it is when it is put into Thumb state.
proof fn lemma_still_thumb(cpsr: RegPSR)
    requires
        cpsr.raw & 0x20 != 0,
    ensures
        cpsr.with_state(CpuState::THUMB) == cpsr,
{
    let raw = cpsr.raw;
    lemma_masks(raw);
}

/// A branch target with the Thumb bit set.
pub proof fn lemma_thumb_bit(target: u32)
    ensures
        (target | 1) & 1 != 0,
        (target | 1) & 0xffff_fffe == target & 0xffff_fffe,
        (target & 0xffff_fffe) & 0xffff_fffe == target & 0xffff_fffe,
        target % 2 == 0 ==> target & 0xffff_fffe == target,
{
    assert((target | 1) & 1 != 0 && (target | 1) & 0xffff_fffe == target & 0xffff_fffe && (target
        & 0xffff_fffe) & 0xffff_fffe == target & 0xffff_fffe && (target % 2 == 0 ==> target
        & 0xffff_fffe == target)) by (bit_vector);
}

/// A branch within Thumb state.
pub proof fn lemma_branch_met<I: MemoryInterface>(
    core: CoreState<I>,
    start: CoreState<I>,
    t: Cpu,
    target: u32,
)
    requires
        alike(core, start, t),
        t.cpsr & 0x20 != 0,
        target % 2 == 0,
    ensures
        met(core.with_pc(target).reloaded16(), resumed(start, t.branched(target | 1)), true),
{
    lemma_still_thumb(RegPSR { raw: t.cpsr });
    lemma_thumb_bit(target);
    lemma_took();
    assert(core_behind(start, t.branched(target | 1)) == core_behind(start, t));
}

/// A branch exchange.
pub proof fn lemma_exchange_met<I: MemoryInterface>(
    core: CoreState<I>,
    start: CoreState<I>,
    t: Cpu,
    rs: usize,
)
    requires
        alike(core, start, t),
        rs < 15,
    ensures
        met(
            core.exchanged(core.gpr[rs as int]),
            resumed(start, exec_bx(DecodedThumbBx { rs }, t)),
            true,
        ),
{
    lemma_took();
    assert(core_behind(start, t.branched(t.reg(rs))) == core_behind(start, t));
}

/// Going on to the next instruction.
pub proof fn lemma_going_met<I: MemoryInterface>(
    core: CoreState<I>,
    start: CoreState<I>,
    t: Cpu,
    piped: bool,
)
    requires
        alike(core, start, t),
        t.took == 0,
        core.pc == core_behind(start, t).pc,
        core.next_fetch_access == core_behind(start, t).next_fetch_access,
        piped ==> core.pipeline == core_behind(start, t).pipeline,
    ensures
        met(core, resumed(start, t), piped),
{
    lemma_took();
}

/// What the interpreter makes of a pop of the program counter.
pub proof fn lemma_pop_pc_shape<I: MemoryInterface>(core: CoreState<I>, op: u16)
    requires
        thumb_pop_pc(op) is Some,
    ensures
        effect_of(core, op) == core.thumb_stack(op as u32),
        effect_of(core, op).1 is PipelineFlushed,
        bits(op as u32, 11, 1) == 1,
        bits(op as u32, 8, 1) == 1,
{
    lemma_shape_multiple(core, op);
    let x = op as u32;
    assert(bits(x, 8, 8) == 0b10111101 ==> bits(x, 11, 1) == 1 && bits(x, 8, 1) == 1)
        by (bit_vector);
}

/// A pop of the program counter.
#[verifier::spinoff_prover]
pub proof fn lemma_pop_pc_met<I: MemoryInterface>(
    core: CoreState<I>,
    start: CoreState<I>,
    t: Cpu,
    op: u16,
)
    requires
        placid::<I>(),
        alike(core, start, t),
        t.cpsr & 0x20 != 0,
        t.reg(SP) % 4 == 0,
        thumb_pop_pc(op) is Some,
    ensures
        effect_of(core, op).1 is PipelineFlushed,
        met(
            effect_of(core, op).0,
            resumed(start, exec_pop_pc(thumb_pop_pc(op)->0.reg_list, t)),
            true,
        ),
{
    lemma_pop_pc_shape(core, op);
    let list = thumb_pop_pc(op)->0.reg_list;
    let sp = t.reg(SP);
    let n = listed(list, 8);
    lemma_pop(core, start, t, list, 8);
    let p = loaded(list, 8, sp, true, t);
    lemma_slot(sp, n);
    lemma_aligned(slot(sp, n));
    lemma_core_behind(start, p, load_at(n, true), slot(sp, n), 0, 0);
    let a = p.called(load_at(n, true), slot(sp, n), 0, 0);
    let b = a.set(SP, slot(sp, n + 1));
    assert(core_behind(start, b) == core_behind(start, a));
    lemma_core_behind(start, b, Callee::IdleCycle, 0, 0, 0);
    let d = b.called(Callee::IdleCycle, 0, 0, 0);
    let v = a.answer();
    let e = d.branched(v | 1);
    assert(core_behind(start, e) == core_behind(start, d));
    lemma_thumb_bit(v);
    lemma_took();
    lemma_lists_keep(list, sp, 8, t);
    lemma_popped_keeps(core, list, 8);
    let c = core.popped(list, 8);
    lemma_same_set(t.cpsr, p.cpsr);
    lemma_still_thumb(RegPSR { raw: p.cpsr });
    let req = Request::Load32(slot(sp, n), MemoryAccess::Sequential);
    assert(c.got(req) == v);
    let u = c.did(req).set_reg(15, v).with_gpr(13, c.gpr[13].wrapping_add(4));
    assert(u.gpr =~= b.gpr) by {
        assert(c.gpr.update(13, sp) == p.gpr);
    }
    assert(u.pc == v & 0xffff_fffe);
    assert(u.bus == core_behind(start, b).bus);
}

/// A pop keeps the status register.
pub proof fn lemma_popped_keeps<I: MemoryInterface>(core: CoreState<I>, list: u8, k: nat)
    ensures
        core.popped(list, k).cpsr == core.cpsr,
    decreases k,
{
    if k > 0 {
        lemma_popped_keeps(core, list, (k - 1) as nat);
    }
}

} // verus!
