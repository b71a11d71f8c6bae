//! What the interpreter makes of each form of Thumb instruction.

use vstd::prelude::*;
use crate::bits::{bits, lemma_bits_range, signed_field, word};
use crate::cpu::{CoreState, CpuAction};
use crate::dynarec::decode::{
    thumb11, thumb12, thumb13, thumb14, thumb15, thumb16, thumb18, thumb6, thumb7, thumb8, thumb9,
    thumb_bx, thumb_pop_pc,
};
use crate::interpreter::effect_of;
use crate::memory::{MemoryAccess, MemoryInterface};

verus! {

/// How the opcode fields of the loads and stores tell them from everything else.
proof fn lemma_transfer_fields(op: u16)
    ensures
        ({
            let x = op as u32;
            let top3 = bits(x, 13, 3);
            let top4 = bits(x, 12, 4);
            &&& bits(x, 11, 5) == 0b01001 ==> top3 == 0b010 && bits(x, 10, 6) != 0b010000 && bits(
                x,
                10,
                6,
            ) != 0b010001
            &&& top4 == 0b0101 ==> top3 == 0b010 && bits(x, 10, 6) != 0b010000 && bits(x, 10, 6)
                != 0b010001 && bits(x, 11, 5) != 0b01001
            &&& top3 == 0b011 ==> bits(x, 10, 6) != 0b010000 && bits(x, 10, 6) != 0b010001 && bits(
                x,
                11,
                5,
            ) != 0b01001 && top4 != 0b0101 && top4 != 0b1000
            &&& top4 >= 8 ==> top3 >= 4 && bits(x, 10, 6) != 0b010000 && bits(x, 10, 6)
                != 0b010001 && bits(x, 11, 5) != 0b01001
            &&& bits(x, 8, 8) == 0xb0 ==> top4 == 0b1011
            &&& top4 == 0b1011 && bits(x, 9, 2) == 0b10 ==> bits(x, 8, 8) != 0xb0
            &&& bits(x, 10, 2) == 0b01 ==> bits(x, 10, 1) == 1 && bits(x, 11, 1) == 0
        }),
{
    let x = op as u32;
    assert((bits(x, 11, 5) == 0b01001 ==> bits(x, 13, 3) == 0b010 && bits(x, 10, 6) != 0b010000
        && bits(x, 10, 6) != 0b010001) && (bits(x, 12, 4) == 0b0101 ==> bits(x, 13, 3) == 0b010
        && bits(x, 10, 6) != 0b010000 && bits(x, 10, 6) != 0b010001 && bits(x, 11, 5) != 0b01001)
        && (bits(x, 13, 3) == 0b011 ==> bits(x, 10, 6) != 0b010000 && bits(x, 10, 6) != 0b010001
        && bits(x, 11, 5) != 0b01001 && bits(x, 12, 4) != 0b0101 && bits(x, 12, 4) != 0b1000) && (
    bits(x, 12, 4) >= 8 ==> bits(x, 13, 3) >= 4 && bits(x, 10, 6) != 0b010000 && bits(x, 10, 6)
        != 0b010001 && bits(x, 11, 5) != 0b01001) && (bits(x, 8, 8) == 0xb0 ==> bits(x, 12, 4)
        == 0b1011) && (bits(x, 12, 4) == 0b1011 && bits(x, 9, 2) == 0b10 ==> bits(x, 8, 8) != 0xb0)
        && (bits(x, 10, 2) == 0b01 ==> bits(x, 10, 1) == 1 && bits(x, 11, 1) == 0))
        by (bit_vector);
}

/// What the interpreter makes of a literal load, an address computation or a move of the stack
/// pointer.
pub proof fn lemma_shape_pc<I: MemoryInterface>(core: CoreState<I>, op: u16)
    ensures
        thumb6(op) matches Some(d) ==> effect_of(core, op) == core.loaded_reg(
            d.rd as int,
            core.word_loaded(
                (core.pc & 0xffff_fffc).wrapping_add((d.imm8 * 4) as u32),
                MemoryAccess::NonSeq,
            ),
        ).going(MemoryAccess::NonSeq),
        thumb12(op) matches Some(d) ==> effect_of(core, op) == core.with_gpr(
            d.rd as int,
            if d.sp {
                core.gpr[13].wrapping_add(d.offset)
            } else {
                (core.pc.wrapping_sub(4) & 0xffff_fffd).wrapping_add(4).wrapping_add(d.offset)
            },
        ).going(MemoryAccess::Sequential),
        thumb13(op) matches Some(d) ==> effect_of(core, op) == core.with_gpr(
            13,
            if d.sub {
                core.gpr[13].wrapping_sub(d.offset)
            } else {
                core.gpr[13].wrapping_add(d.offset)
            },
        ).going(MemoryAccess::Sequential),
{
    reveal(effect_of);
    lemma_transfer_fields(op);
}

/// What the interpreter makes of a load or store with a register offset.
pub proof fn lemma_shape_offset<I: MemoryInterface>(core: CoreState<I>, op: u16)
    ensures
        thumb7(op) matches Some(d) ==> effect_of(core, op) == core.thumb_access(
            d.load,
            d.byte,
            d.rd as int,
            core.gpr[d.rb as int].wrapping_add(core.gpr[d.ro as int]),
        ).going(CoreState::<I>::access_after(d.load)),
        thumb8(op) matches Some(d) ==> ({
            let b = core.byte_loaded(core.gpr[d.rb as int].wrapping_add(core.gpr[d.ro as int]));
            effect_of(core, op) == core.loaded_reg(
                d.rd as int,
                (word(signed_field(b.0, 0x80)), b.1),
            ).going(MemoryAccess::NonSeq)
        }),
{
    reveal(effect_of);
    lemma_transfer_fields(op);
}

/// What the interpreter makes of a load or store with an immediate offset.
pub proof fn lemma_shape_imm<I: MemoryInterface>(core: CoreState<I>, op: u16)
    ensures
        thumb9(op) matches Some(d) ==> effect_of(core, op) == core.thumb_access(
            d.load,
            d.byte,
            d.rd as int,
            core.gpr[d.rs as int].wrapping_add(d.offset),
        ).going(CoreState::<I>::access_after(d.load)),
        thumb11(op) matches Some(d) ==> effect_of(core, op) == core.thumb_access(
            d.load,
            false,
            d.rd as int,
            core.gpr[13].wrapping_add(d.offset),
        ).going(CoreState::<I>::access_after(d.load)),
{
    reveal(effect_of);
    lemma_transfer_fields(op);
}

/// What the interpreter makes of a pop or a multiple transfer.
pub proof fn lemma_shape_multiple<I: MemoryInterface>(core: CoreState<I>, op: u16)
    ensures
        thumb14(op) matches Some(d) ==> effect_of(core, op) == core.thumb_stack(op as u32),
        thumb15(op) is Some ==> effect_of(core, op) == core.thumb_multiple(op as u32),
        thumb_pop_pc(op) is Some ==> effect_of(core, op) == core.thumb_stack(op as u32),
{
    reveal(effect_of);
    lemma_transfer_fields(op);
    let x = op as u32;
    assert(bits(x, 8, 8) == 0b10111101 ==> bits(x, 12, 4) == 0b1011 && bits(x, 9, 2) == 0b10)
        by (bit_vector);
}

/// What the interpreter makes of a branch.
pub proof fn lemma_shape_branch<I: MemoryInterface>(core: CoreState<I>, op: u16)
    ensures
        thumb_bx(op) matches Some(d) ==> effect_of(core, op) == (
            core.exchanged(core.gpr[d.rs as int]),
            CpuAction::PipelineFlushed,
        ),
        thumb18(op) matches Some(d) ==> effect_of(core, op) == (
            core.with_pc(word(core.pc + 2 * d.offset_signed)).reloaded16(),
            CpuAction::PipelineFlushed,
        ),
        thumb16(op) matches Some(d) ==> effect_of(core, op) == if d.cond.passes(core.cpsr.raw) {
            (
                core.with_pc(word(core.pc + 2 * d.offset_signed)).reloaded16(),
                CpuAction::PipelineFlushed,
            )
        } else {
            core.going(MemoryAccess::Sequential)
        },
{
    reveal(effect_of);
    let x = op as u32;
    lemma_transfer_fields(op);
    lemma_bits_range(x, 0, 11);
    lemma_bits_range(x, 0, 8);
    lemma_bits_range(x, 3, 3);
    lemma_bits_range(x, 6, 1);
    assert(x < 0x1_0000 ==> (bits(x, 11, 5) == 0b11100 ==> bits(x, 12, 4) == 14 && x >> 11u32
        != 0b11110) && (bits(x, 12, 4) == 0b1101 ==> bits(x, 13, 3) == 6) && (bits(x, 7, 9)
        == 0b010001110 ==> bits(x, 10, 6) == 0b010001 && bits(x, 13, 3) == 2 && bits(x, 8, 2) == 3)
        && bits(x, 3, 4) == bits(x, 3, 3) + 8 * bits(x, 6, 1)) by (bit_vector);
}

} // verus!
