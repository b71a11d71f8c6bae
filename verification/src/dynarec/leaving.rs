//! Where compiled code stands when it leaves a block.

use vstd::prelude::*;
use crate::bits::word;
use crate::cpu::{CoreState, CpuAction};
use crate::dynarec::agreement::{core_behind, interpreted, lemma_alu_is_quiet, lemma_unfold};
use crate::dynarec::ir::Cpu;
use crate::dynarec::parity::lemma_none_interpreted;
use crate::dynarec::plain::placid;
use crate::dynarec::shapes::{
    lemma_shape_imm, lemma_shape_multiple, lemma_shape_offset, lemma_shape_pc,
};
use crate::dynarec::thumb::{Body, body_item};
use crate::dynarec::transfers::{alike, lemma_decoded};
use crate::dynarec::unified::{nonseq_advance, opcodes_ahead};
use crate::interpreter::effect_of;
use crate::memory::{MemoryAccess, MemoryInterface, Request};
use crate::stepping::lemma_effect_unwatched;

verus! {

/// The access of the fetch after an instruction.
pub open spec fn access_left(item: Body) -> MemoryAccess {
    if nonseq_advance(item) {
        MemoryAccess::NonSeq
    } else {
        MemoryAccess::Sequential
    }
}

/// Whether the core behind compiled code stands where an interpreter's core does, with a given
/// pipeline.
pub open spec fn left_at<I: MemoryInterface>(
    core: CoreState<I>,
    start: CoreState<I>,
    s: Cpu,
    pipeline: Seq<u32>,
) -> bool {
    let c = core_behind(start, s);
    &&& alike(core, start, s)
    &&& c.pc == core.pc
    &&& c.next_fetch_access == core.next_fetch_access
    &&& c.pipeline == pipeline
}

/// The two opcodes from `k` on.
pub open spec fn opcodes_from(ops: Seq<u16>, k: int) -> Seq<u32> {
    seq![ops[k] as u32, ops[k + 1] as u32]
}

/// Whether compiled code left a block after instruction `k`, at a place where it may, and stands
/// where the interpreter does after that instruction.
pub open spec fn left_after<I: MemoryInterface>(
    core: CoreState<I>,
    start: CoreState<I>,
    ops: Seq<u16>,
    pc: u32,
    k: nat,
    s: Cpu,
) -> bool {
    &&& opcodes_ahead(ops, k as int) is Some
    &&& left_at(interpreted(core, ops, pc, k + 1), start, s, opcodes_from(ops, k as int + 1))
}

/// Whether the interpreter finds the opcodes of a block in its pipeline and in memory for the first
/// `n` instructions.
pub open spec fn fed<I: MemoryInterface>(
    core: CoreState<I>,
    ops: Seq<u16>,
    pc: u32,
    n: nat,
) -> bool {
    &&& core.pipeline == opcodes_from(ops, 0)
    &&& forall|k: nat|
        k < n ==> (#[trigger] interpreted(core, ops, pc, k)).fetched16(
            word(pc.wrapping_add(4) + 2 * k),
        ).pipeline[1] == ops[k as int + 2]
}

/// How the interpreter goes on after an instruction that does not branch.
#[verifier::spinoff_prover]
pub proof fn lemma_effect_leaves<I: MemoryInterface>(core: CoreState<I>, op: u16)
    requires
        body_item(op) is Some,
    ensures
        effect_of(core, op).1 == CpuAction::AdvancePC(access_left(body_item(op)->0)),
        effect_of(core, op).0.pipeline == core.pipeline,
{
    lemma_decoded(op);
    lemma_effect_unwatched(core, core.dbg, op);
    match body_item(op)->0 {
        Body::F6(_) | Body::F12(_) | Body::F13(_) => lemma_shape_pc(core, op),
        Body::F7(_) | Body::F8Ldsb(_) => lemma_shape_offset(core, op),
        Body::F9(_) | Body::F11(_) => lemma_shape_imm(core, op),
        Body::F14(_) | Body::F15(_) => lemma_shape_multiple(core, op),
        _ => lemma_alu_is_quiet(core, op),
    }
}

/// The interpreter's pipeline holds the opcodes that follow.
#[verifier::spinoff_prover]
pub proof fn lemma_pipeline<I: MemoryInterface>(
    core: CoreState<I>,
    ops: Seq<u16>,
    pc: u32,
    n: nat,
)
    requires
        n + 1 < ops.len(),
        forall|i: int| 0 <= i < n ==> (#[trigger] body_item(ops[i])) is Some,
        fed(core, ops, pc, n),
    ensures
        interpreted(core, ops, pc, n).pipeline == opcodes_from(ops, n as int),
    decreases n,
{
    if n == 0 {
        lemma_none_interpreted(core, ops, pc);
    } else {
        let k = (n - 1) as nat;
        lemma_pipeline(core, ops, pc, k);
        let at = word(pc.wrapping_add(4) + 2 * k);
        let fetched = interpreted(core, ops, pc, k).fetched16(at);
        assert(body_item(ops[k as int]) is Some);
        lemma_unfold(core, ops, pc, n);
        lemma_effect_leaves(fetched.with_pc(at), ops[k as int]);
        assert(fetched.pipeline =~= opcodes_from(ops, n as int));
    }
}

/// What fetch `k` of a block finds in memory before the block; before the first fetch, the opcode
/// that is in the pipeline already.
pub open spec fn found<I: MemoryInterface>(core: CoreState<I>, pc: u32, k: nat) -> u32 {
    if k == 0 {
        core.pipeline[1]
    } else {
        I::reply(
            core.bus,
            Request::Load16(word(pc.wrapping_add(4) + 2 * (k - 1)), MemoryAccess::NonSeq),
        )
    }
}

/// Whether the interpreter's fetches find the same as fetching ahead does: however memory is
/// accessed, and whatever the block stored in the meantime. Both start with the same pipeline.
pub open spec fn found_again<I: MemoryInterface>(
    core: CoreState<I>,
    start: CoreState<I>,
    ops: Seq<u16>,
    pc: u32,
    s: Cpu,
) -> bool {
    &&& core_behind(start, s).pipeline == core.pipeline
    &&& forall|k: nat, access: MemoryAccess|
        k < ops.len() ==> #[trigger] I::reply(
            core.bus,
            Request::Load16(word(pc.wrapping_add(4) + 2 * k), access),
        ) == found(core, pc, k + 1)
    &&& forall|k: nat|
        k < ops.len() ==> (#[trigger] interpreted(core, ops, pc, k)).fetched16(
            word(pc.wrapping_add(4) + 2 * k),
        ).pipeline[1] == found(core, pc, k + 1)
}

/// The pipeline after a fetch of the interpreter.
#[verifier::spinoff_prover]
pub proof fn lemma_fetches_found<I: MemoryInterface>(
    core: CoreState<I>,
    ops: Seq<u16>,
    pc: u32,
    n: nat,
)
    requires
        n < ops.len(),
        forall|i: int| 0 <= i < n ==> (#[trigger] body_item(ops[i])) is Some,
        forall|k: nat|
            k < ops.len() ==> (#[trigger] interpreted(core, ops, pc, k)).fetched16(
                word(pc.wrapping_add(4) + 2 * k),
            ).pipeline[1] == found(core, pc, k + 1),
    ensures
        interpreted(core, ops, pc, n).fetched16(word(pc.wrapping_add(4) + 2 * n)).pipeline == seq![
            found(core, pc, n),
            found(core, pc, n + 1),
        ],
{
    let fetched = interpreted(core, ops, pc, n).fetched16(word(pc.wrapping_add(4) + 2 * n));
    if n == 0 {
        lemma_none_interpreted(core, ops, pc);
    } else {
        let k = (n - 1) as nat;
        let at = word(pc.wrapping_add(4) + 2 * k);
        assert(body_item(ops[k as int]) is Some);
        lemma_unfold(core, ops, pc, n);
        lemma_effect_leaves(
            interpreted(core, ops, pc, k).fetched16(at).with_pc(at),
            ops[k as int],
        );
    }
    assert(fetched.pipeline =~= seq![found(core, pc, n), found(core, pc, n + 1)]);
}

/// The pipeline after fetching ahead.
pub proof fn lemma_ahead_found<I: MemoryInterface>(
    core: CoreState<I>,
    c: CoreState<I>,
    ops: Seq<u16>,
    pc: u32,
    n: nat,
)
    requires
        placid::<I>(),
        0 < n <= ops.len(),
        c.bus == core.bus,
        c.pipeline == core.pipeline,
        forall|k: nat, access: MemoryAccess|
            k < ops.len() ==> #[trigger] I::reply(
                core.bus,
                Request::Load16(word(pc.wrapping_add(4) + 2 * k), access),
            ) == found(core, pc, k + 1),
    ensures
        c.fetched_n(pc.wrapping_add(4), n).bus == core.bus,
        c.fetched_n(pc.wrapping_add(4), n).pipeline == seq![
            found(core, pc, (n - 1) as nat),
            found(core, pc, n),
        ],
    decreases n,
{
    let k = (n - 1) as nat;
    let at = word(pc.wrapping_add(4) + 2 * k);
    if k > 0 {
        lemma_ahead_found(core, c, ops, pc, k);
    }
    let before = c.fetched_n(pc.wrapping_add(4), k);
    assert(before.pipeline[1] == found(core, pc, k));
    assert(before.bus == core.bus);
    assert(I::reply(core.bus, Request::Load16(at, before.next_fetch_access)) == found(core, pc, n));
    assert(before.fetched16(at).pipeline =~= seq![found(core, pc, k), found(core, pc, n)]);
}

} // verus!
