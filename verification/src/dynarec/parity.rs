//! Whole Thumb blocks do what the interpreter does.

use vstd::prelude::*;
use crate::bits::{lemma_bits_range, word};
use crate::cpu::{Arm7tdmiCore, CoreState, CpuAction};
use crate::dynarec::agreement::{core_behind, interpreted, lemma_core_behind, lemma_unfold};
use crate::dynarec::block::{ABORTED, Exit};
use crate::dynarec::bus::last_reply;
use crate::dynarec::decode::DecodedThumbPcBranch;
use crate::dynarec::ir::{BusCall, Callee, Cpu};
use crate::dynarec::keeping::{lemma_body_keeps, lemma_item_keeps, lemma_quiet_place};
use crate::dynarec::leaving::{
    access_left, fed, found_again, left_after, left_at, lemma_ahead_found, lemma_effect_leaves,
    lemma_fetches_found, lemma_pipeline,
};
use crate::dynarec::plain::{lemma_bookkeeping, lemma_pushing, placid};
use crate::dynarec::sem::{SP, thumb_target};
use crate::dynarec::shapes::lemma_shape_branch;
use crate::dynarec::tails::{
    lemma_branch_met, lemma_exchange_met, lemma_going_met, lemma_pop_pc_met, lemma_same_set,
    lemma_took, met, resumed,
};
use crate::dynarec::thumb::{Body, body_item, exec_body};
use crate::dynarec::transfers::{alike, gives_bytes, law_thumb_body_agrees, level, pushes};
use crate::dynarec::unified::{
    Tail, instr_pc, item_step, law_dead_flag_writes_unseen, nonseq_advance, opcodes_ahead, restored,
    tail_item, unified, unified_body, unified_ok, unified_tail,
};
use crate::interpreter::effect_of;
use crate::memory::{MemoryAccess, MemoryInterface};

verus! {

/// Whether the first `n` instructions of a block access aligned words only, as far as they are run.
pub open spec fn smooth(ops: Seq<u16>, pc: u32, n: nat, s: Cpu) -> bool {
    forall|k: nat|
        k < n && (#[trigger] unified_body(ops, pc, false, k, s)).exit is None ==> level(
            body_item(ops[k as int])->0,
            unified_body(ops, pc, false, k, s).cpu,
        )
}

/// The interpreter's fetch before an instruction leaves registers, flags and plain memory alone.
proof fn lemma_fetch_alike<I: MemoryInterface>(
    core: CoreState<I>,
    start: CoreState<I>,
    s: Cpu,
    at: u32,
)
    requires
        placid::<I>(),
        alike(core, start, s),
    ensures
        alike(core.fetched16(at).with_pc(at), start, s),
        core.fetched16(at).with_pc(at).pc == at,
{
}

/// The address that is fetched while an instruction of a block runs.
pub proof fn lemma_fetch_address(pc: u32, k: nat)
    ensures
        word(pc.wrapping_add(4) + 2 * k) == instr_pc(pc, k as int).wrapping_add(4),
{
}

/// A step of the interpreter that goes on to the next instruction.
proof fn lemma_concluded<I: MemoryInterface>(
    done: (CoreState<I>, CpuAction),
    at: u32,
    start: CoreState<I>,
    s: Cpu,
)
    requires
        done.1 is AdvancePC,
        alike(done.0, start, s),
    ensures
        alike(CoreState::concluded(done, at, 2).0, start, s),
        CoreState::concluded(done, at, 2).0.pc == at.wrapping_add(2),
{
}

/// One step of the interpreter and one instruction of a compiled block.
#[verifier::spinoff_prover]
proof fn lemma_step_agrees<I: MemoryInterface>(
    before: CoreState<I>,
    start: CoreState<I>,
    t: Cpu,
    op: u16,
    pc: u32,
    k: nat,
)
    requires
        placid::<I>(),
        gives_bytes::<I>(),
        alike(before, start, t),
        body_item(op) is Some,
        level(body_item(op)->0, t),
    ensures
        ({
            let at = word(pc.wrapping_add(4) + 2 * k);
            let after = CoreState::concluded(
                effect_of(before.fetched16(at).with_pc(at), op),
                at,
                2,
            ).0;
            &&& alike(after, start, exec_body(body_item(op)->0, instr_pc(pc, k as int), t))
            &&& after.pc == at.wrapping_add(2)
            &&& after.next_fetch_access == access_left(body_item(op)->0)
            &&& after.pipeline == before.fetched16(at).pipeline
        }),
{
    let at = word(pc.wrapping_add(4) + 2 * k);
    let from = before.fetched16(at).with_pc(at);
    lemma_fetch_alike(before, start, t, at);
    lemma_fetch_address(pc, k);
    lemma_effect_agrees(from, start, t, op, instr_pc(pc, k as int));
    lemma_effect_leaves(from, op);
    lemma_concluded(
        effect_of(from, op),
        at,
        start,
        exec_body(body_item(op)->0, instr_pc(pc, k as int), t),
    );
}

/// The body of a block leaves the same registers, flags and memory as the interpreter, also where
/// the block is left in the middle.
#[verifier::spinoff_prover]
pub proof fn lemma_body_agrees<I: MemoryInterface>(
    core: CoreState<I>,
    start: CoreState<I>,
    ops: Seq<u16>,
    pc: u32,
    n: nat,
    s: Cpu,
)
    requires
        placid::<I>(),
        gives_bytes::<I>(),
        alike(core, start, s),
        n <= ops.len(),
        forall|i: int| 0 <= i < n ==> (#[trigger] body_item(ops[i])) is Some,
        smooth(ops, pc, n, s),
    ensures
        ({
            let o = unified_body(ops, pc, false, n, s);
            match o.exit {
                None => alike(interpreted(core, ops, pc, n), start, o.cpu),
                Some(exit) => {
                    &&& exit == Exit::Return(ABORTED)
                    &&& exists|k: nat| k < n && #[trigger] left_after(core, start, ops, pc, k, o.cpu)
                },
            }
        }),
    decreases n,
{
    if n == 0 {
        lemma_bookkeeping(
            core,
            start,
            s,
            Callee::ThumbFetchN,
            pc.wrapping_add(4),
            word(ops.len() as int),
        );
        lemma_none_interpreted(core, ops, pc);
    } else {
        let k = (n - 1) as nat;
        lemma_body_agrees(core, start, ops, pc, k, s);
        let before = unified_body(ops, pc, false, k, s);
        if before.exit is None {
            let t = before.cpu;
            let op = ops[k as int];
            assert(body_item(ops[k as int]) is Some);
            lemma_step_agrees(interpreted(core, ops, pc, k), start, t, op, pc, k);
            lemma_unfold(core, ops, pc, n);
            lemma_left_address(pc, k);
            lemma_item_bookkeeping(
                interpreted(core, ops, pc, n),
                start,
                body_item(op)->0,
                instr_pc(pc, k as int),
                opcodes_ahead(ops, k as int),
                pc,
                t,
            );
            if unified_body(ops, pc, false, n, s).exit is Some {
                assert(left_after(core, start, ops, pc, k, unified_body(ops, pc, false, n, s).cpu));
            }
        }
    }
}

/// The program counter at which a block is left.
proof fn lemma_left_address(pc: u32, k: nat)
    ensures
        instr_pc(pc, k as int).wrapping_add(2).wrapping_add(4) == word(
            pc.wrapping_add(4) + 2 * k,
        ).wrapping_add(2),
{
}

pub proof fn lemma_none_interpreted<I: MemoryInterface>(core: CoreState<I>, ops: Seq<u16>, pc: u32)
    ensures
        interpreted(core, ops, pc, 0) == core,
{
    reveal(interpreted);
}

/// The law for one instruction over the interpreter's effect.
proof fn lemma_effect_agrees<I: MemoryInterface>(
    core: CoreState<I>,
    start: CoreState<I>,
    s: Cpu,
    op: u16,
    pc: u32,
)
    requires
        placid::<I>(),
        alike(core, start, s),
        gives_bytes::<I>(),
        core.pc == pc.wrapping_add(4),
        body_item(op) is Some,
        level(body_item(op)->0, s),
    ensures
        alike(effect_of(core, op).0, start, exec_body(body_item(op)->0, pc, s)),
        effect_of(core, op).1 is AdvancePC,
{
    if pushes(body_item(op)->0) {
        lemma_pushing(core, start, s, op, pc);
    } else {
        law_thumb_body_agrees(core, start, s, op, pc);
    }
}

/// The bookkeeping after an instruction leaves registers, flags and plain memory alone. The block
/// goes on, or its core is left where the interpreter would stand.
proof fn lemma_item_bookkeeping<I: MemoryInterface>(
    core: CoreState<I>,
    start: CoreState<I>,
    item: Body,
    pc: u32,
    ahead: Option<(u16, u16)>,
    entry_pc: u32,
    s: Cpu,
)
    requires
        placid::<I>(),
        alike(core, start, exec_body(item, pc, s)),
        core.pc == pc.wrapping_add(2).wrapping_add(4),
        core.next_fetch_access == access_left(item),
    ensures
        ({
            let o = item_step(item, false, pc, ahead, entry_pc, s);
            match o.exit {
                None => alike(core, start, o.cpu),
                Some(exit) => {
                    &&& exit == Exit::Return(ABORTED)
                    &&& ahead is Some
                    &&& left_at(
                        core,
                        start,
                        o.cpu,
                        seq![(ahead->0).0 as u32, (ahead->0).1 as u32],
                    )
                },
            }
        }),
{
    reveal(item_step);
    let a = exec_body(item, pc, s);
    lemma_bookkeeping(core, start, a, Callee::ChainAbortCheck, 0, 0);
    let b = a.called(Callee::ChainAbortCheck, 0, 0, 0);
    lemma_bookkeeping(core, start, b, Callee::PayThumbFetchExtraNonseq, entry_pc, 0);
    lemma_bookkeeping(core, start, a, Callee::PayThumbFetchExtraNonseq, entry_pc, 0);
    match ahead {
        Some(pipe) => {
            lemma_restored(
                core,
                start,
                b,
                pc.wrapping_add(2).wrapping_add(4),
                pipe.0 as u32,
                pipe.1 as u32,
                nonseq_advance(item),
            );
        },
        None => {},
    }
}

/// The calls that restore the pipeline and the next access.
proof fn lemma_restored<I: MemoryInterface>(
    core: CoreState<I>,
    start: CoreState<I>,
    s: Cpu,
    pc: u32,
    pipe0: u32,
    pipe1: u32,
    nonseq: bool,
)
    requires
        alike(core, start, s),
        core.pc == pc,
        core.next_fetch_access == (if nonseq {
            MemoryAccess::NonSeq
        } else {
            MemoryAccess::Sequential
        }),
    ensures
        left_at(core, start, restored(pc, pipe0, pipe1, nonseq, s), seq![pipe0, pipe1]),
{
    let t = s.called(Callee::AbortMidBlock, pc, pipe0, pipe1);
    lemma_core_behind(start, s, Callee::AbortMidBlock, pc, pipe0, pipe1);
    lemma_core_behind(start, t, Callee::SetNextFetchNonseq, 0, 0, 0);
}

/// Whether the last instruction of a block accesses aligned words only.
pub open spec fn level_tail(tail: Tail, s: Cpu) -> bool {
    match tail {
        Tail::Body(item) => level(item, s),
        Tail::PopPc(_) => s.reg(SP) % 4 == 0,
        _ => true,
    }
}

/// The target of a branch is even.
pub proof fn lemma_target(d: DecodedThumbPcBranch, pc: u32)
    requires
        pc % 2 == 0,
    ensures
        word(pc.wrapping_add(4) + 2 * d.offset_signed) % 2 == 0,
        thumb_target(d, pc) == word(pc.wrapping_add(4) + 2 * d.offset_signed) | 1,
{
}

/// The last instruction of a block.
#[verifier::spinoff_prover]
proof fn lemma_tail_agrees<I: MemoryInterface>(
    from: CoreState<I>,
    start: CoreState<I>,
    t: Cpu,
    op: u16,
    at: u32,
    pc: u32,
    linked: bool,
    piped: bool,
)
    requires
        placid::<I>(),
        gives_bytes::<I>(),
        alike(from, start, t),
        from.pc == at,
        at == pc.wrapping_add(4),
        pc % 2 == 0,
        t.cpsr & 0x20 != 0,
        t.took == 0,
        core_behind(start, t).pc == at.wrapping_add(2),
        core_behind(start, t).next_fetch_access == MemoryAccess::Sequential,
        piped ==> from.pipeline == core_behind(start, t).pipeline,
        tail_item(op) is Some,
        level_tail(tail_item(op)->0, t),
    ensures
        ({
            let o = unified_tail(tail_item(op)->0, pc, None, linked, t);
            &&& o.exit is None
            &&& met(
                CoreState::concluded(effect_of(from, op), at, 2).0,
                resumed(start, o.cpu),
                piped || o.cpu.took & 1 != 0,
            )
            &&& tail_item(op)->0 is Body ==> o.cpu.took == 0 && o.cpu.bus == t.bus
        }),
{
    lemma_took();
    match tail_item(op)->0 {
        Tail::Bx(d) => {
            lemma_shape_branch(from, op);
            lemma_bits_range(op as u32, 3, 4);
            lemma_exchange_met(from, start, t, d.rs);
        },
        Tail::PcBranch(d) => {
            lemma_shape_branch(from, op);
            lemma_target(d, pc);
            let target = word(pc.wrapping_add(4) + 2 * d.offset_signed);
            if d.cond.passes(t.cpsr) {
                lemma_branch_met(from, start, t, target);
            } else {
                lemma_concluded(effect_of(from, op), at, start, t);
                let after = CoreState::concluded(effect_of(from, op), at, 2).0;
                lemma_going_met(after, start, t, piped);
            }
        },
        Tail::PopPc(d) => {
            lemma_pop_pc_met(from, start, t, op);
        },
        Tail::Body(item) => {
            lemma_effect_agrees(from, start, t, op, pc);
            let a = exec_body(item, pc, t);
            let after = CoreState::concluded(effect_of(from, op), at, 2).0;
            lemma_concluded(effect_of(from, op), at, start, a);
            lemma_item_keeps(item, pc, t);
            lemma_quiet_place(start, t.calls, a.calls);
            lemma_effect_leaves(from, op);
            if nonseq_advance(item) {
                lemma_bookkeeping(after, start, a, Callee::SetNextFetchNonseq, 0, 0);
                lemma_core_behind(start, a, Callee::SetNextFetchNonseq, 0, 0, 0);
                let b = a.called(Callee::SetNextFetchNonseq, 0, 0, 0);
                lemma_going_met(after, start, b, piped);
            } else {
                lemma_going_met(after, start, a, piped);
            }
        },
    }
}

/// Whether a whole block accesses aligned words only, as far as it is run.
pub open spec fn smooth_block(ops: Seq<u16>, pc: u32, s: Cpu) -> bool {
    let n = (ops.len() - 1) as nat;
    let o = unified_body(ops, pc, false, n, s);
    &&& smooth(ops, pc, n, s)
    &&& o.exit is None ==> level_tail(tail_item(ops.last())->0, o.cpu)
}

/// The core after fetching a block ahead.
pub proof fn lemma_fetched<I: MemoryInterface>(start: CoreState<I>, s: Cpu, pc: u32, n: nat)
    requires
        s.bus == (|calls: Seq<BusCall>| last_reply::<Arm7tdmiCore<I>>(start, calls)),
        0 < n <= u32::MAX,
    ensures
        ({
            let c = core_behind(start, s.called(Callee::ThumbFetchN, pc, word(n as int), 0));
            &&& c == core_behind(start, s).fetched_n(pc, n)
            &&& c.pc == word(pc + 2 * (n - 1)).wrapping_add(2)
            &&& c.next_fetch_access == MemoryAccess::Sequential
        }),
{
    lemma_core_behind(start, s, Callee::ThumbFetchN, pc, word(n as int), 0);
}

/// A body that goes on was left nowhere before.
pub proof fn lemma_never_left(ops: Seq<u16>, pc: u32, k: nat, n: nat, s: Cpu)
    requires
        k <= n,
        unified_body(ops, pc, false, n, s).exit is None,
    ensures
        unified_body(ops, pc, false, k, s).exit is None,
    decreases n,
{
    if k < n {
        lemma_never_left(ops, pc, k, (n - 1) as nat, s);
    }
}

/// The state before the last instruction of a block.
#[verifier::spinoff_prover]
proof fn lemma_before_tail<I: MemoryInterface>(
    core: CoreState<I>,
    start: CoreState<I>,
    ops: Seq<u16>,
    pc: u32,
    s: Cpu,
)
    requires
        placid::<I>(),
        gives_bytes::<I>(),
        0 < ops.len() <= u32::MAX,
        forall|i: int| 0 <= i < ops.len() - 1 ==> (#[trigger] body_item(ops[i])) is Some,
        alike(core, start, s),
        s.cpsr & 0x20 != 0,
        s.took == 0,
        smooth(ops, pc, (ops.len() - 1) as nat, s),
        unified_body(ops, pc, false, (ops.len() - 1) as nat, s).exit is None,
    ensures
        ({
            let n = (ops.len() - 1) as nat;
            let o = unified_body(ops, pc, false, n, s);
            &&& alike(interpreted(core, ops, pc, n), start, o.cpu)
            &&& o.cpu.took == 0
            &&& o.cpu.cpsr & 0x20 != 0
            &&& core_behind(start, o.cpu).pc == word(pc.wrapping_add(4) + 2 * n).wrapping_add(2)
            &&& core_behind(start, o.cpu).next_fetch_access == MemoryAccess::Sequential
            &&& core_behind(start, o.cpu).pipeline == core_behind(start, s).fetched_n(
                pc.wrapping_add(4),
                ops.len(),
            ).pipeline
        }),
{
    let n = (ops.len() - 1) as nat;
    assert forall|k: nat| k <= n implies (#[trigger] unified_body(
        ops,
        pc,
        false,
        k,
        s,
    )).exit is None by {
        lemma_never_left(ops, pc, k, n, s);
    }
    lemma_body_agrees(core, start, ops, pc, n, s);
    lemma_body_keeps(ops, pc, n, s);
    let first = unified_body(ops, pc, false, 0, s).cpu;
    let t = unified_body(ops, pc, false, n, s).cpu;
    lemma_quiet_place(start, first.calls, t.calls);
    lemma_fetched(start, s, pc.wrapping_add(4), ops.len());
    lemma_same_set(first.cpsr, t.cpsr);
}

/// A compiled Thumb block does what the interpreter does. On plain memory it ends with the same
/// registers, the same status register, the same memory, the same program counter and the same next
/// access. The dispatcher goes on with the same pipeline where it branched, and also where it did
/// not if the block leaves the code alone that is fetched while it runs. So it is when the block
/// goes on in its linked successor. A block that is left in the middle reports that, and stands
/// where the interpreter does after the same instruction: also with the same next access and, if
/// memory holds the opcodes, the same pipeline. Words have to be aligned,
/// since the interpreter takes a carry from misaligned ones.
#[verifier::spinoff_prover]
pub proof fn law_compiled_block_agrees<I: MemoryInterface>(
    core: CoreState<I>,
    start: CoreState<I>,
    ops: Seq<u16>,
    pc: u32,
    slot: Option<u64>,
    linked: bool,
    s: Cpu,
)
    requires
        placid::<I>(),
        gives_bytes::<I>(),
        unified_ok(ops),
        ops.len() <= u32::MAX,
        alike(core, start, s),
        core.thumb(),
        pc % 2 == 0,
        s.took == 0,
        smooth_block(ops, pc, s),
    ensures
        ({
            let o = unified(ops, pc, true, slot, linked, s);
            match o.exit {
                None | Some(Exit::Chain(_)) => met(
                    interpreted(core, ops, pc, ops.len()),
                    resumed(start, o.cpu),
                    found_again(core, start, ops, pc, s) || o.cpu.took & 1 != 0,
                ),
                Some(Exit::Return(r)) => {
                    &&& r == ABORTED
                    &&& exists|k: nat|
                        {
                            &&& #[trigger] left_after(core, start, ops, pc, k, o.cpu)
                            &&& fed(core, ops, pc, k + 1) ==> interpreted(
                                core,
                                ops,
                                pc,
                                k + 1,
                            ).pipeline == core_behind(start, o.cpu).pipeline
                        }
                },
            }
        }),
{
    law_dead_flag_writes_unseen(ops, pc, slot, linked, s);
    if unified_body(ops, pc, false, (ops.len() - 1) as nat, s).exit is Some {
        lemma_left(core, start, ops, pc, s);
    } else {
        lemma_run_out(core, start, ops, pc, linked, s);
        if tail_item(ops.last())->0 is Body {
            lemma_took();
            let t = unified(ops, pc, false, None, linked, s).cpu;
            let piped = found_again(core, start, ops, pc, s);
            lemma_checked(interpreted(core, ops, pc, ops.len()), start, t, piped);
        }
    }
}

/// A last question for control changes nothing.
proof fn lemma_checked<I: MemoryInterface>(
    core: CoreState<I>,
    start: CoreState<I>,
    s: Cpu,
    piped: bool,
)
    requires
        placid::<I>(),
        s.bus == (|calls: Seq<BusCall>| last_reply::<Arm7tdmiCore<I>>(start, calls)),
        s.took & 1 == 0,
        met(core, resumed(start, s), piped),
    ensures
        met(core, resumed(start, s.called(Callee::ChainAbortCheck, 0, 0, 0)), piped),
{
    lemma_core_behind(start, s, Callee::ChainAbortCheck, 0, 0, 0);
}

/// The law for a block that is left in the middle.
#[verifier::spinoff_prover]
proof fn lemma_left<I: MemoryInterface>(
    core: CoreState<I>,
    start: CoreState<I>,
    ops: Seq<u16>,
    pc: u32,
    s: Cpu,
)
    requires
        placid::<I>(),
        gives_bytes::<I>(),
        unified_ok(ops),
        alike(core, start, s),
        smooth_block(ops, pc, s),
        unified_body(ops, pc, false, (ops.len() - 1) as nat, s).exit is Some,
    ensures
        ({
            let o = unified_body(ops, pc, false, (ops.len() - 1) as nat, s);
            &&& o.exit == Some(Exit::Return(ABORTED))
            &&& exists|k: nat|
                {
                    &&& #[trigger] left_after(core, start, ops, pc, k, o.cpu)
                    &&& fed(core, ops, pc, k + 1) ==> interpreted(core, ops, pc, k + 1).pipeline
                        == core_behind(start, o.cpu).pipeline
                }
        }),
{
    let n = (ops.len() - 1) as nat;
    lemma_body_agrees(core, start, ops, pc, n, s);
    let o = unified_body(ops, pc, false, n, s);
    let k = choose|k: nat| k < n && #[trigger] left_after(core, start, ops, pc, k, o.cpu);
    if fed(core, ops, pc, k + 1) {
        lemma_pipeline(core, ops, pc, k + 1);
    }
    assert(left_after(core, start, ops, pc, k, o.cpu));
}

/// The law for a block that runs to its end.
#[verifier::spinoff_prover]
proof fn lemma_run_out<I: MemoryInterface>(
    core: CoreState<I>,
    start: CoreState<I>,
    ops: Seq<u16>,
    pc: u32,
    linked: bool,
    s: Cpu,
)
    requires
        placid::<I>(),
        gives_bytes::<I>(),
        unified_ok(ops),
        ops.len() <= u32::MAX,
        alike(core, start, s),
        core.thumb(),
        pc % 2 == 0,
        s.took == 0,
        smooth_block(ops, pc, s),
        unified_body(ops, pc, false, (ops.len() - 1) as nat, s).exit is None,
    ensures
        ({
            let o = unified(ops, pc, false, None, linked, s);
            &&& o.exit is None
            &&& met(
                interpreted(core, ops, pc, ops.len()),
                resumed(start, o.cpu),
                found_again(core, start, ops, pc, s) || o.cpu.took & 1 != 0,
            )
            &&& tail_item(ops.last())->0 is Body ==> o.cpu.took == 0 && o.cpu.bus == s.bus
        }),
{
    let n = (ops.len() - 1) as nat;
    lemma_before_tail(core, start, ops, pc, s);
    let t = unified_body(ops, pc, false, n, s).cpu;
    let before = interpreted(core, ops, pc, n);
    let at = word(pc.wrapping_add(4) + 2 * n);
    let op = ops[n as int];
    lemma_fetch_alike(before, start, t, at);
    lemma_fetch_address(pc, n);
    lemma_even(pc, n as int);
    let piped = found_again(core, start, ops, pc, s);
    if piped {
        lemma_fetches_found(core, ops, pc, n);
        lemma_ahead_found(core, core_behind(start, s), ops, pc, ops.len());
    }
    lemma_tail_agrees(
        before.fetched16(at).with_pc(at),
        start,
        t,
        op,
        at,
        instr_pc(pc, n as int),
        linked,
        piped,
    );
    lemma_unfold(core, ops, pc, ops.len());
}

/// The instructions of a block at an even address have even addresses.
pub proof fn lemma_even(pc: u32, k: int)
    requires
        pc % 2 == 0,
    ensures
        instr_pc(pc, k) % 2 == 0,
{
}

} // verus!
