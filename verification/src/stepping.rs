//! A step of the fast path is a step of the interpreter.

use vstd::prelude::*;
use crate::bits::{bits, truth};
use crate::cache::DecodedInstr;
use crate::cpu::{CoreState, CpuAction, DebugState};
use crate::fastpath::{Handlers, thumb_slot_of};
use crate::interpreter::{Interpreter, Remaining, effect_of};
use crate::laws::words::lemma_cut;
use crate::memory::{MemoryAccess, MemoryInterface, Request};

verus! {

/// Whether a bus behaves like another one that sees its states through `seen`.
pub open spec fn seen_through<I: MemoryInterface, J: MemoryInterface>(
    seen: spec_fn(I::State) -> J::State,
) -> bool {
    &&& forall|state: I::State, request: Request| #[trigger]
        I::reply(state, request) == J::reply(seen(state), request)
    &&& forall|state: I::State, request: Request|
        seen(#[trigger] I::next(state, request)) == J::next(seen(state), request)
}

/// A core carried over to another bus, with the debugger's notes replaced.
pub open spec fn carried<I: MemoryInterface, J: MemoryInterface>(
    core: CoreState<I>,
    seen: spec_fn(I::State) -> J::State,
    dbg: DebugState,
) -> CoreState<J> {
    CoreState {
        pc: core.pc,
        bus: seen(core.bus),
        next_fetch_access: core.next_fetch_access,
        pipeline: core.pipeline,
        gpr: core.gpr,
        cpsr: core.cpsr,
        spsr: core.spsr,
        banks: core.banks,
        breakpoints: core.breakpoints,
        dbg,
        cache: core.cache,
        aot: core.aot,
    }
}

/// A core with the debugger's notes replaced.
pub open spec fn noting<I: MemoryInterface>(core: CoreState<I>, dbg: DebugState) -> CoreState<I> {
    CoreState { dbg, ..core }
}

/// Whether an instruction that goes on to the next one leaves the program counter and the pipeline
/// alone.
pub open spec fn stands<I: MemoryInterface>(
    core: CoreState<I>,
    done: (CoreState<I>, CpuAction),
) -> bool {
    done.1 is AdvancePC ==> done.0.pc == core.pc && done.0.pipeline == core.pipeline
}

/// Whether an instruction has the same effect on another bus and whatever the debugger noted, and
/// stands.
pub open spec fn unwatched<I: MemoryInterface, J: MemoryInterface>(
    core: CoreState<I>,
    seen: spec_fn(I::State) -> J::State,
    dbg: DebugState,
    done: (CoreState<I>, CpuAction),
    watched: (CoreState<J>, CpuAction),
) -> bool {
    watched == (carried::<I, J>(done.0, seen, dbg), done.1) && stands(core, done)
}

proof fn lemma_idled<I: MemoryInterface, J: MemoryInterface>(
    core: CoreState<I>,
    seen: spec_fn(I::State) -> J::State,
    dbg: DebugState,
    n: nat,
)
    requires
        seen_through::<I, J>(seen),
    ensures
        carried::<I, J>(core, seen, dbg).idled(n) == carried::<I, J>(core.idled(n), seen, dbg),
        core.idled(n).pc == core.pc,
        core.idled(n).pipeline == core.pipeline,
    decreases n,
{
    if n > 0 {
        lemma_idled::<I, J>(core, seen, dbg, (n - 1) as nat);
    }
}

proof fn lemma_ldm<I: MemoryInterface, J: MemoryInterface>(
    core: CoreState<I>,
    seen: spec_fn(I::State) -> J::State,
    dbg: DebugState,
    list: u8,
    base: u32,
    k: nat,
)
    requires
        seen_through::<I, J>(seen),
    ensures
        carried::<I, J>(core, seen, dbg).ldm(list, base, k) == carried::<I, J>(core.ldm(list, base, k), seen, dbg),
        core.ldm(list, base, k).pc == core.pc,
        core.ldm(list, base, k).pipeline == core.pipeline,
    decreases k,
{
    if k > 0 {
        lemma_ldm::<I, J>(core, seen, dbg, list, base, (k - 1) as nat);
    }
}

proof fn lemma_stm<I: MemoryInterface, J: MemoryInterface>(
    core: CoreState<I>,
    seen: spec_fn(I::State) -> J::State,
    dbg: DebugState,
    list: u8,
    rb: int,
    base: u32,
    k: nat,
)
    requires
        seen_through::<I, J>(seen),
    ensures
        carried::<I, J>(core, seen, dbg).stm(list, rb, base, k) == carried::<I, J>(core.stm(list, rb, base, k), seen, dbg),
        core.stm(list, rb, base, k).pc == core.pc,
        core.stm(list, rb, base, k).pipeline == core.pipeline,
    decreases k,
{
    if k > 0 {
        lemma_stm::<I, J>(core, seen, dbg, list, rb, base, (k - 1) as nat);
    }
}

proof fn lemma_popped<I: MemoryInterface, J: MemoryInterface>(
    core: CoreState<I>,
    seen: spec_fn(I::State) -> J::State,
    dbg: DebugState,
    list: u8,
    k: nat,
)
    requires
        seen_through::<I, J>(seen),
    ensures
        carried::<I, J>(core, seen, dbg).popped(list, k) == carried::<I, J>(core.popped(list, k), seen, dbg),
        core.popped(list, k).pc == core.pc,
        core.popped(list, k).pipeline == core.pipeline,
    decreases k,
{
    if k > 0 {
        lemma_popped::<I, J>(core, seen, dbg, list, (k - 1) as nat);
    }
}

proof fn lemma_pushed<I: MemoryInterface, J: MemoryInterface>(
    core: CoreState<I>,
    seen: spec_fn(I::State) -> J::State,
    dbg: DebugState,
    list: u8,
    lr: bool,
    k: nat,
)
    requires
        seen_through::<I, J>(seen),
    ensures
        carried::<I, J>(core, seen, dbg).pushed(list, lr, k) == carried::<I, J>(core.pushed(list, lr, k), seen, dbg),
        core.pushed(list, lr, k).pc == core.pc,
        core.pushed(list, lr, k).pipeline == core.pipeline,
    decreases 8 - k,
{
    if k < 8 {
        lemma_pushed::<I, J>(core, seen, dbg, list, lr, k + 1);
    }
}

/// Formats 1 to 5.
proof fn lemma_data<I: MemoryInterface, J: MemoryInterface>(
    core: CoreState<I>,
    seen: spec_fn(I::State) -> J::State,
    dbg: DebugState,
    x: u32,
)
    requires
        seen_through::<I, J>(seen),
    ensures
        carried::<I, J>(core, seen, dbg).thumb_shift(x) == carried::<I, J>(core.thumb_shift(x), seen, dbg),
        carried::<I, J>(core, seen, dbg).thumb_add_sub(x) == carried::<I, J>(core.thumb_add_sub(x), seen, dbg),
        carried::<I, J>(core, seen, dbg).thumb_imm(x) == carried::<I, J>(core.thumb_imm(x), seen, dbg),
        stands(core, core.thumb_shift(x).going(MemoryAccess::Sequential)),
        stands(core, core.thumb_add_sub(x).going(MemoryAccess::Sequential)),
        stands(core, core.thumb_imm(x).going(MemoryAccess::Sequential)),
{
}

proof fn lemma_registers<I: MemoryInterface, J: MemoryInterface>(
    core: CoreState<I>,
    seen: spec_fn(I::State) -> J::State,
    dbg: DebugState,
    x: u32,
)
    requires
        seen_through::<I, J>(seen),
    ensures
        carried::<I, J>(core, seen, dbg).thumb_alu(x) == carried::<I, J>(core.thumb_alu(x), seen, dbg),
        stands(core, core.thumb_alu(x).going(MemoryAccess::Sequential)),
        unwatched(core, seen, dbg, core.thumb_hi(x), carried::<I, J>(core, seen, dbg).thumb_hi(x)),
{
    let op = bits(x, 6, 4);
    let src = core.gpr[bits(x, 3, 3) as int];
    lemma_idled::<I, J>(core, seen, dbg, CoreState::<I>::thumb_alu_cycles(op, src));
}

/// Formats 6 to 13.
proof fn lemma_transfer<I: MemoryInterface, J: MemoryInterface>(
    core: CoreState<I>,
    seen: spec_fn(I::State) -> J::State,
    dbg: DebugState,
    x: u32,
)
    requires
        seen_through::<I, J>(seen),
    ensures
        core.thumb_transfer(x) is Some == carried::<I, J>(core, seen, dbg).thumb_transfer(x) is Some,
        core.thumb_transfer(x) is Some ==> unwatched(
            core,
            seen,
            dbg,
            core.thumb_transfer(x)->0,
            carried::<I, J>(core, seen, dbg).thumb_transfer(x)->0,
        ),
{
}

/// Multiple transfers.
proof fn lemma_multiple<I: MemoryInterface, J: MemoryInterface>(
    core: CoreState<I>,
    seen: spec_fn(I::State) -> J::State,
    dbg: DebugState,
    x: u32,
)
    requires
        seen_through::<I, J>(seen),
    ensures
        unwatched(core, seen, dbg, core.thumb_multiple(x), carried::<I, J>(core, seen, dbg).thumb_multiple(x)),
{
    let rb = bits(x, 8, 3) as int;
    let list = bits(x, 0, 8) as u8;
    let base = core.gpr[rb] & 0xffff_fffc;
    lemma_ldm::<I, J>(core, seen, dbg, list, base, 8);
    lemma_stm::<I, J>(core, seen, dbg, list, rb, base, 8);
}

/// Pushes and pops.
proof fn lemma_stack<I: MemoryInterface, J: MemoryInterface>(
    core: CoreState<I>,
    seen: spec_fn(I::State) -> J::State,
    dbg: DebugState,
    x: u32,
)
    requires
        seen_through::<I, J>(seen),
    ensures
        unwatched(core, seen, dbg, core.thumb_stack(x), carried::<I, J>(core, seen, dbg).thumb_stack(x)),
{
    let list = bits(x, 0, 8) as u8;
    lemma_popped::<I, J>(core, seen, dbg, list, 8);
    lemma_pushed::<I, J>(core, seen, dbg, list, bits(x, 8, 1) == 1, 0);
}

/// Multiple transfers, branches and what the fast path leaves over.
proof fn lemma_flow<I: MemoryInterface, J: MemoryInterface>(
    core: CoreState<I>,
    seen: spec_fn(I::State) -> J::State,
    dbg: DebugState,
    x: u32,
)
    requires
        seen_through::<I, J>(seen),
    ensures
        unwatched(
            core,
            seen,
            dbg,
            core.thumb_flow::<Remaining>(x),
            carried::<I, J>(core, seen, dbg).thumb_flow::<Remaining>(x),
        ),
{
    lemma_multiple::<I, J>(core, seen, dbg, x);
    lemma_stack::<I, J>(core, seen, dbg, x);
}

/// An instruction has the same effect on a bus that mirrors another, and whatever the debugger noted.
/// One that goes on to the next leaves the program counter and the pipeline alone.
pub proof fn lemma_unwatched<I: MemoryInterface, J: MemoryInterface>(
    core: CoreState<I>,
    seen: spec_fn(I::State) -> J::State,
    dbg: DebugState,
    x: u32,
)
    requires
        seen_through::<I, J>(seen),
    ensures
        unwatched(
            core,
            seen,
            dbg,
            core.thumb_effect::<Remaining>(x),
            carried::<I, J>(core, seen, dbg).thumb_effect::<Remaining>(x),
        ),
{
    lemma_data::<I, J>(core, seen, dbg, x);
    lemma_registers::<I, J>(core, seen, dbg, x);
    lemma_transfer::<I, J>(core, seen, dbg, x);
    lemma_flow::<I, J>(core, seen, dbg, x);
}

/// What a step makes of the effect of its instruction, in the dispatcher.
pub open spec fn dispatched_step<I: MemoryInterface>(done: (CoreState<I>, CpuAction)) -> (
    CoreState<I>,
    bool,
) {
    match done.1 {
        CpuAction::AdvancePC(access) => (
            done.0.with_pc(done.0.pc.wrapping_add(2)).with_fetch(access),
            false,
        ),
        CpuAction::PipelineFlushed => (done.0, true),
    }
}

/// A step of the fast path over the effect of its instruction.
pub proof fn lemma_fast_unfolds<I: MemoryInterface>(core: CoreState<I>, at: u32, op: u16)
    ensures
        core.thumb_stepped::<Remaining>(at, op as u32) == CoreState::concluded(
            effect_of(core.fetched16(at).with_pc(at), op),
            at,
            2,
        ),
{
    let from = core.fetched16(at).with_pc(at);
    assert(effect_of(from, op) == from.thumb_effect::<Remaining>(op as u32)) by {
        reveal(effect_of);
    }
}

/// The other two kinds of steps: a fetch and a handler.
proof fn lemma_steps_unfold<I: MemoryInterface, H: Handlers<I>>(core: CoreState<I>, op: u16)
    requires
        core.thumb(),
        core.pc & 0xffff_fffe == core.pc,
        core.pipeline[0] == op,
    ensures
        core.replayed_one::<H>(DecodedInstr::Thumb { raw: op }) == core.fetched16(
            core.pc,
        ).thumb_executed::<H>(thumb_slot_of(op as u32), op),
        core.stepped::<H>() == noting(
            core.fetched16(core.pc),
            core.watched().dbg,
        ).thumb_executed::<H>(thumb_slot_of(op as u32), op).0,
{
    assert(core.next_thumb() == op);
    assert(core.watched().fetched16(core.pc) == noting(
        core.fetched16(core.pc),
        core.watched().dbg,
    ));
}

/// The effect of an instruction over another bus and different notes.
pub proof fn lemma_effect_carried<I: MemoryInterface, J: MemoryInterface>(
    core: CoreState<I>,
    seen: spec_fn(I::State) -> J::State,
    dbg: DebugState,
    op: u16,
)
    requires
        seen_through::<I, J>(seen),
    ensures
        unwatched(
            core,
            seen,
            dbg,
            effect_of(core, op),
            effect_of(carried::<I, J>(core, seen, dbg), op),
        ),
{
    reveal(effect_of);
    lemma_unwatched::<I, J>(core, seen, dbg, op as u32);
}

/// The effect of an instruction over different notes.
pub proof fn lemma_effect_unwatched<I: MemoryInterface>(core: CoreState<I>, dbg: DebugState, op: u16)
    ensures
        effect_of(noting(core, dbg), op) == (
            noting(effect_of(core, op).0, dbg),
            effect_of(core, op).1,
        ),
        stands(core, effect_of(core, op)),
{
    let seen = |state: I::State| state;
    lemma_effect_carried::<I, I>(core, seen, dbg, op);
    assert(carried::<I, I>(core, seen, dbg) == noting(core, dbg));
    assert(carried::<I, I>(effect_of(core, op).0, seen, dbg) == noting(
        effect_of(core, op).0,
        dbg,
    ));
}

/// The two ways to conclude a step agree.
proof fn lemma_conclusions<I: MemoryInterface>(
    from: CoreState<I>,
    dbg: DebugState,
    done: (CoreState<I>, CpuAction),
    watched: (CoreState<I>, CpuAction),
)
    requires
        watched == (noting(done.0, dbg), done.1),
        stands(from, done),
        done.0.dbg == from.dbg,
    ensures
        ({
            let fast = CoreState::concluded(done, from.pc, 2);
            &&& dispatched_step(done) == (fast.0, fast.1 == 1)
            &&& noting(fast.0, dbg) == dispatched_step(watched).0
            &&& fast.0.dbg == from.dbg
            &&& fast.1 == truth(done.1 is PipelineFlushed)
        }),
{
}

/// The steps of a dispatcher whose handler has the effect `done`.
#[verifier::spinoff_prover]
proof fn lemma_step_with<I: MemoryInterface, H: Handlers<I>>(
    core: CoreState<I>,
    op: u16,
    done: (CoreState<I>, CpuAction),
)
    requires
        core.thumb(),
        core.pc & 0xffff_fffe == core.pc,
        core.pipeline[0] == op,
        H::thumb_done(thumb_slot_of(op as u32), core.fetched16(core.pc), op) == done,
        H::thumb_done(
            thumb_slot_of(op as u32),
            noting(core.fetched16(core.pc), core.watched().dbg),
            op,
        ) == (noting(done.0, core.watched().dbg), done.1),
        stands(core.fetched16(core.pc), done),
        done.0.dbg == core.dbg,
    ensures
        ({
            let fast = CoreState::concluded(done, core.pc, 2);
            let step = core.stepped::<H>();
            &&& noting(fast.0, step.dbg) == step
            &&& fast.0.dbg == core.dbg
            &&& core.replayed_one::<H>(DecodedInstr::Thumb { raw: op }) == (fast.0, fast.1 == 1)
            &&& fast.1 == truth(done.1 is PipelineFlushed)
        }),
{
    let from = core.fetched16(core.pc);
    let dbg = core.watched().dbg;
    let slot = thumb_slot_of(op as u32);
    lemma_steps_unfold::<I, H>(core, op);
    lemma_conclusions(from, dbg, done, (noting(done.0, dbg), done.1));
    assert(from.thumb_executed::<H>(slot, op) == dispatched_step(done));
    assert(noting(from, dbg).thumb_executed::<H>(slot, op) == dispatched_step(
        (noting(done.0, dbg), done.1),
    ));
}

/// One step of the fast path on the instruction in the pipeline is one step of the interpreter. It
/// leaves the same registers, pipeline and bus, made the same requests in the same order, and gives
/// 1 exactly if the handler refilled the pipeline. Only a single step notes the instruction for the
/// debugger.
#[verifier::spinoff_prover]
#[verifier::rlimit(40)]
pub proof fn law_fast_step_is_a_step<I: MemoryInterface>(core: CoreState<I>)
    requires
        core.thumb(),
        core.pc % 2 == 0,
        core.pipeline[0] <= 0xffff,
    ensures
        ({
            let op = core.pipeline[0];
            let fast = core.thumb_stepped::<Remaining>(core.pc, op);
            let step = core.stepped::<Interpreter>();
            let handled = <Interpreter as Handlers<I>>::thumb_done(
                thumb_slot_of(op),
                core.fetched16(core.pc),
                core.next_thumb(),
            );
            &&& noting(fast.0, step.dbg) == step
            &&& fast.0.dbg == core.dbg
            &&& core.replayed_one::<Interpreter>(DecodedInstr::Thumb { raw: core.next_thumb() }) == (
                fast.0,
                fast.1 == 1,
            )
            &&& fast.1 == truth(handled.1 is PipelineFlushed)
        }),
{
    let op = core.next_thumb();
    let pc = core.pc;
    assert(pc & 0xffff_fffe == pc) by {
        lemma_cut(pc);
    }
    let from = core.fetched16(pc);
    let dbg = core.watched().dbg;
    assert(from.with_pc(pc) == from);
    assert(noting(from, core.dbg) == from);
    lemma_fast_unfolds(core, pc, op);
    lemma_effect_unwatched(from, dbg, op);
    lemma_effect_unwatched(from, core.dbg, op);
    lemma_step_with::<I, Interpreter>(core, op, effect_of(from, op));
}

} // verus!
