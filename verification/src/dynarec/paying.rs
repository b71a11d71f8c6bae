//! A compiled block pays what the interpreter pays.

use vstd::prelude::*;
use crate::bits::{lemma_bits_range, word};
use crate::cpu::{Arm7tdmiCore, CoreState, DebugState};
use crate::dynarec::agreement::{core_behind, interpreted, lemma_unfold};
use crate::dynarec::bus::{Bus, after_calls, last_reply};
use crate::dynarec::decode::{listed, thumb_pop_pc};
use crate::dynarec::ir::{BusCall, Callee, Cpu};
use crate::dynarec::keeping::{
    adds_quietly, lemma_add_quietly, lemma_body_keeps, lemma_item_keeps, lemma_lists_keep,
};
use crate::dynarec::leaving::lemma_effect_leaves;
use crate::dynarec::parity::{
    law_compiled_block_agrees, lemma_body_agrees, lemma_even, lemma_fetch_address, lemma_fetched,
    lemma_never_left, lemma_none_interpreted, lemma_target, level_tail, smooth, smooth_block,
};
use crate::dynarec::plain::placid;
use crate::dynarec::sem::{LR, SP, exec_pop_pc, load_at, loaded, slot, store_at, stored};
use crate::dynarec::shapes::{lemma_shape_branch, lemma_shape_multiple};
use crate::dynarec::tails::{
    lemma_pop_pc_shape, lemma_popped_keeps, lemma_same_set, lemma_thumb_bit, lemma_took, resumed,
};
use crate::dynarec::thumb::{Body, body_item, exec_body};
use crate::dynarec::transfers::{
    alike, gives_bytes, law_thumb_body_agrees, lemma_aligned, lemma_decoded, lemma_pop, lemma_slot,
    level, pushes,
};
use crate::dynarec::unified::{
    Tail, instr_pc, item_step, law_dead_flag_writes_unseen, nonseq_advance, opcodes_ahead,
    tail_item, unified, unified_body, unified_ok, unified_tail,
};
use crate::fastpath::access_at;
use crate::interpreter::effect_of;
use crate::memory::{MemoryAccess, MemoryInterface, Request};
use crate::psr::RegPSR;
use crate::stepping::{carried, lemma_effect_carried, seen_through};

verus! {

/// The interpreter's state on a bus that mirrors another one.
proof fn lemma_interpreted_carried<I: MemoryInterface, J: MemoryInterface>(
    core: CoreState<I>,
    seen: spec_fn(I::State) -> J::State,
    dbg: DebugState,
    ops: Seq<u16>,
    pc: u32,
    n: nat,
)
    requires
        seen_through::<I, J>(seen),
        n <= ops.len(),
    ensures
        interpreted(carried::<I, J>(core, seen, dbg), ops, pc, n) == carried::<I, J>(
            interpreted(core, ops, pc, n),
            seen,
            dbg,
        ),
    decreases n,
{
    let twin = carried::<I, J>(core, seen, dbg);
    if n == 0 {
        lemma_none_interpreted(core, ops, pc);
        lemma_none_interpreted(twin, ops, pc);
    } else {
        let k = (n - 1) as nat;
        let at = word(pc.wrapping_add(4) + 2 * k);
        lemma_interpreted_carried::<I, J>(core, seen, dbg, ops, pc, k);
        lemma_unfold(core, ops, pc, n);
        lemma_unfold(twin, ops, pc, n);
        let from = interpreted(core, ops, pc, k).fetched16(at).with_pc(at);
        lemma_effect_carried::<I, J>(from, seen, dbg, ops[k as int]);
        assert(interpreted(twin, ops, pc, k).fetched16(at).with_pc(at) == carried::<I, J>(
            from,
            seen,
            dbg,
        ));
    }
}

/// Fetching ahead on a bus that mirrors another one.
proof fn lemma_fetched_carried<I: MemoryInterface, J: MemoryInterface>(
    core: CoreState<I>,
    seen: spec_fn(I::State) -> J::State,
    dbg: DebugState,
    pc: u32,
    n: nat,
)
    requires
        seen_through::<I, J>(seen),
    ensures
        carried::<I, J>(core, seen, dbg).fetched_n(pc, n) == carried::<I, J>(
            core.fetched_n(pc, n),
            seen,
            dbg,
        ),
    decreases n,
{
    if n > 0 {
        lemma_fetched_carried::<I, J>(core, seen, dbg, pc, (n - 1) as nat);
    }
}

/// A call on a bus that mirrors another one.
proof fn lemma_call_carried<I: MemoryInterface, J: MemoryInterface>(
    core: CoreState<I>,
    seen: spec_fn(I::State) -> J::State,
    dbg: DebugState,
    call: BusCall,
)
    requires
        seen_through::<I, J>(seen),
    ensures
        <Arm7tdmiCore<J> as Bus>::next(carried::<I, J>(core, seen, dbg), call) == carried::<I, J>(
            <Arm7tdmiCore<I> as Bus>::next(core, call),
            seen,
            dbg,
        ),
        <Arm7tdmiCore<J> as Bus>::reply(carried::<I, J>(core, seen, dbg), call)
            == <Arm7tdmiCore<I> as Bus>::reply(core, call),
{
    lemma_fetched_carried::<I, J>(core, seen, dbg, call.a, call.b as nat);
}

/// Calls on a bus that mirrors another one.
proof fn lemma_calls_carried<I: MemoryInterface, J: MemoryInterface>(
    start: CoreState<I>,
    seen: spec_fn(I::State) -> J::State,
    dbg: DebugState,
    calls: Seq<BusCall>,
)
    requires
        seen_through::<I, J>(seen),
    ensures
        after_calls::<Arm7tdmiCore<J>>(carried::<I, J>(start, seen, dbg), calls) == carried::<I, J>(
            after_calls::<Arm7tdmiCore<I>>(start, calls),
            seen,
            dbg,
        ),
    decreases calls.len(),
{
    if calls.len() > 0 {
        lemma_calls_carried::<I, J>(start, seen, dbg, calls.drop_last());
        lemma_call_carried::<I, J>(
            after_calls::<Arm7tdmiCore<I>>(start, calls.drop_last()),
            seen,
            dbg,
            calls.last(),
        );
    }
}

/// Compiled code that is like an interpreter on a bus is so on a bus that it mirrors.
proof fn lemma_alike_carried<I: MemoryInterface, J: MemoryInterface>(
    core: CoreState<I>,
    start: CoreState<I>,
    seen: spec_fn(I::State) -> J::State,
    dbg: DebugState,
    s: Cpu,
)
    requires
        seen_through::<I, J>(seen),
        alike(core, start, s),
    ensures
        alike(carried::<I, J>(core, seen, dbg), carried::<I, J>(start, seen, dbg), s),
{
    let twin = carried::<I, J>(start, seen, dbg);
    let bus = |calls: Seq<BusCall>| last_reply::<Arm7tdmiCore<I>>(start, calls);
    let other = |calls: Seq<BusCall>| last_reply::<Arm7tdmiCore<J>>(twin, calls);
    assert forall|calls: Seq<BusCall>| #[trigger] bus(calls) == other(calls) by {
        lemma_calls_carried::<I, J>(start, seen, dbg, calls.drop_last());
        lemma_call_carried::<I, J>(
            after_calls::<Arm7tdmiCore<I>>(start, calls.drop_last()),
            seen,
            dbg,
            calls.last(),
        );
    }
    assert(bus =~= other);
    lemma_calls_carried::<I, J>(start, seen, dbg, s.calls);
}

/// Whether a bus charges each request at its price. `paid` is what was charged up to a state.
pub open spec fn charges<I: MemoryInterface>(
    paid: spec_fn(I::State) -> int,
    price: spec_fn(Request) -> int,
) -> bool {
    forall|state: I::State, request: Request|
        paid(#[trigger] I::next(state, request)) == paid(state) + price(request)
}

/// What the requests of a call cost; a call that fetches ahead is not counted here.
pub open spec fn toll<I: MemoryInterface>(price: spec_fn(Request) -> int, call: BusCall) -> int {
    let nonseq = MemoryAccess::NonSeq;
    let sequential = MemoryAccess::Sequential;
    let idle = price(Request::IdleCycle);
    match call.to {
        Callee::Load32 => price(Request::Load32(call.a, nonseq)),
        Callee::Store32 => price(Request::Store32(call.a, call.b, nonseq)),
        Callee::Load8 => price(Request::Load8(call.a, nonseq)),
        Callee::Store8 => price(Request::Store8(call.a, (call.b % 0x100) as u8, nonseq)),
        Callee::Load32Sequential => price(Request::Load32(call.a, sequential)),
        Callee::Store32Sequential => price(Request::Store32(call.a, call.b, sequential)),
        Callee::Store16 => price(
            Request::Store16(call.a & 0xffff_fffe, (call.b % 0x1_0000) as u16, nonseq),
        ),
        Callee::LoadWithIdle16 => price(CoreState::<I>::half_request(call.a)) + idle,
        Callee::LoadWithIdle32 => price(Request::Load32(call.a, nonseq)) + idle,
        Callee::LoadWithIdle8 => price(Request::Load8(call.a, nonseq)) + idle,
        Callee::PayThumbFetchExtraNonseq => price(Request::PayThumbFetchExtraNonseq(call.a)),
        Callee::IdleCycle => idle,
        Callee::ChainAbortCheck => price(Request::TakeBlockCacheDirty),
        Callee::SetNextFetchNonseq | Callee::ThumbFetchN | Callee::AbortMidBlock => 0,
    }
}

/// What some calls cost.
pub open spec fn tolls<I: MemoryInterface>(
    price: spec_fn(Request) -> int,
    calls: Seq<BusCall>,
) -> int
    decreases calls.len(),
{
    if calls.len() == 0 {
        0
    } else {
        tolls::<I>(price, calls.drop_last()) + toll::<I>(price, calls.last())
    }
}

/// One more call.
proof fn lemma_toll<I: MemoryInterface>(
    price: spec_fn(Request) -> int,
    calls: Seq<BusCall>,
    call: BusCall,
)
    ensures
        tolls::<I>(price, calls.push(call)) == tolls::<I>(price, calls) + toll::<I>(price, call),
{
    assert(calls.push(call).drop_last() =~= calls);
}

/// Quiet calls are charged at their tolls.
proof fn lemma_tolls_paid<I: MemoryInterface>(
    paid: spec_fn(I::State) -> int,
    price: spec_fn(Request) -> int,
    start: CoreState<I>,
    a: Seq<BusCall>,
    b: Seq<BusCall>,
)
    requires
        charges::<I>(paid, price),
        adds_quietly(a, b),
    ensures
        paid(after_calls::<Arm7tdmiCore<I>>(start, b).bus) - paid(
            after_calls::<Arm7tdmiCore<I>>(start, a).bus,
        ) == tolls::<I>(price, b) - tolls::<I>(price, a),
    decreases b.len(),
{
    if b != a {
        lemma_tolls_paid::<I>(paid, price, start, a, b.drop_last());
    }
}

/// What an instruction adds to the calls of two states costs the same.
pub open spec fn adds_the_same<I: MemoryInterface>(
    price: spec_fn(Request) -> int,
    s: Cpu,
    t: Cpu,
    s2: Cpu,
    t2: Cpu,
) -> bool {
    tolls::<I>(price, t.calls) - tolls::<I>(price, s.calls) == tolls::<I>(price, t2.calls)
        - tolls::<I>(price, s2.calls)
}

/// The calls of a multiple transfer depend on the registers only.
proof fn lemma_lists_toll<I: MemoryInterface>(
    price: spec_fn(Request) -> int,
    list: u8,
    base: u32,
    k: nat,
    s: Cpu,
    s2: Cpu,
)
    requires
        s.gpr == s2.gpr,
    ensures
        adds_the_same::<I>(
            price,
            s,
            loaded(list, k, base, true, s),
            s2,
            loaded(list, k, base, true, s2),
        ),
        adds_the_same::<I>(price, s, stored(list, k, base, s), s2, stored(list, k, base, s2)),
        stored(list, k, base, s).gpr == s.gpr,
        stored(list, k, base, s2).gpr == s.gpr,
    decreases k,
{
    if k > 0 {
        let j = (k - 1) as nat;
        lemma_lists_toll::<I>(price, list, base, j, s, s2);
        let n = listed(list, j);
        let load = BusCall { to: load_at(n, true), a: slot(base, n), b: 0, c: 0 };
        lemma_toll::<I>(price, loaded(list, j, base, true, s).calls, load);
        lemma_toll::<I>(price, loaded(list, j, base, true, s2).calls, load);
        let p = stored(list, j, base, s);
        let store = BusCall { to: store_at(n), a: slot(base, n), b: p.reg(j as usize), c: 0 };
        lemma_toll::<I>(price, p.calls, store);
        lemma_toll::<I>(price, stored(list, j, base, s2).calls, store);
    }
}

/// The calls of an instruction depend on the registers only.
proof fn lemma_item_toll<I: MemoryInterface>(
    price: spec_fn(Request) -> int,
    item: Body,
    pc: u32,
    s: Cpu,
    s2: Cpu,
)
    requires
        s.gpr == s2.gpr,
    ensures
        adds_the_same::<I>(price, s, exec_body(item, pc, s), s2, exec_body(item, pc, s2)),
{
    reveal(exec_body);
    let t = exec_body(item, pc, s);
    let t2 = exec_body(item, pc, s2);
    let idle = BusCall { to: Callee::IdleCycle, a: 0, b: 0, c: 0 };
    match item {
        Body::F14(d) => {
            let sp = s.reg(SP);
            let base = sp.wrapping_sub((4 * d.total()) as u32);
            let n = listed(d.reg_list, 8);
            lemma_lists_toll::<I>(price, d.reg_list, sp, 8, s, s2);
            lemma_lists_toll::<I>(price, d.reg_list, base, 8, s, s2);
            let link = BusCall { to: store_at(n), a: slot(base, n), b: s.reg(LR), c: 0 };
            lemma_toll::<I>(price, stored(d.reg_list, 8, base, s).calls, link);
            lemma_toll::<I>(price, stored(d.reg_list, 8, base, s2).calls, link);
            lemma_toll::<I>(price, loaded(d.reg_list, 8, sp, true, s).calls, idle);
            lemma_toll::<I>(price, loaded(d.reg_list, 8, sp, true, s2).calls, idle);
        },
        Body::F15(d) => {
            let base = s.reg(d.rb) & 0xffff_fffc;
            lemma_lists_toll::<I>(price, d.rlist, base, 8, s, s2);
            lemma_toll::<I>(price, loaded(d.rlist, 8, base, true, s).calls, idle);
            lemma_toll::<I>(price, loaded(d.rlist, 8, base, true, s2).calls, idle);
        },
        _ => {
            assert((t.calls == s.calls && t2.calls == s2.calls) || (t.calls == s.calls.push(
                t.calls.last(),
            ) && t2.calls == s2.calls.push(t2.calls.last()) && t.calls.last()
                == t2.calls.last()));
            lemma_toll::<I>(price, s.calls, t.calls.last());
            lemma_toll::<I>(price, s2.calls, t.calls.last());
        },
    }
}

/// The interpreter pays for an instruction other than a push what compiled code pays.
#[verifier::spinoff_prover]
proof fn lemma_effect_paid<I: MemoryInterface>(
    paid: spec_fn(I::State) -> int,
    price: spec_fn(Request) -> int,
    from: CoreState<I>,
    t: Cpu,
    op: u16,
    pc: u32,
)
    requires
        charges::<I>(paid, price),
        gives_bytes::<I>(),
        from.gpr == t.gpr,
        t.gpr.len() == 15,
        from.cpsr.raw == t.cpsr,
        from.pc == pc.wrapping_add(4),
        body_item(op) is Some,
        level(body_item(op)->0, t),
        !pushes(body_item(op)->0),
    ensures
        paid(effect_of(from, op).0.bus) - paid(from.bus) == tolls::<I>(
            price,
            exec_body(body_item(op)->0, pc, t).calls,
        ) - tolls::<I>(price, t.calls),
{
    let item = body_item(op)->0;
    let t2 = Cpu {
        calls: Seq::empty(),
        bus: |calls: Seq<BusCall>| last_reply::<Arm7tdmiCore<I>>(from, calls),
        ..t
    };
    assert(core_behind(from, t2) == from);
    law_thumb_body_agrees(from, from, t2, op, pc);
    lemma_item_keeps(item, pc, t2);
    lemma_tolls_paid::<I>(paid, price, from, t2.calls, exec_body(item, pc, t2).calls);
    lemma_item_toll::<I>(price, item, pc, t, t2);
}

/// Whether word stores cost the same everywhere, and asking whether memory was written is free.
pub open spec fn level_priced(price: spec_fn(Request) -> int) -> bool {
    &&& forall|addr: u32, v: u32, access: MemoryAccess| #[trigger]
        price(Request::Store32(addr, v, access)) == price(Request::Store32(0, 0, access))
    &&& price(Request::TakeBlockCacheDirty) == 0
}

/// What storing `n` words in a row costs: the first access is non-sequential.
pub open spec fn row_toll(price: spec_fn(Request) -> int, n: nat) -> int {
    if n == 0 {
        0
    } else {
        price(Request::Store32(0, 0, MemoryAccess::NonSeq)) + (n - 1) * price(
            Request::Store32(0, 0, MemoryAccess::Sequential),
        )
    }
}

/// One word more.
proof fn lemma_row(price: spec_fn(Request) -> int, n: nat)
    ensures
        row_toll(price, n + 1) == row_toll(price, n) + price(
            Request::Store32(0, 0, access_at(n)),
        ),
{
    let w = price(Request::Store32(0, 0, MemoryAccess::Sequential));
    if n > 0 {
        assert(n * w == (n - 1) * w + w) by (nonlinear_arith);
    } else {
        assert(0 * w == 0) by (nonlinear_arith);
    }
}

/// What a push costs the interpreter.
proof fn lemma_pushed_paid<I: MemoryInterface>(
    paid: spec_fn(I::State) -> int,
    price: spec_fn(Request) -> int,
    core: CoreState<I>,
    list: u8,
    lr: bool,
    k: nat,
)
    requires
        charges::<I>(paid, price),
        level_priced(price),
        k <= 8,
    ensures
        listed(list, k) <= listed(list, 8),
        paid(core.pushed(list, lr, k).bus) == paid(core.bus) + row_toll(
            price,
            (listed(list, 8) - listed(list, k) + if lr {
                1nat
            } else {
                0nat
            }) as nat,
        ),
    decreases 8 - k,
{
    let more: nat = if lr {
        1
    } else {
        0
    };
    if k >= 8 {
        lemma_row(price, 0);
    } else {
        lemma_pushed_paid::<I>(paid, price, core, list, lr, k + 1);
        lemma_row(price, (listed(list, 8) - listed(list, k + 1) + more) as nat);
    }
}

/// What storing a list costs compiled code.
proof fn lemma_stored_toll<I: MemoryInterface>(
    price: spec_fn(Request) -> int,
    list: u8,
    base: u32,
    k: nat,
    s: Cpu,
)
    requires
        level_priced(price),
    ensures
        tolls::<I>(price, stored(list, k, base, s).calls) == tolls::<I>(price, s.calls) + row_toll(
            price,
            listed(list, k),
        ),
    decreases k,
{
    if k > 0 {
        let j = (k - 1) as nat;
        lemma_stored_toll::<I>(price, list, base, j, s);
        let n = listed(list, j);
        let p = stored(list, j, base, s);
        let store = BusCall { to: store_at(n), a: slot(base, n), b: p.reg(j as usize), c: 0 };
        lemma_toll::<I>(price, p.calls, store);
        lemma_row(price, n);
    }
}

/// The interpreter pays for a push what compiled code pays.
#[verifier::spinoff_prover]
proof fn lemma_push_paid<I: MemoryInterface>(
    paid: spec_fn(I::State) -> int,
    price: spec_fn(Request) -> int,
    from: CoreState<I>,
    t: Cpu,
    op: u16,
    pc: u32,
)
    requires
        charges::<I>(paid, price),
        level_priced(price),
        body_item(op) matches Some(item) && pushes(item),
    ensures
        paid(effect_of(from, op).0.bus) - paid(from.bus) == tolls::<I>(
            price,
            exec_body(body_item(op)->0, pc, t).calls,
        ) - tolls::<I>(price, t.calls),
{
    reveal(exec_body);
    lemma_decoded(op);
    lemma_shape_multiple(from, op);
    let x = op as u32;
    lemma_bits_range(x, 8, 1);
    lemma_bits_range(x, 11, 1);
    let d = body_item(op)->0->F14_0;
    let list = d.reg_list;
    let n = listed(list, 8);
    let base = t.reg(SP).wrapping_sub((4 * d.total()) as u32);
    lemma_pushed_paid::<I>(paid, price, from, list, d.extra_reg, 0);
    lemma_stored_toll::<I>(price, list, base, 8, t);
    let u = stored(list, 8, base, t);
    let link = BusCall { to: store_at(n), a: slot(base, n), b: u.reg(LR), c: 0 };
    lemma_toll::<I>(price, u.calls, link);
    lemma_row(price, n);
}

/// What the fetch for instruction `k` of a block costs.
pub open spec fn fetch_toll(
    price: spec_fn(Request) -> int,
    pc: u32,
    k: nat,
    access: MemoryAccess,
) -> int {
    price(Request::Load16(word(pc.wrapping_add(4) + 2 * k), access))
}

/// What sequential fetches for the instructions from `k` on, below `n`, cost.
pub open spec fn fetch_tolls(price: spec_fn(Request) -> int, pc: u32, k: nat, n: nat) -> int
    decreases n - k,
{
    if k >= n {
        0
    } else {
        fetch_toll(price, pc, k, MemoryAccess::Sequential) + fetch_tolls(price, pc, k + 1, n)
    }
}

/// One more fetch at the end.
proof fn lemma_fetch_tolls(price: spec_fn(Request) -> int, pc: u32, k: nat, n: nat)
    requires
        k <= n,
    ensures
        fetch_tolls(price, pc, k, n + 1) == fetch_tolls(price, pc, k, n) + fetch_toll(
            price,
            pc,
            n,
            MemoryAccess::Sequential,
        ),
    decreases n - k,
{
    if k < n {
        lemma_fetch_tolls(price, pc, k + 1, n);
    } else {
        assert(fetch_tolls(price, pc, n + 1, n + 1) == 0);
        assert(fetch_tolls(price, pc, n, n) == 0);
    }
}

/// What fetching ahead costs.
proof fn lemma_ahead_paid<I: MemoryInterface>(
    paid: spec_fn(I::State) -> int,
    price: spec_fn(Request) -> int,
    c: CoreState<I>,
    pc: u32,
    n: nat,
)
    requires
        charges::<I>(paid, price),
        n > 0,
    ensures
        paid(c.fetched_n(pc.wrapping_add(4), n).bus) == paid(c.bus) + fetch_toll(
            price,
            pc,
            0,
            c.next_fetch_access,
        ) + fetch_tolls(price, pc, 1, n),
        c.fetched_n(pc.wrapping_add(4), n).next_fetch_access == MemoryAccess::Sequential,
    decreases n,
{
    let k = (n - 1) as nat;
    if k > 0 {
        lemma_ahead_paid::<I>(paid, price, c, pc, k);
        lemma_fetch_tolls(price, pc, 1, k);
    } else {
        assert(c.fetched_n(pc.wrapping_add(4), 0) == c);
        assert(fetch_tolls(price, pc, 1, 1) == 0);
    }
}

/// Whether prices are as the fetches of a block at `pc` need them: the surcharge that is asked for
/// at `pc` is what a non-sequential fetch in the block costs over a sequential one.
pub open spec fn fair(price: spec_fn(Request) -> int, ops: Seq<u16>, pc: u32) -> bool {
    &&& level_priced(price)
    &&& forall|k: nat|
        0 < k < ops.len() ==> #[trigger] fetch_toll(price, pc, k, MemoryAccess::NonSeq)
            == fetch_toll(price, pc, k, MemoryAccess::Sequential) + price(
            Request::PayThumbFetchExtraNonseq(pc),
        )
}

/// What an instruction of a block costs with the bookkeeping around it.
proof fn lemma_step_toll<I: MemoryInterface>(
    price: spec_fn(Request) -> int,
    item: Body,
    pc: u32,
    ahead: Option<(u16, u16)>,
    entry_pc: u32,
    s: Cpu,
)
    requires
        level_priced(price),
        item_step(item, false, pc, ahead, entry_pc, s).exit is None,
    ensures
        tolls::<I>(price, item_step(item, false, pc, ahead, entry_pc, s).cpu.calls) == tolls::<I>(
            price,
            exec_body(item, pc, s).calls,
        ) + if nonseq_advance(item) {
            price(Request::PayThumbFetchExtraNonseq(entry_pc))
        } else {
            0
        },
{
    reveal(item_step);
    let a = exec_body(item, pc, s);
    let check = BusCall { to: Callee::ChainAbortCheck, a: 0, b: 0, c: 0 };
    let pay = BusCall { to: Callee::PayThumbFetchExtraNonseq, a: entry_pc, b: 0, c: 0 };
    lemma_toll::<I>(price, a.calls, check);
    lemma_toll::<I>(price, a.calls.push(check), pay);
    lemma_toll::<I>(price, a.calls, pay);
}

/// Whether a bus is plain memory that charges for its requests.
pub open spec fn accounts<I: MemoryInterface, J: MemoryInterface>(
    seen: spec_fn(I::State) -> J::State,
    paid: spec_fn(I::State) -> int,
    price: spec_fn(Request) -> int,
) -> bool {
    &&& placid::<J>()
    &&& gives_bytes::<J>()
    &&& seen_through::<I, J>(seen)
    &&& charges::<I>(paid, price)
}

/// The registers of the interpreter and of compiled code before instruction `k`.
#[verifier::spinoff_prover]
proof fn lemma_same_registers<I: MemoryInterface, J: MemoryInterface>(
    seen: spec_fn(I::State) -> J::State,
    core: CoreState<I>,
    start: CoreState<I>,
    ops: Seq<u16>,
    pc: u32,
    k: nat,
    s: Cpu,
)
    requires
        placid::<J>(),
        gives_bytes::<J>(),
        seen_through::<I, J>(seen),
        alike(core, start, s),
        k <= ops.len(),
        forall|i: int| 0 <= i < k ==> (#[trigger] body_item(ops[i])) is Some,
        smooth(ops, pc, k, s),
        unified_body(ops, pc, false, k, s).exit is None,
    ensures
        ({
            let t = unified_body(ops, pc, false, k, s).cpu;
            let c = interpreted(core, ops, pc, k);
            &&& c.gpr == t.gpr
            &&& t.gpr.len() == 15
            &&& c.cpsr.raw == t.cpsr
        }),
{
    let twin = carried::<I, J>(core, seen, core.dbg);
    lemma_alike_carried::<I, J>(core, start, seen, core.dbg, s);
    lemma_body_agrees(twin, carried::<I, J>(start, seen, core.dbg), ops, pc, k, s);
    lemma_interpreted_carried::<I, J>(core, seen, core.dbg, ops, pc, k);
}

/// The interpreter pays for an instruction what compiled code pays.
proof fn lemma_instruction_paid<I: MemoryInterface>(
    paid: spec_fn(I::State) -> int,
    price: spec_fn(Request) -> int,
    from: CoreState<I>,
    t: Cpu,
    op: u16,
    pc: u32,
)
    requires
        charges::<I>(paid, price),
        level_priced(price),
        gives_bytes::<I>(),
        from.gpr == t.gpr,
        t.gpr.len() == 15,
        from.cpsr.raw == t.cpsr,
        from.pc == pc.wrapping_add(4),
        body_item(op) is Some,
        level(body_item(op)->0, t),
    ensures
        paid(effect_of(from, op).0.bus) - paid(from.bus) == tolls::<I>(
            price,
            exec_body(body_item(op)->0, pc, t).calls,
        ) - tolls::<I>(price, t.calls),
{
    if pushes(body_item(op)->0) {
        lemma_push_paid::<I>(paid, price, from, t, op, pc);
    } else {
        lemma_effect_paid::<I>(paid, price, from, t, op, pc);
    }
}

/// A bus that is seen as one whose byte loads give bytes does so too.
proof fn lemma_bytes_carried<I: MemoryInterface, J: MemoryInterface>(
    seen: spec_fn(I::State) -> J::State,
)
    requires
        gives_bytes::<J>(),
        seen_through::<I, J>(seen),
    ensures
        gives_bytes::<I>(),
{
    assert forall|state: I::State, addr: u32, access: MemoryAccess| #[trigger]
        I::reply(state, Request::Load8(addr, access)) < 0x100 by {
        assert(J::reply(seen(state), Request::Load8(addr, access)) < 0x100);
    }
}

/// Whether compiled code has paid before instruction `k` what the interpreter has paid, and for the
/// fetches from there on.
pub open spec fn settled<I: MemoryInterface>(
    paid: spec_fn(I::State) -> int,
    price: spec_fn(Request) -> int,
    core: CoreState<I>,
    ops: Seq<u16>,
    pc: u32,
    k: nat,
    s: Cpu,
) -> bool {
    let c = interpreted(core, ops, pc, k);
    let first = unified_body(ops, pc, false, 0, s).cpu;
    let t = unified_body(ops, pc, false, k, s).cpu;
    tolls::<I>(price, t.calls) - tolls::<I>(price, first.calls) + fetch_toll(
        price,
        pc,
        0,
        core.next_fetch_access,
    ) + fetch_tolls(price, pc, 1, ops.len()) == paid(c.bus) - paid(core.bus) + fetch_toll(
        price,
        pc,
        k,
        c.next_fetch_access,
    ) + fetch_tolls(price, pc, k + 1, ops.len())
}

/// The body of a block.
#[verifier::spinoff_prover]
proof fn lemma_body_paid<I: MemoryInterface, J: MemoryInterface>(
    seen: spec_fn(I::State) -> J::State,
    paid: spec_fn(I::State) -> int,
    price: spec_fn(Request) -> int,
    core: CoreState<I>,
    start: CoreState<I>,
    ops: Seq<u16>,
    pc: u32,
    n: nat,
    s: Cpu,
)
    requires
        accounts::<I, J>(seen, paid, price),
        fair(price, ops, pc),
        alike(core, start, s),
        n < ops.len(),
        forall|i: int| 0 <= i < n ==> (#[trigger] body_item(ops[i])) is Some,
        smooth(ops, pc, n, s),
        unified_body(ops, pc, false, n, s).exit is None,
    ensures
        settled::<I>(paid, price, core, ops, pc, n, s),
    decreases n,
{
    if n == 0 {
        lemma_none_interpreted(core, ops, pc);
    } else {
        let k = (n - 1) as nat;
        lemma_body_paid::<I, J>(seen, paid, price, core, start, ops, pc, k, s);
        lemma_same_registers::<I, J>(seen, core, start, ops, pc, k, s);
        lemma_bytes_carried::<I, J>(seen);
        let op = ops[k as int];
        assert(body_item(ops[k as int]) is Some);
        let item = body_item(op)->0;
        let t = unified_body(ops, pc, false, k, s).cpu;
        assert(level(item, t));
        let at = word(pc.wrapping_add(4) + 2 * k);
        let from = interpreted(core, ops, pc, k).fetched16(at).with_pc(at);
        lemma_fetch_address(pc, k);
        lemma_instruction_paid::<I>(paid, price, from, t, op, instr_pc(pc, k as int));
        lemma_step_toll::<I>(
            price,
            item,
            instr_pc(pc, k as int),
            opcodes_ahead(ops, k as int),
            pc,
            t,
        );
        lemma_unfold(core, ops, pc, n);
        lemma_effect_leaves(from, op);
        assert(fetch_toll(price, pc, n, MemoryAccess::NonSeq) == fetch_toll(
            price,
            pc,
            n,
            MemoryAccess::Sequential,
        ) + price(Request::PayThumbFetchExtraNonseq(pc)));
        assert(fetch_tolls(price, pc, n, ops.len()) == fetch_toll(
            price,
            pc,
            n,
            MemoryAccess::Sequential,
        ) + fetch_tolls(price, pc, n + 1, ops.len()));
    }
}

/// Following a branch costs the same wherever it comes from.
proof fn lemma_exchange_paid<I: MemoryInterface>(
    paid: spec_fn(I::State) -> int,
    price: spec_fn(Request) -> int,
    a: CoreState<I>,
    b: CoreState<I>,
    addr: u32,
)
    requires
        charges::<I>(paid, price),
    ensures
        paid(a.exchanged(addr).bus) - paid(a.bus) == paid(b.exchanged(addr).bus) - paid(b.bus),
        addr & 1 != 0 ==> paid(a.with_pc(addr & 0xffff_fffe).reloaded16().bus) - paid(a.bus)
            == paid(b.exchanged(addr).bus) - paid(b.bus),
{
}

/// The pop of the program counter at the end of a block, with a register beside it.
#[verifier::spinoff_prover]
proof fn lemma_pop_pc_paid<I: MemoryInterface>(
    paid: spec_fn(I::State) -> int,
    price: spec_fn(Request) -> int,
    from: CoreState<I>,
    start: CoreState<I>,
    t: Cpu,
    op: u16,
)
    requires
        charges::<I>(paid, price),
        from.gpr == t.gpr,
        t.gpr.len() == 15,
        from.cpsr.raw == t.cpsr,
        t.cpsr & 0x20 != 0,
        t.reg(SP) % 4 == 0,
        thumb_pop_pc(op) matches Some(d) && listed(d.reg_list, 8) > 0,
        effect_of(from, op).0.pc == resumed(
            start,
            exec_pop_pc(thumb_pop_pc(op)->0.reg_list, t),
        ).pc,
    ensures
        paid(effect_of(from, op).0.bus) - paid(from.bus) == paid(
            resumed(start, exec_pop_pc(thumb_pop_pc(op)->0.reg_list, t)).bus,
        ) - paid(core_behind(start, t).bus),
{
    lemma_pop_pc_shape(from, op);
    let list = thumb_pop_pc(op)->0.reg_list;
    let sp = t.reg(SP);
    let n = listed(list, 8);
    let t2 = Cpu {
        calls: Seq::empty(),
        bus: |calls: Seq<BusCall>| last_reply::<Arm7tdmiCore<I>>(from, calls),
        ..t
    };
    assert(core_behind(from, t2) == from);
    lemma_pop(from, from, t2, list, 8);
    lemma_slot(sp, n);
    lemma_aligned(slot(sp, n));
    lemma_lists_keep(list, sp, 8, t);
    lemma_lists_keep(list, sp, 8, t2);
    let p = loaded(list, 8, sp, true, t);
    let p2 = loaded(list, 8, sp, true, t2);
    lemma_tolls_paid::<I>(paid, price, from, t2.calls, p2.calls);
    lemma_lists_toll::<I>(price, list, sp, 8, t, t2);
    let load = BusCall { to: load_at(n, true), a: slot(sp, n), b: 0, c: 0 };
    let idle = BusCall { to: Callee::IdleCycle, a: 0, b: 0, c: 0 };
    lemma_add_quietly(t.calls, p.calls, load);
    lemma_add_quietly(t.calls, p.calls.push(load), idle);
    lemma_toll::<I>(price, p.calls, load);
    lemma_toll::<I>(price, p.calls.push(load), idle);
    lemma_tolls_paid::<I>(paid, price, start, t.calls, p.calls.push(load).push(idle));
    let w = p.called(load_at(n, true), slot(sp, n), 0, 0).answer();
    let o = exec_pop_pc(list, t);
    assert(o.calls == p.calls.push(load).push(idle));
    assert(o.pc_out == w | 1);
    lemma_took();
    lemma_thumb_bit(w);
    let c = from.popped(list, 8);
    let req = Request::Load32(slot(sp, n), MemoryAccess::Sequential);
    let v = c.got(req);
    lemma_thumb_bit(v);
    let u = c.did(req).set_reg(15, v).with_gpr(13, c.gpr[13].wrapping_add(4));
    lemma_popped_keeps(from, list, 8);
    assert(u.pc == v & 0xffff_fffe);
    assert(v & 0xffff_fffe == w & 0xffff_fffe);
    let behind = CoreState {
        gpr: o.gpr,
        cpsr: RegPSR { raw: o.cpsr },
        ..core_behind(start, o)
    };
    assert(resumed(start, o) == behind.exchanged(w | 1));
    lemma_exchange_paid::<I>(paid, price, u, behind, w | 1);
}

/// The end of a block.
#[verifier::spinoff_prover]
proof fn lemma_tail_paid<I: MemoryInterface>(
    paid: spec_fn(I::State) -> int,
    price: spec_fn(Request) -> int,
    from: CoreState<I>,
    start: CoreState<I>,
    t: Cpu,
    op: u16,
    pc: u32,
    linked: bool,
)
    requires
        charges::<I>(paid, price),
        level_priced(price),
        gives_bytes::<I>(),
        from.gpr == t.gpr,
        t.gpr.len() == 15,
        from.cpsr.raw == t.cpsr,
        t.cpsr & 0x20 != 0,
        t.took == 0,
        from.pc == pc.wrapping_add(4),
        pc % 2 == 0,
        tail_item(op) is Some,
        level_tail(tail_item(op)->0, t),
        pops_a_register(tail_item(op)->0),
        CoreState::concluded(effect_of(from, op), from.pc, 2).0.pc == resumed(
            start,
            unified_tail(tail_item(op)->0, pc, None, linked, t).cpu,
        ).pc,
    ensures
        paid(effect_of(from, op).0.bus) - paid(from.bus) == paid(
            resumed(start, unified_tail(tail_item(op)->0, pc, None, linked, t).cpu).bus,
        ) - paid(core_behind(start, t).bus),
        tail_item(op)->0 is Body ==> unified_tail(
            tail_item(op)->0,
            pc,
            None,
            linked,
            t,
        ).cpu.took == 0,
{
    lemma_took();
    match tail_item(op)->0 {
        Tail::Bx(d) => {
            lemma_shape_branch(from, op);
            lemma_bits_range(op as u32, 3, 4);
            let o = t.branched(t.reg(d.rs));
            assert(core_behind(start, o) == core_behind(start, t));
            let behind = CoreState {
                gpr: o.gpr,
                cpsr: RegPSR { raw: o.cpsr },
                ..core_behind(start, o)
            };
            lemma_exchange_paid::<I>(paid, price, from, behind, t.reg(d.rs));
        },
        Tail::PcBranch(d) => {
            lemma_shape_branch(from, op);
            lemma_target(d, pc);
            let target = word(pc.wrapping_add(4) + 2 * d.offset_signed);
            lemma_thumb_bit(target);
            let o = t.branched(target | 1);
            assert(core_behind(start, o) == core_behind(start, t));
            let behind = CoreState {
                gpr: o.gpr,
                cpsr: RegPSR { raw: o.cpsr },
                ..core_behind(start, o)
            };
            lemma_exchange_paid::<I>(paid, price, from, behind, target | 1);
        },
        Tail::PopPc(d) => {
            lemma_pop_pc_shape(from, op);
            lemma_pop_pc_paid::<I>(paid, price, from, start, t, op);
        },
        Tail::Body(item) => {
            lemma_instruction_paid::<I>(paid, price, from, t, op, pc);
            lemma_item_keeps(item, pc, t);
            let a = exec_body(item, pc, t);
            lemma_tolls_paid::<I>(paid, price, start, t.calls, a.calls);
            let call = BusCall { to: Callee::SetNextFetchNonseq, a: 0, b: 0, c: 0 };
            assert(a.calls.push(call).drop_last() =~= a.calls);
        },
    }
}

/// Whether the end of a block is no pop of the program counter alone.
pub open spec fn pops_a_register(tail: Tail) -> bool {
    tail matches Tail::PopPc(d) ==> listed(d.reg_list, 8) > 0
}

/// Resuming after compiled code on a bus that mirrors another one.
proof fn lemma_resumed_carried<I: MemoryInterface, J: MemoryInterface>(
    start: CoreState<I>,
    seen: spec_fn(I::State) -> J::State,
    dbg: DebugState,
    s: Cpu,
)
    requires
        seen_through::<I, J>(seen),
    ensures
        resumed(carried::<I, J>(start, seen, dbg), s) == carried::<I, J>(
            resumed(start, s),
            seen,
            dbg,
        ),
{
    lemma_calls_carried::<I, J>(start, seen, dbg, s.calls);
}

/// The program counters after a block.
#[verifier::spinoff_prover]
proof fn lemma_same_end<I: MemoryInterface, J: MemoryInterface>(
    seen: spec_fn(I::State) -> J::State,
    core: CoreState<I>,
    start: CoreState<I>,
    ops: Seq<u16>,
    pc: u32,
    linked: bool,
    s: Cpu,
)
    requires
        placid::<J>(),
        gives_bytes::<J>(),
        seen_through::<I, J>(seen),
        unified_ok(ops),
        ops.len() <= u32::MAX,
        alike(core, start, s),
        core.thumb(),
        pc % 2 == 0,
        s.took == 0,
        smooth_block(ops, pc, s),
        unified(ops, pc, false, None, linked, s).exit is None,
    ensures
        interpreted(core, ops, pc, ops.len()).pc == resumed(
            start,
            unified(ops, pc, false, None, linked, s).cpu,
        ).pc,
{
    let twin = carried::<I, J>(core, seen, core.dbg);
    let other = carried::<I, J>(start, seen, core.dbg);
    lemma_alike_carried::<I, J>(core, start, seen, core.dbg, s);
    law_compiled_block_agrees(twin, other, ops, pc, None, linked, s);
    law_dead_flag_writes_unseen(ops, pc, None, linked, s);
    lemma_interpreted_carried::<I, J>(core, seen, core.dbg, ops, pc, ops.len());
    lemma_resumed_carried::<I, J>(
        start,
        seen,
        core.dbg,
        unified(ops, pc, false, None, linked, s).cpu,
    );
}

/// What a block has paid before its last instruction.
#[verifier::spinoff_prover]
proof fn lemma_paid_before_tail<I: MemoryInterface, J: MemoryInterface>(
    seen: spec_fn(I::State) -> J::State,
    paid: spec_fn(I::State) -> int,
    price: spec_fn(Request) -> int,
    core: CoreState<I>,
    start: CoreState<I>,
    ops: Seq<u16>,
    pc: u32,
    s: Cpu,
)
    requires
        accounts::<I, J>(seen, paid, price),
        fair(price, ops, pc),
        unified_ok(ops),
        ops.len() <= u32::MAX,
        alike(core, start, s),
        core_behind(start, s).next_fetch_access == core.next_fetch_access,
        s.cpsr & 0x20 != 0,
        s.took == 0,
        smooth_block(ops, pc, s),
        unified_body(ops, pc, false, (ops.len() - 1) as nat, s).exit is None,
    ensures
        ({
            let n = (ops.len() - 1) as nat;
            let at = word(pc.wrapping_add(4) + 2 * n);
            let t = unified_body(ops, pc, false, n, s).cpu;
            let from = interpreted(core, ops, pc, n).fetched16(at).with_pc(at);
            &&& paid(core_behind(start, t).bus) == paid(from.bus)
            &&& from.gpr == t.gpr
            &&& t.gpr.len() == 15
            &&& from.cpsr.raw == t.cpsr
            &&& t.cpsr & 0x20 != 0
            &&& t.took == 0
        }),
{
    let n = (ops.len() - 1) as nat;
    assert forall|k: nat| k <= n implies (#[trigger] unified_body(
        ops,
        pc,
        false,
        k,
        s,
    )).exit is None by {
        lemma_never_left(ops, pc, k, n, s);
    }
    lemma_body_paid::<I, J>(seen, paid, price, core, start, ops, pc, n, s);
    lemma_same_registers::<I, J>(seen, core, start, ops, pc, n, s);
    lemma_body_keeps(ops, pc, n, s);
    let first = unified_body(ops, pc, false, 0, s).cpu;
    let t = unified_body(ops, pc, false, n, s).cpu;
    lemma_tolls_paid::<I>(paid, price, start, first.calls, t.calls);
    lemma_fetched(start, s, pc.wrapping_add(4), ops.len());
    lemma_ahead_paid::<I>(paid, price, core_behind(start, s), pc, ops.len());
    lemma_same_set(first.cpsr, t.cpsr);
    assert(fetch_tolls(price, pc, ops.len(), ops.len()) == 0);
}

/// A last question for control is free.
proof fn lemma_chain_free<I: MemoryInterface>(
    paid: spec_fn(I::State) -> int,
    price: spec_fn(Request) -> int,
    start: CoreState<I>,
    s: Cpu,
)
    requires
        charges::<I>(paid, price),
        level_priced(price),
    ensures
        s.took & 1 == 0 ==> paid(
            resumed(start, s.called(Callee::ChainAbortCheck, 0, 0, 0)).bus,
        ) == paid(resumed(start, s).bus),
{
    let check = BusCall { to: Callee::ChainAbortCheck, a: 0, b: 0, c: 0 };
    assert(s.calls.push(check).drop_last() =~= s.calls);
}

/// A body is left with a result only.
proof fn lemma_left_by_return(ops: Seq<u16>, pc: u32, n: nat, s: Cpu)
    ensures
        unified_body(ops, pc, false, n, s).exit matches Some(exit) ==> exit is Return,
    decreases n,
{
    reveal(item_step);
    if n > 0 {
        lemma_left_by_return(ops, pc, (n - 1) as nat, s);
    }
}

/// A compiled block that runs to its end pays what the interpreter pays for the same instructions,
/// on plain memory that charges for each request. The fetches are paid ahead as sequential ones, and
/// a surcharge makes up for each that would not have been sequential. Both start with the same access
/// due. A pop of the program counter alone is left out: its load is non-sequential in compiled code
/// and sequential in the interpreter.
#[verifier::spinoff_prover]
pub proof fn law_block_pays_the_same<I: MemoryInterface, J: MemoryInterface>(
    seen: spec_fn(I::State) -> J::State,
    paid: spec_fn(I::State) -> int,
    price: spec_fn(Request) -> int,
    core: CoreState<I>,
    start: CoreState<I>,
    ops: Seq<u16>,
    pc: u32,
    slot: Option<u64>,
    linked: bool,
    s: Cpu,
)
    requires
        accounts::<I, J>(seen, paid, price),
        fair(price, ops, pc),
        unified_ok(ops),
        ops.len() <= u32::MAX,
        alike(core, start, s),
        core_behind(start, s).next_fetch_access == core.next_fetch_access,
        core.thumb(),
        pc % 2 == 0,
        s.took == 0,
        smooth_block(ops, pc, s),
        pops_a_register(tail_item(ops.last())->0),
    ensures
        ({
            let o = unified(ops, pc, true, slot, linked, s);
            o.exit is None || o.exit->0 is Chain ==> paid(resumed(start, o.cpu).bus) == paid(
                interpreted(core, ops, pc, ops.len()).bus,
            )
        }),
{
    law_dead_flag_writes_unseen(ops, pc, slot, linked, s);
    let n = (ops.len() - 1) as nat;
    if unified_body(ops, pc, false, n, s).exit is None {
        lemma_whole_paid::<I, J>(seen, paid, price, core, start, ops, pc, linked, s);
        lemma_took();
        lemma_chain_free(paid, price, start, unified(ops, pc, false, None, linked, s).cpu);
    } else {
        lemma_left_by_return(ops, pc, n, s);
    }
}

/// The law for a block without a successor.
#[verifier::spinoff_prover]
proof fn lemma_whole_paid<I: MemoryInterface, J: MemoryInterface>(
    seen: spec_fn(I::State) -> J::State,
    paid: spec_fn(I::State) -> int,
    price: spec_fn(Request) -> int,
    core: CoreState<I>,
    start: CoreState<I>,
    ops: Seq<u16>,
    pc: u32,
    linked: bool,
    s: Cpu,
)
    requires
        accounts::<I, J>(seen, paid, price),
        fair(price, ops, pc),
        unified_ok(ops),
        ops.len() <= u32::MAX,
        alike(core, start, s),
        core_behind(start, s).next_fetch_access == core.next_fetch_access,
        core.thumb(),
        pc % 2 == 0,
        s.took == 0,
        smooth_block(ops, pc, s),
        pops_a_register(tail_item(ops.last())->0),
        unified_body(ops, pc, false, (ops.len() - 1) as nat, s).exit is None,
    ensures
        ({
            let t = unified(ops, pc, false, None, linked, s).cpu;
            &&& paid(resumed(start, t).bus) == paid(interpreted(core, ops, pc, ops.len()).bus)
            &&& tail_item(ops.last())->0 is Body ==> t.took == 0
        }),
{
    let n = (ops.len() - 1) as nat;
    lemma_paid_before_tail::<I, J>(seen, paid, price, core, start, ops, pc, s);
    lemma_bytes_carried::<I, J>(seen);
    lemma_same_end::<I, J>(seen, core, start, ops, pc, linked, s);
    let at = word(pc.wrapping_add(4) + 2 * n);
    let from = interpreted(core, ops, pc, n).fetched16(at).with_pc(at);
    lemma_fetch_address(pc, n);
    lemma_even(pc, n as int);
    lemma_unfold(core, ops, pc, ops.len());
    lemma_tail_paid::<I>(
        paid,
        price,
        from,
        start,
        unified_body(ops, pc, false, n, s).cpu,
        ops[n as int],
        instr_pc(pc, n as int),
        linked,
    );
}

} // verus!
