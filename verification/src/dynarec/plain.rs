//! Plain memory, on which the order of fetches and stores is not seen.

use vstd::prelude::*;
use crate::bits::lemma_bits_range;
use crate::cpu::{Arm7tdmiCore, CoreState};
use crate::dynarec::agreement::{core_behind, lemma_core_behind};
use crate::dynarec::bus::last_reply;
use crate::dynarec::decode::{in_list, listed};
use crate::dynarec::ir::{BusCall, Callee, Cpu};
use crate::dynarec::sem::{LR, SP, slot, store_at, stored};
use crate::dynarec::shapes::lemma_shape_multiple;
use crate::dynarec::thumb::{body_item, exec_body};
use crate::dynarec::transfers::{alike, gives_bytes, lemma_aligned, lemma_slot, level, pushes};
use crate::interpreter::effect_of;
use crate::memory::{MemoryAccess, MemoryInterface, Request, SimpleMemory, with_word};

verus! {

/// Whether a bus is plain memory: fetches, internal cycles and inquiries change nothing, and words
/// are the same however they are accessed. It may ask for control at any time.
pub open spec fn placid<I: MemoryInterface>() -> bool {
    &&& forall|state: I::State, addr: u32, access: MemoryAccess| #[trigger]
        I::next(state, Request::Load16(addr, access)) == state
    &&& forall|state: I::State| #[trigger] I::next(state, Request::IdleCycle) == state
    &&& forall|state: I::State| #[trigger] I::next(state, Request::TakeBlockCacheDirty) == state
    &&& forall|state: I::State, pc: u32| #[trigger]
        I::next(state, Request::PayThumbFetchExtraNonseq(pc)) == state
    &&& forall|state: I::State, addr: u32| #[trigger]
        I::reply(state, Request::Load32(addr, MemoryAccess::Sequential)) == I::reply(
            state,
            Request::Load32(addr, MemoryAccess::NonSeq),
        )
    &&& forall|state: I::State, addr: u32| #[trigger]
        I::next(state, Request::Load32(addr, MemoryAccess::Sequential)) == I::next(
            state,
            Request::Load32(addr, MemoryAccess::NonSeq),
        )
    &&& forall|state: I::State, addr: u32, v: u32| #[trigger]
        I::next(state, Request::Store32(addr, v, MemoryAccess::Sequential)) == put::<I>(
            state,
            addr,
            v,
        )
    &&& forall|state: I::State, a: u32, v: u32, b: u32, w: u32|
        a % 4 == 0 && b % 4 == 0 && a != b ==> #[trigger] put::<I>(put::<I>(state, a, v), b, w)
            == put::<I>(put::<I>(state, b, w), a, v)
}

/// A word stored.
pub open spec fn put<I: MemoryInterface>(state: I::State, addr: u32, v: u32) -> I::State {
    I::next(state, Request::Store32(addr, v, MemoryAccess::NonSeq))
}

/// A flat memory is plain memory.
pub proof fn law_simple_memory_is_placid()
    ensures
        placid::<SimpleMemory>(),
        gives_bytes::<SimpleMemory>(),
{
    assert forall|state: Seq<u8>, a: u32, v: u32, b: u32, w: u32|
        a % 4 == 0 && b % 4 == 0 && a != b implies #[trigger] put::<SimpleMemory>(
        put::<SimpleMemory>(state, a, v),
        b,
        w,
    ) == put::<SimpleMemory>(put::<SimpleMemory>(state, b, w), a, v) by {
        lemma_words_commute(state, a as int, v, b as int, w);
    }
}

/// Words stored at different places may be stored in either order.
proof fn lemma_words_commute(data: Seq<u8>, a: int, v: u32, b: int, w: u32)
    requires
        a + 4 <= b || b + 4 <= a,
    ensures
        with_word(with_word(data, a, v), b, w) == with_word(with_word(data, b, w), a, v),
{
    assert(with_word(with_word(data, a, v), b, w) =~= with_word(with_word(data, b, w), a, v));
}

/// Plain memory after the listed registers below `k` were stored upwards from `base`.
pub open spec fn up<I: MemoryInterface>(
    state: I::State,
    list: u8,
    base: u32,
    gpr: Seq<u32>,
    k: nat,
) -> I::State
    decreases k,
{
    if k == 0 {
        state
    } else {
        let j = (k - 1) as nat;
        let p = up::<I>(state, list, base, gpr, j);
        if in_list(list, j as usize) {
            put::<I>(p, slot(base, listed(list, j)), gpr[j as int])
        } else {
            p
        }
    }
}

/// Plain memory after the link register, where `lr` says so, and the listed registers from R7 down
/// to `k` were stored downwards to `base`.
pub open spec fn down<I: MemoryInterface>(
    state: I::State,
    list: u8,
    lr: bool,
    base: u32,
    gpr: Seq<u32>,
    k: nat,
) -> I::State
    decreases 8 - k,
{
    if k >= 8 {
        if lr {
            put::<I>(state, slot(base, listed(list, 8)), gpr[14])
        } else {
            state
        }
    } else {
        let p = down::<I>(state, list, lr, base, gpr, k + 1);
        if in_list(list, k as usize) {
            put::<I>(p, slot(base, listed(list, k)), gpr[k as int])
        } else {
            p
        }
    }
}

/// More registers take no fewer slots.
pub proof fn lemma_listed(list: u8, j: nat, k: nat)
    requires
        j <= k,
    ensures
        listed(list, j) <= listed(list, k) <= listed(list, j) + (k - j),
    decreases k,
{
    if j < k {
        lemma_listed(list, j, (k - 1) as nat);
    }
}

/// A store below comes before or after the stores downwards.
proof fn lemma_down_commutes<I: MemoryInterface>(
    state: I::State,
    list: u8,
    lr: bool,
    base: u32,
    gpr: Seq<u32>,
    k: nat,
    n: nat,
    v: u32,
)
    requires
        placid::<I>(),
        base % 4 == 0,
        k <= 8,
        n < listed(list, k),
    ensures
        down::<I>(put::<I>(state, slot(base, n), v), list, lr, base, gpr, k) == put::<I>(
            down::<I>(state, list, lr, base, gpr, k),
            slot(base, n),
            v,
        ),
    decreases 8 - k,
{
    lemma_listed(list, 0, k);
    lemma_slot(base, n);
    if k >= 8 {
        lemma_slot(base, listed(list, 8));
    } else {
        lemma_listed(list, k, k + 1);
        lemma_slot(base, listed(list, k));
        lemma_down_commutes::<I>(state, list, lr, base, gpr, k + 1, n, v);
    }
}

/// Storing upwards and then the rest downwards is the same from wherever the two meet.
proof fn lemma_meet<I: MemoryInterface>(
    state: I::State,
    list: u8,
    lr: bool,
    base: u32,
    gpr: Seq<u32>,
    k: nat,
)
    requires
        placid::<I>(),
        base % 4 == 0,
        k <= 8,
    ensures
        down::<I>(up::<I>(state, list, base, gpr, k), list, lr, base, gpr, k) == down::<I>(
            state,
            list,
            lr,
            base,
            gpr,
            0,
        ),
    decreases k,
{
    if k > 0 {
        let j = (k - 1) as nat;
        lemma_meet::<I>(state, list, lr, base, gpr, j);
        if in_list(list, j as usize) {
            lemma_down_commutes::<I>(
                up::<I>(state, list, base, gpr, j),
                list,
                lr,
                base,
                gpr,
                k,
                listed(list, j),
                gpr[j as int],
            );
        }
    }
}

/// Compiled code stores upwards.
proof fn lemma_stored_up<I: MemoryInterface>(
    start: CoreState<I>,
    s: Cpu,
    list: u8,
    base: u32,
    k: nat,
)
    requires
        placid::<I>(),
        s.bus == (|calls: Seq<BusCall>| last_reply::<Arm7tdmiCore<I>>(start, calls)),
        k <= 8,
    ensures
        stored(list, k, base, s) == (Cpu { calls: stored(list, k, base, s).calls, ..s }),
        core_behind(start, stored(list, k, base, s)).bus == up::<I>(
            core_behind(start, s).bus,
            list,
            base,
            s.gpr,
            k,
        ),
    decreases k,
{
    if k > 0 {
        let j = (k - 1) as nat;
        lemma_stored_up(start, s, list, base, j);
        let p = stored(list, j, base, s);
        let n = listed(list, j);
        lemma_core_behind(start, p, store_at(n), slot(base, n), p.reg(j as usize), 0);
    }
}

/// The interpreter pushes downwards.
#[verifier::spinoff_prover]
pub proof fn lemma_pushed_down<I: MemoryInterface>(
    core: CoreState<I>,
    list: u8,
    lr: bool,
    base: u32,
    k: nat,
)
    requires
        placid::<I>(),
        core.gpr.len() == 15,
        base % 4 == 0,
        core.gpr[13] == slot(
            base,
            listed(list, 8) + if lr {
                1nat
            } else {
                0nat
            },
        ),
        k <= 8,
    ensures
        ({
            let c = core.pushed(list, lr, k);
            &&& c.gpr == core.gpr.update(13, slot(base, listed(list, k)))
            &&& c.bus == down::<I>(core.bus, list, lr, base, core.gpr, k)
            &&& c.cpsr == core.cpsr
        }),
    decreases 8 - k,
{
    lemma_listed(list, 0, 8);
    lemma_listed(list, k, 8);
    if k >= 8 {
        lemma_slot(base, listed(list, 8));
        lemma_aligned(slot(base, listed(list, 8)));
        assert(core.gpr.update(13, core.gpr[13]) =~= core.gpr);
        if lr {
            assert(core.gpr[13].wrapping_sub(4) == slot(base, listed(list, 8)));
        }
    } else {
        lemma_pushed_down(core, list, lr, base, k + 1);
        let p = core.pushed(list, lr, k + 1);
        if in_list(list, k as usize) {
            lemma_slot(base, listed(list, k));
            lemma_aligned(slot(base, listed(list, k)));
            assert(p.gpr[13].wrapping_sub(4) == slot(base, listed(list, k)));
            assert(p.gpr.update(13, slot(base, listed(list, k))) =~= core.gpr.update(
                13,
                slot(base, listed(list, k)),
            ));
        }
    }
}

/// The pushes agree on plain memory.
#[verifier::spinoff_prover]
pub proof fn lemma_pushing<I: MemoryInterface>(
    core: CoreState<I>,
    start: CoreState<I>,
    s: Cpu,
    op: u16,
    pc: u32,
)
    requires
        placid::<I>(),
        alike(core, start, s),
        body_item(op) matches Some(item) && level(item, s) && pushes(item),
    ensures
        alike(effect_of(core, op).0, start, exec_body(body_item(op)->0, pc, s)),
        effect_of(core, op).1 is AdvancePC,
{
    reveal(body_item);
    reveal(exec_body);
    lemma_shape_multiple(core, op);
    let x = op as u32;
    lemma_bits_range(x, 8, 1);
    lemma_bits_range(x, 11, 1);
    let d = body_item(op)->0->F14_0;
    let list = d.reg_list;
    let lr = d.extra_reg;
    let n = listed(list, 8);
    let sp = s.reg(SP);
    let base = sp.wrapping_sub((4 * d.total()) as u32);
    lemma_listed(list, 0, 8);
    lemma_base(sp, d.total());
    lemma_pushed_down(core, list, lr, base, 0);
    lemma_stored_up(start, s, list, base, 8);
    lemma_meet::<I>(core.bus, list, lr, base, s.gpr, 8);
    let t = stored(list, 8, base, s);
    lemma_core_behind(start, t, store_at(n), slot(base, n), t.reg(LR), 0);
    let u = if lr {
        t.called(store_at(n), slot(base, n), t.reg(LR), 0)
    } else {
        t
    };
    assert(core_behind(start, u.set(SP, base)) == core_behind(start, u));
    assert(slot(base, 0) == base);
}

/// The lowest address of a push.
pub proof fn lemma_base(sp: u32, n: nat)
    requires
        sp % 4 == 0,
        n <= 9,
    ensures
        sp.wrapping_sub((4 * n) as u32) % 4 == 0,
        slot(sp.wrapping_sub((4 * n) as u32), n) == sp,
{
}

/// Fetching ahead leaves plain memory alone.
proof fn lemma_fetching<I: MemoryInterface>(core: CoreState<I>, pc: u32, n: nat)
    requires
        placid::<I>(),
    ensures
        core.fetched_n(pc, n).bus == core.bus,
    decreases n,
{
    if n > 0 {
        lemma_fetching(core, pc, (n - 1) as nat);
    }
}

/// The bookkeeping of a compiled block leaves registers, flags and plain memory alone.
#[verifier::spinoff_prover]
pub proof fn lemma_bookkeeping<I: MemoryInterface>(
    core: CoreState<I>,
    start: CoreState<I>,
    s: Cpu,
    to: Callee,
    a: u32,
    b: u32,
)
    requires
        placid::<I>(),
        alike(core, start, s),
        to == Callee::ThumbFetchN || to == Callee::ChainAbortCheck || to
            == Callee::PayThumbFetchExtraNonseq || to == Callee::SetNextFetchNonseq || to
            == Callee::IdleCycle,
    ensures
        alike(core, start, s.called(to, a, b, 0)),
{
    lemma_core_behind(start, s, to, a, b, 0);
    lemma_fetching(core_behind(start, s), a, b as nat);
}

} // verus!
