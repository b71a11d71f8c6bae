//! A pop gives back what a push of the same registers stored.

use vstd::prelude::*;
use crate::bits::{bits, lemma_bits_range};
use crate::cpu::CoreState;
use crate::dynarec::decode::{DecodedThumb14, in_list, listed, thumb14};
use crate::dynarec::plain::{down, lemma_base, lemma_listed, lemma_pushed_down, placid, put};
use crate::dynarec::sem::slot;
use crate::dynarec::shapes::lemma_shape_multiple;
use crate::dynarec::transfers::{lemma_aligned, lemma_slot};
use crate::interpreter::{Remaining, effect_of};
use crate::memory::{MemoryAccess, MemoryInterface, Request, SimpleMemory, with_word, word_at};
use crate::stepping::lemma_fast_unfolds;

verus! {

/// The word that a bus holds at an address.
pub open spec fn word_in<I: MemoryInterface>(state: I::State, addr: u32) -> u32 {
    I::reply(state, Request::Load32(addr, MemoryAccess::NonSeq))
}

/// Whether a bus keeps the words at the mapped addresses: a load gives what was last stored there
/// and changes nothing.
pub open spec fn keeps_words<I: MemoryInterface>(mapped: spec_fn(I::State, u32) -> bool) -> bool {
    &&& forall|state: I::State, a: u32, v: u32|
        a % 4 == 0 && mapped(state, a) ==> #[trigger] word_in::<I>(put::<I>(state, a, v), a) == v
    &&& forall|state: I::State, a: u32, v: u32, b: u32|
        a % 4 == 0 && b % 4 == 0 && a != b ==> #[trigger] word_in::<I>(put::<I>(state, a, v), b)
            == word_in::<I>(state, b)
    &&& forall|state: I::State, a: u32, v: u32, b: u32| #[trigger]
        mapped(put::<I>(state, a, v), b) == mapped(state, b)
    &&& forall|state: I::State, a: u32| #[trigger]
        I::next(state, Request::Load32(a, MemoryAccess::NonSeq)) == state
}

/// A flat memory keeps the words inside it.
pub proof fn law_simple_memory_keeps_words()
    ensures
        keeps_words::<SimpleMemory>(|data: Seq<u8>, a: u32| a + 4 <= data.len()),
{
    let mapped = |data: Seq<u8>, a: u32| a + 4 <= data.len();
    assert forall|data: Seq<u8>, a: u32, v: u32, b: u32|
        a % 4 == 0 && b % 4 == 0 && a != b implies #[trigger] word_in::<SimpleMemory>(
        put::<SimpleMemory>(data, a, v),
        b,
    ) == word_in::<SimpleMemory>(data, b) by {
        lemma_word_apart(data, a as int, v, b as int);
    }
}

/// A stored word does not change the words elsewhere.
proof fn lemma_word_apart(data: Seq<u8>, a: int, v: u32, b: int)
    requires
        a + 4 <= b || b + 4 <= a,
    ensures
        word_at(with_word(data, a, v), b) == word_at(data, b),
{
}

/// Different slots have different addresses.
proof fn lemma_slots_differ(base: u32, m: nat, n: nat)
    requires
        m < n <= 16,
    ensures
        slot(base, m) != slot(base, n),
{
}

/// Whether the first `n` slots of a push are mapped.
pub open spec fn slots_mapped<I: MemoryInterface>(
    mapped: spec_fn(I::State, u32) -> bool,
    state: I::State,
    base: u32,
    n: nat,
) -> bool {
    forall|k: nat| k < n ==> mapped(state, #[trigger] slot(base, k))
}

/// Stores downwards leave the mapped addresses mapped.
proof fn lemma_down_maps<I: MemoryInterface>(
    mapped: spec_fn(I::State, u32) -> bool,
    state: I::State,
    list: u8,
    base: u32,
    gpr: Seq<u32>,
    k: nat,
    addr: u32,
)
    requires
        keeps_words::<I>(mapped),
        k <= 8,
    ensures
        mapped(down::<I>(state, list, false, base, gpr, k), addr) == mapped(state, addr),
    decreases 8 - k,
{
    if k < 8 {
        lemma_down_maps::<I>(mapped, state, list, base, gpr, k + 1, addr);
    }
}

/// After stores downwards each listed register stands in its slot.
proof fn lemma_down_holds<I: MemoryInterface>(
    mapped: spec_fn(I::State, u32) -> bool,
    state: I::State,
    list: u8,
    base: u32,
    gpr: Seq<u32>,
    k: nat,
    r: nat,
)
    requires
        keeps_words::<I>(mapped),
        slots_mapped::<I>(mapped, state, base, listed(list, 8)),
        base % 4 == 0,
        k <= r < 8,
        in_list(list, r as usize),
    ensures
        word_in::<I>(
            down::<I>(state, list, false, base, gpr, k),
            slot(base, listed(list, r)),
        ) == gpr[r as int],
    decreases 8 - k,
{
    let p = down::<I>(state, list, false, base, gpr, k + 1);
    lemma_listed(list, 0, r);
    lemma_listed(list, 0, k);
    lemma_listed(list, r + 1, 8);
    lemma_slot(base, listed(list, r));
    lemma_slot(base, listed(list, k));
    if k == r {
        lemma_down_maps::<I>(mapped, state, list, base, gpr, k + 1, slot(base, listed(list, r)));
        assert(mapped(state, slot(base, listed(list, r))));
    } else {
        lemma_down_holds::<I>(mapped, state, list, base, gpr, k + 1, r);
        if in_list(list, k as usize) {
            lemma_listed(list, k + 1, r);
            lemma_slots_differ(base, listed(list, k), listed(list, r));
        }
    }
}

/// A pop reads its slots.
proof fn lemma_popped_reads<I: MemoryInterface>(
    mapped: spec_fn(I::State, u32) -> bool,
    core: CoreState<I>,
    list: u8,
    k: nat,
)
    requires
        placid::<I>(),
        keeps_words::<I>(mapped),
        core.gpr.len() == 15,
        core.gpr[13] % 4 == 0,
        k <= 8,
    ensures
        ({
            let base = core.gpr[13];
            let c = core.popped(list, k);
            &&& c.bus == core.bus
            &&& c.gpr.len() == 15
            &&& c.gpr[13] == slot(base, listed(list, k))
            &&& forall|r: nat|
                r < 8 ==> #[trigger] c.gpr[r as int] == if r < k && in_list(list, r as usize) {
                    word_in::<I>(core.bus, slot(base, listed(list, r)))
                } else {
                    core.gpr[r as int]
                }
        }),
    decreases k,
{
    let base = core.gpr[13];
    if k == 0 {
        assert(slot(base, 0) == base);
    } else {
        let j = (k - 1) as nat;
        lemma_popped_reads::<I>(mapped, core, list, j);
        lemma_listed(list, 0, j);
        lemma_slot(base, listed(list, j));
        lemma_aligned(slot(base, listed(list, j)));
        let p = core.popped(list, j);
        let c = core.popped(list, k);
        assert forall|r: nat| r < 8 implies #[trigger] c.gpr[r as int] == if r < k && in_list(
            list,
            r as usize,
        ) {
            word_in::<I>(core.bus, slot(base, listed(list, r)))
        } else {
            core.gpr[r as int]
        } by {
            assert(p.gpr[r as int] == if r < j && in_list(list, r as usize) {
                word_in::<I>(core.bus, slot(base, listed(list, r)))
            } else {
                core.gpr[r as int]
            });
        }
    }
}

/// What a push does on plain memory.
proof fn lemma_push_effect<I: MemoryInterface>(core: CoreState<I>, op: u16, d: DecodedThumb14)
    requires
        placid::<I>(),
        core.gpr.len() == 15,
        core.gpr[13] % 4 == 0,
        thumb14(op) == Some(d),
        d.push,
        !d.extra_reg,
    ensures
        ({
            let n = listed(d.reg_list, 8);
            let base = core.gpr[13].wrapping_sub((4 * n) as u32);
            let done = effect_of(core, op);
            &&& done.1 is AdvancePC
            &&& done.0.gpr[13] == base
            &&& base % 4 == 0
            &&& slot(base, n) == core.gpr[13]
            &&& done.0.bus == down::<I>(core.bus, d.reg_list, false, base, core.gpr, 0)
        }),
{
    lemma_shape_multiple(core, op);
    let x = op as u32;
    lemma_bits_range(x, 8, 1);
    lemma_bits_range(x, 11, 1);
    let list = d.reg_list;
    let n = listed(list, 8);
    let base = core.gpr[13].wrapping_sub((4 * n) as u32);
    lemma_listed(list, 0, 8);
    lemma_base(core.gpr[13], n);
    lemma_pushed_down(core, list, false, base, 0);
    assert(slot(base, 0) == base);
}

/// What a pop does on plain memory.
proof fn lemma_pop_effect<I: MemoryInterface>(core: CoreState<I>, op: u16, d: DecodedThumb14)
    requires
        placid::<I>(),
        thumb14(op) == Some(d),
        !d.push,
    ensures
        effect_of(core, op).0.gpr == core.popped(d.reg_list, 8).gpr,
        effect_of(core, op).1 is AdvancePC,
{
    lemma_shape_multiple(core, op);
    lemma_bits_range(op as u32, 8, 1);
}

/// The opcodes that push and pop a list of low registers.
pub proof fn law_push_and_pop_opcodes(list: u8)
    requires
        list != 0,
    ensures
        thumb14(0xb400 | list as u16) == Some(
            (DecodedThumb14 { push: true, extra_reg: false, reg_list: list }),
        ),
        thumb14(0xbc00 | list as u16) == Some(
            (DecodedThumb14 { push: false, extra_reg: false, reg_list: list }),
        ),
{
    let push = (0xb400 | list as u16) as u32;
    let pop = (0xbc00 | list as u16) as u32;
    assert(bits(push, 12, 4) == 0b1011 && bits(push, 9, 2) == 0b10 && bits(push, 11, 1) == 0
        && bits(push, 8, 1) == 0 && bits(push, 0, 8) == list && bits(pop, 12, 4) == 0b1011 && bits(
        pop,
        9,
        2,
    ) == 0b10 && bits(pop, 11, 1) == 1 && bits(pop, 8, 1) == 0 && bits(pop, 0, 8) == list)
        by (bit_vector)
        requires
            push == (0xb400u16 | list as u16) as u32,
            pop == (0xbc00u16 | list as u16) as u32,
    ;
}

/// A pop gives back what a push of the same registers stored, whatever happened to the registers in
/// between: on plain memory the listed registers and the stack pointer are as they were before the
/// push, and the other low registers stay as the pop found them.
pub proof fn law_pop_undoes_push<I: MemoryInterface>(
    mapped: spec_fn(I::State, u32) -> bool,
    core: CoreState<I>,
    mixed: CoreState<I>,
    at_push: u32,
    at_pop: u32,
    push: u16,
    pop: u16,
)
    requires
        placid::<I>(),
        keeps_words::<I>(mapped),
        core.gpr.len() == 15,
        core.gpr[13] % 4 == 0,
        thumb14(push) matches Some(d) && d.push && !d.extra_reg,
        thumb14(pop) matches Some(d) && !d.push && d.reg_list == thumb14(push)->0.reg_list,
        slots_mapped::<I>(
            mapped,
            core.bus,
            core.gpr[13].wrapping_sub((4 * listed(thumb14(push)->0.reg_list, 8)) as u32),
            listed(thumb14(push)->0.reg_list, 8),
        ),
        mixed.gpr.len() == 15,
        mixed.gpr[13] == core.thumb_stepped::<Remaining>(at_push, push as u32).0.gpr[13],
        mixed.bus == core.thumb_stepped::<Remaining>(at_push, push as u32).0.bus,
    ensures
        ({
            let list = thumb14(push)->0.reg_list;
            let (back, r) = mixed.thumb_stepped::<Remaining>(at_pop, pop as u32);
            &&& r == 0
            &&& back.gpr[13] == core.gpr[13]
            &&& forall|i: nat|
                i < 8 ==> #[trigger] back.gpr[i as int] == if in_list(list, i as usize) {
                    core.gpr[i as int]
                } else {
                    mixed.gpr[i as int]
                }
        }),
{
    let d = thumb14(push)->0;
    let list = d.reg_list;
    let n = listed(list, 8);
    let base = core.gpr[13].wrapping_sub((4 * n) as u32);
    let from = core.fetched16(at_push).with_pc(at_push);
    lemma_fast_unfolds(core, at_push, push);
    lemma_push_effect(from, push, d);
    let from2 = mixed.fetched16(at_pop).with_pc(at_pop);
    lemma_fast_unfolds(mixed, at_pop, pop);
    lemma_pop_effect(from2, pop, thumb14(pop)->0);
    lemma_popped_reads::<I>(mapped, from2, list, 8);
    let back = mixed.thumb_stepped::<Remaining>(at_pop, pop as u32).0;
    assert forall|i: nat| i < 8 implies #[trigger] back.gpr[i as int] == if in_list(
        list,
        i as usize,
    ) {
        core.gpr[i as int]
    } else {
        mixed.gpr[i as int]
    } by {
        let c = from2.popped(list, 8);
        assert(c.gpr[i as int] == back.gpr[i as int]);
        if in_list(list, i as usize) {
            lemma_down_holds::<I>(mapped, core.bus, list, base, core.gpr, 0, i);
        }
    }
}

} // verus!
