//! Where multiple loads and stores put each register.

use vstd::prelude::*;
use crate::cpu::{CoreState, CpuAction};
use crate::dynarec::decode::{in_list, listed};
use crate::dynarec::sem::slot;
use crate::laws::thumb::lemma_thumb_operands;
use crate::laws::words::{digit_at, lemma_cut, lemma_field, one_if, wrapped};
use crate::memory::{MemoryAccess, MemoryInterface, Request};

verus! {

/// Whether a list holds register `r`: bit `r` of the list.
#[verifier::opaque]
pub open spec fn holds_register(list: u8, r: int) -> bool {
    digit_at(list as int, r as nat) == 1
}

/// How many registers below `k` a list holds.
pub open spec fn rank(list: u8, k: nat) -> nat
    decreases k,
{
    if k == 0 {
        0
    } else {
        rank(list, (k - 1) as nat) + if holds_register(list, k - 1) {
            1nat
        } else {
            0nat
        }
    }
}

pub proof fn lemma_holds(list: u8, r: usize)
    requires
        r < 8,
    ensures
        in_list(list, r) == holds_register(list, r as int),
{
    reveal(holds_register);
    vstd::arithmetic::power2::lemma2_to64();
    lemma_field(list as u32, r as u32, 1);
}

proof fn lemma_rank(list: u8, k: nat)
    requires
        k <= 8,
    ensures
        listed(list, k) == rank(list, k),
        rank(list, k) <= k,
    decreases k,
{
    if k > 0 {
        lemma_rank(list, (k - 1) as nat);
        lemma_holds(list, (k - 1) as usize);
    }
}

/// The address of the `n`-th word from `base`.
#[verifier::opaque]
pub open spec fn word_place(base: u32, n: nat) -> u32 {
    wrapped(base + 4 * n)
}

/// Places upwards from a base.
pub proof fn lemma_place(base: u32, n: nat)
    requires
        n <= 16,
    ensures
        slot(base, n) == word_place(base, n),
        n == 0 ==> word_place(base, n) == base,
        word_place(base, n).wrapping_add(4) == word_place(base, n + 1),
        base % 4 == 0 ==> word_place(base, n) & 0xffff_fffc == word_place(base, n),
{
    reveal(word_place);
    lemma_cut(word_place(base, n));
}

/// Places downwards from a stack pointer.
proof fn lemma_down(sp: u32, n: nat)
    requires
        n <= 16,
        sp % 4 == 0,
    ensures
        n == 0 ==> wrapped(sp - 4 * n) == sp,
        wrapped(sp - 4 * n).wrapping_sub(4) == wrapped(sp - 4 * (n + 1)),
        wrapped(sp - 4 * (n + 1)) & 0xffff_fffc == wrapped(sp - 4 * (n + 1)),
{
    lemma_cut(wrapped(sp - 4 * (n + 1)));
}

/// The access of the `n`-th word of a row.
pub open spec fn row_access(n: nat) -> MemoryAccess {
    if n == 0 {
        MemoryAccess::NonSeq
    } else {
        MemoryAccess::Sequential
    }
}

/// A bus after the listed words below `k` were read upwards from `base`.
pub open spec fn words_read<I: MemoryInterface>(
    bus: I::State,
    list: u8,
    base: u32,
    k: nat,
) -> I::State
    decreases k,
{
    if k == 0 {
        bus
    } else {
        let before = words_read::<I>(bus, list, base, (k - 1) as nat);
        if holds_register(list, k - 1) {
            let n = rank(list, (k - 1) as nat);
            I::next(before, Request::Load32(word_place(base, n), row_access(n)))
        } else {
            before
        }
    }
}

/// What a multiple load brings into register `r`: the word at its place in the row, when its turn
/// comes.
pub open spec fn word_brought<I: MemoryInterface>(
    bus: I::State,
    list: u8,
    base: u32,
    r: nat,
) -> u32 {
    let n = rank(list, r);
    I::reply(
        words_read::<I>(bus, list, base, r),
        Request::Load32(word_place(base, n), row_access(n)),
    )
}

/// A multiple load reads a row of words, the lowest register from the lowest address. Each listed
/// register gets its word, and no other register changes.
#[verifier::spinoff_prover]
pub proof fn law_multiple_load<I: MemoryInterface>(s: CoreState<I>, list: u8, base: u32, k: nat)
    requires
        k <= 8,
        s.gpr.len() == 15,
    ensures
        ({
            let t = s.ldm(list, base, k);
            &&& t == (CoreState { gpr: t.gpr, bus: words_read::<I>(s.bus, list, base, k), ..s })
            &&& t.gpr.len() == 15
            &&& forall|r: int|
                0 <= r < 15 ==> #[trigger] t.gpr[r] == if r < k && holds_register(list, r) {
                    word_brought::<I>(s.bus, list, base, r as nat)
                } else {
                    s.gpr[r]
                }
        }),
    decreases k,
{
    if k > 0 {
        let j = (k - 1) as nat;
        law_multiple_load(s, list, base, j);
        lemma_holds(list, j as usize);
        lemma_rank(list, j);
        lemma_place(base, rank(list, j));
        let p = s.ldm(list, base, j);
        let t = s.ldm(list, base, k);
        assert forall|r: int| 0 <= r < 15 implies #[trigger] t.gpr[r] == if r < k
            && holds_register(list, r) {
            word_brought::<I>(s.bus, list, base, r as nat)
        } else {
            s.gpr[r]
        } by {
            assert(p.gpr[r] == if r < j && holds_register(list, r) {
                word_brought::<I>(s.bus, list, base, r as nat)
            } else {
                s.gpr[r]
            });
        }
    }
}

/// A bus after listed registers below `k` were stored upwards from `base`.
pub open spec fn words_written<I: MemoryInterface>(
    bus: I::State,
    list: u8,
    base: u32,
    gpr: Seq<u32>,
    k: nat,
) -> I::State
    decreases k,
{
    if k == 0 {
        bus
    } else {
        let before = words_written::<I>(bus, list, base, gpr, (k - 1) as nat);
        if holds_register(list, k - 1) {
            let n = rank(list, (k - 1) as nat);
            I::next(before, Request::Store32(word_place(base, n), gpr[k - 1], row_access(n)))
        } else {
            before
        }
    }
}

/// A multiple store of registers other than the base writes a row of words, the lowest register to
/// the lowest address, and changes no register.
pub proof fn law_multiple_store<I: MemoryInterface>(
    s: CoreState<I>,
    list: u8,
    rb: int,
    base: u32,
    k: nat,
)
    requires
        k <= 8,
        !holds_register(list, rb),
    ensures
        s.stm(list, rb, base, k) == (CoreState {
            bus: words_written::<I>(s.bus, list, base, s.gpr, k),
            ..s
        }),
    decreases k,
{
    if k > 0 {
        let j = (k - 1) as nat;
        law_multiple_store(s, list, rb, base, j);
        lemma_holds(list, j as usize);
        lemma_rank(list, j);
        lemma_place(base, rank(list, j));
    }
}

/// A pop reads a row of words upwards from the stack pointer, which must be a multiple of four, and
/// leaves it after the last one.
#[verifier::spinoff_prover]
pub proof fn law_pop_reads_a_row<I: MemoryInterface>(s: CoreState<I>, list: u8, k: nat)
    requires
        k <= 8,
        s.gpr.len() == 15,
        s.gpr[13] % 4 == 0,
    ensures
        ({
            let base = s.gpr[13];
            let t = s.popped(list, k);
            &&& t == (CoreState { gpr: t.gpr, bus: words_read::<I>(s.bus, list, base, k), ..s })
            &&& t.gpr.len() == 15
            &&& t.gpr[13] == word_place(base, rank(list, k))
            &&& forall|r: int|
                0 <= r < 15 && r != 13 ==> #[trigger] t.gpr[r] == if r < k && holds_register(
                    list,
                    r,
                ) {
                    word_brought::<I>(s.bus, list, base, r as nat)
                } else {
                    s.gpr[r]
                }
        }),
    decreases k,
{
    let base = s.gpr[13];
    if k == 0 {
        lemma_place(base, 0);
    } else {
        let j = (k - 1) as nat;
        law_pop_reads_a_row(s, list, j);
        lemma_holds(list, j as usize);
        lemma_rank(list, j);
        lemma_place(base, rank(list, j));
        let p = s.popped(list, j);
        let t = s.popped(list, k);
        assert forall|r: int| 0 <= r < 15 && r != 13 implies #[trigger] t.gpr[r] == if r < k
            && holds_register(list, r) {
            word_brought::<I>(s.bus, list, base, r as nat)
        } else {
            s.gpr[r]
        } by {
            assert(p.gpr[r] == if r < j && holds_register(list, r) {
                word_brought::<I>(s.bus, list, base, r as nat)
            } else {
                s.gpr[r]
            });
        }
    }
}

/// A bus after a push: the link register, where it is pushed, below the stack pointer, and then the
/// listed registers from the highest down to `k`, each a word further down.
pub open spec fn words_pushed<I: MemoryInterface>(
    bus: I::State,
    list: u8,
    lr: bool,
    sp: u32,
    gpr: Seq<u32>,
    k: nat,
) -> I::State
    decreases 8 - k,
{
    if k >= 8 {
        if lr {
            I::next(bus, Request::Store32(wrapped(sp - 4), gpr[14], MemoryAccess::NonSeq))
        } else {
            bus
        }
    } else {
        let before = words_pushed::<I>(bus, list, lr, sp, gpr, k + 1);
        if holds_register(list, k as int) {
            let n = pushed_above(list, lr, k + 1);
            I::next(
                before,
                Request::Store32(wrapped(sp - 4 * (n + 1)), gpr[k as int], row_access(n)),
            )
        } else {
            before
        }
    }
}

/// How many words a push has stored when the registers from `k` up are done.
pub open spec fn pushed_above(list: u8, lr: bool, k: nat) -> nat {
    (rank(list, 8) - rank(list, k) + one_if(lr)) as nat
}

/// A push stores a row of words downwards from the stack pointer, which must be a multiple of four,
/// and leaves it at the last one.
#[verifier::spinoff_prover]
pub proof fn law_push_writes_a_row<I: MemoryInterface>(
    s: CoreState<I>,
    list: u8,
    lr: bool,
    k: nat,
)
    requires
        k <= 8,
        s.gpr.len() == 15,
        s.gpr[13] % 4 == 0,
    ensures
        rank(list, k) <= rank(list, 8) <= rank(list, k) + 8,
        s.pushed(list, lr, k) == (CoreState {
            gpr: s.gpr.update(13, wrapped(s.gpr[13] - 4 * pushed_above(list, lr, k))),
            bus: words_pushed::<I>(s.bus, list, lr, s.gpr[13], s.gpr, k),
            ..s
        }),
    decreases 8 - k,
{
    let sp = s.gpr[13];
    lemma_rank(list, 8);
    lemma_rank(list, k);
    if k >= 8 {
        lemma_down(sp, 0);
        assert(s.gpr.update(13, sp) =~= s.gpr);
    } else {
        law_push_writes_a_row(s, list, lr, k + 1);
        lemma_rank(list, k + 1);
        lemma_holds(list, k as usize);
        let p = s.pushed(list, lr, k + 1);
        let n = pushed_above(list, lr, k + 1);
        lemma_down(sp, n);
        let low = wrapped(sp - 4 * (n + 1));
        assert(p.gpr.update(13, low) =~= s.gpr.update(13, low));
    }
}

/// What a multiple transfer leaves in its base register: the address after the last word. A load that
/// lists its base keeps what it loaded.
#[verifier::spinoff_prover]
pub proof fn law_multiple_transfer<I: MemoryInterface>(s: CoreState<I>, x: u32)
    requires
        x / 4096 == 12,
        x % 256 != 0,
        s.gpr.len() == 15,
        s.gpr[x as int / 256 % 8] % 4 == 0,
    ensures
        ({
            let rb = x as int / 256 % 8;
            let list = (x % 256) as u8;
            let base = s.gpr[rb];
            let end = word_place(base, rank(list, 8));
            let (t, action) = s.thumb_multiple(x);
            &&& action == CpuAction::AdvancePC(MemoryAccess::NonSeq)
            &&& x / 2048 % 2 == 1 ==> {
                let u = s.ldm(list, base, 8);
                t == CoreState {
                    gpr: if holds_register(list, rb) {
                        u.gpr
                    } else {
                        u.gpr.update(rb, end)
                    },
                    bus: I::next(words_read::<I>(s.bus, list, base, 8), Request::IdleCycle),
                    ..s
                }
            }
            &&& x / 2048 % 2 == 0 && !holds_register(list, rb) ==> t == CoreState {
                gpr: s.gpr.update(rb, end),
                bus: words_written::<I>(s.bus, list, base, s.gpr, 8),
                ..s
            }
        }),
{
    let rb = x as int / 256 % 8;
    let list = (x % 256) as u8;
    let base = s.gpr[rb];
    lemma_thumb_operands(x);
    lemma_cut(base);
    lemma_rank(list, 8);
    lemma_place(base, rank(list, 8));
    lemma_holds(list, rb as usize);
    law_multiple_load(s, list, base, 8);
    if !holds_register(list, rb) {
        law_multiple_store(s, list, rb, base, 8);
    }
}

} // verus!
