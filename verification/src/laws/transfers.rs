//! Which addresses Thumb loads and stores access, and what they transfer.

use vstd::prelude::*;
use crate::bits::{bits, rotated_right, signed_field, word};
use crate::cpu::{CoreState, CpuAction};
use crate::fastpath::Handlers;
use crate::laws::jumps::signed_part;
use crate::laws::shifts::turned;
use crate::laws::thumb::{
    computed, fetched_for, gone_on, lemma_gone_on, lemma_thumb_format, lemma_thumb_operands,
};
use crate::laws::words::{
    flagged, lemma_cut, lemma_flag_reads, lemma_flagged, lemma_masks, lemma_shifts, lemma_top_bit,
    n_of, v_of, wrapped, z_of,
};
use crate::memory::{MemoryAccess, MemoryInterface, Request};
use crate::psr::RegPSR;

verus! {

/// A word as a load brings it in from any address: the word at the multiple of four, turned so that
/// the addressed byte comes lowest.
pub open spec fn word_from<I: MemoryInterface>(bus: I::State, addr: u32) -> u32 {
    turned(
        I::reply(bus, Request::Load32((addr - addr % 4) as u32, MemoryAccess::NonSeq)),
        8 * (addr as int % 4),
    )
}

/// A halfword as a load brings it in from any address.
pub open spec fn half_from<I: MemoryInterface>(bus: I::State, addr: u32) -> u32 {
    turned(
        I::reply(bus, Request::Load16((addr - addr % 2) as u32, MemoryAccess::NonSeq)),
        8 * (addr as int % 2),
    )
}

/// A load of a value by a request: the register written, and an internal cycle. A load from an
/// address that is not aligned leaves the top bit of the value in the carry.
pub open spec fn load_done<I: MemoryInterface>(
    s: CoreState<I>,
    rd: int,
    request: Request,
    value: u32,
    aligned: bool,
) -> CoreState<I> {
    let raw = s.cpsr.raw;
    CoreState {
        gpr: s.gpr.update(rd, value),
        bus: I::next(I::next(s.bus, request), Request::IdleCycle),
        cpsr: RegPSR {
            raw: if aligned {
                raw
            } else {
                flagged(raw, n_of(raw), z_of(raw), value >= 0x8000_0000, v_of(raw))
            },
        },
        ..s
    }
}

/// A word loaded.
#[verifier::opaque]
pub open spec fn word_load<I: MemoryInterface>(s: CoreState<I>, rd: int, addr: u32) -> CoreState<I> {
    load_done(
        s,
        rd,
        Request::Load32((addr - addr % 4) as u32, MemoryAccess::NonSeq),
        word_from::<I>(s.bus, addr),
        addr % 4 == 0,
    )
}

/// A halfword loaded.
#[verifier::opaque]
pub open spec fn half_load<I: MemoryInterface>(s: CoreState<I>, rd: int, addr: u32) -> CoreState<I> {
    load_done(
        s,
        rd,
        Request::Load16((addr - addr % 2) as u32, MemoryAccess::NonSeq),
        half_from::<I>(s.bus, addr),
        addr % 2 == 0,
    )
}

/// A byte loaded.
#[verifier::opaque]
pub open spec fn byte_load<I: MemoryInterface>(s: CoreState<I>, rd: int, addr: u32) -> CoreState<I> {
    let request = Request::Load8(addr, MemoryAccess::NonSeq);
    load_done(s, rd, request, I::reply(s.bus, request), true)
}

/// A register stored as a word, a halfword or a byte.
#[verifier::opaque]
pub open spec fn word_store<I: MemoryInterface>(s: CoreState<I>, rd: int, addr: u32) -> CoreState<I> {
    let request = Request::Store32((addr - addr % 4) as u32, s.gpr[rd], MemoryAccess::NonSeq);
    CoreState { bus: I::next(s.bus, request), ..s }
}

#[verifier::opaque]
pub open spec fn half_store<I: MemoryInterface>(s: CoreState<I>, rd: int, addr: u32) -> CoreState<I> {
    let request = Request::Store16(
        (addr - addr % 2) as u32,
        (s.gpr[rd] % 65536) as u16,
        MemoryAccess::NonSeq,
    );
    CoreState { bus: I::next(s.bus, request), ..s }
}

#[verifier::opaque]
pub open spec fn byte_store<I: MemoryInterface>(s: CoreState<I>, rd: int, addr: u32) -> CoreState<I> {
    let request = Request::Store8(addr, (s.gpr[rd] % 256) as u8, MemoryAccess::NonSeq);
    CoreState { bus: I::next(s.bus, request), ..s }
}

/// The carry written alone.
proof fn lemma_carry_written(raw: u32, c: bool)
    ensures
        (RegPSR { raw }).with_carry(c).raw == flagged(raw, n_of(raw), z_of(raw), c, v_of(raw)),
{
    lemma_flag_reads(raw);
    lemma_flagged(raw, n_of(raw), z_of(raw), c, v_of(raw));
}

/// A turned word.
proof fn lemma_turned_word(w: u32, n: u32)
    requires
        n < 32,
    ensures
        rotated_right(w, n) == turned(w, n as int),
{
    if n > 0 {
        lemma_shifts(w, n);
    }
}

/// Loads of words, halfwords and bytes, and stores.
#[verifier::spinoff_prover]
pub proof fn law_loads_and_stores<I: MemoryInterface>(s: CoreState<I>, rd: int, addr: u32)
    ensures
        s.thumb_access(true, false, rd, addr) == word_load(s, rd, addr),
        s.thumb_access(true, true, rd, addr) == byte_load(s, rd, addr),
        s.thumb_access(false, false, rd, addr) == word_store(s, rd, addr),
        s.thumb_access(false, true, rd, addr) == byte_store(s, rd, addr),
        s.loaded_reg(rd, s.word_loaded(addr, MemoryAccess::NonSeq)) == word_load(s, rd, addr),
        s.loaded_reg(rd, s.half_loaded(addr, MemoryAccess::NonSeq)) == half_load(s, rd, addr),
        s.half_stored(rd, addr) == half_store(s, rd, addr),
{
    reveal(byte_load);
    reveal(word_store);
    reveal(half_store);
    reveal(byte_store);
    lemma_word_load(s, rd, addr);
    lemma_half_load(s, rd, addr);
    lemma_cut(addr);
}

#[verifier::spinoff_prover]
proof fn lemma_word_load<I: MemoryInterface>(s: CoreState<I>, rd: int, addr: u32)
    ensures
        s.loaded_reg(rd, s.word_loaded(addr, MemoryAccess::NonSeq)) == word_load(s, rd, addr),
{
    reveal(word_load);
    lemma_cut(addr);
    let w = I::reply(s.bus, Request::Load32((addr - addr % 4) as u32, MemoryAccess::NonSeq));
    lemma_turned_word(w, (8 * (addr % 4)) as u32);
    let v = word_from::<I>(s.bus, addr);
    lemma_carry_written(s.cpsr.raw, v >= 0x8000_0000);
    lemma_top_bit(v);
}

#[verifier::spinoff_prover]
proof fn lemma_half_load<I: MemoryInterface>(s: CoreState<I>, rd: int, addr: u32)
    ensures
        s.loaded_reg(rd, s.half_loaded(addr, MemoryAccess::NonSeq)) == half_load(s, rd, addr),
{
    reveal(half_load);
    lemma_cut(addr);
    let w = I::reply(s.bus, Request::Load16((addr - addr % 2) as u32, MemoryAccess::NonSeq));
    lemma_turned_word(w, (8 * (addr % 2)) as u32);
    let v = half_from::<I>(s.bus, addr);
    lemma_carry_written(s.cpsr.raw, v >= 0x8000_0000);
    lemma_top_bit(v);
}

/// The access of the fetch after a load and after a store.
pub open spec fn fetch_after(load: bool) -> MemoryAccess {
    if load {
        MemoryAccess::Sequential
    } else {
        MemoryAccess::NonSeq
    }
}

/// The formats of loads, stores and addresses.
#[verifier::spinoff_prover]
proof fn lemma_transfer_formats<I: MemoryInterface, H: Handlers<I>>(core: CoreState<I>, x: u32)
    requires
        x < 0x1_0000,
        x / 2048 == 9 || x / 4096 == 5 || x / 8192 == 3 || (8 <= x / 4096 && x / 4096 <= 10) || x
            / 256 == 176,
    ensures
        core.thumb_transfer(x) is Some,
        core.thumb_effect::<H>(x) == core.thumb_transfer(x)->0,
{
    lemma_thumb_format(x);
}

/// A step whose instruction is a load, a store or an address.
proof fn lemma_transferred<I: MemoryInterface, H: Handlers<I>>(
    core: CoreState<I>,
    at: u32,
    x: u32,
    done: CoreState<I>,
    access: MemoryAccess,
)
    requires
        x < 0x1_0000,
        x / 2048 == 9 || x / 4096 == 5 || x / 8192 == 3 || (8 <= x / 4096 && x / 4096 <= 10) || x
            / 256 == 176,
        fetched_for(core, at).thumb_transfer(x) == Some((done, CpuAction::AdvancePC(access))),
    ensures
        core.thumb_stepped::<H>(at, x) == gone_on(done, at, access),
{
    lemma_transfer_formats::<I, H>(fetched_for(core, at), x);
    lemma_gone_on::<I, H>(core, at, x, done, access);
}

/// A load from the literals after the code: the offset counts words from the program counter, cut to
/// a multiple of four.
#[verifier::spinoff_prover]
pub proof fn law_thumb_literal<I: MemoryInterface, H: Handlers<I>>(
    core: CoreState<I>,
    at: u32,
    x: u32,
)
    requires
        x / 2048 == 9,
    ensures
        core.thumb_stepped::<H>(at, x) == gone_on(
            word_load(
                fetched_for(core, at),
                x as int / 256 % 8,
                wrapped(at - at % 4 + 4 * (x % 256)),
            ),
            at,
            MemoryAccess::NonSeq,
        ),
{
    let s = fetched_for(core, at);
    let addr = wrapped(at - at % 4 + 4 * (x % 256));
    let rd = x as int / 256 % 8;
    lemma_literal_format(s, x);
    law_loads_and_stores(s, rd, addr);
    lemma_transferred::<I, H>(core, at, x, word_load(s, rd, addr), MemoryAccess::NonSeq);
}

/// Which format of loads, stores and addresses an instruction has.
#[verifier::spinoff_prover]
proof fn lemma_route(x: u32)
    requires
        x < 0x1_0000,
    ensures
        (bits(x, 11, 5) == 0b01001) == (x / 2048 == 9),
        (bits(x, 12, 4) == 0b0101) == (x / 4096 == 5),
        (bits(x, 12, 4) == 0b1000) == (x / 4096 == 8),
        (bits(x, 12, 4) == 0b1001) == (x / 4096 == 9),
        (bits(x, 12, 4) == 0b1010) == (x / 4096 == 10),
        (bits(x, 13, 3) == 0b011) == (x / 4096 == 6 || x / 4096 == 7),
        (bits(x, 8, 8) == 0xb0) == (x / 256 == 176),
        (bits(x, 9, 1) == 0) == (x / 512 % 2 == 0),
        x / 2048 == 9 ==> x / 4096 == 4,
        x / 256 == 176 ==> x / 4096 == 11,
        x / 4096 == 6 ==> x / 4096 % 2 == 0,
        x / 4096 == 7 ==> x / 4096 % 2 == 1,
{
    lemma_thumb_format(x);
}

/// An address and an offset.
proof fn lemma_offset_address(base: u32, k: u32)
    ensures
        base.wrapping_add(k) == wrapped(base + k),
{
}

/// The program counter cut to a multiple of four, and words.
#[verifier::spinoff_prover]
proof fn lemma_cut_address(pc: u32, k: u32)
    requires
        k < 256,
    ensures
        (pc & 0xffff_fffc).wrapping_add((k * 4) as u32) == wrapped(pc - pc % 4 + 4 * k),
{
    lemma_cut(pc);
}

proof fn lemma_literal_route<I: MemoryInterface>(s: CoreState<I>, x: u32, rd: u32, k: u32)
    requires
        bits(x, 11, 5) == 0b01001,
        bits(x, 8, 3) == rd,
        bits(x, 0, 8) == k,
    ensures
        s.thumb_transfer(x) == Some(
            s.loaded_reg(
                rd as int,
                s.word_loaded(
                    (s.pc & 0xffff_fffc).wrapping_add((k * 4) as u32),
                    MemoryAccess::NonSeq,
                ),
            ).going(MemoryAccess::NonSeq),
        ),
{
}

proof fn lemma_register_route<I: MemoryInterface>(
    s: CoreState<I>,
    x: u32,
    load: bool,
    byte: bool,
    rd: u32,
    base: u32,
    ro: u32,
)
    requires
        bits(x, 11, 5) != 0b01001,
        bits(x, 12, 4) == 0b0101,
        bits(x, 9, 1) == 0,
        (bits(x, 11, 1) == 1) == load,
        (bits(x, 10, 1) == 1) == byte,
        bits(x, 0, 3) == rd,
        s.gpr[bits(x, 3, 3) as int] == base,
        bits(x, 6, 3) == ro,
    ensures
        s.thumb_transfer(x) == Some(
            s.thumb_access(
                load,
                byte,
                rd as int,
                base.wrapping_add(s.gpr[ro as int]),
            ).going(fetch_after(load)),
        ),
{
}

proof fn lemma_immediate_route<I: MemoryInterface>(
    s: CoreState<I>,
    x: u32,
    load: bool,
    byte: bool,
    rd: u32,
    base: u32,
    k: u32,
)
    requires
        bits(x, 11, 5) != 0b01001,
        bits(x, 12, 4) != 0b0101,
        bits(x, 12, 4) != 0b1000,
        bits(x, 13, 3) == 0b011,
        (bits(x, 11, 1) == 1) == load,
        (bits(x, 12, 1) == 1) == byte,
        bits(x, 0, 3) == rd,
        s.gpr[bits(x, 3, 3) as int] == base,
        bits(x, 6, 5) == k,
    ensures
        s.thumb_transfer(x) == Some(
            s.thumb_access(
                load,
                byte,
                rd as int,
                base.wrapping_add(
                    if byte {
                        k
                    } else {
                        (4 * k) as u32
                    },
                ),
            ).going(fetch_after(load)),
        ),
{
}

proof fn lemma_stack_route<I: MemoryInterface>(
    s: CoreState<I>,
    x: u32,
    load: bool,
    rd: u32,
    k: u32,
)
    requires
        bits(x, 11, 5) != 0b01001,
        bits(x, 12, 4) == 0b1001,
        bits(x, 13, 3) != 0b011,
        (bits(x, 11, 1) == 1) == load,
        bits(x, 8, 3) == rd,
        bits(x, 0, 8) == k,
    ensures
        s.thumb_transfer(x) == Some(
            s.thumb_access(
                load,
                false,
                rd as int,
                s.gpr[13].wrapping_add((4 * k) as u32),
            ).going(fetch_after(load)),
        ),
{
}

proof fn lemma_signed_route<I: MemoryInterface>(
    s: CoreState<I>,
    x: u32,
    half: bool,
    sign: bool,
    rd: u32,
    addr: u32,
)
    requires
        bits(x, 11, 5) != 0b01001,
        bits(x, 12, 4) == 0b0101,
        bits(x, 9, 1) != 0,
        (bits(x, 11, 1) == 1) == half,
        (bits(x, 10, 1) == 1) == sign,
        bits(x, 0, 3) == rd,
        s.gpr[bits(x, 3, 3) as int].wrapping_add(s.gpr[bits(x, 6, 3) as int]) == addr,
    ensures
        s.thumb_transfer(x) == Some(s.thumb_signed(x).going(MemoryAccess::NonSeq)),
        s.thumb_signed(x) == if sign && half {
            s.loaded_reg(rd as int, s.signed_half_loaded(addr, MemoryAccess::NonSeq))
        } else if sign {
            s.loaded_reg(
                rd as int,
                (word(signed_field(s.byte_loaded(addr).0, 0x80)), s.byte_loaded(addr).1),
            )
        } else if half {
            s.loaded_reg(rd as int, s.half_loaded(addr, MemoryAccess::NonSeq))
        } else {
            s.half_stored(rd as int, addr)
        },
{
}

proof fn lemma_half_route<I: MemoryInterface>(
    s: CoreState<I>,
    x: u32,
    load: bool,
    rd: u32,
    base: u32,
    k: u32,
)
    requires
        bits(x, 11, 5) != 0b01001,
        bits(x, 12, 4) == 0b1000,
        (bits(x, 11, 1) == 1) == load,
        bits(x, 0, 3) == rd,
        s.gpr[bits(x, 3, 3) as int] == base,
        bits(x, 6, 5) == k,
    ensures
        s.thumb_transfer(x) == Some(
            (if load {
                s.loaded_reg(
                    rd as int,
                    s.half_loaded(base.wrapping_add((2 * k) as u32), MemoryAccess::NonSeq),
                )
            } else {
                s.half_stored(rd as int, base.wrapping_add((2 * k) as u32))
            }).going(fetch_after(load)),
        ),
{
}

proof fn lemma_address_route<I: MemoryInterface>(
    s: CoreState<I>,
    x: u32,
    address: bool,
    sp: bool,
    rd: u32,
    k: u32,
    down: bool,
    j: u32,
)
    requires
        bits(x, 11, 5) != 0b01001,
        bits(x, 13, 3) != 0b011,
        bits(x, 12, 4) != 0b0101,
        bits(x, 12, 4) != 0b1000,
        bits(x, 12, 4) != 0b1001,
        (bits(x, 12, 4) == 0b1010) == address,
        !address ==> bits(x, 8, 8) == 0xb0,
        (bits(x, 11, 1) == 1) == sp,
        (bits(x, 7, 1) == 1) == down,
        bits(x, 8, 3) == rd,
        bits(x, 0, 8) == k,
        bits(x, 0, 7) == j,
    ensures
        s.thumb_transfer(x) == Some(
            (if address && !sp {
                s.with_gpr(
                    rd as int,
                    (s.pc.wrapping_sub(4) & 0xffff_fffd).wrapping_add(4).wrapping_add(
                        (4 * k) as u32,
                    ),
                )
            } else if address {
                s.with_gpr(rd as int, s.gpr[13].wrapping_add((4 * k) as u32))
            } else if !down {
                s.with_gpr(13, s.gpr[13].wrapping_add((4 * j) as u32))
            } else {
                s.with_gpr(13, s.gpr[13].wrapping_sub((4 * j) as u32))
            }).going(MemoryAccess::Sequential),
        ),
{
}

#[verifier::spinoff_prover]
proof fn lemma_literal_format<I: MemoryInterface>(s: CoreState<I>, x: u32)
    requires
        x / 2048 == 9,
    ensures
        s.thumb_transfer(x) == Some(
            s.loaded_reg(
                x as int / 256 % 8,
                s.word_loaded(wrapped(s.pc - s.pc % 4 + 4 * (x % 256)), MemoryAccess::NonSeq),
            ).going(MemoryAccess::NonSeq),
        ),
{
    lemma_route(x);
    lemma_thumb_operands(x);
    let k = (x % 256) as u32;
    lemma_cut_address(s.pc, k);
    lemma_literal_route(s, x, (x / 256 % 8) as u32, k);
}

/// What a word or byte transfer comes to.
pub open spec fn simple_transfer<I: MemoryInterface>(
    s: CoreState<I>,
    load: bool,
    byte: bool,
    rd: int,
    addr: u32,
) -> CoreState<I> {
    if load && byte {
        byte_load(s, rd, addr)
    } else if load {
        word_load(s, rd, addr)
    } else if byte {
        byte_store(s, rd, addr)
    } else {
        word_store(s, rd, addr)
    }
}

/// A step that is a word or byte transfer.
#[verifier::spinoff_prover]
proof fn lemma_simple<I: MemoryInterface, H: Handlers<I>>(
    core: CoreState<I>,
    at: u32,
    x: u32,
    load: bool,
    byte: bool,
    rd: int,
    addr: u32,
)
    requires
        x < 0x1_0000,
        x / 4096 == 5 || x / 8192 == 3 || x / 4096 == 9,
        fetched_for(core, at).thumb_transfer(x) == Some(
            fetched_for(core, at).thumb_access(load, byte, rd, addr).going(fetch_after(load)),
        ),
    ensures
        core.thumb_stepped::<H>(at, x) == gone_on(
            simple_transfer(fetched_for(core, at), load, byte, rd, addr),
            at,
            fetch_after(load),
        ),
{
    let s = fetched_for(core, at);
    law_loads_and_stores(s, rd, addr);
    lemma_transferred::<I, H>(
        core,
        at,
        x,
        simple_transfer(s, load, byte, rd, addr),
        fetch_after(load),
    );
}

/// Where the formats of word and byte transfers find their operands.
#[verifier::spinoff_prover]
proof fn lemma_simple_formats<I: MemoryInterface>(s: CoreState<I>, x: u32)
    requires
        x < 0x1_0000,
    ensures
        ({
            let load = x / 2048 % 2 == 1;
            let base = s.gpr[x as int / 8 % 8];
            let k = x as int / 64 % 32;
            let rd = x as int % 8;
            let access = fetch_after(load);
            &&& x / 4096 == 5 && x / 512 % 2 == 0 ==> s.thumb_transfer(x) == Some(
                s.thumb_access(
                    load,
                    x / 1024 % 2 == 1,
                    rd,
                    wrapped(base + s.gpr[x as int / 64 % 8]),
                ).going(access),
            )
            &&& x / 4096 == 6 ==> s.thumb_transfer(x) == Some(
                s.thumb_access(load, false, rd, wrapped(base + 4 * k)).going(access),
            )
            &&& x / 4096 == 7 ==> s.thumb_transfer(x) == Some(
                s.thumb_access(load, true, rd, wrapped(base + k)).going(access),
            )
            &&& x / 4096 == 9 ==> s.thumb_transfer(x) == Some(
                s.thumb_access(
                    load,
                    false,
                    x as int / 256 % 8,
                    wrapped(s.gpr[13] + 4 * (x % 256)),
                ).going(access),
            )
        }),
{
    lemma_route(x);
    lemma_thumb_operands(x);
    let load = x / 2048 % 2 == 1;
    let base = s.gpr[x as int / 8 % 8];
    let k = (x / 64 % 32) as u32;
    let rd = (x % 8) as u32;
    if x / 4096 == 5 && x / 512 % 2 == 0 {
        lemma_register_route(s, x, load, x / 1024 % 2 == 1, rd, base, (x / 64 % 8) as u32);
        lemma_offset_address(base, s.gpr[x as int / 64 % 8]);
    } else if x / 4096 == 6 {
        lemma_immediate_route(s, x, load, false, rd, base, k);
        lemma_offset_address(base, (4 * k) as u32);
    } else if x / 4096 == 7 {
        lemma_immediate_route(s, x, load, true, rd, base, k);
        lemma_offset_address(base, k);
    } else if x / 4096 == 9 {
        lemma_stack_route(s, x, load, (x / 256 % 8) as u32, (x % 256) as u32);
        lemma_offset_address(s.gpr[13], (4 * (x % 256)) as u32);
    }
}

/// Words and bytes at the sum of two registers.
#[verifier::spinoff_prover]
pub proof fn law_thumb_register_offset<I: MemoryInterface, H: Handlers<I>>(
    core: CoreState<I>,
    at: u32,
    x: u32,
)
    requires
        x / 4096 == 5,
        x / 512 % 2 == 0,
    ensures
        ({
            let load = x / 2048 % 2 == 1;
            core.thumb_stepped::<H>(at, x) == gone_on(
                simple_transfer(
                    fetched_for(core, at),
                    load,
                    x / 1024 % 2 == 1,
                    x as int % 8,
                    wrapped(core.gpr[x as int / 8 % 8] + core.gpr[x as int / 64 % 8]),
                ),
                at,
                fetch_after(load),
            )
        }),
{
    lemma_simple_formats(fetched_for(core, at), x);
    lemma_simple::<I, H>(
        core,
        at,
        x,
        x / 2048 % 2 == 1,
        x / 1024 % 2 == 1,
        x as int % 8,
        wrapped(core.gpr[x as int / 8 % 8] + core.gpr[x as int / 64 % 8]),
    );
}

/// Halfwords and signed values at the sum of two registers: STRH, LDRSB, LDRH and LDRSH. A signed
/// halfword at an odd address is the signed byte there.
#[verifier::spinoff_prover]
pub proof fn law_thumb_signed<I: MemoryInterface, H: Handlers<I>>(
    core: CoreState<I>,
    at: u32,
    x: u32,
)
    requires
        x / 4096 == 5,
        x / 512 % 2 == 1,
    ensures
        ({
            let s = fetched_for(core, at);
            let rd = x as int % 8;
            let addr = wrapped(core.gpr[x as int / 8 % 8] + core.gpr[x as int / 64 % 8]);
            let byte = Request::Load8(addr, MemoryAccess::NonSeq);
            let half = Request::Load16(addr, MemoryAccess::NonSeq);
            let signed_byte = load_done(
                s,
                rd,
                byte,
                wrapped(signed_part(I::reply(s.bus, byte) as int, 128)),
                true,
            );
            let signed_half = load_done(
                s,
                rd,
                half,
                wrapped(signed_part(I::reply(s.bus, half) as int, 32768)),
                true,
            );
            core.thumb_stepped::<H>(at, x) == gone_on(
                if x / 1024 % 4 == 0 {
                    half_store(s, rd, addr)
                } else if x / 1024 % 4 == 1 {
                    signed_byte
                } else if x / 1024 % 4 == 2 {
                    half_load(s, rd, addr)
                } else if addr % 2 == 1 {
                    signed_byte
                } else {
                    signed_half
                },
                at,
                MemoryAccess::NonSeq,
            )
        }),
{
    let s = fetched_for(core, at);
    let rd = x as int % 8;
    let addr = wrapped(core.gpr[x as int / 8 % 8] + core.gpr[x as int / 64 % 8]);
    lemma_signed_format(s, x);
    lemma_signed_loads(s, rd, addr);
    law_loads_and_stores(s, rd, addr);
    lemma_transferred::<I, H>(core, at, x, s.thumb_signed(x), MemoryAccess::NonSeq);
}

#[verifier::spinoff_prover]
proof fn lemma_signed_format<I: MemoryInterface>(s: CoreState<I>, x: u32)
    requires
        x / 4096 == 5,
        x / 512 % 2 == 1,
    ensures
        ({
            let rd = x as int % 8;
            let addr = wrapped(s.gpr[x as int / 8 % 8] + s.gpr[x as int / 64 % 8]);
            &&& s.thumb_transfer(x) == Some(s.thumb_signed(x).going(MemoryAccess::NonSeq))
            &&& s.thumb_signed(x) == if x / 1024 % 4 == 0 {
                s.half_stored(rd, addr)
            } else if x / 1024 % 4 == 1 {
                s.loaded_reg(
                    rd,
                    (
                        word(signed_field(s.byte_loaded(addr).0, 0x80)),
                        s.byte_loaded(addr).1,
                    ),
                )
            } else if x / 1024 % 4 == 2 {
                s.loaded_reg(rd, s.half_loaded(addr, MemoryAccess::NonSeq))
            } else {
                s.loaded_reg(rd, s.signed_half_loaded(addr, MemoryAccess::NonSeq))
            }
        }),
{
    lemma_route(x);
    lemma_thumb_operands(x);
    let a = s.gpr[x as int / 8 % 8];
    let b = s.gpr[x as int / 64 % 8];
    lemma_offset_address(a, b);
    assert(x / 1024 % 4 == 2 * (x / 2048 % 2) + x / 1024 % 2);
    lemma_signed_route(
        s,
        x,
        x / 2048 % 2 == 1,
        x / 1024 % 2 == 1,
        (x % 8) as u32,
        a.wrapping_add(b),
    );
}

#[verifier::spinoff_prover]
proof fn lemma_signed_loads<I: MemoryInterface>(s: CoreState<I>, rd: int, addr: u32)
    ensures
        ({
            let byte = Request::Load8(addr, MemoryAccess::NonSeq);
            let half = Request::Load16(addr, MemoryAccess::NonSeq);
            let signed_byte = load_done(
                s,
                rd,
                byte,
                wrapped(signed_part(I::reply(s.bus, byte) as int, 128)),
                true,
            );
            let signed_half = load_done(
                s,
                rd,
                half,
                wrapped(signed_part(I::reply(s.bus, half) as int, 32768)),
                true,
            );
            &&& s.loaded_reg(
                rd,
                (word(signed_field(s.byte_loaded(addr).0, 0x80)), s.byte_loaded(addr).1),
            ) == signed_byte
            &&& s.loaded_reg(rd, s.signed_half_loaded(addr, MemoryAccess::NonSeq)) == if addr % 2
                == 1 {
                signed_byte
            } else {
                signed_half
            }
        }),
{
    lemma_cut(addr);
}

/// Words, bytes and halfwords at a register and an offset that counts words, bytes or halfwords, and
/// words at the stack pointer.
#[verifier::spinoff_prover]
pub proof fn law_thumb_immediate_offset<I: MemoryInterface, H: Handlers<I>>(
    core: CoreState<I>,
    at: u32,
    x: u32,
)
    requires
        x / 8192 == 3 || x / 4096 == 8 || x / 4096 == 9,
    ensures
        ({
            let s = fetched_for(core, at);
            let load = x / 2048 % 2 == 1;
            let base = core.gpr[x as int / 8 % 8];
            let k = x as int / 64 % 32;
            let rd = x as int % 8;
            core.thumb_stepped::<H>(at, x) == gone_on(
                if x / 4096 == 6 {
                    simple_transfer(s, load, false, rd, wrapped(base + 4 * k))
                } else if x / 4096 == 7 {
                    simple_transfer(s, load, true, rd, wrapped(base + k))
                } else if x / 4096 == 8 {
                    if load {
                        half_load(s, rd, wrapped(base + 2 * k))
                    } else {
                        half_store(s, rd, wrapped(base + 2 * k))
                    }
                } else {
                    simple_transfer(
                        s,
                        load,
                        false,
                        x as int / 256 % 8,
                        wrapped(core.gpr[13] + 4 * (x % 256)),
                    )
                },
                at,
                fetch_after(load),
            )
        }),
{
    let s = fetched_for(core, at);
    let load = x / 2048 % 2 == 1;
    let base = core.gpr[x as int / 8 % 8];
    let k = x as int / 64 % 32;
    let rd = x as int % 8;
    if x / 4096 == 8 {
        let addr = wrapped(base + 2 * k);
        lemma_half_format(s, x);
        law_loads_and_stores(s, rd, addr);
        let done = if load {
            half_load(s, rd, addr)
        } else {
            half_store(s, rd, addr)
        };
        lemma_transferred::<I, H>(core, at, x, done, fetch_after(load));
    } else {
        lemma_simple_formats(s, x);
        if x / 4096 == 6 {
            lemma_simple::<I, H>(core, at, x, load, false, rd, wrapped(base + 4 * k));
        } else if x / 4096 == 7 {
            lemma_simple::<I, H>(core, at, x, load, true, rd, wrapped(base + k));
        } else {
            let addr = wrapped(core.gpr[13] + 4 * (x % 256));
            lemma_simple::<I, H>(core, at, x, load, false, x as int / 256 % 8, addr);
        }
    }
}

#[verifier::spinoff_prover]
proof fn lemma_half_format<I: MemoryInterface>(s: CoreState<I>, x: u32)
    requires
        x / 4096 == 8,
    ensures
        ({
            let load = x / 2048 % 2 == 1;
            let addr = wrapped(s.gpr[x as int / 8 % 8] + 2 * (x as int / 64 % 32));
            let rd = x as int % 8;
            s.thumb_transfer(x) == Some(
                (if load {
                    s.loaded_reg(rd, s.half_loaded(addr, MemoryAccess::NonSeq))
                } else {
                    s.half_stored(rd, addr)
                }).going(fetch_after(load)),
            )
        }),
{
    lemma_route(x);
    lemma_thumb_operands(x);
    let k = (x / 64 % 32) as u32;
    let base = s.gpr[x as int / 8 % 8];
    lemma_half_route(s, x, x / 2048 % 2 == 1, (x % 8) as u32, base, k);
    lemma_offset_address(base, (2 * k) as u32);
}

/// Addresses: the stack pointer or the program counter, cut to a multiple of four, and an offset that
/// counts words; and the stack pointer moved up or down by words.
#[verifier::spinoff_prover]
pub proof fn law_thumb_addresses<I: MemoryInterface, H: Handlers<I>>(
    core: CoreState<I>,
    at: u32,
    x: u32,
)
    requires
        x / 4096 == 10 || x / 256 == 176,
        at % 2 == 0,
    ensures
        core.thumb_stepped::<H>(at, x) == computed(
            core,
            at,
            if x / 2048 == 20 {
                core.gpr.update(x as int / 256 % 8, wrapped(at - at % 4 + 4 * (x % 256)))
            } else if x / 2048 == 21 {
                core.gpr.update(x as int / 256 % 8, wrapped(core.gpr[13] + 4 * (x % 256)))
            } else if x / 128 % 2 == 0 {
                core.gpr.update(13, wrapped(core.gpr[13] + 4 * (x % 128)))
            } else {
                core.gpr.update(13, wrapped(core.gpr[13] - 4 * (x % 128)))
            },
            core.cpsr.raw,
        ),
{
    let s = fetched_for(core, at);
    lemma_address_format(s, x);
    lemma_transferred::<I, H>(
        core,
        at,
        x,
        (s.thumb_transfer(x)->0).0,
        MemoryAccess::Sequential,
    );
}

#[verifier::spinoff_prover]
proof fn lemma_address_format<I: MemoryInterface>(s: CoreState<I>, x: u32)
    requires
        x / 4096 == 10 || x / 256 == 176,
        s.pc % 2 == 0,
    ensures
        s.thumb_transfer(x) == Some(
            (if x / 2048 == 20 {
                s.with_gpr(x as int / 256 % 8, wrapped(s.pc - s.pc % 4 + 4 * (x % 256)))
            } else if x / 2048 == 21 {
                s.with_gpr(x as int / 256 % 8, wrapped(s.gpr[13] + 4 * (x % 256)))
            } else if x / 128 % 2 == 0 {
                s.with_gpr(13, wrapped(s.gpr[13] + 4 * (x % 128)))
            } else {
                s.with_gpr(13, wrapped(s.gpr[13] - 4 * (x % 128)))
            }).going(MemoryAccess::Sequential),
        ),
{
    lemma_route(x);
    lemma_thumb_operands(x);
    let k = (x % 256) as u32;
    lemma_code_address(s.pc, 4 * k);
    lemma_offset_address(s.gpr[13], (4 * k) as u32);
    lemma_offset_address(s.gpr[13], (4 * (x % 128)) as u32);
    assert(x / 4096 == 10 ==> x / 2048 == 20 + x / 2048 % 2);
    assert(x / 256 == 176 ==> x / 2048 == 22);
    lemma_address_route(
        s,
        x,
        x / 4096 == 10,
        x / 2048 % 2 == 1,
        (x / 256 % 8) as u32,
        k,
        x / 128 % 2 == 1,
        (x % 128) as u32,
    );
}

/// The program counter cut to a multiple of four, and an offset.
#[verifier::spinoff_prover]
proof fn lemma_code_address(pc: u32, k: int)
    requires
        pc % 2 == 0,
        0 <= k < 1024,
    ensures
        (pc.wrapping_sub(4) & 0xffff_fffd).wrapping_add(4).wrapping_add(k as u32) == wrapped(
            pc - pc % 4 + k,
        ),
{
    let back = pc.wrapping_sub(4);
    lemma_masks(back);
    assert(back % 2 == 0);
    assert(back % 4 == pc % 4);
    assert(2 * (back / 2 % 2) == back % 4);
}

} // verus!
