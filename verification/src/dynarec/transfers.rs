//! Thumb instructions that do not branch do in compiled code what they do in the interpreter.

use vstd::prelude::*;
use crate::bits::{lemma_bits_range, signed_field, word};
use crate::cpu::{Arm7tdmiCore, CoreState};
use crate::dynarec::agreement::{
    core_behind, law_thumb_instruction_agrees, lemma_alu_is_quiet, lemma_core_behind,
};
use crate::dynarec::bus::last_reply;
use crate::dynarec::decode::{
    DecodedThumb14, DecodedThumb15, DecodedThumb6, DecodedThumb7, DecodedThumb8Ldsb, in_list,
    listed, thumb11, thumb12, thumb13, thumb14, thumb15, thumb6, thumb7, thumb8, thumb9,
};
use crate::dynarec::ir::{BusCall, Callee, Cpu};
use crate::dynarec::sem::{
    SP, accessed, exec11, exec12, exec13, exec14, exec15, exec6, exec7, exec8, exec9,
    literal_address, load_at, loaded, loaded_into, signed_byte, slot, store_at, stored,
};
use crate::dynarec::shapes::{
    lemma_shape_imm, lemma_shape_multiple, lemma_shape_offset, lemma_shape_pc,
};
use crate::dynarec::thumb::{Body, alu_item, body_item, exec_body};
use crate::interpreter::{Remaining, effect_of};
use crate::memory::{MemoryAccess, MemoryInterface, Request};

verus! {

/// Whether an interpreter's core and compiled code that started on another core have come to the
/// same registers, the same status word and the same bus.
pub open spec fn alike<I: MemoryInterface>(
    core: CoreState<I>,
    start: CoreState<I>,
    s: Cpu,
) -> bool {
    &&& s.bus == (|calls: Seq<BusCall>| last_reply::<Arm7tdmiCore<I>>(start, calls))
    &&& s.gpr.len() == 15
    &&& core.gpr == s.gpr
    &&& core.cpsr.raw == s.cpsr
    &&& core.bus == core_behind(start, s).bus
}

/// Whether byte loads of a bus give bytes.
pub open spec fn gives_bytes<I: MemoryInterface>() -> bool {
    forall|state: I::State, addr: u32, access: MemoryAccess| #[trigger]
        I::reply(state, Request::Load8(addr, access)) < 0x100
}

/// Whether an instruction is a push. A push stores upwards in compiled code and downwards in the
/// interpreter.
pub open spec fn pushes(item: Body) -> bool {
    item matches Body::F14(d) && d.push
}

/// Whether an instruction accesses words at aligned addresses only.
pub open spec fn level(item: Body, s: Cpu) -> bool {
    match item {
        Body::F7(d) => d.byte || s.reg(d.rb).wrapping_add(s.reg(d.ro)) % 4 == 0,
        Body::F9(d) => d.byte || s.reg(d.rs).wrapping_add(d.offset) % 4 == 0,
        Body::F11(d) => s.reg(SP).wrapping_add(d.offset) % 4 == 0,
        Body::F14(_) => s.reg(SP) % 4 == 0,
        _ => true,
    }
}

/// What alignment means for an address.
pub proof fn lemma_aligned(addr: u32)
    requires
        addr % 4 == 0,
    ensures
        addr & 3 == 0,
        addr & 0xffff_fffc == addr,
{
    assert(addr % 4 == 0 ==> addr & 3 == 0 && addr & 0xffff_fffc == addr) by (bit_vector);
}

/// A load of compiled code reads what the interpreter's load reads.
proof fn lemma_load<I: MemoryInterface>(
    core: CoreState<I>,
    start: CoreState<I>,
    s: Cpu,
    rd: usize,
    byte: bool,
    addr: u32,
)
    requires
        alike(core, start, s),
        rd < 8,
        byte || addr % 4 == 0,
    ensures
        ({
            let to = if byte {
                Callee::LoadWithIdle8
            } else {
                Callee::LoadWithIdle32
            };
            let got = if byte {
                core.byte_loaded(addr)
            } else {
                core.word_loaded(addr, MemoryAccess::NonSeq)
            };
            &&& alike(core.loaded_reg(rd as int, got), start, loaded_into(rd, to, addr, s))
            &&& s.called(to, addr, 0, 0).answer() == got.0
            &&& core.loaded_reg(rd as int, got).pc == core.pc
        }),
{
    if byte {
        lemma_core_behind(start, s, Callee::LoadWithIdle8, addr, 0, 0);
    } else {
        lemma_aligned(addr);
        lemma_core_behind(start, s, Callee::LoadWithIdle32, addr, 0, 0);
    }
}

/// A load or store of compiled code does what the interpreter's does.
proof fn lemma_access<I: MemoryInterface>(
    core: CoreState<I>,
    start: CoreState<I>,
    s: Cpu,
    load: bool,
    byte: bool,
    rd: usize,
    addr: u32,
)
    requires
        alike(core, start, s),
        gives_bytes::<I>(),
        rd < 8,
        byte || addr % 4 == 0,
    ensures
        alike(
            core.thumb_access(load, byte, rd as int, addr),
            start,
            accessed(load, byte, rd, addr, s),
        ),
{
    let v = s.reg(rd);
    if load {
        lemma_load(core, start, s, rd, byte, addr);
        if byte {
            let k = core.byte_loaded(addr).0;
            assert(I::reply(core.bus, Request::Load8(addr, MemoryAccess::NonSeq)) < 0x100);
            assert(k < 0x100 ==> k & 0xff == k) by (bit_vector);
        }
    } else if byte {
        assert((v & 0xff) % 0x100 == v % 0x100) by (bit_vector);
        lemma_core_behind(start, s, Callee::Store8, addr, v & 0xff, 0);
    } else {
        lemma_aligned(addr);
        lemma_core_behind(start, s, Callee::Store32, addr, v, 0);
    }
}

/// A byte with its sign, in both ways to say it.
proof fn lemma_signed_byte(v: u32)
    requires
        v < 0x100,
    ensures
        word(signed_field(v, 0x80)) == signed_byte(v),
{
    assert(v < 0x100 ==> v & 0xff == v) by (bit_vector);
    assert(v < 0x100 ==> v | 0xffff_ff00 == v + 0xffff_ff00) by (bit_vector);
}

/// A multiple load of compiled code does what the interpreter's does.
proof fn lemma_ldm<I: MemoryInterface>(
    core: CoreState<I>,
    start: CoreState<I>,
    s: Cpu,
    list: u8,
    base: u32,
    k: nat,
)
    requires
        alike(core, start, s),
        k <= 8,
    ensures
        alike(core.ldm(list, base, k), start, loaded(list, k, base, true, s)),
    decreases k,
{
    if k > 0 {
        let j = (k - 1) as nat;
        lemma_ldm(core, start, s, list, base, j);
        if in_list(list, j as usize) {
            let p = loaded(list, j, base, true, s);
            let n = listed(list, j);
            lemma_core_behind(start, p, load_at(n, true), slot(base, n), 0, 0);
        }
    }
}

/// A multiple store of compiled code does what the interpreter's does, where the base register is
/// not stored.
proof fn lemma_stm<I: MemoryInterface>(
    core: CoreState<I>,
    start: CoreState<I>,
    s: Cpu,
    list: u8,
    rb: usize,
    base: u32,
    k: nat,
)
    requires
        alike(core, start, s),
        k <= 8,
        !in_list(list, rb),
    ensures
        alike(core.stm(list, rb as int, base, k), start, stored(list, k, base, s)),
        stored(list, k, base, s).gpr == s.gpr,
    decreases k,
{
    if k > 0 {
        let j = (k - 1) as nat;
        lemma_stm(core, start, s, list, rb, base, j);
        if in_list(list, j as usize) {
            let p = stored(list, j, base, s);
            let n = listed(list, j);
            lemma_core_behind(start, p, store_at(n), slot(base, n), p.reg(j as usize), 0);
        }
    }
}

/// The address of a slot is aligned and moves on by four.
pub proof fn lemma_slot(sp: u32, n: nat)
    requires
        sp % 4 == 0,
        n <= 16,
    ensures
        slot(sp, n) % 4 == 0,
        slot(sp, n).wrapping_add(4) == slot(sp, n + 1),
{
}

/// A pop of compiled code does what the interpreter's does, but for the stack pointer, which the
/// interpreter moves along.
#[verifier::spinoff_prover]
pub proof fn lemma_pop<I: MemoryInterface>(
    core: CoreState<I>,
    start: CoreState<I>,
    s: Cpu,
    list: u8,
    k: nat,
)
    requires
        alike(core, start, s),
        k <= 8,
        s.reg(SP) % 4 == 0,
    ensures
        ({
            let c = core.popped(list, k);
            let t = loaded(list, k, s.reg(SP), true, s);
            &&& alike(c.with_gpr(13, s.reg(SP)), start, t)
            &&& t.reg(SP) == s.reg(SP)
            &&& c.gpr[13] == slot(s.reg(SP), listed(list, k))
            &&& c.gpr.len() == 15
            &&& listed(list, k) <= k
        }),
    decreases k,
{
    let sp = s.reg(SP);
    if k == 0 {
        assert(core.gpr.update(13, sp) =~= core.gpr);
        assert(slot(sp, 0) == sp);
    } else {
        let j = (k - 1) as nat;
        lemma_pop(core, start, s, list, j);
        if in_list(list, j as usize) {
            let p = loaded(list, j, sp, true, s);
            let c = core.popped(list, j);
            let n = listed(list, j);
            lemma_slot(sp, n);
            lemma_aligned(slot(sp, n));
            lemma_core_behind(start, p, load_at(n, true), slot(sp, n), 0, 0);
            let c2 = core.popped(list, k);
            let t2 = loaded(list, k, sp, true, s);
            assert(c2.with_gpr(13, sp).gpr =~= t2.gpr);
        }
    }
}

/// The literal loads agree.
proof fn lemma_literal<I: MemoryInterface>(
    core: CoreState<I>,
    start: CoreState<I>,
    s: Cpu,
    op: u16,
    pc: u32,
    d: DecodedThumb6,
)
    requires
        alike(core, start, s),
        core.pc == pc.wrapping_add(4),
        thumb6(op) == Some(d),
        d.rd < 8,
        d.imm8 < 256,
    ensures
        alike(effect_of(core, op).0, start, exec6(d, pc, s)),
        effect_of(core, op).1 is AdvancePC,
{
    lemma_shape_pc(core, op);
    let at = pc.wrapping_add(4);
    assert((at & 0xffff_fffc) % 4 == 0) by (bit_vector);
    assert(literal_address(pc, d.imm8) % 4 == 0);
    lemma_load(core, start, s, d.rd, false, literal_address(pc, d.imm8));
}

/// The address computations and the moves of the stack pointer agree.
proof fn lemma_addresses<I: MemoryInterface>(
    core: CoreState<I>,
    start: CoreState<I>,
    s: Cpu,
    op: u16,
    pc: u32,
)
    requires
        alike(core, start, s),
        core.pc == pc.wrapping_add(4),
    ensures
        thumb12(op) matches Some(d) ==> d.rd < 8 ==> alike(
            effect_of(core, op).0,
            start,
            exec12(d, pc, s),
        ) && effect_of(core, op).1 is AdvancePC,
        thumb13(op) matches Some(d) ==> alike(effect_of(core, op).0, start, exec13(d, s))
            && effect_of(core, op).1 is AdvancePC,
{
    lemma_shape_pc(core, op);
    if thumb12(op) is Some {
        assert(core_behind(start, exec12(thumb12(op)->0, pc, s)) == core_behind(start, s));
    }
    if thumb13(op) is Some {
        assert(core_behind(start, exec13(thumb13(op)->0, s)) == core_behind(start, s));
    }
}

/// The loads and stores with a register offset agree.
proof fn lemma_offset_register<I: MemoryInterface>(
    core: CoreState<I>,
    start: CoreState<I>,
    s: Cpu,
    op: u16,
    d: DecodedThumb7,
)
    requires
        alike(core, start, s),
        gives_bytes::<I>(),
        thumb7(op) == Some(d),
        d.ro < 8 && d.rb < 8 && d.rd < 8,
        level(Body::F7(d), s),
    ensures
        alike(effect_of(core, op).0, start, exec7(d, s)),
        effect_of(core, op).1 is AdvancePC,
{
    lemma_shape_offset(core, op);
    let addr = s.reg(d.rb).wrapping_add(s.reg(d.ro));
    let v = s.reg(d.rd);
    if d.load {
        lemma_load(core, start, s, d.rd, d.byte, addr);
    } else if d.byte {
        lemma_core_behind(start, s, Callee::Store8, addr, v, 0);
    } else {
        lemma_aligned(addr);
        lemma_core_behind(start, s, Callee::Store32, addr, v, 0);
    }
}

/// The signed byte loads agree.
proof fn lemma_signed_load<I: MemoryInterface>(
    core: CoreState<I>,
    start: CoreState<I>,
    s: Cpu,
    op: u16,
    d: DecodedThumb8Ldsb,
)
    requires
        alike(core, start, s),
        gives_bytes::<I>(),
        thumb8(op) == Some(d),
        d.ro < 8 && d.rb < 8 && d.rd < 8,
    ensures
        alike(effect_of(core, op).0, start, exec8(d, s)),
        effect_of(core, op).1 is AdvancePC,
{
    lemma_shape_offset(core, op);
    let addr = s.reg(d.rb).wrapping_add(s.reg(d.ro));
    lemma_load(core, start, s, d.rd, true, addr);
    assert(I::reply(core.bus, Request::Load8(addr, MemoryAccess::NonSeq)) < 0x100);
    lemma_signed_byte(core.byte_loaded(addr).0);
}

/// The loads and stores with an immediate offset agree.
proof fn lemma_offset_immediate<I: MemoryInterface>(
    core: CoreState<I>,
    start: CoreState<I>,
    s: Cpu,
    op: u16,
)
    requires
        alike(core, start, s),
        gives_bytes::<I>(),
    ensures
        thumb9(op) matches Some(d) ==> d.rs < 8 && d.rd < 8 && level(Body::F9(d), s) ==> alike(
            effect_of(core, op).0,
            start,
            exec9(d, s),
        ) && effect_of(core, op).1 is AdvancePC,
        thumb11(op) matches Some(d) ==> d.rd < 8 && level(Body::F11(d), s) ==> alike(
            effect_of(core, op).0,
            start,
            exec11(d, s),
        ) && effect_of(core, op).1 is AdvancePC,
{
    lemma_shape_imm(core, op);
    if thumb9(op) is Some {
        let d = thumb9(op)->0;
        let addr = s.reg(d.rs).wrapping_add(d.offset);
        if d.rs < 8 && d.rd < 8 && (d.byte || addr % 4 == 0) {
            lemma_access(core, start, s, d.load, d.byte, d.rd, addr);
        }
    }
    if thumb11(op) is Some {
        let d = thumb11(op)->0;
        let addr = s.reg(SP).wrapping_add(d.offset);
        if d.rd < 8 && addr % 4 == 0 {
            lemma_access(core, start, s, d.load, false, d.rd, addr);
        }
    }
}

/// The pops agree.
#[verifier::spinoff_prover]
proof fn lemma_popping<I: MemoryInterface>(
    core: CoreState<I>,
    start: CoreState<I>,
    s: Cpu,
    op: u16,
    d: DecodedThumb14,
)
    requires
        alike(core, start, s),
        thumb14(op) == Some(d),
        !d.push,
        s.reg(SP) % 4 == 0,
    ensures
        alike(effect_of(core, op).0, start, exec14(d, s)),
        effect_of(core, op).1 is AdvancePC,
{
    lemma_shape_multiple(core, op);
    let x = op as u32;
    lemma_bits_range(x, 8, 1);
    let sp = s.reg(SP);
    lemma_pop(core, start, s, d.reg_list, 8);
    let t = loaded(d.reg_list, 8, sp, true, s);
    let end = sp.wrapping_add((4 * d.total()) as u32);
    let u = t.set(SP, end);
    assert(core_behind(start, u) == core_behind(start, t));
    lemma_core_behind(start, u, Callee::IdleCycle, 0, 0, 0);
    let c = core.popped(d.reg_list, 8);
    assert(c.gpr =~= u.gpr) by {
        assert(c.gpr.update(13, sp) == t.gpr);
        assert(c.gpr =~= c.gpr.update(13, sp).update(13, end));
    }
}

/// The multiple loads and stores agree.
#[verifier::spinoff_prover]
proof fn lemma_multiple<I: MemoryInterface>(
    core: CoreState<I>,
    start: CoreState<I>,
    s: Cpu,
    op: u16,
    d: DecodedThumb15,
)
    requires
        alike(core, start, s),
        thumb15(op) == Some(d),
        d.rb < 8,
    ensures
        alike(effect_of(core, op).0, start, exec15(d, s)),
        effect_of(core, op).1 is AdvancePC,
{
    lemma_shape_multiple(core, op);
    let base = s.reg(d.rb) & 0xffff_fffc;
    if d.load {
        lemma_ldm(core, start, s, d.rlist, base, 8);
        let t = loaded(d.rlist, 8, base, true, s);
        lemma_core_behind(start, t, Callee::IdleCycle, 0, 0, 0);
    } else {
        lemma_stm(core, start, s, d.rlist, d.rb, base, 8);
    }
}

/// A decoded instruction names existing registers.
proof fn lemma_item_ok(op: u16)
    requires
        body_item(op) is Some,
    ensures
        body_item(op)->0.ok(),
{
    reveal(body_item);
    let x = op as u32;
    lemma_bits_range(x, 0, 3);
    lemma_bits_range(x, 3, 3);
    lemma_bits_range(x, 6, 3);
    lemma_bits_range(x, 8, 3);
    lemma_bits_range(x, 6, 5);
    lemma_bits_range(x, 0, 8);
    lemma_bits_range(x, 6, 1);
    lemma_bits_range(x, 7, 1);
}

/// The decoded form of an instruction that does not branch.
pub proof fn lemma_decoded(op: u16)
    requires
        body_item(op) is Some,
    ensures
        match body_item(op)->0 {
            Body::F6(d) => thumb6(op) == Some(d),
            Body::F7(d) => thumb7(op) == Some(d),
            Body::F8Ldsb(d) => thumb8(op) == Some(d),
            Body::F9(d) => thumb9(op) == Some(d),
            Body::F10(d) => false,
            Body::F11(d) => thumb11(op) == Some(d),
            Body::F12(d) => thumb12(op) == Some(d),
            Body::F13(d) => thumb13(op) == Some(d),
            Body::F14(d) => thumb14(op) == Some(d),
            Body::F15(d) => thumb15(op) == Some(d),
            item => alu_item(op) == Some(item),
        },
{
    reveal(body_item);
}

/// An instruction that does not branch has the same effect on registers, flags and the bus in
/// compiled code and in the interpreter, if its words are aligned and it is not a push.
#[verifier::spinoff_prover]
pub proof fn law_thumb_body_agrees<I: MemoryInterface>(
    core: CoreState<I>,
    start: CoreState<I>,
    s: Cpu,
    op: u16,
    pc: u32,
)
    requires
        alike(core, start, s),
        gives_bytes::<I>(),
        core.pc == pc.wrapping_add(4),
        body_item(op) is Some,
        level(body_item(op)->0, s),
        !pushes(body_item(op)->0),
    ensures
        alike(effect_of(core, op).0, start, exec_body(body_item(op)->0, pc, s)),
        effect_of(core, op).1 is AdvancePC,
{
    reveal(exec_body);
    lemma_decoded(op);
    lemma_item_ok(op);
    match body_item(op)->0 {
        Body::F6(d) => lemma_literal(core, start, s, op, pc, d),
        Body::F7(d) => lemma_offset_register(core, start, s, op, d),
        Body::F8Ldsb(d) => lemma_signed_load(core, start, s, op, d),
        Body::F9(_) | Body::F11(_) => lemma_offset_immediate(core, start, s, op),
        Body::F12(_) | Body::F13(_) => lemma_addresses(core, start, s, op, pc),
        Body::F14(d) => lemma_popping(core, start, s, op, d),
        Body::F15(d) => lemma_multiple(core, start, s, op, d),
        item => lemma_alu(core, start, s, op, pc, item),
    }
}

/// Data processing agrees.
#[verifier::spinoff_prover]
proof fn lemma_alu<I: MemoryInterface>(
    core: CoreState<I>,
    start: CoreState<I>,
    s: Cpu,
    op: u16,
    pc: u32,
    item: Body,
)
    requires
        alike(core, start, s),
        alu_item(op) == Some(item),
        item.ok(),
    ensures
        alike(effect_of(core, op).0, start, exec_body(item, pc, s)),
        effect_of(core, op).1 is AdvancePC,
{
    law_thumb_instruction_agrees(core, op, pc, s);
    lemma_alu_is_quiet(core, op);
    assert(effect_of(core, op) == core.thumb_effect::<Remaining>(op as u32)) by {
        reveal(effect_of);
    }
    lemma_alu_calls(item, pc, s);
}

/// Data processing makes no calls.
proof fn lemma_alu_calls(item: Body, pc: u32, s: Cpu)
    requires
        item is F1 || item is F2 || item is F3 || item is F4 || item is F5,
        item.ok(),
        s.gpr.len() == 15,
    ensures
        exec_body(item, pc, s).calls == s.calls,
        exec_body(item, pc, s).bus == s.bus,
        exec_body(item, pc, s).gpr.len() == s.gpr.len(),
{
    reveal(exec_body);
}

} // verus!
