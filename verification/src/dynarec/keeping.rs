//! What compiled instructions leave alone.

use vstd::prelude::*;
use crate::bits::{flag_c, flag_v, negative};
use crate::cpu::{Arm7tdmiCore, CoreState};
use crate::dynarec::bus::after_calls;
use crate::dynarec::decode::listed;
use crate::dynarec::flags::lemma_flag_writes;
use crate::dynarec::ir::{BusCall, Callee, Cpu};
use crate::dynarec::sem::{
    LR, SP, load_at, loaded, operand_value, shift_carry, shift_result, slot, store_at, stored,
};
use crate::dynarec::thumb::{Body, body_item, exec_body, lemma_arith_keeps};
use crate::dynarec::unified::{instr_pc, item_step, opcodes_ahead, unified_body};
use crate::memory::MemoryInterface;

verus! {

/// Whether some calls are others with calls added that leave the program counter, the pipeline and
/// the next access alone.
pub open spec fn adds_quietly(calls: Seq<BusCall>, more: Seq<BusCall>) -> bool
    decreases more.len(),
{
    more == calls || (more.len() > calls.len() && quiet(more.last().to) && adds_quietly(
        calls,
        more.drop_last(),
    ))
}

/// Whether a callee leaves the program counter, the pipeline and the next access alone.
pub open spec fn quiet(to: Callee) -> bool {
    to != Callee::ThumbFetchN && to != Callee::AbortMidBlock && to != Callee::SetNextFetchNonseq
}

/// One more quiet call.
pub proof fn lemma_add_quietly(calls: Seq<BusCall>, more: Seq<BusCall>, call: BusCall)
    requires
        adds_quietly(calls, more),
        quiet(call.to),
    ensures
        adds_quietly(calls, more.push(call)),
        more.len() >= calls.len(),
{
    assert(more.push(call).drop_last() =~= more);
}

proof fn lemma_adds_quietly(a: Seq<BusCall>, b: Seq<BusCall>, c: Seq<BusCall>)
    requires
        adds_quietly(a, b),
        adds_quietly(b, c),
    ensures
        adds_quietly(a, c),
    decreases c.len(),
{
    lemma_quiet_len(a, b);
    if c != b {
        lemma_adds_quietly(a, b, c.drop_last());
    }
}

proof fn lemma_quiet_len(a: Seq<BusCall>, b: Seq<BusCall>)
    requires
        adds_quietly(a, b),
    ensures
        a.len() <= b.len(),
{
}

/// Quiet calls leave the program counter, the pipeline and the next access alone.
pub proof fn lemma_quiet_place<I: MemoryInterface>(
    start: CoreState<I>,
    a: Seq<BusCall>,
    b: Seq<BusCall>,
)
    requires
        adds_quietly(a, b),
    ensures
        ({
            let before = after_calls::<Arm7tdmiCore<I>>(start, a);
            let after = after_calls::<Arm7tdmiCore<I>>(start, b);
            &&& after.pc == before.pc
            &&& after.pipeline == before.pipeline
            &&& after.next_fetch_access == before.next_fetch_access
        }),
    decreases b.len(),
{
    if b != a {
        lemma_quiet_place(start, a, b.drop_last());
    }
}

/// Whether a state keeps the result, the branch target and all but the flags of another, and was
/// reached by quiet calls.
pub open spec fn keeps_rest(s: Cpu, t: Cpu) -> bool {
    &&& adds_quietly(s.calls, t.calls)
    &&& t.took == s.took
    &&& t.pc_out == s.pc_out
    &&& t.cpsr & 0x0fff_ffff == s.cpsr & 0x0fff_ffff
}

pub proof fn lemma_lists_keep(list: u8, base: u32, k: nat, s: Cpu)
    ensures
        keeps_rest(s, loaded(list, k, base, true, s)),
        keeps_rest(s, stored(list, k, base, s)),
    decreases k,
{
    if k > 0 {
        let j = (k - 1) as nat;
        lemma_lists_keep(list, base, j, s);
        let n = listed(list, j);
        let p = loaded(list, j, base, true, s);
        lemma_add_quietly(
            s.calls,
            p.calls,
            BusCall { to: load_at(n, true), a: slot(base, n), b: 0, c: 0 },
        );
        let q = stored(list, j, base, s);
        lemma_add_quietly(
            s.calls,
            q.calls,
            BusCall { to: store_at(n), a: slot(base, n), b: q.reg(j as usize), c: 0 },
        );
    }
}

/// An instruction that does not branch keeps the result, the branch target and all but the flags.
pub proof fn lemma_item_keeps(item: Body, pc: u32, s: Cpu)
    ensures
        keeps_rest(s, exec_body(item, pc, s)),
{
    reveal(exec_body);
    let r = exec_body(item, pc, s);
    assert(r.calls != s.calls && !(item is F14 || item is F15) ==> r.calls == s.calls.push(
        r.calls.last(),
    ) && quiet(r.calls.last().to));
    if !(item is F14 || item is F15) {
        if r.calls != s.calls {
            lemma_add_quietly(s.calls, s.calls, r.calls.last());
        }
    }
    match item {
        Body::F1(d) => {
            let x = s.reg(d.rs);
            let v = shift_result(d.kind, d.imm5, x);
            let c = shift_carry(d.kind, d.imm5, x, flag_c(s.cpsr));
            lemma_flag_writes(s.cpsr, negative(v), v == 0, c, flag_v(s.cpsr));
        },
        Body::F2(d) => {
            lemma_arith_keeps(s.cpsr, s.reg(d.rs), operand_value(d.operand, s));
        },
        Body::F3(d) => {
            lemma_arith_keeps(s.cpsr, s.reg(d.rd), d.imm8);
            lemma_flag_writes(
                s.cpsr,
                negative(d.imm8),
                d.imm8 == 0,
                flag_c(s.cpsr),
                flag_v(s.cpsr),
            );
        },
        Body::F4(d) => {
            let a = s.reg(d.rd);
            let b = s.reg(d.rs);
            let (c, v) = (flag_c(s.cpsr), flag_v(s.cpsr));
            lemma_arith_keeps(s.cpsr, a, b);
            lemma_flag_writes(s.cpsr, negative(a & b), a & b == 0, c, v);
            lemma_flag_writes(s.cpsr, negative(a ^ b), a ^ b == 0, c, v);
            lemma_flag_writes(s.cpsr, negative(a | b), a | b == 0, c, v);
            lemma_flag_writes(s.cpsr, negative(a & !b), a & !b == 0, c, v);
            lemma_flag_writes(s.cpsr, negative(!b), !b == 0, c, v);
        },
        Body::F5(d) => {
            lemma_arith_keeps(s.cpsr, s.reg(d.rd), s.reg(d.rs));
        },
        Body::F14(d) => {
            let sp = s.reg(SP);
            let base = sp.wrapping_sub((4 * d.total()) as u32);
            lemma_lists_keep(d.reg_list, sp, 8, s);
            lemma_lists_keep(d.reg_list, base, 8, s);
            let n = listed(d.reg_list, 8);
            let t = stored(d.reg_list, 8, base, s);
            lemma_add_quietly(
                s.calls,
                t.calls,
                BusCall { to: store_at(n), a: slot(base, n), b: t.reg(LR), c: 0 },
            );
            lemma_add_quietly(
                s.calls,
                loaded(d.reg_list, 8, sp, true, s).calls,
                BusCall { to: Callee::IdleCycle, a: 0, b: 0, c: 0 },
            );
        },
        Body::F15(d) => {
            let base = s.reg(d.rb) & 0xffff_fffc;
            lemma_lists_keep(d.rlist, base, 8, s);
            lemma_add_quietly(
                s.calls,
                loaded(d.rlist, 8, base, true, s).calls,
                BusCall { to: Callee::IdleCycle, a: 0, b: 0, c: 0 },
            );
        },
        _ => {},
    }
}

/// The body of a block keeps the result, the branch target and all but the flags from after the
/// fetches.
pub proof fn lemma_body_keeps(ops: Seq<u16>, pc: u32, n: nat, s: Cpu)
    requires
        forall|k: nat| k <= n ==> (#[trigger] unified_body(ops, pc, false, k, s)).exit is None,
    ensures
        keeps_rest(
            unified_body(ops, pc, false, 0, s).cpu,
            unified_body(ops, pc, false, n, s).cpu,
        ),
    decreases n,
{
    if n > 0 {
        let k = (n - 1) as nat;
        lemma_body_keeps(ops, pc, k, s);
        let t = unified_body(ops, pc, false, k, s).cpu;
        lemma_step_keeps(
            body_item(ops[k as int])->0,
            instr_pc(pc, k as int),
            opcodes_ahead(ops, k as int),
            pc,
            t,
        );
        lemma_adds_quietly(
            unified_body(ops, pc, false, 0, s).cpu.calls,
            t.calls,
            unified_body(ops, pc, false, n, s).cpu.calls,
        );
    }
}

proof fn lemma_step_keeps(item: Body, pc: u32, ahead: Option<(u16, u16)>, entry_pc: u32, s: Cpu)
    requires
        item_step(item, false, pc, ahead, entry_pc, s).exit is None,
    ensures
        keeps_rest(s, item_step(item, false, pc, ahead, entry_pc, s).cpu),
{
    reveal(item_step);
    lemma_item_keeps(item, pc, s);
    let a = exec_body(item, pc, s);
    let check = BusCall { to: Callee::ChainAbortCheck, a: 0, b: 0, c: 0 };
    let pay = BusCall { to: Callee::PayThumbFetchExtraNonseq, a: entry_pc, b: 0, c: 0 };
    lemma_add_quietly(s.calls, a.calls, check);
    lemma_add_quietly(s.calls, a.calls.push(check), pay);
    lemma_add_quietly(s.calls, a.calls, pay);
}

} // verus!
