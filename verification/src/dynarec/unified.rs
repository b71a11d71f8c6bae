//! Compilation of whole Thumb blocks, with fetch accounting, mid-block aborts and block chaining.

use vstd::prelude::*;
use crate::bits::word;
use crate::cond::ArmCond;
use crate::dynarec::DynarecCompiler;
use crate::dynarec::block::{
    ABORTED, BlockKind, CompiledBlock, Exit, Node, Outcome, Program, chained, run_nodes,
};
use crate::dynarec::decode::{
    DecodedThumb14, DecodedThumbBx, DecodedThumbPcBranch, thumb_bx, thumb_pop_pc,
};
use crate::dynarec::emit::{
    emit_bx, emit_call0, emit_call1, emit_call2, emit_cond_check, emit_jump, emit_pop_pc,
};
use crate::dynarec::flags::{FLAGS_NONE, covered, lemma_agree, same_but};
use crate::dynarec::ir::{Callee, Code, Cpu, run};
use crate::dynarec::sem::{exec_bx, exec_pop_pc, thumb_target};
use crate::dynarec::thumb::{
    Body, body_item, body_mask, branches, classify_body, decode_pc_branch, emit_body, exec_body,
    exec_body_lean, flag_write_mask, lemma_body_step, pc_branch, pc_branch_target, stale_after,
};

verus! {

/// The last instruction of a block.
#[derive(Clone, Copy, PartialEq, Eq, Structural, Debug)]
pub enum Tail {
    Bx(DecodedThumbBx),
    PcBranch(DecodedThumbPcBranch),
    PopPc(DecodedThumb14),
    Body(Body),
}

/// The last instruction that an opcode stands for; branches come first.
pub open spec fn tail_item(op: u16) -> Option<Tail> {
    if thumb_bx(op) is Some {
        Some(Tail::Bx(thumb_bx(op)->0))
    } else if pc_branch(op) is Some {
        Some(Tail::PcBranch(pc_branch(op)->0))
    } else if thumb_pop_pc(op) is Some {
        Some(Tail::PopPc(thumb_pop_pc(op)->0))
    } else if body_item(op) is Some {
        Some(Tail::Body(body_item(op)->0))
    } else {
        None
    }
}

/// Whether an opcode ends a block.
pub open spec fn terminates(op: u16) -> bool {
    branches(op) || thumb_pop_pc(op) is Some
}

impl Tail {
    pub open spec fn ok(self) -> bool {
        match self {
            Tail::Bx(d) => d.rs < 15,
            Tail::PcBranch(d) => -1024 <= d.offset_signed < 1024 && d.cond != ArmCond::Invalid,
            Tail::PopPc(_) => true,
            Tail::Body(item) => item.ok(),
        }
    }

    /// The flags that the tail overwrites without reading any.
    pub open spec fn covers(self) -> u8 {
        match self {
            Tail::Body(item) => body_mask(item),
            _ => FLAGS_NONE,
        }
    }
}

/// Decodes the last instruction of a block.
fn classify_tail(op: u16) -> (r: Option<Tail>)
    ensures
        r == tail_item(op),
        r matches Some(t) ==> t.ok(),
{
    if let Some(d) = DynarecCompiler::decode_thumb_bx(op) {
        Some(Tail::Bx(d))
    } else if let Some(d) = decode_pc_branch(op) {
        Some(Tail::PcBranch(d))
    } else if let Some(d) = DynarecCompiler::decode_thumb_pop_pc(op) {
        Some(Tail::PopPc(d))
    } else if let Some(item) = classify_body(op) {
        Some(Tail::Body(item))
    } else {
        None
    }
}

/// Whether the interpreter makes the fetch after this instruction non-sequential.
pub open spec fn nonseq_advance(item: Body) -> bool {
    match item {
        Body::F6(_) => true,
        Body::F7(d) => !d.load,
        Body::F8Ldsb(_) => true,
        Body::F9(d) => !d.load,
        Body::F10(d) => !d.load,
        Body::F11(d) => !d.load,
        Body::F14(_) => true,
        Body::F15(_) => true,
        _ => false,
    }
}

/// Whether the interpreter makes the fetch after this instruction non-sequential.
fn body_item_is_nonseq_advance(item: &Body) -> (r: bool)
    ensures
        r == nonseq_advance(*item),
{
    match item {
        Body::F6(_) => true,
        Body::F7(d) => !d.load,
        Body::F8Ldsb(_) => true,
        Body::F9(d) => !d.load,
        Body::F10(d) => !d.load,
        Body::F11(d) => !d.load,
        Body::F14(_) => true,
        Body::F15(_) => true,
        _ => false,
    }
}

/// Whether a block can be compiled: supported instructions, with a terminator at most at the end.
pub open spec fn unified_ok(ops: Seq<u16>) -> bool {
    &&& ops.len() > 0
    &&& forall|i: int|
        0 <= i < ops.len() - 1 ==> !terminates(ops[i]) && (#[trigger] body_item(ops[i])) is Some
    &&& tail_item(ops.last()) is Some
}

/// Whether the flags of body instruction `k` are overwritten, unread, by what follows it, and the
/// block cannot be left in between.
pub open spec fn unified_dead(ops: Seq<u16>, k: int) -> bool {
    let cur = body_mask(body_item(ops[k])->0);
    let next = if k + 1 < ops.len() - 1 {
        body_mask(body_item(ops[k + 1])->0)
    } else {
        tail_item(ops.last())->0.covers()
    };
    cur != FLAGS_NONE && cur <= next && opcodes_ahead(ops, k) is None
}

/// The address of instruction `k` of a block that starts at `entry_pc`.
pub open spec fn instr_pc(entry_pc: u32, k: int) -> u32 {
    word(entry_pc + 2 * k)
}

/// The chance to leave a block after the instruction at `pc`: the pipeline and the next access are
/// restored to what the interpreter would have there, and the block ends as aborted.
pub open spec fn abort_point(pc: u32, pipe0: u16, pipe1: u16, nonseq: bool, s: Cpu) -> Outcome {
    let t = s.called(Callee::ChainAbortCheck, 0, 0, 0);
    if t.answer() != 0 {
        Outcome {
            cpu: restored(
                pc.wrapping_add(2).wrapping_add(4),
                pipe0 as u32,
                pipe1 as u32,
                nonseq,
                t,
            ),
            exit: Some(Exit::Return(ABORTED)),
        }
    } else {
        Outcome { cpu: t, exit: None }
    }
}

/// A state after the calls that restore the pipeline and the next access.
pub open spec fn restored(pc: u32, pipe0: u32, pipe1: u32, nonseq: bool, s: Cpu) -> Cpu {
    let t = s.called(Callee::AbortMidBlock, pc, pipe0, pipe1);
    if nonseq {
        t.called(Callee::SetNextFetchNonseq, 0, 0, 0)
    } else {
        t
    }
}

/// A body instruction at `pc` with the bookkeeping around it: where `ahead` holds the two opcodes
/// that follow, the chance to leave the block, and then the price of a non-sequential fetch.
#[verifier::opaque]
pub open spec fn item_step(
    item: Body,
    skip: bool,
    pc: u32,
    ahead: Option<(u16, u16)>,
    entry_pc: u32,
    s: Cpu,
) -> Outcome {
    let a = exec_body_lean(item, skip, pc, s);
    let o = match ahead {
        Some(pipe) => abort_point(pc, pipe.0, pipe.1, nonseq_advance(item), a),
        None => Outcome { cpu: a, exit: None },
    };
    if o.exit is None && nonseq_advance(item) {
        Outcome {
            cpu: o.cpu.called(Callee::PayThumbFetchExtraNonseq, entry_pc, 0, 0),
            exit: None,
        }
    } else {
        o
    }
}

/// The two opcodes after instruction `k`, at the places where a block may be left: after every
/// other instruction, as long as both opcodes belong to the block.
pub open spec fn opcodes_ahead(ops: Seq<u16>, k: int) -> Option<(u16, u16)> {
    if k % 2 == 0 && k + 2 < ops.len() {
        Some((ops[k + 1], ops[k + 2]))
    } else {
        None
    }
}

/// Body instruction `k`. `lean` says whether a dead flag write is left out.
pub open spec fn unified_step(ops: Seq<u16>, entry_pc: u32, lean: bool, k: int, s: Cpu) -> Outcome {
    item_step(
        body_item(ops[k])->0,
        lean && unified_dead(ops, k),
        instr_pc(entry_pc, k),
        opcodes_ahead(ops, k),
        entry_pc,
        s,
    )
}

/// The fetch accounting at the start and the first `n` body instructions.
pub open spec fn unified_body(ops: Seq<u16>, entry_pc: u32, lean: bool, n: nat, s: Cpu) -> Outcome
    decreases n,
{
    if n == 0 {
        Outcome {
            cpu: s.called(
                Callee::ThumbFetchN,
                entry_pc.wrapping_add(4),
                word(ops.len() as int),
                0,
            ),
            exit: None,
        }
    } else {
        let o = unified_body(ops, entry_pc, lean, (n - 1) as nat, s);
        if o.exit is Some {
            o
        } else {
            unified_step(ops, entry_pc, lean, n - 1, o.cpu)
        }
    }
}

/// The last instruction, at `pc`. A block that ends without a branch instruction goes on in its
/// linked successor; a branch that is not taken does not.
pub open spec fn unified_tail(
    tail: Tail,
    pc: u32,
    slot: Option<u64>,
    linked: bool,
    s: Cpu,
) -> Outcome {
    match tail {
        Tail::Bx(d) => Outcome { cpu: exec_bx(d, s), exit: None },
        Tail::PopPc(d) => Outcome { cpu: exec_pop_pc(d.reg_list, s), exit: None },
        Tail::PcBranch(d) => if d.cond.passes(s.cpsr) {
            Outcome { cpu: s.branched(thumb_target(d, pc)), exit: None }
        } else {
            Outcome { cpu: s, exit: None }
        },
        Tail::Body(item) => {
            let t = exec_body(item, pc, s);
            fall_through(
                slot,
                linked,
                if nonseq_advance(item) {
                    t.called(Callee::SetNextFetchNonseq, 0, 0, 0)
                } else {
                    t
                },
            )
        },
    }
}

/// Falling out of a block, through its chain slot where it has one.
pub open spec fn fall_through(slot: Option<u64>, linked: bool, s: Cpu) -> Outcome {
    match slot {
        Some(k) => chained(k, linked, s),
        None => Outcome { cpu: s, exit: None },
    }
}

/// What a whole Thumb block does.
pub open spec fn unified(
    ops: Seq<u16>,
    entry_pc: u32,
    lean: bool,
    slot: Option<u64>,
    linked: bool,
    s: Cpu,
) -> Outcome {
    let n = (ops.len() - 1) as nat;
    let o = unified_body(ops, entry_pc, lean, n, s);
    if o.exit is Some {
        o
    } else {
        unified_tail(
            tail_item(ops.last())->0,
            instr_pc(entry_pc, n as int),
            slot,
            linked,
            o.cpu,
        )
    }
}

/// Decodes the body and the tail of a block; `None` if it cannot be compiled.
fn decode_unified(opcodes: &[u16]) -> (r: Option<(Vec<Body>, Tail)>)
    ensures
        r is Some == unified_ok(opcodes@),
        r matches Some(bt) ==> {
            &&& bt.0@.len() == opcodes@.len() - 1
            &&& forall|i: int|
                0 <= i < bt.0@.len() ==> (#[trigger] body_item(opcodes@[i])) == Some(bt.0@[i])
            &&& forall|i: int| 0 <= i < bt.0@.len() ==> (#[trigger] bt.0@[i]).ok()
            &&& tail_item(opcodes@.last()) == Some(bt.1)
            &&& bt.1.ok()
        },
{
    let n: usize = opcodes.len();
    if n == 0 {
        return None;
    }
    let mut body: Vec<Body> = Vec::new();
    let mut k: usize = 0;
    while k < n - 1
        invariant
            k <= n - 1,
            n == opcodes@.len(),
            n > 0,
            body@.len() == k,
            forall|i: int|
                0 <= i < k ==> !terminates(opcodes@[i]) && (#[trigger] body_item(opcodes@[i]))
                    == Some(body@[i]),
            forall|i: int| 0 <= i < k ==> (#[trigger] body@[i]).ok(),
        decreases n - k,
    {
        let op: u16 = opcodes[k];
        proof {
            assert(body_item(opcodes@[k as int]) == body_item(op));
        }
        if DynarecCompiler::decode_thumb_bx(op).is_some() || decode_pc_branch(op).is_some()
            || DynarecCompiler::decode_thumb_pop_pc(op).is_some() {
            return None;
        }
        match classify_body(op) {
            Some(item) => {
                body.push(item);
            },
            None => {
                return None;
            },
        }
        k = k + 1;
    }
    match classify_tail(opcodes[n - 1]) {
        Some(tail) => Some((body, tail)),
        None => None,
    }
}

/// Whether the flags of body instruction `k` are overwritten, unread, by what follows it, and the
/// block cannot be left in between.
fn is_dead(opcodes: &[u16], body: &Vec<Body>, tail: &Tail, k: usize) -> (r: bool)
    requires
        k < body@.len(),
        body@.len() == opcodes@.len() - 1,
        forall|i: int|
            0 <= i < body@.len() ==> (#[trigger] body_item(opcodes@[i])) == Some(body@[i]),
        tail_item(opcodes@.last()) == Some(*tail),
    ensures
        r == unified_dead(opcodes@, k as int),
{
    let cur: u8 = flag_write_mask(&body[k]);
    let next: u8 = if body.len() - k > 1 {
        flag_write_mask(&body[k + 1])
    } else {
        match tail {
            Tail::Body(b) => flag_write_mask(b),
            _ => FLAGS_NONE,
        }
    };
    proof {
        assert(body_item(opcodes@[k as int]) == Some(body@[k as int]));
        if k + 1 < body@.len() {
            assert(body_item(opcodes@[k + 1]) == Some(body@[k + 1]));
        }
    }
    cur != FLAGS_NONE && covered(cur, next) && !(k % 2 == 0 && body.len() - k >= 2)
}

/// Lowers the calls that restore the pipeline and the next access.
fn emit_restore(pc: u32, pipe0: u32, pipe1: u32, nonseq: bool) -> (code: Code)
    ensures
        code.wf(),
        forall|s: Cpu| (#[trigger] run(code@, s)).cpu == restored(pc, pipe0, pipe1, nonseq, s),
{
    let mut code = Code::new();
    let x: usize = code.konst(pc);
    let y: usize = code.konst(pipe0);
    let z: usize = code.konst(pipe1);
    code.call3(Callee::AbortMidBlock, x, y, z);
    if nonseq {
        code.call0(Callee::SetNextFetchNonseq);
    }
    code
}

/// Appends the nodes of a body instruction.
fn push_item(
    p: &mut Program,
    item: Body,
    skip: bool,
    pc: u32,
    ahead: Option<(u16, u16)>,
    entry_pc: u32,
)
    requires
        old(p).wf(),
        item.ok(),
    ensures
        final(p).wf(),
        forall|linked: bool, s: Cpu| #[trigger]
            run_nodes(final(p)@, linked, s) == {
                let o = run_nodes(old(p)@, linked, s);
                if o.exit is Some {
                    o
                } else {
                    item_step(item, skip, pc, ahead, entry_pc, o.cpu)
                }
            },
{
    reveal(item_step);
    p.push(Node::Do(emit_body(item, skip, pc)));
    if let Some((pipe0, pipe1)) = ahead {
        let nonseq: bool = body_item_is_nonseq_advance(&item);
        let code = emit_restore(
            pc.wrapping_add(2).wrapping_add(4),
            pipe0 as u32,
            pipe1 as u32,
            nonseq,
        );
        p.push(Node::Abort(code));
    }
    if body_item_is_nonseq_advance(&item) {
        p.push(Node::Do(emit_call1(Callee::PayThumbFetchExtraNonseq, entry_pc)));
    }
}

impl DynarecCompiler {
    /// Compiles a Thumb block of any supported shapes. The block pays for its fetches, may be left
    /// after every other instruction, and returns 0 if it fell through, 1 with the target in
    /// `pc_out` if it branched, and 2 if it was left in the middle. `entry_pc` is the address of
    /// the first instruction; `chain_slot` is the address of the slot that may link a successor,
    /// which counts only for a block without a branch at its end. Needs a bus.
    pub fn try_compile_thumb_mem_block_with_branch(
        &mut self,
        opcodes: &[u16],
        entry_pc: u32,
        chain_slot: Option<u64>,
    ) -> (r: Option<CompiledBlock>)
        requires
            old(self).next_id < u64::MAX,
        ensures
            r is Some == (old(self).bus && unified_ok(opcodes@)),
            r is None ==> *final(self) == *old(self),
            r matches Some(b) ==> {
                &&& final(self).numbered(*old(self), b, BlockKind::ThumbUnified)
                &&& b.touches_cpsr
                &&& forall|linked: bool, s: Cpu| #[trigger]
                    b.outcome(linked, s) == unified(
                        opcodes@,
                        entry_pc,
                        true,
                        chain_slot,
                        linked,
                        s,
                    )
            },
    {
        if !self.bus {
            return None;
        }
        let (body, tail): (Vec<Body>, Tail) = match decode_unified(opcodes) {
            Some(bt) => bt,
            None => return None,
        };
        let n: usize = body.len();
        let mut count: u32 = 1;
        let mut k: usize = 0;
        while k < n
            invariant
                k <= n,
                count == word(k + 1),
            decreases n - k,
        {
            count = count.wrapping_add(1);
            k = k + 1;
        }
        let mut p = Program::new();
        p.push(Node::Do(emit_call2(Callee::ThumbFetchN, entry_pc.wrapping_add(4), count)));
        let mut pc: u32 = entry_pc;
        proof {
            assert(word(entry_pc + 2 * 0) == entry_pc);
        }
        let mut k: usize = 0;
        while k < n
            invariant
                k <= n,
                n == opcodes@.len() - 1,
                n == body@.len(),
                p.wf(),
                pc == instr_pc(entry_pc, k as int),
                forall|i: int|
                    0 <= i < n ==> (#[trigger] body_item(opcodes@[i])) == Some(body@[i]),
                forall|i: int| 0 <= i < n ==> (#[trigger] body@[i]).ok(),
                tail_item(opcodes@.last()) == Some(tail),
                forall|linked: bool, s: Cpu| #[trigger]
                    run_nodes(p@, linked, s) == unified_body(opcodes@, entry_pc, true, k as nat, s),
            decreases n - k,
        {
            let item: Body = body[k];
            let skip: bool = is_dead(opcodes, &body, &tail, k);
            proof {
                assert(body_item(opcodes@[k as int]) == Some(item));
                assert(body@[k as int].ok());
            }
            let ahead: Option<(u16, u16)> = if k % 2 == 0 && n - k >= 2 {
                Some((opcodes[k + 1], opcodes[k + 2]))
            } else {
                None
            };
            push_item(&mut p, item, skip, pc, ahead, entry_pc);
            pc = pc.wrapping_add(2);
            k = k + 1;
        }
        match tail {
            Tail::Bx(d) => {
                p.push(Node::Do(emit_bx(d)));
            },
            Tail::PopPc(d) => {
                p.push(Node::Do(emit_pop_pc(d.reg_list)));
            },
            Tail::PcBranch(d) => {
                let (cond, test): (Code, usize) = emit_cond_check(d.cond);
                let taken = emit_jump(pc_branch_target(d, pc), None);
                p.push(Node::When { cond, test, body: taken });
            },
            Tail::Body(item) => {
                p.push(Node::Do(emit_body(item, false, pc)));
                if body_item_is_nonseq_advance(&item) {
                    p.push(Node::Do(emit_call0(Callee::SetNextFetchNonseq)));
                }
                if let Some(slot) = chain_slot {
                    p.push(Node::Chain(slot));
                }
            },
        }
        Some(self.finish(BlockKind::ThumbUnified, true, p))
    }
}

/// The flags left stale before body instruction `n`.
spec fn unified_stale(ops: Seq<u16>, n: nat) -> u8 {
    if n > 0 {
        stale_after(body_item(ops[n - 1])->0, unified_dead(ops, n - 1))
    } else {
        FLAGS_NONE
    }
}

/// With and without dead flag writes, the body makes the same calls and ends alike; the states
/// differ in stale flags only.
proof fn lemma_lean_body(ops: Seq<u16>, entry_pc: u32, n: nat, s: Cpu)
    requires
        unified_ok(ops),
        n <= ops.len() - 1,
    ensures
        ({
            let full = unified_body(ops, entry_pc, false, n, s);
            let lean = unified_body(ops, entry_pc, true, n, s);
            &&& full.exit == lean.exit
            &&& full.exit is None ==> same_but(full.cpu, lean.cpu, unified_stale(ops, n))
            &&& full.exit is Some ==> full.cpu == lean.cpu
        }),
    decreases n,
{
    reveal(item_step);
    if n > 0 {
        let k = (n - 1) as nat;
        lemma_lean_body(ops, entry_pc, k, s);
        let full = unified_body(ops, entry_pc, false, k, s);
        let lean = unified_body(ops, entry_pc, true, k, s);
        if full.exit is None {
            let item = body_item(ops[k as int])->0;
            let skip = unified_dead(ops, k as int);
            let pc = instr_pc(entry_pc, k as int);
            lemma_body_step(item, skip, pc, unified_stale(ops, k), full.cpu, lean.cpu);
            let a = exec_body(item, pc, full.cpu);
            let b = exec_body_lean(item, skip, pc, lean.cpu);
            lemma_agree(a.cpsr, b.cpsr, stale_after(item, skip));
        }
    }
}

/// Leaving out dead flag writes is not seen: a block ends in the same way and in the same state,
/// also where it is left in the middle.
pub proof fn law_dead_flag_writes_unseen(
    ops: Seq<u16>,
    entry_pc: u32,
    slot: Option<u64>,
    linked: bool,
    s: Cpu,
)
    requires
        unified_ok(ops),
    ensures
        ({
            let full = unified(ops, entry_pc, false, slot, linked, s);
            let lean = unified(ops, entry_pc, true, slot, linked, s);
            &&& full.exit == lean.exit
            &&& full.cpu == lean.cpu
        }),
{
    let n = (ops.len() - 1) as nat;
    lemma_lean_body(ops, entry_pc, n, s);
    let full = unified_body(ops, entry_pc, false, n, s);
    let lean = unified_body(ops, entry_pc, true, n, s);
    if full.exit is None {
        let tail = tail_item(ops.last())->0;
        let pc = instr_pc(entry_pc, n as int);
        match tail {
            Tail::Body(item) => {
                lemma_body_step(item, false, pc, unified_stale(ops, n), full.cpu, lean.cpu);
            },
            _ => {},
        }
    }
}

} // verus!
