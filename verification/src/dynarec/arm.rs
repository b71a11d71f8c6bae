//! Compilation of ARM blocks.

use vstd::prelude::*;
use crate::bits::{add_carries, add_flags, add_overflows, negative, offset_by, sub_overflows, word};
use crate::cond::ArmCond;
use crate::dynarec::DynarecCompiler;
use crate::dynarec::block::{
    BlockKind, CompiledBlock, Node, Outcome, Program, node_ok, node_step, run_nodes,
};
use crate::dynarec::decode::{DecodedDp, DecodedMem, DpOp, Operand2, arm_branch, arm_dp, arm_mem};
use crate::dynarec::emit::{
    emit_call0, emit_cond_check, emit_data_processing_imm, emit_jump, emit_mem_body,
};
use crate::dynarec::flags::{
    FLAGS_NONE, FLAGS_NZ, FLAGS_NZCV, covered, flag_mask_ok, lemma_agree, lemma_flag_writes,
    same_but,
};
use crate::dynarec::ir::{Callee, Code, Cpu};
use crate::dynarec::sem::{dp_result, exec_branch, exec_dp, exec_mem, operand2_value};

verus! {

/// Whether every opcode is a supported data-processing instruction.
pub open spec fn all_dp(ops: Seq<u32>) -> bool {
    forall|i: int| 0 <= i < ops.len() ==> (#[trigger] arm_dp(ops[i])) is Some
}

/// The state after the first `n` opcodes, all of them data processing.
pub open spec fn dp_block(ops: Seq<u32>, n: nat, s: Cpu) -> Cpu
    decreases n,
{
    if n == 0 {
        s
    } else {
        exec_dp(arm_dp(ops[n - 1])->0, dp_block(ops, (n - 1) as nat, s))
    }
}

/// The flags that a data-processing instruction writes.
pub open spec fn dp_mask(d: DecodedDp) -> u8 {
    if !d.s {
        FLAGS_NONE
    } else {
        match d.op {
            DpOp::Add | DpOp::Sub | DpOp::Cmp | DpOp::Cmn => FLAGS_NZCV,
            DpOp::Mov | DpOp::Mvn | DpOp::Tst | DpOp::Teq => FLAGS_NZ,
        }
    }
}

/// The flags that a data-processing instruction writes.
fn arm_dp_flag_write_mask(d: &DecodedDp) -> (m: u8)
    ensures
        m == dp_mask(*d),
        flag_mask_ok(m),
{
    if !d.s {
        return FLAGS_NONE;
    }
    match d.op {
        DpOp::Add | DpOp::Sub | DpOp::Cmp | DpOp::Cmn => FLAGS_NZCV,
        DpOp::Mov | DpOp::Mvn | DpOp::Tst | DpOp::Teq => FLAGS_NZ,
    }
}

/// Whether the flags of instruction `k` are overwritten, unread, by the next instruction.
pub open spec fn dp_dead(ds: Seq<DecodedDp>, k: int) -> bool {
    &&& k + 1 < ds.len()
    &&& dp_mask(ds[k]) != FLAGS_NONE
    &&& ds[k + 1].cond == ArmCond::Al
    &&& dp_mask(ds[k]) <= dp_mask(ds[k + 1])
}

/// An instruction with its flag write left out where `skip` says so.
pub open spec fn without_flags(d: DecodedDp, skip: bool) -> DecodedDp {
    DecodedDp { s: d.s && !skip, ..d }
}

/// The state after the first `n` instructions, dead flag writes left out.
spec fn dp_lean(ds: Seq<DecodedDp>, n: nat, s: Cpu) -> Cpu
    decreases n,
{
    if n == 0 {
        s
    } else {
        exec_dp(
            without_flags(ds[n - 1], dp_dead(ds, n - 1)),
            dp_lean(ds, (n - 1) as nat, s),
        )
    }
}

/// The flags left stale before instruction `n`.
spec fn dp_stale(ds: Seq<DecodedDp>, n: nat) -> u8 {
    if n > 0 && dp_dead(ds, n - 1) {
        dp_mask(ds[n - 1])
    } else {
        FLAGS_NONE
    }
}

/// One instruction on two states that differ in stale flags only.
proof fn lemma_dp_step(d: DecodedDp, skip: bool, m: u8, a: Cpu, b: Cpu)
    requires
        d.ok(),
        flag_mask_ok(m),
        same_but(a, b, m),
        m <= dp_mask(d),
        m != FLAGS_NONE ==> d.cond == ArmCond::Al,
        skip ==> dp_mask(d) != FLAGS_NONE,
    ensures
        same_but(
            exec_dp(d, a),
            exec_dp(without_flags(d, skip), b),
            if skip {
                dp_mask(d)
            } else {
                FLAGS_NONE
            },
        ),
{
    lemma_agree(a.cpsr, b.cpsr, m);
    let x = a.reg(d.rn);
    let y = operand2_value(d.operand2, a);
    let r = dp_result(d.op, x, y);
    if m == FLAGS_NONE {
        assert(a == b);
    }
    if d.cond.passes(a.cpsr) && d.s {
        let add = add_flags(a.cpsr, x, y);
        let sum = x.wrapping_add(y);
        let diff = x.wrapping_sub(y);
        lemma_flag_writes(
            a.cpsr,
            negative(sum),
            sum == 0,
            add_carries(x, y),
            add_overflows(x, y),
        );
        lemma_flag_writes(a.cpsr, negative(diff), diff == 0, x >= y, sub_overflows(x, y));
        lemma_flag_writes(a.cpsr, negative(r), r == 0, false, false);
    }
}

/// Leaving out dead flag writes changes no more than the stale flags.
proof fn lemma_dp_lean(ops: Seq<u32>, ds: Seq<DecodedDp>, n: nat, s: Cpu)
    requires
        ds.len() == ops.len(),
        n <= ds.len(),
        forall|i: int| 0 <= i < ops.len() ==> (#[trigger] arm_dp(ops[i])) == Some(ds[i]),
        forall|i: int| 0 <= i < ds.len() ==> (#[trigger] ds[i]).ok(),
    ensures
        same_but(dp_block(ops, n, s), dp_lean(ds, n, s), dp_stale(ds, n)),
    decreases n,
{
    if n > 0 {
        let k = (n - 1) as nat;
        lemma_dp_lean(ops, ds, k, s);
        let d = ds[k as int];
        assert(arm_dp(ops[k as int]) == Some(d));
        assert(d.ok());
        lemma_dp_step(
            d,
            dp_dead(ds, k as int),
            dp_stale(ds, k),
            dp_block(ops, k, s),
            dp_lean(ds, k, s),
        );
    }
}

/// The node of a data-processing instruction, conditional where the instruction is.
fn dp_node(d: DecodedDp) -> (node: Node)
    requires
        d.rd < 15,
        d.rn < 15,
        d.operand2 matches Operand2::Reg(rm) ==> rm < 15,
        d.cond != ArmCond::Invalid,
    ensures
        node_ok(node),
        forall|linked: bool, s: Cpu| #[trigger]
            node_step(node, linked, s) == (Outcome { cpu: exec_dp(d, s), exit: None }),
{
    let body = emit_data_processing_imm(d);
    if d.cond == ArmCond::Al {
        return Node::Do(body);
    }
    let (cond, test): (Code, usize) = emit_cond_check(d.cond);
    Node::When { cond, test, body }
}

/// The node of an ARM load or store.
fn mem_node(d: DecodedMem) -> (node: Node)
    requires
        d.rd < 15,
        d.rn < 15,
        d.cond != ArmCond::Invalid,
    ensures
        node_ok(node),
        forall|linked: bool, s: Cpu| #[trigger]
            node_step(node, linked, s) == (Outcome { cpu: exec_mem(d, s), exit: None }),
{
    let body = emit_mem_body(d);
    if d.cond == ArmCond::Al {
        return Node::Do(body);
    }
    let (cond, test): (Code, usize) = emit_cond_check(d.cond);
    Node::When { cond, test, body }
}

/// An instruction that neither reads nor writes flags leaves the status word alone.
proof fn lemma_untouched(ops: Seq<u32>, n: nat, s: Cpu)
    requires
        n <= ops.len(),
        forall|i: int|
            0 <= i < ops.len() ==> (#[trigger] arm_dp(ops[i])) is Some && !arm_dp(ops[i])->0.s,
    ensures
        dp_block(ops, n, s).cpsr == s.cpsr,
    decreases n,
{
    if n > 0 {
        lemma_untouched(ops, (n - 1) as nat, s);
        assert(arm_dp(ops[n - 1]) is Some);
    }
}

/// Whether any instruction reads or writes flags.
pub open spec fn uses_flags(ops: Seq<u32>) -> bool {
    exists|i: int|
        0 <= i < ops.len() && ((#[trigger] arm_dp(ops[i]))->0.s || arm_dp(ops[i])->0.cond
            != ArmCond::Al)
}

/// Decodes a block of data-processing instructions; `None` if one of them is not supported.
fn decode_dp_block(opcodes: &[u32]) -> (r: Option<Vec<DecodedDp>>)
    ensures
        r is Some == all_dp(opcodes@),
        r matches Some(ds) ==> ds@.len() == opcodes@.len() && (forall|i: int|
            0 <= i < ds@.len() ==> (#[trigger] arm_dp(opcodes@[i])) == Some(ds@[i])) && (forall|
            i: int,
        |
            0 <= i < ds@.len() ==> (#[trigger] ds@[i]).ok()),
{
    let mut ds: Vec<DecodedDp> = Vec::new();
    let mut i: usize = 0;
    while i < opcodes.len()
        invariant
            i <= opcodes@.len(),
            ds@.len() == i,
            forall|j: int| 0 <= j < i ==> (#[trigger] arm_dp(opcodes@[j])) == Some(ds@[j]),
            forall|j: int| 0 <= j < i ==> (#[trigger] ds@[j]).ok(),
        decreases opcodes@.len() - i,
    {
        match DynarecCompiler::decode_supported_dp(opcodes[i]) {
            Some(d) => {
                ds.push(d);
            },
            None => {
                proof {
                    assert(arm_dp(opcodes@[i as int]) is None);
                }
                return None;
            },
        }
        i = i + 1;
    }
    Some(ds)
}

impl DynarecCompiler {
    /// Compiles a block of ARM data-processing instructions. Every instruction takes effect as
    /// the guest defines it; a flag write that the next instruction overwrites unread is left out.
    pub fn try_compile_imm_block(&mut self, opcodes: &[u32]) -> (r: Option<CompiledBlock>)
        requires
            old(self).next_id < u64::MAX,
        ensures
            r is Some == all_dp(opcodes@),
            r is None ==> *final(self) == *old(self),
            r matches Some(b) ==> {
                &&& final(self).numbered(*old(self), b, BlockKind::ImmBlock)
                &&& b.touches_cpsr == uses_flags(opcodes@)
                &&& forall|linked: bool, s: Cpu| #[trigger]
                    b.outcome(linked, s) == (Outcome {
                        cpu: dp_block(opcodes@, opcodes@.len(), s),
                        exit: None,
                    })
                &&& !b.touches_cpsr ==> forall|s: Cpu|
                    (#[trigger] dp_block(opcodes@, opcodes@.len(), s)).cpsr == s.cpsr
            },
    {
        let ds: Vec<DecodedDp> = match decode_dp_block(opcodes) {
            Some(ds) => ds,
            None => return None,
        };
        let n: usize = ds.len();
        let mut touches: bool = false;
        let mut p = Program::new();
        let mut k: usize = 0;
        while k < n
            invariant
                k <= n,
                n == ds@.len(),
                n == opcodes@.len(),
                p.wf(),
                forall|i: int| 0 <= i < n ==> (#[trigger] arm_dp(opcodes@[i])) == Some(ds@[i]),
                forall|i: int| 0 <= i < n ==> (#[trigger] ds@[i]).ok(),
                touches == exists|i: int|
                    0 <= i < k && ((#[trigger] arm_dp(opcodes@[i]))->0.s || arm_dp(
                        opcodes@[i],
                    )->0.cond != ArmCond::Al),
                forall|linked: bool, s: Cpu| #[trigger]
                    run_nodes(p@, linked, s) == (Outcome {
                        cpu: dp_lean(ds@, k as nat, s),
                        exit: None,
                    }),
            decreases n - k,
        {
            let d: DecodedDp = ds[k];
            let mut skip: bool = false;
            if k + 1 < n {
                let next: DecodedDp = ds[k + 1];
                let cur: u8 = arm_dp_flag_write_mask(&d);
                skip = cur != FLAGS_NONE && next.cond == ArmCond::Al && covered(
                    cur,
                    arm_dp_flag_write_mask(&next),
                );
            }
            proof {
                assert(arm_dp(opcodes@[k as int]) == Some(d));
            }
            if d.s || d.cond != ArmCond::Al {
                touches = true;
            }
            assert(skip == dp_dead(ds@, k as int));
            p.push(dp_node(DecodedDp { s: d.s && !skip, ..d }));
            k = k + 1;
        }
        proof {
            assert forall|s: Cpu| dp_lean(ds@, n as nat, s) == #[trigger] dp_block(
                opcodes@,
                n as nat,
                s,
            ) by {
                lemma_dp_lean(opcodes@, ds@, n as nat, s);
            }
            if !touches {
                assert forall|s: Cpu| (#[trigger] dp_block(opcodes@, n as nat, s)).cpsr
                    == s.cpsr by {
                    lemma_untouched(opcodes@, n as nat, s);
                }
            }
        }
        Some(self.finish(BlockKind::ImmBlock, touches, p))
    }

    /// Compiles a block of ARM data-processing instructions that may end in `B` or `BL`. The block
    /// returns 1 with the target in `pc_out` if the branch is taken, and 0 otherwise. `entry_pc`
    /// is the address of the first instruction.
    pub fn try_compile_block_with_branch(&mut self, opcodes: &[u32], entry_pc: u32) -> (r: Option<
        CompiledBlock,
    >)
        requires
            old(self).next_id < u64::MAX,
        ensures
            r is Some == branch_block_ok(opcodes@),
            r is None ==> *final(self) == *old(self),
            r matches Some(b) ==> {
                &&& final(self).numbered(*old(self), b, BlockKind::BranchBlock)
                &&& b.touches_cpsr
                &&& forall|linked: bool, s: Cpu| #[trigger]
                    b.outcome(linked, s) == (Outcome {
                        cpu: branch_block(opcodes@, entry_pc, s),
                        exit: None,
                    })
            },
    {
        let n: usize = opcodes.len();
        if n == 0 {
            return None;
        }
        let mut p = Program::new();
        let mut pc: u32 = entry_pc;
        let mut k: usize = 0;
        proof {
            assert(word(entry_pc + 4 * 0) == entry_pc);
        }
        while k < n - 1
            invariant
                k <= n - 1,
                n == opcodes@.len(),
                n > 0,
                p.wf(),
                pc == word(entry_pc + 4 * k),
                forall|i: int| 0 <= i < k ==> (#[trigger] arm_dp(opcodes@[i])) is Some,
                forall|linked: bool, s: Cpu| #[trigger]
                    run_nodes(p@, linked, s) == (Outcome {
                        cpu: dp_block(opcodes@, k as nat, s),
                        exit: None,
                    }),
            decreases n - k,
        {
            match DynarecCompiler::decode_supported_dp(opcodes[k]) {
                Some(d) => {
                    p.push(dp_node(d));
                },
                None => {
                    proof {
                        assert(arm_dp(opcodes@[k as int]) is None);
                    }
                    return None;
                },
            }
            pc = pc.wrapping_add(4);
            k = k + 1;
        }
        let tail: u32 = opcodes[n - 1];
        match DynarecCompiler::decode_branch(tail) {
            Some(br) => {
                let target: u32 = offset_by(pc.wrapping_add(8), br.offset24_signed * 4);
                let link: Option<u32> = if br.link {
                    Some(pc.wrapping_add(4))
                } else {
                    None
                };
                let (cond, test): (Code, usize) = emit_cond_check(br.cond);
                let body = emit_jump(target, link);
                p.push(Node::When { cond, test, body });
            },
            None => match DynarecCompiler::decode_supported_dp(tail) {
                Some(d) => {
                    p.push(dp_node(d));
                },
                None => {
                    return None;
                },
            },
        }
        Some(self.finish(BlockKind::BranchBlock, true, p))
    }

    /// Compiles a block of ARM data-processing instructions, loads and stores. A store at the end
    /// makes the next fetch non-sequential. Needs a bus.
    pub fn try_compile_mem_block(&mut self, opcodes: &[u32]) -> (r: Option<CompiledBlock>)
        requires
            old(self).next_id < u64::MAX,
        ensures
            r is Some == (old(self).bus && all_arm(opcodes@)),
            r is None ==> *final(self) == *old(self),
            r matches Some(b) ==> {
                &&& final(self).numbered(*old(self), b, BlockKind::MemBlock)
                &&& b.touches_cpsr
                &&& forall|linked: bool, s: Cpu| #[trigger]
                    b.outcome(linked, s) == (Outcome {
                        cpu: arm_block_done(opcodes@, s),
                        exit: None,
                    })
            },
    {
        if !self.bus {
            return None;
        }
        let n: usize = opcodes.len();
        let mut p = Program::new();
        let mut store: bool = false;
        let mut k: usize = 0;
        while k < n
            invariant
                k <= n,
                n == opcodes@.len(),
                p.wf(),
                *self == *old(self),
                store == (k > 0 && stores(arm_item(opcodes@[k - 1])->0)),
                forall|i: int| 0 <= i < k ==> (#[trigger] arm_item(opcodes@[i])) is Some,
                forall|linked: bool, s: Cpu| #[trigger]
                    run_nodes(p@, linked, s) == (Outcome {
                        cpu: arm_block(opcodes@, k as nat, s),
                        exit: None,
                    }),
            decreases n - k,
        {
            match classify_arm_item(opcodes[k]) {
                Some(BlockItem::Dp(d)) => {
                    store = false;
                    p.push(dp_node(d));
                },
                Some(BlockItem::Mem(m)) => {
                    store = !m.load;
                    p.push(mem_node(m));
                },
                None => {
                    proof {
                        assert(arm_item(opcodes@[k as int]) is None);
                    }
                    return None;
                },
            }
            k = k + 1;
        }
        if store {
            p.push(Node::Do(emit_call0(Callee::SetNextFetchNonseq)));
        }
        Some(self.finish(BlockKind::MemBlock, true, p))
    }
}

/// Whether a block is data processing with an optional branch at the end.
pub open spec fn branch_block_ok(ops: Seq<u32>) -> bool {
    &&& ops.len() > 0
    &&& forall|i: int| 0 <= i < ops.len() - 1 ==> (#[trigger] arm_dp(ops[i])) is Some
    &&& arm_branch(ops.last()) is Some || arm_dp(ops.last()) is Some
}

/// The state after a block of data processing with an optional branch at the end.
pub open spec fn branch_block(ops: Seq<u32>, entry_pc: u32, s: Cpu) -> Cpu {
    let n = (ops.len() - 1) as nat;
    match arm_branch(ops.last()) {
        Some(br) => exec_branch(br, word(entry_pc + 4 * n), dp_block(ops, n, s)),
        None => dp_block(ops, ops.len(), s),
    }
}

/// One instruction of a block with loads and stores.
#[derive(Clone, Copy, PartialEq, Eq, Structural, Debug)]
pub enum BlockItem {
    Dp(DecodedDp),
    Mem(DecodedMem),
}

/// The instruction that an opcode stands for; none may use R15.
pub open spec fn arm_item(x: u32) -> Option<BlockItem> {
    match arm_mem(x) {
        Some(m) => if m.rn == 15 || m.rd == 15 {
            None
        } else {
            Some(BlockItem::Mem(m))
        },
        None => match arm_dp(x) {
            Some(d) => Some(BlockItem::Dp(d)),
            None => None,
        },
    }
}

/// Decodes one instruction of a block with loads and stores.
fn classify_arm_item(x: u32) -> (r: Option<BlockItem>)
    ensures
        r == arm_item(x),
        r matches Some(BlockItem::Dp(d)) ==> d.ok(),
        r matches Some(BlockItem::Mem(m)) ==> m.rd < 15 && m.rn < 15 && m.cond != ArmCond::Invalid,
{
    match DynarecCompiler::decode_mem_immediate(x) {
        Some(m) => {
            if m.rn == 15 || m.rd == 15 {
                None
            } else {
                Some(BlockItem::Mem(m))
            }
        },
        None => match DynarecCompiler::decode_supported_dp(x) {
            Some(d) => Some(BlockItem::Dp(d)),
            None => None,
        },
    }
}

/// Whether every opcode is supported data processing, a load or a store.
pub open spec fn all_arm(ops: Seq<u32>) -> bool {
    forall|i: int| 0 <= i < ops.len() ==> (#[trigger] arm_item(ops[i])) is Some
}

pub open spec fn exec_item(item: BlockItem, s: Cpu) -> Cpu {
    match item {
        BlockItem::Dp(d) => exec_dp(d, s),
        BlockItem::Mem(m) => exec_mem(m, s),
    }
}

/// The state after the first `n` opcodes of a block with loads and stores.
pub open spec fn arm_block(ops: Seq<u32>, n: nat, s: Cpu) -> Cpu
    decreases n,
{
    if n == 0 {
        s
    } else {
        exec_item(arm_item(ops[n - 1])->0, arm_block(ops, (n - 1) as nat, s))
    }
}

/// Whether an instruction of a block is a store.
pub open spec fn stores(item: BlockItem) -> bool {
    match item {
        BlockItem::Dp(_) => false,
        BlockItem::Mem(m) => !m.load,
    }
}

/// The state after a whole block: a store at the end makes the next fetch non-sequential. That also
/// holds of one whose condition fails, as the interpreter fetches so after an instruction that it
/// passes over.
pub open spec fn arm_block_done(ops: Seq<u32>, s: Cpu) -> Cpu {
    let t = arm_block(ops, ops.len(), s);
    if ops.len() > 0 && stores(arm_item(ops.last())->0) {
        t.called(Callee::SetNextFetchNonseq, 0, 0, 0)
    } else {
        t
    }
}

} // verus!
