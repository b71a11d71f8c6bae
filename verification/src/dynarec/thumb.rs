//! Compilation of Thumb blocks.

use vstd::prelude::*;
use crate::bits::{
    add_carries, add_flags, add_overflows, negative, offset_by, sub_flags, sub_overflows, word,
};
use crate::cond::ArmCond;
use crate::dynarec::DynarecCompiler;
use crate::dynarec::block::{BlockKind, CompiledBlock, Node, Outcome, Program, run_nodes};
use crate::dynarec::decode::{
    DecodedThumb1, DecodedThumb10, DecodedThumb11, DecodedThumb12, DecodedThumb13, DecodedThumb14,
    DecodedThumb15, DecodedThumb2, DecodedThumb3, DecodedThumb4, DecodedThumb5, DecodedThumb6,
    DecodedThumb7, DecodedThumb8Ldsb, DecodedThumb9, DecodedThumbPcBranch, Thumb2Operand, Thumb3Op,
    Thumb4Op, Thumb5Op, thumb1, thumb11, thumb12, thumb13, thumb14, thumb15, thumb16, thumb18,
    thumb2, thumb3, thumb4, thumb5, thumb6, thumb7, thumb8, thumb9, thumb_bx, thumb_pop_pc,
};
use crate::dynarec::emit::{
    emit_bx, emit_call0, emit_cond_check, emit_jump, emit_pop_pc_alone, emit_thumb_format1,
    emit_thumb_format10, emit_thumb_format11, emit_thumb_format12, emit_thumb_format13,
    emit_thumb_format14, emit_thumb_format15, emit_thumb_format2, emit_thumb_format2_no_flags,
    emit_thumb_format3, emit_thumb_format3_no_flags, emit_thumb_format4_logical,
    emit_thumb_format5_non_branch, emit_thumb_format6, emit_thumb_format7, emit_thumb_format8_ldsb,
    emit_thumb_format9,
};
use crate::dynarec::flags::{
    FLAGS_NONE, FLAGS_NZ, FLAGS_NZC, FLAGS_NZCV, agree, covered, flag_mask_ok, lemma_agree,
    lemma_flag_writes, same_but,
};
use crate::dynarec::ir::{Callee, Code, Cpu, run};
use crate::dynarec::sem::{
    exec1, exec10, exec11, exec12, exec13, exec14, exec15, exec2, exec3, exec4, exec5, exec6, exec7,
    exec8, exec9, exec_bx, exec_pop_pc_alone, operand_value, thumb_target,
};

verus! {

/// A supported Thumb instruction that does not branch.
#[derive(Clone, Copy, PartialEq, Eq, Structural, Debug)]
pub enum Body {
    F1(DecodedThumb1),
    F2(DecodedThumb2),
    F3(DecodedThumb3),
    F4(DecodedThumb4),
    F5(DecodedThumb5),
    F6(DecodedThumb6),
    F7(DecodedThumb7),
    F8Ldsb(DecodedThumb8Ldsb),
    F9(DecodedThumb9),
    F10(DecodedThumb10),
    F11(DecodedThumb11),
    F12(DecodedThumb12),
    F13(DecodedThumb13),
    F14(DecodedThumb14),
    F15(DecodedThumb15),
}

impl Body {
    pub open spec fn ok(self) -> bool {
        match self {
            Body::F1(d) => d.imm5 < 32 && d.rs < 8 && d.rd < 8,
            Body::F2(d) => d.rs < 8 && d.rd < 8 && (
                d.operand matches Thumb2Operand::Imm3(n) ==> n < 8
            ) && (d.operand matches Thumb2Operand::Reg(n) ==> n < 8),
            Body::F3(d) => d.rd < 8 && d.imm8 < 256,
            Body::F4(d) => d.rs < 8 && d.rd < 8,
            Body::F5(d) => d.rs < 15 && d.rd < 15,
            Body::F6(d) => d.rd < 8 && d.imm8 < 256,
            Body::F7(d) => d.ro < 8 && d.rb < 8 && d.rd < 8,
            Body::F8Ldsb(d) => d.ro < 8 && d.rb < 8 && d.rd < 8,
            Body::F9(d) => d.rs < 8 && d.rd < 8,
            Body::F10(d) => d.rs < 8 && d.rd < 8,
            Body::F11(d) => d.rd < 8,
            Body::F12(d) => d.rd < 8,
            Body::F13(d) => true,
            Body::F14(d) => (!d.push ==> !d.extra_reg),
            Body::F15(d) => d.rb < 8,
        }
    }

    /// Whether lowering can leave the flag write out.
    pub open spec fn skippable(self) -> bool {
        self is F2 || self is F3
    }
}

/// What an instruction at `pc` does.
#[verifier::opaque]
pub open spec fn exec_body(item: Body, pc: u32, s: Cpu) -> Cpu {
    match item {
        Body::F1(d) => exec1(d, s),
        Body::F2(d) => exec2(d, s),
        Body::F3(d) => exec3(d, s),
        Body::F4(d) => exec4(d, s),
        Body::F5(d) => exec5(d, s),
        Body::F6(d) => exec6(d, pc, s),
        Body::F7(d) => exec7(d, s),
        Body::F8Ldsb(d) => exec8(d, s),
        Body::F9(d) => exec9(d, s),
        Body::F10(d) => exec10(d, s),
        Body::F11(d) => exec11(d, s),
        Body::F12(d) => exec12(d, pc, s),
        Body::F13(d) => exec13(d, s),
        Body::F14(d) => exec14(d, s),
        Body::F15(d) => exec15(d, s),
    }
}

/// What an instruction at `pc` does with its flag write left out where that is asked for and
/// possible.
pub open spec fn exec_body_lean(item: Body, skip: bool, pc: u32, s: Cpu) -> Cpu {
    if skip && item.skippable() {
        exec_body(item, pc, s).flagged(s.cpsr)
    } else {
        exec_body(item, pc, s)
    }
}

/// The data-processing instruction that an opcode stands for.
pub open spec fn alu_item(op: u16) -> Option<Body> {
    if thumb1(op) is Some {
        Some(Body::F1(thumb1(op)->0))
    } else if thumb2(op) is Some {
        Some(Body::F2(thumb2(op)->0))
    } else if thumb3(op) is Some {
        Some(Body::F3(thumb3(op)->0))
    } else if thumb4(op) is Some {
        Some(Body::F4(thumb4(op)->0))
    } else if thumb5(op) is Some {
        Some(Body::F5(thumb5(op)->0))
    } else {
        None
    }
}

/// The data-processing, load, store, push or pop instruction that an opcode stands for.
pub open spec fn mem_item(op: u16) -> Option<Body> {
    if thumb14(op) is Some {
        Some(Body::F14(thumb14(op)->0))
    } else if thumb11(op) is Some {
        Some(Body::F11(thumb11(op)->0))
    } else if thumb9(op) is Some {
        Some(Body::F9(thumb9(op)->0))
    } else {
        alu_item(op)
    }
}

/// Any supported instruction that does not branch.
#[verifier::opaque]
pub open spec fn body_item(op: u16) -> Option<Body> {
    if thumb15(op) is Some {
        Some(Body::F15(thumb15(op)->0))
    } else if thumb14(op) is Some {
        Some(Body::F14(thumb14(op)->0))
    } else if thumb13(op) is Some {
        Some(Body::F13(thumb13(op)->0))
    } else if thumb12(op) is Some {
        Some(Body::F12(thumb12(op)->0))
    } else if thumb11(op) is Some {
        Some(Body::F11(thumb11(op)->0))
    } else if thumb9(op) is Some {
        Some(Body::F9(thumb9(op)->0))
    } else if thumb7(op) is Some {
        Some(Body::F7(thumb7(op)->0))
    } else if thumb8(op) is Some {
        Some(Body::F8Ldsb(thumb8(op)->0))
    } else if thumb6(op) is Some {
        Some(Body::F6(thumb6(op)->0))
    } else {
        alu_item(op)
    }
}

/// Decodes a data-processing instruction.
pub fn classify_alu(op: u16) -> (r: Option<Body>)
    ensures
        r == alu_item(op),
        r matches Some(item) ==> item.ok(),
{
    if let Some(d) = DynarecCompiler::decode_thumb_format1(op) {
        Some(Body::F1(d))
    } else if let Some(d) = DynarecCompiler::decode_thumb_format2(op) {
        Some(Body::F2(d))
    } else if let Some(d) = DynarecCompiler::decode_thumb_format3(op) {
        Some(Body::F3(d))
    } else if let Some(d) = DynarecCompiler::decode_thumb_format4_logical(op) {
        Some(Body::F4(d))
    } else if let Some(d) = DynarecCompiler::decode_thumb_format5_non_branch(op) {
        Some(Body::F5(d))
    } else {
        None
    }
}

/// Decodes a data-processing, load, store, push or pop instruction.
pub fn classify_mem(op: u16) -> (r: Option<Body>)
    ensures
        r == mem_item(op),
        r matches Some(item) ==> item.ok(),
{
    if let Some(d) = DynarecCompiler::decode_thumb_format14_non_pc(op) {
        Some(Body::F14(d))
    } else if let Some(d) = DynarecCompiler::decode_thumb_format11(op) {
        Some(Body::F11(d))
    } else if let Some(d) = DynarecCompiler::decode_thumb_format9(op) {
        Some(Body::F9(d))
    } else {
        classify_alu(op)
    }
}

/// Decodes any supported instruction that does not branch. Halfword accesses with an immediate
/// offset are left to the interpreter.
pub fn classify_body(op: u16) -> (r: Option<Body>)
    ensures
        r == body_item(op),
        r matches Some(item) ==> item.ok(),
{
    reveal(body_item);
    if let Some(d) = DynarecCompiler::decode_thumb_format15(op) {
        Some(Body::F15(d))
    } else if let Some(d) = DynarecCompiler::decode_thumb_format14_non_pc(op) {
        Some(Body::F14(d))
    } else if let Some(d) = DynarecCompiler::decode_thumb_format13(op) {
        Some(Body::F13(d))
    } else if let Some(d) = DynarecCompiler::decode_thumb_format12(op) {
        Some(Body::F12(d))
    } else if let Some(d) = DynarecCompiler::decode_thumb_format11(op) {
        Some(Body::F11(d))
    } else if let Some(d) = DynarecCompiler::decode_thumb_format9(op) {
        Some(Body::F9(d))
    } else if let Some(d) = DynarecCompiler::decode_thumb_format7(op) {
        Some(Body::F7(d))
    } else if let Some(d) = DynarecCompiler::decode_thumb_format8_ldsb(op) {
        Some(Body::F8Ldsb(d))
    } else if let Some(d) = DynarecCompiler::decode_thumb_format6(op) {
        Some(Body::F6(d))
    } else {
        classify_alu(op)
    }
}

/// Lowers an instruction at `instr_pc`.
pub fn emit_body(item: Body, skip: bool, instr_pc: u32) -> (code: Code)
    requires
        item.ok(),
    ensures
        code.wf(),
        forall|s: Cpu|
            (#[trigger] run(code@, s)).cpu == exec_body_lean(item, skip, instr_pc, s),
{
    reveal(exec_body);
    match item {
        Body::F1(d) => emit_thumb_format1(d),
        Body::F2(d) => {
            if skip {
                emit_thumb_format2_no_flags(d)
            } else {
                emit_thumb_format2(d)
            }
        },
        Body::F3(d) => {
            if skip {
                emit_thumb_format3_no_flags(d)
            } else {
                emit_thumb_format3(d)
            }
        },
        Body::F4(d) => emit_thumb_format4_logical(d),
        Body::F5(d) => emit_thumb_format5_non_branch(d),
        Body::F6(d) => emit_thumb_format6(d, instr_pc),
        Body::F7(d) => emit_thumb_format7(d),
        Body::F8Ldsb(d) => emit_thumb_format8_ldsb(d),
        Body::F9(d) => emit_thumb_format9(d),
        Body::F10(d) => emit_thumb_format10(d),
        Body::F11(d) => emit_thumb_format11(d),
        Body::F12(d) => emit_thumb_format12(d, instr_pc),
        Body::F13(d) => emit_thumb_format13(d),
        Body::F14(d) => emit_thumb_format14(d),
        Body::F15(d) => emit_thumb_format15(d),
    }
}

/// The flags that an instruction writes.
pub open spec fn body_mask(item: Body) -> u8 {
    match item {
        Body::F1(_) => FLAGS_NZC,
        Body::F2(_) => FLAGS_NZCV,
        Body::F3(d) => match d.op {
            Thumb3Op::Mov => FLAGS_NZ,
            _ => FLAGS_NZCV,
        },
        Body::F4(d) => match d.op {
            Thumb4Op::Cmp | Thumb4Op::Cmn => FLAGS_NZCV,
            _ => FLAGS_NZ,
        },
        Body::F5(d) => match d.op {
            Thumb5Op::Cmp => FLAGS_NZCV,
            _ => FLAGS_NONE,
        },
        _ => FLAGS_NONE,
    }
}

/// The flags that an instruction writes. The logical operations, tests among them, keep C and V.
pub fn flag_write_mask(item: &Body) -> (m: u8)
    ensures
        m == body_mask(*item),
        flag_mask_ok(m),
{
    match item {
        Body::F1(_) => FLAGS_NZC,
        Body::F2(_) => FLAGS_NZCV,
        Body::F3(d) => match d.op {
            Thumb3Op::Mov => FLAGS_NZ,
            _ => FLAGS_NZCV,
        },
        Body::F4(d) => match d.op {
            Thumb4Op::Cmp | Thumb4Op::Cmn => FLAGS_NZCV,
            _ => FLAGS_NZ,
        },
        Body::F5(d) => match d.op {
            Thumb5Op::Cmp => FLAGS_NZCV,
            _ => FLAGS_NONE,
        },
        _ => FLAGS_NONE,
    }
}

/// The flags left stale after an instruction whose flag write was to be left out.
pub open spec fn stale_after(item: Body, skip: bool) -> u8 {
    if skip && item.skippable() {
        body_mask(item)
    } else {
        FLAGS_NONE
    }
}

/// One instruction on two states that differ in stale flags only.
pub proof fn lemma_body_step(item: Body, skip: bool, pc: u32, m: u8, a: Cpu, b: Cpu)
    requires
        m == FLAGS_NONE || m == FLAGS_NZ || m == FLAGS_NZCV,
        same_but(a, b, m),
        m <= body_mask(item),
        skip ==> body_mask(item) != FLAGS_NONE,
    ensures
        same_but(
            exec_body(item, pc, a),
            exec_body_lean(item, skip, pc, b),
            stale_after(item, skip),
        ),
{
    reveal(exec_body);
    lemma_agree(a.cpsr, b.cpsr, m);
    if m == FLAGS_NONE {
        assert(a == b);
    }
    match item {
        Body::F2(d) => {
            let x = a.reg(d.rs);
            let y = operand_value(d.operand, a);
            lemma_arith_keeps(a.cpsr, x, y);
        },
        Body::F3(d) => {
            let x = a.reg(d.rd);
            lemma_arith_keeps(a.cpsr, x, d.imm8);
            lemma_flag_writes(a.cpsr, negative(d.imm8), d.imm8 == 0, false, false);
        },
        _ => {},
    }
}

/// Arithmetic flag writes leave everything but the flags.
pub proof fn lemma_arith_keeps(cpsr: u32, x: u32, y: u32)
    ensures
        agree(add_flags(cpsr, x, y), cpsr, FLAGS_NZCV),
        agree(sub_flags(cpsr, x, y), cpsr, FLAGS_NZCV),
{
    let sum = x.wrapping_add(y);
    let diff = x.wrapping_sub(y);
    lemma_flag_writes(cpsr, negative(sum), sum == 0, add_carries(x, y), add_overflows(x, y));
    lemma_flag_writes(cpsr, negative(diff), diff == 0, x >= y, sub_overflows(x, y));
}

/// Whether every opcode is a supported data-processing instruction.
pub open spec fn all_alu(ops: Seq<u16>) -> bool {
    forall|i: int| 0 <= i < ops.len() ==> (#[trigger] alu_item(ops[i])) is Some
}

/// The state after the first `n` opcodes, all of them data processing. None of these depends on
/// where it stands.
pub open spec fn alu_block(ops: Seq<u16>, n: nat, s: Cpu) -> Cpu
    decreases n,
{
    if n == 0 {
        s
    } else {
        exec_body(alu_item(ops[n - 1])->0, 0, alu_block(ops, (n - 1) as nat, s))
    }
}

/// Whether the flags of instruction `k` are overwritten by the next instruction.
pub open spec fn body_dead(items: Seq<Body>, k: int) -> bool {
    &&& k + 1 < items.len()
    &&& body_mask(items[k]) != FLAGS_NONE
    &&& body_mask(items[k]) <= body_mask(items[k + 1])
}

/// The state after the first `n` instructions, dead flag writes left out.
spec fn alu_lean(items: Seq<Body>, n: nat, s: Cpu) -> Cpu
    decreases n,
{
    if n == 0 {
        s
    } else {
        exec_body_lean(
            items[n - 1],
            body_dead(items, n - 1),
            0,
            alu_lean(items, (n - 1) as nat, s),
        )
    }
}

/// The flags left stale before instruction `n`.
spec fn alu_stale(items: Seq<Body>, n: nat) -> u8 {
    if n > 0 {
        stale_after(items[n - 1], body_dead(items, n - 1))
    } else {
        FLAGS_NONE
    }
}

/// Leaving out dead flag writes changes no more than the stale flags.
proof fn lemma_alu_lean(ops: Seq<u16>, items: Seq<Body>, n: nat, s: Cpu)
    requires
        items.len() == ops.len(),
        n <= items.len(),
        forall|i: int| 0 <= i < ops.len() ==> (#[trigger] alu_item(ops[i])) == Some(items[i]),
        forall|i: int| 0 <= i < items.len() ==> (#[trigger] items[i]).ok(),
    ensures
        same_but(alu_block(ops, n, s), alu_lean(items, n, s), alu_stale(items, n)),
    decreases n,
{
    if n > 0 {
        let k = (n - 1) as nat;
        lemma_alu_lean(ops, items, k, s);
        assert(alu_item(ops[k as int]) == Some(items[k as int]));
        assert(items[k as int].ok());
        lemma_body_step(
            items[k as int],
            body_dead(items, k as int),
            0,
            alu_stale(items, k),
            alu_block(ops, k, s),
            alu_lean(items, k, s),
        );
    }
}

/// Decodes a block of data-processing instructions; `None` if one of them is not supported.
fn decode_alu_block(opcodes: &[u16]) -> (r: Option<Vec<Body>>)
    ensures
        r is Some == all_alu(opcodes@),
        r matches Some(items) ==> items@.len() == opcodes@.len() && (forall|i: int|
            0 <= i < items@.len() ==> (#[trigger] alu_item(opcodes@[i])) == Some(items@[i])) && (
        forall|i: int| 0 <= i < items@.len() ==> (#[trigger] items@[i]).ok()),
{
    let mut items: Vec<Body> = Vec::new();
    let mut i: usize = 0;
    while i < opcodes.len()
        invariant
            i <= opcodes@.len(),
            items@.len() == i,
            forall|j: int| 0 <= j < i ==> (#[trigger] alu_item(opcodes@[j])) == Some(items@[j]),
            forall|j: int| 0 <= j < i ==> (#[trigger] items@[j]).ok(),
        decreases opcodes@.len() - i,
    {
        match classify_alu(opcodes[i]) {
            Some(d) => {
                items.push(d);
            },
            None => {
                proof {
                    assert(alu_item(opcodes@[i as int]) is None);
                }
                return None;
            },
        }
        i = i + 1;
    }
    Some(items)
}

impl DynarecCompiler {
    /// Compiles a block of Thumb data-processing instructions. Every instruction takes effect as
    /// the guest defines it; a flag write that the next instruction overwrites is left out.
    pub fn try_compile_thumb_block(&mut self, opcodes: &[u16]) -> (r: Option<CompiledBlock>)
        requires
            old(self).next_id < u64::MAX,
        ensures
            r is Some == all_alu(opcodes@),
            r is None ==> *final(self) == *old(self),
            r matches Some(b) ==> {
                &&& final(self).numbered(*old(self), b, BlockKind::ThumbBlock)
                &&& b.touches_cpsr
                &&& forall|linked: bool, s: Cpu| #[trigger]
                    b.outcome(linked, s) == (Outcome {
                        cpu: alu_block(opcodes@, opcodes@.len(), s),
                        exit: None,
                    })
            },
    {
        let items: Vec<Body> = match decode_alu_block(opcodes) {
            Some(items) => items,
            None => return None,
        };
        let n: usize = items.len();
        let mut p = Program::new();
        let mut k: usize = 0;
        while k < n
            invariant
                k <= n,
                n == items@.len(),
                p.wf(),
                forall|i: int| 0 <= i < n ==> (#[trigger] items@[i]).ok(),
                forall|linked: bool, s: Cpu| #[trigger]
                    run_nodes(p@, linked, s) == (Outcome {
                        cpu: alu_lean(items@, k as nat, s),
                        exit: None,
                    }),
            decreases n - k,
        {
            let item: Body = items[k];
            let mut skip: bool = false;
            if k + 1 < n {
                let cur: u8 = flag_write_mask(&item);
                skip = cur != FLAGS_NONE && covered(cur, flag_write_mask(&items[k + 1]));
            }
            assert(skip == body_dead(items@, k as int));
            assert(items@[k as int].ok());
            p.push(Node::Do(emit_body(item, skip, 0)));
            k = k + 1;
        }
        proof {
            assert forall|s: Cpu| alu_lean(items@, n as nat, s) == #[trigger] alu_block(
                opcodes@,
                n as nat,
                s,
            ) by {
                lemma_alu_lean(opcodes@, items@, n as nat, s);
            }
        }
        Some(self.finish(BlockKind::ThumbBlock, true, p))
    }
}

/// Whether every opcode is supported by the memory block compiler.
pub open spec fn all_mem(ops: Seq<u16>) -> bool {
    forall|i: int| 0 <= i < ops.len() ==> (#[trigger] mem_item(ops[i])) is Some
}

/// The state after the first `n` opcodes of a memory block. None of these depends on where it
/// stands.
pub open spec fn mem_block(ops: Seq<u16>, n: nat, s: Cpu) -> Cpu
    decreases n,
{
    if n == 0 {
        s
    } else {
        exec_body(mem_item(ops[n - 1])->0, 0, mem_block(ops, (n - 1) as nat, s))
    }
}

/// Whether the fetch after an instruction of a memory block is not sequential: it is a store, a push
/// or a pop.
pub open spec fn breaks_sequence(item: Body) -> bool {
    match item {
        Body::F9(d) => !d.load,
        Body::F11(d) => !d.load,
        Body::F14(_) => true,
        _ => false,
    }
}

/// The state after a whole memory block: a store, a push or a pop at the end makes the next fetch
/// non-sequential.
pub open spec fn mem_block_done(ops: Seq<u16>, s: Cpu) -> Cpu {
    let t = mem_block(ops, ops.len(), s);
    if ops.len() > 0 && breaks_sequence(mem_item(ops.last())->0) {
        t.called(Callee::SetNextFetchNonseq, 0, 0, 0)
    } else {
        t
    }
}

/// Whether an opcode ends a block: `BX` or a branch relative to the program counter.
pub open spec fn branches(op: u16) -> bool {
    thumb_bx(op) is Some || thumb18(op) is Some || thumb16(op) is Some
}

/// The branch relative to the program counter that an opcode stands for.
pub open spec fn pc_branch(op: u16) -> Option<DecodedThumbPcBranch> {
    if thumb18(op) is Some {
        thumb18(op)
    } else {
        thumb16(op)
    }
}

/// Decodes a branch relative to the program counter.
pub fn decode_pc_branch(op: u16) -> (r: Option<DecodedThumbPcBranch>)
    ensures
        r == pc_branch(op),
        r matches Some(d) ==> -1024 <= d.offset_signed < 1024 && d.cond != ArmCond::Invalid,
{
    match DynarecCompiler::decode_thumb_format18(op) {
        Some(d) => Some(d),
        None => DynarecCompiler::decode_thumb_format16(op),
    }
}

/// Whether a block is data processing with an optional branch at the end.
pub open spec fn thumb_branch_block_ok(ops: Seq<u16>) -> bool {
    &&& ops.len() > 0
    &&& forall|i: int|
        0 <= i < ops.len() - 1 ==> !branches(ops[i]) && (#[trigger] alu_item(ops[i])) is Some
    &&& branches(ops.last()) || alu_item(ops.last()) is Some
}

/// A branch relative to the program counter, standing at `pc`.
pub open spec fn exec_pc_branch(d: DecodedThumbPcBranch, pc: u32, s: Cpu) -> Cpu {
    if d.cond.passes(s.cpsr) {
        s.branched(thumb_target(d, pc))
    } else {
        s
    }
}

/// The state after a block of data processing with an optional branch at the end.
pub open spec fn thumb_branch_block(ops: Seq<u16>, entry_pc: u32, s: Cpu) -> Cpu {
    let n = (ops.len() - 1) as nat;
    let t = alu_block(ops, n, s);
    if thumb_bx(ops.last()) is Some {
        exec_bx(thumb_bx(ops.last())->0, t)
    } else if pc_branch(ops.last()) is Some {
        exec_pc_branch(pc_branch(ops.last())->0, word(entry_pc + 2 * n), t)
    } else {
        alu_block(ops, ops.len(), s)
    }
}

/// The target of a Thumb branch at `pc`.
pub fn pc_branch_target(d: DecodedThumbPcBranch, pc: u32) -> (r: u32)
    requires
        -1024 <= d.offset_signed < 1024,
    ensures
        r == thumb_target(d, pc),
{
    offset_by(pc.wrapping_add(4), d.offset_signed * 2) | 1
}

impl DynarecCompiler {
    /// Compiles a block of Thumb data-processing instructions, loads, stores, pushes and pops.
    /// Needs a bus.
    pub fn try_compile_thumb_mem_block(&mut self, opcodes: &[u16]) -> (r: Option<CompiledBlock>)
        requires
            old(self).next_id < u64::MAX,
        ensures
            r is Some == (old(self).bus && all_mem(opcodes@)),
            r is None ==> *final(self) == *old(self),
            r matches Some(b) ==> {
                &&& final(self).numbered(*old(self), b, BlockKind::ThumbMemBlock)
                &&& b.touches_cpsr
                &&& forall|linked: bool, s: Cpu| #[trigger]
                    b.outcome(linked, s) == (Outcome {
                        cpu: mem_block_done(opcodes@, s),
                        exit: None,
                    })
            },
    {
        if !self.bus {
            return None;
        }
        let n: usize = opcodes.len();
        let mut p = Program::new();
        let mut nonseq: bool = false;
        let mut k: usize = 0;
        while k < n
            invariant
                k <= n,
                n == opcodes@.len(),
                p.wf(),
                *self == *old(self),
                nonseq == (k > 0 && breaks_sequence(mem_item(opcodes@[k - 1])->0)),
                forall|i: int| 0 <= i < k ==> (#[trigger] mem_item(opcodes@[i])) is Some,
                forall|linked: bool, s: Cpu| #[trigger]
                    run_nodes(p@, linked, s) == (Outcome {
                        cpu: mem_block(opcodes@, k as nat, s),
                        exit: None,
                    }),
            decreases n - k,
        {
            match classify_mem(opcodes[k]) {
                Some(item) => {
                    nonseq = match item {
                        Body::F9(d) => !d.load,
                        Body::F11(d) => !d.load,
                        Body::F14(_) => true,
                        _ => false,
                    };
                    p.push(Node::Do(emit_body(item, false, 0)));
                },
                None => {
                    proof {
                        assert(mem_item(opcodes@[k as int]) is None);
                    }
                    return None;
                },
            }
            k = k + 1;
        }
        if nonseq {
            p.push(Node::Do(emit_call0(Callee::SetNextFetchNonseq)));
        }
        Some(self.finish(BlockKind::ThumbMemBlock, true, p))
    }

    /// Compiles a block of Thumb data-processing instructions that may end in `BX` or a branch
    /// relative to the program counter. The block returns 1 with the target in `pc_out` if a
    /// branch is taken, and 0 otherwise. `entry_pc` is the address of the first instruction.
    pub fn try_compile_thumb_block_with_branch(&mut self, opcodes: &[u16], entry_pc: u32) -> (r:
        Option<CompiledBlock>)
        requires
            old(self).next_id < u64::MAX,
        ensures
            r is Some == thumb_branch_block_ok(opcodes@),
            r is None ==> *final(self) == *old(self),
            r matches Some(b) ==> {
                &&& final(self).numbered(*old(self), b, BlockKind::ThumbBranchBlock)
                &&& b.touches_cpsr
                &&& forall|linked: bool, s: Cpu| #[trigger]
                    b.outcome(linked, s) == (Outcome {
                        cpu: thumb_branch_block(opcodes@, entry_pc, s),
                        exit: None,
                    })
            },
    {
        let n: usize = opcodes.len();
        if n == 0 {
            return None;
        }
        let mut p = Program::new();
        let mut pc: u32 = entry_pc;
        let mut k: usize = 0;
        proof {
            assert(word(entry_pc + 2 * 0) == entry_pc);
        }
        while k < n - 1
            invariant
                k <= n - 1,
                n == opcodes@.len(),
                n > 0,
                p.wf(),
                pc == word(entry_pc + 2 * k),
                forall|i: int|
                    0 <= i < k ==> !branches(opcodes@[i]) && (
                        #[trigger] alu_item(opcodes@[i])
                    ) is Some,
                forall|linked: bool, s: Cpu| #[trigger]
                    run_nodes(p@, linked, s) == (Outcome {
                        cpu: alu_block(opcodes@, k as nat, s),
                        exit: None,
                    }),
            decreases n - k,
        {
            let op: u16 = opcodes[k];
            proof {
                assert(alu_item(opcodes@[k as int]) == alu_item(op));
            }
            if DynarecCompiler::decode_thumb_bx(op).is_some() || decode_pc_branch(op).is_some() {
                return None;
            }
            match classify_alu(op) {
                Some(item) => {
                    p.push(Node::Do(emit_body(item, false, 0)));
                },
                None => {
                    return None;
                },
            }
            pc = pc.wrapping_add(2);
            k = k + 1;
        }
        let tail: u16 = opcodes[n - 1];
        if let Some(bx) = DynarecCompiler::decode_thumb_bx(tail) {
            p.push(Node::Do(emit_bx(bx)));
        } else if let Some(br) = decode_pc_branch(tail) {
            let (cond, test): (Code, usize) = emit_cond_check(br.cond);
            let body = emit_jump(pc_branch_target(br, pc), None);
            p.push(Node::When { cond, test, body });
        } else if let Some(item) = classify_alu(tail) {
            p.push(Node::Do(emit_body(item, false, 0)));
        } else {
            return None;
        }
        Some(self.finish(BlockKind::ThumbBranchBlock, true, p))
    }

    /// Compiles a single Thumb pop that ends in the program counter. The block returns 1 with the
    /// popped word in `pc_out`. Needs a bus.
    pub fn try_compile_thumb_pop_pc(&mut self, opcode: u16) -> (r: Option<CompiledBlock>)
        requires
            old(self).next_id < u64::MAX,
        ensures
            r is Some == (old(self).bus && thumb_pop_pc(opcode) is Some),
            r is None ==> *final(self) == *old(self),
            r matches Some(b) ==> {
                &&& final(self).numbered(*old(self), b, BlockKind::ThumbPopPc)
                &&& !b.touches_cpsr
                &&& forall|linked: bool, s: Cpu| #[trigger]
                    b.outcome(linked, s) == (Outcome {
                        cpu: exec_pop_pc_alone(thumb_pop_pc(opcode)->0.reg_list, s),
                        exit: None,
                    })
            },
    {
        if !self.bus {
            return None;
        }
        match DynarecCompiler::decode_thumb_pop_pc(opcode) {
            Some(d) => {
                let mut p = Program::new();
                p.push(Node::Do(emit_pop_pc_alone(d.reg_list)));
                Some(self.finish(BlockKind::ThumbPopPc, false, p))
            },
            None => None,
        }
    }
}

} // verus!
