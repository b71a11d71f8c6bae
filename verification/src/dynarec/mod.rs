//! The block recompiler: guest blocks are decoded, lowered to straight-line fragments joined by a
//! few control nodes, and run or handed to a native code generator.

use vstd::prelude::*;
use crate::dynarec::block::{BlockKind, CompiledBlock, Node, Outcome, Program};
use crate::dynarec::ir::{Callee, Code, Cpu};
use crate::dynarec::sem::loaded_into;

pub mod agreement;
pub mod arm;
pub mod block;
pub mod bus;
pub mod clif;
pub mod decode;
pub mod dump;
pub mod emit;
pub mod faithful;
pub mod flags;
pub mod ir;
pub mod keeping;
pub mod leaving;
pub mod lower;
pub mod meaning;
pub mod native;
pub mod parity;
pub mod patterns;
pub mod paying;
pub mod plain;
pub mod sem;
pub mod shape_profile;
pub mod shapes;
pub mod stack;
pub mod tails;
pub mod test_utils;
pub mod thumb;
pub mod trampolines;
pub mod transfers;
pub mod unified;

verus! {

/// Turns guest blocks into compiled blocks.
#[derive(Debug)]
pub struct DynarecCompiler {
    /// Whether compiled code may call out to the bus.
    pub bus: bool,
    /// The number of blocks compiled so far.
    pub next_id: u64,
}

impl DynarecCompiler {
    /// Whether `self` is `before` after compiling the block `b` of the given kind.
    pub open spec fn numbered(
        self,
        before: DynarecCompiler,
        b: CompiledBlock,
        kind: BlockKind,
    ) -> bool {
        &&& b.wf()
        &&& b.kind == kind
        &&& b.id == before.next_id + 1
        &&& self.bus == before.bus
        &&& self.next_id == before.next_id + 1
    }

    /// Numbers a finished block.
    fn finish(&mut self, kind: BlockKind, touches_cpsr: bool, program: Program) -> (b:
        CompiledBlock)
        requires
            old(self).next_id < u64::MAX,
            program.wf(),
        ensures
            final(self).numbered(*old(self), b, kind),
            b.touches_cpsr == touches_cpsr,
            b.program == program,
    {
        self.next_id = self.next_id + 1;
        CompiledBlock { kind, id: self.next_id, touches_cpsr, program }
    }

    /// A compiler for blocks that do not touch memory.
    pub fn new() -> (c: DynarecCompiler)
        ensures
            !c.bus,
            c.next_id == 0,
    {
        DynarecCompiler { bus: false, next_id: 0 }
    }

    /// A compiler for all supported blocks; compiled code calls out to a bus.
    pub fn new_with_bus() -> (c: DynarecCompiler)
        ensures
            c.bus,
            c.next_id == 0,
    {
        DynarecCompiler { bus: true, next_id: 0 }
    }

    /// Whether this compiler accepts blocks that touch memory.
    pub fn has_bus(&self) -> (r: bool)
        ensures
            r == self.bus,
    {
        self.bus
    }

    /// Compiles a copy of R1 into R0.
    pub fn compile_mov_r0_r1_stub(&mut self) -> (b: CompiledBlock)
        requires
            old(self).next_id < u64::MAX,
        ensures
            final(self).numbered(*old(self), b, BlockKind::MovStub),
            !b.touches_cpsr,
            forall|linked: bool, s: Cpu| #[trigger]
                b.outcome(linked, s) == (Outcome { cpu: s.set(0, s.reg(1)), exit: None }),
    {
        let mut code = Code::new();
        let r1: usize = code.gpr(1);
        code.set_gpr(0, r1);
        let mut p = Program::new();
        p.push(Node::Do(code));
        self.finish(BlockKind::MovStub, false, p)
    }

    /// Compiles one word load from the block's extra argument into R0.
    pub fn compile_bus_load_32_stub(&mut self) -> (b: CompiledBlock)
        requires
            old(self).bus,
            old(self).next_id < u64::MAX,
        ensures
            final(self).numbered(*old(self), b, BlockKind::BusStub),
            !b.touches_cpsr,
            forall|linked: bool, s: Cpu| #[trigger]
                b.outcome(linked, s) == (Outcome {
                    cpu: loaded_into(0, Callee::Load32, s.arg, s),
                    exit: None,
                }),
    {
        let mut code = Code::new();
        let addr: usize = code.arg();
        let v: usize = code.call1(Callee::Load32, addr);
        code.set_gpr(0, v);
        let mut p = Program::new();
        p.push(Node::Do(code));
        self.finish(BlockKind::BusStub, false, p)
    }
}

impl Default for DynarecCompiler {
    fn default() -> (c: DynarecCompiler)
        ensures
            !c.bus,
            c.next_id == 0,
    {
        DynarecCompiler::new()
    }
}

} // verus!
