//! Runs ARM blocks in the interpreter and as compiled code and compares the outcomes.

use vstd::prelude::*;
use crate::cache::CacheState;
use crate::cpu::{AotHook, Arm7tdmiCore, BanksState, CoreState, DebugState};
use crate::dynarec::DynarecCompiler;
use crate::dynarec::agreement::{
    arm_interpreted, law_arm_block_agrees, nzcv, plain_dp, shifter_sets_carry,
};
use crate::dynarec::arm::{all_dp, dp_block};
use crate::dynarec::block::entered;
use crate::dynarec::bus::NoBus;
use crate::dynarec::ir::Cpu;
use crate::fastpath::{Handlers, arm_slot};
use crate::interpreter::Interpreter;
use crate::memory::{MemoryAccess, SimpleMemory};
use crate::psr::RegPSR;

verus! {

/// The little-endian bytes of the first `n` opcodes.
pub open spec fn program_bytes(ops: Seq<u32>, n: nat) -> Seq<u8>
    decreases n,
{
    if n == 0 {
        Seq::empty()
    } else {
        let op = ops[n - 1];
        program_bytes(ops, (n - 1) as nat) + seq![
            (op % 0x100) as u8,
            (op / 0x100 % 0x100) as u8,
            (op / 0x1_0000 % 0x100) as u8,
            (op / 0x100_0000) as u8,
        ]
    }
}

/// Lays out opcodes as little-endian bytes.
fn assemble(opcodes: &[u32]) -> (program: Vec<u8>)
    ensures
        program@ == program_bytes(opcodes@, opcodes@.len()),
        program@.len() == 4 * opcodes@.len(),
{
    let mut program: Vec<u8> = Vec::new();
    let mut i: usize = 0;
    while i < opcodes.len()
        invariant
            i <= opcodes@.len(),
            program@ == program_bytes(opcodes@, i as nat),
            program@.len() == 4 * i,
        decreases opcodes@.len() - i,
    {
        let op: u32 = opcodes[i];
        let ghost before = program@;
        program.push((op % 0x100) as u8);
        program.push((op / 0x100 % 0x100) as u8);
        program.push((op / 0x1_0000 % 0x100) as u8);
        program.push((op / 0x100_0000) as u8);
        proof {
            assert(program@ =~= before + seq![
                (op % 0x100) as u8,
                (op / 0x100 % 0x100) as u8,
                (op / 0x1_0000 % 0x100) as u8,
                (op / 0x100_0000) as u8,
            ]);
        }
        i = i + 1;
    }
    program
}

/// The memory on which a block is interpreted: 1024 bytes that begin with the block.
pub open spec fn bench_memory(ops: Seq<u32>) -> Seq<u8> {
    let program = program_bytes(ops, ops.len());
    program + Seq::new((1024 - program.len()) as nat, |i: int| 0u8)
}

/// The core on which a block is interpreted.
pub open spec fn bench_core(ops: Seq<u32>, gpr: Seq<u32>, cpsr: RegPSR) -> CoreState<SimpleMemory> {
    CoreState {
        pc: 0,
        bus: bench_memory(ops),
        next_fetch_access: MemoryAccess::NonSeq,
        pipeline: seq![0u32, 0u32],
        gpr,
        cpsr,
        spsr: RegPSR { raw: 0 },
        banks: BanksState::zero(),
        breakpoints: Seq::empty(),
        dbg: DebugState::quiet(),
        cache: CacheState::empty(),
        aot: AotHook::absent(),
    }
}

/// The state in which a compiled block starts on a bus that is never used.
pub open spec fn bench_cpu(gpr: Seq<u32>, cpsr: u32) -> Cpu {
    entered::<NoBus>(gpr, cpsr, 0, 0, ())
}

/// Runs the handlers of a block on a fresh core and returns its registers and status word.
fn interpret(opcodes: &[u32], initial_gpr: [u32; 15], cpsr: RegPSR) -> (r: ([u32; 15], u32))
    requires
        4 * opcodes@.len() <= 1024,
    ensures
        ({
            let end = arm_interpreted(
                bench_core(opcodes@, initial_gpr@, cpsr),
                opcodes@,
                opcodes@.len(),
            );
            r.0@ == end.gpr && r.1 == end.cpsr.raw
        }),
{
    let program = assemble(opcodes);
    let mut mem = SimpleMemory::new(1024);
    mem.load_program(program.as_slice());
    proof {
        assert(mem.data@ =~= bench_memory(opcodes@));
    }
    let mut cpu: Arm7tdmiCore<SimpleMemory> = Arm7tdmiCore::new(mem);
    cpu.gpr = initial_gpr;
    cpu.cpsr = cpsr;
    let ghost start = bench_core(opcodes@, initial_gpr@, cpsr);
    let mut i: usize = 0;
    while i < opcodes.len()
        invariant
            i <= opcodes@.len(),
            cpu@ == arm_interpreted(start, opcodes@, i as nat),
        decreases opcodes@.len() - i,
    {
        let op: u32 = opcodes[i];
        <Interpreter as Handlers<SimpleMemory>>::exec_arm(arm_slot(op), &mut cpu, op);
        i = i + 1;
    }
    (cpu.gpr, cpu.cpsr.get())
}

/// Compiles and runs a block and returns the registers and status word.
fn recompile(opcodes: &[u32], initial_gpr: [u32; 15], cpsr: u32) -> (r: ([u32; 15], u32))
    requires
        all_dp(opcodes@),
    ensures
        ({
            let end = dp_block(opcodes@, opcodes@.len(), bench_cpu(initial_gpr@, cpsr));
            r.0@ == end.gpr && r.1 == end.cpsr
        }),
{
    let mut compiler = DynarecCompiler::new();
    let mut gpr: [u32; 15] = initial_gpr;
    let mut word: u32 = cpsr;
    let mut pc_out: u32 = 0;
    let mut bus = NoBus;
    if let Some(block) = compiler.try_compile_imm_block(opcodes) {
        block.call(&mut gpr, &mut word, &mut pc_out, false, &mut bus);
    }
    (gpr, word)
}

/// Whether two register files are equal.
fn same_registers(a: &[u32; 15], b: &[u32; 15]) -> (r: bool)
    ensures
        r == (a@ == b@),
{
    let mut i: usize = 0;
    while i < 15
        invariant
            i <= 15,
            forall|j: int| 0 <= j < i ==> a@[j] == b@[j],
        decreases 15 - i,
    {
        if a[i] != b[i] {
            return false;
        }
        i = i + 1;
    }
    assert(a@ =~= b@);
    true
}

/// Interprets a block and runs it as compiled code, and tells whether both leave the same
/// registers. They do for every unconditional block.
pub fn differential(opcodes: &[u32], initial_gpr: [u32; 15]) -> (agree: bool)
    requires
        all_dp(opcodes@),
        4 * opcodes@.len() <= 1024,
    ensures
        agree == (arm_interpreted(
            bench_core(opcodes@, initial_gpr@, RegPSR::of(0xd3)),
            opcodes@,
            opcodes@.len(),
        ).gpr == dp_block(opcodes@, opcodes@.len(), bench_cpu(initial_gpr@, 0)).gpr),
        (forall|i: int| 0 <= i < opcodes@.len() ==> #[trigger] plain_dp(opcodes@[i])) ==> agree,
{
    let (interp_gpr, _): ([u32; 15], u32) = interpret(opcodes, initial_gpr, RegPSR::new(0xd3));
    let (dyn_gpr, _): ([u32; 15], u32) = recompile(opcodes, initial_gpr, 0);
    proof {
        if forall|i: int| 0 <= i < opcodes@.len() ==> #[trigger] plain_dp(opcodes@[i]) {
            law_arm_block_agrees(
                bench_core(opcodes@, initial_gpr@, RegPSR::of(0xd3)),
                opcodes@,
                opcodes@.len(),
                bench_cpu(initial_gpr@, 0),
            );
        }
    }
    same_registers(&dyn_gpr, &interp_gpr)
}

/// Interprets a block and runs it as compiled code, and tells whether both leave the same
/// registers and condition flags. They do for every unconditional block in which no carry comes
/// from a rotated immediate.
pub fn differential_with_flags(opcodes: &[u32], initial_gpr: [u32; 15], initial_cpsr: u32) -> (agree:
    bool)
    requires
        all_dp(opcodes@),
        4 * opcodes@.len() <= 1024,
    ensures
        ({
            let interpreted = arm_interpreted(
                bench_core(opcodes@, initial_gpr@, RegPSR::of(initial_cpsr)),
                opcodes@,
                opcodes@.len(),
            );
            let compiled = dp_block(
                opcodes@,
                opcodes@.len(),
                bench_cpu(initial_gpr@, initial_cpsr),
            );
            agree == (interpreted.gpr == compiled.gpr && nzcv(interpreted.cpsr.raw) == nzcv(
                compiled.cpsr,
            ))
        }),
        (forall|i: int|
            0 <= i < opcodes@.len() ==> #[trigger] plain_dp(opcodes@[i]) && !shifter_sets_carry(
                opcodes@[i],
            )) ==> agree,
{
    let (interp_gpr, interp_cpsr): ([u32; 15], u32) = interpret(
        opcodes,
        initial_gpr,
        RegPSR::new(initial_cpsr),
    );
    let (dyn_gpr, dyn_cpsr): ([u32; 15], u32) = recompile(opcodes, initial_gpr, initial_cpsr);
    proof {
        if forall|i: int|
            0 <= i < opcodes@.len() ==> #[trigger] plain_dp(opcodes@[i]) && !shifter_sets_carry(
                opcodes@[i],
            ) {
            assert forall|i: int| 0 <= i < opcodes@.len() implies !#[trigger] shifter_sets_carry(
                opcodes@[i],
            ) by {
                assert(plain_dp(opcodes@[i]));
            }
            assert((initial_cpsr & 0xf000_00ff) & 0xf000_0000 == initial_cpsr & 0xf000_0000)
                by (bit_vector);
            law_arm_block_agrees(
                bench_core(opcodes@, initial_gpr@, RegPSR::of(initial_cpsr)),
                opcodes@,
                opcodes@.len(),
                bench_cpu(initial_gpr@, initial_cpsr),
            );
        }
    }
    same_registers(&dyn_gpr, &interp_gpr) && (dyn_cpsr & 0xf000_0000) == (interp_cpsr
        & 0xf000_0000)
}

} // verus!
