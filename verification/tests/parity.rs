//! Compiled Thumb blocks against the interpreter on a flat memory.

use rustboyadvance::cpu::Arm7tdmiCore;
use rustboyadvance::dynarec::block::Exit;
use rustboyadvance::dynarec::bus::NoBus;
use rustboyadvance::dynarec::DynarecCompiler;
use rustboyadvance::interpreter::Interpreter;
use rustboyadvance::memory::{MemoryAccess, MemoryInterface, SimpleMemory};
use rustboyadvance::psr::RegPSR;

const ENTRY: u32 = 0x100;

/// A Thumb core before a program, with registers that point into memory.
fn core_before(program: &[u16]) -> Arm7tdmiCore<SimpleMemory> {
    let mut m = SimpleMemory::new(1024);
    for a in 0..128 {
        m.store_32(0x200 + 4 * a, 0x8765_4321u32.wrapping_mul(a + 1), MemoryAccess::NonSeq);
    }
    for (k, op) in program.iter().enumerate() {
        m.store_16(ENTRY + 2 * k as u32, *op, MemoryAccess::NonSeq);
    }
    let mut c = Arm7tdmiCore::new(m);
    for r in 0..8 {
        c.gpr[r] = 0x200 + 8 * r as u32;
    }
    c.gpr[8] = 0x8000_0001;
    c.gpr[13] = 0x300;
    c.gpr[14] = 0x141;
    c.branch_exchange(ENTRY | 1);
    c
}

/// Runs a block compiled and interpreted and compares what is left.
fn agrees(program: &[u16], flags: u32) {
    let mut compiled = core_before(program);
    let mut interpreted = core_before(program);
    let cpsr = RegPSR::new(compiled.cpsr.get() | flags);
    compiled.cpsr = cpsr;
    interpreted.cpsr = cpsr;

    let mut compiler = DynarecCompiler::new_with_bus();
    let block = compiler.try_compile_thumb_mem_block_with_branch(program, ENTRY, None).unwrap();
    let mut gpr = compiled.gpr;
    let mut raw = compiled.cpsr.get();
    let mut pc_out = 0;
    let exit = block.call(&mut gpr, &mut raw, &mut pc_out, false, &mut compiled);
    compiled.gpr = gpr;
    compiled.cpsr = RegPSR::new(raw);
    match exit {
        Exit::Return(0) => {},
        Exit::Return(1) => {
            compiled.branch_exchange(pc_out);
        },
        _ => unreachable!(),
    }

    for _ in program {
        interpreted.step::<Interpreter>();
    }
    assert_eq!(compiled.gpr, interpreted.gpr);
    assert_eq!(compiled.cpsr, interpreted.cpsr);
    assert_eq!(compiled.pc, interpreted.pc);
    assert_eq!(compiled.bus.data, interpreted.bus.data);
    assert_eq!(compiled.pipeline, interpreted.pipeline);
    assert_eq!(compiled.next_fetch_access, interpreted.next_fetch_access);
}

#[test]
fn blocks_agree_with_the_interpreter() {
    let programs: [&[u16]; 16] = [
        &[0x4802],
        &[0x4802, 0x4903],
        &[0x2201, 0x6801],
        &[0x2905, 0xDCFC],
        &[0x2005, 0x3001, 0x0048, 0x1840],
        &[0x4008, 0x4051, 0x4308, 0x4391, 0x43CA, 0x4211, 0x4288, 0x42D1],
        &[0x4680, 0x4488, 0x4540],
        &[0x6801, 0x6042, 0x7803, 0x7084, 0x2504, 0x5941],
        &[0x4802, 0xA103, 0xAA04, 0xB082, 0x9001, 0x9A01],
        &[0x2304, 0x56C1, 0x50C2],
        &[0xB437, 0xBC0E],
        &[0xB580, 0x2001, 0xBD80],
        &[0xC10C, 0xC830, 0xC902],
        &[0x2905, 0xD0FC],
        &[0x3001, 0xE7FD],
        &[0x2001, 0x4770],
    ];
    for p in programs {
        for flags in [0, 0x4000_0000, 0x2000_0000, 0x9000_0000, 0xF000_0000] {
            agrees(p, flags);
        }
    }
}

#[test]
fn a_push_stores_the_same_words() {
    // PUSH {R0, R2, R7, LR}
    agrees(&[0xB585], 0);
    // PUSH {R0-R7}; POP {R0-R7}
    agrees(&[0xB4FF, 0xBCFF], 0);
}

#[test]
fn conditional_arm_blocks_agree() {
    // CMP R0, #5; MOVEQ R1, #7; ADDNE R1, R1, #3; SUBS R2, R1, #7; MVNHI R3, #0
    let program = [0xE350_0005u32, 0x03A0_1007, 0x1281_1003, 0xE251_2007, 0x83E0_3000];
    for r0 in [0, 5, 9] {
        let mut m = SimpleMemory::new(64);
        for (k, op) in program.iter().enumerate() {
            m.store_32(4 * k as u32, *op, MemoryAccess::NonSeq);
        }
        let mut c = Arm7tdmiCore::new(m);
        c.gpr[0] = r0;
        c.gpr[1] = 40;
        c.branch_exchange(0);
        let mut compiler = DynarecCompiler::new();
        let block = compiler.try_compile_imm_block(&program).unwrap();
        let mut gpr = c.gpr;
        let mut cpsr = c.cpsr.get();
        block.call(&mut gpr, &mut cpsr, &mut 0, false, &mut NoBus);
        for _ in program {
            c.step::<Interpreter>();
        }
        assert_eq!(c.gpr, gpr);
        assert_eq!(c.cpsr.get() >> 28, cpsr >> 28);
    }
}
