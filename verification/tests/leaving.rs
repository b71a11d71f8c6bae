//! Blocks that are left in the middle, and branches that are not taken.

use rustboyadvance::cpu::Arm7tdmiCore;
use rustboyadvance::dynarec::block::Exit;
use rustboyadvance::dynarec::bus::Bus;
use rustboyadvance::dynarec::ir::BusCall;
use rustboyadvance::dynarec::DynarecCompiler;
use rustboyadvance::interpreter::Interpreter;
use rustboyadvance::memory::{MemoryAccess, MemoryInterface, Request, SimpleMemory};
use rustboyadvance::psr::RegPSR;

#[derive(Debug, PartialEq)]
enum Seen {
    Check,
    Abort(u32, u32, u32),
    Nonseq,
    Pay(u32),
}

/// A bus that answers every abort check alike and notes what matters when a block is left.
struct Watched {
    answer: u32,
    seen: Vec<Seen>,
}

impl Bus for Watched {
    type State = ();
    fn state(&self) {}
    fn reply(_: (), _: BusCall) -> u32 {
        0
    }
    fn next(_: (), _: BusCall) {}
    fn load_32(&mut self, _addr: u32) -> u32 {
        0
    }
    fn store_32(&mut self, _addr: u32, _value: u32) {}
    fn load_8(&mut self, _addr: u32) -> u32 {
        0
    }
    fn store_8(&mut self, _addr: u32, _value: u32) {}
    fn load_32_seq(&mut self, _addr: u32) -> u32 {
        0
    }
    fn store_32_seq(&mut self, _addr: u32, _value: u32) {}
    fn store_16(&mut self, _addr: u32, _value: u32) {}
    fn load_with_idle_16(&mut self, _addr: u32) -> u32 {
        0
    }
    fn load_with_idle_32(&mut self, _addr: u32) -> u32 {
        0
    }
    fn load_with_idle_8(&mut self, _addr: u32) -> u32 {
        0
    }
    fn set_next_fetch_nonseq(&mut self) {
        self.seen.push(Seen::Nonseq);
    }
    fn pay_thumb_fetch_extra_nonseq(&mut self, pc: u32) {
        self.seen.push(Seen::Pay(pc));
    }
    fn idle_cycle(&mut self) {}
    fn thumb_fetch_n(&mut self, _pc: u32, _count: u32) {}
    fn chain_abort_check(&mut self) -> u32 {
        self.seen.push(Seen::Check);
        self.answer
    }
    fn abort_mid_block(&mut self, pc: u32, p0: u32, p1: u32) {
        self.seen.push(Seen::Abort(pc, p0, p1));
    }
}

#[test]
fn flags_are_written_before_a_block_is_left() {
    // MOV R0, #0; MOV R1, #1; BX LR
    let program = [0x2000, 0x2101, 0x4770];
    let mut compiler = DynarecCompiler::new_with_bus();
    let block =
        compiler.try_compile_thumb_mem_block_with_branch(&program, 0x0800_0000, None).unwrap();
    let mut bus = Watched { answer: 1, seen: vec![] };
    let mut gpr = [7u32; 15];
    let mut cpsr = 0;
    let mut pc_out = 9;
    let exit = block.call(&mut gpr, &mut cpsr, &mut pc_out, false, &mut bus);
    assert_eq!(exit, Exit::Return(2));
    assert_eq!(bus.seen, vec![Seen::Check, Seen::Abort(0x0800_0006, 0x2101, 0x4770)]);
    assert_eq!((gpr[0], gpr[1], pc_out, cpsr), (0, 7, 9, 0x4000_0000));
    // Nobody asks: the whole block runs, and the second write is what is left.
    let mut calm = Watched { answer: 0, seen: vec![] };
    let mut gpr = [7u32; 15];
    cpsr = 0xF000_0000;
    let exit = block.call(&mut gpr, &mut cpsr, &mut pc_out, false, &mut calm);
    assert_eq!(exit, Exit::Return(1));
    assert_eq!(calm.seen, vec![Seen::Check]);
    assert_eq!((gpr[0], gpr[1], pc_out, cpsr), (0, 1, 7, 0x3000_0000));
}

#[test]
fn the_next_access_is_restored_too() {
    // STR R0, [R0]; MOV R1, #1; BX LR
    let program = [0x6000, 0x2101, 0x4770];
    let mut compiler = DynarecCompiler::new_with_bus();
    let block =
        compiler.try_compile_thumb_mem_block_with_branch(&program, 0x0800_0000, None).unwrap();
    let mut bus = Watched { answer: 1, seen: vec![] };
    let exit = block.call(&mut [0; 15], &mut 0, &mut 0, false, &mut bus);
    assert_eq!(exit, Exit::Return(2));
    assert_eq!(
        bus.seen,
        vec![Seen::Check, Seen::Abort(0x0800_0006, 0x2101, 0x4770), Seen::Nonseq]
    );
}

#[test]
fn a_branch_that_is_not_taken_does_not_chain() {
    // BEQ +4
    let mut compiler = DynarecCompiler::new_with_bus();
    let block =
        compiler.try_compile_thumb_mem_block_with_branch(&[0xD002], 0x0800_4000, Some(5)).unwrap();
    let mut bus = Watched { answer: 0, seen: vec![] };
    let mut cpsr = 0;
    let mut pc_out = 0xC0FF_EE00;
    let exit = block.call(&mut [0; 15], &mut cpsr, &mut pc_out, true, &mut bus);
    assert_eq!(exit, Exit::Return(0));
    assert_eq!((pc_out, cpsr), (0xC0FF_EE00, 0));
    assert_eq!(bus.seen, vec![]);
    // A block without a branch instruction does.
    let plain =
        compiler.try_compile_thumb_mem_block_with_branch(&[0x2001], 0x0800_4000, Some(5)).unwrap();
    let exit = plain.call(&mut [0; 15], &mut cpsr, &mut pc_out, true, &mut bus);
    assert_eq!(exit, Exit::Chain(5));
    assert_eq!(bus.seen, vec![Seen::Check]);
}

#[test]
fn a_literal_load_breaks_the_sequence() {
    // LDR R0, [PC, #8] at the end of a block, and before a MOV
    let mut compiler = DynarecCompiler::new_with_bus();
    let mut bus = Watched { answer: 0, seen: vec![] };
    let last =
        compiler.try_compile_thumb_mem_block_with_branch(&[0x4802], 0x0800_0000, None).unwrap();
    last.call(&mut [0; 15], &mut 0, &mut 0, false, &mut bus);
    assert_eq!(bus.seen, vec![Seen::Nonseq]);
    bus.seen.clear();
    let first = compiler
        .try_compile_thumb_mem_block_with_branch(&[0x4802, 0x2001], 0x0800_0000, None)
        .unwrap();
    first.call(&mut [0; 15], &mut 0, &mut 0, false, &mut bus);
    assert_eq!(bus.seen, vec![Seen::Pay(0x0800_0000)]);
}

#[test]
fn thumb_blocks_with_memory_leave_the_next_access() {
    let mut compiler = DynarecCompiler::new_with_bus();
    // STR, STR to the stack, PUSH and POP at the end; not a load, not a store before a MOV
    let cases: [(&[u16], bool); 7] = [
        (&[0x6001], true),
        (&[0x9001], true),
        (&[0xB401], true),
        (&[0xBC01], true),
        (&[0x6801], false),
        (&[0x6001, 0x2001], false),
        (&[0xBC01, 0x2001], false),
    ];
    for (program, nonseq) in cases {
        let mut bus = Watched { answer: 0, seen: vec![] };
        let block = compiler.try_compile_thumb_mem_block(program).unwrap();
        block.call(&mut [0; 15], &mut 0, &mut 0, false, &mut bus);
        assert_eq!(bus.seen, if nonseq { vec![Seen::Nonseq] } else { vec![] });
    }
}

#[test]
fn arm_blocks_that_end_in_a_store_leave_the_next_access() {
    let mut compiler = DynarecCompiler::new_with_bus();
    // STR, STRB, STREQ that is passed over, LDR, STR before a MOV
    let cases: [(&[u32], bool); 5] = [
        (&[0xE580_1000], true),
        (&[0xE5C0_1000], true),
        (&[0x0580_1000], true),
        (&[0xE590_1000], false),
        (&[0xE580_1000, 0xE3A0_0007], false),
    ];
    for (program, nonseq) in cases {
        let mut bus = Watched { answer: 0, seen: vec![] };
        let block = compiler.try_compile_mem_block(program).unwrap();
        block.call(&mut [0; 15], &mut 0, &mut 0, false, &mut bus);
        assert_eq!(bus.seen, if nonseq { vec![Seen::Nonseq] } else { vec![] });
    }
}

/// A flat memory that asks for control once a number of checks were made.
struct Asking {
    mem: SimpleMemory,
    calm: std::cell::Cell<u32>,
}

impl MemoryInterface for Asking {
    type State = ();
    fn state(&self) {}
    fn reply(_: (), _: Request) -> u32 {
        0
    }
    fn next(_: (), _: Request) {}
    fn load_8(&mut self, addr: u32, access: MemoryAccess) -> u8 {
        self.mem.load_8(addr, access)
    }
    fn load_16(&mut self, addr: u32, access: MemoryAccess) -> u16 {
        self.mem.load_16(addr, access)
    }
    fn load_32(&mut self, addr: u32, access: MemoryAccess) -> u32 {
        self.mem.load_32(addr, access)
    }
    fn store_8(&mut self, addr: u32, value: u8, access: MemoryAccess) {
        self.mem.store_8(addr, value, access)
    }
    fn store_16(&mut self, addr: u32, value: u16, access: MemoryAccess) {
        self.mem.store_16(addr, value, access)
    }
    fn store_32(&mut self, addr: u32, value: u32, access: MemoryAccess) {
        self.mem.store_32(addr, value, access)
    }
    fn idle_cycle(&mut self) {}
    fn take_block_cache_dirty(&mut self) -> bool {
        false
    }
    fn cached_block_should_abort(&self) -> bool {
        let n = self.calm.get();
        self.calm.set(n.saturating_sub(1));
        n == 0
    }
    fn pay_thumb_fetch_extra_nonseq(&mut self, _fetch_pc: u32) {}
}

const ENTRY: u32 = 0x100;

fn core_before(program: &[u16], calm: u32) -> Arm7tdmiCore<Asking> {
    let mut mem = SimpleMemory::new(1024);
    for a in 0..128 {
        mem.store_32(0x200 + 4 * a, 0x8765_4321u32.wrapping_mul(a + 1), MemoryAccess::NonSeq);
    }
    for (k, op) in program.iter().enumerate() {
        mem.store_16(ENTRY + 2 * k as u32, *op, MemoryAccess::NonSeq);
    }
    let mut c = Arm7tdmiCore::new(Asking { mem, calm: std::cell::Cell::new(calm) });
    for r in 0..8 {
        c.gpr[r] = 0x200 + 8 * r as u32;
    }
    c.gpr[13] = 0x300;
    c.gpr[14] = 0x141;
    c.branch_exchange(ENTRY | 1);
    c
}

#[test]
fn a_block_is_left_where_the_interpreter_stands() {
    let programs: [&[u16]; 6] = [
        &[0x2000, 0x2101, 0x3102, 0x3801, 0x4770],
        &[0x6801, 0x6042, 0x7083, 0x7804, 0x2504, 0x5941, 0x4770],
        &[0x4802, 0xA103, 0xAA04, 0xB082, 0x9001, 0x9A01, 0x2001],
        &[0xB437, 0x2001, 0xBC0E, 0x2002, 0x3001, 0xE7FD],
        &[0xC10C, 0x2304, 0xC830, 0x2304, 0x56C1, 0x2001, 0x2002],
        &[0x4298, 0x4051, 0x4008, 0x0048, 0x4680, 0x4540, 0xD0FC],
    ];
    for p in programs {
        let places = (p.len() as u32 - 1) / 2;
        for place in 0..places {
            let mut compiled = core_before(p, place);
            let mut compiler = DynarecCompiler::new_with_bus();
            let block =
                compiler.try_compile_thumb_mem_block_with_branch(p, ENTRY, Some(1)).unwrap();
            let mut gpr = compiled.gpr;
            let mut raw = compiled.cpsr.get();
            let mut pc_out = 3;
            let exit = block.call(&mut gpr, &mut raw, &mut pc_out, true, &mut compiled);
            compiled.gpr = gpr;
            compiled.cpsr = RegPSR::new(raw);
            assert_eq!(exit, Exit::Return(2));
            assert_eq!(pc_out, 3);

            let mut interpreted = core_before(p, 0);
            for _ in 0..2 * place + 1 {
                interpreted.step::<Interpreter>();
            }
            assert_eq!(compiled.gpr, interpreted.gpr);
            assert_eq!(compiled.cpsr, interpreted.cpsr);
            assert_eq!(compiled.pc, interpreted.pc);
            assert_eq!(compiled.pipeline, interpreted.pipeline);
            assert_eq!(compiled.next_fetch_access, interpreted.next_fetch_access);
            assert_eq!(compiled.bus.mem.data, interpreted.bus.mem.data);
        }
    }
}

#[test]
fn a_pop_gives_back_what_a_push_stored() {
    for list in [0x01u16, 0x80, 0x5A, 0xFF] {
        let program = [0xB400 | list, 0xBC00 | list];
        let mut c = core_before(&program, 0);
        let gpr = c.gpr;
        c.step::<Interpreter>();
        assert_eq!(c.gpr[13], gpr[13] - 4 * list.count_ones());
        for r in 0..8 {
            c.gpr[r] = 77;
        }
        c.step::<Interpreter>();
        assert_eq!(c.gpr[13], gpr[13]);
        for r in 0..8 {
            assert_eq!(c.gpr[r], if list >> r & 1 != 0 { gpr[r] } else { 77 });
        }
    }
}
