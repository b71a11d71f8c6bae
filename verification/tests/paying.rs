//! Compiled Thumb blocks and the interpreter pay the same.

use rustboyadvance::cpu::Arm7tdmiCore;
use rustboyadvance::dynarec::block::Exit;
use rustboyadvance::dynarec::DynarecCompiler;
use rustboyadvance::interpreter::Interpreter;
use rustboyadvance::memory::{MemoryAccess, MemoryInterface, Request, SimpleMemory};
use rustboyadvance::psr::RegPSR;

/// A flat memory that counts cycles.
struct Timed {
    mem: SimpleMemory,
    cycles: u32,
}

impl Timed {
    fn pay(&mut self, access: MemoryAccess, nonseq: u32, sequential: u32) {
        self.cycles += if access == MemoryAccess::NonSeq { nonseq } else { sequential };
    }
}

impl MemoryInterface for Timed {
    type State = ();
    fn state(&self) {}
    fn reply(_: (), _: Request) -> u32 {
        0
    }
    fn next(_: (), _: Request) {}
    fn load_8(&mut self, addr: u32, access: MemoryAccess) -> u8 {
        self.pay(access, 1009, 1013);
        self.mem.load_8(addr, access)
    }
    fn load_16(&mut self, addr: u32, access: MemoryAccess) -> u16 {
        self.pay(access, 8, 3);
        self.mem.load_16(addr, access)
    }
    fn load_32(&mut self, addr: u32, access: MemoryAccess) -> u32 {
        self.pay(access, 10_007, 20_011);
        self.mem.load_32(addr, access)
    }
    fn store_8(&mut self, addr: u32, value: u8, access: MemoryAccess) {
        self.pay(access, 30_011, 40_009);
        self.mem.store_8(addr, value, access)
    }
    fn store_16(&mut self, addr: u32, value: u16, access: MemoryAccess) {
        self.pay(access, 50_021, 60_013);
        self.mem.store_16(addr, value, access)
    }
    fn store_32(&mut self, addr: u32, value: u32, access: MemoryAccess) {
        self.pay(access, 70_001, 80_021);
        self.mem.store_32(addr, value, access)
    }
    fn idle_cycle(&mut self) {
        self.cycles += 100;
    }
    fn take_block_cache_dirty(&mut self) -> bool {
        false
    }
    fn cached_block_should_abort(&self) -> bool {
        false
    }
    fn pay_thumb_fetch_extra_nonseq(&mut self, _fetch_pc: u32) {
        self.cycles += 5;
    }
}

const ENTRY: u32 = 0x100;

fn core_before(program: &[u16]) -> Arm7tdmiCore<Timed> {
    let mut mem = SimpleMemory::new(1024);
    for a in 0..128 {
        mem.store_32(0x200 + 4 * a, 0x140 + a, MemoryAccess::NonSeq);
    }
    for (k, op) in program.iter().enumerate() {
        mem.store_16(ENTRY + 2 * k as u32, *op, MemoryAccess::NonSeq);
    }
    let mut c = Arm7tdmiCore::new(Timed { mem, cycles: 0 });
    for r in 0..8 {
        c.gpr[r] = 0x200 + 8 * r as u32;
    }
    c.gpr[13] = 0x300;
    c.gpr[14] = 0x141;
    c.branch_exchange(ENTRY | 1);
    c.bus.cycles = 0;
    c
}

/// What a block pays compiled and interpreted.
fn paid(program: &[u16]) -> (u32, u32) {
    let mut compiled = core_before(program);
    let mut compiler = DynarecCompiler::new_with_bus();
    let block = compiler.try_compile_thumb_mem_block_with_branch(program, ENTRY, None).unwrap();
    let mut gpr = compiled.gpr;
    let mut raw = compiled.cpsr.get();
    let mut pc_out = 0;
    let exit = block.call(&mut gpr, &mut raw, &mut pc_out, false, &mut compiled);
    compiled.gpr = gpr;
    compiled.cpsr = RegPSR::new(raw);
    if exit == Exit::Return(1) {
        compiled.branch_exchange(pc_out);
    }
    let mut interpreted = core_before(program);
    for _ in program {
        interpreted.step::<Interpreter>();
    }
    assert_eq!(compiled.next_fetch_access, interpreted.next_fetch_access);
    (compiled.bus.cycles, interpreted.bus.cycles)
}

#[test]
fn blocks_pay_what_the_interpreter_pays() {
    let programs: [&[u16]; 11] = [
        &[0x2005, 0x3001, 0x0048, 0x1840],
        &[0x6801, 0x6042, 0x7803, 0x7084, 0x2504, 0x5941],
        &[0x4802, 0x4903, 0xA103, 0xAA04, 0xB082, 0x9001, 0x9A01],
        &[0x2304, 0x56C1, 0x50C2],
        &[0xB437, 0xBC0E],
        &[0xB580, 0x2001, 0xBD80],
        &[0xC10C, 0xC830, 0xC902],
        &[0x2905, 0xD0FC],
        &[0x2905, 0xD1FC],
        &[0x3001, 0xE7FD],
        &[0x2001, 0x4770],
    ];
    for p in programs {
        let (compiled, interpreted) = paid(p);
        assert_eq!(compiled, interpreted);
    }
    // LDR R0, [PC, #8]; MOV R1, #1: a sequential and a non-sequential fetch, a load and an idle cycle
    assert_eq!(paid(&[0x4802, 0x2101]), (3 + 10_007 + 100 + 8, 3 + 10_007 + 100 + 8));
}

#[test]
fn a_pop_of_the_program_counter_alone_differs_in_one_access() {
    // POP {PC}
    let (compiled, interpreted) = paid(&[0xBD00]);
    assert_eq!(interpreted - compiled, 20_011 - 10_007);
}
