//! Single steps, cached blocks and blocks that were compiled ahead of time.

use rustboyadvance::cache::{is_rom_address, BlockCache, BlockKey, DecodedInstr};
use rustboyadvance::cpu::{Arm7tdmiCore, CoreState, CpuAction, DebuggerState, ExecutedInstr};
use rustboyadvance::dispatch::{aot_lookup_noop, AotBlocks, NoAot};
use rustboyadvance::dynarec::bus::NoBus;
use rustboyadvance::dynarec::DynarecCompiler;
use rustboyadvance::fastpath::{arm_slot, thumb_slot};
use rustboyadvance::interpreter::{Interpreter, Remaining};
use rustboyadvance::memory::{MemoryAccess, MemoryInterface, Request, SimpleMemory};
use rustboyadvance::psr::CpuState;

/// A memory that reports a write or asks for control when it is told to, and counts fetches.
struct Bus {
    mem: SimpleMemory,
    dirty: bool,
    abort: bool,
    fetches: u32,
}

impl MemoryInterface for Bus {
    type State = ();
    fn state(&self) {}
    fn reply(_: (), _: Request) -> u32 {
        0
    }
    fn next(_: (), _: Request) {}
    fn load_8(&mut self, addr: u32, access: MemoryAccess) -> u8 {
        self.mem.load_8(addr & 0xFFFF, access)
    }
    fn load_16(&mut self, addr: u32, access: MemoryAccess) -> u16 {
        self.fetches += 1;
        self.mem.load_16(addr & 0xFFFF, access)
    }
    fn load_32(&mut self, addr: u32, access: MemoryAccess) -> u32 {
        self.fetches += 1;
        self.mem.load_32(addr & 0xFFFF, access)
    }
    fn store_8(&mut self, addr: u32, value: u8, access: MemoryAccess) {
        self.mem.store_8(addr & 0xFFFF, value, access)
    }
    fn store_16(&mut self, addr: u32, value: u16, access: MemoryAccess) {
        self.mem.store_16(addr & 0xFFFF, value, access)
    }
    fn store_32(&mut self, addr: u32, value: u32, access: MemoryAccess) {
        self.mem.store_32(addr & 0xFFFF, value, access)
    }
    fn idle_cycle(&mut self) {}
    fn take_block_cache_dirty(&mut self) -> bool {
        let d = self.dirty;
        self.dirty = false;
        d
    }
    fn cached_block_should_abort(&self) -> bool {
        self.abort
    }
    fn pay_thumb_fetch_extra_nonseq(&mut self, _fetch_pc: u32) {}
}

/// A Thumb core at `pc` with a program there.
fn thumb_core(pc: u32, program: &[u16]) -> Arm7tdmiCore<Bus> {
    let mut mem = SimpleMemory::new(1024);
    for (k, op) in program.iter().enumerate() {
        mem.store_16((pc & 0xFFFF) + 2 * k as u32, *op, MemoryAccess::NonSeq);
    }
    let mut c = Arm7tdmiCore::new(Bus { mem, dirty: false, abort: false, fetches: 0 });
    c.branch_exchange(pc | 1);
    c.bus.fetches = 0;
    c
}

/// R0 := 5, R0 += 1, and back to the first instruction.
const LOOP: [u16; 3] = [0x2005, 0x3001, 0xE7FC];

#[test]
fn single_steps_run_the_pipeline() {
    let mut c = thumb_core(0x100, &LOOP);
    c.step::<Interpreter>();
    assert_eq!((c.gpr[0], c.pc), (5, 0x106));
    c.step::<Interpreter>();
    assert_eq!((c.gpr[0], c.pc), (6, 0x108));
    c.step::<Interpreter>();
    assert_eq!(c.pc, 0x104);
    assert_eq!(c.pipeline, [0x2005, 0x3001]);
}

#[test]
fn the_debugger_sees_single_steps() {
    let mut c = thumb_core(0x100, &LOOP);
    c.set_verbose(true);
    assert!(c.dbg.verbose);
    c.step::<Interpreter>();
    c.step::<Interpreter>();
    assert_eq!(c.dbg.gpr_previous[0], 5);
    assert_eq!(
        c.dbg.last_executed,
        Some(ExecutedInstr { instr: DecodedInstr::Thumb { raw: 0x3001 }, pc: 0x102 })
    );
    let copy = c.dbg.clone();
    assert_eq!(copy.gpr_previous, c.dbg.gpr_previous);
    assert_eq!(DebuggerState::default().last_executed, None);
}

#[test]
fn arm_steps_obey_conditions() {
    let mut m = SimpleMemory::new(64);
    m.store_32(0, 0xE3A0_0007, MemoryAccess::NonSeq); // MOV R0, #7
    m.store_32(4, 0x03A0_0009, MemoryAccess::NonSeq); // MOVEQ R0, #9
    m.store_32(8, 0xE290_1001, MemoryAccess::NonSeq); // ADDS R1, R0, #1
    m.store_32(12, 0xEBFF_FFFB, MemoryAccess::NonSeq); // BL 0
    let mut c = Arm7tdmiCore::new(m);
    c.branch_exchange(0);
    c.step::<Interpreter>();
    c.step::<Interpreter>();
    assert_eq!(c.gpr[0], 7);
    assert_eq!(c.next_fetch_access, MemoryAccess::NonSeq);
    // The instruction that was passed over is not noted.
    assert_eq!(
        c.dbg.last_executed,
        Some(ExecutedInstr { instr: DecodedInstr::Arm { raw: 0xE3A0_0007 }, pc: 0 })
    );
    c.step::<Interpreter>();
    assert_eq!(c.gpr[1], 8);
    c.step::<Interpreter>();
    assert_eq!((c.gpr[14], c.pc), (16, 8));
}

#[test]
fn fast_path_does_what_the_handlers_do() {
    let programs: [&[u16]; 8] = [
        &[0x2005, 0x3001, 0x0040, 0x1840],
        &[0x210A, 0x4348, 0x4251, 0x43C8],
        &[0x2040, 0x6001, 0x6802, 0x7041],
        &[0x2080, 0xB407, 0xBC38],
        &[0x20FF, 0x0600, 0x1600, 0x28FF, 0xD0FC],
        &[0xA004, 0xAC01, 0xB082, 0x4680],
        &[0x2040, 0xC00E, 0x2040, 0xC870],
        &[0xF000, 0xF802, 0x2001, 0x2002],
    ];
    for p in programs {
        let mut a = thumb_core(0x100, p);
        let mut b = thumb_core(0x100, p);
        a.gpr[13] = 0x200;
        b.gpr[13] = 0x200;
        for _ in p {
            a.step::<Interpreter>();
            let (at, op) = (b.pc, b.pipeline[0]);
            b.aot_thumb_step::<Remaining>(at, op);
            assert_eq!(a.gpr, b.gpr);
            assert_eq!(a.pc, b.pc);
            assert_eq!(a.cpsr, b.cpsr);
            assert_eq!(a.pipeline, b.pipeline);
            assert_eq!(a.bus.mem.data, b.bus.mem.data);
            assert_eq!(a.next_fetch_access, b.next_fetch_access);
        }
    }
}

#[test]
fn results_of_the_fast_path() {
    let mut c = thumb_core(0x100, &[0x2005, 0xE7FE]);
    assert_eq!(c.aot_thumb_step::<Remaining>(0x104, 0x2005), 0);
    assert_eq!((c.gpr[0], c.pc), (5, 0x106));
    assert_eq!(c.aot_thumb_step::<Remaining>(0x106, 0xE7FE), 1);
    assert_eq!(c.pc, 0x106);
    c.aot_thumb_fetch_only(0x100);
    assert_eq!((c.pc, c.pipeline[1]), (0x106, 0x2005));
    let mut d = Arm7tdmiCore::new(SimpleMemory::new(64));
    assert_eq!(d.aot_arm_step::<Interpreter>(8, 0xE3A0_0007), 0);
    assert_eq!((d.gpr[0], d.pc), (7, 12));
    assert_eq!(d.aot_arm_step::<Interpreter>(12, 0x03A0_0009), 0);
    assert_eq!((d.gpr[0], d.pc), (7, 16));
    assert_eq!(d.aot_arm_step::<Interpreter>(16, 0xEAFF_FFFE), 1);
    assert_eq!(d.run_thumb_effect::<Remaining>(0xE000), CpuAction::PipelineFlushed);
}

#[test]
fn slots() {
    assert_eq!(thumb_slot(0x2005), 0x2005 >> 6);
    assert_eq!(arm_slot(0xE3A0_0007), 0x3A0);
    assert_eq!(arm_slot(0xE080_2011), 0x081);
    assert_eq!(aot_lookup_noop(7, 0x100), 0);
}

#[test]
fn a_block_is_recorded_and_replayed() {
    let mut c = thumb_core(0x0800_0100, &LOOP);
    c.step_block::<Interpreter, NoAot>();
    assert_eq!(c.block_cache.len(), 1);
    assert_eq!(c.gpr[0], 6);
    assert_eq!(c.pc, 0x0800_0104);
    let block = c.block_cache.get(BlockKey::new(0x0800_0104, true)).unwrap();
    assert_eq!(block.len(), 3);
    assert_eq!(block.instr(1), DecodedInstr::Thumb { raw: 0x3001 });
    assert!(block.code().is_none());
    assert!(c.block_cache.get(BlockKey::new(0x0800_0104, false)).is_none());
    // The loop is replayed as often as blocks may follow each other.
    c.bus.fetches = 0;
    c.step_block::<Interpreter, NoAot>();
    assert_eq!(c.bus.fetches, 16 * 5);
    assert_eq!(c.block_cache.len(), 1);
    // A bus that asks for control stops the replay after the first instruction.
    c.bus.abort = true;
    c.bus.fetches = 0;
    c.step_block::<Interpreter, NoAot>();
    assert_eq!(c.bus.fetches, 1);
    assert_eq!(c.gpr[0], 5);
}

#[test]
fn written_memory_drops_blocks() {
    let mut c = thumb_core(0x0300_0100, &LOOP);
    c.step_block::<Interpreter, NoAot>();
    assert_eq!(c.block_cache.len(), 1);
    c.bus.dirty = true;
    c.bus.fetches = 0;
    c.step_block::<Interpreter, NoAot>();
    assert_eq!(c.block_cache.len(), 0);
    assert_eq!(c.bus.fetches, 0);
}

#[test]
fn an_aborted_recording_is_kept_up_to_there() {
    let mut c = thumb_core(0x0800_0100, &LOOP);
    c.bus.abort = true;
    c.step_block::<Interpreter, NoAot>();
    assert_eq!(c.block_cache.get(BlockKey::new(0x0800_0104, true)).unwrap().len(), 1);
}

#[test]
fn recorded_blocks_are_compiled() {
    let mut c = thumb_core(0x0800_0100, &LOOP);
    c.block_cache.enable_dynarec(DynarecCompiler::new_with_bus());
    assert!(c.block_cache.has_dynarec());
    c.step_block::<Interpreter, NoAot>();
    assert_eq!(c.block_cache.compile_stats(), (1, 1));
    let block = c.block_cache.get(BlockKey::new(0x0800_0104, true)).unwrap();
    let code = block.code().unwrap();
    let mut gpr = [0u32; 15];
    let mut cpsr = 0;
    let mut pc = 0;
    code.call(&mut gpr, &mut cpsr, &mut pc, true, &mut NoBus);
    assert_eq!(gpr[0], 6);
    assert_eq!(pc, 0x0800_0101);
    assert_eq!(c.block_cache.rom_block_keys(), vec![(0x0800_0104, true)]);
}

#[test]
fn blocks_of_one_instruction_set_are_not_found_in_the_other() {
    assert_ne!(BlockKey::new(0x100, true), BlockKey::new(0x100, false));
    assert_eq!(BlockKey::new(0x100, true).0, 0x101);
}

#[test]
fn read_only_addresses() {
    assert!(is_rom_address(0x0000_0100));
    assert!(!is_rom_address(0x0200_0000));
    assert!(!is_rom_address(0x0300_0000));
    assert!(is_rom_address(0x0800_0000));
    assert!(is_rom_address(0x0DFF_FFFF));
    assert!(!is_rom_address(0x0E00_0000));
}

#[test]
fn cache_operations() {
    let mut cache = BlockCache::default();
    assert!(!cache.has_dynarec());
    let rom = BlockKey::new(0x0800_0000, false);
    let ram = BlockKey::new(0x0200_0000, true);
    for key in [rom, ram] {
        cache.begin_record(key);
        assert!(cache.is_recording());
        cache.record_instr(DecodedInstr::Arm { raw: 0xE3A0_0007 });
        cache.finish_record();
        assert!(!cache.is_recording());
    }
    assert_eq!(cache.len(), 2);
    // A key that is recorded again counts once.
    cache.begin_record(rom);
    cache.record_instr(DecodedInstr::Arm { raw: 0xE3A0_0008 });
    cache.finish_record();
    assert_eq!(cache.len(), 2);
    assert_eq!(cache.get(rom).unwrap().instr(0), DecodedInstr::Arm { raw: 0xE3A0_0008 });
    assert_eq!(cache.get(rom).unwrap().len(), 1);
    assert!(cache.get(ram).is_some());
    // An empty recording leaves nothing behind.
    cache.begin_record(BlockKey::new(0x0800_0040, false));
    cache.finish_record();
    assert_eq!(cache.len(), 2);
    // Nor does one that is given up.
    cache.begin_record(BlockKey::new(0x0800_0040, false));
    cache.record_instr(DecodedInstr::Arm { raw: 1 });
    cache.abort_record();
    cache.finish_record();
    assert_eq!(cache.len(), 2);
    // A flush drops a recording in writable memory and keeps one elsewhere.
    cache.begin_record(ram);
    cache.flush();
    assert!(!cache.is_recording());
    assert_eq!(cache.len(), 1);
    assert!(cache.get(rom).is_some() && cache.get(ram).is_none());
    cache.begin_record(rom);
    cache.flush();
    assert!(cache.is_recording());
    assert_eq!(cache.compile_stats(), (1, 0));
    cache.flush_all();
    assert_eq!(cache.len(), 0);
    assert!(!cache.is_recording());
}

#[test]
fn recordings_are_capped() {
    let mut cache = BlockCache::new();
    let key = BlockKey::new(0x0800_0000, true);
    cache.begin_record(key);
    for _ in 0..20_000 {
        cache.record_instr(DecodedInstr::Thumb { raw: 0x2005 });
    }
    cache.finish_record();
    assert_eq!(cache.get(key).unwrap().len(), rustboyadvance::cache::RECORDING_CAP);
}

/// One block at 0x104 that adds 10 to R0 and branches to 0x200 in Thumb state.
struct OneBlock;

impl AotBlocks<Bus> for OneBlock {
    fn thumb_block(_: usize, _: u32) -> usize {
        0
    }
    fn arm_block(_: usize, _: u32) -> usize {
        0
    }
    fn block_done(_: usize, core: CoreState<Bus>) -> (CoreState<Bus>, (u32, u32)) {
        (core, (0, 0))
    }
    fn lookup_thumb(table: usize, pc: u32) -> usize {
        if pc == 0x104 {
            table
        } else {
            0
        }
    }
    fn lookup_arm(_table: usize, _pc: u32) -> usize {
        0
    }
    fn run_block(block: usize, core: &mut Arm7tdmiCore<Bus>) -> (u32, u32) {
        core.gpr[0] += 10;
        (block as u32, 0x201)
    }
}

#[test]
fn blocks_compiled_ahead_of_time() {
    let mut c = thumb_core(0x100, &LOOP);
    assert_eq!(c.try_aot_dispatch::<OneBlock>(), None);
    c.install_aot_hook(1);
    c.install_aot_hook_arm();
    assert_eq!(c.try_aot_dispatch::<OneBlock>(), Some(true));
    assert_eq!((c.gpr[0], c.pc, c.aot.hits_thumb), (10, 0x204, 1));
    assert_eq!(c.try_aot_dispatch::<OneBlock>(), None);
    // A block that was left in the middle does not branch.
    let mut d = thumb_core(0x100, &LOOP);
    d.install_aot_hook(3);
    assert_eq!(d.try_aot_dispatch::<OneBlock>(), Some(false));
    assert_eq!(d.pc, 0x104);
    // A miss is counted, and the interpreter records a block.
    let mut e = thumb_core(0x108, &LOOP);
    e.install_aot_hook(1);
    e.step_block::<Interpreter, OneBlock>();
    assert_eq!((e.aot.misses_thumb, e.aot.hits_thumb), (1, 0));
    assert_eq!(e.block_cache.len(), 1);
    // Nothing is looked up while the pipeline is empty.
    let mut f = thumb_core(0x100, &LOOP);
    f.install_aot_hook(1);
    f.pipeline[0] = 0;
    assert_eq!(f.try_aot_dispatch::<OneBlock>(), None);
    assert_eq!((f.gpr[0], f.pc, f.aot.hits_thumb), (0, 0x104, 0));
    f.step_block::<Interpreter, OneBlock>();
    assert_eq!((f.aot.misses_thumb, f.aot.hits_thumb), (1, 0));
}

#[test]
fn abort_requests() {
    let mut c = thumb_core(0x100, &LOOP);
    assert!(!c.aot_block_should_abort_thumb());
    assert!(c.aot_block_should_abort_arm());
    c.bus.abort = true;
    assert!(c.aot_block_should_abort_thumb());
    c.cpsr.set_state(CpuState::ARM);
    c.bus.abort = false;
    assert!(!c.aot_block_should_abort_arm());
    c.bus.dirty = true;
    assert!(c.aot_block_should_abort_arm());
    assert!(!c.bus.dirty);
}
