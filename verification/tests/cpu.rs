//! The core: arithmetic, status registers, register banks, exceptions and memory.

use rustboyadvance::alu::{
    alu_adc_flags, alu_add_flags, alu_sbc_flags, alu_sub_flags, barrel_shift_op, BarrelShiftOpCode,
    Computed,
};
use rustboyadvance::bits::{
    field, offset_by, rotate_right, shift_right_signed, sign_extend, test_bit,
};
use rustboyadvance::cond::ArmCond;
use rustboyadvance::cpu::{
    Arm7tdmiCore, BankedRegisters, CpuAction, Exception, SavedCpuState, REG_LR, REG_PC, REG_SP,
};
use rustboyadvance::memory::{MemoryAccess, MemoryInterface, SimpleMemory};
use rustboyadvance::psr::{CpuMode, CpuState, RegPSR};

fn new_core() -> Arm7tdmiCore<SimpleMemory> {
    Arm7tdmiCore::new(SimpleMemory::new(1024))
}

fn computed(value: u32, carry: bool, overflow: bool) -> Computed {
    Computed { value, carry, overflow }
}

#[test]
fn bit_fields() {
    assert_eq!(field(0xABCD_1234, 0, 4), 4);
    assert_eq!(field(0xABCD_1234, 28, 4), 0xA);
    assert_eq!(field(0xABCD_1234, 8, 8), 0x12);
    assert!(test_bit(0x8000_0000, 31));
    assert!(!test_bit(0x8000_0000, 30));
    assert_eq!(rotate_right(0x0000_0001, 1), 0x8000_0000);
    assert_eq!(rotate_right(0x1234_5678, 8), 0x7812_3456);
    assert_eq!(rotate_right(0x1234_5678, 0), 0x1234_5678);
    assert_eq!(sign_extend(0x7f, 0x80), 127);
    assert_eq!(sign_extend(0x80, 0x80), -128);
    assert_eq!(offset_by(4, -8), 0xFFFF_FFFC);
    assert_eq!(offset_by(0xFFFF_FFFC, 8), 4);
    assert_eq!(shift_right_signed(0x8000_0000, 4), 0xF800_0000);
    assert_eq!(shift_right_signed(0x4000_0000, 4), 0x0400_0000);
}

#[test]
fn barrel_shifter_edges() {
    let lsl = BarrelShiftOpCode::LSL;
    assert_eq!(barrel_shift_op(lsl, 5, 0, true, true), (5, true));
    assert_eq!(barrel_shift_op(lsl, 0x8000_0001, 1, false, true), (2, true));
    assert_eq!(barrel_shift_op(lsl, 1, 32, false, false), (0, true));
    assert_eq!(barrel_shift_op(lsl, 1, 33, true, false), (0, false));
    let lsr = BarrelShiftOpCode::LSR;
    assert_eq!(barrel_shift_op(lsr, 0x8000_0000, 0, false, true), (0, true));
    assert_eq!(barrel_shift_op(lsr, 0x8000_0000, 0, false, false), (0x8000_0000, false));
    assert_eq!(barrel_shift_op(lsr, 3, 1, false, true), (1, true));
    assert_eq!(barrel_shift_op(lsr, 3, 40, true, false), (0, false));
    let asr = BarrelShiftOpCode::ASR;
    assert_eq!(barrel_shift_op(asr, 0x8000_0000, 0, false, true), (0xFFFF_FFFF, true));
    assert_eq!(barrel_shift_op(asr, 0x7FFF_FFFF, 50, true, false), (0, false));
    assert_eq!(barrel_shift_op(asr, 0x8000_0002, 2, false, true), (0xE000_0000, true));
    let ror = BarrelShiftOpCode::ROR;
    assert_eq!(barrel_shift_op(ror, 3, 0, true, true), (0x8000_0001, true));
    assert_eq!(barrel_shift_op(ror, 3, 0, true, false), (3, true));
    assert_eq!(barrel_shift_op(ror, 1, 1, false, true), (0x8000_0000, true));
    assert_eq!(barrel_shift_op(ror, 0x10, 36, false, false), (1, false));
}

#[test]
fn arithmetic_flags() {
    assert_eq!(alu_add_flags(0xFFFF_FFFF, 1), computed(0, true, false));
    assert_eq!(alu_add_flags(0x7FFF_FFFF, 1), computed(0x8000_0000, false, true));
    assert_eq!(alu_sub_flags(0, 1), computed(0xFFFF_FFFF, false, false));
    assert_eq!(alu_sub_flags(0x8000_0000, 1), computed(0x7FFF_FFFF, true, true));
    assert_eq!(alu_adc_flags(0xFFFF_FFFF, 0, true), computed(0, true, false));
    assert_eq!(alu_adc_flags(1, 2, false), computed(3, false, false));
    assert_eq!(alu_sbc_flags(5, 5, true), computed(0, true, false));
    assert_eq!(alu_sbc_flags(5, 5, false), computed(0xFFFF_FFFF, false, false));
}

#[test]
fn conditions_by_number() {
    let all = [
        ArmCond::Eq,
        ArmCond::Ne,
        ArmCond::Hs,
        ArmCond::Lo,
        ArmCond::Mi,
        ArmCond::Pl,
        ArmCond::Vs,
        ArmCond::Vc,
        ArmCond::Hi,
        ArmCond::Ls,
        ArmCond::Ge,
        ArmCond::Lt,
        ArmCond::Gt,
        ArmCond::Le,
        ArmCond::Al,
    ];
    // Z and C set: EQ, HS, PL, VC, LS, GE, LE and AL hold.
    let held = [
        true, false, true, false, false, true, false, true, false, true, true, false, false, true,
        true,
    ];
    for (k, cond) in all.iter().enumerate() {
        assert_eq!(ArmCond::from_bits(k as u32), *cond);
        assert_eq!(cond.check(0x6000_0000), held[k]);
    }
    assert_eq!(ArmCond::from_bits(15), ArmCond::Invalid);
}

#[test]
fn status_register_fields() {
    let mut psr = RegPSR::new(0xD3);
    assert_eq!(psr.mode(), Some(CpuMode::Supervisor));
    assert_eq!(psr.state(), CpuState::ARM);
    psr.set_state(CpuState::THUMB);
    assert_eq!(psr.get(), 0xF3);
    psr.set_mode(CpuMode::Irq);
    assert_eq!(psr.get(), 0xF2);
    psr.set_irq_disabled(false);
    psr.set_fiq_disabled(false);
    assert_eq!(psr.get(), 0x32);
    psr.set_flags(true, false, true, false);
    assert_eq!(psr.get(), 0xA000_0032);
    assert!(psr.N() && !psr.Z() && psr.C() && !psr.V());
    psr.set_C(false);
    assert_eq!(psr.get(), 0x8000_0032);
    assert_eq!(RegPSR::new(0).mode(), None);
    assert_eq!(RegPSR::default().get(), 0);
    for m in [
        CpuMode::User,
        CpuMode::Fiq,
        CpuMode::Irq,
        CpuMode::Supervisor,
        CpuMode::Abort,
        CpuMode::Undefined,
        CpuMode::System,
    ] {
        assert_eq!(RegPSR::new(m.bits()).mode(), Some(m));
    }
    assert_eq!(CpuMode::User.bank_index(), CpuMode::System.bank_index());
}

#[test]
fn fresh_core() {
    let c = new_core();
    assert_eq!(c.cpsr.get(), 0xD3);
    assert_eq!(c.pc, 0);
    assert_eq!(c.copy_registers(), [0; 15]);
    assert_eq!(c.next_fetch_access, MemoryAccess::NonSeq);
    assert_eq!(c.get_cpu_state(), CpuState::ARM);
    assert_eq!(c.word_size(), 4);
}

#[test]
fn registers_read_back() {
    let mut c = new_core();
    c.set_reg(3, 77);
    c.set_reg(REG_SP, 0x300);
    c.set_reg(REG_LR, 0x400);
    c.set_reg(REG_PC, 0x1003);
    assert_eq!(c.get_reg(3), 77);
    assert_eq!(c.get_reg(REG_SP), 0x300);
    assert_eq!(c.get_reg(REG_LR), 0x400);
    assert_eq!(c.get_reg(REG_PC), 0x1000);
    assert_eq!(c.get_reg(4), 0);
    assert_eq!(c.pc_arm(), 0x1000 - 8);
    c.cpsr.set_state(CpuState::THUMB);
    c.set_reg(REG_PC, 0x1003);
    assert_eq!(c.get_reg(REG_PC), 0x1002);
    assert_eq!(c.pc_thumb(), 0x1002 - 4);
    assert_eq!(c.word_size(), 2);
}

#[test]
fn user_registers_read_back() {
    let mut c = new_core();
    for r in 0..15 {
        c.set_reg_user(r, 100 + r as u32);
    }
    for r in 0..15 {
        assert_eq!(c.get_reg_user(r), 100 + r as u32);
    }
    // Supervisor mode has its own R13 and R14.
    assert_eq!(c.gpr[13], 0);
    assert_eq!(c.gpr[14], 0);
    assert_eq!(c.gpr[7], 107);
}

#[test]
fn mode_change_and_back() {
    let mut c = new_core();
    for r in 0..15 {
        c.gpr[r] = 10 + r as u32;
    }
    let before = c.gpr;
    c.change_mode(CpuMode::Supervisor, CpuMode::Fiq);
    assert_eq!(c.cpsr.mode(), Some(CpuMode::Fiq));
    assert_eq!(c.gpr[7], 17);
    for r in 8..15 {
        assert_eq!(c.gpr[r], 0);
    }
    c.gpr[8] = 1;
    c.gpr[13] = 2;
    c.change_mode(CpuMode::Fiq, CpuMode::Supervisor);
    assert_eq!(c.gpr, before);
    assert_eq!(c.cpsr.get(), 0xD3);
    c.change_mode(CpuMode::Supervisor, CpuMode::Fiq);
    assert_eq!((c.gpr[8], c.gpr[13]), (1, 2));
}

#[test]
fn exceptions_enter_their_vectors() {
    let mut c = new_core();
    c.bus.load_program(&[0; 8]);
    c.store_32(8, 0xE3A0_0007, MemoryAccess::NonSeq);
    c.store_32(12, 0xE3A0_1008, MemoryAccess::NonSeq);
    c.cpsr = RegPSR::new(0x4000_0030);
    c.exception(Exception::SoftwareInterrupt, 0x1234);
    assert_eq!(c.cpsr.get(), 0x4000_0093);
    assert_eq!(c.spsr.get(), 0x4000_0030);
    assert_eq!(c.gpr[14], 0x1234);
    assert_eq!(c.pc, 16);
    assert_eq!(c.get_decoded_opcode(), 0xE3A0_0007);
    assert_eq!(c.get_prefetched_opcode(), 0xE3A0_1008);
    assert_eq!(c.get_next_pc(), 8);
    assert_eq!(Exception::UndefinedInstruction.vector(), 4);
    assert_eq!(Exception::UndefinedInstruction.mode_on_entry(), CpuMode::Undefined);
    c.reset();
    assert_eq!(c.cpsr.get(), 0x4000_00D3);
    assert_eq!(c.pc, 8);
}

#[test]
fn breakpoints_match_the_next_instruction() {
    let mut c = new_core();
    c.pc = 0x108;
    c.add_breakpoint(0x200);
    c.add_breakpoint(0x101);
    c.add_breakpoint(0x100);
    assert_eq!(c.check_breakpoint(), Some(0x101));
    c.del_breakpoint(0x101);
    assert_eq!(c.check_breakpoint(), Some(0x100));
    c.del_breakpoint(0x100);
    c.del_breakpoint(0x999);
    assert_eq!(c.check_breakpoint(), None);
    assert_eq!(c.breakpoints, vec![0x200]);
}

#[test]
fn saved_state_round_trip() {
    let mut c = new_core();
    c.set_reg(5, 55);
    c.pc = 0x40;
    c.pipeline = [1, 2];
    c.next_fetch_access = MemoryAccess::Sequential;
    c.add_breakpoint(0x10);
    let saved: SavedCpuState = c.save_state();
    c.set_reg(5, 66);
    c.pc = 0x80;
    c.restore_state(saved);
    assert_eq!((c.gpr[5], c.pc, c.pipeline), (55, 0x40, [1, 2]));
    assert_eq!(c.breakpoints, vec![0x10]);
    let d = Arm7tdmiCore::from_saved_state(SimpleMemory::new(8), saved);
    assert_eq!((d.gpr[5], d.pc, d.pipeline), (55, 0x40, [1, 2]));
    assert_eq!(d.next_fetch_access, MemoryAccess::Sequential);
    assert!(d.breakpoints.is_empty());
    let e = c.clone_onto(SimpleMemory::new(8));
    assert_eq!(e.breakpoints, vec![0x10]);
    assert_eq!(e.gpr, c.gpr);
    assert_eq!(BankedRegisters::default().gpr_banked_r13, [0; 6]);
}

#[test]
fn memory_round_trip() {
    let mut m = SimpleMemory::new(8);
    let (n, s) = (MemoryAccess::NonSeq, MemoryAccess::Sequential);
    m.store_32(4, 0x1234_5678, n);
    assert_eq!(m.load_32(4, s), 0x1234_5678);
    assert_eq!(m.load_16(6, n), 0x1234);
    assert_eq!(m.load_8(4, n), 0x78);
    m.store_16(4, 0xABCD, s);
    m.store_8(7, 0xEF, s);
    assert_eq!(m.load_32(4, n), 0xEF34_ABCD);
    // Beyond the end.
    m.store_32(6, 0xFFFF_FFFF, n);
    assert_eq!(m.load_32(6, n), 0x0000_FFFF);
    assert_eq!(m.load_8(8, n), 0);
    assert!(!m.take_block_cache_dirty());
    assert!(!m.cached_block_should_abort());
}

#[test]
fn misaligned_loads_rotate() {
    let mut c = new_core();
    let a = MemoryAccess::NonSeq;
    c.store_32(0x20, 0x8765_4321, a);
    assert_eq!(c.ldr_word(0x20, a), 0x8765_4321);
    assert_eq!(c.ldr_word(0x21, a), 0x2187_6543);
    assert!(!c.cpsr.C());
    assert_eq!(c.ldr_word(0x23, a), 0x6543_2187);
    assert_eq!(c.ldr_half(0x20, a), 0x4321);
    assert_eq!(c.ldr_half(0x21, a), 0x2100_0043);
    assert_eq!(c.ldr_sign_half(0x22, a), 0xFFFF_8765);
    assert_eq!(c.ldr_sign_half(0x23, a), 0xFFFF_FF87);
    assert_eq!(c.aot_ldr_word(0x21, a), 0x2187_6543);
    assert_eq!(c.aot_ldr_half(0x21, a), 0x2100_0043);
    assert_eq!(c.aot_ldr_sign_half(0x23, a), 0xFFFF_FF87);
}

#[test]
fn branch_exchange_selects_the_instruction_set() {
    let mut c = new_core();
    c.store_32(0x40, 0x2105_2007, MemoryAccess::NonSeq);
    assert_eq!(c.branch_exchange(0x41), CpuAction::PipelineFlushed);
    assert_eq!(c.get_cpu_state(), CpuState::THUMB);
    assert_eq!(c.pipeline, [0x2007, 0x2105]);
    assert_eq!(c.pc, 0x44);
    assert_eq!(c.next_fetch_access, MemoryAccess::Sequential);
    assert_eq!(c.branch_exchange(0x42), CpuAction::PipelineFlushed);
    assert_eq!(c.get_cpu_state(), CpuState::ARM);
    assert_eq!(c.pc, 0x48);
    assert_eq!(c.pipeline, [0x2105_2007, 0]);
    c.advance_arm();
    assert_eq!(c.pc, 0x4C);
    c.advance_thumb();
    assert_eq!(c.pc, 0x4E);
}

#[test]
fn multiplier_cycles() {
    let c = new_core();
    assert_eq!(c.get_required_multipiler_array_cycles(0x12), 1);
    assert_eq!(c.get_required_multipiler_array_cycles(0xFFFF_FF12), 4);
    assert_eq!(c.get_required_multipiler_array_cycles(0x1234), 2);
    assert_eq!(c.get_required_multipiler_array_cycles(0x12_3456), 3);
    assert_eq!(c.get_required_multipiler_array_cycles(0x1234_5678), 4);
}

#[test]
fn conditions_on_the_core() {
    let mut c = new_core();
    c.cpsr.set_flags(true, false, false, false);
    assert!(c.check_arm_cond(ArmCond::Mi));
    assert!(!c.check_arm_cond(ArmCond::Eq));
    assert!(c.check_arm_cond(ArmCond::Lt));
}

#[test]
fn another_memory() {
    let mut c = new_core();
    let mut m = SimpleMemory::new(8);
    m.store_8(3, 0x5A, MemoryAccess::NonSeq);
    c.set_memory_interface(m);
    assert_eq!(c.load_8(3, MemoryAccess::NonSeq), 0x5A);
    assert_eq!(c.load_16(2, MemoryAccess::NonSeq), 0x5A00);
}
