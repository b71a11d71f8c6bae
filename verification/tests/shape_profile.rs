//! Classification and counting of block shapes.

use rustboyadvance::dynarec::patterns::{try_match_arm, try_match_thumb};
use rustboyadvance::dynarec::shape_profile::{
    classify_arm, classify_thumb, dump, is_thumb_shift_pair_sign_or_zero_extend, reset, shape_name,
    snapshot, tick, ShapeCounts, ShapeId, N_SHAPES,
};

#[test]
fn single_thumb_format3_mov_is_mov_imm() {
    // MOV R1, #42
    assert_eq!(classify_thumb(&[0x212a]), ShapeId::ThumbMovImm);
}

#[test]
fn single_thumb_format3_add_is_add_imm() {
    // ADD R1, #1
    assert_eq!(classify_thumb(&[0x3101]), ShapeId::ThumbAddImm);
}

#[test]
fn single_thumb_format3_cmp_is_cmp_imm() {
    // CMP R1, #5
    assert_eq!(classify_thumb(&[0x2905]), ShapeId::ThumbCmpImm);
}

#[test]
fn three_thumb_instrs_is_dp_chain() {
    // MOV R0,#1 ; MOV R1,#2 ; ADD R0,R0,R1
    assert_eq!(
        classify_thumb(&[0x2001, 0x2102, 0x1840]),
        ShapeId::ThumbDpChain
    );
}

#[test]
fn shift_pair_sxtb_recognized() {
    // LSL R1, R0, #24 ; ASR R1, R1, #24
    assert_eq!(classify_thumb(&[0x0601, 0x1609]), ShapeId::ShiftPairSxtb);
}

#[test]
fn single_arm_mov_imm_recognized() {
    // MOV R1, #42 (encoded E3A0102A)
    assert_eq!(classify_arm(&[0xE3A0_102A]), ShapeId::ArmMovImm);
}

#[test]
fn single_arm_cmp_imm_recognized() {
    // CMP R0, #5 (E3500005)
    assert_eq!(classify_arm(&[0xE350_0005]), ShapeId::ArmCmpImm);
}

#[test]
fn tick_increments_counter() {
    let mut counts = ShapeCounts::new();
    reset(&mut counts);
    tick(&mut counts, ShapeId::ThumbMovImm);
    tick(&mut counts, ShapeId::ThumbMovImm);
    tick(&mut counts, ShapeId::ArmCmpImm);
    let snap = snapshot(&counts);
    assert_eq!(snap[ShapeId::ThumbMovImm as usize], 2);
    assert_eq!(snap[ShapeId::ArmCmpImm as usize], 1);
    assert_eq!(snap[ShapeId::ThumbAddImm as usize], 0);
}

#[test]
fn dump_includes_all_shape_names() {
    let mut counts = ShapeCounts::new();
    reset(&mut counts);
    tick(&mut counts, ShapeId::ThumbMovImm);
    let s = dump(&counts);
    for i in 0..N_SHAPES {
        let name = shape_name(i);
        assert!(
            s.contains(&format!("shape_profile:{:<16}", name)),
            "dump missing shape {}: {}",
            name,
            s
        );
    }
}

#[test]
fn dump_groups_digits() {
    let mut counts = ShapeCounts::new();
    counts.counts[0] = 8_245_123;
    counts.counts[1] = 1_000;
    counts.counts[7] = 999;
    let s = dump(&counts);
    let lines: Vec<&str> = s.lines().collect();
    assert_eq!(lines.len(), 9);
    assert_eq!(lines[0], "--- shape_profile ---");
    assert_eq!(lines[1], "shape_profile:thumb_mov_imm    8_245_123");
    assert_eq!(lines[2], "shape_profile:thumb_add_imm    1_000");
    assert_eq!(lines[3], "shape_profile:thumb_cmp_imm    0");
    assert_eq!(lines[8], "shape_profile:other            999");
}

#[test]
fn counters_wrap() {
    let mut counts = ShapeCounts::new();
    counts.counts[3] = u64::MAX;
    tick(&mut counts, ShapeId::ThumbDpChain);
    assert_eq!(snapshot(&counts)[3], 0);
    tick(&mut counts, ShapeId::Other);
    reset(&mut counts);
    assert_eq!(snapshot(&counts), [0; 8]);
}

#[test]
fn other_shapes() {
    assert_eq!(classify_thumb(&[]), ShapeId::Other);
    // SUB R1, #1
    assert_eq!(classify_thumb(&[0x3901]), ShapeId::Other);
    // LSL R1, R0, #24 alone
    assert_eq!(classify_thumb(&[0x0601]), ShapeId::Other);
    // LSL #24 ; ASR #16 is no extension
    assert_eq!(classify_thumb(&[0x0601, 0x1409]), ShapeId::ThumbDpChain);
    assert_eq!(classify_arm(&[]), ShapeId::Other);
    // ADD R0, R0, #1
    assert_eq!(classify_arm(&[0xE280_0001]), ShapeId::Other);
    assert_eq!(classify_arm(&[0xE3A0_102A, 0xE3A0_102A]), ShapeId::Other);
}

#[test]
fn shift_pairs() {
    // LSL #16 ; ASR #16, LSL #24 ; LSR #24, LSL #16 ; LSR #16
    assert!(is_thumb_shift_pair_sign_or_zero_extend(0x0401, 0x1409));
    assert!(is_thumb_shift_pair_sign_or_zero_extend(0x0601, 0x0E09));
    assert!(is_thumb_shift_pair_sign_or_zero_extend(0x0401, 0x0C09));
    // LSL ; LSL, and a format 2 ADD
    assert!(!is_thumb_shift_pair_sign_or_zero_extend(0x0601, 0x0601));
    assert!(!is_thumb_shift_pair_sign_or_zero_extend(0x0601, 0x1840));
    // LSL #8 ; LSR #8
    assert!(!is_thumb_shift_pair_sign_or_zero_extend(0x0201, 0x0A09));
}

#[test]
fn no_pattern_is_known() {
    assert_eq!(try_match_thumb(&[0x0048, 0x1840]), None);
    assert_eq!(try_match_arm(&[0xE3A0_0001]), None);
}
