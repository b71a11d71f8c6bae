//! Counts how often blocks of each shape run.

use vstd::prelude::*;
use crate::bits::{bits, field};
use crate::dynarec::DynarecCompiler;
use crate::dynarec::decode::{ShiftKind, Thumb3Op, thumb1, thumb3};
use crate::text::{grouped, padded, push_grouped, push_padded};
use vstd::string::*;

verus! {

/// The shapes that are counted apart.
#[derive(Clone, Copy, PartialEq, Eq, Structural, Debug)]
pub enum ShapeId {
    ThumbMovImm,
    ThumbAddImm,
    ThumbCmpImm,
    ThumbDpChain,
    ArmMovImm,
    ArmCmpImm,
    ShiftPairSxtb,
    Other,
}

/// The number of shapes.
pub const N_SHAPES: usize = 8;

impl ShapeId {
    /// The place of a shape's counter.
    pub open spec fn place(self) -> int {
        match self {
            ShapeId::ThumbMovImm => 0,
            ShapeId::ThumbAddImm => 1,
            ShapeId::ThumbCmpImm => 2,
            ShapeId::ThumbDpChain => 3,
            ShapeId::ArmMovImm => 4,
            ShapeId::ArmCmpImm => 5,
            ShapeId::ShiftPairSxtb => 6,
            ShapeId::Other => 7,
        }
    }

    /// The place of a shape's counter.
    pub fn index(self) -> (i: usize)
        ensures
            i == self.place(),
            i < N_SHAPES,
    {
        match self {
            ShapeId::ThumbMovImm => 0,
            ShapeId::ThumbAddImm => 1,
            ShapeId::ThumbCmpImm => 2,
            ShapeId::ThumbDpChain => 3,
            ShapeId::ArmMovImm => 4,
            ShapeId::ArmCmpImm => 5,
            ShapeId::ShiftPairSxtb => 6,
            ShapeId::Other => 7,
        }
    }
}

/// The name of the shape at a place.
pub open spec fn name_at(i: int) -> Seq<char> {
    if i == 0 {
        "thumb_mov_imm"@
    } else if i == 1 {
        "thumb_add_imm"@
    } else if i == 2 {
        "thumb_cmp_imm"@
    } else if i == 3 {
        "thumb_dp_chain"@
    } else if i == 4 {
        "arm_mov_imm"@
    } else if i == 5 {
        "arm_cmp_imm"@
    } else if i == 6 {
        "shift_pair_sxtb"@
    } else {
        "other"@
    }
}

/// The name of the shape at a place.
pub fn shape_name(i: usize) -> (s: &'static str)
    ensures
        s@ == name_at(i as int),
{
    match i {
        0 => "thumb_mov_imm",
        1 => "thumb_add_imm",
        2 => "thumb_cmp_imm",
        3 => "thumb_dp_chain",
        4 => "arm_mov_imm",
        5 => "arm_cmp_imm",
        6 => "shift_pair_sxtb",
        _ => "other",
    }
}

/// One counter for each shape.
#[derive(Clone, Copy, Debug)]
pub struct ShapeCounts {
    pub counts: [u64; 8],
}

impl ShapeCounts {
    pub fn new() -> (c: ShapeCounts)
        ensures
            c.counts@ == Seq::new(8, |i: int| 0u64),
    {
        let c = ShapeCounts { counts: [0;8] };
        assert(c.counts@ =~= Seq::new(8, |i: int| 0u64));
        c
    }
}

impl Default for ShapeCounts {
    fn default() -> (c: ShapeCounts)
        ensures
            c.counts@ == Seq::new(8, |i: int| 0u64),
    {
        ShapeCounts::new()
    }
}

/// Counts one run of a block. A counter that is full starts again at zero.
pub fn tick(counts: &mut ShapeCounts, shape: ShapeId)
    ensures
        final(counts).counts@ == old(counts).counts@.update(
            shape.place(),
            old(counts).counts@[shape.place()].wrapping_add(1),
        ),
{
    let i: usize = shape.index();
    counts.counts[i] = counts.counts[i].wrapping_add(1);
}

/// Sets every counter to zero.
pub fn reset(counts: &mut ShapeCounts)
    ensures
        final(counts).counts@ == Seq::new(8, |i: int| 0u64),
{
    counts.counts = [0;8];
    assert(counts.counts@ =~= Seq::new(8, |i: int| 0u64));
}

/// The counters in the order of the shapes.
pub fn snapshot(counts: &ShapeCounts) -> (r: [u64; 8])
    ensures
        r@ == counts.counts@,
{
    counts.counts
}

/// The line of one shape: its name in a field of 16, and its count with underscores between
/// groups of three digits.
pub open spec fn profile_line(i: int, count: u64) -> Seq<char> {
    "shape_profile:"@ + padded(name_at(i), 16) + " "@ + grouped(count as nat) + "\n"@
}

/// The heading and the lines of the first `n` shapes.
pub open spec fn profile(counts: Seq<u64>, n: nat) -> Seq<char>
    decreases n,
{
    if n == 0 {
        "--- shape_profile ---\n"@
    } else {
        profile(counts, (n - 1) as nat) + profile_line(n - 1, counts[n - 1])
    }
}

/// The counters as text, one line for each shape.
pub fn dump(counts: &ShapeCounts) -> (out: String)
    ensures
        out@ == profile(counts.counts@, 8),
{
    let snap: [u64; 8] = snapshot(counts);
    let mut out = String::new();
    out.append("--- shape_profile ---\n");
    assert(out@ =~= profile(counts.counts@, 0));
    let mut i: usize = 0;
    while i < N_SHAPES
        invariant
            i <= N_SHAPES,
            snap@ == counts.counts@,
            out@ == profile(counts.counts@, i as nat),
        decreases N_SHAPES - i,
    {
        let ghost before = out@;
        out.append("shape_profile:");
        push_padded(&mut out, shape_name(i), 16);
        out.append(" ");
        push_grouped(&mut out, snap[i]);
        out.append("\n");
        assert(out@ =~= before + profile_line(i as int, counts.counts@[i as int]));
        i = i + 1;
    }
    out
}

/// Whether two Thumb opcodes are a left shift by 24 or 16 and a right shift back.
pub open spec fn extends_by_shifts(first: u16, second: u16) -> bool {
    &&& thumb1(first) is Some
    &&& thumb1(second) is Some
    &&& thumb1(first)->0.kind == ShiftKind::Lsl
    &&& thumb1(second)->0.kind != ShiftKind::Lsl
    &&& thumb1(first)->0.imm5 == thumb1(second)->0.imm5
    &&& thumb1(first)->0.imm5 == 24 || thumb1(first)->0.imm5 == 16
}

/// Whether two Thumb opcodes extend a byte or halfword by shifting it left and right.
pub fn is_thumb_shift_pair_sign_or_zero_extend(first: u16, second: u16) -> (r: bool)
    ensures
        r == extends_by_shifts(first, second),
{
    match (
        DynarecCompiler::decode_thumb_format1(first),
        DynarecCompiler::decode_thumb_format1(second),
    ) {
        (Some(a), Some(b)) => {
            a.kind == ShiftKind::Lsl && b.kind != ShiftKind::Lsl && a.imm5 == b.imm5 && (a.imm5
                == 24 || a.imm5 == 16)
        },
        _ => false,
    }
}

/// The shape of a Thumb block.
pub open spec fn thumb_shape(raws: Seq<u16>) -> ShapeId {
    if raws.len() == 1 {
        match thumb3(raws[0]) {
            Some(d) => match d.op {
                Thumb3Op::Mov => ShapeId::ThumbMovImm,
                Thumb3Op::Cmp => ShapeId::ThumbCmpImm,
                Thumb3Op::Add => ShapeId::ThumbAddImm,
                Thumb3Op::Sub => ShapeId::Other,
            },
            None => ShapeId::Other,
        }
    } else if raws.len() == 2 && extends_by_shifts(raws[0], raws[1]) {
        ShapeId::ShiftPairSxtb
    } else if raws.len() >= 2 {
        ShapeId::ThumbDpChain
    } else {
        ShapeId::Other
    }
}

/// Finds the shape of a Thumb block.
pub fn classify_thumb(raws: &[u16]) -> (r: ShapeId)
    ensures
        r == thumb_shape(raws@),
{
    if raws.len() == 1 {
        return match DynarecCompiler::decode_thumb_format3(raws[0]) {
            Some(d) => match d.op {
                Thumb3Op::Mov => ShapeId::ThumbMovImm,
                Thumb3Op::Cmp => ShapeId::ThumbCmpImm,
                Thumb3Op::Add => ShapeId::ThumbAddImm,
                Thumb3Op::Sub => ShapeId::Other,
            },
            None => ShapeId::Other,
        };
    }
    if raws.len() == 2 && is_thumb_shift_pair_sign_or_zero_extend(raws[0], raws[1]) {
        return ShapeId::ShiftPairSxtb;
    }
    if raws.len() >= 2 {
        return ShapeId::ThumbDpChain;
    }
    ShapeId::Other
}

/// The shape of an ARM block: a single move or compare of an immediate is told apart.
pub open spec fn arm_shape(ops: Seq<u32>) -> ShapeId {
    if ops.len() == 1 && bits(ops[0], 26, 2) == 0 && bits(ops[0], 25, 1) == 1 {
        if bits(ops[0], 21, 4) == 0b1101 {
            ShapeId::ArmMovImm
        } else if bits(ops[0], 21, 4) == 0b1010 {
            ShapeId::ArmCmpImm
        } else {
            ShapeId::Other
        }
    } else {
        ShapeId::Other
    }
}

/// Finds the shape of an ARM block.
pub fn classify_arm(opcodes: &[u32]) -> (r: ShapeId)
    ensures
        r == arm_shape(opcodes@),
{
    if opcodes.len() == 1 {
        let op: u32 = opcodes[0];
        if field(op, 26, 2) == 0 && field(op, 25, 1) == 1 {
            let dp_op: u32 = field(op, 21, 4);
            if dp_op == 0b1101 {
                return ShapeId::ArmMovImm;
            }
            if dp_op == 0b1010 {
                return ShapeId::ArmCmpImm;
            }
        }
    }
    ShapeId::Other
}

} // verus!
