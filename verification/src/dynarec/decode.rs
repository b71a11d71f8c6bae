//! Decoders for the guest instructions that the recompiler lowers.

use vstd::prelude::*;
use crate::bits::{bits, field, rotate_right, rotated_right, sign_extend, signed_field};
use crate::cond::ArmCond;
use crate::dynarec::DynarecCompiler;

verus! {

/// Data-processing operations. The last four compare only and write no register.
#[derive(Clone, Copy, PartialEq, Eq, Structural, Debug)]
pub enum DpOp {
    Mov,
    Mvn,
    Add,
    Sub,
    Cmp,
    Cmn,
    Tst,
    Teq,
}

impl DpOp {
    /// Whether the operation writes no register.
    pub open spec fn compares(self) -> bool {
        self == DpOp::Cmp || self == DpOp::Cmn || self == DpOp::Tst || self == DpOp::Teq
    }

    pub fn is_compare_only(self) -> (r: bool)
        ensures
            r == self.compares(),
    {
        matches!(self, DpOp::Cmp | DpOp::Cmn | DpOp::Tst | DpOp::Teq)
    }
}

/// The second operand of a data-processing instruction.
#[derive(Clone, Copy, PartialEq, Eq, Structural, Debug)]
pub enum Operand2 {
    Imm(u32),
    Reg(usize),
}

/// An ARM data-processing instruction with an immediate or an unshifted register operand.
#[derive(Clone, Copy, PartialEq, Eq, Structural, Debug)]
pub struct DecodedDp {
    pub cond: ArmCond,
    pub op: DpOp,
    pub rd: usize,
    pub rn: usize,
    pub operand2: Operand2,
    pub s: bool,
}

impl DecodedDp {
    pub open spec fn ok(self) -> bool {
        &&& self.rd < 15
        &&& self.rn < 15
        &&& self.operand2 matches Operand2::Reg(rm) ==> rm < 15
        &&& self.op.compares() ==> self.s
        &&& self.cond != ArmCond::Invalid
    }
}

/// An ARM load or store with a pre-indexed immediate offset and no write-back.
#[derive(Clone, Copy, PartialEq, Eq, Structural, Debug)]
pub struct DecodedMem {
    pub cond: ArmCond,
    pub load: bool,
    pub byte: bool,
    pub add: bool,
    pub rd: usize,
    pub rn: usize,
    pub offset: u32,
}

/// An ARM `B` or `BL`; the offset counts words.
#[derive(Clone, Copy, PartialEq, Eq, Structural, Debug)]
pub struct DecodedBranch {
    pub cond: ArmCond,
    pub link: bool,
    pub offset24_signed: i32,
}

/// The immediate shifts of Thumb format 1.
#[derive(Clone, Copy, PartialEq, Eq, Structural, Debug)]
pub enum ShiftKind {
    Lsl,
    Lsr,
    Asr,
}

/// Thumb format 1: shift by an immediate.
#[derive(Clone, Copy, PartialEq, Eq, Structural, Debug)]
pub struct DecodedThumb1 {
    pub kind: ShiftKind,
    pub imm5: u32,
    pub rs: usize,
    pub rd: usize,
}

/// The last operand of Thumb format 2.
#[derive(Clone, Copy, PartialEq, Eq, Structural, Debug)]
pub enum Thumb2Operand {
    Reg(usize),
    Imm3(u32),
}

/// Thumb format 2: three-operand add or subtract.
#[derive(Clone, Copy, PartialEq, Eq, Structural, Debug)]
pub struct DecodedThumb2 {
    pub sub: bool,
    pub rd: usize,
    pub rs: usize,
    pub operand: Thumb2Operand,
}

/// The operations of Thumb format 3.
#[derive(Clone, Copy, PartialEq, Eq, Structural, Debug)]
pub enum Thumb3Op {
    Mov,
    Cmp,
    Add,
    Sub,
}

/// Thumb format 3: operation with an eight-bit immediate.
#[derive(Clone, Copy, PartialEq, Eq, Structural, Debug)]
pub struct DecodedThumb3 {
    pub op: Thumb3Op,
    pub rd: usize,
    pub imm8: u32,
}

/// The logical and compare operations of Thumb format 4.
#[derive(Clone, Copy, PartialEq, Eq, Structural, Debug)]
pub enum Thumb4Op {
    And,
    Eor,
    Orr,
    Bic,
    Mvn,
    Tst,
    Cmp,
    Cmn,
}

/// Thumb format 4, logical and compare operations.
#[derive(Clone, Copy, PartialEq, Eq, Structural, Debug)]
pub struct DecodedThumb4 {
    pub op: Thumb4Op,
    pub rd: usize,
    pub rs: usize,
}

/// The operations of Thumb format 5 that do not branch.
#[derive(Clone, Copy, PartialEq, Eq, Structural, Debug)]
pub enum Thumb5Op {
    Add,
    Cmp,
    Mov,
}

/// Thumb format 5: high-register operation.
#[derive(Clone, Copy, PartialEq, Eq, Structural, Debug)]
pub struct DecodedThumb5 {
    pub op: Thumb5Op,
    pub rd: usize,
    pub rs: usize,
}

/// Thumb format 6: load relative to the program counter.
#[derive(Clone, Copy, PartialEq, Eq, Structural, Debug)]
pub struct DecodedThumb6 {
    pub rd: usize,
    pub imm8: u32,
}

/// Thumb format 7: word or byte access with a register offset.
#[derive(Clone, Copy, PartialEq, Eq, Structural, Debug)]
pub struct DecodedThumb7 {
    pub load: bool,
    pub byte: bool,
    pub ro: usize,
    pub rb: usize,
    pub rd: usize,
}

/// Thumb format 8: load of a sign-extended byte.
#[derive(Clone, Copy, PartialEq, Eq, Structural, Debug)]
pub struct DecodedThumb8Ldsb {
    pub ro: usize,
    pub rb: usize,
    pub rd: usize,
}

/// Thumb format 9: word or byte access with an immediate offset, in bytes.
#[derive(Clone, Copy, PartialEq, Eq, Structural, Debug)]
pub struct DecodedThumb9 {
    pub load: bool,
    pub byte: bool,
    pub offset: u32,
    pub rs: usize,
    pub rd: usize,
}

/// Thumb format 10: halfword access with an immediate offset, in bytes.
#[derive(Clone, Copy, PartialEq, Eq, Structural, Debug)]
pub struct DecodedThumb10 {
    pub load: bool,
    pub rs: usize,
    pub rd: usize,
    pub offset: u32,
}

/// Thumb format 11: word access relative to the stack pointer, offset in bytes.
#[derive(Clone, Copy, PartialEq, Eq, Structural, Debug)]
pub struct DecodedThumb11 {
    pub load: bool,
    pub rd: usize,
    pub offset: u32,
}

/// Thumb format 12: address relative to the program counter or stack pointer.
#[derive(Clone, Copy, PartialEq, Eq, Structural, Debug)]
pub struct DecodedThumb12 {
    pub sp: bool,
    pub rd: usize,
    pub offset: u32,
}

/// Thumb format 13: stack pointer adjustment, in bytes.
#[derive(Clone, Copy, PartialEq, Eq, Structural, Debug)]
pub struct DecodedThumb13 {
    pub sub: bool,
    pub offset: u32,
}

/// Thumb format 14: push or pop of a register list.
#[derive(Clone, Copy, PartialEq, Eq, Structural, Debug)]
pub struct DecodedThumb14 {
    pub push: bool,
    pub extra_reg: bool,
    pub reg_list: u8,
}

/// Thumb format 15: load or store of a register list with write-back.
#[derive(Clone, Copy, PartialEq, Eq, Structural, Debug)]
pub struct DecodedThumb15 {
    pub load: bool,
    pub rb: usize,
    pub rlist: u8,
}

/// Thumb `BX`.
#[derive(Clone, Copy, PartialEq, Eq, Structural, Debug)]
pub struct DecodedThumbBx {
    pub rs: usize,
}

/// Thumb formats 16 and 18: branch relative to the program counter; the offset counts halfwords.
#[derive(Clone, Copy, PartialEq, Eq, Structural, Debug)]
pub struct DecodedThumbPcBranch {
    pub cond: ArmCond,
    pub offset_signed: i32,
}

/// The number of registers among R0 to R(k-1) that a list selects.
pub open spec fn listed(list: u8, k: nat) -> nat
    decreases k,
{
    if k == 0 {
        0
    } else {
        listed(list, (k - 1) as nat) + if in_list(list, (k - 1) as usize) {
            1nat
        } else {
            0nat
        }
    }
}

/// Whether a register list selects register `r`.
pub open spec fn in_list(list: u8, r: usize) -> bool {
    bits(list as u32, r as u32, 1) == 1
}

/// Whether a register list selects register `r`.
pub fn lists(list: u8, r: usize) -> (b: bool)
    requires
        r < 8,
    ensures
        b == in_list(list, r),
{
    field(list as u32, r as u32, 1) == 1
}

impl DecodedThumb14 {
    /// How many registers the instruction transfers.
    pub open spec fn total(self) -> nat {
        listed(self.reg_list, 8) + if self.extra_reg {
            1nat
        } else {
            0nat
        }
    }

    /// The number of registers transferred.
    pub fn count(&self) -> (r: u32)
        ensures
            r == self.total(),
            r <= 9,
    {
        let mut n: u32 = 0;
        let mut i: usize = 0;
        while i < 8
            invariant
                i <= 8,
                n == listed(self.reg_list, i as nat),
                n <= i,
            decreases 8 - i,
        {
            if lists(self.reg_list, i) {
                n = n + 1;
            }
            i = i + 1;
        }
        if self.extra_reg {
            n = n + 1;
        }
        n
    }
}


/// The shift that the format 1 opcode field selects.
pub open spec fn shift_kind(oo: u32) -> ShiftKind {
    if oo == 0 {
        ShiftKind::Lsl
    } else if oo == 1 {
        ShiftKind::Lsr
    } else {
        ShiftKind::Asr
    }
}

/// The operation that the format 3 opcode field selects.
pub open spec fn thumb3_op(oo: u32) -> Thumb3Op {
    if oo == 0 {
        Thumb3Op::Mov
    } else if oo == 1 {
        Thumb3Op::Cmp
    } else if oo == 2 {
        Thumb3Op::Add
    } else {
        Thumb3Op::Sub
    }
}

/// The logical or compare operation that the format 4 opcode field selects.
pub open spec fn thumb4_op(o: u32) -> Option<Thumb4Op> {
    if o == 0b0000 {
        Some(Thumb4Op::And)
    } else if o == 0b0001 {
        Some(Thumb4Op::Eor)
    } else if o == 0b1000 {
        Some(Thumb4Op::Tst)
    } else if o == 0b1010 {
        Some(Thumb4Op::Cmp)
    } else if o == 0b1011 {
        Some(Thumb4Op::Cmn)
    } else if o == 0b1100 {
        Some(Thumb4Op::Orr)
    } else if o == 0b1110 {
        Some(Thumb4Op::Bic)
    } else if o == 0b1111 {
        Some(Thumb4Op::Mvn)
    } else {
        None
    }
}

/// The operation that the format 5 opcode field selects.
pub open spec fn thumb5_op(oo: u32) -> Thumb5Op {
    if oo == 0 {
        Thumb5Op::Add
    } else if oo == 1 {
        Thumb5Op::Cmp
    } else {
        Thumb5Op::Mov
    }
}

/// The data-processing operation that an opcode field and the S bit select.
pub open spec fn dp_op(o: u32, s: bool) -> Option<DpOp> {
    if o == 0b1101 {
        Some(DpOp::Mov)
    } else if o == 0b1111 {
        Some(DpOp::Mvn)
    } else if o == 0b0100 {
        Some(DpOp::Add)
    } else if o == 0b0010 {
        Some(DpOp::Sub)
    } else if o == 0b1010 && s {
        Some(DpOp::Cmp)
    } else if o == 0b1011 && s {
        Some(DpOp::Cmn)
    } else if o == 0b1000 && s {
        Some(DpOp::Tst)
    } else if o == 0b1001 && s {
        Some(DpOp::Teq)
    } else {
        None
    }
}


/// Format 1, `000ooiiiiisssddd` with `oo` other than `11`.
pub open spec fn thumb1(op: u16) -> Option<DecodedThumb1> {
    let x = op as u32;
    let oo = bits(x, 11, 2);
    if bits(x, 13, 3) == 0 && oo != 3 {
        Some(
            DecodedThumb1 {
                kind: shift_kind(oo),
                imm5: bits(x, 6, 5),
                rs: bits(x, 3, 3) as usize,
                rd: bits(x, 0, 3) as usize,
            },
        )
    } else {
        None
    }
}

impl DynarecCompiler {
    /// Format 1, `000ooiiiiisssddd` with `oo` other than `11`.
    pub fn decode_thumb_format1(op: u16) -> (r: Option<DecodedThumb1>)
        ensures
            r == thumb1(op),
            r matches Some(d) ==> d.imm5 < 32 && d.rs < 8 && d.rd < 8,
    {
        let x: u32 = op as u32;
        let oo: u32 = field(x, 11, 2);
        if field(x, 13, 3) == 0 && oo != 3 {
            Some(
                DecodedThumb1 {
                    kind: if oo == 0 {
                        ShiftKind::Lsl
                    } else if oo == 1 {
                        ShiftKind::Lsr
                    } else {
                        ShiftKind::Asr
                    },
                    imm5: field(x, 6, 5),
                    rs: field(x, 3, 3) as usize,
                    rd: field(x, 0, 3) as usize,
                },
            )
        } else {
            None
        }
    }
}

/// Format 2, `00011Iopnnnsssddd`.
pub open spec fn thumb2(op: u16) -> Option<DecodedThumb2> {
    let x = op as u32;
    let n = bits(x, 6, 3);
    if bits(x, 11, 5) == 0b00011 {
        Some(
            DecodedThumb2 {
                sub: bits(x, 9, 1) == 1,
                rd: bits(x, 0, 3) as usize,
                rs: bits(x, 3, 3) as usize,
                operand: if bits(x, 10, 1) == 1 {
                    Thumb2Operand::Imm3(n)
                } else {
                    Thumb2Operand::Reg(n as usize)
                },
            },
        )
    } else {
        None
    }
}

impl DynarecCompiler {
    /// Format 2, `00011Iopnnnsssddd`.
    pub fn decode_thumb_format2(op: u16) -> (r: Option<DecodedThumb2>)
        ensures
            r == thumb2(op),
            r matches Some(d) ==> d.rs < 8 && d.rd < 8,
            r matches Some(d) ==> (d.operand matches Thumb2Operand::Imm3(n) ==> n < 8) && (
                d.operand matches Thumb2Operand::Reg(n) ==> n < 8
            ),
    {
        let x: u32 = op as u32;
        let n: u32 = field(x, 6, 3);
        if field(x, 11, 5) == 0b00011 {
            Some(
                DecodedThumb2 {
                    sub: field(x, 9, 1) == 1,
                    rd: field(x, 0, 3) as usize,
                    rs: field(x, 3, 3) as usize,
                    operand: if field(x, 10, 1) == 1 {
                        Thumb2Operand::Imm3(n)
                    } else {
                        Thumb2Operand::Reg(n as usize)
                    },
                },
            )
        } else {
            None
        }
    }
}

/// Format 3, `001oodddiiiiiiii`.
pub open spec fn thumb3(op: u16) -> Option<DecodedThumb3> {
    let x = op as u32;
    let oo = bits(x, 11, 2);
    if bits(x, 13, 3) == 0b001 {
        Some(DecodedThumb3 { op: thumb3_op(oo), rd: bits(x, 8, 3) as usize, imm8: bits(x, 0, 8) })
    } else {
        None
    }
}

impl DynarecCompiler {
    /// Format 3, `001oodddiiiiiiii`.
    pub fn decode_thumb_format3(op: u16) -> (r: Option<DecodedThumb3>)
        ensures
            r == thumb3(op),
            r matches Some(d) ==> d.rd < 8 && d.imm8 < 256,
    {
        let x: u32 = op as u32;
        let oo: u32 = field(x, 11, 2);
        if field(x, 13, 3) == 0b001 {
            Some(
                DecodedThumb3 {
                    op: if oo == 0 {
                        Thumb3Op::Mov
                    } else if oo == 1 {
                        Thumb3Op::Cmp
                    } else if oo == 2 {
                        Thumb3Op::Add
                    } else {
                        Thumb3Op::Sub
                    },
                    rd: field(x, 8, 3) as usize,
                    imm8: field(x, 0, 8),
                },
            )
        } else {
            None
        }
    }
}

/// Format 4, `010000oooosssddd`, for the logical and compare operations.
pub open spec fn thumb4(op: u16) -> Option<DecodedThumb4> {
    let x = op as u32;
    match thumb4_op(bits(x, 6, 4)) {
        Some(o) if bits(x, 10, 6) == 0b010000 => Some(
            DecodedThumb4 { op: o, rd: bits(x, 0, 3) as usize, rs: bits(x, 3, 3) as usize },
        ),
        _ => None,
    }
}

impl DynarecCompiler {
    /// Format 4, `010000oooosssddd`, for the logical and compare operations.
    pub fn decode_thumb_format4_logical(op: u16) -> (r: Option<DecodedThumb4>)
        ensures
            r == thumb4(op),
            r matches Some(d) ==> d.rs < 8 && d.rd < 8,
    {
        let x: u32 = op as u32;
        if field(x, 10, 6) != 0b010000 {
            return None;
        }
        let rd: usize = field(x, 0, 3) as usize;
        let rs: usize = field(x, 3, 3) as usize;
        match field(x, 6, 4) {
            0b0000 => Some(DecodedThumb4 { op: Thumb4Op::And, rd, rs }),
            0b0001 => Some(DecodedThumb4 { op: Thumb4Op::Eor, rd, rs }),
            0b1000 => Some(DecodedThumb4 { op: Thumb4Op::Tst, rd, rs }),
            0b1010 => Some(DecodedThumb4 { op: Thumb4Op::Cmp, rd, rs }),
            0b1011 => Some(DecodedThumb4 { op: Thumb4Op::Cmn, rd, rs }),
            0b1100 => Some(DecodedThumb4 { op: Thumb4Op::Orr, rd, rs }),
            0b1110 => Some(DecodedThumb4 { op: Thumb4Op::Bic, rd, rs }),
            0b1111 => Some(DecodedThumb4 { op: Thumb4Op::Mvn, rd, rs }),
            _ => None,
        }
    }
}

/// Format 5, `010001ooHHsssddd` with `oo` other than `11`, at least one high register and no R15.
pub open spec fn thumb5(op: u16) -> Option<DecodedThumb5> {
    let x = op as u32;
    let oo = bits(x, 8, 2);
    let h1 = bits(x, 7, 1);
    let h2 = bits(x, 6, 1);
    let rd = (bits(x, 0, 3) + 8 * h1) as usize;
    let rs = (bits(x, 3, 3) + 8 * h2) as usize;
    if bits(x, 10, 6) == 0b010001 && oo != 3 && (h1 == 1 || h2 == 1) && rd != 15 && rs != 15 {
        Some(DecodedThumb5 { op: thumb5_op(oo), rd, rs })
    } else {
        None
    }
}

impl DynarecCompiler {
    /// Format 5, `010001ooHHsssddd` with `oo` other than `11`, at least one high register and no
    /// R15.
    pub fn decode_thumb_format5_non_branch(op: u16) -> (r: Option<DecodedThumb5>)
        ensures
            r == thumb5(op),
            r matches Some(d) ==> d.rs < 15 && d.rd < 15,
    {
        let x: u32 = op as u32;
        let oo: u32 = field(x, 8, 2);
        let h1: u32 = field(x, 7, 1);
        let h2: u32 = field(x, 6, 1);
        let rd: usize = (field(x, 0, 3) + 8 * h1) as usize;
        let rs: usize = (field(x, 3, 3) + 8 * h2) as usize;
        if field(x, 10, 6) == 0b010001 && oo != 3 && (h1 == 1 || h2 == 1) && rd != 15 && rs != 15 {
            Some(
                DecodedThumb5 {
                    op: if oo == 0 {
                        Thumb5Op::Add
                    } else if oo == 1 {
                        Thumb5Op::Cmp
                    } else {
                        Thumb5Op::Mov
                    },
                    rd,
                    rs,
                },
            )
        } else {
            None
        }
    }
}

/// Format 6, `01001dddiiiiiiii`.
pub open spec fn thumb6(op: u16) -> Option<DecodedThumb6> {
    let x = op as u32;
    if bits(x, 11, 5) == 0b01001 {
        Some(DecodedThumb6 { rd: bits(x, 8, 3) as usize, imm8: bits(x, 0, 8) })
    } else {
        None
    }
}

impl DynarecCompiler {
    /// Format 6, `01001dddiiiiiiii`.
    pub fn decode_thumb_format6(op: u16) -> (r: Option<DecodedThumb6>)
        ensures
            r == thumb6(op),
            r matches Some(d) ==> d.rd < 8 && d.imm8 < 256,
    {
        let x: u32 = op as u32;
        if field(x, 11, 5) == 0b01001 {
            Some(DecodedThumb6 { rd: field(x, 8, 3) as usize, imm8: field(x, 0, 8) })
        } else {
            None
        }
    }
}

/// Format 7, `0101LB0ooobbbddd`.
pub open spec fn thumb7(op: u16) -> Option<DecodedThumb7> {
    let x = op as u32;
    if bits(x, 12, 4) == 0b0101 && bits(x, 9, 1) == 0 {
        Some(
            DecodedThumb7 {
                load: bits(x, 11, 1) == 1,
                byte: bits(x, 10, 1) == 1,
                ro: bits(x, 6, 3) as usize,
                rb: bits(x, 3, 3) as usize,
                rd: bits(x, 0, 3) as usize,
            },
        )
    } else {
        None
    }
}

impl DynarecCompiler {
    /// Format 7, `0101LB0ooobbbddd`.
    pub fn decode_thumb_format7(op: u16) -> (r: Option<DecodedThumb7>)
        ensures
            r == thumb7(op),
            r matches Some(d) ==> d.ro < 8 && d.rb < 8 && d.rd < 8,
    {
        let x: u32 = op as u32;
        if field(x, 12, 4) == 0b0101 && field(x, 9, 1) == 0 {
            Some(
                DecodedThumb7 {
                    load: field(x, 11, 1) == 1,
                    byte: field(x, 10, 1) == 1,
                    ro: field(x, 6, 3) as usize,
                    rb: field(x, 3, 3) as usize,
                    rd: field(x, 0, 3) as usize,
                },
            )
        } else {
            None
        }
    }
}

/// Format 8 LDSB, `0101011ooobbbddd`.
pub open spec fn thumb8(op: u16) -> Option<DecodedThumb8Ldsb> {
    let x = op as u32;
    if bits(x, 12, 4) == 0b0101 && bits(x, 9, 1) == 1 && bits(x, 10, 2) == 0b01 {
        Some(
            DecodedThumb8Ldsb {
                ro: bits(x, 6, 3) as usize,
                rb: bits(x, 3, 3) as usize,
                rd: bits(x, 0, 3) as usize,
            },
        )
    } else {
        None
    }
}

impl DynarecCompiler {
    /// Format 8 LDSB, `0101011ooobbbddd`.
    pub fn decode_thumb_format8_ldsb(op: u16) -> (r: Option<DecodedThumb8Ldsb>)
        ensures
            r == thumb8(op),
            r matches Some(d) ==> d.ro < 8 && d.rb < 8 && d.rd < 8,
    {
        let x: u32 = op as u32;
        if field(x, 12, 4) == 0b0101 && field(x, 9, 1) == 1 && field(x, 10, 2) == 0b01 {
            Some(
                DecodedThumb8Ldsb {
                    ro: field(x, 6, 3) as usize,
                    rb: field(x, 3, 3) as usize,
                    rd: field(x, 0, 3) as usize,
                },
            )
        } else {
            None
        }
    }
}

/// Format 9, `011BLiiiiisssddd`; word offsets count words.
pub open spec fn thumb9(op: u16) -> Option<DecodedThumb9> {
    let x = op as u32;
    let byte = bits(x, 12, 1) == 1;
    let imm5 = bits(x, 6, 5);
    if bits(x, 13, 3) == 0b011 {
        Some(
            DecodedThumb9 {
                load: bits(x, 11, 1) == 1,
                byte,
                offset: if byte { imm5 } else { (imm5 * 4) as u32 },
                rs: bits(x, 3, 3) as usize,
                rd: bits(x, 0, 3) as usize,
            },
        )
    } else {
        None
    }
}

impl DynarecCompiler {
    /// Format 9, `011BLiiiiisssddd`; word offsets count words.
    pub fn decode_thumb_format9(op: u16) -> (r: Option<DecodedThumb9>)
        ensures
            r == thumb9(op),
            r matches Some(d) ==> d.rs < 8 && d.rd < 8 && d.offset < 128,
    {
        let x: u32 = op as u32;
        let byte: bool = field(x, 12, 1) == 1;
        let imm5: u32 = field(x, 6, 5);
        if field(x, 13, 3) == 0b011 {
            Some(
                DecodedThumb9 {
                    load: field(x, 11, 1) == 1,
                    byte,
                    offset: if byte { imm5 } else { imm5 * 4 },
                    rs: field(x, 3, 3) as usize,
                    rd: field(x, 0, 3) as usize,
                },
            )
        } else {
            None
        }
    }
}

/// Format 10, `1000Liiiiisssddd`; the offset counts halfwords.
pub open spec fn thumb10(op: u16) -> Option<DecodedThumb10> {
    let x = op as u32;
    let imm5 = bits(x, 6, 5);
    if bits(x, 12, 4) == 0b1000 {
        Some(
            DecodedThumb10 {
                load: bits(x, 11, 1) == 1,
                rs: bits(x, 3, 3) as usize,
                rd: bits(x, 0, 3) as usize,
                offset: (imm5 * 2) as u32,
            },
        )
    } else {
        None
    }
}

impl DynarecCompiler {
    /// Format 10, `1000Liiiiisssddd`; the offset counts halfwords.
    pub fn decode_thumb_format10(op: u16) -> (r: Option<DecodedThumb10>)
        ensures
            r == thumb10(op),
            r matches Some(d) ==> d.rs < 8 && d.rd < 8 && d.offset < 64,
    {
        let x: u32 = op as u32;
        let imm5: u32 = field(x, 6, 5);
        if field(x, 12, 4) == 0b1000 {
            Some(
                DecodedThumb10 {
                    load: field(x, 11, 1) == 1,
                    rs: field(x, 3, 3) as usize,
                    rd: field(x, 0, 3) as usize,
                    offset: imm5 * 2,
                },
            )
        } else {
            None
        }
    }
}

/// Format 11, `1001Ldddiiiiiiii`; the offset counts words.
pub open spec fn thumb11(op: u16) -> Option<DecodedThumb11> {
    let x = op as u32;
    let imm8 = bits(x, 0, 8);
    if bits(x, 12, 4) == 0b1001 {
        Some(
            DecodedThumb11 {
                load: bits(x, 11, 1) == 1,
                rd: bits(x, 8, 3) as usize,
                offset: (imm8 * 4) as u32,
            },
        )
    } else {
        None
    }
}

impl DynarecCompiler {
    /// Format 11, `1001Ldddiiiiiiii`; the offset counts words.
    pub fn decode_thumb_format11(op: u16) -> (r: Option<DecodedThumb11>)
        ensures
            r == thumb11(op),
            r matches Some(d) ==> d.rd < 8 && d.offset < 1024,
    {
        let x: u32 = op as u32;
        let imm8: u32 = field(x, 0, 8);
        if field(x, 12, 4) == 0b1001 {
            Some(
                DecodedThumb11 {
                    load: field(x, 11, 1) == 1,
                    rd: field(x, 8, 3) as usize,
                    offset: imm8 * 4,
                },
            )
        } else {
            None
        }
    }
}

/// Format 12, `1010Sdddiiiiiiii`; the offset counts words.
pub open spec fn thumb12(op: u16) -> Option<DecodedThumb12> {
    let x = op as u32;
    let imm8 = bits(x, 0, 8);
    if bits(x, 12, 4) == 0b1010 {
        Some(
            DecodedThumb12 {
                sp: bits(x, 11, 1) == 1,
                rd: bits(x, 8, 3) as usize,
                offset: (imm8 * 4) as u32,
            },
        )
    } else {
        None
    }
}

impl DynarecCompiler {
    /// Format 12, `1010Sdddiiiiiiii`; the offset counts words.
    pub fn decode_thumb_format12(op: u16) -> (r: Option<DecodedThumb12>)
        ensures
            r == thumb12(op),
            r matches Some(d) ==> d.rd < 8 && d.offset < 1024,
    {
        let x: u32 = op as u32;
        let imm8: u32 = field(x, 0, 8);
        if field(x, 12, 4) == 0b1010 {
            Some(
                DecodedThumb12 {
                    sp: field(x, 11, 1) == 1,
                    rd: field(x, 8, 3) as usize,
                    offset: imm8 * 4,
                },
            )
        } else {
            None
        }
    }
}

/// Format 13, `10110000Siiiiiii`; the offset counts words.
pub open spec fn thumb13(op: u16) -> Option<DecodedThumb13> {
    let x = op as u32;
    let imm7 = bits(x, 0, 7);
    if bits(x, 8, 8) == 0xb0 {
        Some(DecodedThumb13 { sub: bits(x, 7, 1) == 1, offset: (imm7 * 4) as u32 })
    } else {
        None
    }
}

impl DynarecCompiler {
    /// Format 13, `10110000Siiiiiii`; the offset counts words.
    pub fn decode_thumb_format13(op: u16) -> (r: Option<DecodedThumb13>)
        ensures
            r == thumb13(op),
            r matches Some(d) ==> d.offset < 512,
    {
        let x: u32 = op as u32;
        let imm7: u32 = field(x, 0, 7);
        if field(x, 8, 8) == 0xb0 {
            Some(DecodedThumb13 { sub: field(x, 7, 1) == 1, offset: imm7 * 4 })
        } else {
            None
        }
    }
}

/// Format 14, `1011L10Rrrrrrrrr`, except a pop of R15 and an empty list.
pub open spec fn thumb14(op: u16) -> Option<DecodedThumb14> {
    let x = op as u32;
    let load = bits(x, 11, 1) == 1;
    let extra = bits(x, 8, 1) == 1;
    let list = bits(x, 0, 8);
    if bits(x, 12, 4) == 0b1011 && bits(x, 9, 2) == 0b10 && !(load && extra) && !(list == 0 && !extra) {
        Some(DecodedThumb14 { push: !load, extra_reg: extra, reg_list: list as u8 })
    } else {
        None
    }
}

impl DynarecCompiler {
    /// Format 14, `1011L10Rrrrrrrrr`, except a pop of R15 and an empty list.
    pub fn decode_thumb_format14_non_pc(op: u16) -> (r: Option<DecodedThumb14>)
        ensures
            r == thumb14(op),
            r matches Some(d) ==> (!d.push ==> !d.extra_reg),
    {
        let x: u32 = op as u32;
        let load: bool = field(x, 11, 1) == 1;
        let extra: bool = field(x, 8, 1) == 1;
        let list: u32 = field(x, 0, 8);
        if field(x, 12, 4) == 0b1011 && field(x, 9, 2) == 0b10 && !(load && extra) && !(list == 0 && !extra) {
            Some(DecodedThumb14 { push: !load, extra_reg: extra, reg_list: list as u8 })
        } else {
            None
        }
    }
}

/// Format 14 pop with R15, `10111101rrrrrrrr`.
pub open spec fn thumb_pop_pc(op: u16) -> Option<DecodedThumb14> {
    let x = op as u32;
    if bits(x, 8, 8) == 0b10111101 {
        Some(DecodedThumb14 { push: false, extra_reg: true, reg_list: bits(x, 0, 8) as u8 })
    } else {
        None
    }
}

impl DynarecCompiler {
    /// Format 14 pop with R15, `10111101rrrrrrrr`.
    pub fn decode_thumb_pop_pc(op: u16) -> (r: Option<DecodedThumb14>)
        ensures
            r == thumb_pop_pc(op),
    {
        let x: u32 = op as u32;
        if field(x, 8, 8) == 0b10111101 {
            Some(DecodedThumb14 { push: false, extra_reg: true, reg_list: field(x, 0, 8) as u8 })
        } else {
            None
        }
    }
}

/// Format 15, `1100Lbbbrrrrrrrr`, except an empty list and a store of a list with the base in it.
pub open spec fn thumb15(op: u16) -> Option<DecodedThumb15> {
    let x = op as u32;
    let load = bits(x, 11, 1) == 1;
    let rb = bits(x, 8, 3) as usize;
    let list = bits(x, 0, 8) as u8;
    if bits(x, 12, 4) == 0b1100 && list != 0 && (load || !in_list(list, rb)) {
        Some(DecodedThumb15 { load, rb, rlist: list })
    } else {
        None
    }
}

impl DynarecCompiler {
    /// Format 15, `1100Lbbbrrrrrrrr`, except an empty list and a store of a list with the base in
    /// it.
    pub fn decode_thumb_format15(op: u16) -> (r: Option<DecodedThumb15>)
        ensures
            r == thumb15(op),
            r matches Some(d) ==> d.rb < 8 && d.rlist != 0 && (!d.load ==> !in_list(d.rlist, d.rb)),
    {
        let x: u32 = op as u32;
        let load: bool = field(x, 11, 1) == 1;
        let rb: usize = field(x, 8, 3) as usize;
        let list: u8 = field(x, 0, 8) as u8;
        if field(x, 12, 4) == 0b1100 && list != 0 && (load || !lists(list, rb)) {
            Some(DecodedThumb15 { load, rb, rlist: list })
        } else {
            None
        }
    }
}

/// `BX`, `010001110Hsss000`, of any register but R15.
pub open spec fn thumb_bx(op: u16) -> Option<DecodedThumbBx> {
    let x = op as u32;
    let rs = bits(x, 3, 4) as usize;
    if bits(x, 7, 9) == 0b010001110 && bits(x, 0, 3) == 0 && rs != 15 {
        Some(DecodedThumbBx { rs })
    } else {
        None
    }
}

impl DynarecCompiler {
    /// `BX`, `010001110Hsss000`, of any register but R15.
    pub fn decode_thumb_bx(op: u16) -> (r: Option<DecodedThumbBx>)
        ensures
            r == thumb_bx(op),
            r matches Some(d) ==> d.rs < 15,
    {
        let x: u32 = op as u32;
        let rs: usize = field(x, 3, 4) as usize;
        if field(x, 7, 9) == 0b010001110 && field(x, 0, 3) == 0 && rs != 15 {
            Some(DecodedThumbBx { rs })
        } else {
            None
        }
    }
}

/// Format 18, `11100iiiiiiiiiii`.
pub open spec fn thumb18(op: u16) -> Option<DecodedThumbPcBranch> {
    let x = op as u32;
    if bits(x, 11, 5) == 0b11100 {
        Some(
            DecodedThumbPcBranch {
                cond: ArmCond::Al,
                offset_signed: signed_field(bits(x, 0, 11), 1024) as i32,
            },
        )
    } else {
        None
    }
}

/// Format 16, `1101cccciiiiiiii` with `cccc` below `1110`.
pub open spec fn thumb16(op: u16) -> Option<DecodedThumbPcBranch> {
    let x = op as u32;
    let c = bits(x, 8, 4);
    if bits(x, 12, 4) == 0b1101 && c < 14 {
        Some(
            DecodedThumbPcBranch {
                cond: ArmCond::named(c),
                offset_signed: signed_field(bits(x, 0, 8), 128) as i32,
            },
        )
    } else {
        None
    }
}

/// `B` and `BL`, `cccc101L` and a 24-bit offset, with `cccc` other than `1111`.
pub open spec fn arm_branch(x: u32) -> Option<DecodedBranch> {
    let c = bits(x, 28, 4);
    if c != 15 && bits(x, 25, 3) == 0b101 {
        Some(
            DecodedBranch {
                cond: ArmCond::named(c),
                link: bits(x, 24, 1) == 1,
                offset24_signed: signed_field(bits(x, 0, 24), 0x80_0000) as i32,
            },
        )
    } else {
        None
    }
}

/// `LDR` and `STR` of a word or byte, `cccc0101UB0Lnnnndddd` and a 12-bit offset.
pub open spec fn arm_mem(x: u32) -> Option<DecodedMem> {
    let c = bits(x, 28, 4);
    if c != 15 && bits(x, 26, 2) == 0b01 && bits(x, 25, 1) == 0 && bits(x, 24, 1) == 1 && bits(
        x,
        21,
        1,
    ) == 0 {
        Some(
            DecodedMem {
                cond: ArmCond::named(c),
                load: bits(x, 20, 1) == 1,
                byte: bits(x, 22, 1) == 1,
                add: bits(x, 23, 1) == 1,
                rd: bits(x, 12, 4) as usize,
                rn: bits(x, 16, 4) as usize,
                offset: bits(x, 0, 12),
            },
        )
    } else {
        None
    }
}

/// The second operand of a supported data-processing instruction: a rotated immediate, or a
/// register below R15 with no shift.
pub open spec fn dp_operand(x: u32) -> Option<Operand2> {
    if bits(x, 25, 1) == 1 {
        Some(Operand2::Imm(rotated_right(bits(x, 0, 8), (2 * bits(x, 8, 4)) as u32)))
    } else if bits(x, 4, 8) == 0 && bits(x, 0, 4) != 15 {
        Some(Operand2::Reg(bits(x, 0, 4) as usize))
    } else {
        None
    }
}

/// The supported data-processing instructions: a condition other than `1111`, one of eight
/// operations, and no use of R15.
pub open spec fn arm_dp(x: u32) -> Option<DecodedDp> {
    let c = bits(x, 28, 4);
    let s = bits(x, 20, 1) == 1;
    let rd = bits(x, 12, 4) as usize;
    let rn = bits(x, 16, 4) as usize;
    match (dp_op(bits(x, 21, 4), s), dp_operand(x)) {
        (Some(op), Some(operand2)) if c != 15 && bits(x, 26, 2) == 0 && rd < 15 && rn < 15 => Some(
            DecodedDp { cond: ArmCond::named(c), op, rd, rn, operand2, s },
        ),
        _ => None,
    }
}

impl DynarecCompiler {
    /// Format 18, `11100iiiiiiiiiii`.
    pub fn decode_thumb_format18(op: u16) -> (r: Option<DecodedThumbPcBranch>)
        ensures
            r == thumb18(op),
            r matches Some(d) ==> -1024 <= d.offset_signed < 1024 && d.cond != ArmCond::Invalid,
    {
        let x: u32 = op as u32;
        if field(x, 11, 5) == 0b11100 {
            Some(
                DecodedThumbPcBranch {
                    cond: ArmCond::Al,
                    offset_signed: sign_extend(field(x, 0, 11), 1024),
                },
            )
        } else {
            None
        }
    }

    /// Format 16, `1101cccciiiiiiii` with `cccc` below `1110`.
    pub fn decode_thumb_format16(op: u16) -> (r: Option<DecodedThumbPcBranch>)
        ensures
            r == thumb16(op),
            r matches Some(d) ==> -128 <= d.offset_signed < 128 && d.cond != ArmCond::Invalid,
    {
        let x: u32 = op as u32;
        let c: u32 = field(x, 8, 4);
        if field(x, 12, 4) == 0b1101 && c < 14 {
            Some(
                DecodedThumbPcBranch {
                    cond: ArmCond::from_bits(c),
                    offset_signed: sign_extend(field(x, 0, 8), 128),
                },
            )
        } else {
            None
        }
    }

    /// `B` and `BL` with any condition but the reserved one.
    pub fn decode_branch(x: u32) -> (r: Option<DecodedBranch>)
        ensures
            r == arm_branch(x),
            r matches Some(d) ==> -0x80_0000 <= d.offset24_signed < 0x80_0000 && d.cond
                != ArmCond::Invalid,
    {
        let c: u32 = field(x, 28, 4);
        if c != 15 && field(x, 25, 3) == 0b101 {
            Some(
                DecodedBranch {
                    cond: ArmCond::from_bits(c),
                    link: field(x, 24, 1) == 1,
                    offset24_signed: sign_extend(field(x, 0, 24), 0x80_0000),
                },
            )
        } else {
            None
        }
    }

    /// `LDR` and `STR` with a pre-indexed immediate offset and no write-back.
    pub fn decode_mem_immediate(x: u32) -> (r: Option<DecodedMem>)
        ensures
            r == arm_mem(x),
            r matches Some(d) ==> d.rd < 16 && d.rn < 16 && d.offset < 4096 && d.cond
                != ArmCond::Invalid,
    {
        let c: u32 = field(x, 28, 4);
        if c != 15 && field(x, 26, 2) == 0b01 && field(x, 25, 1) == 0 && field(x, 24, 1) == 1
            && field(x, 21, 1) == 0 {
            Some(
                DecodedMem {
                    cond: ArmCond::from_bits(c),
                    load: field(x, 20, 1) == 1,
                    byte: field(x, 22, 1) == 1,
                    add: field(x, 23, 1) == 1,
                    rd: field(x, 12, 4) as usize,
                    rn: field(x, 16, 4) as usize,
                    offset: field(x, 0, 12),
                },
            )
        } else {
            None
        }
    }

    /// The supported data-processing instructions.
    pub fn decode_supported_dp(x: u32) -> (r: Option<DecodedDp>)
        ensures
            r == arm_dp(x),
            r matches Some(d) ==> d.ok(),
    {
        let c: u32 = field(x, 28, 4);
        let rd: usize = field(x, 12, 4) as usize;
        let rn: usize = field(x, 16, 4) as usize;
        if c == 15 || field(x, 26, 2) != 0 || rd == 15 || rn == 15 {
            return None;
        }
        let s: bool = field(x, 20, 1) == 1;
        let op: DpOp = match field(x, 21, 4) {
            0b1101 => DpOp::Mov,
            0b1111 => DpOp::Mvn,
            0b0100 => DpOp::Add,
            0b0010 => DpOp::Sub,
            0b1010 if s => DpOp::Cmp,
            0b1011 if s => DpOp::Cmn,
            0b1000 if s => DpOp::Tst,
            0b1001 if s => DpOp::Teq,
            _ => return None,
        };
        let rm: u32 = field(x, 0, 4);
        let operand2: Operand2 = if field(x, 25, 1) == 1 {
            Operand2::Imm(rotate_right(field(x, 0, 8), 2 * field(x, 8, 4)))
        } else if field(x, 4, 8) == 0 && rm != 15 {
            Operand2::Reg(rm as usize)
        } else {
            return None;
        };
        Some(DecodedDp { cond: ArmCond::from_bits(c), op, rd, rn, operand2, s })
    }
}

} // verus!
