//! The barrel shifter and the arithmetic of the core.

use vstd::prelude::*;
use crate::bits::{
    add_carries, add_overflows, bit, rotate_right, rotated_right, shift_right_signed, signed, sshr,
    sub_overflows, test_bit, truth, word,
};

verus! {

/// The operations of the barrel shifter.
#[derive(Clone, Copy, PartialEq, Eq, Structural, Debug)]
pub enum BarrelShiftOpCode {
    LSL,
    LSR,
    ASR,
    ROR,
}

/// A shifted value and the carry out. In an immediate encoding a zero amount of a right shift
/// stands for 32, and of a rotation for a rotation through the carry by one; elsewhere a zero
/// amount changes nothing.
pub open spec fn shifted(
    op: BarrelShiftOpCode,
    val: u32,
    amount: u32,
    carry: bool,
    immediate: bool,
) -> (u32, bool) {
    match op {
        BarrelShiftOpCode::LSL => if amount == 0 {
            (val, carry)
        } else if amount < 32 {
            (val << amount, bit(val, (32 - amount) as u32))
        } else if amount == 32 {
            (0, bit(val, 0))
        } else {
            (0, false)
        },
        BarrelShiftOpCode::LSR => if amount == 0 && !immediate {
            (val, carry)
        } else if amount == 0 || amount == 32 {
            (0, bit(val, 31))
        } else if amount < 32 {
            (val >> amount, bit(val, (amount - 1) as u32))
        } else {
            (0, false)
        },
        BarrelShiftOpCode::ASR => if amount == 0 && !immediate {
            (val, carry)
        } else if amount == 0 || amount >= 32 {
            (if bit(val, 31) {
                0xffff_ffff
            } else {
                0
            }, bit(val, 31))
        } else {
            (sshr(val, amount), bit(val, (amount - 1) as u32))
        },
        BarrelShiftOpCode::ROR => if amount == 0 && !immediate {
            (val, carry)
        } else if amount == 0 {
            ((val >> 1u32) | (truth(carry) << 31u32), bit(val, 0))
        } else {
            let r = rotated_right(val, amount % 32);
            (r, bit(r, 31))
        },
    }
}

/// Shifts a value.
pub fn barrel_shift_op(
    op: BarrelShiftOpCode,
    val: u32,
    amount: u32,
    carry: bool,
    immediate: bool,
) -> (r: (u32, bool))
    ensures
        r == shifted(op, val, amount, carry, immediate),
{
    match op {
        BarrelShiftOpCode::LSL => {
            if amount == 0 {
                (val, carry)
            } else if amount < 32 {
                (val << amount, test_bit(val, 32 - amount))
            } else if amount == 32 {
                (0, test_bit(val, 0))
            } else {
                (0, false)
            }
        },
        BarrelShiftOpCode::LSR => {
            if amount == 0 && !immediate {
                (val, carry)
            } else if amount == 0 || amount == 32 {
                (0, test_bit(val, 31))
            } else if amount < 32 {
                (val >> amount, test_bit(val, amount - 1))
            } else {
                (0, false)
            }
        },
        BarrelShiftOpCode::ASR => {
            if amount == 0 && !immediate {
                (val, carry)
            } else if amount == 0 || amount >= 32 {
                let sign: bool = test_bit(val, 31);
                (if sign { 0xffff_ffff } else { 0 }, sign)
            } else {
                (shift_right_signed(val, amount), test_bit(val, amount - 1))
            }
        },
        BarrelShiftOpCode::ROR => {
            if amount == 0 && !immediate {
                (val, carry)
            } else if amount == 0 {
                let c: u32 = if carry { 1 } else { 0 };
                ((val >> 1u32) | (c << 31u32), test_bit(val, 0))
            } else {
                let r: u32 = rotate_right(val, amount % 32);
                (r, test_bit(r, 31))
            }
        },
    }
}

/// A result with the carry and overflow it leaves.
#[derive(Clone, Copy, PartialEq, Eq, Structural, Debug)]
pub struct Computed {
    pub value: u32,
    pub carry: bool,
    pub overflow: bool,
}

pub open spec fn added(a: u32, b: u32) -> Computed {
    Computed { value: a.wrapping_add(b), carry: add_carries(a, b), overflow: add_overflows(a, b) }
}

/// Subtraction; the carry is the absence of a borrow.
pub open spec fn subtracted(a: u32, b: u32) -> Computed {
    Computed { value: a.wrapping_sub(b), carry: a >= b, overflow: sub_overflows(a, b) }
}

/// Addition with a carry in.
pub open spec fn added_with_carry(a: u32, b: u32, c: bool) -> Computed {
    let k = truth(c);
    Computed {
        value: word(a + b + k),
        carry: a + b + k > u32::MAX,
        overflow: !(i32::MIN <= signed(a) + signed(b) + k <= i32::MAX),
    }
}

/// Subtraction with a borrow in; the borrow is the absence of a carry.
pub open spec fn subtracted_with_carry(a: u32, b: u32, c: bool) -> Computed {
    let k = 1 - truth(c);
    Computed {
        value: word(a - b - k),
        carry: a >= b + k,
        overflow: !(i32::MIN <= signed(a) - signed(b) - k <= i32::MAX),
    }
}

/// The value of a word read as a two's-complement number.
fn to_signed(x: u32) -> (r: i64)
    ensures
        r == signed(x),
{
    if x < 0x8000_0000 {
        x as i64
    } else {
        x as i64 - 0x1_0000_0000
    }
}

fn overflows(x: i64) -> (r: bool)
    ensures
        r == !(i32::MIN <= x <= i32::MAX),
{
    !(-0x8000_0000 <= x && x <= 0x7fff_ffff)
}

pub fn alu_add_flags(a: u32, b: u32) -> (r: Computed)
    ensures
        r == added(a, b),
{
    Computed {
        value: a.wrapping_add(b),
        carry: a as u64 + b as u64 > 0xffff_ffff,
        overflow: overflows(to_signed(a) + to_signed(b)),
    }
}

pub fn alu_sub_flags(a: u32, b: u32) -> (r: Computed)
    ensures
        r == subtracted(a, b),
{
    Computed {
        value: a.wrapping_sub(b),
        carry: a >= b,
        overflow: overflows(to_signed(a) - to_signed(b)),
    }
}

pub fn alu_adc_flags(a: u32, b: u32, c: bool) -> (r: Computed)
    ensures
        r == added_with_carry(a, b, c),
{
    let k: u32 = if c { 1 } else { 0 };
    Computed {
        value: a.wrapping_add(b).wrapping_add(k),
        carry: a as u64 + b as u64 + k as u64 > 0xffff_ffff,
        overflow: overflows(to_signed(a) + to_signed(b) + k as i64),
    }
}

pub fn alu_sbc_flags(a: u32, b: u32, c: bool) -> (r: Computed)
    ensures
        r == subtracted_with_carry(a, b, c),
{
    let k: u32 = if c { 0 } else { 1 };
    Computed {
        value: a.wrapping_sub(b).wrapping_sub(k),
        carry: a as u64 >= b as u64 + k as u64,
        overflow: overflows(to_signed(a) - to_signed(b) - k as i64),
    }
}

/// How many internal cycles a multiplication by `rs` takes: one for each byte up to the highest
/// that is not zero, and at least one.
pub open spec fn multiplier_cycles(rs: u32) -> usize {
    if rs < 0x100 {
        1
    } else if rs < 0x1_0000 {
        2
    } else if rs < 0x100_0000 {
        3
    } else {
        4
    }
}

} // verus!
