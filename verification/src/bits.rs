//! Bit fields, signed readings of machine words, and the NZCV flag arithmetic.

use vstd::prelude::*;

verus! {

/// The `w` bits of `x` that start at bit `lo`, as a number.
pub open spec fn bits(x: u32, lo: u32, w: u32) -> u32 {
    (x >> lo) & (((1u32 << w) - 1) as u32)
}

/// Bit `i` of `x`.
pub open spec fn bit(x: u32, i: u32) -> bool {
    (x >> i) & 1 == 1
}

/// Reads a bit field.
pub fn field(x: u32, lo: u32, w: u32) -> (r: u32)
    requires
        lo < 32,
        0 < w < 32,
    ensures
        r == bits(x, lo, w),
        w == 1 ==> r < 2,
        w == 2 ==> r < 4,
        w == 3 ==> r < 8,
        w == 4 ==> r < 16,
        w == 5 ==> r < 32,
        w == 7 ==> r < 128,
        w == 8 ==> r < 256,
        w == 10 ==> r < 1024,
        w == 11 ==> r < 2048,
        w == 12 ==> r < 4096,
        w == 24 ==> r < 0x100_0000,
{
    proof {
        lemma_bits_range(x, lo, w);
    }
    (x >> lo) & ((1u32 << w) - 1)
}

/// A bit field of width `w` is below two to the power `w`, for the widths in use.
pub proof fn lemma_bits_range(x: u32, lo: u32, w: u32)
    requires
        lo < 32,
        0 < w < 32,
    ensures
        (1u32 << w) >= 1,
        w == 1 ==> bits(x, lo, w) < 2,
        w == 2 ==> bits(x, lo, w) < 4,
        w == 3 ==> bits(x, lo, w) < 8,
        w == 4 ==> bits(x, lo, w) < 16,
        w == 5 ==> bits(x, lo, w) < 32,
        w == 7 ==> bits(x, lo, w) < 128,
        w == 8 ==> bits(x, lo, w) < 256,
        w == 10 ==> bits(x, lo, w) < 1024,
        w == 11 ==> bits(x, lo, w) < 2048,
        w == 12 ==> bits(x, lo, w) < 4096,
        w == 24 ==> bits(x, lo, w) < 0x100_0000,
{
    assert((1u32 << w) >= 1 && (w == 1 ==> (x >> lo) & (((1u32 << w) - 1) as u32) < 2) && (w == 2
        ==> (x >> lo) & (((1u32 << w) - 1) as u32) < 4) && (w == 3 ==> (x >> lo) & (((1u32 << w)
        - 1) as u32) < 8) && (w == 4 ==> (x >> lo) & (((1u32 << w) - 1) as u32) < 16) && (w == 5
        ==> (x >> lo) & (((1u32 << w) - 1) as u32) < 32) && (w == 7 ==> (x >> lo) & (((1u32 << w)
        - 1) as u32) < 128) && (w == 8 ==> (x >> lo) & (((1u32 << w) - 1) as u32) < 256) && (w == 10 ==> (x >> lo) & (((1u32 << w) - 1) as u32) < 1024) && (w
        == 11 ==> (x >> lo) & (((1u32 << w) - 1) as u32) < 2048) && (w == 12 ==> (x >> lo) & (((
    1u32 << w) - 1) as u32) < 4096) && (w == 24 ==> (x >> lo) & (((1u32 << w) - 1) as u32)
        < 0x100_0000)) by (bit_vector)
        requires
            0 < w < 32,
    ;
}

/// Reads one bit.
pub fn test_bit(x: u32, i: u32) -> (r: bool)
    requires
        i < 32,
    ensures
        r == bit(x, i),
{
    (x >> i) & 1 == 1
}

/// A word rotated right by fewer than 32 places.
pub open spec fn rotated_right(x: u32, n: u32) -> u32 {
    if n == 0 {
        x
    } else {
        (x >> n) | (x << ((32 - n) as u32))
    }
}

/// Rotates a word right.
pub fn rotate_right(x: u32, n: u32) -> (r: u32)
    requires
        n < 32,
    ensures
        r == rotated_right(x, n),
{
    if n == 0 {
        x
    } else {
        (x >> n) | (x << (32 - n))
    }
}

/// The value of a word read as a two's-complement number.
pub open spec fn signed(x: u32) -> int {
    if x < 0x8000_0000 {
        x as int
    } else {
        x - 0x1_0000_0000
    }
}

/// The value of a `w`-bit field read as a two's-complement number, where `half` is two to the
/// power `w - 1`.
pub open spec fn signed_field(x: u32, half: u32) -> int {
    if x < half {
        x as int
    } else {
        x - 2 * half
    }
}

/// The word that represents an integer modulo two to the power 32.
pub open spec fn word(x: int) -> u32 {
    (x % 0x1_0000_0000) as u32
}

/// Sign-extends a field; `half` is two to the power of its width less one.
pub fn sign_extend(x: u32, half: u32) -> (r: i32)
    requires
        0 < half <= 0x80_0000,
        x < 2 * half,
    ensures
        r == signed_field(x, half),
        -(half as int) <= r < half,
{
    if x < half {
        x as i32
    } else {
        x as i32 - (half as i32) - (half as i32)
    }
}

/// The word `x + d` modulo two to the power 32, for a signed displacement.
pub fn offset_by(x: u32, d: i32) -> (r: u32)
    ensures
        r == word(x + d),
{
    if d >= 0 {
        x.wrapping_add(d as u32)
    } else {
        let m: u32 = if d == i32::MIN {
            0x8000_0000
        } else {
            (-d) as u32
        };
        x.wrapping_sub(m)
    }
}

/// The value of an arithmetic right shift.
pub open spec fn sshr(x: u32, n: u32) -> u32 {
    if x < 0x8000_0000 {
        x >> n
    } else {
        !((!x) >> n)
    }
}

/// Shifts a word right arithmetically.
pub fn shift_right_signed(x: u32, n: u32) -> (r: u32)
    requires
        n < 32,
    ensures
        r == sshr(x, n),
{
    if x < 0x8000_0000 {
        x >> n
    } else {
        !((!x) >> n)
    }
}

/// A truth value as a word.
pub open spec fn truth(b: bool) -> u32 {
    if b {
        1
    } else {
        0
    }
}

pub const N_MASK: u32 = 0x8000_0000;

pub const Z_MASK: u32 = 0x4000_0000;

pub const C_MASK: u32 = 0x2000_0000;

pub const V_MASK: u32 = 0x1000_0000;

pub open spec fn flag_n(cpsr: u32) -> bool {
    cpsr & N_MASK != 0
}

pub open spec fn flag_z(cpsr: u32) -> bool {
    cpsr & Z_MASK != 0
}

pub open spec fn flag_c(cpsr: u32) -> bool {
    cpsr & C_MASK != 0
}

pub open spec fn flag_v(cpsr: u32) -> bool {
    cpsr & V_MASK != 0
}

/// `mask` if `b` holds, no bit otherwise.
pub open spec fn mask_if(b: bool, mask: u32) -> u32 {
    if b {
        mask
    } else {
        0
    }
}

/// A status word with all four flags replaced.
pub open spec fn with_nzcv(cpsr: u32, n: bool, z: bool, c: bool, v: bool) -> u32 {
    (cpsr & 0x0fff_ffff) | mask_if(n, N_MASK) | mask_if(z, Z_MASK) | mask_if(c, C_MASK) | mask_if(
        v,
        V_MASK,
    )
}

/// A status word with N and Z set from a result, C replaced, V kept.
pub open spec fn with_nzc(cpsr: u32, result: u32, c: bool) -> u32 {
    with_nzcv(cpsr, negative(result), result == 0, c, flag_v(cpsr))
}

/// A status word with N and Z set from a result, C and V kept.
pub open spec fn with_nz(cpsr: u32, result: u32) -> u32 {
    with_nzcv(cpsr, negative(result), result == 0, flag_c(cpsr), flag_v(cpsr))
}

/// The sign bit of a result.
pub open spec fn negative(x: u32) -> bool {
    x >= 0x8000_0000
}

/// Unsigned carry out of an addition.
pub open spec fn add_carries(a: u32, b: u32) -> bool {
    a + b > u32::MAX
}

/// Signed overflow of an addition.
pub open spec fn add_overflows(a: u32, b: u32) -> bool {
    !(i32::MIN <= signed(a) + signed(b) <= i32::MAX)
}

/// Signed overflow of a subtraction.
pub open spec fn sub_overflows(a: u32, b: u32) -> bool {
    !(i32::MIN <= signed(a) - signed(b) <= i32::MAX)
}

/// The status word after `a + b`.
pub open spec fn add_flags(cpsr: u32, a: u32, b: u32) -> u32 {
    let r = a.wrapping_add(b);
    with_nzcv(cpsr, negative(r), r == 0, add_carries(a, b), add_overflows(a, b))
}

/// The status word after `a - b`; C is the absence of a borrow.
pub open spec fn sub_flags(cpsr: u32, a: u32, b: u32) -> u32 {
    let r = a.wrapping_sub(b);
    with_nzcv(cpsr, negative(r), r == 0, a >= b, sub_overflows(a, b))
}

} // verus!
