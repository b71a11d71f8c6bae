//! Words and status words as numbers.

use vstd::prelude::*;
use crate::bits::{
    C_MASK, N_MASK, V_MASK, Z_MASK, bit, bits, flag_c, flag_n, flag_v, flag_z, mask_if,
    rotated_right, sshr, with_nzcv,
};
use vstd::arithmetic::div_mod::lemma_fundamental_div_mod;
use vstd::arithmetic::power2::{lemma2_to64, lemma_pow2_adds, lemma_pow2_pos, pow2};
use vstd::bits::{
    lemma_u32_low_bits_mask_is_mod, lemma_u32_pow2_no_overflow, lemma_u32_shl_is_mul,
    lemma_u32_shr_is_div, low_bits_mask,
};

verus! {

/// The word that a number comes to modulo two to the power 32.
pub open spec fn wrapped(x: int) -> u32 {
    (x % 0x1_0000_0000) as u32
}

/// A word read as a two's-complement number.
pub open spec fn as_signed(x: u32) -> int {
    if x >= 0x8000_0000 {
        x - 0x1_0000_0000
    } else {
        x as int
    }
}

/// Whether a number does not fit into a two's-complement word.
pub open spec fn too_wide(x: int) -> bool {
    x < -0x8000_0000 || x > 0x7fff_ffff
}

/// Bit `n` of a number, as a number.
pub open spec fn digit_at(x: int, n: nat) -> int {
    x / (pow2(n) as int) % 2
}

pub open spec fn one_if(b: bool) -> int {
    if b {
        1
    } else {
        0
    }
}

/// The four flags of a status word as numbers: N is worth 8, Z 4, C 2 and V 1.
pub open spec fn flags_of(raw: u32) -> int {
    raw as int / 0x1000_0000
}

#[verifier::opaque]
pub open spec fn n_of(raw: u32) -> bool {
    raw as int / 0x8000_0000 == 1
}

#[verifier::opaque]
pub open spec fn z_of(raw: u32) -> bool {
    raw as int / 0x4000_0000 % 2 == 1
}

#[verifier::opaque]
pub open spec fn c_of(raw: u32) -> bool {
    raw as int / 0x2000_0000 % 2 == 1
}

#[verifier::opaque]
pub open spec fn v_of(raw: u32) -> bool {
    raw as int / 0x1000_0000 % 2 == 1
}

/// A status word with its four flags replaced and the other bits kept.
#[verifier::opaque]
pub open spec fn flagged(raw: u32, n: bool, z: bool, c: bool, v: bool) -> u32 {
    (raw as int % 0x1000_0000 + 0x8000_0000 * one_if(n) + 0x4000_0000 * one_if(z) + 0x2000_0000
        * one_if(c) + 0x1000_0000 * one_if(v)) as u32
}

/// The flags for a result: N and Z from the result, C and V as given.
pub open spec fn result_flags(raw: u32, r: u32, c: bool, v: bool) -> u32 {
    flagged(raw, r >= 0x8000_0000, r == 0, c, v)
}

/// Masks as numbers.
#[verifier::rlimit(60)]
#[verifier::spinoff_prover]
pub proof fn lemma_masks(x: u32)
    ensures
        (x & 0x8000_0000 != 0) == n_of(x),
        (x & 0x4000_0000 != 0) == z_of(x),
        (x & 0x2000_0000 != 0) == c_of(x),
        (x & 0x1000_0000 != 0) == v_of(x),
        x & 0x0fff_ffff == x % 0x1000_0000,
        x & 0xf000_00ff == x - x % 0x1000_0000 + x % 0x100,
        (x & 0x20 != 0) == (x / 0x20 % 2 == 1),
        x & 0x1f == x % 0x20,
        x & !0x1fu32 == x - x % 0x20,
        x & 1 == x % 2,
        x & 3 == x % 4,
        x & 0xff == x % 0x100,
        x & 0xffff_fffe == x - x % 2,
        x & 0xffff_fffc == x - x % 4,
        x & 0xffff_fffd == x - 2 * (x / 2 % 2),
        x | 1 == x - x % 2 + 1,
        x | 0x20 == x - 0x20 * (x / 0x20 % 2) + 0x20,
        x & !0x20u32 == x - 0x20 * (x / 0x20 % 2),
        x | 0x40 == x - 0x40 * (x / 0x40 % 2) + 0x40,
        x | 0x80 == x - 0x80 * (x / 0x80 % 2) + 0x80,
        !x == 0xffff_ffff - x,
{
    reveal(n_of);
    reveal(z_of);
    reveal(c_of);
    reveal(v_of);
    assert(x & 0x8000_0000 == ((x >> 31u32) & 1) << 31u32 && x & 0x4000_0000 == ((x >> 30u32) & 1)
        << 30u32 && x & 0x2000_0000 == ((x >> 29u32) & 1) << 29u32 && x & 0x1000_0000 == ((x
        >> 28u32) & 1) << 28u32 && x & 0x80 == ((x >> 7u32) & 1) << 7u32 && x & 0x40 == ((x >> 6u32)
        & 1) << 6u32 && x & 0x20 == ((x >> 5u32) & 1) << 5u32 && x & 2 == ((x >> 1u32) & 1) << 1u32
        && x & 0xf000_0000 == (x >> 28u32) << 28u32 && x & !0x1fu32 == (x >> 5u32) << 5u32 && x
        & 0xffff_fffe == (x >> 1u32) << 1u32 && x & 0xffff_fffc == (x >> 2u32) << 2u32 && 1u32 << 1u32 == 2) by (bit_vector);
    assert(x & 0xf000_00ff == (x & 0xf000_0000) + (x & 0xff) && x & 0xffff_fffd == x - (x & 2) && x
        | 1 == (x & 0xffff_fffe) + 1 && x | 0x20 == (x & !0x20u32) + 0x20 && x & !0x20u32 == x - (x
        & 0x20) && x | 0x40 == x - (x & 0x40) + 0x40 && x | 0x80 == x - (x & 0x80) + 0x80 && !x
        == 0xffff_ffff - x) by (bit_vector);
    lemma2_to64();
    lemma_field(x, 31, 1);
    lemma_field(x, 30, 1);
    lemma_field(x, 29, 1);
    lemma_field(x, 28, 1);
    lemma_field(x, 7, 1);
    lemma_field(x, 6, 1);
    lemma_field(x, 5, 1);
    lemma_field(x, 1, 1);
    lemma_u32_low_bits_mask_is_mod(x, 28);
    lemma_u32_low_bits_mask_is_mod(x, 8);
    lemma_u32_low_bits_mask_is_mod(x, 5);
    lemma_u32_low_bits_mask_is_mod(x, 2);
    lemma_u32_low_bits_mask_is_mod(x, 1);
    lemma_u32_shr_is_div(x, 28);
    lemma_u32_shr_is_div(x, 5);
    lemma_u32_shr_is_div(x, 2);
    lemma_u32_shr_is_div(x, 1);
    lemma_u32_shl_is_mul(x >> 28u32, 28);
    lemma_u32_shl_is_mul(x >> 5u32, 5);
    lemma_u32_shl_is_mul(x >> 2u32, 2);
    lemma_u32_shl_is_mul(x >> 1u32, 1);
    lemma_u32_shl_is_mul((x >> 31u32) & 1, 31);
    lemma_u32_shl_is_mul((x >> 30u32) & 1, 30);
    lemma_u32_shl_is_mul((x >> 29u32) & 1, 29);
    lemma_u32_shl_is_mul((x >> 28u32) & 1, 28);
    lemma_u32_shl_is_mul((x >> 7u32) & 1, 7);
    lemma_u32_shl_is_mul((x >> 6u32) & 1, 6);
    lemma_u32_shl_is_mul((x >> 5u32) & 1, 5);
    lemma_u32_shl_is_mul((x >> 1u32) & 1, 1);
}

/// The flags of a status word.
pub proof fn lemma_flag_reads(raw: u32)
    ensures
        flag_n(raw) == n_of(raw),
        flag_z(raw) == z_of(raw),
        flag_c(raw) == c_of(raw),
        flag_v(raw) == v_of(raw),
{
    lemma_masks(raw);
}

/// The low byte of a word.
pub proof fn lemma_low_byte(x: u32)
    ensures
        x & 0xff == x % 256,
{
    lemma_masks(x);
}

/// Addresses cut down to a multiple of two or four.
pub proof fn lemma_cut(x: u32)
    ensures
        x & 0xffff_fffe == x - x % 2,
        x & 0xffff_fffc == x - x % 4,
        x & 3 == x % 4,
        x & 1 == x % 2,
{
    lemma_masks(x);
}

/// A word made odd.
pub proof fn lemma_odd(x: u32)
    ensures
        x | 1 == x - x % 2 + 1,
{
    lemma_masks(x);
}

/// The instruction set that a status word selects.
pub proof fn lemma_set_bit(raw: u32)
    ensures
        (raw & 0x20 != 0) == (raw / 32 % 2 == 1),
{
    lemma_masks(raw);
}

/// A word with all bits turned.
pub proof fn lemma_turned(x: u32)
    ensures
        !x == wrapped(-1 - x),
{
    lemma_masks(x);
}

/// The top bit of a word.
pub proof fn lemma_top_bit(x: u32)
    ensures
        bit(x, 31) == (x >= 0x8000_0000),
{
    lemma_bit(x, 31);
    lemma2_to64();
}

/// One bit of a word.
pub proof fn lemma_bit(x: u32, n: u32)
    requires
        n < 32,
    ensures
        bit(x, n) == (digit_at(x as int, n as nat) == 1),
{
    lemma2_to64();
    lemma_field(x, n, 1);
    lemma_u32_shl_is_mul(1, 1);
}

/// Flags written into a status word.
pub proof fn lemma_flagged(raw: u32, n: bool, z: bool, c: bool, v: bool)
    ensures
        with_nzcv(raw, n, z, c, v) == flagged(raw, n, z, c, v),
        n_of(flagged(raw, n, z, c, v)) == n,
        z_of(flagged(raw, n, z, c, v)) == z,
        c_of(flagged(raw, n, z, c, v)) == c,
        v_of(flagged(raw, n, z, c, v)) == v,
{
    reveal(n_of);
    reveal(z_of);
    reveal(c_of);
    reveal(v_of);
    reveal(flagged);
    let nb = mask_if(n, N_MASK);
    let zb = mask_if(z, Z_MASK);
    let cb = mask_if(c, C_MASK);
    let vb = mask_if(v, V_MASK);
    assert((raw & 0x0fff_ffff) | nb | zb | cb | vb == raw % 0x1000_0000 + nb + zb + cb + vb)
        by (bit_vector)
        requires
            nb == 0 || nb == 0x8000_0000,
            zb == 0 || zb == 0x4000_0000,
            cb == 0 || cb == 0x2000_0000,
            vb == 0 || vb == 0x1000_0000,
    ;
}

/// A bit field as a number.
pub proof fn lemma_field(x: u32, lo: u32, w: u32)
    requires
        lo < 32,
        0 < w < 32,
    ensures
        bits(x, lo, w) == x as int / (pow2(lo as nat) as int) % (pow2(w as nat) as int),
{
    lemma_u32_shr_is_div(x, lo);
    lemma_u32_pow2_no_overflow(w as nat);
    lemma_u32_shl_is_mul(1, w);
    lemma_pow2_pos(w as nat);
    lemma_u32_low_bits_mask_is_mod(x >> lo, w as nat);
    assert(low_bits_mask(w as nat) == pow2(w as nat) - 1);
}

/// Shifts and rotations as numbers.
pub proof fn lemma_shifts(x: u32, n: u32)
    requires
        0 < n < 32,
    ensures
        x >> n == x as int / (pow2(n as nat) as int),
        x << n == wrapped(x * pow2(n as nat)),
        rotated_right(x, n) == x as int / (pow2(n as nat) as int) + x as int % (pow2(
            n as nat,
        ) as int) * pow2((32 - n) as nat),
        sshr(x, n) == wrapped(as_signed(x) / (pow2(n as nat) as int)),
{
    let m = (32 - n) as u32;
    let p = pow2(n as nat) as int;
    let q = pow2(m as nat) as int;
    lemma2_to64();
    lemma_pow2_adds(n as nat, m as nat);
    lemma_pow2_pos(n as nat);
    lemma_pow2_pos(m as nat);
    assert(p * q == 0x1_0000_0000);
    lemma_u32_shr_is_div(x, n);
    lemma_u32_shr_is_div(!x, n);
    lemma_masks(x);
    let low = x & (((1u32 << m) - 1) as u32);
    let kept = x & (((1u32 << n) - 1) as u32);
    assert(x << n == low << n && x << m == kept << m && ((x >> n) | (x << m)) == (x >> n) + (x << m)
        && (1u32 << m) >= 1 && (1u32 << n) >= 1) by (bit_vector)
        requires
            0 < n < 32,
            m == 32 - n,
            low == x & (((1u32 << m) - 1) as u32),
            kept == x & (((1u32 << n) - 1) as u32),
    ;
    lemma_field(x, 0, m);
    lemma_field(x, 0, n);
    assert(bits(x, 0, m) == low && bits(x, 0, n) == kept) by {
        lemma_u32_shr_is_div(x, 0);
    }
    assert(low == x as int % q);
    assert(kept == x as int % p);
    assert(low * p < 0x1_0000_0000) by (nonlinear_arith)
        requires
            low < q,
            p > 0,
            p * q == 0x1_0000_0000,
    ;
    assert(kept * q < 0x1_0000_0000) by (nonlinear_arith)
        requires
            kept < p,
            q > 0,
            p * q == 0x1_0000_0000,
    ;
    lemma_u32_shl_is_mul(low, n);
    lemma_u32_shl_is_mul(kept, m);
    let t = x as int / q;
    lemma_fundamental_div_mod(x as int, q);
    assert(x * p == low * p + t * 0x1_0000_0000) by (nonlinear_arith)
        requires
            x == low + q * t,
            p * q == 0x1_0000_0000,
    ;
    let y = 0xffff_ffff - x;
    if x >= 0x8000_0000 {
        let d = y / p;
        let r = y % p;
        lemma_fundamental_div_mod(y, p);
        assert((x - 0x1_0000_0000) / p == -1 - d) by (nonlinear_arith)
            requires
                y == p * d + r,
                0 <= r < p,
                x - 0x1_0000_0000 == -1 - y,
        ;
        lemma_masks(((!x) >> n) as u32);
        assert(0 <= d <= y) by (nonlinear_arith)
            requires
                d == y / p,
                p > 0,
                y >= 0,
        ;
    }
}

} // verus!
