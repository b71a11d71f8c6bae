//! Shifts as multiplication and division.

use vstd::prelude::*;
use crate::alu::{BarrelShiftOpCode, shifted};
use crate::bits::rotated_right;
use crate::laws::words::{
    as_signed, digit_at, lemma_bit, lemma_shifts, lemma_top_bit, one_if, wrapped,
};
use vstd::arithmetic::power2::{lemma2_to64, lemma_pow2_pos, pow2};

verus! {

/// A word shifted left: what the result is, and the last bit that went out.
pub open spec fn left(v: u32, n: int) -> u32 {
    if n < 32 {
        wrapped(v * pow2(n as nat))
    } else {
        0
    }
}

pub open spec fn left_carry(v: u32, n: int, kept: bool) -> bool {
    if n == 0 {
        kept
    } else {
        n <= 32 && digit_at(v as int, (32 - n) as nat) == 1
    }
}

/// A word shifted right.
pub open spec fn right(v: u32, n: int) -> u32 {
    if n < 32 {
        (v as int / (pow2(n as nat) as int)) as u32
    } else {
        0
    }
}

pub open spec fn right_carry(v: u32, n: int, kept: bool) -> bool {
    if n == 0 {
        kept
    } else {
        n <= 32 && digit_at(v as int, (n - 1) as nat) == 1
    }
}

/// A two's-complement number shifted right: divided and rounded down.
pub open spec fn right_signed(v: u32, n: int) -> u32 {
    if n < 32 {
        wrapped(as_signed(v) / (pow2(n as nat) as int))
    } else {
        wrapped(as_signed(v) / 0x8000_0000)
    }
}

pub open spec fn right_signed_carry(v: u32, n: int, kept: bool) -> bool {
    if n == 0 {
        kept
    } else if n < 32 {
        digit_at(v as int, (n - 1) as nat) == 1
    } else {
        as_signed(v) < 0
    }
}

/// A word turned right: the bits that go out below come in above.
pub open spec fn turned(v: u32, n: int) -> u32 {
    let m = (n % 32) as nat;
    if m == 0 {
        v
    } else {
        let p = pow2(m) as int;
        (v as int / p + v as int % p * pow2((32 - m) as nat)) as u32
    }
}

pub open spec fn turned_carry(v: u32, n: int, kept: bool) -> bool {
    if n == 0 {
        kept
    } else {
        turned(v, n) >= 0x8000_0000
    }
}

/// The shifter on an amount from a register.
#[verifier::spinoff_prover]
pub proof fn law_shifter(v: u32, n: u32, c: bool)
    ensures
        shifted(BarrelShiftOpCode::LSL, v, n, c, false) == (
            left(v, n as int),
            left_carry(v, n as int, c),
        ),
        shifted(BarrelShiftOpCode::LSR, v, n, c, false) == (
            right(v, n as int),
            right_carry(v, n as int, c),
        ),
        shifted(BarrelShiftOpCode::ASR, v, n, c, false) == (
            right_signed(v, n as int),
            right_signed_carry(v, n as int, c),
        ),
        shifted(BarrelShiftOpCode::ROR, v, n, c, false) == (
            turned(v, n as int),
            turned_carry(v, n as int, c),
        ),
{
    lemma2_to64();
    lemma_bit(v, 0);
    lemma_top_bit(v);
    assert(v * pow2(0) == v) by (nonlinear_arith)
        requires
            pow2(0) == 1,
    ;
    assert(as_signed(v) / (pow2(0) as int) == as_signed(v)) by (nonlinear_arith)
        requires
            pow2(0) == 1,
    ;
    assert(v as int / (pow2(0) as int) == v) by (nonlinear_arith)
        requires
            pow2(0) == 1,
    ;
    assert(digit_at(v as int, 31) == one_if(v >= 0x8000_0000));
    if 0 < n < 32 {
        lemma_shifts(v, n);
        lemma_bit(v, (32 - n) as u32);
        lemma_bit(v, (n - 1) as u32);
    }
    let m = (n % 32) as u32;
    if m != 0 {
        lemma_shifts(v, m);
    }
    lemma_top_bit(rotated_right(v, m));
}

/// The shifter on an amount in the instruction: a right shift by zero stands for one by 32.
#[verifier::spinoff_prover]
pub proof fn law_shifter_immediate(v: u32, n: u32, c: bool)
    requires
        n < 32,
    ensures
        ({
            let k: int = if n == 0 {
                32
            } else {
                n as int
            };
            &&& shifted(BarrelShiftOpCode::LSL, v, n, c, true) == (
                left(v, n as int),
                left_carry(v, n as int, c),
            )
            &&& shifted(BarrelShiftOpCode::LSR, v, n, c, true) == (
                right(v, k),
                right_carry(v, k, c),
            )
            &&& shifted(BarrelShiftOpCode::ASR, v, n, c, true) == (
                right_signed(v, k),
                right_signed_carry(v, k, c),
            )
        }),
{
    law_shifter(v, n, c);
    law_shifter(v, 32, c);
}

/// A shift by one amount and then by another, both below 32, is a shift by their sum.
pub proof fn law_shifts_add_up(v: u32, m: int, n: int)
    requires
        0 <= m,
        0 <= n,
        m + n < 32,
    ensures
        right(right(v, m), n) == right(v, m + n),
        right_signed(right_signed(v, m), n) == right_signed(v, m + n),
{
    vstd::arithmetic::power2::lemma_pow2_adds(m as nat, n as nat);
    lemma_pow2_pos(m as nat);
    lemma_pow2_pos(n as nat);
    let p = pow2(m as nat) as int;
    let q = pow2(n as nat) as int;
    vstd::arithmetic::div_mod::lemma_div_denominator(v as int, p, q);
    assert(v as int / p <= v) by (nonlinear_arith)
        requires
            p > 0,
    ;
    lemma_floor(as_signed(v), p, q);
}

/// Dividing twice and rounding down is dividing by the product.
proof fn lemma_floor(x: int, p: int, q: int)
    requires
        p > 0,
        q > 0,
        -0x8000_0000 <= x < 0x8000_0000,
    ensures
        x / p / q == x / (p * q),
        as_signed(wrapped(x / p)) == x / p,
{
    vstd::arithmetic::div_mod::lemma_fundamental_div_mod(x, p);
    vstd::arithmetic::div_mod::lemma_fundamental_div_mod(x / p, q);
    let a = x / p;
    let b = a / q;
    let r = x % p;
    let t = a % q;
    assert(p * t + r < p * q && p * t + r >= 0) by (nonlinear_arith)
        requires
            0 <= t < q,
            0 <= r < p,
            p > 0,
    ;
    assert(x == (p * q) * b + (p * t + r)) by (nonlinear_arith)
        requires
            x == p * a + r,
            a == q * b + t,
    ;
    assert(p * q > 0) by (nonlinear_arith)
        requires
            p > 0,
            q > 0,
    ;
    vstd::arithmetic::div_mod::lemma_fundamental_div_mod_converse(x, p * q, b, p * t + r);
    assert(-0x8000_0000 <= a < 0x8000_0000) by (nonlinear_arith)
        requires
            x == p * a + r,
            0 <= r < p,
            p > 0,
            -0x8000_0000 <= x < 0x8000_0000,
    ;
}

} // verus!
