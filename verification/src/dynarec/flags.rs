//! Which flags an instruction writes, and why unseen flag writes may be left out.
//!
//! A set of flags is one of four masks over NZCV: none, NZ, NZC and NZCV. They are ordered by
//! inclusion, so one covers another exactly if it is not smaller.

use vstd::prelude::*;
use crate::bits::{C_MASK, N_MASK, V_MASK, Z_MASK, flag_c, flag_v, mask_if, with_nzcv};
use crate::dynarec::ir::Cpu;

verus! {

pub const FLAGS_NONE: u8 = 0;

pub const FLAGS_NZ: u8 = 0b1100;

pub const FLAGS_NZC: u8 = 0b1110;

pub const FLAGS_NZCV: u8 = 0b1111;

/// The flag masks in use.
pub open spec fn flag_mask_ok(m: u8) -> bool {
    m == FLAGS_NONE || m == FLAGS_NZ || m == FLAGS_NZC || m == FLAGS_NZCV
}

/// Whether every flag in `cur` is also in `next`.
pub fn covered(cur: u8, next: u8) -> (r: bool)
    requires
        flag_mask_ok(cur),
        flag_mask_ok(next),
    ensures
        r == (cur <= next),
{
    assert((cur & !next == 0) == (cur <= next)) by (bit_vector)
        requires
            cur == 0 || cur == 12 || cur == 14 || cur == 15,
            next == 0 || next == 12 || next == 14 || next == 15,
    ;
    cur & !next == 0
}

/// Whether two status words are equal outside the flags in `m`.
pub open spec fn agree(a: u32, b: u32, m: u8) -> bool {
    if m == FLAGS_NONE {
        a == b
    } else if m == FLAGS_NZ {
        a & 0x3fff_ffff == b & 0x3fff_ffff
    } else if m == FLAGS_NZC {
        a & 0x1fff_ffff == b & 0x1fff_ffff
    } else {
        a & 0x0fff_ffff == b & 0x0fff_ffff
    }
}

/// Whether two states are equal outside the flags in `m`.
pub open spec fn same_but(a: Cpu, b: Cpu, m: u8) -> bool {
    a == b.flagged(a.cpsr) && agree(a.cpsr, b.cpsr, m)
}

/// Agreement outside fewer flags is agreement outside more, and keeps what lies outside.
pub proof fn lemma_agree(a: u32, b: u32, m: u8)
    requires
        flag_mask_ok(m),
        agree(a, b, m),
    ensures
        agree(a, b, FLAGS_NZCV),
        m <= FLAGS_NZ ==> agree(a, b, FLAGS_NZ),
        m <= FLAGS_NZC ==> agree(a, b, FLAGS_NZC),
        m <= FLAGS_NZ ==> flag_c(a) == flag_c(b),
        m <= FLAGS_NZC ==> flag_v(a) == flag_v(b),
{
    assert(a & 0x1fff_ffff == b & 0x1fff_ffff ==> a & 0x0fff_ffff == b & 0x0fff_ffff && a
        & 0x1000_0000 == b & 0x1000_0000) by (bit_vector);
    assert(a & 0x3fff_ffff == b & 0x3fff_ffff ==> a & 0x1fff_ffff == b & 0x1fff_ffff && a
        & 0x2000_0000 == b & 0x2000_0000) by (bit_vector);
}

/// Replacing the flags leaves everything else, and replacing N and Z leaves C and V.
pub proof fn lemma_flag_writes(cpsr: u32, n: bool, z: bool, c: bool, v: bool)
    ensures
        agree(with_nzcv(cpsr, n, z, c, v), cpsr, FLAGS_NZCV),
        agree(with_nzcv(cpsr, n, z, c, flag_v(cpsr)), cpsr, FLAGS_NZC),
        agree(with_nzcv(cpsr, n, z, flag_c(cpsr), flag_v(cpsr)), cpsr, FLAGS_NZ),
{
    let nb = mask_if(n, N_MASK);
    let zb = mask_if(z, Z_MASK);
    let cb = mask_if(c, C_MASK);
    let vb = mask_if(v, V_MASK);
    let oc = mask_if(flag_c(cpsr), C_MASK);
    let ov = mask_if(flag_v(cpsr), V_MASK);
    assert(((cpsr & 0x0fff_ffff) | nb | zb | cb | vb) & 0x0fff_ffff == cpsr & 0x0fff_ffff && ((cpsr
        & 0x0fff_ffff) | nb | zb | cb | ov) & 0x1fff_ffff == cpsr & 0x1fff_ffff && ((cpsr
        & 0x0fff_ffff) | nb | zb | oc | ov) & 0x3fff_ffff == cpsr & 0x3fff_ffff) by (bit_vector)
        requires
            nb == 0 || nb == 0x8000_0000,
            zb == 0 || zb == 0x4000_0000,
            cb == 0 || cb == 0x2000_0000,
            vb == 0 || vb == 0x1000_0000,
            oc == if cpsr & 0x2000_0000 != 0 {
                0x2000_0000u32
            } else {
                0
            },
            ov == if cpsr & 0x1000_0000 != 0 {
                0x1000_0000u32
            } else {
                0
            },
    ;
}

} // verus!
