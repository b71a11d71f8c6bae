//! Lowering of single guest instructions to fragments.

use vstd::prelude::*;
use crate::bits::{
    add_flags, bit, flag_c, flag_n, flag_v, flag_z, negative, sshr, sub_flags, truth, with_nz,
    with_nzc, with_nzcv,
};
use crate::cond::ArmCond;
use crate::dynarec::decode::{
    DecodedDp, DecodedMem, DecodedThumb1, DecodedThumb10, DecodedThumb11, DecodedThumb12,
    DecodedThumb13, DecodedThumb14, DecodedThumb15, DecodedThumb2, DecodedThumb3, DecodedThumb4,
    DecodedThumb5, DecodedThumb6, DecodedThumb7, DecodedThumb8Ldsb, DecodedThumb9, DecodedThumbBx,
    DpOp, Operand2, ShiftKind, Thumb2Operand, Thumb3Op, Thumb4Op, Thumb5Op, listed, lists,
};
use crate::dynarec::ir::{
    BinOp, Callee, Cc, Code, Cpu, ImmOp, Kind, is_kind, is_word, lemma_run_len, run,
};
use crate::dynarec::sem::{
    LR, SP, accessed, dp_flags, dp_result, exec1, exec10, exec11, exec12, exec13, exec14, exec15,
    exec2, exec3, exec4, exec5, exec6, exec7, exec8, exec9, exec_bx, exec_dp_body, exec_mem_body,
    exec_pop_pc, exec_pop_pc_alone, loaded, operand2_value, operand_value, shift_carry,
    shift_result, signed_byte, stored,
};

verus! {

/// The flag word that the lowered code assembles from a result, a carry truth value and a word
/// whose sign bit is the overflow.
pub open spec fn packed(cpsr: u32, r: u32, z: u32, c: u32, v: u32) -> u32 {
    (cpsr & 0x0fff_ffff) | (((r & 0x8000_0000) | (z << 30u32)) | ((c << 29u32) | ((v & 0x8000_0000)
        >> 3u32)))
}

proof fn lemma_packed(cpsr: u32, r: u32, z: u32, c: u32, v: u32)
    requires
        z < 2,
        c < 2,
    ensures
        packed(cpsr, r, z, c, v) == with_nzcv(cpsr, negative(r), z == 1, c == 1, negative(v)),
{
    assert((cpsr & 0x0fff_ffff) | (((r & 0x8000_0000) | (z << 30u32)) | ((c << 29u32) | ((v
        & 0x8000_0000) >> 3u32))) == (cpsr & 0x0fff_ffff) | (if r >= 0x8000_0000 {
        0x8000_0000u32
    } else {
        0
    }) | (if z == 1 {
        0x4000_0000u32
    } else {
        0
    }) | (if c == 1 {
        0x2000_0000u32
    } else {
        0
    }) | (if v >= 0x8000_0000 {
        0x1000_0000u32
    } else {
        0
    })) by (bit_vector)
        requires
            z < 2,
            c < 2,
    ;
}

/// The sign rules by which the lowered code finds signed overflow.
proof fn lemma_overflow_signs(a: u32, b: u32, r: u32)
    ensures
        negative((!(a ^ b)) & (a ^ r)) == (negative(a) == negative(b) && negative(a) != negative(
            r,
        )),
        negative((a ^ b) & (a ^ r)) == (negative(a) != negative(b) && negative(a) != negative(r)),
        negative((!a) & r) == (!negative(a) && negative(r)),
        negative(a & (!r)) == (negative(a) && !negative(r)),
{
    assert((((!(a ^ b)) & (a ^ r)) >= 0x8000_0000) == ((a >= 0x8000_0000) == (b >= 0x8000_0000)
        && (a >= 0x8000_0000) != (r >= 0x8000_0000)) && (((a ^ b) & (a ^ r)) >= 0x8000_0000) == ((a
        >= 0x8000_0000) != (b >= 0x8000_0000) && (a >= 0x8000_0000) != (r >= 0x8000_0000)) && (((!a)
        & r) >= 0x8000_0000) == (!(a >= 0x8000_0000) && r >= 0x8000_0000) && ((a & (!r))
        >= 0x8000_0000) == (a >= 0x8000_0000 && !(r >= 0x8000_0000))) by (bit_vector);
}

/// The assembled flag word of an addition.
proof fn lemma_add_packed(cpsr: u32, a: u32, b: u32, v: u32)
    requires
        v == (!(a ^ b)) & (a ^ a.wrapping_add(b)) || (!negative(b) && v == (!a) & a.wrapping_add(
            b,
        )),
    ensures
        packed(
            cpsr,
            a.wrapping_add(b),
            truth(a.wrapping_add(b) == 0),
            truth(a.wrapping_add(b) < a),
            v,
        )
            == add_flags(cpsr, a, b),
{
    let r = a.wrapping_add(b);
    lemma_packed(cpsr, r, truth(r == 0), truth(r < a), v);
    lemma_overflow_signs(a, b, r);
}

/// The assembled flag word of a subtraction.
proof fn lemma_sub_packed(cpsr: u32, a: u32, b: u32, v: u32)
    requires
        v == (a ^ b) & (a ^ a.wrapping_sub(b)) || (!negative(b) && v == a & (!a.wrapping_sub(b))),
    ensures
        packed(cpsr, a.wrapping_sub(b), truth(a.wrapping_sub(b) == 0), truth(a >= b), v)
            == sub_flags(cpsr, a, b),
{
    let r = a.wrapping_sub(b);
    lemma_packed(cpsr, r, truth(r == 0), truth(a >= b), v);
    lemma_overflow_signs(a, b, r);
}

/// The assembled flag word of a logical operation.
proof fn lemma_nz_packed(cpsr: u32, r: u32)
    ensures
        (cpsr & 0x3fff_ffff) | ((r & 0x8000_0000) | (truth(r == 0) << 30u32)) == with_nz(cpsr, r),
{
    let z = truth(r == 0);
    assert((cpsr & 0x3fff_ffff) | ((r & 0x8000_0000) | (z << 30u32)) == (cpsr & 0x0fff_ffff) | (if r
        >= 0x8000_0000 {
        0x8000_0000u32
    } else {
        0
    }) | (if z == 1 {
        0x4000_0000u32
    } else {
        0
    }) | (if cpsr & 0x2000_0000 != 0 {
        0x2000_0000u32
    } else {
        0
    }) | (if cpsr & 0x1000_0000 != 0 {
        0x1000_0000u32
    } else {
        0
    })) by (bit_vector)
        requires
            z < 2,
    ;
}

/// Appends the computation of the status word after `op` and returns its temporary.
fn emit_flag_update(code: &mut Code, op: DpOp, rn: usize, op2: usize, result: usize) -> (t: usize)
    requires
        old(code).wf(),
        is_word(old(code).kinds@, rn),
        is_word(old(code).kinds@, op2),
        is_word(old(code).kinds@, result),
    ensures
        final(code).wf(),
        is_word(final(code).kinds@, t),
        forall|s: Cpu|
            #![trigger run(final(code)@, s)]
            {
                let m = run(old(code)@, s);
                let e = m.env;
                &&& run(final(code)@, s).cpu == m.cpu
                &&& e[result as int] == dp_result(op, e[rn as int], e[op2 as int]) ==> run(
                    final(code)@,
                    s,
                ).env[t as int] == dp_flags(
                    op,
                    m.cpu.cpsr,
                    e[rn as int],
                    e[op2 as int],
                    e[result as int],
                )
            },
{
    let zero: usize = code.konst(0);
    let n_shifted: usize = code.imm(ImmOp::And, result, 0x8000_0000);
    let z_bool: usize = code.test(Cc::Equal, result, zero);
    let z_u32: usize = code.widen(z_bool);
    let z_shifted: usize = code.imm(ImmOp::Shl, z_u32, 30);
    match op {
        DpOp::Add | DpOp::Cmn => {
            let c_bool: usize = code.test(Cc::UnsignedLessThan, result, rn);
            let c_u32: usize = code.widen(c_bool);
            let c_shifted: usize = code.imm(ImmOp::Shl, c_u32, 29);
            let xor_ab: usize = code.bin(BinOp::Xor, rn, op2);
            let nxor_ab: usize = code.not(xor_ab);
            let xor_ar: usize = code.bin(BinOp::Xor, rn, result);
            let v_bits: usize = code.bin(BinOp::And, nxor_ab, xor_ar);
            let v_top: usize = code.imm(ImmOp::And, v_bits, 0x8000_0000);
            let v_shifted: usize = code.imm(ImmOp::Ushr, v_top, 3);
            let cpsr: usize = code.cpsr();
            let cleared: usize = code.imm(ImmOp::And, cpsr, 0x0fff_ffff);
            let nz: usize = code.bin(BinOp::Or, n_shifted, z_shifted);
            let cv: usize = code.bin(BinOp::Or, c_shifted, v_shifted);
            let flags: usize = code.bin(BinOp::Or, nz, cv);
            let t: usize = code.bin(BinOp::Or, cleared, flags);
            proof {
                assert forall|s: Cpu|
                    #![trigger run(code@, s)]
                    {
                        let m = run(old(code)@, s);
                        let e = m.env;
                        run(code@, s).cpu == m.cpu && (e[result as int] == dp_result(
                            op,
                            e[rn as int],
                            e[op2 as int],
                        ) ==> run(code@, s).env[t as int] == add_flags(
                            m.cpu.cpsr,
                            e[rn as int],
                            e[op2 as int],
                        ))
                    } by {
                    let e = run(old(code)@, s).env;
                    let a = e[rn as int];
                    let b = e[op2 as int];
                    lemma_add_packed(
                        run(old(code)@, s).cpu.cpsr,
                        a,
                        b,
                        (!(a ^ b)) & (a ^ a.wrapping_add(b)),
                    );
                }
            }
            t
        },
        DpOp::Sub | DpOp::Cmp => {
            let c_bool: usize = code.test(Cc::UnsignedGreaterThanOrEqual, rn, op2);
            let c_u32: usize = code.widen(c_bool);
            let c_shifted: usize = code.imm(ImmOp::Shl, c_u32, 29);
            let xor_ab: usize = code.bin(BinOp::Xor, rn, op2);
            let xor_ar: usize = code.bin(BinOp::Xor, rn, result);
            let v_bits: usize = code.bin(BinOp::And, xor_ab, xor_ar);
            let v_top: usize = code.imm(ImmOp::And, v_bits, 0x8000_0000);
            let v_shifted: usize = code.imm(ImmOp::Ushr, v_top, 3);
            let cpsr: usize = code.cpsr();
            let cleared: usize = code.imm(ImmOp::And, cpsr, 0x0fff_ffff);
            let nz: usize = code.bin(BinOp::Or, n_shifted, z_shifted);
            let cv: usize = code.bin(BinOp::Or, c_shifted, v_shifted);
            let flags: usize = code.bin(BinOp::Or, nz, cv);
            let t: usize = code.bin(BinOp::Or, cleared, flags);
            proof {
                assert forall|s: Cpu|
                    #![trigger run(code@, s)]
                    {
                        let m = run(old(code)@, s);
                        let e = m.env;
                        run(code@, s).cpu == m.cpu && (e[result as int] == dp_result(
                            op,
                            e[rn as int],
                            e[op2 as int],
                        ) ==> run(code@, s).env[t as int] == sub_flags(
                            m.cpu.cpsr,
                            e[rn as int],
                            e[op2 as int],
                        ))
                    } by {
                    let e = run(old(code)@, s).env;
                    let a = e[rn as int];
                    let b = e[op2 as int];
                    lemma_sub_packed(
                        run(old(code)@, s).cpu.cpsr,
                        a,
                        b,
                        (a ^ b) & (a ^ a.wrapping_sub(b)),
                    );
                }
            }
            t
        },
        DpOp::Mov | DpOp::Mvn | DpOp::Tst | DpOp::Teq => {
            let cpsr: usize = code.cpsr();
            let cleared: usize = code.imm(ImmOp::And, cpsr, 0x3fff_ffff);
            let nz: usize = code.bin(BinOp::Or, n_shifted, z_shifted);
            let t: usize = code.bin(BinOp::Or, cleared, nz);
            proof {
                assert forall|s: Cpu|
                    #![trigger run(code@, s)]
                    {
                        let m = run(old(code)@, s);
                        run(code@, s).cpu == m.cpu && run(code@, s).env[t as int] == with_nz(
                            m.cpu.cpsr,
                            m.env[result as int],
                        )
                    } by {
                    let m = run(old(code)@, s);
                    lemma_nz_packed(m.cpu.cpsr, m.env[result as int]);
                }
            }
            t
        },
    }
}

/// Single bits of a word as truth values.
proof fn lemma_bit_values(x: u32, k: u32)
    requires
        k < 32,
    ensures
        (x >> k) & 1 == truth(bit(x, k)),
        (x >> 31u32) & 1 == truth(flag_n(x)),
        (x >> 30u32) & 1 == truth(flag_z(x)),
        (x >> 29u32) & 1 == truth(flag_c(x)),
        (x >> 28u32) & 1 == truth(flag_v(x)),
        x << 0u32 == x,
{
    assert((x >> k) & 1 < 2) by (bit_vector);
    assert(((x >> 31u32) & 1 == if x & 0x8000_0000 != 0 {
        1u32
    } else {
        0
    }) && ((x >> 30u32) & 1 == if x & 0x4000_0000 != 0 {
        1u32
    } else {
        0
    }) && ((x >> 29u32) & 1 == if x & 0x2000_0000 != 0 {
        1u32
    } else {
        0
    }) && ((x >> 28u32) & 1 == if x & 0x1000_0000 != 0 {
        1u32
    } else {
        0
    }) && x << 0u32 == x) by (bit_vector);
}

/// The assembled flag word of a shift.
proof fn lemma_shift_packed(cpsr: u32, r: u32, c: u32)
    requires
        c < 2,
    ensures
        (cpsr & 0x0fff_ffff) | ((((r >> 31u32) << 31u32) | (truth(r == 0) << 30u32)) | ((c << 29u32)
            | (((cpsr >> 28u32) & 1) << 28u32))) == with_nzc(cpsr, r, c == 1),
{
    let z = truth(r == 0);
    assert((cpsr & 0x0fff_ffff) | ((((r >> 31u32) << 31u32) | (z << 30u32)) | ((c << 29u32) | (((cpsr
        >> 28u32) & 1) << 28u32))) == (cpsr & 0x0fff_ffff) | (if r >= 0x8000_0000 {
        0x8000_0000u32
    } else {
        0
    }) | (if z == 1 {
        0x4000_0000u32
    } else {
        0
    }) | (if c == 1 {
        0x2000_0000u32
    } else {
        0
    }) | (if cpsr & 0x1000_0000 != 0 {
        0x1000_0000u32
    } else {
        0
    })) by (bit_vector)
        requires
            z < 2,
            c < 2,
    ;
}

/// Appends an immediate shift and the bit it shifts out; returns both temporaries.
fn emit_shift(
    code: &mut Code,
    d: DecodedThumb1,
    rs_val: usize,
    one: usize,
    preserve_c: usize,
) -> (rc: (usize, usize))
    requires
        old(code).wf(),
        d.imm5 < 32,
        is_word(old(code).kinds@, rs_val),
        is_word(old(code).kinds@, one),
        is_word(old(code).kinds@, preserve_c),
    ensures
        final(code).wf(),
        is_word(final(code).kinds@, one),
        is_word(final(code).kinds@, rc.0),
        is_word(final(code).kinds@, rc.1),
        forall|s: Cpu|
            #![trigger run(final(code)@, s)]
            {
                let m = run(old(code)@, s);
                let n = run(final(code)@, s);
                let x = m.env[rs_val as int];
                &&& n.cpu == m.cpu
                &&& n.env[one as int] == m.env[one as int]
                &&& n.env[rc.0 as int] == shift_result(d.kind, d.imm5, x)
                &&& m.env[one as int] == 1 && m.env[preserve_c as int] == truth(
                    flag_c(m.cpu.cpsr),
                ) ==> n.env[rc.1 as int] == truth(
                    shift_carry(d.kind, d.imm5, x, flag_c(m.cpu.cpsr)),
                )
            },
{
    if let ShiftKind::Lsl = d.kind {
        if d.imm5 == 0 {
            proof {
                assert forall|s: Cpu| (#[trigger] run(code@, s)).env[rs_val as int] << 0u32 == run(
                    code@,
                    s,
                ).env[rs_val as int] by {
                    lemma_bit_values(run(code@, s).env[rs_val as int], 0);
                }
            }
            return (rs_val, preserve_c);
        }
    }
    let ghost k: u32 = match d.kind {
        ShiftKind::Lsl => (32 - d.imm5) as u32,
        _ => if d.imm5 == 0 {
            31u32
        } else {
            (d.imm5 - 1) as u32
        },
    };
    let (r, c_raw): (usize, usize) = match d.kind {
        ShiftKind::Lsl => {
            let r: usize = code.imm(ImmOp::Shl, rs_val, d.imm5);
            (r, code.imm(ImmOp::Ushr, rs_val, 32 - d.imm5))
        },
        ShiftKind::Lsr => {
            if d.imm5 == 0 {
                let r: usize = code.konst(0);
                (r, code.imm(ImmOp::Ushr, rs_val, 31))
            } else {
                let r: usize = code.imm(ImmOp::Ushr, rs_val, d.imm5);
                (r, code.imm(ImmOp::Ushr, rs_val, d.imm5 - 1))
            }
        },
        ShiftKind::Asr => {
            if d.imm5 == 0 {
                let r: usize = code.imm(ImmOp::Sshr, rs_val, 31);
                (r, code.imm(ImmOp::Ushr, rs_val, 31))
            } else {
                let r: usize = code.imm(ImmOp::Sshr, rs_val, d.imm5);
                (r, code.imm(ImmOp::Ushr, rs_val, d.imm5 - 1))
            }
        },
    };
    let c: usize = code.bin(BinOp::And, c_raw, one);
    proof {
        assert forall|s: Cpu|
            #![trigger run(code@, s)]
            {
                let x = run(old(code)@, s).env[rs_val as int];
                (x >> k) & 1 == truth(bit(x, k))
            } by {
            lemma_bit_values(run(old(code)@, s).env[rs_val as int], k);
        }
    }
    (r, c)
}

/// Lowers a format 1 shift.
pub fn emit_thumb_format1(d: DecodedThumb1) -> (code: Code)
    requires
        d.imm5 < 32,
        d.rs < 8,
        d.rd < 8,
    ensures
        code.wf(),
        forall|s: Cpu| (#[trigger] run(code@, s)).cpu == exec1(d, s),
{
    let mut code = Code::new();
    let rs_val: usize = code.gpr(d.rs);
    let one: usize = code.konst(1);
    let cpsr0: usize = code.cpsr();
    let shifted0: usize = code.imm(ImmOp::Ushr, cpsr0, 29);
    let preserve_c: usize = code.bin(BinOp::And, shifted0, one);
    let ghost before = code@;
    proof {
        assert forall|s: Cpu|
            #![trigger run(before, s)]
            run(before, s).cpu == s && run(before, s).env[one as int] == 1 && run(
                before,
                s,
            ).env[rs_val as int] == s.reg(d.rs) && run(before, s).env[preserve_c as int] == truth(
                flag_c(s.cpsr),
            ) by {
            lemma_bit_values(s.cpsr, 0);
        }
    }
    let (result, new_c): (usize, usize) = emit_shift(&mut code, d, rs_val, one, preserve_c);
    code.set_gpr(d.rd, result);
    let zero: usize = code.konst(0);
    let n: usize = code.imm(ImmOp::Ushr, result, 31);
    let z_bool: usize = code.test(Cc::Equal, result, zero);
    let z: usize = code.widen(z_bool);
    let cpsr1: usize = code.cpsr();
    let shifted1: usize = code.imm(ImmOp::Ushr, cpsr1, 28);
    let v: usize = code.bin(BinOp::And, shifted1, one);
    let cpsr: usize = code.cpsr();
    let mask: usize = code.konst(0x0fff_ffff);
    let cleared: usize = code.bin(BinOp::And, cpsr, mask);
    let n_shifted: usize = code.imm(ImmOp::Shl, n, 31);
    let z_shifted: usize = code.imm(ImmOp::Shl, z, 30);
    let c_shifted: usize = code.imm(ImmOp::Shl, new_c, 29);
    let v_shifted: usize = code.imm(ImmOp::Shl, v, 28);
    let nz: usize = code.bin(BinOp::Or, n_shifted, z_shifted);
    let cv: usize = code.bin(BinOp::Or, c_shifted, v_shifted);
    let flags: usize = code.bin(BinOp::Or, nz, cv);
    let new_cpsr: usize = code.bin(BinOp::Or, cleared, flags);
    code.set_cpsr(new_cpsr);
    proof {
        assert forall|s: Cpu| (#[trigger] run(code@, s)).cpu == exec1(d, s) by {
            let x = s.reg(d.rs);
            let r = shift_result(d.kind, d.imm5, x);
            let c = shift_carry(d.kind, d.imm5, x, flag_c(s.cpsr));
            lemma_shift_packed(s.cpsr, r, truth(c));
        }
    }
    code
}

/// Appends the status word of an addition or subtraction of a small constant, for which the
/// right operand's sign is known; returns its temporary.
fn emit_small_flags(code: &mut Code, sub: bool, lhs: usize, rhs: usize, result: usize) -> (t: usize)
    requires
        old(code).wf(),
        is_word(old(code).kinds@, lhs),
        is_word(old(code).kinds@, rhs),
        is_word(old(code).kinds@, result),
    ensures
        final(code).wf(),
        is_word(final(code).kinds@, t),
        forall|s: Cpu|
            #![trigger run(final(code)@, s)]
            {
                let m = run(old(code)@, s);
                let a = m.env[lhs as int];
                let b = m.env[rhs as int];
                let r = m.env[result as int];
                &&& run(final(code)@, s).cpu == m.cpu
                &&& sub && r == a.wrapping_sub(b) && !negative(b) ==> run(
                    final(code)@,
                    s,
                ).env[t as int] == sub_flags(m.cpu.cpsr, a, b)
                &&& !sub && r == a.wrapping_add(b) && !negative(b) ==> run(
                    final(code)@,
                    s,
                ).env[t as int] == add_flags(m.cpu.cpsr, a, b)
            },
{
    let zero: usize = code.konst(0);
    let n_shifted: usize = code.imm(ImmOp::And, result, 0x8000_0000);
    let z_bool: usize = code.test(Cc::Equal, result, zero);
    let z_u32: usize = code.widen(z_bool);
    let z_shifted: usize = code.imm(ImmOp::Shl, z_u32, 30);
    let (c_bool, v_bits): (usize, usize) = if sub {
        let c: usize = code.test(Cc::UnsignedGreaterThanOrEqual, lhs, rhs);
        let not_result: usize = code.not(result);
        (c, code.bin(BinOp::And, lhs, not_result))
    } else {
        let c: usize = code.test(Cc::UnsignedLessThan, result, lhs);
        let not_lhs: usize = code.not(lhs);
        (c, code.bin(BinOp::And, not_lhs, result))
    };
    let v_top: usize = code.imm(ImmOp::And, v_bits, 0x8000_0000);
    let v_shifted: usize = code.imm(ImmOp::Ushr, v_top, 3);
    let c_u32: usize = code.widen(c_bool);
    let c_shifted: usize = code.imm(ImmOp::Shl, c_u32, 29);
    let cpsr: usize = code.cpsr();
    let cleared: usize = code.imm(ImmOp::And, cpsr, 0x0fff_ffff);
    let nz: usize = code.bin(BinOp::Or, n_shifted, z_shifted);
    let cv: usize = code.bin(BinOp::Or, c_shifted, v_shifted);
    let flags: usize = code.bin(BinOp::Or, nz, cv);
    let t: usize = code.bin(BinOp::Or, cleared, flags);
    proof {
        assert forall|s: Cpu|
            #![trigger run(code@, s)]
            {
                let m = run(old(code)@, s);
                let a = m.env[lhs as int];
                let b = m.env[rhs as int];
                let r = m.env[result as int];
                &&& run(code@, s).cpu == m.cpu
                &&& sub && r == a.wrapping_sub(b) && !negative(b) ==> run(
                    code@,
                    s,
                ).env[t as int] == sub_flags(m.cpu.cpsr, a, b)
                &&& !sub && r == a.wrapping_add(b) && !negative(b) ==> run(
                    code@,
                    s,
                ).env[t as int] == add_flags(m.cpu.cpsr, a, b)
            } by {
            let m = run(old(code)@, s);
            let a = m.env[lhs as int];
            let b = m.env[rhs as int];
            if !negative(b) {
                if sub {
                    lemma_sub_packed(m.cpu.cpsr, a, b, a & (!a.wrapping_sub(b)));
                } else {
                    lemma_add_packed(m.cpu.cpsr, a, b, (!a) & a.wrapping_add(b));
                }
            }
        }
    }
    t
}

/// Appends the load of a format 2 operand and returns its temporary.
fn emit_operand(code: &mut Code, o: Thumb2Operand) -> (t: usize)
    requires
        old(code).wf(),
        o matches Thumb2Operand::Reg(r) ==> r < 15,
    ensures
        final(code).wf(),
        final(code)@.len() == old(code)@.len() + 1,
        final(code).kinds@ == old(code).kinds@.push(Kind::Word),
        old(code).kinds@.len() == old(code)@.len(),
        t == old(code)@.len(),
        forall|s: Cpu| (#[trigger] run(old(code)@, s)).env.len() == old(code)@.len(),
        forall|s: Cpu|
            #![trigger run(final(code)@, s)]
            {
                &&& run(final(code)@, s).cpu == run(old(code)@, s).cpu
                &&& run(final(code)@, s).env == run(old(code)@, s).env.push(
                    operand_value(o, run(old(code)@, s).cpu),
                )
            },
{
    match o {
        Thumb2Operand::Imm3(v) => code.konst(v),
        Thumb2Operand::Reg(r) => code.gpr(r),
    }
}

/// Lowers a format 2 addition or subtraction.
pub fn emit_thumb_format2(d: DecodedThumb2) -> (code: Code)
    requires
        d.rs < 8,
        d.rd < 8,
        d.operand matches Thumb2Operand::Reg(r) ==> r < 8,
        d.operand matches Thumb2Operand::Imm3(v) ==> v < 8,
    ensures
        code.wf(),
        forall|s: Cpu| (#[trigger] run(code@, s)).cpu == exec2(d, s),
{
    let mut code = Code::new();
    let rs_val: usize = code.gpr(d.rs);
    let rhs: usize = emit_operand(&mut code, d.operand);
    let result: usize = if d.sub {
        code.bin(BinOp::Sub, rs_val, rhs)
    } else {
        code.bin(BinOp::Add, rs_val, rhs)
    };
    code.set_gpr(d.rd, result);
    let new_cpsr: usize = match d.operand {
        Thumb2Operand::Imm3(_) => emit_small_flags(&mut code, d.sub, rs_val, rhs, result),
        Thumb2Operand::Reg(_) => {
            let op: DpOp = if d.sub {
                DpOp::Sub
            } else {
                DpOp::Add
            };
            emit_flag_update(&mut code, op, rs_val, rhs, result)
        },
    };
    code.set_cpsr(new_cpsr);
    code
}

/// Lowers a format 2 addition or subtraction whose flags are never seen.
pub fn emit_thumb_format2_no_flags(d: DecodedThumb2) -> (code: Code)
    requires
        d.rs < 8,
        d.rd < 8,
        d.operand matches Thumb2Operand::Reg(r) ==> r < 8,
    ensures
        code.wf(),
        forall|s: Cpu| (#[trigger] run(code@, s)).cpu == exec2(d, s).flagged(s.cpsr),
{
    let mut code = Code::new();
    let rs_val: usize = code.gpr(d.rs);
    let rhs: usize = emit_operand(&mut code, d.operand);
    let result: usize = if d.sub {
        code.bin(BinOp::Sub, rs_val, rhs)
    } else {
        code.bin(BinOp::Add, rs_val, rhs)
    };
    code.set_gpr(d.rd, result);
    code
}

/// The flag word of a move of a byte.
proof fn lemma_mov_flags(cpsr: u32, v: u32)
    requires
        v < 256,
    ensures
        v != 0 ==> cpsr & 0x3fff_ffff == with_nz(cpsr, v),
        v == 0 ==> (cpsr & 0x3fff_ffff) | 0x4000_0000 == with_nz(cpsr, v),
{
    lemma_nz_packed(cpsr, v);
    let z = truth(v == 0);
    assert((v & 0x8000_0000) | (z << 30u32) == if z == 1 {
        0x4000_0000u32
    } else {
        0
    }) by (bit_vector)
        requires
            v < 256,
            z < 2,
    ;
    assert((cpsr & 0x3fff_ffff) | 0 == cpsr & 0x3fff_ffff) by (bit_vector);
}

/// Lowers a format 3 operation.
pub fn emit_thumb_format3(d: DecodedThumb3) -> (code: Code)
    requires
        d.rd < 8,
        d.imm8 < 256,
    ensures
        code.wf(),
        forall|s: Cpu| (#[trigger] run(code@, s)).cpu == exec3(d, s),
{
    let mut code = Code::new();
    let imm8: usize = code.konst(d.imm8);
    if let Thumb3Op::Mov = d.op {
        code.set_gpr(d.rd, imm8);
        let cpsr: usize = code.cpsr();
        let cleared: usize = code.imm(ImmOp::And, cpsr, 0x3fff_ffff);
        let new_cpsr: usize = if d.imm8 == 0 {
            code.imm(ImmOp::Or, cleared, 0x4000_0000)
        } else {
            cleared
        };
        code.set_cpsr(new_cpsr);
        proof {
            assert forall|s: Cpu| (#[trigger] run(code@, s)).cpu == exec3(d, s) by {
                lemma_mov_flags(s.cpsr, d.imm8);
            }
        }
        return code;
    }
    let rd_val: usize = code.gpr(d.rd);
    let sub: bool = !matches!(d.op, Thumb3Op::Add);
    let result: usize = if sub {
        code.bin(BinOp::Sub, rd_val, imm8)
    } else {
        code.bin(BinOp::Add, rd_val, imm8)
    };
    if !matches!(d.op, Thumb3Op::Cmp) {
        code.set_gpr(d.rd, result);
    }
    let new_cpsr: usize = emit_small_flags(&mut code, sub, rd_val, imm8, result);
    code.set_cpsr(new_cpsr);
    code
}

/// Lowers a format 3 operation whose flags are never seen; a compare vanishes.
pub fn emit_thumb_format3_no_flags(d: DecodedThumb3) -> (code: Code)
    requires
        d.rd < 8,
    ensures
        code.wf(),
        forall|s: Cpu| (#[trigger] run(code@, s)).cpu == exec3(d, s).flagged(s.cpsr),
{
    let mut code = Code::new();
    let imm8: usize = code.konst(d.imm8);
    match d.op {
        Thumb3Op::Mov => {
            code.set_gpr(d.rd, imm8);
        },
        Thumb3Op::Cmp => {},
        Thumb3Op::Add => {
            let rd_val: usize = code.gpr(d.rd);
            let result: usize = code.bin(BinOp::Add, rd_val, imm8);
            code.set_gpr(d.rd, result);
        },
        Thumb3Op::Sub => {
            let rd_val: usize = code.gpr(d.rd);
            let result: usize = code.bin(BinOp::Sub, rd_val, imm8);
            code.set_gpr(d.rd, result);
        },
    }
    code
}

/// Lowers a format 4 logical or compare operation.
pub fn emit_thumb_format4_logical(d: DecodedThumb4) -> (code: Code)
    requires
        d.rd < 8,
        d.rs < 8,
    ensures
        code.wf(),
        forall|s: Cpu| (#[trigger] run(code@, s)).cpu == exec4(d, s),
{
    let mut code = Code::new();
    let rd_val: usize = code.gpr(d.rd);
    let rs_val: usize = code.gpr(d.rs);
    match d.op {
        Thumb4Op::Cmp | Thumb4Op::Cmn => {
            let op: DpOp = if matches!(d.op, Thumb4Op::Cmp) {
                DpOp::Cmp
            } else {
                DpOp::Cmn
            };
            let result: usize = if matches!(d.op, Thumb4Op::Cmp) {
                code.bin(BinOp::Sub, rd_val, rs_val)
            } else {
                code.bin(BinOp::Add, rd_val, rs_val)
            };
            let new_cpsr: usize = emit_flag_update(&mut code, op, rd_val, rs_val, result);
            code.set_cpsr(new_cpsr);
        },
        _ => {
            let result: usize = match d.op {
                Thumb4Op::Eor => code.bin(BinOp::Xor, rd_val, rs_val),
                Thumb4Op::Orr => code.bin(BinOp::Or, rd_val, rs_val),
                Thumb4Op::Bic => {
                    let not_rs: usize = code.not(rs_val);
                    code.bin(BinOp::And, rd_val, not_rs)
                },
                Thumb4Op::Mvn => code.not(rs_val),
                _ => code.bin(BinOp::And, rd_val, rs_val),
            };
            if !matches!(d.op, Thumb4Op::Tst) {
                code.set_gpr(d.rd, result);
            }
            let new_cpsr: usize = emit_flag_update(&mut code, DpOp::Mov, result, result, result);
            code.set_cpsr(new_cpsr);
        },
    }
    code
}

/// Lowers a format 5 operation that does not branch.
pub fn emit_thumb_format5_non_branch(d: DecodedThumb5) -> (code: Code)
    requires
        d.rd < 15,
        d.rs < 15,
    ensures
        code.wf(),
        forall|s: Cpu| (#[trigger] run(code@, s)).cpu == exec5(d, s),
{
    let mut code = Code::new();
    let rd_val: usize = code.gpr(d.rd);
    let rs_val: usize = code.gpr(d.rs);
    match d.op {
        Thumb5Op::Mov => {
            code.set_gpr(d.rd, rs_val);
        },
        Thumb5Op::Add => {
            let result: usize = code.bin(BinOp::Add, rd_val, rs_val);
            code.set_gpr(d.rd, result);
        },
        Thumb5Op::Cmp => {
            let result: usize = code.bin(BinOp::Sub, rd_val, rs_val);
            let new_cpsr: usize = emit_flag_update(&mut code, DpOp::Cmp, rd_val, rs_val, result);
            code.set_cpsr(new_cpsr);
        },
    }
    code
}

/// Appends a word or byte access at the address in temporary `addr`.
fn emit_access(code: &mut Code, load: bool, byte: bool, rd: usize, addr: usize)
    requires
        old(code).wf(),
        rd < 15,
        is_word(old(code).kinds@, addr),
    ensures
        final(code).wf(),
        forall|s: Cpu|
            #![trigger run(final(code)@, s)]
            run(final(code)@, s).cpu == accessed(
                load,
                byte,
                rd,
                run(old(code)@, s).env[addr as int],
                run(old(code)@, s).cpu,
            ),
{
    if load && byte {
        let v: usize = code.call1(Callee::LoadWithIdle8, addr);
        let low: usize = code.imm(ImmOp::And, v, 0xff);
        code.set_gpr(rd, low);
    } else if load {
        let v: usize = code.call1(Callee::LoadWithIdle32, addr);
        code.set_gpr(rd, v);
    } else if byte {
        let v: usize = code.gpr(rd);
        let low: usize = code.imm(ImmOp::And, v, 0xff);
        code.call2(Callee::Store8, addr, low);
    } else {
        let v: usize = code.gpr(rd);
        code.call2(Callee::Store32, addr, v);
    }
}

/// Lowers a format 6 load. The address is known here.
pub fn emit_thumb_format6(d: DecodedThumb6, instr_pc: u32) -> (code: Code)
    requires
        d.rd < 8,
        d.imm8 < 256,
    ensures
        code.wf(),
        forall|s: Cpu| (#[trigger] run(code@, s)).cpu == exec6(d, instr_pc, s),
{
    let mut code = Code::new();
    let addr: u32 = (instr_pc.wrapping_add(4) & 0xffff_fffc).wrapping_add(d.imm8 * 4);
    let addr_val: usize = code.konst(addr);
    let v: usize = code.call1(Callee::LoadWithIdle32, addr_val);
    code.set_gpr(d.rd, v);
    code
}

/// Lowers a format 7 access.
pub fn emit_thumb_format7(d: DecodedThumb7) -> (code: Code)
    requires
        d.ro < 8,
        d.rb < 8,
        d.rd < 8,
    ensures
        code.wf(),
        forall|s: Cpu| (#[trigger] run(code@, s)).cpu == exec7(d, s),
{
    let mut code = Code::new();
    let rb_val: usize = code.gpr(d.rb);
    let ro_val: usize = code.gpr(d.ro);
    let addr: usize = code.bin(BinOp::Add, rb_val, ro_val);
    if d.load {
        let v: usize = if d.byte {
            code.call1(Callee::LoadWithIdle8, addr)
        } else {
            code.call1(Callee::LoadWithIdle32, addr)
        };
        code.set_gpr(d.rd, v);
    } else {
        let rd_val: usize = code.gpr(d.rd);
        if d.byte {
            code.call2(Callee::Store8, addr, rd_val);
        } else {
            code.call2(Callee::Store32, addr, rd_val);
        }
    }
    code
}

/// Sign extension of a byte by two shifts.
proof fn lemma_signed_byte(v: u32)
    ensures
        sshr(v << 24u32, 24) == signed_byte(v),
{
    let x = v << 24u32;
    assert((if v << 24u32 < 0x8000_0000 {
        (v << 24u32) >> 24u32
    } else {
        !((!(v << 24u32)) >> 24u32)
    }) == if v & 0xff < 0x80 {
        v & 0xff
    } else {
        (v & 0xff) | 0xffff_ff00
    }) by (bit_vector);
}

/// Lowers a format 8 load of a signed byte.
pub fn emit_thumb_format8_ldsb(d: DecodedThumb8Ldsb) -> (code: Code)
    requires
        d.ro < 8,
        d.rb < 8,
        d.rd < 8,
    ensures
        code.wf(),
        forall|s: Cpu| (#[trigger] run(code@, s)).cpu == exec8(d, s),
{
    let mut code = Code::new();
    let rb_val: usize = code.gpr(d.rb);
    let ro_val: usize = code.gpr(d.ro);
    let addr: usize = code.bin(BinOp::Add, rb_val, ro_val);
    let byte: usize = code.call1(Callee::LoadWithIdle8, addr);
    let shl: usize = code.imm(ImmOp::Shl, byte, 24);
    let wide: usize = code.imm(ImmOp::Sshr, shl, 24);
    code.set_gpr(d.rd, wide);
    proof {
        assert forall|s: Cpu| (#[trigger] run(code@, s)).cpu == exec8(d, s) by {
            let t = s.called(Callee::LoadWithIdle8, s.reg(d.rb).wrapping_add(s.reg(d.ro)), 0, 0);
            lemma_signed_byte(t.answer());
        }
    }
    code
}

/// Lowers a format 9 access.
pub fn emit_thumb_format9(d: DecodedThumb9) -> (code: Code)
    requires
        d.rs < 8,
        d.rd < 8,
    ensures
        code.wf(),
        forall|s: Cpu| (#[trigger] run(code@, s)).cpu == exec9(d, s),
{
    let mut code = Code::new();
    let rs_val: usize = code.gpr(d.rs);
    let offset: usize = code.konst(d.offset);
    let addr: usize = code.bin(BinOp::Add, rs_val, offset);
    emit_access(&mut code, d.load, d.byte, d.rd, addr);
    code
}

/// Lowers a format 10 access.
pub fn emit_thumb_format10(d: DecodedThumb10) -> (code: Code)
    requires
        d.rs < 8,
        d.rd < 8,
    ensures
        code.wf(),
        forall|s: Cpu| (#[trigger] run(code@, s)).cpu == exec10(d, s),
{
    let mut code = Code::new();
    let rs_val: usize = code.gpr(d.rs);
    let addr: usize = code.imm(ImmOp::Add, rs_val, d.offset);
    if d.load {
        let v: usize = code.call1(Callee::LoadWithIdle16, addr);
        code.set_gpr(d.rd, v);
    } else {
        let rd_val: usize = code.gpr(d.rd);
        code.call2(Callee::Store16, addr, rd_val);
    }
    code
}

/// Lowers a format 11 access.
pub fn emit_thumb_format11(d: DecodedThumb11) -> (code: Code)
    requires
        d.rd < 8,
    ensures
        code.wf(),
        forall|s: Cpu| (#[trigger] run(code@, s)).cpu == exec11(d, s),
{
    let mut code = Code::new();
    let sp: usize = code.gpr(SP);
    let offset: usize = code.konst(d.offset);
    let addr: usize = code.bin(BinOp::Add, sp, offset);
    emit_access(&mut code, d.load, false, d.rd, addr);
    code
}

/// Lowers a format 12 address computation.
pub fn emit_thumb_format12(d: DecodedThumb12, instr_pc: u32) -> (code: Code)
    requires
        d.rd < 8,
    ensures
        code.wf(),
        forall|s: Cpu| (#[trigger] run(code@, s)).cpu == exec12(d, instr_pc, s),
{
    let mut code = Code::new();
    let val: usize = if d.sp {
        let sp: usize = code.gpr(SP);
        code.imm(ImmOp::Add, sp, d.offset)
    } else {
        code.konst((instr_pc & 0xffff_fffd).wrapping_add(4).wrapping_add(d.offset))
    };
    code.set_gpr(d.rd, val);
    code
}

/// Lowers a format 13 stack adjustment.
pub fn emit_thumb_format13(d: DecodedThumb13) -> (code: Code)
    ensures
        code.wf(),
        forall|s: Cpu| (#[trigger] run(code@, s)).cpu == exec13(d, s),
{
    let mut code = Code::new();
    let sp: usize = code.gpr(SP);
    let delta: u32 = if d.sub {
        0u32.wrapping_sub(d.offset)
    } else {
        d.offset
    };
    let new_sp: usize = code.imm(ImmOp::Add, sp, delta);
    code.set_gpr(SP, new_sp);
    code
}

/// Appends the stores of the listed registers upwards from the address in temporary `base`, and
/// returns how many there are.
fn emit_stores(code: &mut Code, list: u8, base: usize) -> (n: u32)
    requires
        old(code).wf(),
        is_word(old(code).kinds@, base),
    ensures
        final(code).wf(),
        final(code).kinds@.len() >= old(code).kinds@.len(),
        forall|j: int|
            0 <= j < old(code).kinds@.len() ==> #[trigger] final(code).kinds@[j] == old(
                code,
            ).kinds@[j],
        final(code)@.len() >= old(code)@.len(),
        n == listed(list, 8),
        n <= 8,
        forall|s: Cpu|
            #![trigger run(final(code)@, s)]
            {
                let m = run(old(code)@, s);
                let f = run(final(code)@, s);
                &&& f.env.len() == final(code)@.len()
                &&& f.cpu == stored(list, 8, m.env[base as int], m.cpu)
                &&& forall|j: int| 0 <= j < old(code)@.len() ==> #[trigger] f.env[j] == m.env[j]
            },
{
    let mut n: u32 = 0;
    let mut i: usize = 0;
    proof {
        code.lemma_sizes();
        assert forall|s: Cpu| (#[trigger] run(code@, s)).env.len() == code@.len() by {
            lemma_run_len(code@, s);
        }
    }
    while i < 8
        invariant
            i <= 8,
            n <= i,
            n == listed(list, i as nat),
            code.wf(),
            is_word(old(code).kinds@, base),
            old(code).kinds@.len() == old(code)@.len(),
            code.kinds@.len() >= old(code).kinds@.len(),
            forall|j: int|
                0 <= j < old(code).kinds@.len() ==> #[trigger] code.kinds@[j] == old(
                    code,
                ).kinds@[j],
            code@.len() >= old(code)@.len(),
            forall|s: Cpu|
                #![trigger run(code@, s)]
                {
                    let m = run(old(code)@, s);
                    let f = run(code@, s);
                    &&& f.env.len() == code@.len()
                    &&& f.cpu == stored(list, i as nat, m.env[base as int], m.cpu)
                    &&& forall|j: int|
                        0 <= j < old(code)@.len() ==> #[trigger] f.env[j] == m.env[j]
                },
        decreases 8 - i,
    {
        if lists(list, i) {
            let addr: usize = code.imm(ImmOp::Add, base, 4 * n);
            let v: usize = code.gpr(i);
            if n == 0 {
                code.call2(Callee::Store32, addr, v);
            } else {
                code.call2(Callee::Store32Sequential, addr, v);
            }
            n = n + 1;
        }
        i = i + 1;
    }
    n
}

/// Appends the loads of the listed registers upwards from the address in temporary `base`, and
/// returns how many there are.
fn emit_loads(code: &mut Code, list: u8, base: usize, sequential: bool) -> (n: u32)
    requires
        old(code).wf(),
        is_word(old(code).kinds@, base),
    ensures
        final(code).wf(),
        final(code).kinds@.len() >= old(code).kinds@.len(),
        forall|j: int|
            0 <= j < old(code).kinds@.len() ==> #[trigger] final(code).kinds@[j] == old(
                code,
            ).kinds@[j],
        final(code)@.len() >= old(code)@.len(),
        n == listed(list, 8),
        n <= 8,
        forall|s: Cpu|
            #![trigger run(final(code)@, s)]
            {
                let m = run(old(code)@, s);
                let f = run(final(code)@, s);
                &&& f.env.len() == final(code)@.len()
                &&& f.cpu == loaded(list, 8, m.env[base as int], sequential, m.cpu)
                &&& forall|j: int| 0 <= j < old(code)@.len() ==> #[trigger] f.env[j] == m.env[j]
            },
{
    let mut n: u32 = 0;
    let mut i: usize = 0;
    proof {
        code.lemma_sizes();
        assert forall|s: Cpu| (#[trigger] run(code@, s)).env.len() == code@.len() by {
            lemma_run_len(code@, s);
        }
    }
    while i < 8
        invariant
            i <= 8,
            n <= i,
            n == listed(list, i as nat),
            code.wf(),
            is_word(old(code).kinds@, base),
            old(code).kinds@.len() == old(code)@.len(),
            code.kinds@.len() >= old(code).kinds@.len(),
            forall|j: int|
                0 <= j < old(code).kinds@.len() ==> #[trigger] code.kinds@[j] == old(
                    code,
                ).kinds@[j],
            code@.len() >= old(code)@.len(),
            forall|s: Cpu|
                #![trigger run(code@, s)]
                {
                    let m = run(old(code)@, s);
                    let f = run(code@, s);
                    &&& f.env.len() == code@.len()
                    &&& f.cpu == loaded(list, i as nat, m.env[base as int], sequential, m.cpu)
                    &&& forall|j: int|
                        0 <= j < old(code)@.len() ==> #[trigger] f.env[j] == m.env[j]
                },
        decreases 8 - i,
    {
        if lists(list, i) {
            let addr: usize = code.imm(ImmOp::Add, base, 4 * n);
            let v: usize = if n == 0 || !sequential {
                code.call1(Callee::Load32, addr)
            } else {
                code.call1(Callee::Load32Sequential, addr)
            };
            code.set_gpr(i, v);
            n = n + 1;
        }
        i = i + 1;
    }
    n
}

/// Lowers a format 14 push or pop.
pub fn emit_thumb_format14(d: DecodedThumb14) -> (code: Code)
    requires
        !d.push ==> !d.extra_reg,
    ensures
        code.wf(),
        forall|s: Cpu| (#[trigger] run(code@, s)).cpu == exec14(d, s),
{
    let bytes: u32 = d.count() * 4;
    let mut code = Code::new();
    let sp: usize = code.gpr(SP);
    if d.push {
        let start: usize = code.imm(ImmOp::Add, sp, 0u32.wrapping_sub(bytes));
        let n: u32 = emit_stores(&mut code, d.reg_list, start);
        if d.extra_reg {
            let addr: usize = code.imm(ImmOp::Add, start, 4 * n);
            let lr: usize = code.gpr(LR);
            if n == 0 {
                code.call2(Callee::Store32, addr, lr);
            } else {
                code.call2(Callee::Store32Sequential, addr, lr);
            }
        }
        code.set_gpr(SP, start);
    } else {
        let n: u32 = emit_loads(&mut code, d.reg_list, sp, true);
        let new_sp: usize = code.imm(ImmOp::Add, sp, bytes);
        code.set_gpr(SP, new_sp);
        code.call0(Callee::IdleCycle);
    }
    code
}

/// Lowers a format 15 multiple load or store.
pub fn emit_thumb_format15(d: DecodedThumb15) -> (code: Code)
    requires
        d.rb < 8,
    ensures
        code.wf(),
        forall|s: Cpu| (#[trigger] run(code@, s)).cpu == exec15(d, s),
{
    let mut code = Code::new();
    let rb_val: usize = code.gpr(d.rb);
    let align: usize = code.imm(ImmOp::And, rb_val, 3);
    let addr0: usize = code.imm(ImmOp::And, rb_val, 0xffff_fffc);
    let n: u32 = if d.load {
        let n: u32 = emit_loads(&mut code, d.rlist, addr0, true);
        code.call0(Callee::IdleCycle);
        n
    } else {
        emit_stores(&mut code, d.rlist, addr0)
    };
    if !(d.load && lists(d.rlist, d.rb)) {
        let new_base: usize = code.imm(ImmOp::Add, addr0, 4 * n);
        let preserved: usize = code.bin(BinOp::Add, new_base, align);
        code.set_gpr(d.rb, preserved);
    }
    code
}

/// Lowers a pop that ends in the program counter, as the tail of a block.
pub fn emit_pop_pc(list: u8) -> (code: Code)
    ensures
        code.wf(),
        forall|s: Cpu| (#[trigger] run(code@, s)).cpu == exec_pop_pc(list, s),
{
    let mut code = Code::new();
    let sp: usize = code.gpr(SP);
    let n: u32 = emit_loads(&mut code, list, sp, true);
    let pc_addr: usize = code.imm(ImmOp::Add, sp, 4 * n);
    let pc_val: usize = if n == 0 {
        code.call1(Callee::Load32, pc_addr)
    } else {
        code.call1(Callee::Load32Sequential, pc_addr)
    };
    let pc_thumb: usize = code.imm(ImmOp::Or, pc_val, 1);
    code.set_pc(pc_thumb);
    let new_sp: usize = code.imm(ImmOp::Add, sp, 4 * n + 4);
    code.set_gpr(SP, new_sp);
    code.call0(Callee::IdleCycle);
    let one: usize = code.konst(1);
    code.set_took(one);
    code
}

/// Lowers a pop that ends in the program counter, standing alone.
pub fn emit_pop_pc_alone(list: u8) -> (code: Code)
    ensures
        code.wf(),
        forall|s: Cpu| (#[trigger] run(code@, s)).cpu == exec_pop_pc_alone(list, s),
{
    let mut code = Code::new();
    let sp: usize = code.gpr(SP);
    let n: u32 = emit_loads(&mut code, list, sp, false);
    let pc_addr: usize = code.imm(ImmOp::Add, sp, 4 * n);
    let pc_val: usize = code.call1(Callee::Load32, pc_addr);
    code.set_pc(pc_val);
    let new_sp: usize = code.imm(ImmOp::Add, sp, 4 * n + 4);
    code.set_gpr(SP, new_sp);
    let one: usize = code.konst(1);
    code.set_took(one);
    code
}

/// Lowers a `BX`.
pub fn emit_bx(d: DecodedThumbBx) -> (code: Code)
    requires
        d.rs < 15,
    ensures
        code.wf(),
        forall|s: Cpu| (#[trigger] run(code@, s)).cpu == exec_bx(d, s),
{
    let mut code = Code::new();
    let target: usize = code.gpr(d.rs);
    code.set_pc(target);
    let one: usize = code.konst(1);
    code.set_took(one);
    code
}

/// Lowers a jump to a known target, with the link register written first where `link` holds one.
pub fn emit_jump(target: u32, link: Option<u32>) -> (code: Code)
    ensures
        code.wf(),
        forall|s: Cpu| (#[trigger] run(code@, s)).cpu == match link {
            Some(lr) => s.set(LR, lr).branched(target),
            None => s.branched(target),
        },
{
    let mut code = Code::new();
    if let Some(lr) = link {
        let lr_val: usize = code.konst(lr);
        code.set_gpr(LR, lr_val);
    }
    let t_val: usize = code.konst(target);
    code.set_pc(t_val);
    let one: usize = code.konst(1);
    code.set_took(one);
    code
}

/// Lowers a bare call without arguments.
pub fn emit_call0(f: Callee) -> (code: Code)
    requires
        f.takes() == 0,
    ensures
        code.wf(),
        forall|s: Cpu| (#[trigger] run(code@, s)).cpu == s.called(f, 0, 0, 0),
{
    let mut code = Code::new();
    code.call0(f);
    code
}

/// Lowers a call with one constant argument.
pub fn emit_call1(f: Callee, a: u32) -> (code: Code)
    requires
        f.takes() == 1,
    ensures
        code.wf(),
        forall|s: Cpu| (#[trigger] run(code@, s)).cpu == s.called(f, a, 0, 0),
{
    let mut code = Code::new();
    let x: usize = code.konst(a);
    code.call1(f, x);
    code
}

/// Lowers a call with two constant arguments.
pub fn emit_call2(f: Callee, a: u32, b: u32) -> (code: Code)
    requires
        f.takes() == 2,
    ensures
        code.wf(),
        forall|s: Cpu| (#[trigger] run(code@, s)).cpu == s.called(f, a, b, 0),
{
    let mut code = Code::new();
    let x: usize = code.konst(a);
    let y: usize = code.konst(b);
    code.call2(f, x, y);
    code
}

/// And and or of truth values.
proof fn lemma_truth_ops(a: bool, b: bool)
    ensures
        (truth(a) & truth(b) != 0) == (a && b),
        (truth(a) | truth(b) != 0) == (a || b),
{
    assert(0u32 & 0 == 0 && 0u32 & 1 == 0 && 1u32 & 0 == 0 && 1u32 & 1 == 1 && 0u32 | 0 == 0 && 0u32
        | 1 == 1 && 1u32 | 0 == 1 && 1u32 | 1 == 1) by (bit_vector);
}

/// Lowers the evaluation of a condition; returns the fragment and the temporary that is nonzero
/// exactly if the condition holds.
pub fn emit_cond_check(cond: ArmCond) -> (r: (Code, usize))
    requires
        cond != ArmCond::Invalid,
    ensures
        r.0.wf(),
        is_kind(r.0.kinds@, r.1, Kind::Truth),
        forall|s: Cpu|
            #![trigger run(r.0@, s)]
            run(r.0@, s).cpu == s && (run(r.0@, s).env[r.1 as int] != 0) == cond.passes(s.cpsr),
{
    let mut code = Code::new();
    let cpsr: usize = code.cpsr();
    let one: usize = code.konst(1);
    let n_raw: usize = code.imm(ImmOp::Ushr, cpsr, 31);
    let n: usize = code.bin(BinOp::And, n_raw, one);
    let z_raw: usize = code.imm(ImmOp::Ushr, cpsr, 30);
    let z: usize = code.bin(BinOp::And, z_raw, one);
    let c_raw: usize = code.imm(ImmOp::Ushr, cpsr, 29);
    let c: usize = code.bin(BinOp::And, c_raw, one);
    let v_raw: usize = code.imm(ImmOp::Ushr, cpsr, 28);
    let v: usize = code.bin(BinOp::And, v_raw, one);
    let zero: usize = code.konst(0);
    let true_val: usize = code.yes();
    let ghost before = code@;
    proof {
        assert forall|s: Cpu|
            #![trigger run(before, s)]
            {
                let e = run(before, s).env;
                &&& run(before, s).cpu == s
                &&& e.len() == before.len()
                &&& e[n as int] == truth(flag_n(s.cpsr))
                &&& e[z as int] == truth(flag_z(s.cpsr))
                &&& e[c as int] == truth(flag_c(s.cpsr))
                &&& e[v as int] == truth(flag_v(s.cpsr))
                &&& e[zero as int] == 0
                &&& e[true_val as int] == 1
            } by {
            lemma_bit_values(s.cpsr, 0);
        }
    }
    let t: usize = match cond {
        ArmCond::Eq => code.test(Cc::NotEqual, z, zero),
        ArmCond::Ne => code.test(Cc::Equal, z, zero),
        ArmCond::Hs => code.test(Cc::NotEqual, c, zero),
        ArmCond::Lo => code.test(Cc::Equal, c, zero),
        ArmCond::Mi => code.test(Cc::NotEqual, n, zero),
        ArmCond::Pl => code.test(Cc::Equal, n, zero),
        ArmCond::Vs => code.test(Cc::NotEqual, v, zero),
        ArmCond::Vc => code.test(Cc::Equal, v, zero),
        ArmCond::Hi => {
            let c_set: usize = code.test(Cc::NotEqual, c, zero);
            let z_clear: usize = code.test(Cc::Equal, z, zero);
            code.bin(BinOp::And, c_set, z_clear)
        },
        ArmCond::Ls => {
            let c_clear: usize = code.test(Cc::Equal, c, zero);
            let z_set: usize = code.test(Cc::NotEqual, z, zero);
            code.bin(BinOp::Or, c_clear, z_set)
        },
        ArmCond::Ge => code.test(Cc::Equal, n, v),
        ArmCond::Lt => code.test(Cc::NotEqual, n, v),
        ArmCond::Gt => {
            let z_clear: usize = code.test(Cc::Equal, z, zero);
            let nv_eq: usize = code.test(Cc::Equal, n, v);
            code.bin(BinOp::And, z_clear, nv_eq)
        },
        ArmCond::Le => {
            let z_set: usize = code.test(Cc::NotEqual, z, zero);
            let nv_ne: usize = code.test(Cc::NotEqual, n, v);
            code.bin(BinOp::Or, z_set, nv_ne)
        },
        ArmCond::Al | ArmCond::Invalid => true_val,
    };
    proof {
        assert forall|s: Cpu|
            #![trigger run(code@, s)]
            run(code@, s).cpu == s && (run(code@, s).env[t as int] != 0) == cond.passes(
                s.cpsr,
            ) by {
            let e = run(before, s).env;
            let fz = flag_z(s.cpsr);
            let fc = flag_c(s.cpsr);
            let eq = flag_n(s.cpsr) == flag_v(s.cpsr);
            lemma_truth_ops(fc, !fz);
            lemma_truth_ops(!fc, fz);
            lemma_truth_ops(!fz, eq);
            lemma_truth_ops(fz, !eq);
        }
    }
    (code, t)
}

/// Lowers a data-processing instruction whose condition holds.
pub fn emit_data_processing_imm(d: DecodedDp) -> (code: Code)
    requires
        d.rd < 15,
        d.rn < 15,
        d.operand2 matches Operand2::Reg(rm) ==> rm < 15,
    ensures
        code.wf(),
        forall|s: Cpu| (#[trigger] run(code@, s)).cpu == exec_dp_body(d, s),
{
    let mut code = Code::new();
    let op2: usize = match d.operand2 {
        Operand2::Imm(v) => code.konst(v),
        Operand2::Reg(rm) => code.gpr(rm),
    };
    let rn: usize = match d.op {
        DpOp::Mov | DpOp::Mvn => code.konst(0),
        _ => code.gpr(d.rn),
    };
    let result: usize = match d.op {
        DpOp::Mov => op2,
        DpOp::Mvn => code.not(op2),
        DpOp::Add | DpOp::Cmn => code.bin(BinOp::Add, rn, op2),
        DpOp::Sub | DpOp::Cmp => code.bin(BinOp::Sub, rn, op2),
        DpOp::Tst => code.bin(BinOp::And, rn, op2),
        DpOp::Teq => code.bin(BinOp::Xor, rn, op2),
    };
    proof {
        assert forall|s: Cpu|
            #![trigger run(code@, s)]
            {
                let m = run(code@, s);
                let a = s.reg(d.rn);
                let b = operand2_value(d.operand2, s);
                &&& m.cpu == s
                &&& m.env.len() == code@.len()
                &&& m.env[op2 as int] == b
                &&& m.env[result as int] == dp_result(d.op, a, b)
                &&& (d.op != DpOp::Mov && d.op != DpOp::Mvn ==> m.env[rn as int] == a)
                &&& m.env[result as int] == dp_result(d.op, m.env[rn as int], b)
            } by {
            lemma_run_len(code@, s);
        }
    }
    if !d.op.is_compare_only() {
        code.set_gpr(d.rd, result);
    }
    if d.s {
        let new_cpsr: usize = emit_flag_update(&mut code, d.op, rn, op2, result);
        code.set_cpsr(new_cpsr);
    }
    code
}

/// Lowers an ARM load or store whose condition holds.
pub fn emit_mem_body(d: DecodedMem) -> (code: Code)
    requires
        d.rd < 15,
        d.rn < 15,
    ensures
        code.wf(),
        forall|s: Cpu| (#[trigger] run(code@, s)).cpu == exec_mem_body(d, s),
{
    let mut code = Code::new();
    let rn_val: usize = code.gpr(d.rn);
    let offset: usize = code.konst(d.offset);
    let addr: usize = if d.add {
        code.bin(BinOp::Add, rn_val, offset)
    } else {
        code.bin(BinOp::Sub, rn_val, offset)
    };
    emit_access(&mut code, d.load, d.byte, d.rd, addr);
    code
}

} // verus!
