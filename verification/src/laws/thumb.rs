//! What Thumb data processing does, stated on whole steps.

use vstd::prelude::*;
use crate::alu::{BarrelShiftOpCode, Computed, added, shifted, subtracted};
use crate::bits::bits;
use crate::cpu::{CoreState, CpuAction};
use crate::fastpath::Handlers;
use crate::laws::conditions::thumb_fetched;
use crate::laws::shifts::{
    law_shifter, law_shifter_immediate, left, left_carry, right, right_carry, right_signed,
    right_signed_carry, turned, turned_carry,
};
use crate::laws::words::{
    as_signed, c_of, lemma_field, lemma_flag_reads, lemma_flagged, lemma_low_byte, lemma_turned,
    one_if, result_flags, too_wide, v_of, wrapped,
};
use crate::memory::{MemoryAccess, MemoryInterface, Request};
use crate::psr::RegPSR;
use vstd::arithmetic::power2::lemma2_to64;

verus! {

/// The state in which an instruction runs that was fetched for at `at`.
pub open spec fn fetched_for<I: MemoryInterface>(core: CoreState<I>, at: u32) -> CoreState<I> {
    let fetched = thumb_fetched(core, at);
    CoreState { pc: at, ..fetched }
}

/// The end of a step that goes on to the next instruction.
pub open spec fn gone_on<I: MemoryInterface>(
    done: CoreState<I>,
    at: u32,
    access: MemoryAccess,
) -> (CoreState<I>, u32) {
    (CoreState { pc: wrapped(at + 2), next_fetch_access: access, ..done }, 0)
}

/// A step that does no more than write registers and flags.
pub open spec fn computed<I: MemoryInterface>(
    core: CoreState<I>,
    at: u32,
    gpr: Seq<u32>,
    raw: u32,
) -> (CoreState<I>, u32) {
    gone_on(
        CoreState { gpr, cpsr: RegPSR { raw }, ..fetched_for(core, at) },
        at,
        MemoryAccess::Sequential,
    )
}

/// A step from the effect of its instruction.
pub proof fn lemma_gone_on<I: MemoryInterface, H: Handlers<I>>(
    core: CoreState<I>,
    at: u32,
    x: u32,
    done: CoreState<I>,
    access: MemoryAccess,
)
    requires
        fetched_for(core, at).thumb_effect::<H>(x) == (done, CpuAction::AdvancePC(access)),
    ensures
        core.thumb_stepped::<H>(at, x) == gone_on(done, at, access),
{
    assert(core.fetched16(at).with_pc(at) == fetched_for(core, at));
}

/// A step is its fetch, the effect of its instruction and the way on from there.
pub proof fn lemma_step_is<I: MemoryInterface, H: Handlers<I>>(core: CoreState<I>, at: u32, x: u32)
    ensures
        core.thumb_stepped::<H>(at, x) == CoreState::concluded(
            fetched_for(core, at).thumb_effect::<H>(x),
            at,
            2,
        ),
{
    assert(core.fetched16(at).with_pc(at) == fetched_for(core, at));
}

/// The fields of a Thumb instruction that tell the formats apart.
#[verifier::spinoff_prover]
pub proof fn lemma_thumb_format(x: u32)
    requires
        x < 0x1_0000,
    ensures
        bits(x, 13, 3) == x / 8192,
        bits(x, 12, 4) == x / 4096,
        bits(x, 11, 5) == x / 2048,
        bits(x, 10, 6) == x / 1024,
        bits(x, 8, 8) == x / 256,
        bits(x, 11, 2) == x / 2048 % 4,
        bits(x, 9, 2) == x / 512 % 4,
        bits(x, 9, 1) == x / 512 % 2,
        bits(x, 8, 4) == x / 256 % 16,
        x >> 11u32 == x / 2048,
{
    lemma2_to64();
    lemma_field(x, 13, 3);
    lemma_field(x, 12, 4);
    lemma_field(x, 11, 5);
    lemma_field(x, 10, 6);
    lemma_field(x, 8, 8);
    lemma_field(x, 11, 2);
    lemma_field(x, 9, 2);
    lemma_field(x, 9, 1);
    lemma_field(x, 8, 4);
    vstd::bits::lemma_u32_shr_is_div(x, 11);
}

/// The fields of a Thumb instruction that hold its operands.
#[verifier::spinoff_prover]
pub proof fn lemma_thumb_operands(x: u32)
    requires
        x < 0x1_0000,
    ensures
        bits(x, 0, 3) == x % 8,
        bits(x, 3, 3) == x / 8 % 8,
        bits(x, 6, 3) == x / 64 % 8,
        bits(x, 8, 3) == x / 256 % 8,
        bits(x, 6, 5) == x / 64 % 32,
        bits(x, 6, 4) == x / 64 % 16,
        bits(x, 0, 8) == x % 256,
        bits(x, 0, 7) == x % 128,
        bits(x, 0, 11) == x % 2048,
        bits(x, 8, 2) == x / 256 % 4,
        bits(x, 12, 1) == x / 4096 % 2,
        bits(x, 11, 1) == x / 2048 % 2,
        bits(x, 10, 1) == x / 1024 % 2,
        bits(x, 8, 1) == x / 256 % 2,
        bits(x, 7, 1) == x / 128 % 2,
        bits(x, 6, 1) == x / 64 % 2,
{
    lemma2_to64();
    lemma_field(x, 0, 3);
    lemma_field(x, 3, 3);
    lemma_field(x, 6, 3);
    lemma_field(x, 8, 3);
    lemma_field(x, 6, 5);
    lemma_field(x, 6, 4);
    lemma_field(x, 0, 8);
    lemma_field(x, 0, 7);
    lemma_field(x, 0, 11);
    lemma_field(x, 8, 2);
    lemma_field(x, 12, 1);
    lemma_field(x, 11, 1);
    lemma_field(x, 10, 1);
    lemma_field(x, 8, 1);
    lemma_field(x, 7, 1);
    lemma_field(x, 6, 1);
}

/// The formats up to the fifth.
#[verifier::spinoff_prover]
pub proof fn lemma_low_formats<I: MemoryInterface, H: Handlers<I>>(core: CoreState<I>, x: u32)
    requires
        x < 0x1_0000,
    ensures
        x / 2048 < 3 ==> core.thumb_effect::<H>(x) == core.thumb_shift(x).going(
            MemoryAccess::Sequential,
        ),
        x / 2048 == 3 ==> core.thumb_effect::<H>(x) == core.thumb_add_sub(x).going(
            MemoryAccess::Sequential,
        ),
        x / 8192 == 1 ==> core.thumb_effect::<H>(x) == core.thumb_imm(x).going(
            MemoryAccess::Sequential,
        ),
        x / 1024 == 16 ==> core.thumb_effect::<H>(x) == core.thumb_alu(x).going(
            MemoryAccess::Sequential,
        ),
        x / 1024 == 17 ==> core.thumb_effect::<H>(x) == core.thumb_hi(x),
{
    lemma_thumb_format(x);
}

/// Flags from a result, over numbers.
pub proof fn lemma_flags_set<I: MemoryInterface>(core: CoreState<I>, r: u32, c: bool, v: bool)
    ensures
        core.flags_set(r, c, v) == (CoreState {
            cpsr: RegPSR { raw: result_flags(core.cpsr.raw, r, c, v) },
            ..core
        }),
{
    lemma_flagged(core.cpsr.raw, r >= 0x8000_0000, r == 0, c, v);
}

/// A step whose instruction writes flags and, where `write` says so, a register.
pub proof fn lemma_written<I: MemoryInterface, H: Handlers<I>>(
    core: CoreState<I>,
    at: u32,
    x: u32,
    write: Option<int>,
    r: Computed,
)
    requires
        ({
            let t = fetched_for(core, at).flags_set(r.value, r.carry, r.overflow);
            fetched_for(core, at).thumb_effect::<H>(x) == (match write {
                Some(rd) => t.with_gpr(rd, r.value),
                None => t,
            }).going(MemoryAccess::Sequential)
        }),
    ensures
        core.thumb_stepped::<H>(at, x) == computed(
            core,
            at,
            match write {
                Some(rd) => core.gpr.update(rd, r.value),
                None => core.gpr,
            },
            result_flags(core.cpsr.raw, r.value, r.carry, r.overflow),
        ),
{
    let s = fetched_for(core, at);
    lemma_flags_set(s, r.value, r.carry, r.overflow);
    lemma_gone_on::<I, H>(core, at, x, s.thumb_effect::<H>(x).0, MemoryAccess::Sequential);
}

/// Sums and differences with their carries and overflows.
pub proof fn lemma_sums(raw: u32, a: u32, b: u32)
    ensures
        added(a, b).value == wrapped(a + b),
        result_flags(raw, added(a, b).value, added(a, b).carry, added(a, b).overflow) == sum_flags(
            raw,
            a,
            b,
            0,
        ),
        subtracted(a, b).value == wrapped(a - b),
        result_flags(
            raw,
            subtracted(a, b).value,
            subtracted(a, b).carry,
            subtracted(a, b).overflow,
        ) == difference_flags(raw, a, b, 0),
{
}

/// Shifts by an amount in the instruction. A right shift by zero stands for one by 32.
#[verifier::spinoff_prover]
pub proof fn law_thumb_shifts<I: MemoryInterface, H: Handlers<I>>(
    core: CoreState<I>,
    at: u32,
    x: u32,
)
    requires
        x / 2048 < 3,
    ensures
        ({
            let v = core.gpr[x as int / 8 % 8];
            let raw = core.cpsr.raw;
            let n = x as int / 64 % 32;
            let k: int = if n == 0 {
                32
            } else {
                n
            };
            let (r, c) = if x / 2048 == 0 {
                (left(v, n), left_carry(v, n, c_of(raw)))
            } else if x / 2048 == 1 {
                (right(v, k), right_carry(v, k, c_of(raw)))
            } else {
                (right_signed(v, k), right_signed_carry(v, k, c_of(raw)))
            };
            core.thumb_stepped::<H>(at, x) == computed(
                core,
                at,
                core.gpr.update(x as int % 8, r),
                result_flags(raw, r, c, v_of(raw)),
            )
        }),
{
    let s = fetched_for(core, at);
    let raw = core.cpsr.raw;
    lemma_low_formats::<I, H>(s, x);
    lemma_thumb_format(x);
    lemma_thumb_operands(x);
    lemma_flag_reads(raw);
    let v = core.gpr[x as int / 8 % 8];
    let n = (x / 64 % 32) as u32;
    law_shifter_immediate(v, n, c_of(raw));
    let kind = if x / 2048 == 0 {
        BarrelShiftOpCode::LSL
    } else if x / 2048 == 1 {
        BarrelShiftOpCode::LSR
    } else {
        BarrelShiftOpCode::ASR
    };
    let r = shifted(kind, v, n, c_of(raw), true);
    lemma_flags_set(s.with_gpr(x as int % 8, r.0), r.0, r.1, v_of(raw));
    lemma_gone_on::<I, H>(core, at, x, s.thumb_shift(x), MemoryAccess::Sequential);
}

/// The flags of a sum and of a difference.
pub open spec fn sum_flags(raw: u32, a: u32, b: u32, carry: int) -> u32 {
    result_flags(
        raw,
        wrapped(a + b + carry),
        a + b + carry >= 0x1_0000_0000,
        too_wide(as_signed(a) + as_signed(b) + carry),
    )
}

pub open spec fn difference_flags(raw: u32, a: u32, b: u32, borrow: int) -> u32 {
    result_flags(
        raw,
        wrapped(a - b - borrow),
        a - b - borrow >= 0,
        too_wide(as_signed(a) - as_signed(b) - borrow),
    )
}

/// Sums and differences of a register with a register or a small number.
#[verifier::spinoff_prover]
pub proof fn law_thumb_sums<I: MemoryInterface, H: Handlers<I>>(
    core: CoreState<I>,
    at: u32,
    x: u32,
)
    requires
        x / 2048 == 3,
    ensures
        ({
            let a = core.gpr[x as int / 8 % 8];
            let k = x as int / 64 % 8;
            let b = if x / 1024 % 2 == 1 {
                k as u32
            } else {
                core.gpr[k]
            };
            let raw = core.cpsr.raw;
            core.thumb_stepped::<H>(at, x) == if x / 512 % 2 == 0 {
                computed(
                    core,
                    at,
                    core.gpr.update(x as int % 8, wrapped(a + b)),
                    sum_flags(raw, a, b, 0),
                )
            } else {
                computed(
                    core,
                    at,
                    core.gpr.update(x as int % 8, wrapped(a - b)),
                    difference_flags(raw, a, b, 0),
                )
            }
        }),
{
    let s = fetched_for(core, at);
    lemma_low_formats::<I, H>(s, x);
    lemma_thumb_format(x);
    lemma_thumb_operands(x);
    let a = core.gpr[x as int / 8 % 8];
    let k = x as int / 64 % 8;
    let b = if x / 1024 % 2 == 1 {
        k as u32
    } else {
        core.gpr[k]
    };
    let rd = x as int % 8;
    lemma_sums(core.cpsr.raw, a, b);
    if x / 512 % 2 == 0 {
        lemma_written::<I, H>(core, at, x, Some(rd), added(a, b));
    } else {
        lemma_written::<I, H>(core, at, x, Some(rd), subtracted(a, b));
    }
}

/// Moving a byte to a register, and comparing, adding and subtracting one.
#[verifier::spinoff_prover]
pub proof fn law_thumb_bytes<I: MemoryInterface, H: Handlers<I>>(
    core: CoreState<I>,
    at: u32,
    x: u32,
)
    requires
        x / 8192 == 1,
    ensures
        ({
            let rd = x as int / 256 % 8;
            let a = core.gpr[rd];
            let b = (x % 256) as u32;
            let raw = core.cpsr.raw;
            core.thumb_stepped::<H>(at, x) == if x / 2048 % 4 == 0 {
                computed(
                    core,
                    at,
                    core.gpr.update(rd, b),
                    result_flags(raw, b, c_of(raw), v_of(raw)),
                )
            } else if x / 2048 % 4 == 1 {
                computed(core, at, core.gpr, difference_flags(raw, a, b, 0))
            } else if x / 2048 % 4 == 2 {
                computed(core, at, core.gpr.update(rd, wrapped(a + b)), sum_flags(raw, a, b, 0))
            } else {
                computed(
                    core,
                    at,
                    core.gpr.update(rd, wrapped(a - b)),
                    difference_flags(raw, a, b, 0),
                )
            }
        }),
{
    let s = fetched_for(core, at);
    let raw = core.cpsr.raw;
    lemma_low_formats::<I, H>(s, x);
    lemma_thumb_format(x);
    lemma_thumb_operands(x);
    lemma_flag_reads(raw);
    let a = core.gpr[x as int / 256 % 8];
    let b = (x % 256) as u32;
    let rd = x as int / 256 % 8;
    lemma_sums(raw, a, b);
    if x / 2048 % 4 == 0 {
        let r = Computed { value: b, carry: c_of(raw), overflow: v_of(raw) };
        lemma_written::<I, H>(core, at, x, Some(rd), r);
    } else if x / 2048 % 4 == 1 {
        lemma_written::<I, H>(core, at, x, None, subtracted(a, b));
    } else if x / 2048 % 4 == 2 {
        lemma_written::<I, H>(core, at, x, Some(rd), added(a, b));
    } else {
        lemma_written::<I, H>(core, at, x, Some(rd), subtracted(a, b));
    }
}

/// A bus after `n` internal cycles.
pub open spec fn waited<I: MemoryInterface>(bus: I::State, n: nat) -> I::State
    decreases n,
{
    if n == 0 {
        bus
    } else {
        I::next(waited::<I>(bus, (n - 1) as nat), Request::IdleCycle)
    }
}

pub proof fn lemma_waited<I: MemoryInterface>(core: CoreState<I>, n: nat)
    ensures
        core.idled(n) == (CoreState { bus: waited::<I>(core.bus, n), ..core }),
    decreases n,
{
    if n > 0 {
        lemma_waited(core, (n - 1) as nat);
    }
}

/// What an operation of two registers writes, and its carry and overflow, by its number. `a` is the
/// register that is written and `b` the other one.
pub open spec fn operated(op: int, a: u32, b: u32, c: bool, v: bool) -> (u32, bool, bool) {
    let n = b as int % 256;
    let k = one_if(c);
    if op == 0 || op == 8 {
        (a & b, c, v)
    } else if op == 1 {
        (a ^ b, c, v)
    } else if op == 2 {
        (left(a, n), left_carry(a, n, c), v)
    } else if op == 3 {
        (right(a, n), right_carry(a, n, c), v)
    } else if op == 4 {
        (right_signed(a, n), right_signed_carry(a, n, c), v)
    } else if op == 5 {
        (
            wrapped(a + b + k),
            a + b + k >= 0x1_0000_0000,
            too_wide(as_signed(a) + as_signed(b) + k),
        )
    } else if op == 6 {
        (
            wrapped(a - b - (1 - k)),
            a - b - (1 - k) >= 0,
            too_wide(as_signed(a) - as_signed(b) - (1 - k)),
        )
    } else if op == 7 {
        (turned(a, n), turned_carry(a, n, c), v)
    } else if op == 9 {
        (wrapped(-(b as int)), b == 0, b == 0x8000_0000)
    } else if op == 10 {
        (wrapped(a - b), a >= b, too_wide(as_signed(a) - as_signed(b)))
    } else if op == 11 {
        (wrapped(a + b), a + b >= 0x1_0000_0000, too_wide(as_signed(a) + as_signed(b)))
    } else if op == 12 {
        (a | b, c, v)
    } else if op == 13 {
        (wrapped(a * b), false, false)
    } else if op == 14 {
        (a & wrapped(-1 - b), c, v)
    } else {
        (wrapped(-1 - b), c, v)
    }
}

/// How many internal cycles an operation of two registers takes: one for a shift, and for a
/// multiplication as many as the multiplier has bytes.
pub open spec fn operation_cycles(op: int, b: u32) -> nat {
    if op == 2 || op == 3 || op == 4 || op == 7 {
        1
    } else if op != 13 {
        0
    } else if b < 256 {
        1
    } else if b < 256 * 256 {
        2
    } else if b < 256 * 256 * 256 {
        3
    } else {
        4
    }
}

/// What the core computes for an operation of two registers.
pub open spec fn operates<I: MemoryInterface>(core: CoreState<I>, op: u32, a: u32, b: u32) -> bool {
    let r = core.thumb_alu_result(op, a, b);
    (r.value, r.carry, r.overflow) == operated(
        op as int,
        a,
        b,
        c_of(core.cpsr.raw),
        v_of(core.cpsr.raw),
    )
}

#[verifier::spinoff_prover]
proof fn lemma_operated_shift<I: MemoryInterface>(core: CoreState<I>, op: u32, a: u32, b: u32)
    requires
        op == 2 || op == 3 || op == 4 || op == 7,
    ensures
        operates(core, op, a, b),
{
    let raw = core.cpsr.raw;
    lemma_flag_reads(raw);
    lemma_low_byte(b);
    law_shifter(a, (b % 256) as u32, c_of(raw));
}

#[verifier::spinoff_prover]
proof fn lemma_operated_sum<I: MemoryInterface>(core: CoreState<I>, op: u32, a: u32, b: u32)
    requires
        op == 5 || op == 6 || op == 9 || op == 10 || op == 11 || op == 13,
    ensures
        operates(core, op, a, b),
{
    lemma_flag_reads(core.cpsr.raw);
}

#[verifier::spinoff_prover]
proof fn lemma_operated_bits<I: MemoryInterface>(core: CoreState<I>, op: u32, a: u32, b: u32)
    requires
        op == 0 || op == 1 || op == 8 || op == 12 || op == 14 || op == 15,
    ensures
        operates(core, op, a, b),
{
    lemma_flag_reads(core.cpsr.raw);
    lemma_turned(b);
}

/// The operations of two registers, by their number: AND, EOR, LSL, LSR, ASR, ADC, SBC, ROR, TST, NEG,
/// CMP, CMN, ORR, MUL, BIC and MVN. TST, CMP and CMN write flags only.
#[verifier::spinoff_prover]
pub proof fn law_thumb_operations<I: MemoryInterface, H: Handlers<I>>(
    core: CoreState<I>,
    at: u32,
    x: u32,
)
    requires
        x / 1024 == 16,
    ensures
        ({
            let op = x as int / 64 % 16;
            let rd = x as int % 8;
            let a = core.gpr[rd];
            let b = core.gpr[x as int / 8 % 8];
            let raw = core.cpsr.raw;
            let (r, c, v) = operated(op, a, b, c_of(raw), v_of(raw));
            let done = fetched_for(core, at);
            core.thumb_stepped::<H>(at, x) == gone_on(
                CoreState {
                    gpr: if op == 8 || op == 10 || op == 11 {
                        core.gpr
                    } else {
                        core.gpr.update(rd, r)
                    },
                    cpsr: RegPSR { raw: result_flags(raw, r, c, v) },
                    bus: waited::<I>(done.bus, operation_cycles(op, b)),
                    ..done
                },
                at,
                MemoryAccess::Sequential,
            )
        }),
{
    let s = fetched_for(core, at);
    lemma_low_formats::<I, H>(s, x);
    lemma_thumb_operands(x);
    let op = (x / 64 % 16) as u32;
    let a = core.gpr[x as int % 8];
    let b = core.gpr[x as int / 8 % 8];
    if op == 2 || op == 3 || op == 4 || op == 7 {
        lemma_operated_shift(s, op, a, b);
    } else if op == 0 || op == 1 || op == 8 || op == 12 || op == 14 || op == 15 {
        lemma_operated_bits(s, op, a, b);
    } else {
        lemma_operated_sum(s, op, a, b);
    }
    let n = CoreState::<I>::thumb_alu_cycles(op, b);
    assert(n == operation_cycles(op as int, b));
    lemma_waited(s, n);
    let r = s.thumb_alu_result(op, a, b);
    lemma_flags_set(s.idled(n), r.value, r.carry, r.overflow);
    lemma_gone_on::<I, H>(core, at, x, s.thumb_alu(x), MemoryAccess::Sequential);
}

} // verus!
