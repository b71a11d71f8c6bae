//! The hash of a frame takes in every byte of every pixel.

use vstd::prelude::*;
use crate::frontend::{fnv_byte, fnv_pixels};
use vstd::arithmetic::div_mod::{
    lemma_fundamental_div_mod, lemma_mod_multiples_vanish, lemma_small_mod,
};

verus! {

/// One byte taken in: mixed into the low bits, then multiplied by the prime, modulo two to the power
/// 64.
pub open spec fn mixed(h: u64, b: int) -> u64 {
    ((h ^ (b as u64)) * 0x100_0000_01b3 % 0x1_0000_0000_0000_0000) as u64
}

/// The four bytes of a pixel taken in, lowest first.
pub open spec fn mixed_pixel(h: u64, p: u32) -> u64 {
    mixed(
        mixed(
            mixed(mixed(h, p as int % 256), p as int / 256 % 256),
            p as int / 65536 % 256,
        ),
        p as int / 16777216 % 256,
    )
}

/// The hash that is reported for a frame.
pub open spec fn frame_hash(fb: Seq<u32>) -> u64 {
    fnv_pixels(fb, fb.len())
}

proof fn lemma_mixed(h: u64, b: u8)
    ensures
        fnv_byte(h, b) == mixed(h, b as int),
{
}

/// Whatever comes later is not looked at.
proof fn lemma_prefix(fb: Seq<u32>, other: Seq<u32>, n: nat)
    requires
        n <= fb.len(),
        n <= other.len(),
        forall|i: int| 0 <= i < n ==> fb[i] == other[i],
    ensures
        fnv_pixels(fb, n) == fnv_pixels(other, n),
    decreases n,
{
    if n > 0 {
        lemma_prefix(fb, other, (n - 1) as nat);
    }
}

/// The hash of a frame is built pixel by pixel, in order: it starts at the offset basis, and one
/// pixel more takes its four bytes in, lowest first.
pub proof fn law_hash_takes_in_every_pixel(fb: Seq<u32>, p: u32)
    ensures
        frame_hash(Seq::empty()) == 0xcbf2_9ce4_8422_2325,
        frame_hash(fb.push(p)) == mixed_pixel(frame_hash(fb), p),
{
    let more = fb.push(p);
    lemma_prefix(fb, more, fb.len());
    let h = frame_hash(fb);
    lemma_mixed(h, (p % 0x100) as u8);
    let h0 = mixed(h, p as int % 256);
    lemma_mixed(h0, (p / 0x100 % 0x100) as u8);
    let h1 = mixed(h0, p as int / 256 % 256);
    lemma_mixed(h1, (p / 0x1_0000 % 0x100) as u8);
    let h2 = mixed(h1, p as int / 65536 % 256);
    lemma_mixed(h2, (p / 0x100_0000) as u8);
    assert(p / 0x100_0000 < 0x100);
}

/// Multiplying by the prime can be undone.
proof fn lemma_prime_is_odd(x: u64, y: u64)
    requires
        x * 0x100_0000_01b3 % 0x1_0000_0000_0000_0000 == y * 0x100_0000_01b3
            % 0x1_0000_0000_0000_0000,
    ensures
        x == y,
{
    let m = 0x1_0000_0000_0000_0000int;
    let p = 0x100_0000_01b3int;
    let k = 0xce965057aff6957bint;
    let q = 0xce9650590fint;
    assert(p * k == 1 + m * q);
    let u = x * p % m;
    lemma_undone(x as int, p, k, m, q);
    lemma_undone(y as int, p, k, m, q);
}

/// A product with `p`, multiplied by its inverse `k` modulo `m`, is the other factor.
proof fn lemma_undone(x: int, p: int, k: int, m: int, q: int)
    requires
        0 <= x < m,
        p * k == 1 + m * q,
    ensures
        (x * p % m) * k % m == x,
{
    let u = x * p % m;
    let s = x * p / m;
    lemma_fundamental_div_mod(x * p, m);
    assert(u * k == m * (q * x - s * k) + x) by (nonlinear_arith)
        requires
            x * p == m * s + u,
            p * k == 1 + m * q,
    ;
    lemma_mod_multiples_vanish(q * x - s * k, x, m);
    lemma_small_mod(x as nat, m as nat);
}

/// A byte step gives different hashes for different bytes, and for different hashes before it.
pub proof fn law_byte_steps_are_injective(h: u64, g: u64, a: int, b: int)
    requires
        0 <= a < 256,
        0 <= b < 256,
    ensures
        mixed(h, a) == mixed(h, b) ==> a == b,
        mixed(h, a) == mixed(g, a) ==> h == g,
{
    let x = a as u64;
    let y = b as u64;
    assert((h ^ x == h ^ y ==> x == y) && (h ^ x == g ^ x ==> h == g)) by (bit_vector);
    if mixed(h, a) == mixed(h, b) {
        lemma_prime_is_odd(h ^ x, h ^ y);
    }
    if mixed(h, a) == mixed(g, a) {
        lemma_prime_is_odd(h ^ x, g ^ x);
    }
}

/// Whether two pixels differ in exactly one byte.
pub open spec fn one_byte_apart(p: u32, q: u32) -> bool {
    let d0: int = if p % 256 != q % 256 { 1 } else { 0 };
    let d1: int = if p / 256 % 256 != q / 256 % 256 { 1 } else { 0 };
    let d2: int = if p / 65536 % 256 != q / 65536 % 256 { 1 } else { 0 };
    let d3: int = if p / 16777216 % 256 != q / 16777216 % 256 { 1 } else { 0 };
    d0 + d1 + d2 + d3 == 1
}

/// Different hashes stay different when the same pixel is taken in, and pixels that differ in one
/// byte make them different.
pub proof fn law_pixels_are_told_apart(h: u64, g: u64, p: u32, q: u32)
    ensures
        h != g ==> mixed_pixel(h, p) != mixed_pixel(g, p),
        one_byte_apart(p, q) ==> mixed_pixel(h, p) != mixed_pixel(h, q),
{
    let (a0, a1, a2, a3) = (
        p as int % 256,
        p as int / 256 % 256,
        p as int / 65536 % 256,
        p as int / 16777216 % 256,
    );
    let (b0, b1, b2, b3) = (
        q as int % 256,
        q as int / 256 % 256,
        q as int / 65536 % 256,
        q as int / 16777216 % 256,
    );
    law_byte_steps_are_injective(h, g, a0, a0);
    law_byte_steps_are_injective(mixed(h, a0), mixed(g, a0), a1, a1);
    law_byte_steps_are_injective(mixed(mixed(h, a0), a1), mixed(mixed(g, a0), a1), a2, a2);
    law_byte_steps_are_injective(
        mixed(mixed(mixed(h, a0), a1), a2),
        mixed(mixed(mixed(g, a0), a1), a2),
        a3,
        a3,
    );
    let k0 = mixed(h, a0);
    let l0 = mixed(h, b0);
    law_byte_steps_are_injective(h, h, a0, b0);
    let k1 = mixed(k0, a1);
    let l1 = mixed(l0, b1);
    law_byte_steps_are_injective(k0, l0, a1, b1);
    let k2 = mixed(k1, a2);
    let l2 = mixed(l1, b2);
    law_byte_steps_are_injective(k1, l1, a2, b2);
    law_byte_steps_are_injective(k2, l2, a3, b3);
}

/// The hash of the first pixels of a frame, in terms of whole frames.
proof fn lemma_take(fb: Seq<u32>, n: nat)
    requires
        n < fb.len(),
    ensures
        frame_hash(fb.take(n as int + 1)) == mixed_pixel(frame_hash(fb.take(n as int)), fb[n as int]),
{
    assert(fb.take(n as int + 1) =~= fb.take(n as int).push(fb[n as int]));
    law_hash_takes_in_every_pixel(fb.take(n as int), fb[n as int]);
}

proof fn lemma_stay_apart(a: Seq<u32>, b: Seq<u32>, i: int, n: nat)
    requires
        a.len() == b.len(),
        0 <= i < n <= a.len(),
        one_byte_apart(a[i], b[i]),
        forall|j: int| 0 <= j < a.len() && j != i ==> a[j] == b[j],
    ensures
        frame_hash(a.take(n as int)) != frame_hash(b.take(n as int)),
    decreases n,
{
    let k = (n - 1) as nat;
    lemma_take(a, k);
    lemma_take(b, k);
    if k == i {
        assert(a.take(i) =~= b.take(i));
        law_pixels_are_told_apart(frame_hash(a.take(i)), 0, a[i], b[i]);
    } else {
        lemma_stay_apart(a, b, i, k);
        law_pixels_are_told_apart(
            frame_hash(a.take(k as int)),
            frame_hash(b.take(k as int)),
            a[k as int],
            a[k as int],
        );
    }
}

/// Frames that differ in one byte of one pixel, wherever it is, have different hashes.
pub proof fn law_hash_sees_every_byte(a: Seq<u32>, b: Seq<u32>, i: int)
    requires
        a.len() == b.len(),
        0 <= i < a.len(),
        one_byte_apart(a[i], b[i]),
        forall|j: int| 0 <= j < a.len() && j != i ==> a[j] == b[j],
    ensures
        frame_hash(a) != frame_hash(b),
{
    lemma_stay_apart(a, b, i, a.len());
    assert(a.take(a.len() as int) =~= a);
    assert(b.take(b.len() as int) =~= b);
}

} // verus!
