//! Integer kernels of the portable square root: widening high multiplication and
//! fixed-point Goldschmidt iterations.
use vstd::prelude::*;

verus! {

/// The high half of the full product of two 32-bit numbers.
pub open spec fn mulh32(a: u32, b: u32) -> u32 {
    ((a as nat * b as nat) / 0x1_0000_0000) as u32
}

/// The high half of the full product of two 64-bit numbers.
pub open spec fn mulh64(a: u64, b: u64) -> u64 {
    ((a as nat * b as nat) / 0x1_0000_0000_0000_0000) as u64
}

/// `3` as an unsigned fixed-point number with two integer bits, in 32 bits.
pub open spec fn three_u2_32() -> u32 {
    0xc000_0000
}

/// `3` as an unsigned fixed-point number with two integer bits, in 64 bits.
pub open spec fn three_u2_64() -> u64 {
    0xc000_0000_0000_0000
}

/// The Goldschmidt iterations at 32-bit width from iteration `i` to `count`, with the
/// current `r` (approaching `1/sqrt(m)`), `s` (approaching `sqrt(m)`) and `u`.
///
/// Each iteration computes `s = s * u` (doubled after the first iteration), `u = 3 - s * r`
/// and `r = 2 * r * u`, all in fixed point, wrapping on overflow.
pub open spec fn goldschmidt32(r: u32, s: u32, u: u32, i: nat, count: nat) -> (u32, u32)
    decreases count - i,
{
    if i >= count {
        (r, s)
    } else {
        let s1 = mulh32(s, u);
        let s2 = if i > 0 {
            (s1 << 1u32) as u32
        } else {
            s1
        };
        let u1 = three_u2_32().wrapping_sub(mulh32(s2, r));
        let r1 = (mulh32(r, u1) << 1u32) as u32;
        goldschmidt32(r1, s2, u1, i + 1, count)
    }
}

/// The Goldschmidt iterations at 64-bit width from iteration `i` to `count`; as
/// [`goldschmidt32`], except that `s` is not doubled in the last iteration.
pub open spec fn goldschmidt64(r: u64, s: u64, u: u64, i: nat, count: nat) -> (u64, u64)
    decreases count - i,
{
    if i >= count {
        (r, s)
    } else {
        let s1 = mulh64(s, u);
        let s2 = if i > 0 && i + 1 < count {
            (s1 << 1u64) as u64
        } else {
            s1
        };
        let u1 = three_u2_64().wrapping_sub(mulh64(s2, r));
        let r1 = (mulh64(r, u1) << 1u64) as u64;
        goldschmidt64(r1, s2, u1, i + 1, count)
    }
}

/// The high 32 bits of the 64-bit product of `a` and `b`.
pub fn wmulh_u32(a: u32, b: u32) -> (r: u32)
    ensures
        r == mulh32(a, b),
{
    assert(a as nat * b as nat <= 0xffff_ffff * 0xffff_ffff) by (nonlinear_arith)
        requires
            a <= 0xffff_ffff,
            b <= 0xffff_ffff,
    ;
    let p = (a as u64) * (b as u64);
    assert(p >> 32 == p / 0x1_0000_0000) by (bit_vector);
    (p >> 32) as u32
}

/// The high 64 bits of the 128-bit product of `a` and `b`.
pub fn wmulh_u64(a: u64, b: u64) -> (r: u64)
    ensures
        r == mulh64(a, b),
{
    assert(a as nat * b as nat <= 0xffff_ffff_ffff_ffff * 0xffff_ffff_ffff_ffff) by (nonlinear_arith)
        requires
            a <= 0xffff_ffff_ffff_ffff,
            b <= 0xffff_ffff_ffff_ffff,
    ;
    let p = (a as u128) * (b as u128);
    assert(p >> 64 == p / 0x1_0000_0000_0000_0000) by (bit_vector);
    (p >> 64) as u64
}

/// Run `count` Goldschmidt iterations at 32-bit width from `r` (approaching `1/sqrt(m)`)
/// and `s` (approaching `sqrt(m)`), returning the final `(r, s)`.
pub fn goldschmidt_r2(r_u0: u32, s_u2: u32, count: u32) -> (res: (u32, u32))
    ensures
        res == goldschmidt32(r_u0, s_u2, r_u0, 0, count as nat),
{
    let ghost (r0, s0) = (r_u0, s_u2);
    let three_u2: u32 = 0xc000_0000;
    let mut r_u0 = r_u0;
    let mut s_u2 = s_u2;
    let mut u_u0 = r_u0;
    let mut i: u32 = 0;
    while i < count
        invariant
            i <= count,
            three_u2 == three_u2_32(),
            goldschmidt32(r_u0, s_u2, u_u0, i as nat, count as nat) == goldschmidt32(r0, s0, r0, 0, count as nat),
        decreases count - i,
    {
        s_u2 = wmulh_u32(s_u2, u_u0);
        if i > 0 {
            s_u2 = s_u2 << 1;
        }
        let d_u2 = wmulh_u32(s_u2, r_u0);
        u_u0 = three_u2.wrapping_sub(d_u2);
        r_u0 = wmulh_u32(r_u0, u_u0) << 1;
        i = i + 1;
    }
    (r_u0, s_u2)
}

/// Run `count` Goldschmidt iterations at 64-bit width from `r` (approaching `1/sqrt(m)`)
/// and `s` (approaching `sqrt(m)`), returning the final `(r, s)`.
pub fn goldschmidt_final(r_u0: u64, s_u2: u64, count: u32) -> (res: (u64, u64))
    ensures
        res == goldschmidt64(r_u0, s_u2, r_u0, 0, count as nat),
{
    let ghost (r0, s0) = (r_u0, s_u2);
    let three_u2: u64 = 0xc000_0000_0000_0000;
    let mut r_u0 = r_u0;
    let mut s_u2 = s_u2;
    let mut u_u0 = r_u0;
    let mut i: u32 = 0;
    while i < count
        invariant
            i <= count,
            three_u2 == three_u2_64(),
            goldschmidt64(r_u0, s_u2, u_u0, i as nat, count as nat) == goldschmidt64(r0, s0, r0, 0, count as nat),
        decreases count - i,
    {
        s_u2 = wmulh_u64(s_u2, u_u0);
        if i > 0 && i + 1 < count {
            s_u2 = s_u2 << 1;
        }
        let d_u2 = wmulh_u64(s_u2, r_u0);
        u_u0 = three_u2.wrapping_sub(d_u2);
        r_u0 = wmulh_u64(r_u0, u_u0) << 1;
        i = i + 1;
    }
    (r_u0, s_u2)
}

/// A marker for paths that are rarely taken.
pub fn cold_path() {
}

} // verus!
