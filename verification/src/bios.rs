//! BIOS software-interrupt handling.
//!
//! The GBA BIOS is a 16 KiB ROM that, among other things, provides a set of
//! SWI routines (division, square root, memory copies, decompression, the
//! halt/interrupt-wait services, …). Two modes are supported:
//!
//! * **LLE** — if a real BIOS image is loaded, `SWI` takes the normal
//!   exception to vector `0x08` and the BIOS code runs.
//! * **HLE** — otherwise `SWI` is intercepted and the routine emulated here,
//!   so the emulator runs with no copyrighted files.
//!
//! ### Accuracy notes
//!
//! * `Div`/`Sqrt`/`CpuSet`/`CpuFastSet`/`RegisterRamReset` are exact.
//! * `ArcTan`/`ArcTan2` use the BIOS's own fixed-point polynomial on the
//!   octant where the tangent is at most 1, and the identity
//!   atan(t) = 90° − atan(1/t) beyond it, so every input gets the angle to
//!   within a few low bits.
//! * `IntrWait`/`VBlankIntrWait` halt the CPU until an interrupt arrives.
//! * Decompression (LZ77, run-length, Huffman, diff-unfilter) and `BitUnpack`
//!   are implemented. The affine-set helpers (0x0E/0x0F) are not. A stream
//!   that makes no progress for 2^32 consecutive flag groups (LZ77) or words
//!   (Huffman) is abandoned, and a `BitUnpack` parameter block whose unit
//!   widths cannot be unpacked (source width 0 or ≥ 32, destination units
//!   overrunning a word) stops the unpacking.

use crate::cpu::{refilled, spec_branch, spec_set_cpsr, spec_set_reg, thumb_state, Cpu, CpuView};
use crate::memory::{half_read, half_written, word_read, word_written, Bus, BusModel};
use crate::timing::Width;
use vstd::prelude::*;

verus! {

/// The checksum the retail GBA BIOS reports (SWI 0x0D).
pub const BIOS_CHECKSUM: u32 = 0xBAAE_187F;

// ---------------------------------------------------------------------------
// Division (SWI 0x06 / 0x07)
// ---------------------------------------------------------------------------

pub open spec fn abs(x: int) -> int {
    if x < 0 {
        -x
    } else {
        x
    }
}

/// Signed division rounding toward zero.
pub open spec fn trunc_div(n: int, d: int) -> int {
    let q = abs(n) / abs(d);
    if (n < 0) != (d < 0) {
        -q
    } else {
        q
    }
}

/// The remainder of [`trunc_div`]: it takes the numerator's sign.
pub open spec fn trunc_rem(n: int, d: int) -> int {
    let r = abs(n) % abs(d);
    if n < 0 {
        -r
    } else {
        r
    }
}

/// Div's results (r0 = quotient, r1 = remainder, r3 = |quotient|), all as
/// 32-bit words. Division by zero is defined too: the quotient is the sign
/// of the numerator and the remainder the numerator.
pub open spec fn div_results(num: i32, den: i32) -> (u32, u32, u32) {
    if den == 0 {
        (if num >= 0 { 1u32 } else { 0xFFFF_FFFFu32 }, num as u32, 1u32)
    } else {
        let q = trunc_div(num as int, den as int);
        (q as u32, trunc_rem(num as int, den as int) as u32, abs(q) as u32)
    }
}

/// The CPU after `Div` (r0 / r1) or, `swapped`, `DivArm` (r1 / r0).
pub open spec fn div_effect(v: CpuView, swapped: bool) -> CpuView {
    let n = if swapped { v.regs[1] } else { v.regs[0] };
    let d = if swapped { v.regs[0] } else { v.regs[1] };
    let res = div_results(n as i32, d as i32);
    spec_set_reg(spec_set_reg(spec_set_reg(v, 0, res.0), 1, res.1), 3, res.2)
}

fn magnitude(x: i32) -> (r: u64)
    ensures
        r == abs(x as int),
{
    if x < 0 {
        (-(x as i64)) as u64
    } else {
        x as u64
    }
}

/// Signed division shared by `Div` (r0/r1) and `DivArm` (r1/r0, `swapped`).
fn div(cpu: &mut Cpu, swapped: bool)
    ensures
        final(cpu)@ == div_effect(old(cpu)@, swapped),
{
    let (numerator, denominator) = if swapped {
        (cpu.reg(1), cpu.reg(0))
    } else {
        (cpu.reg(0), cpu.reg(1))
    };
    let num = numerator as i32;
    let den = denominator as i32;
    if den == 0 {
        // The quotient is the sign of the numerator, the remainder the
        // numerator, |quotient| is 1.
        let q: u32 = if num >= 0 {
            1
        } else {
            0xFFFF_FFFF
        };
        cpu.set_reg(0, q);
        cpu.set_reg(1, num as u32);
        cpu.set_reg(3, 1);
    } else {
        let na = magnitude(num);
        let da = magnitude(den);
        let qa = na / da;
        let ra = na % da;
        assert(qa <= 0x8000_0000) by (nonlinear_arith)
            requires
                na <= 0x8000_0000,
                da >= 1,
                qa == na / da,
        ;
        let q: i64 = if (num < 0) != (den < 0) {
            -(qa as i64)
        } else {
            qa as i64
        };
        let r: i64 = if num < 0 {
            -(ra as i64)
        } else {
            ra as i64
        };
        // The quotient wraps to 0x8000_0000 for i32::MIN / -1, as on hardware.
        cpu.set_reg(0, q as u32);
        cpu.set_reg(1, r as u32);
        cpu.set_reg(3, qa as u32);
    }
}

// ---------------------------------------------------------------------------
// Square root (SWI 0x08)
// ---------------------------------------------------------------------------

/// `r` is the integer square root of `v`: the largest r with r² ≤ v.
pub open spec fn is_isqrt(v: int, r: int) -> bool {
    r >= 0 && r * r <= v < (r + 1) * (r + 1)
}

/// `b` is a power of four no greater than 4^15.
pub open spec fn small_pow4(b: u64) -> bool {
    b == 1 || b == 4 || b == 0x10 || b == 0x40 || b == 0x100 || b == 0x400 || b == 0x1000 || b
        == 0x4000 || b == 0x1_0000 || b == 0x4_0000 || b == 0x10_0000 || b == 0x40_0000 || b
        == 0x100_0000 || b == 0x400_0000 || b == 0x1000_0000 || b == 0x4000_0000
}

/// Integer square root of an unsigned 32-bit value, one result bit per
/// step (the classic digit-by-digit method).
pub fn isqrt(value: u32) -> (r: u32)
    ensures
        is_isqrt(value as int, r as int),
{
    let n = value as u64;
    let mut rem = n;
    let mut root: u64 = 0;
    assert(1u64 << 30u64 == 0x4000_0000) by {
        crate::bits::lemma_bit_facts();
    }
    let mut bit: u64 = 1u64 << 30u64;
    while bit > rem
        invariant
            rem == n,
            n < 0x1_0000_0000,
            bit > 0 ==> n < 4 * bit,
            bit == 0 ==> n == 0,
            bit == 0 || small_pow4(bit),
        decreases bit,
    {
        assert(bit >> 2u64 == bit / 4) by {
            crate::bits::lemma_bit_facts();
        }
        bit = bit >> 2u64;
    }
    // Digit-by-digit: `s` is the root found so far and `scale` the weight of
    // its square (4 × bit while digits remain, 1 at the end).
    let ghost mut s: int = 0;
    let ghost mut scale: int = if bit == 0 { 1 } else { 4 * bit };
    assert((s + 1) * (s + 1) * scale == scale && s * scale == 0 && s * s * scale == 0)
        by (nonlinear_arith)
        requires
            s == 0,
    ;
    while bit != 0
        invariant
            n < 0x1_0000_0000,
            rem <= n,
            s >= 0,
            scale == (if bit == 0 { 1 } else { 4 * bit }),
            bit == 0 || small_pow4(bit),
            root == s * scale,
            rem == n - s * s * scale,
            n < (s + 1) * (s + 1) * scale,
        decreases bit,
    {
        let ghost old_bit = bit;
        let ghost old_root = root;
        assert(root + bit < 0x2_0000_0000) by (nonlinear_arith)
            requires
                root == s * (4 * bit),
                n - s * s * (4 * bit) >= 0,
                n < 0x1_0000_0000,
                bit <= 0x4000_0000,
                s >= 0,
                bit >= 1,
        {
            if s > 0 {
                assert(s * (4 * bit) <= s * s * (4 * bit));
            }
        }
        if rem >= root + bit {
            rem = rem - (root + bit);
            assert(root >> 1u64 == root / 2) by {
                crate::bits::lemma_bit_facts();
            }
            root = (root >> 1u64) + bit;
            proof {
                assert(root == (2 * s + 1) * bit) by (nonlinear_arith)
                    requires
                        root == (s * (4 * old_bit)) / 2 + old_bit,
                        bit == old_bit,
                ;
                assert(rem == n - (2 * s + 1) * (2 * s + 1) * bit) by (nonlinear_arith)
                    requires
                        rem == n - s * s * (4 * bit) - (s * (4 * bit) + bit),
                ;
                assert(n < (2 * s + 2) * (2 * s + 2) * bit) by (nonlinear_arith)
                    requires
                        n < (s + 1) * (s + 1) * (4 * bit),
                ;
                s = 2 * s + 1;
            }
        } else {
            assert(root >> 1u64 == root / 2) by {
                crate::bits::lemma_bit_facts();
            }
            root = root >> 1u64;
            proof {
                assert(root == (2 * s) * bit) by (nonlinear_arith)
                    requires
                        root == (s * (4 * old_bit)) / 2,
                        bit == old_bit,
                ;
                assert(rem == n - (2 * s) * (2 * s) * bit) by (nonlinear_arith)
                    requires
                        rem == n - s * s * (4 * bit),
                ;
                assert(n < (2 * s + 1) * (2 * s + 1) * bit) by (nonlinear_arith)
                    requires
                        rem < old_root + bit,
                        old_root == s * (4 * bit),
                        rem == n - s * s * (4 * bit),
                ;
                s = 2 * s;
            }
        }
        assert(bit >> 2u64 == bit / 4) by {
            crate::bits::lemma_bit_facts();
        }
        bit = bit >> 2u64;
        proof {
            scale = if bit == 0 { 1 } else { 4 * bit };
            assert(scale == old_bit);
        }
    }
    assert(s * s <= n);
    assert(s < 0x1_0000) by (nonlinear_arith)
        requires
            s * s <= n,
            n < 0x1_0000_0000,
            s >= 0,
    ;
    root as u32
}

// ---------------------------------------------------------------------------
// ArcTan / ArcTan2 (SWI 0x09 / 0x0A)
// ---------------------------------------------------------------------------

/// One Horner step of the BIOS ArcTan polynomial: (b·a) >> 14, plus `c`.
pub open spec fn atan_step(b: int, a: int, c: int) -> int {
    (b * a) / 16384 + c
}

/// The BIOS's fixed-point ArcTan polynomial of a 1.14 tangent `t` with
/// |t| ≤ 1.0: the angle in units of 1/65536 turn.
pub open spec fn atan_poly(t: int) -> int {
    let a = -((t * t) / 16384);
    let b0 = atan_step(0xA9, a, 0x390);
    let b1 = atan_step(b0, a, 0x91C);
    let b2 = atan_step(b1, a, 0xFB6);
    let b3 = atan_step(b2, a, 0x16AA);
    let b4 = atan_step(b3, a, 0x2081);
    let b5 = atan_step(b4, a, 0x3651);
    let b6 = atan_step(b5, a, 0xA2F9);
    (t * b6) / 65536
}

/// ArcTan of a 1.14 tangent: the polynomial for |t| ≤ 1.0, and
/// ±90° − atan(1/t) beyond.
pub open spec fn arctan_value(t: int) -> int {
    if -0x4000 <= t <= 0x4000 {
        atan_poly(t)
    } else if t > 0 {
        0x4000 - atan_poly(trunc_div(0x1000_0000, t))
    } else {
        -0x4000 - atan_poly(trunc_div(0x1000_0000, t))
    }
}

/// ArcTan2 of the 1.14 point (x, y), before reduction to 16 bits: the
/// polynomial on the octant's tangent, placed in the right quadrant.
pub open spec fn arctan2_value(x: int, y: int) -> int {
    if x == 0 && y == 0 {
        0
    } else if abs(y) <= abs(x) {
        let base = atan_poly(trunc_div(y * 16384, x));
        if x > 0 {
            base
        } else {
            base + 0x8000
        }
    } else {
        let base = atan_poly(trunc_div(x * 16384, y));
        if y > 0 {
            0x4000 - base
        } else {
            0xC000 - base
        }
    }
}

/// ArcTan's result register: r0 (a signed 1.14 tangent) → the angle,
/// sign-extended.
pub open spec fn arctan_result(r0: u32) -> u32 {
    arctan_value((r0 as i16) as int) as u32
}

/// ArcTan2's result register: r0 = x, r1 = y (signed 1.14) → the angle
/// 0..0xFFFF over the full circle.
pub open spec fn arctan2_result(r0: u32, r1: u32) -> u32 {
    (arctan2_value((r0 as i16) as int, (r1 as i16) as int) as u32) & 0xFFFF
}

proof fn lemma_asr(x: i64)
    requires
        -0x100_0000_0000 <= x <= 0x100_0000_0000,
    ensures
        (x >> 14u32) as int == (x as int) / 16384,
        (x >> 16u32) as int == (x as int) / 65536,
{
    assert((x >> 14u32) as int == (x as int) / 16384) by (bit_vector)
        requires
            -0x100_0000_0000 <= x <= 0x100_0000_0000,
    ;
    assert((x >> 16u32) as int == (x as int) / 65536) by (bit_vector)
        requires
            -0x100_0000_0000 <= x <= 0x100_0000_0000,
    ;
}

fn atan_step_exec(b: i64, a: i64, c: i64) -> (r: i64)
    requires
        -0x80_0000 <= b <= 0x80_0000,
        -65536 <= a <= 0,
        0 <= c <= 0xA2F9,
    ensures
        r == atan_step(b as int, a as int, c as int),
        abs(r as int) <= 4 * abs(b as int) + c + 1,
{
    assert(-0x80_0000_0000 <= b * a <= 0x80_0000_0000) by (nonlinear_arith)
        requires
            -0x80_0000 <= b <= 0x80_0000,
            -65536 <= a <= 0,
    ;
    let x = b * a;
    proof {
        lemma_asr(x);
        let q = (x as int) / 16384;
        vstd::arithmetic::div_mod::lemma_fundamental_div_mod(x as int, 16384);
        assert(abs(x as int) <= abs(b as int) * 65536) by (nonlinear_arith)
            requires
                x == b * a,
                -65536 <= a <= 0,
        ;
        assert(abs(q) <= 4 * abs(b as int) + 1) by (nonlinear_arith)
            requires
                x == 16384 * q + (x as int) % 16384,
                0 <= (x as int) % 16384 < 16384,
                abs(x as int) <= abs(b as int) * 65536,
        ;
    }
    (x >> 14u32) + c
}

fn atan_poly_exec(t: i64) -> (r: i64)
    requires
        -0x8000 <= t <= 0x8000,
    ensures
        r == atan_poly(t as int),
        abs(r as int) <= 0x100_0000,
{
    assert(0 <= t * t <= 0x4000_0000) by (nonlinear_arith)
        requires
            -0x8000 <= t <= 0x8000,
    ;
    let sq = t * t;
    proof {
        lemma_asr(sq);
    }
    let a = -(sq >> 14u32);
    let b0 = atan_step_exec(0xA9, a, 0x390);
    let b1 = atan_step_exec(b0, a, 0x91C);
    let b2 = atan_step_exec(b1, a, 0xFB6);
    let b3 = atan_step_exec(b2, a, 0x16AA);
    let b4 = atan_step_exec(b3, a, 0x2081);
    let b5 = atan_step_exec(b4, a, 0x3651);
    let b6 = atan_step_exec(b5, a, 0xA2F9);
    assert(-0x100_0000_0000 <= t * b6 <= 0x100_0000_0000) by (nonlinear_arith)
        requires
            -0x8000 <= t <= 0x8000,
            abs(b6 as int) <= 0x100_0000,
    ;
    let p = t * b6;
    proof {
        lemma_asr(p);
        vstd::arithmetic::div_mod::lemma_fundamental_div_mod(p as int, 65536);
        assert(abs(p as int) <= 0x8000 * 0x100_0000) by (nonlinear_arith)
            requires
                p == t * b6,
                -0x8000 <= t <= 0x8000,
                abs(b6 as int) <= 0x100_0000,
        ;
        let q = (p as int) / 65536;
        assert(abs(q) <= 0x100_0000) by (nonlinear_arith)
            requires
                p == 65536 * q + (p as int) % 65536,
                0 <= (p as int) % 65536 < 65536,
                abs(p as int) <= 0x8000 * 0x100_0000,
        ;
    }
    p >> 16u32
}

/// Signed division rounding toward zero, on values that cannot overflow.
fn trunc_div_exec(n: i64, d: i64) -> (r: i64)
    requires
        d != 0,
        -0x100_0000_0000 <= n <= 0x100_0000_0000,
        -0x100_0000_0000 <= d <= 0x100_0000_0000,
    ensures
        r == trunc_div(n as int, d as int),
{
    let na: u64 = if n < 0 {
        (-n) as u64
    } else {
        n as u64
    };
    let da: u64 = if d < 0 {
        (-d) as u64
    } else {
        d as u64
    };
    let q = na / da;
    assert(q <= na) by (nonlinear_arith)
        requires
            da >= 1,
            q == na / da,
    ;
    if (n < 0) != (d < 0) {
        -(q as i64)
    } else {
        q as i64
    }
}

fn arctan_exec(t: i64) -> (r: i64)
    requires
        -0x8000 <= t <= 0x7FFF,
    ensures
        r == arctan_value(t as int),
{
    if -0x4000 <= t && t <= 0x4000 {
        atan_poly_exec(t)
    } else {
        let u = trunc_div_exec(0x1000_0000, t);
        assert(-0x4000 <= u <= 0x4000) by (nonlinear_arith)
            requires
                u == trunc_div(0x1000_0000, t as int),
                t > 0x4000 || t < -0x4000,
        {
            let q = 0x1000_0000int / abs(t as int);
            assert(q <= 0x4000) by (nonlinear_arith)
                requires
                    q == 0x1000_0000int / abs(t as int),
                    abs(t as int) > 0x4000,
            ;
        }
        if t > 0 {
            0x4000 - atan_poly_exec(u)
        } else {
            -0x4000 - atan_poly_exec(u)
        }
    }
}

fn arctan2_exec(x: i64, y: i64) -> (r: i64)
    requires
        -0x8000 <= x <= 0x7FFF,
        -0x8000 <= y <= 0x7FFF,
    ensures
        r == arctan2_value(x as int, y as int),
{
    if x == 0 && y == 0 {
        return 0;
    }
    let ax = if x < 0 {
        -x
    } else {
        x
    };
    let ay = if y < 0 {
        -y
    } else {
        y
    };
    if ay <= ax {
        let u = trunc_div_exec(y * 16384, x);
        assert(-0x4000 <= u <= 0x4000) by (nonlinear_arith)
            requires
                u == trunc_div(y * 16384, x as int),
                abs(y as int) <= abs(x as int),
                x != 0,
        {
            let q = abs(y * 16384) / abs(x as int);
            assert(abs(y * 16384) == abs(y as int) * 16384);
            assert(q <= 16384) by (nonlinear_arith)
                requires
                    q == abs(y * 16384) / abs(x as int),
                    abs(y * 16384) <= abs(x as int) * 16384,
                    abs(x as int) > 0,
            ;
        }
        let base = atan_poly_exec(u);
        if x > 0 {
            base
        } else {
            base + 0x8000
        }
    } else {
        let u = trunc_div_exec(x * 16384, y);
        assert(-0x4000 <= u <= 0x4000) by (nonlinear_arith)
            requires
                u == trunc_div(x * 16384, y as int),
                abs(x as int) < abs(y as int),
                y != 0,
        {
            let q = abs(x * 16384) / abs(y as int);
            assert(abs(x * 16384) == abs(x as int) * 16384);
            assert(q <= 16384) by (nonlinear_arith)
                requires
                    q == abs(x * 16384) / abs(y as int),
                    abs(x * 16384) <= abs(y as int) * 16384,
                    abs(y as int) > 0,
            ;
        }
        let base = atan_poly_exec(u);
        if y > 0 {
            0x4000 - base
        } else {
            0xC000 - base
        }
    }
}

/// ArcTan: r0 = tan value in 1.14 signed fixed point → angle (0x10000 = 360°).
fn arctan(cpu: &mut Cpu)
    ensures
        final(cpu)@ == spec_set_reg(old(cpu)@, 0, arctan_result(old(cpu)@.regs[0])),
{
    let t = (cpu.reg(0) as i16) as i64;
    let angle = arctan_exec(t);
    cpu.set_reg(0, angle as u32);
}

/// ArcTan2: r0 = x, r1 = y (1.14 signed) → angle 0..0xFFFF over the full circle.
fn arctan2(cpu: &mut Cpu)
    ensures
        final(cpu)@ == spec_set_reg(
            old(cpu)@,
            0,
            arctan2_result(old(cpu)@.regs[0], old(cpu)@.regs[1]),
        ),
{
    let x = (cpu.reg(0) as i16) as i64;
    let y = (cpu.reg(1) as i16) as i64;
    let angle = arctan2_exec(x, y);
    cpu.set_reg(0, (angle as u32) & 0xFFFF);
}

// ---------------------------------------------------------------------------
// Memory services
// ---------------------------------------------------------------------------

/// `dst + off`, wrapping around the 32-bit address space.
pub open spec fn addr_plus(dst: u32, off: int) -> u32 {
    ((dst + off) % 0x1_0000_0000) as u32
}

/// The bus after `data` is written a byte at a time from `dst` upward.
pub open spec fn wrote_bytes<B: Bus>(b0: B, dst: u32, data: Seq<u8>, b1: B) -> bool
    decreases data.len(),
{
    if data.len() == 0 {
        b1 == b0
    } else {
        let n = data.len() - 1;
        exists|mid: B|
            wrote_bytes(b0, dst, data.subrange(0, n), mid) && #[trigger] mid.write_did(
                addr_plus(dst, n),
                Width::Byte,
                data[n] as u32,
                b1,
            )
    }
}

/// The little-endian halfword of bytes `j` and `j + 1` of `data`.
pub open spec fn half_at(data: Seq<u8>, j: int) -> u16 {
    (data[j] as u16) | ((data[j + 1] as u16) << 8u16)
}

/// The bus after the first `k` byte pairs of `data` are written as
/// halfwords from `dst` upward.
pub open spec fn wrote_halves<B: Bus>(b0: B, dst: u32, data: Seq<u8>, k: nat, b1: B) -> bool
    decreases k,
{
    if k == 0 {
        b1 == b0
    } else {
        let j = 2 * (k - 1);
        exists|mid: B|
            wrote_halves(b0, dst, data, (k - 1) as nat, mid) && #[trigger] half_written(
                mid,
                addr_plus(dst, j),
                half_at(data, j),
                b1,
            )
    }
}

/// BitUnpack between source units: the destination word being built, how
/// many of its bits are filled, the words completed so far, and whether it
/// stopped (a unit that would start past a word's end cannot be placed).
pub ghost struct UnpackState {
    pub out: u32,
    pub out_bits: u32,
    pub words: Seq<u32>,
    pub stopped: bool,
}

/// One source unit placed: 0 stays 0 unless the offset's zero flag is set,
/// any other unit gets the offset added; the result fills the next `db`
/// bits, and a word that is full is complete.
pub open spec fn unpack_unit(st: UnpackState, unit: u32, db: u32, offset: u32, zero_offset: bool) -> UnpackState {
    let value: u32 = if unit != 0 || zero_offset { (unit + offset) as u32 } else { 0 };
    let out = st.out | (value << st.out_bits);
    let bits = (st.out_bits + db) as u32;
    if bits == 32 {
        UnpackState { out: 0, out_bits: 0, words: st.words.push(out), ..st }
    } else {
        UnpackState { out, out_bits: bits, ..st }
    }
}

/// The units of source byte `byte` from bit `consumed` up, `sb` bits each,
/// placed in turn.
pub open spec fn unpack_byte(
    st: UnpackState,
    byte: u8,
    consumed: int,
    sb: u32,
    db: u32,
    offset: u32,
    zero_offset: bool,
) -> UnpackState
    decreases 40 - consumed,
{
    if consumed >= 8 || consumed < 0 || sb == 0 || sb >= 32 {
        st
    } else if st.out_bits >= 32 {
        UnpackState { stopped: true, ..st }
    } else {
        let unit = ((byte >> (consumed as u32)) as u32) & ((1u32 << sb) - 1) as u32;
        unpack_byte(
            unpack_unit(st, unit, db, offset, zero_offset),
            byte,
            consumed + sb,
            sb,
            db,
            offset,
            zero_offset,
        )
    }
}

/// BitUnpack after the source bytes `bytes`.
pub open spec fn unpack_state(bytes: Seq<u8>, sb: u32, db: u32, offset: u32, zero_offset: bool) -> UnpackState
    decreases bytes.len(),
{
    if bytes.len() == 0 {
        UnpackState { out: 0, out_bits: 0, words: Seq::empty(), stopped: false }
    } else {
        let st = unpack_state(bytes.drop_last(), sb, db, offset, zero_offset);
        if st.stopped {
            st
        } else {
            unpack_byte(st, bytes.last(), 0, sb, db, offset, zero_offset)
        }
    }
}

/// The bus after the words of `words` from index `from` on were written,
/// in order, from `dst + 4 * from` upward.
pub open spec fn wrote_words<B: Bus>(b0: B, dst: u32, words: Seq<u32>, from: int, b1: B) -> bool
    decreases words.len(),
{
    if words.len() == 0 || words.len() <= from {
        b1 == b0
    } else {
        let n = words.len() - 1;
        exists|mid: B|
            wrote_words(b0, dst, words.drop_last(), from, mid) && #[trigger] word_written(
                mid,
                addr_plus(dst, 4 * n),
                words[n],
                b1,
            )
    }
}

/// The bus after BitUnpack read the source bytes `bytes` from `src`
/// upward, each read followed by the writes of the words it completed.
pub open spec fn unpacked<B: Bus>(
    b0: B,
    src: u32,
    dst: u32,
    bytes: Seq<u8>,
    sb: u32,
    db: u32,
    offset: u32,
    zero_offset: bool,
    b1: B,
) -> bool
    decreases bytes.len(),
{
    if bytes.len() == 0 {
        b1 == b0
    } else {
        let prev = bytes.drop_last();
        exists|mid: B, mid2: B|
            #![trigger mid.read_did(addr_plus(src, prev.len() as int), Width::Byte, bytes.last() as u32, mid2)]
            unpacked(b0, src, dst, prev, sb, db, offset, zero_offset, mid) && mid.read_did(
                addr_plus(src, prev.len() as int),
                Width::Byte,
                bytes.last() as u32,
                mid2,
            ) && wrote_words(
                mid2,
                dst,
                unpack_state(bytes, sb, db, offset, zero_offset).words,
                unpack_state(prev, sb, db, offset, zero_offset).words.len() as int,
                b1,
            )
    }
}

/// `unpacked` with the offset and its zero flag taken from the offset word
/// `base`.
pub open spec fn unpack_run<B: Bus>(
    b0: B,
    src: u32,
    dst: u32,
    bytes: Seq<u8>,
    sb: u32,
    db: u32,
    base: u32,
    b1: B,
) -> bool {
    unpacked(b0, src, dst, bytes, sb, db, base & 0x7FFF_FFFF, base & 0x8000_0000 != 0, b1)
}

/// BitUnpack from `src` into `dst` with its parameter block at `info`: the
/// source length (a halfword), the source and destination unit widths (a
/// byte each) and the offset word are read in that order; a source width
/// that cannot be unpacked (0, or 32 and more) ends the service there;
/// otherwise every source byte is read in turn and each completed
/// destination word written, until all `len` bytes are read or a unit
/// could not be placed.
pub open spec fn unpack_done<B: Bus>(b0: B, src: u32, dst: u32, info: u32, b1: B) -> bool {
    exists|s1: B, s2: B, s3: B, s4: B, len: u32, sb: u32, db: u32, base: u32, bytes: Seq<u8>|
        #![trigger half_read(b0, info, len, s1), s1.read_did(addr_plus(info, 2), Width::Byte, sb, s2), s2.read_did(addr_plus(info, 3), Width::Byte, db, s3), word_read(s3, addr_plus(info, 4), base, s4), unpack_run(s4, src, dst, bytes, sb, db, base, b1)]
        half_read(b0, info, len, s1) && s1.read_did(addr_plus(info, 2), Width::Byte, sb, s2)
            && s2.read_did(addr_plus(info, 3), Width::Byte, db, s3) && word_read(
            s3,
            addr_plus(info, 4),
            base,
            s4,
        ) && if sb == 0 || sb >= 32 {
            b1 == s4
        } else {
            &&& unpack_run(s4, src, dst, bytes, sb, db, base, b1)
            &&& bytes.len() <= len
            &&& (bytes.len() == len || unpack_state(
                bytes,
                sb,
                db,
                base & 0x7FFF_FFFF,
                base & 0x8000_0000 != 0,
            ).stopped)
        }
}

/// The bus after `data` is written out from `dst` as `write_out` does:
/// halfwords for VRAM, bytes otherwise.
pub open spec fn wrote_out<B: Bus>(b0: B, dst: u32, data: Seq<u8>, vram: bool, b1: B) -> bool {
    if vram {
        wrote_halves(b0, dst, data, (data.len() / 2) as nat, b1)
    } else {
        wrote_bytes(b0, dst, data, b1)
    }
}

/// The bus after the bytes `data` were read one at a time from `addr`
/// upward.
pub open spec fn read_bytes<B: Bus>(b0: B, addr: u32, data: Seq<u8>, b1: B) -> bool
    decreases data.len(),
{
    if data.len() == 0 {
        b1 == b0
    } else {
        let n = data.len() - 1;
        exists|mid: B|
            read_bytes(b0, addr, data.subrange(0, n), mid) && #[trigger] mid.read_did(
                addr_plus(addr, n),
                Width::Byte,
                data[n] as u32,
                b1,
            )
    }
}

/// The number of stream bytes the RL run at the start of `input` takes: a
/// flag byte, then one byte for a repeat or the literal block.
pub open spec fn rl_run_len(input: Seq<u8>) -> int {
    let flag = input[0];
    if flag & 0x80 != 0 {
        2
    } else {
        (flag & 0x7F) + 2
    }
}

/// What the RL run at the start of `input` expands to: its byte repeated
/// (flag & 0x7F) + 3 times, or its (flag & 0x7F) + 1 literal bytes.
pub open spec fn rl_run_out(input: Seq<u8>) -> Seq<u8> {
    let flag = input[0];
    if flag & 0x80 != 0 {
        Seq::new(((flag & 0x7F) + 3) as nat, |i: int| input[1])
    } else {
        input.subrange(1, rl_run_len(input))
    }
}

/// RL decoding: `acc` followed by the expansion of each run of `input` in
/// turn (a trailing partial run adds nothing).
pub open spec fn rl_decode(input: Seq<u8>, acc: Seq<u8>) -> Seq<u8>
    decreases input.len(),
{
    if input.len() == 0 || input.len() < rl_run_len(input) {
        acc
    } else {
        rl_decode(input.subrange(rl_run_len(input), input.len() as int), acc + rl_run_out(input))
    }
}

/// Whether `input` is a whole number of RL runs.
pub open spec fn rl_whole(input: Seq<u8>) -> bool
    decreases input.len(),
{
    input.len() == 0 || (rl_run_len(input) <= input.len() && rl_whole(
        input.subrange(rl_run_len(input), input.len() as int),
    ))
}

/// An RL decompression from `src` into `dst`: after the header word, whole
/// runs are read byte by byte from `src + 4` until they expand to at least
/// the header's size, and the first `size` bytes of their expansion are
/// written out.
pub open spec fn rl_decoded_to<B: Bus>(b0: B, src: u32, dst: u32, vram: bool, b1: B) -> bool {
    exists|bh: B, header: u32, input: Seq<u8>, mid: B|
        #![trigger word_read(b0, src, header, bh), read_bytes(bh, addr_plus(src, 4), input, mid)]
        word_read(b0, src, header, bh) && read_bytes(bh, addr_plus(src, 4), input, mid) && rl_whole(
            input,
        ) && rl_decode(input, Seq::empty()).len() >= header >> 8u32 && wrote_out(
            mid,
            dst,
            rl_decode(input, Seq::empty()).subrange(0, (header >> 8u32) as int),
            vram,
            b1,
        )
}

/// The bus after the halfwords `data` were read one at a time from `addr`
/// upward.
pub open spec fn read_halves<B: Bus>(b0: B, addr: u32, data: Seq<u16>, b1: B) -> bool
    decreases data.len(),
{
    if data.len() == 0 {
        b1 == b0
    } else {
        let n = data.len() - 1;
        exists|mid: B|
            read_halves(b0, addr, data.subrange(0, n), mid) && #[trigger] half_read(
                mid,
                addr_plus(addr, 2 * n),
                data[n] as u32,
                b1,
            )
    }
}

/// The sum of `input`, wrapping at 8 bits.
pub open spec fn sum8(input: Seq<u8>) -> u8
    decreases input.len(),
{
    if input.len() == 0 {
        0
    } else {
        ((sum8(input.drop_last()) + input.last()) % 0x100) as u8
    }
}

/// The sum of `input`, wrapping at 16 bits.
pub open spec fn sum16(input: Seq<u16>) -> u16
    decreases input.len(),
{
    if input.len() == 0 {
        0
    } else {
        ((sum16(input.drop_last()) + input.last()) % 0x1_0000) as u16
    }
}

/// 8-bit diff unfiltering: each output byte is the running sum of the
/// differences up to it.
pub open spec fn diff8_decode(input: Seq<u8>) -> Seq<u8> {
    Seq::new(input.len(), |i: int| sum8(input.subrange(0, i + 1)))
}

/// 16-bit diff unfiltering: each running sum of the differences, as two
/// bytes, low first.
pub open spec fn diff16_decode(input: Seq<u16>) -> Seq<u8> {
    Seq::new(
        2 * input.len(),
        |i: int|
            {
                let sum = sum16(input.subrange(0, i / 2 + 1));
                if i % 2 == 0 {
                    (sum % 0x100) as u8
                } else {
                    (sum / 0x100) as u8
                }
            },
    )
}

/// An 8-bit diff unfiltering from `src` into `dst`: after the header word,
/// one difference byte per output byte is read from `src + 4` upward, and
/// the running sums are written out.
pub open spec fn diff8_decoded_to<B: Bus>(b0: B, src: u32, dst: u32, vram: bool, b1: B) -> bool {
    exists|bh: B, header: u32, input: Seq<u8>, mid: B|
        #![trigger word_read(b0, src, header, bh), read_bytes(bh, addr_plus(src, 4), input, mid)]
        word_read(b0, src, header, bh) && read_bytes(bh, addr_plus(src, 4), input, mid)
            && input.len() == header >> 8u32 && wrote_out(mid, dst, diff8_decode(input), vram, b1)
}

/// A 16-bit diff unfiltering from `src` into `dst`: after the header word,
/// one difference halfword per two output bytes is read from `src + 4`
/// upward, and the first `size` bytes of the running sums are written out.
pub open spec fn diff16_decoded_to<B: Bus>(b0: B, src: u32, dst: u32, vram: bool, b1: B) -> bool {
    exists|bh: B, header: u32, input: Seq<u16>, mid: B|
        #![trigger word_read(b0, src, header, bh), read_halves(bh, addr_plus(src, 4), input, mid)]
        word_read(b0, src, header, bh) && read_halves(bh, addr_plus(src, 4), input, mid)
            && input.len() == ((header >> 8u32) + 1) / 2 && wrote_out(
            mid,
            dst,
            diff16_decode(input).subrange(0, (header >> 8u32) as int),
            vram,
            b1,
        )
}

proof fn lemma_rl_append(a: Seq<u8>, r: Seq<u8>, acc: Seq<u8>)
    requires
        rl_whole(a),
    ensures
        rl_decode(a + r, acc) == rl_decode(r, rl_decode(a, acc)),
        rl_whole(r) ==> rl_whole(a + r),
    decreases a.len(),
{
    if a.len() == 0 {
        assert(a + r =~= r);
    } else {
        let k = rl_run_len(a);
        let ar = a + r;
        assert(ar[0] == a[0]);
        assert(ar[1] == a[1]);
        assert(rl_run_len(ar) == k);
        assert(rl_run_out(ar) =~= rl_run_out(a));
        assert(ar.subrange(k, ar.len() as int) =~= a.subrange(k, a.len() as int) + r);
        lemma_rl_append(a.subrange(k, a.len() as int), r, acc + rl_run_out(a));
    }
}

/// Reads the next byte of a stream read from `start` upward, of which
/// `seen` was read so far; returns it and the address after it.
fn next_byte<B: Bus>(
    bus: &mut B,
    start: u32,
    p: u32,
    Ghost(b0): Ghost<B>,
    Ghost(seen): Ghost<Seq<u8>>,
) -> (r: (u8, u32))
    requires
        old(bus).bus_inv(),
        read_bytes(b0, start, seen, *old(bus)),
        p == addr_plus(start, seen.len() as int),
    ensures
        final(bus).bus_inv(),
        read_bytes(b0, start, seen.push(r.0), *final(bus)),
        r.1 == addr_plus(start, seen.len() + 1int),
{
    let ghost before = *bus;
    let v = bus.read8(p);
    proof {
        lemma_addr_step(start, seen.len() as int, 1);
        let d = seen.push(v);
        assert(d.subrange(0, d.len() - 1) =~= seen);
        assert(read_bytes(b0, start, d.subrange(0, d.len() - 1), before) && before.read_did(
            addr_plus(start, d.len() - 1),
            Width::Byte,
            d[d.len() - 1] as u32,
            *bus,
        ));
    }
    (v, p.wrapping_add(1))
}

proof fn lemma_wrote_bytes_step<B: Bus>(b0: B, dst: u32, d: Seq<u8>, mid: B, b1: B)
    requires
        d.len() > 0,
        wrote_bytes(b0, dst, d.subrange(0, d.len() - 1), mid),
        mid.write_did(addr_plus(dst, d.len() - 1), Width::Byte, d[d.len() - 1] as u32, b1),
    ensures
        wrote_bytes(b0, dst, d, b1),
{
}

proof fn lemma_wrote_halves_step<B: Bus>(b0: B, dst: u32, data: Seq<u8>, k: nat, mid: B, b1: B)
    requires
        wrote_halves(b0, dst, data, k, mid),
        half_written(mid, addr_plus(dst, 2 * k as int), half_at(data, 2 * k as int), b1),
    ensures
        wrote_halves(b0, dst, data, k + 1, b1),
{
    let k1 = k + 1;
    assert(((k1 - 1) as nat) == k);
    assert(wrote_halves(b0, dst, data, (k1 - 1) as nat, mid));
}

/// Write a decompressed byte buffer to `dst`, as bytes (WRAM) or halfwords
/// (VRAM, which cannot take 8-bit writes; a trailing odd byte is dropped).
fn write_out<B: Bus>(bus: &mut B, dst: u32, data: &[u8], vram: bool)
    requires
        old(bus).bus_inv(),
        data@.len() < 0x1_0000_0000,
    ensures
        final(bus).bus_inv(),
        wrote_out(*old(bus), dst, data@, vram, *final(bus)),
{
    let ghost b0 = *bus;
    if vram {
        let mut i: usize = 0;
        while i < data.len() && data.len() - i >= 2
            invariant
                bus.bus_inv(),
                data@.len() < 0x1_0000_0000,
                i <= data@.len(),
                i % 2 == 0,
                wrote_halves(b0, dst, data@, (i / 2) as nat, *bus),
            decreases data.len() - i,
        {
            let hw = (data[i] as u16) | ((data[i + 1] as u16) << 8u16);
            let ghost before = *bus;
            let a = dst.wrapping_add(i as u32);
            bus.write16(a, hw);
            proof {
                assert(a == addr_plus(dst, i as int));
                assert(hw == half_at(data@, i as int));
                lemma_wrote_halves_step(b0, dst, data@, (i / 2) as nat, before, *bus);
                assert((i / 2) as nat + 1 == ((i + 2) / 2) as nat);
            }
            i = i + 2;
        }
    } else {
        let mut i: usize = 0;
        while i < data.len()
            invariant
                bus.bus_inv(),
                data@.len() < 0x1_0000_0000,
                i <= data@.len(),
                wrote_bytes(b0, dst, data@.subrange(0, i as int), *bus),
            decreases data.len() - i,
        {
            let ghost before = *bus;
            let a = dst.wrapping_add(i as u32);
            bus.write8(a, data[i]);
            proof {
                let d = data@.subrange(0, i + 1);
                assert(d.subrange(0, i as int) =~= data@.subrange(0, i as int));
                assert(a == addr_plus(dst, i as int));
                lemma_wrote_bytes_step(b0, dst, d, before, *bus);
            }
            i = i + 1;
        }
        proof {
            assert(data@.subrange(0, data@.len() as int) =~= data@);
        }
    }
}

/// The number of bytes an LZ77 back-reference of `len` bytes, `back` bytes
/// behind, appends to an output of `have` bytes that must not exceed
/// `size`: none if it reaches before the start, else as many as fit.
pub open spec fn lz77_copied(have: int, back: int, len: int, size: int) -> int {
    if back > have || have >= size {
        0
    } else if have + len <= size {
        len
    } else {
        size - have
    }
}

/// `out` with `n` bytes appended, each a copy of the byte `back` positions
/// before it.
pub open spec fn lz_copy(out: Seq<u8>, back: int, n: nat) -> Seq<u8>
    decreases n,
{
    if n == 0 {
        out
    } else {
        let p = lz_copy(out, back, (n - 1) as nat);
        p.push(p[p.len() - back])
    }
}

/// An LZ77 decoder between stream bytes: the output so far, the flag byte
/// of the current group, the block of the group that comes next (8 once
/// the group is over) and, inside a back-reference, its first byte.
pub ghost struct LzState {
    pub out: Seq<u8>,
    pub flags: u8,
    pub block: int,
    pub pending: Option<u8>,
}

/// After a block: the group goes on with the next block, unless it was the
/// eighth or the output has reached `size`.
pub open spec fn lz_next_block(block: int, out: Seq<u8>, size: int) -> int {
    if out.len() >= size {
        8
    } else {
        block + 1
    }
}

/// The LZ77 decoder taking one more stream byte: a flag byte starts a
/// group; in a group a clear flag bit makes the byte a literal, a set one
/// makes it and the next byte a back-reference of (b1 >> 4) + 3 bytes at
/// distance ((b1 & 0xF) << 8 | b2) + 1, cut at `size` bytes of output and
/// empty when it reaches before the start.
pub open spec fn lz_feed(st: LzState, byte: u8, size: int) -> LzState {
    if st.block >= 8 {
        LzState { flags: byte, block: 0, pending: None, ..st }
    } else if st.pending is Some {
        let b1 = st.pending->0;
        let len = (b1 >> 4u8) + 3;
        let back = (b1 & 0xF) * 0x100 + byte + 1;
        let out = lz_copy(st.out, back, lz77_copied(st.out.len() as int, back, len, size) as nat);
        LzState { out, flags: st.flags, block: lz_next_block(st.block, out, size), pending: None }
    } else if st.flags & (0x80u8 >> st.block as u8) != 0 {
        LzState { pending: Some(byte), ..st }
    } else {
        let out = st.out.push(byte);
        LzState { out, block: lz_next_block(st.block, out, size), ..st }
    }
}

/// The LZ77 decoder after the stream bytes `input`, for `size` bytes of
/// output.
pub open spec fn lz_state(input: Seq<u8>, size: int) -> LzState
    decreases input.len(),
{
    if input.len() == 0 {
        LzState { out: Seq::empty(), flags: 0, block: 8, pending: None }
    } else {
        lz_feed(lz_state(input.drop_last(), size), input.last(), size)
    }
}

proof fn lemma_lz_push(input: Seq<u8>, b: u8, size: int)
    ensures
        lz_state(input.push(b), size) == lz_feed(lz_state(input, size), b, size),
{
    assert(input.push(b).drop_last() =~= input);
}

/// An LZ77 decompression from `src` into `dst`: after the header word, the
/// stream is read byte by byte from `src + 4`, whole groups at a time, and
/// the decoder's output (at most the header's size; less only for a stream
/// abandoned as stalled) is written out.
pub open spec fn lz_decoded_to<B: Bus>(b0: B, src: u32, dst: u32, vram: bool, b1: B) -> bool {
    exists|bh: B, header: u32, input: Seq<u8>, mid: B|
        #![trigger word_read(b0, src, header, bh), read_bytes(bh, addr_plus(src, 4), input, mid)]
        word_read(b0, src, header, bh) && read_bytes(bh, addr_plus(src, 4), input, mid) && ({
            let st = lz_state(input, (header >> 8u32) as int);
            &&& st.block >= 8
            &&& st.out.len() <= header >> 8u32
            &&& wrote_out(mid, dst, st.out, vram, b1)
        })
}

/// Copy an LZ77 back-reference: each appended byte repeats the byte `back`
/// positions before it (so a reference may overlap what it produces).
fn lz77_copy(out: &mut Vec<u8>, back: usize, len: usize, size: usize)
    requires
        1 <= back,
        old(out)@.len() <= size,
    ensures
        final(out)@.len() == old(out)@.len() + lz77_copied(
            old(out)@.len() as int,
            back as int,
            len as int,
            size as int,
        ),
        final(out)@.subrange(0, old(out)@.len() as int) == old(out)@,
        forall|i: int|
            old(out)@.len() <= i < final(out)@.len() ==> #[trigger] final(out)@[i]
                == final(out)@[i - back],
        final(out)@ == lz_copy(
            old(out)@,
            back as int,
            lz77_copied(old(out)@.len() as int, back as int, len as int, size as int) as nat,
        ),
{
    let ghost start = out@.len();
    let ghost o0 = out@;
    let mut k: usize = 0;
    while k < len && out.len() < size && back <= out.len()
        invariant
            1 <= back,
            out@.len() == start + k,
            out@.len() <= size,
            k <= len,
            start == o0.len(),
            out@.subrange(0, start as int) == o0,
            forall|i: int| start <= i < out@.len() ==> #[trigger] out@[i] == out@[i - back],
            k > 0 ==> back <= start,
            out@ == lz_copy(o0, back as int, k as nat),
        decreases len - k,
    {
        let v = out[out.len() - back];
        out.push(v);
        k = k + 1;
        proof {
            let k1 = k as nat;
            assert(((k1 - 1) as nat) == (k - 1) as nat);
        }
        proof {
            assert(out@.subrange(0, start as int) =~= o0) by {
                assert forall|i: int| 0 <= i < start implies out@[i] == o0[i] by {
                    assert(out@.subrange(0, start as int)[i] == out@[i]);
                }
            }
        }
    }
    proof {
        if k == 0 {
            assert(out@ =~= o0);
        }
    }
}

/// LZ77 decompression (SWI 0x11 WRAM / 0x12 VRAM). r0 = source, r1 = dest.
fn lz77<B: Bus>(cpu: &Cpu, bus: &mut B, vram: bool)
    requires
        old(bus).bus_inv(),
    ensures
        final(bus).bus_inv(),
        lz_decoded_to(*old(bus), cpu@.regs[0], cpu@.regs[1], vram, *final(bus)),
{
    let src = cpu.reg(0);
    let dst = cpu.reg(1);
    let ghost b0 = *bus;
    let header = bus.read32(src);
    let ghost bh = *bus;
    let size = (header >> 8u32) as usize;
    assert(header >> 8u32 < 0x100_0000) by {
        crate::bits::lemma_bit_facts();
    }
    let mut out: Vec<u8> = Vec::new();
    let start = src.wrapping_add(4);
    let mut p = start;
    let ghost mut input: Seq<u8> = Seq::empty();
    proof {
        lemma_addr_step(src, 0, 4);
    }
    // Flag groups in a row that added nothing (only references before the
    // start of the output); a stream that stalls this long is abandoned.
    let mut stalled: u64 = 0;
    while out.len() < size && stalled < 0x1_0000_0000
        invariant
            bus.bus_inv(),
            out@.len() <= size,
            size < 0x100_0000,
            size == header >> 8u32,
            start == addr_plus(src, 4),
            read_bytes(bh, start, input, *bus),
            p == addr_plus(start, input.len() as int),
            out@ == lz_state(input, size as int).out,
            lz_state(input, size as int).block >= 8,
        decreases size - out@.len(), 0x1_0000_0000 - stalled,
    {
        let before = out.len();
        let (flags, p1) = next_byte(bus, start, p, Ghost(bh), Ghost(input));
        p = p1;
        proof {
            lemma_lz_push(input, flags, size as int);
            input = input.push(flags);
        }
        let mut bit: u8 = 0;
        while bit < 8 && out.len() < size
            invariant
                bus.bus_inv(),
                before <= out@.len() <= size,
                size < 0x100_0000,
                bit <= 8,
                start == addr_plus(src, 4),
                read_bytes(bh, start, input, *bus),
                p == addr_plus(start, input.len() as int),
                out@ == lz_state(input, size as int).out,
                lz_state(input, size as int).flags == flags,
                lz_state(input, size as int).pending is None,
                lz_state(input, size as int).block == (if out@.len() >= size {
                    8
                } else {
                    bit as int
                }),
            decreases 8 - bit,
        {
            let ghost st = lz_state(input, size as int);
            if flags & (0x80u8 >> bit) != 0 {
                let (b1, p2) = next_byte(bus, start, p, Ghost(bh), Ghost(input));
                p = p2;
                proof {
                    lemma_lz_push(input, b1, size as int);
                    input = input.push(b1);
                }
                let (b2, p3) = next_byte(bus, start, p, Ghost(bh), Ghost(input));
                p = p3;
                proof {
                    lemma_lz_push(input, b2, size as int);
                    input = input.push(b2);
                }
                let len = (b1 >> 4u8) as usize + 3;
                let back = ((((b1 & 0xF) as u16) << 8u16) | (b2 as u16)) as usize + 1;
                assert(((((b1 & 0xF) as u16) << 8u16) | (b2 as u16)) == (b1 & 0xF) as u16 * 0x100
                    + b2 as u16) by (bit_vector);
                lz77_copy(&mut out, back, len, size);
            } else {
                let (v, p2) = next_byte(bus, start, p, Ghost(bh), Ghost(input));
                p = p2;
                proof {
                    lemma_lz_push(input, v, size as int);
                    input = input.push(v);
                }
                out.push(v);
            }
            bit = bit + 1;
        }
        if out.len() == before {
            stalled = stalled + 1;
        } else {
            stalled = 0;
        }
    }
    let ghost mid = *bus;
    write_out(bus, dst, out.as_slice(), vram);
    assert(word_read(b0, src, header, bh) && read_bytes(bh, addr_plus(src, 4), input, mid));
}

/// Append `n` copies of `byte`.
fn push_run(out: &mut Vec<u8>, byte: u8, n: usize)
    ensures
        final(out)@ == old(out)@ + Seq::new(n as nat, |i: int| byte),
{
    let ghost o0 = out@;
    let mut k: usize = 0;
    while k < n
        invariant
            k <= n,
            out@ == o0 + Seq::new(k as nat, |i: int| byte),
        decreases n - k,
    {
        out.push(byte);
        k = k + 1;
        proof {
            assert(out@ =~= o0 + Seq::new(k as nat, |i: int| byte));
        }
    }
}

/// Run-length decompression (SWI 0x14 WRAM / 0x15 VRAM). r0 = src, r1 = dest.
/// Reads the next halfword of a stream read from `start` upward, of which
/// `seen` was read so far; returns it and the address after it.
fn next_half<B: Bus>(
    bus: &mut B,
    start: u32,
    p: u32,
    Ghost(b0): Ghost<B>,
    Ghost(seen): Ghost<Seq<u16>>,
) -> (r: (u16, u32))
    requires
        old(bus).bus_inv(),
        read_halves(b0, start, seen, *old(bus)),
        p == addr_plus(start, 2int * seen.len()),
    ensures
        final(bus).bus_inv(),
        read_halves(b0, start, seen.push(r.0), *final(bus)),
        r.1 == addr_plus(start, 2 * seen.len() + 2int),
{
    let ghost before = *bus;
    let v = bus.read16(p);
    proof {
        lemma_addr_step(start, 2int * seen.len(), 2);
        let d = seen.push(v);
        assert(d.subrange(0, d.len() - 1) =~= seen);
        assert(read_halves(b0, start, d.subrange(0, d.len() - 1), before) && half_read(
            before,
            addr_plus(start, 2 * (d.len() - 1)),
            d[d.len() - 1] as u32,
            *bus,
        ));
    }
    (v, p.wrapping_add(2))
}

fn rl_uncomp<B: Bus>(cpu: &Cpu, bus: &mut B, vram: bool)
    requires
        old(bus).bus_inv(),
    ensures
        final(bus).bus_inv(),
        rl_decoded_to(*old(bus), cpu@.regs[0], cpu@.regs[1], vram, *final(bus)),
{
    let src = cpu.reg(0);
    let dst = cpu.reg(1);
    let ghost b0 = *bus;
    let header = bus.read32(src);
    let ghost bh = *bus;
    let size = (header >> 8u32) as usize;
    assert(header >> 8u32 < 0x100_0000) by {
        crate::bits::lemma_bit_facts();
    }
    let mut out: Vec<u8> = Vec::new();
    let start = src.wrapping_add(4);
    let mut p = start;
    // The whole runs read so far.
    let ghost mut input: Seq<u8> = Seq::empty();
    proof {
        lemma_addr_step(src, 0, 4);
        assert(input.len() == 0);
    }
    while out.len() < size
        invariant
            bus.bus_inv(),
            out@.len() < size + 0x100,
            size < 0x100_0000,
            start == addr_plus(src, 4),
            read_bytes(bh, start, input, *bus),
            p == addr_plus(start, input.len() as int),
            rl_whole(input),
            out@ == rl_decode(input, Seq::empty()),
        decreases size + 0x100 - out@.len(),
    {
        let ghost run0 = input;
        let (flag, p1) = next_byte(bus, start, p, Ghost(bh), Ghost(input));
        p = p1;
        proof {
            input = input.push(flag);
        }
        assert(flag & 0x7F <= 0x7F) by {
            crate::bits::lemma_bit_facts();
        }
        let ghost out0 = out@;
        if flag & 0x80 != 0 {
            // Compressed run: one byte repeated (flag & 0x7F) + 3 times.
            let len = (flag & 0x7F) as usize + 3;
            let (byte, p2) = next_byte(bus, start, p, Ghost(bh), Ghost(input));
            p = p2;
            proof {
                input = input.push(byte);
            }
            push_run(&mut out, byte, len);
        } else {
            // Literal run of (flag & 0x7F) + 1 bytes.
            let len = (flag & 0x7F) as usize + 1;
            let mut k: usize = 0;
            while k < len
                invariant
                    bus.bus_inv(),
                    k <= len,
                    len <= 0x80,
                    start == addr_plus(src, 4),
                    read_bytes(bh, start, input, *bus),
                    p == addr_plus(start, input.len() as int),
                    input.len() == run0.len() + 1 + k,
                    input.subrange(0, run0.len() as int) == run0,
                    input[run0.len() as int] == flag,
                    out@ == out0 + input.subrange(run0.len() + 1int, input.len() as int),
                decreases len - k,
            {
                let ghost i0 = input;
                let (v, p2) = next_byte(bus, start, p, Ghost(bh), Ghost(input));
                p = p2;
                out.push(v);
                proof {
                    input = input.push(v);
                    assert(input.subrange(0, run0.len() as int) =~= i0.subrange(0, run0.len() as int));
                    assert(input.subrange(run0.len() + 1int, input.len() as int) =~= i0.subrange(
                        run0.len() + 1int,
                        i0.len() as int,
                    ).push(v));
                }
                k = k + 1;
            }
        }
        proof {
            let run = input.subrange(run0.len() as int, input.len() as int);
            assert(input =~= run0 + run);
            assert(run[0] == flag);
            assert(rl_run_len(run) == run.len());
            if flag & 0x80 != 0 {
                assert(rl_run_out(run) =~= Seq::new(((flag & 0x7F) + 3) as nat, |i: int| run[1]));
            } else {
                assert(rl_run_out(run) =~= input.subrange(run0.len() + 1int, input.len() as int));
            }
            assert(run.subrange(rl_run_len(run), run.len() as int) =~= Seq::<u8>::empty());
            assert(rl_whole(run.subrange(rl_run_len(run), run.len() as int)));
            assert(rl_whole(run));
            assert(rl_decode(run, out0) == rl_decode(
                run.subrange(rl_run_len(run), run.len() as int),
                out0 + rl_run_out(run),
            ));
            lemma_rl_append(run0, run, Seq::empty());
        }
    }
    let ghost full = out@;
    out.truncate(size);
    assert(out@ =~= full.subrange(0, (header >> 8u32) as int));
    let ghost mid = *bus;
    write_out(bus, dst, out.as_slice(), vram);
    assert(word_read(b0, src, header, bh) && read_bytes(bh, addr_plus(src, 4), input, mid));
}

/// Diff (delta) unfiltering (SWI 0x16/0x17 8-bit, 0x18 16-bit). Each element
/// is the running sum of the encoded differences. r0 = source, r1 = dest.
fn diff_unfilter<B: Bus>(cpu: &Cpu, bus: &mut B, elem_bits: u32, vram: bool)
    requires
        old(bus).bus_inv(),
    ensures
        final(bus).bus_inv(),
        elem_bits == 8 ==> diff8_decoded_to(*old(bus), cpu@.regs[0], cpu@.regs[1], vram, *final(bus)),
        elem_bits != 8 ==> diff16_decoded_to(*old(bus), cpu@.regs[0], cpu@.regs[1], vram, *final(bus)),
{
    let src = cpu.reg(0);
    let dst = cpu.reg(1);
    let ghost b0 = *bus;
    let header = bus.read32(src);
    let ghost bh = *bus;
    let size = (header >> 8u32) as usize;
    assert(header >> 8u32 < 0x100_0000) by {
        crate::bits::lemma_bit_facts();
    }
    let mut out: Vec<u8> = Vec::new();
    let start = src.wrapping_add(4);
    let mut p = start;
    proof {
        lemma_addr_step(src, 0, 4);
    }
    let ghost mut bytes: Seq<u8> = Seq::empty();
    let ghost mut halves: Seq<u16> = Seq::empty();
    if elem_bits == 8 {
        let mut acc: u8 = 0;
        while out.len() < size
            invariant
                bus.bus_inv(),
                out@.len() <= size,
                size < 0x100_0000,
                read_bytes(bh, start, bytes, *bus),
                p == addr_plus(start, bytes.len() as int),
                out@ == diff8_decode(bytes),
                acc == sum8(bytes),
            decreases size - out@.len(),
        {
            let ghost i0 = bytes;
            let (d, p1) = next_byte(bus, start, p, Ghost(bh), Ghost(bytes));
            p = p1;
            acc = acc.wrapping_add(d);
            out.push(acc);
            proof {
                bytes = bytes.push(d);
                assert(bytes.drop_last() =~= i0);
                assert(bytes.subrange(0, bytes.len() as int) =~= bytes);
                assert forall|i: int| 0 <= i < i0.len() implies #[trigger] bytes.subrange(0, i + 1)
                    =~= i0.subrange(0, i + 1) by {}
                assert(out@ =~= diff8_decode(bytes));
            }
        }
    } else {
        let mut acc: u16 = 0;
        while out.len() < size
            invariant
                bus.bus_inv(),
                out@.len() <= size + 1,
                size < 0x100_0000,
                read_halves(bh, start, halves, *bus),
                p == addr_plus(start, 2int * halves.len()),
                out@ == diff16_decode(halves),
                out@.len() == 2 * halves.len(),
                acc == sum16(halves),
            decreases size + 1 - out@.len(),
        {
            let ghost i0 = halves;
            let (d, p1) = next_half(bus, start, p, Ghost(bh), Ghost(halves));
            p = p1;
            acc = acc.wrapping_add(d);
            out.push(acc as u8);
            out.push((acc >> 8u16) as u8);
            proof {
                halves = halves.push(d);
                assert(halves.drop_last() =~= i0);
                assert(halves.subrange(0, halves.len() as int) =~= halves);
                assert forall|i: int| 0 <= i < i0.len() implies #[trigger] halves.subrange(0, i + 1)
                    =~= i0.subrange(0, i + 1) by {}
                assert(acc as u8 == (acc % 0x100) as u8 && (acc >> 8u16) as u8 == (acc / 0x100)
                    as u8) by (bit_vector);
                assert(out@ =~= diff16_decode(halves));
            }
        }
        assert(out@.len() == 2 * halves.len());
    }
    let ghost full = out@;
    out.truncate(size);
    let ghost mid = *bus;
    write_out(bus, dst, out.as_slice(), vram);
    proof {
        if elem_bits == 8 {
            assert(full.len() == bytes.len());
            assert(out@ =~= diff8_decode(bytes));
            assert(word_read(b0, src, header, bh) && read_bytes(bh, addr_plus(src, 4), bytes, mid));
        } else {
            assert(out@ =~= diff16_decode(halves).subrange(0, (header >> 8u32) as int));
            assert(word_read(b0, src, header, bh) && read_halves(bh, addr_plus(src, 4), halves, mid));
        }
    }
}

/// A Huffman decoder between stream reads: the output so far, the symbol
/// bits not yet making a byte, the current tree node, the current stream
/// word and how many of its bits were used, where the next word is, and
/// what it reads next (0: a stream word, 1: the byte of the current node,
/// 2: a leaf's symbol byte; 3: it has stopped with enough output).
pub ghost struct HuffState {
    pub out: Seq<u8>,
    pub pending: u32,
    pub pending_bits: u32,
    pub node: u32,
    pub bits: u32,
    pub bit: int,
    pub stream: u32,
    pub phase: int,
}

/// Whole bytes leave the symbol bits, low byte first.
pub open spec fn huff_flush(out: Seq<u8>, pending: u32, pending_bits: u32) -> (Seq<u8>, u32, u32)
    decreases pending_bits,
{
    if pending_bits < 8 {
        (out, pending, pending_bits)
    } else {
        huff_flush(out.push(pending as u8), pending >> 8u32, (pending_bits - 8) as u32)
    }
}

/// The child of `node` that the top bit of `bits` selects: the node's
/// offset field locates its pair of children.
pub open spec fn huff_child(node: u32, bits: u32, node_val: u8) -> u32 {
    let next = addr_plus(node & !1u32, ((node_val & 0x3F) as u32) * 2 + 2);
    if bits & 0x8000_0000 != 0 {
        addr_plus(next, 1)
    } else {
        next
    }
}

/// Whether that child is a leaf: the node's flag for that side.
pub open spec fn huff_is_leaf(bits: u32, node_val: u8) -> bool {
    if bits & 0x8000_0000 != 0 {
        node_val & 0x40 != 0
    } else {
        node_val & 0x80 != 0
    }
}

/// One step down the tree from `node` by the top bit of `bits`: the child,
/// and whether it is a leaf.
fn huff_walk(node: u32, bits: u32, node_val: u8) -> (r: (u32, bool))
    ensures
        r.0 == huff_child(node, bits, node_val),
        r.1 == huff_is_leaf(bits, node_val),
{
    let go_right = bits & 0x8000_0000 != 0;
    let offset = (node_val & 0x3F) as u32;
    assert(node_val & 0x3F <= 0x3F) by {
        crate::bits::lemma_bit_facts();
    }
    let next = (node & !1u32).wrapping_add(offset * 2 + 2);
    proof {
        lemma_addr_step(node & !1u32, 0, (offset * 2 + 2) as u32);
        lemma_addr_step(next, 0, 1);
    }
    let is_leaf = if go_right {
        node_val & 0x40 != 0
    } else {
        node_val & 0x80 != 0
    };
    (if go_right {
        next.wrapping_add(1)
    } else {
        next
    }, is_leaf)
}

/// On to the next bit of the stream word, or to the next word after 32.
pub open spec fn huff_advance(st: HuffState) -> HuffState {
    if st.bit + 1 >= 32 {
        HuffState { bit: 32, phase: 0, ..st }
    } else {
        HuffState { bit: st.bit + 1, phase: 1, ..st }
    }
}

/// The Huffman decoder taking the value of its next read: a stream word;
/// a node byte, whose offset field and the word's top bit choose the child
/// (a leaf when the node's flag for that side is set); or a leaf's symbol,
/// whose `sym_bits` low bits join the pending bits, whole bytes going out,
/// after which the walk restarts at the root, until `size` bytes are out.
pub open spec fn huff_feed(st: HuffState, v: u32, root: u32, sym_bits: u32, size: int) -> HuffState {
    if st.phase == 0 {
        HuffState { bits: v, stream: addr_plus(st.stream, 4), bit: 0, phase: 1, ..st }
    } else if st.phase == 1 {
        let st1 = HuffState {
            bits: st.bits << 1u32,
            node: huff_child(st.node, st.bits, v as u8),
            ..st
        };
        if huff_is_leaf(st.bits, v as u8) {
            HuffState { phase: 2, ..st1 }
        } else {
            huff_advance(st1)
        }
    } else if st.phase == 2 {
        let sym = v & ((1u32 << sym_bits) - 1) as u32;
        let f = huff_flush(st.out, st.pending | (sym << st.pending_bits), (st.pending_bits + sym_bits) as u32);
        let st1 = HuffState { out: f.0, pending: f.1, pending_bits: f.2, node: root, ..st };
        if f.0.len() >= size {
            HuffState { phase: 3, ..st1 }
        } else {
            huff_advance(st1)
        }
    } else {
        st
    }
}

/// The Huffman decoder from `start` after the reads that returned `events`.
pub open spec fn huff_state(events: Seq<u32>, start: HuffState, root: u32, sym_bits: u32, size: int) -> HuffState
    decreases events.len(),
{
    if events.len() == 0 {
        start
    } else {
        huff_feed(huff_state(events.drop_last(), start, root, sym_bits, size), events.last(), root, sym_bits, size)
    }
}

/// The decoder's next read returning `v`: the stream word it is at, or the
/// byte of its node.
pub open spec fn huff_read_one<B: Bus>(b0: B, st: HuffState, v: u32, b1: B) -> bool {
    if st.phase == 0 {
        word_read(b0, st.stream, v, b1)
    } else {
        v < 0x100 && b0.read_did(st.node, Width::Byte, v, b1)
    }
}

/// The bus after the decoder's reads returned `events`, each at the place
/// its state at the time asked for.
pub open spec fn huff_reads<B: Bus>(
    b0: B,
    events: Seq<u32>,
    start: HuffState,
    root: u32,
    sym_bits: u32,
    size: int,
    b1: B,
) -> bool
    decreases events.len(),
{
    if events.len() == 0 {
        b1 == b0
    } else {
        exists|mid: B|
            huff_reads(b0, events.drop_last(), start, root, sym_bits, size, mid) && #[trigger] huff_read_one(
                mid,
                huff_state(events.drop_last(), start, root, sym_bits, size),
                events.last(),
                b1,
            )
    }
}

/// The Huffman decoder before its first read, for the stream at `src`
/// whose tree-size byte is `tsize`.
pub open spec fn huff_start(src: u32, tsize: u32) -> HuffState {
    HuffState {
        out: Seq::empty(),
        pending: 0,
        pending_bits: 0,
        node: addr_plus(src, 5),
        bits: 0,
        bit: 32,
        stream: addr_plus(addr_plus(src, 4), (tsize + 1) * 2),
        phase: 0,
    }
}

/// A Huffman decompression from `src` into `dst`: the header word, then
/// the tree-size byte, then the decoder's reads; it stops between stream
/// words (or with enough output), and its first `size` bytes of output (all
/// of it if fewer) are written out, as halfwords to VRAM.
pub open spec fn huff_decoded_to<B: Bus>(b0: B, src: u32, dst: u32, b1: B) -> bool {
    exists|bh: B, header: u32, bt: B, tsize: u32, events: Seq<u32>, mid: B|
        #![trigger word_read(b0, src, header, bh), bh.read_did(addr_plus(src, 4), Width::Byte, tsize, bt), huff_reads(bt, events, huff_start(src, tsize), addr_plus(src, 5), header & 0xF, (header >> 8u32) as int, mid)]
        word_read(b0, src, header, bh) && tsize < 0x100 && bh.read_did(
            addr_plus(src, 4),
            Width::Byte,
            tsize,
            bt,
        ) && huff_reads(
            bt,
            events,
            huff_start(src, tsize),
            addr_plus(src, 5),
            header & 0xF,
            (header >> 8u32) as int,
            mid,
        ) && ({
            let st = huff_state(
                events,
                huff_start(src, tsize),
                addr_plus(src, 5),
                header & 0xF,
                (header >> 8u32) as int,
            );
            let size = (header >> 8u32) as int;
            &&& st.phase == 0 || st.phase == 3
            &&& wrote_out(
                mid,
                dst,
                if st.out.len() > size { st.out.subrange(0, size) } else { st.out },
                dst >> 24u32 == 0x06,
                b1,
            )
        })
}

proof fn lemma_huff_push<B: Bus>(
    b0: B,
    events: Seq<u32>,
    v: u32,
    start: HuffState,
    root: u32,
    sym_bits: u32,
    size: int,
    mid: B,
    b1: B,
)
    requires
        huff_reads(b0, events, start, root, sym_bits, size, mid),
        huff_read_one(mid, huff_state(events, start, root, sym_bits, size), v, b1),
    ensures
        huff_reads(b0, events.push(v), start, root, sym_bits, size, b1),
        huff_state(events.push(v), start, root, sym_bits, size) == huff_feed(
            huff_state(events, start, root, sym_bits, size),
            v,
            root,
            sym_bits,
            size,
        ),
{
    let e2 = events.push(v);
    assert(e2.drop_last() =~= events);
    assert(e2.last() == v);
    assert(huff_reads(b0, e2.drop_last(), start, root, sym_bits, size, mid) && huff_read_one(
        mid,
        huff_state(e2.drop_last(), start, root, sym_bits, size),
        e2.last(),
        b1,
    ));
}

/// A Huffman leaf: reads its symbol byte at `node`, adds the symbol's
/// `sym_bits` low bits to the pending ones and lets whole bytes out.
fn huff_leaf<B: Bus>(
    bus: &mut B,
    node: u32,
    sym_bits: u32,
    pending: &mut u32,
    pending_bits: &mut u32,
    out: &mut Vec<u8>,
) -> (sym_byte: u8)
    requires
        old(bus).bus_inv(),
        sym_bits <= 15,
        *old(pending_bits) < 8,
    ensures
        final(bus).bus_inv(),
        old(bus).read_did(node, Width::Byte, sym_byte as u32, *final(bus)),
        (final(out)@, *final(pending), *final(pending_bits)) == huff_flush(
            old(out)@,
            *old(pending) | (((sym_byte as u32) & ((1u32 << sym_bits) - 1) as u32) << *old(
                pending_bits,
            )),
            (*old(pending_bits) + sym_bits) as u32,
        ),
        *final(pending_bits) < 8,
        old(out)@.len() <= final(out)@.len() <= old(out)@.len() + 2,
{
    assert((1u32 << sym_bits) >= 1) by (bit_vector)
        requires
            sym_bits <= 15,
    ;
    let sym_byte = bus.read8(node);
    let sym = (sym_byte as u32) & ((1u32 << sym_bits) - 1);
    *pending = *pending | (sym << *pending_bits);
    *pending_bits = *pending_bits + sym_bits;
    let ghost l0 = out@.len();
    let ghost pb0 = *pending_bits;
    let ghost target = huff_flush(out@, *pending, *pending_bits);
    while *pending_bits >= 8
        invariant
            *pending_bits <= pb0,
            pb0 < 23,
            out@.len() == l0 + (pb0 - *pending_bits) / 8,
            (pb0 - *pending_bits) % 8 == 0,
            huff_flush(out@, *pending, *pending_bits) == target,
        decreases *pending_bits,
    {
        out.push(*pending as u8);
        *pending = *pending >> 8u32;
        *pending_bits = *pending_bits - 8;
    }
    sym_byte
}

/// One stream word of a Huffman decode: its 32 bits walk the tree from
/// `node`, each leaf adding its symbol, until the word is used up or the
/// output has reached `size` bytes. Returns the reads made so far.
fn huff_word<B: Bus>(
    bus: &mut B,
    word: u32,
    stream: u32,
    node: &mut u32,
    pending: &mut u32,
    pending_bits: &mut u32,
    out: &mut Vec<u8>,
    tree_base: u32,
    sym_bits: u32,
    size: usize,
    Ghost(bt): Ghost<B>,
    Ghost(start): Ghost<HuffState>,
    Ghost(root): Ghost<u32>,
    Ghost(isize): Ghost<int>,
    Ghost(events0): Ghost<Seq<u32>>,
) -> (r: Ghost<Seq<u32>>)
    requires
        old(bus).bus_inv(),
        old(out)@.len() < size,
        size < 0x100_0000,
        *old(pending_bits) < 8,
        sym_bits <= 15,
        isize == size as int,
        tree_base == root,
        huff_reads(bt, events0, start, root, sym_bits, isize, *old(bus)),
        ({
            let st = huff_state(events0, start, root, sym_bits, isize);
            &&& st.out == old(out)@
            &&& st.pending == *old(pending)
            &&& st.pending_bits == *old(pending_bits)
            &&& st.node == *old(node)
            &&& st.stream == stream
            &&& st.bits == word
            &&& st.bit == 0
            &&& st.phase == 1
        }),
    ensures
        final(bus).bus_inv(),
        old(out)@.len() <= final(out)@.len() <= size + 1,
        *final(pending_bits) < 8,
        huff_reads(bt, r@, start, root, sym_bits, isize, *final(bus)),
        ({
            let st = huff_state(r@, start, root, sym_bits, isize);
            &&& st.out == final(out)@
            &&& st.pending == *final(pending)
            &&& st.pending_bits == *final(pending_bits)
            &&& st.node == *final(node)
            &&& st.stream == stream
            &&& (st.phase == 0 || (st.phase == 3 && final(out)@.len() >= size))
        }),
{
    let ghost before = out@.len();
    let ghost mut events = events0;
    let mut bits = word;
        let mut n: u32 = 0;
    while n < 32
        invariant_except_break
            out@.len() < size,
            huff_state(events, start, root, sym_bits, isize).phase == (if n < 32 {
                1int
            } else {
                0int
            }),
        invariant
            bus.bus_inv(),
            before <= out@.len() <= size + 1,
            before < size,
            size < 0x100_0000,
            *pending_bits < 8,
            sym_bits <= 15,
            isize == size as int,
            tree_base == root,
            n <= 32,
            huff_reads(bt, events, start, root, sym_bits, isize, *bus),
            ({
                let st = huff_state(events, start, root, sym_bits, isize);
                &&& st.out == out@
                &&& st.pending == *pending
                &&& st.pending_bits == *pending_bits
                &&& st.node == *node
                &&& st.stream == stream
                &&& st.bits == bits
                &&& st.bit == n
            }),
        ensures
            before <= out@.len() <= size + 1,
            *pending_bits < 8,
            huff_reads(bt, events, start, root, sym_bits, isize, *bus),
            ({
                let st = huff_state(events, start, root, sym_bits, isize);
                &&& st.out == out@
                &&& st.pending == *pending
                &&& st.pending_bits == *pending_bits
                &&& st.node == *node
                &&& st.stream == stream
                &&& (st.phase == 0 || (st.phase == 3 && out@.len() >= size))
            }),
        decreases 32 - n,
    {
        let ghost st0 = huff_state(events, start, root, sym_bits, isize);
        let ghost mid1 = *bus;
        let node_val = bus.read8(*node);
        proof {
            lemma_huff_push(bt, events, node_val as u32, start, root, sym_bits, isize, mid1, *bus);
            events = events.push(node_val as u32);
            assert((node_val as u32) as u8 == node_val);
        }
        let (child, is_leaf) = huff_walk(*node, bits, node_val);
        bits = bits << 1u32;
        *node = child;
        proof {
            let st1 = huff_state(events, start, root, sym_bits, isize);
            let walked = HuffState { bits, node: *node, ..st0 };
            assert(st1 == (if is_leaf {
                HuffState { phase: 2, ..walked }
            } else {
                huff_advance(walked)
            }));
        }
        if is_leaf {
            let ghost st1 = huff_state(events, start, root, sym_bits, isize);
            let ghost mid2 = *bus;
            let ghost o1 = out@;
            let sym_byte = huff_leaf(bus, *node, sym_bits, pending, pending_bits, out);
            proof {
                lemma_huff_push(bt, events, sym_byte as u32, start, root, sym_bits, isize, mid2, *bus);
                events = events.push(sym_byte as u32);
            }
            *node = tree_base;
        }
        if out.len() >= size {
            break;
        }
        n = n + 1;
    }
    Ghost(events)
}

/// Huffman decompression (SWI 0x13). r0 = source, r1 = dest. Supports the
/// 4- and 8-bit symbol sizes GBA graphics use.
#[verifier::spinoff_prover]
#[verifier::rlimit(100)]
fn huffman<B: Bus>(cpu: &Cpu, bus: &mut B)
    requires
        old(bus).bus_inv(),
    ensures
        final(bus).bus_inv(),
        // Output to VRAM goes as halfwords, elsewhere as bytes.
        huff_decoded_to(*old(bus), cpu@.regs[0], cpu@.regs[1], *final(bus)),
{
    let src = cpu.reg(0);
    let dst = cpu.reg(1);
    let ghost b0 = *bus;
    let header = bus.read32(src);
    let ghost bh = *bus;
    let sym_bits = header & 0xF;
    let size = (header >> 8u32) as usize;
    assert(header >> 8u32 < 0x100_0000 && header & 0xF <= 15) by {
        crate::bits::lemma_bit_facts();
    }
    let tree_base = src.wrapping_add(5);
    let tsize = bus.read8(src.wrapping_add(4));
    let ghost bt = *bus;
    let tree_size = ((tsize as u32) + 1) * 2;
    let mut stream = src.wrapping_add(4).wrapping_add(tree_size);
    let mut out: Vec<u8> = Vec::new();
    // Assembled symbols, low nibbles first.
    let mut pending: u32 = 0;
    let mut pending_bits: u32 = 0;
    // Address of the current tree node.
    let mut node = tree_base;
    let mut bits: u32 = 0;
    let ghost start = huff_start(src, tsize as u32);
    let ghost root = addr_plus(src, 5);
    let ghost isize = size as int;
    let ghost mut events: Seq<u32> = Seq::empty();
    proof {
        lemma_addr_step(src, 0, 5);
        lemma_addr_step(src, 0, 4);
        lemma_addr_step(addr_plus(src, 4), 0, tree_size);
    }
    // Stream words in a row that completed no byte; a stream that stalls
    // this long is abandoned.
    let mut stalled: u64 = 0;
    while out.len() < size && stalled < 0x1_0000_0000
        invariant
            bus.bus_inv(),
            out@.len() <= size + 1,
            size < 0x100_0000,
            pending_bits < 8,
            sym_bits <= 15,
            sym_bits == header & 0xF,
            isize == size as int,
            tree_base == root,
            root == addr_plus(src, 5),
            huff_reads(bt, events, start, root, sym_bits, isize, *bus),
            ({
                let st = huff_state(events, start, root, sym_bits, isize);
                &&& st.out == out@
                &&& st.pending == pending
                &&& st.pending_bits == pending_bits
                &&& st.node == node
                &&& st.stream == stream
                &&& (st.phase == 0 || (st.phase == 3 && out@.len() >= size))
            }),
        decreases size + 1 - out@.len(), 0x1_0000_0000 - stalled,
    {
        let before = out.len();
        let ghost mid = *bus;
        let ghost stw = huff_state(events, start, root, sym_bits, isize);
        bits = bus.read32(stream);
        proof {
            lemma_huff_push(bt, events, bits, start, root, sym_bits, isize, mid, *bus);
            events = events.push(bits);
            assert(huff_state(events, start, root, sym_bits, isize) == HuffState {
                bits,
                stream: addr_plus(stw.stream, 4),
                bit: 0,
                phase: 1,
                ..stw
            });
            lemma_addr_step(stw.stream, 0, 4);
        }
        stream = stream.wrapping_add(4);
        let ev = huff_word(
            bus,
            bits,
            stream,
            &mut node,
            &mut pending,
            &mut pending_bits,
            &mut out,
            tree_base,
            sym_bits,
            size,
            Ghost(bt),
            Ghost(start),
            Ghost(root),
            Ghost(isize),
            Ghost(events),
        );
        proof {
            events = ev@;
        }
        if out.len() == before {
            stalled = stalled + 1;
        } else {
            stalled = 0;
        }
    }
    let ghost full = out@;
    out.truncate(size);
    // Huffman output goes to WRAM as bytes, to VRAM as halfwords.
    let vram = dst >> 24u32 == 0x06;
    let ghost mid = *bus;
    write_out(bus, dst, out.as_slice(), vram);
    proof {
        if full.len() > size {
            assert(out@ =~= full.subrange(0, size as int));
        } else {
            assert(out@ =~= full);
        }
        assert(word_read(b0, src, header, bh));
        assert(bh.read_did(addr_plus(src, 4), Width::Byte, tsize as u32, bt));
        assert(huff_reads(bt, events, huff_start(src, tsize as u32), addr_plus(src, 5), header & 0xF, (header >> 8u32) as int, mid));
    }
}

/// BitUnpack (SWI 0x10): expand packed 1/2/4/8-bit units to wider units
/// with an optional base offset. r0 = source, r1 = dest, r2 = parameter
/// block.
fn bit_unpack<B: Bus>(cpu: &Cpu, bus: &mut B)
    requires
        old(bus).bus_inv(),
    ensures
        final(bus).bus_inv(),
        unpack_done(*old(bus), cpu@.regs[0], cpu@.regs[1], cpu@.regs[2], *final(bus)),
{
    let src = cpu.reg(0);
    let dst = cpu.reg(1);
    let info = cpu.reg(2);
    let ghost s0 = *bus;
    let src_len = bus.read16(info) as usize;
    let ghost s1 = *bus;
    let src_bits = bus.read8(info.wrapping_add(2)) as u32;
    let ghost s2 = *bus;
    let dst_bits = bus.read8(info.wrapping_add(3)) as u32;
    let ghost s3 = *bus;
    let base = bus.read32(info.wrapping_add(4));
    let ghost s4 = *bus;
    proof {
        lemma_addr_step(info, 0, 2);
        lemma_addr_step(info, 0, 3);
        lemma_addr_step(info, 0, 4);
    }
    let offset = base & 0x7FFF_FFFF;
    let zero_offset = base & 0x8000_0000 != 0;
    let ghost mut bytes: Seq<u8> = Seq::empty();
    if src_bits == 0 || src_bits >= 32 {
        // A unit width that cannot be unpacked.
        assert(half_read(s0, info, src_len as u32, s1) && s1.read_did(
            addr_plus(info, 2),
            Width::Byte,
            src_bits,
            s2,
        ) && s2.read_did(addr_plus(info, 3), Width::Byte, dst_bits, s3) && word_read(
            s3,
            addr_plus(info, 4),
            base,
            s4,
        ) && unpack_run(s4, src, dst, bytes, src_bits, dst_bits, base, *bus));
        return ;
    }
    let mut out: u32 = 0;
    let mut out_bits: u32 = 0;
    // Where the next completed word goes.
    let mut waddr = dst;
    let mut i: usize = 0;
    assert(base & 0x7FFF_FFFF <= 0x7FFF_FFFF) by {
        crate::bits::lemma_bit_facts();
    }
    proof {
        lemma_addr_step(dst, 0, 0);
    }
    while i < src_len
        invariant
            bus.bus_inv(),
            1 <= src_bits < 32,
            dst_bits <= 0xFF,
            offset <= 0x7FFF_FFFF,
            offset == base & 0x7FFF_FFFF,
            zero_offset == (base & 0x8000_0000 != 0),
            src_len <= 0xFFFF,
            i <= src_len,
            bytes.len() == i,
            src == cpu@.regs[0],
            dst == cpu@.regs[1],
            info == cpu@.regs[2],
            s0 == *old(bus),
            half_read(s0, info, src_len as u32, s1),
            s1.read_did(addr_plus(info, 2), Width::Byte, src_bits, s2),
            s2.read_did(addr_plus(info, 3), Width::Byte, dst_bits, s3),
            word_read(s3, addr_plus(info, 4), base, s4),
            unpacked(s4, src, dst, bytes, src_bits, dst_bits, offset, zero_offset, *bus),
            ({
                let st = unpack_state(bytes, src_bits, dst_bits, offset, zero_offset);
                &&& !st.stopped
                &&& st.out == out
                &&& st.out_bits == out_bits
                &&& waddr == addr_plus(dst, 4int * st.words.len())
            }),
        decreases src_len - i,
    {
        let ghost before = *bus;
        let ghost st0 = unpack_state(bytes, src_bits, dst_bits, offset, zero_offset);
        let byte = bus.read8(src.wrapping_add(i as u32));
        let ghost mid2 = *bus;
        proof {
            lemma_addr_step(src, 0, i as u32);
        }
        let ghost target = unpack_byte(st0, byte, 0, src_bits, dst_bits, offset, zero_offset);
        let ghost mut cur = st0;
        let mut consumed: u32 = 0;
        let mut stopped = false;
        while consumed < 8
            invariant_except_break
                !cur.stopped,
                !stopped,
            invariant
                bus.bus_inv(),
                1 <= src_bits < 32,
                dst_bits <= 0xFF,
                offset <= 0x7FFF_FFFF,
                consumed < 8 + 32,
                cur.out == out,
                cur.out_bits == out_bits,
                cur.words.len() >= st0.words.len(),
                cur.words.subrange(0, st0.words.len() as int) == st0.words,
                waddr == addr_plus(dst, 4int * cur.words.len()),
                unpack_byte(cur, byte, consumed as int, src_bits, dst_bits, offset, zero_offset) == target,
                wrote_words(mid2, dst, cur.words, st0.words.len() as int, *bus),
            ensures
                target == cur,
                stopped == cur.stopped,
                wrote_words(mid2, dst, cur.words, st0.words.len() as int, *bus),
                cur.out == out,
                cur.out_bits == out_bits,
                waddr == addr_plus(dst, 4int * cur.words.len()),
            decreases 40 - consumed,
        {
            if out_bits >= 32 {
                // Destination units that overrun a word cannot be placed.
                proof {
                    cur = UnpackState { stopped: true, ..cur };
                }
                stopped = true;
                break;
            }
            assert(1u32 << src_bits >= 1) by (bit_vector)
                requires
                    src_bits < 32,
            ;
            let mask = (1u32 << src_bits) - 1;
            let shifted = (byte >> consumed) as u32;
            assert(shifted <= 0xFF) by (bit_vector)
                requires
                    shifted == (byte >> consumed) as u32,
            ;
            let unit = shifted & mask;
            assert(unit <= 0xFF) by (bit_vector)
                requires
                    unit == shifted & mask,
                    shifted <= 0xFF,
            ;
            consumed = consumed + src_bits;
            let value = if unit != 0 || zero_offset {
                unit + offset
            } else {
                0
            };
            out = out | (value << out_bits);
            out_bits = out_bits + dst_bits;
            let ghost next = unpack_unit(cur, unit, dst_bits, offset, zero_offset);
            if out_bits == 32 {
                let ghost wb = *bus;
                bus.write32(waddr, out);
                proof {
                    let ws = next.words;
                    assert(ws.drop_last() =~= cur.words);
                    assert(wrote_words(mid2, dst, ws.drop_last(), st0.words.len() as int, wb)
                        && word_written(wb, addr_plus(dst, 4 * (ws.len() - 1)), ws[ws.len() - 1], *bus));
                    lemma_addr_step(dst, 4int * cur.words.len(), 4);
                }
                waddr = waddr.wrapping_add(4);
                out = 0;
                out_bits = 0;
            }
            proof {
                cur = next;
            }
        }
        proof {
            let nb = bytes.push(byte);
            assert(nb.drop_last() =~= bytes);
            assert(nb.last() == byte);
            bytes = nb;
            assert(unpack_state(bytes, src_bits, dst_bits, offset, zero_offset) == target);
            assert(before.read_did(addr_plus(src, nb.drop_last().len() as int), Width::Byte, nb.last() as u32, mid2));
        }
        if stopped {
            assert(half_read(s0, info, src_len as u32, s1) && s1.read_did(
                addr_plus(info, 2),
                Width::Byte,
                src_bits,
                s2,
            ) && s2.read_did(addr_plus(info, 3), Width::Byte, dst_bits, s3) && word_read(
                s3,
                addr_plus(info, 4),
                base,
                s4,
            ) && unpack_run(s4, src, dst, bytes, src_bits, dst_bits, base, *bus));
            return ;
        }
        i = i + 1;
    }
    assert(half_read(s0, info, src_len as u32, s1) && s1.read_did(
        addr_plus(info, 2),
        Width::Byte,
        src_bits,
        s2,
    ) && s2.read_did(addr_plus(info, 3), Width::Byte, dst_bits, s3) && word_read(
        s3,
        addr_plus(info, 4),
        base,
        s4,
    ) && unpack_run(s4, src, dst, bytes, src_bits, dst_bits, base, *bus));
}

/// The byte offset of unit `i` of a block copy/fill (words or halfwords).
pub open spec fn unit_off(word: bool, i: int) -> int {
    if word {
        4 * i
    } else {
        2 * i
    }
}

/// The source address of unit `i`: fixed, or stepping up from `src`.
pub open spec fn unit_src(src: u32, fixed: bool, word: bool, i: int) -> u32 {
    if fixed {
        src
    } else {
        addr_plus(src, unit_off(word, i))
    }
}

/// The bus after the first `k` units of a block copy/fill: unit `i` is read
/// from `src` (the same address each time when `fixed`, else stepping up)
/// and the value read is written to the `i`-th unit from `dst`; units are
/// words, or halfwords when `!word`.
pub open spec fn set_units<B: Bus>(
    b0: B,
    src: u32,
    dst: u32,
    word: bool,
    fixed: bool,
    k: nat,
    b1: B,
) -> bool
    decreases k,
{
    if k == 0 {
        b1 == b0
    } else {
        let i = k - 1;
        exists|mid: B, mid2: B, v: u32|
            #![trigger word_read(mid, unit_src(src, fixed, word, i), v, mid2)]
            #![trigger half_read(mid, unit_src(src, fixed, word, i), v, mid2)]
            set_units(b0, src, dst, word, fixed, i as nat, mid) && if word {
                word_read(mid, unit_src(src, fixed, word, i), v, mid2) && word_written(
                    mid2,
                    addr_plus(dst, unit_off(word, i)),
                    v,
                    b1,
                )
            } else {
                v < 0x1_0000 && half_read(mid, unit_src(src, fixed, word, i), v, mid2)
                    && half_written(mid2, addr_plus(dst, unit_off(word, i)), v as u16, b1)
            }
    }
}

proof fn lemma_set_units_step<B: Bus>(
    b0: B,
    src: u32,
    dst: u32,
    word: bool,
    fixed: bool,
    k: nat,
    mid: B,
    mid2: B,
    v: u32,
    b1: B,
)
    requires
        set_units(b0, src, dst, word, fixed, k, mid),
        if word {
            word_read(mid, unit_src(src, fixed, word, k as int), v, mid2) && word_written(
                mid2,
                addr_plus(dst, unit_off(word, k as int)),
                v,
                b1,
            )
        } else {
            v < 0x1_0000 && half_read(mid, unit_src(src, fixed, word, k as int), v, mid2)
                && half_written(mid2, addr_plus(dst, unit_off(word, k as int)), v as u16, b1)
        },
    ensures
        set_units(b0, src, dst, word, fixed, k + 1, b1),
{
    let k1 = k + 1;
    assert(((k1 - 1) as nat) == k);
}

/// `addr_plus` steps like a wrapping add.
proof fn lemma_addr_step(base: u32, off: int, step: u32)
    requires
        off >= 0,
    ensures
        addr_plus(base, off) as int + step < 0x1_0000_0000 ==> addr_plus(base, off) + step
            == addr_plus(base, off + step),
        addr_plus(base, off) as int + step >= 0x1_0000_0000 ==> addr_plus(base, off) + step
            - 0x1_0000_0000 == addr_plus(base, off + step),
{
    vstd::arithmetic::div_mod::lemma_add_mod_noop(base + off, step as int, 0x1_0000_0000);
    vstd::arithmetic::div_mod::lemma_small_mod(step as nat, 0x1_0000_0000);
    if addr_plus(base, off) as int + step >= 0x1_0000_0000 {
        vstd::arithmetic::div_mod::lemma_mod_sub_multiples_vanish(
            addr_plus(base, off) + step,
            0x1_0000_0000,
        );
    } else {
        vstd::arithmetic::div_mod::lemma_small_mod(
            (addr_plus(base, off) + step) as nat,
            0x1_0000_0000,
        );
    }
}

/// CpuSet: block copy or fill of `count` 16- or 32-bit units.
fn cpu_set<B: Bus>(cpu: &Cpu, bus: &mut B)
    requires
        old(bus).bus_inv(),
    ensures
        final(bus).bus_inv(),
        set_units(
            *old(bus),
            cpu@.regs[0],
            cpu@.regs[1],
            cpu@.regs[2] & (1u32 << 26u32) != 0,
            cpu@.regs[2] & (1u32 << 24u32) != 0,
            (cpu@.regs[2] & 0x1F_FFFF) as nat,
            *final(bus),
        ),
{
    let mut src = cpu.reg(0);
    let mut dst = cpu.reg(1);
    let control = cpu.reg(2);
    let count = control & 0x1F_FFFF;
    let fixed = control & (1u32 << 24u32) != 0;
    let word = control & (1u32 << 26u32) != 0;
    let step: u32 = if word {
        4
    } else {
        2
    };
    let ghost b0 = *bus;
    let ghost src0 = src;
    let ghost dst0 = dst;
    let mut k: u32 = 0;
    while k < count
        invariant
            bus.bus_inv(),
            step == (if word { 4u32 } else { 2u32 }),
            k <= count,
            dst == addr_plus(dst0, unit_off(word, k as int)),
            src == unit_src(src0, fixed, word, k as int),
            set_units(b0, src0, dst0, word, fixed, k as nat, *bus),
        decreases count - k,
    {
        let ghost mid = *bus;
        let ghost mut mid2 = *bus;
        let ghost mut vv: u32 = 0;
        if word {
            let v = bus.read32(src);
            proof {
                mid2 = *bus;
                vv = v;
            }
            bus.write32(dst, v);
            assert(word_read(mid, src, vv, mid2));
            assert(word_written(mid2, dst, vv, *bus));
        } else {
            let v = bus.read16(src);
            proof {
                mid2 = *bus;
                vv = v as u32;
            }
            bus.write16(dst, v);
            assert(half_read(mid, src, vv, mid2));
            assert(vv as u16 == v);
            assert(half_written(mid2, dst, vv as u16, *bus));
        }
        proof {
            lemma_set_units_step(b0, src0, dst0, word, fixed, k as nat, mid, mid2, vv, *bus);
            let off = unit_off(word, k as int);
            assert(unit_off(word, k + 1) == off + step);
            lemma_addr_step(dst0, off, step);
            lemma_addr_step(src0, off, step);
        }
        dst = dst.wrapping_add(step);
        if !fixed {
            src = src.wrapping_add(step);
        }
        k = k + 1;
    }
}

/// CpuFastSet: 32-bit block copy/fill in 8-word chunks.
#[verifier::spinoff_prover]
fn cpu_fast_set<B: Bus>(cpu: &Cpu, bus: &mut B)
    requires
        old(bus).bus_inv(),
    ensures
        final(bus).bus_inv(),
        // Words only, the count rounded up to a multiple of eight.
        set_units(
            *old(bus),
            cpu@.regs[0],
            cpu@.regs[1],
            true,
            cpu@.regs[2] & (1u32 << 24u32) != 0,
            (((cpu@.regs[2] & 0x1F_FFFF) + 7) / 8 * 8) as nat,
            *final(bus),
        ),
{
    let mut src = cpu.reg(0);
    let mut dst = cpu.reg(1);
    let control = cpu.reg(2);
    let c = control & 0x1F_FFFF;
    assert(control & 0x1F_FFFF <= 0x1F_FFFF) by {
        crate::bits::lemma_bit_facts();
    }
    let count = (c + 7) / 8 * 8;
    let fixed = control & (1u32 << 24u32) != 0;
    let ghost b0 = *bus;
    let ghost src0 = src;
    let ghost dst0 = dst;
    let mut k: u32 = 0;
    while k < count
        invariant
            bus.bus_inv(),
            k <= count,
            dst == addr_plus(dst0, unit_off(true, k as int)),
            src == unit_src(src0, fixed, true, k as int),
            set_units(b0, src0, dst0, true, fixed, k as nat, *bus),
        decreases count - k,
    {
        let ghost mid = *bus;
        let v = bus.read32(src);
        let ghost mid2 = *bus;
        assert(word_read(mid, src, v, mid2));
        bus.write32(dst, v);
        proof {
            assert(word_written(mid2, dst, v, *bus));
            lemma_set_units_step(b0, src0, dst0, true, fixed, k as nat, mid, mid2, v, *bus);
            let off = unit_off(true, k as int);
            assert(unit_off(true, k + 1) == off + 4);
            lemma_addr_step(dst0, off, 4);
            lemma_addr_step(src0, off, 4);
        }
        dst = dst.wrapping_add(4);
        if !fixed {
            src = src.wrapping_add(4);
        }
        k = k + 1;
    }
}

/// The bus after `k` zero words are written from `start` upward.
pub open spec fn zeroed_words<B: Bus>(b0: B, start: u32, k: nat, b1: B) -> bool
    decreases k,
{
    if k == 0 {
        b1 == b0
    } else {
        exists|mid: B|
            zeroed_words(b0, start, (k - 1) as nat, mid) && #[trigger] word_written(
                mid,
                addr_plus(start, 4 * (k - 1)),
                0,
                b1,
            )
    }
}

proof fn lemma_zeroed_words_step<B: Bus>(b0: B, start: u32, k: nat, mid: B, b1: B)
    requires
        zeroed_words(b0, start, k, mid),
        word_written(mid, addr_plus(start, 4 * k as int), 0, b1),
    ensures
        zeroed_words(b0, start, k + 1, b1),
{
    let k1 = k + 1;
    assert(((k1 - 1) as nat) == k);
}

/// Zero `len` bytes from `start`, a word at a time.
fn clear_words<B: Bus>(bus: &mut B, start: u32, len: u32)
    requires
        old(bus).bus_inv(),
        start as int + len <= 0x1_0000_0000,
    ensures
        final(bus).bus_inv(),
        zeroed_words(*old(bus), start, ((len + 3) / 4) as nat, *final(bus)),
{
    let ghost b0 = *bus;
    let ghost mut k: nat = 0;
    let mut off: u32 = 0;
    while off < len
        invariant
            bus.bus_inv(),
            start as int + len <= 0x1_0000_0000,
            off <= len,
            off % 4 == 0 || off == len,
            k == (off + 3) / 4,
            zeroed_words(b0, start, k, *bus),
        decreases len - off,
    {
        let ghost before = *bus;
        bus.write32(start + off, 0);
        proof {
            assert(off == 4 * k);
            assert(start + off == addr_plus(start, 4 * k as int));
            lemma_zeroed_words_step(b0, start, k, before, *bus);
            k = k + 1;
        }
        if len - off < 4 {
            off = len;
        } else {
            off = off + 4;
        }
    }
}

/// A region zeroed word by word when `flags` has `bit` set, else untouched.
pub open spec fn zeroed_if<B: Bus>(b0: B, flags: u32, bit: u32, start: u32, len: u32, b1: B) -> bool {
    if flags & bit != 0 {
        zeroed_words(b0, start, ((len + 3) / 4) as nat, b1)
    } else {
        b1 == b0
    }
}

/// RegisterRamReset with flag byte `flags`: EWRAM, IWRAM (but its top 0x200
/// bytes), palette, VRAM and OAM zeroed in that order, each when selected.
pub open spec fn ram_reset_done<B: Bus>(b0: B, flags: u32, b5: B) -> bool {
    exists|b1: B, b2: B, b3: B, b4: B|
        #![trigger zeroed_if(b0, flags, 1, 0x0200_0000, 0x0004_0000, b1), zeroed_if(b1, flags, 2, 0x0300_0000, 0x7E00, b2), zeroed_if(b2, flags, 4, 0x0500_0000, 0x400, b3), zeroed_if(b3, flags, 8, 0x0600_0000, 0x0001_8000, b4)]
        zeroed_if(b0, flags, 1, 0x0200_0000, 0x0004_0000, b1) && zeroed_if(
            b1,
            flags,
            2,
            0x0300_0000,
            0x7E00,
            b2,
        ) && zeroed_if(b2, flags, 4, 0x0500_0000, 0x400, b3) && zeroed_if(
            b3,
            flags,
            8,
            0x0600_0000,
            0x0001_8000,
            b4,
        ) && zeroed_if(b4, flags, 0x10, 0x0700_0000, 0x400, b5)
}

/// RegisterRamReset: clear the RAM regions selected by r0.
fn register_ram_reset<B: Bus>(cpu: &Cpu, bus: &mut B)
    requires
        old(bus).bus_inv(),
    ensures
        final(bus).bus_inv(),
        ram_reset_done(*old(bus), cpu@.regs[0], *final(bus)),
{
    let flags = cpu.reg(0);
    let ghost b0 = *bus;
    if flags & 1 != 0 {
        clear_words(bus, 0x0200_0000, 0x0004_0000);  // 256 KiB EWRAM
    }
    let ghost b1 = *bus;
    assert(zeroed_if(b0, flags, 1, 0x0200_0000, 0x0004_0000, b1));
    if flags & 2 != 0 {
        // 32 KiB IWRAM except the top 0x200 bytes (BIOS/IRQ stack area).
        clear_words(bus, 0x0300_0000, 0x0000_7E00);
    }
    let ghost b2 = *bus;
    assert(zeroed_if(b1, flags, 2, 0x0300_0000, 0x7E00, b2));
    if flags & 4 != 0 {
        clear_words(bus, 0x0500_0000, 0x0000_0400);  // palette
    }
    let ghost b3 = *bus;
    assert(zeroed_if(b2, flags, 4, 0x0500_0000, 0x400, b3));
    if flags & 8 != 0 {
        clear_words(bus, 0x0600_0000, 0x0001_8000);  // VRAM (96 KiB)
    }
    let ghost b4 = *bus;
    assert(zeroed_if(b3, flags, 8, 0x0600_0000, 0x0001_8000, b4));
    if flags & 0x10 != 0 {
        clear_words(bus, 0x0700_0000, 0x0000_0400);  // OAM
    }
    assert(zeroed_if(b4, flags, 0x10, 0x0700_0000, 0x400, *bus));
    // Bits 5-7 (SIO / sound / other I/O resets) are left to the peripherals
    // that own those registers.
}

/// The CPU after SoftReset to `target`: System mode, not halted, and
/// branching to the entry point.
pub open spec fn soft_reset_effect(v: CpuView, target: u32, pipe: Seq<u32>) -> CpuView {
    spec_branch(spec_set_cpsr(CpuView { halted: false, ..v }, 0x1F), target, pipe)
}

/// SoftReset against the bus: the flag byte at 0x0300_7FFA is read, the
/// top 0x200 bytes of IWRAM are cleared a word at a time, and the CPU
/// restarts at 0x0200_0000 when the flag was set, at 0x0800_0000 when it
/// was clear, refilling from there.
pub open spec fn soft_reset_done<B: Bus>(v: CpuView, b0: B, w: CpuView, b1: B) -> bool {
    exists|flag: u32, mid: B, mid2: B|
        #![trigger b0.read_did(0x0300_7FFA, Width::Byte, flag, mid), zeroed_words(mid, 0x0300_7E00, 0x80, mid2)]
        b0.read_did(0x0300_7FFA, Width::Byte, flag, mid) && zeroed_words(
            mid,
            0x0300_7E00,
            0x80,
            mid2,
        ) && {
            let target: u32 = if flag != 0 { 0x0200_0000 } else { 0x0800_0000 };
            &&& w == soft_reset_effect(v, target, w.pipeline)
            &&& refilled(mid2, target, thumb_state(w.cpsr), w.pipeline, b1)
        }
}

/// SoftReset: return to the entry point recorded by the BIOS. The flag byte
/// at 0x0300_7FFA selects RAM (0x0200_0000) vs ROM (0x0800_0000) entry.
fn soft_reset<B: Bus>(cpu: &mut Cpu, bus: &mut B)
    requires
        old(bus).bus_inv(),
    ensures
        final(bus).bus_inv(),
        exists|target: u32|
            (target == 0x0200_0000 || target == 0x0800_0000) && final(cpu)@ == soft_reset_effect(
                old(cpu)@,
                target,
                final(cpu)@.pipeline,
            ),
        soft_reset_done(old(cpu)@, *old(bus), final(cpu)@, *final(bus)),
{
    let ghost b0 = *bus;
    let flag = bus.read8(0x0300_7FFA);
    let ghost mid = *bus;
    let ram_entry = flag != 0;
    // Clear the top of IWRAM the BIOS uses for its own bookkeeping.
    clear_words(bus, 0x0300_7E00, 0x200);
    let ghost mid2 = *bus;
    let target: u32 = if ram_entry {
        0x0200_0000
    } else {
        0x0800_0000
    };
    let ghost v0 = cpu@;
    cpu.reset_to(bus, target);
    assert(cpu@ == soft_reset_effect(v0, target, cpu@.pipeline));
    assert(b0.read_did(0x0300_7FFA, Width::Byte, flag as u32, mid) && zeroed_words(
        mid,
        0x0300_7E00,
        0x80,
        mid2,
    ));
}

/// What an HLE SWI does to the CPU (the services that only touch memory
/// leave it as it was).
pub open spec fn swi_cpu_effect(v: CpuView, number: u8, result: CpuView) -> bool {
    if number == 0x00 {
        exists|target: u32|
            (target == 0x0200_0000 || target == 0x0800_0000) && result == soft_reset_effect(
                v,
                target,
                result.pipeline,
            )
    } else if 0x02 <= number <= 0x05 {
        result == (CpuView { halted: true, ..v })
    } else if number == 0x06 {
        result == div_effect(v, false)
    } else if number == 0x07 {
        result == div_effect(v, true)
    } else if number == 0x08 {
        exists|r: u32| is_isqrt(v.regs[0] as int, r as int) && result == spec_set_reg(v, 0, r)
    } else if number == 0x09 {
        result == spec_set_reg(v, 0, arctan_result(v.regs[0]))
    } else if number == 0x0A {
        result == spec_set_reg(v, 0, arctan2_result(v.regs[0], v.regs[1]))
    } else if number == 0x0D {
        result == spec_set_reg(v, 0, BIOS_CHECKSUM)
    } else {
        result == v
    }
}

/// What an HLE memory service does to the bus, by SWI number, given the
/// registers it was called with: RegisterRamReset, CpuSet and CpuFastSet
/// exactly; the decompressors up to the decoded bytes they write out;
/// BitUnpack up to its parameter block; the other services touch no memory.
pub open spec fn swi_bus_effect<B: Bus>(b0: B, regs: Seq<u32>, number: u8, b1: B) -> bool {
    if number == 0x01 {
        ram_reset_done(b0, regs[0], b1)
    } else if number == 0x0B {
        set_units(
            b0,
            regs[0],
            regs[1],
            regs[2] & (1u32 << 26u32) != 0,
            regs[2] & (1u32 << 24u32) != 0,
            (regs[2] & 0x1F_FFFF) as nat,
            b1,
        )
    } else if number == 0x0C {
        set_units(
            b0,
            regs[0],
            regs[1],
            true,
            regs[2] & (1u32 << 24u32) != 0,
            (((regs[2] & 0x1F_FFFF) + 7) / 8 * 8) as nat,
            b1,
        )
    } else if number == 0x14 || number == 0x15 {
        rl_decoded_to(b0, regs[0], regs[1], number == 0x15, b1)
    } else if number == 0x16 || number == 0x17 {
        diff8_decoded_to(b0, regs[0], regs[1], number == 0x17, b1)
    } else if number == 0x18 {
        diff16_decoded_to(b0, regs[0], regs[1], true, b1)
    } else if number == 0x11 || number == 0x12 {
        lz_decoded_to(b0, regs[0], regs[1], number == 0x12, b1)
    } else if number == 0x13 {
        huff_decoded_to(b0, regs[0], regs[1], b1)
    } else if number == 0x10 {
        unpack_done(b0, regs[0], regs[1], regs[2], b1)
    } else if number == 0x00 {
        // SoftReset: its bus effect depends on where it restarts the CPU;
        // `soft_reset_done` states both together.
        true
    } else {
        // The register-only services and the unimplemented ones leave the
        // bus alone.
        b1 == b0
    }
}

/// Emulate BIOS SWI `number` in place, operating on the CPU registers and
/// memory. Called only in HLE mode.
pub fn hle_swi<B: Bus>(cpu: &mut Cpu, bus: &mut B, number: u8)
    requires
        old(bus).bus_inv(),
    ensures
        final(bus).bus_inv(),
        swi_cpu_effect(old(cpu)@, number, final(cpu)@),
        swi_bus_effect(*old(bus), old(cpu)@.regs, number, *final(bus)),
        number == 0x00 ==> soft_reset_done(old(cpu)@, *old(bus), final(cpu)@, *final(bus)),
{
    match number {
        0x00 => soft_reset(cpu, bus),
        0x01 => register_ram_reset(cpu, bus),
        // Halt; Stop/Sleep (treated as Halt headlessly); IntrWait;
        // VBlankIntrWait.
        0x02 | 0x03 | 0x04 | 0x05 => cpu.request_halt(),
        0x06 => div(cpu, false),
        // DivArm: numerator/denominator swapped.
        0x07 => div(cpu, true),
        0x08 => {
            let r = isqrt(cpu.reg(0));
            cpu.set_reg(0, r);
        },
        0x09 => arctan(cpu),
        0x0A => arctan2(cpu),
        0x0B => cpu_set(cpu, bus),
        0x0C => cpu_fast_set(cpu, bus),
        // GetBiosChecksum: the constant the retail GBA BIOS returns.
        0x0D => cpu.set_reg(0, BIOS_CHECKSUM),
        0x10 => bit_unpack(cpu, bus),
        // LZ77UnCompWRAM (byte writes) / LZ77UnCompVRAM (halfword writes).
        0x11 => lz77(cpu, bus, false),
        0x12 => lz77(cpu, bus, true),
        0x13 => huffman(cpu, bus),
        // RLUnCompWRAM / RLUnCompVRAM.
        0x14 => rl_uncomp(cpu, bus, false),
        0x15 => rl_uncomp(cpu, bus, true),
        // Diff8bitUnFilterWRAM / Diff8bitUnFilterVRAM / Diff16bitUnFilter.
        0x16 => diff_unfilter(cpu, bus, 8, false),
        0x17 => diff_unfilter(cpu, bus, 8, true),
        0x18 => diff_unfilter(cpu, bus, 16, true),
        // Affine-set (0x0E/0x0F), sound and other services are not
        // implemented; state is left untouched.
        _ => {},
    }
}

} // verus!
