//! Bit-level facts used across the crate, each family proved once by the
//! bit-vector solver and then instantiated where a proof needs it.

use vstd::prelude::*;

verus! {

/// Masking never exceeds the mask.
pub proof fn lemma_mask_bounds()
    by (bit_vector)
    ensures
        forall|x: u8, m: u8| #[trigger] (x & m) <= m,
        forall|x: u16, m: u16| #[trigger] (x & m) <= m,
        forall|x: u32, m: u32| #[trigger] (x & m) <= m,
        forall|x: u64, m: u64| #[trigger] (x & m) <= m,
        forall|x: usize, m: usize| #[trigger] (x & m) <= m,
{
}

/// Right shifts never grow a value, and leave only the bits above the shift.
pub proof fn lemma_shift_bounds()
    by (bit_vector)
    ensures
        forall|x: u8, s: u8| #[trigger] (x >> s) <= x,
        forall|x: u16, s: u16| #[trigger] (x >> s) <= x,
        forall|x: u32, s: u32| #[trigger] (x >> s) <= x,
        forall|x: u8| #[trigger] (x >> 4u8) <= 0xF,
        forall|x: u16| #[trigger] (x >> 12u16) <= 0xF,
        forall|x: u32| #[trigger] (x >> 24u32) <= 0xFF,
        forall|x: u32| #[trigger] (x >> 8u32) <= 0xFF_FFFF,
        forall|x: u64| #[trigger] (x >> 1u64) == x / 2,
        forall|x: u64| #[trigger] (x >> 2u64) == x / 4,
{
}

/// Clearing low bits aligns an address and never raises it; the low bits
/// of an address decide its alignment.
pub proof fn lemma_alignment()
    by (bit_vector)
    ensures
        forall|x: u32| #[trigger] (x & !3u32) % 4 == 0,
        forall|x: u32| #[trigger] (x & !1u32) % 2 == 0,
        forall|x: u32| #[trigger] (x & !1u32) <= x,
        forall|x: u32| #[trigger] (x & 0x3FF) % 2 == x % 2,
        forall|x: u32| #[trigger] (x & 0x3FF) % 4 == x % 4,
        forall|x: u32| #[trigger] ((x & !3u32) & !3u32) == x & !3u32,
        forall|x: u32| #[trigger] ((x & !1u32) & !1u32) == x & !1u32,
        forall|x: u32| x & 1 == 0 ==> #[trigger] (x & !1u32) == x,
        forall|x: u32| #[trigger] (((x & 0xFF) as u8) as u32) == x & 0xFF,
{
}

/// Assorted identities: word splitting, small powers of two, and the mode
/// and register-field masks of the CPU.
pub proof fn lemma_bit_identities()
    by (bit_vector)
    ensures
        forall|s: u32| 1 <= s <= 16 ==> 2 <= #[trigger] (1u32 << s) <= 65536,
        forall|s: u32| s <= 14 ==> #[trigger] (1u32 << s) <= 16384,
        forall|x: u32| #[trigger] ((x >> 15u32) & 1) == (if x & 0x8000 == 0 { 0u32 } else { 1u32 }),
        forall|c: u32, mb: u32| #[trigger] (((c & !(0x1Fu32 | 0x20)) | mb | 0x80) & 0x1F) == mb & 0x1F,
        forall|c: u32, mb: u32| #[trigger] ((((c & !(0x1Fu32 | 0x20)) | mb | 0x80) | 0x40) & 0x1F) == mb & 0x1F,
        forall|x: u64| #[trigger] (x & 0xFFFF_FFFF) == x % 0x1_0000_0000,
        forall|x: u64| #[trigger] (x >> 32u64) == x / 0x1_0000_0000,
        forall|x: u64| #[trigger] (x >> 63u64) != 0 <==> x >= 0x8000_0000_0000_0000,
        forall|x: usize| x < 16 ==> #[trigger] (x & 0xF) == x,
        forall|a: u32, b: u32| #[trigger] ((a & 7) | (b & 8)) < 16,
        forall|x: u32| x >= 0xB0 ==> #[trigger] (x & !1u32) >= 0xB0,
        forall|a: u32, b: u32| #[trigger] ((a & !b) & b) == 0,
        forall|a: u32, b: u32| #[trigger] ((a & !b) | (a & b)) == a,
        forall|x: u8| #[trigger] (x >> 0u8) == x,
        forall|x: u32| x < 16 ==> #[trigger] (x & 0xF) == x,
        forall|x: u32| #[trigger] ((x & 0xF) & 0xF) == x & 0xF,
        forall|x: u64| #[trigger] (x & 0x3FFFu64) == x % 0x4000u64,
        forall|c: u32, f: u32, g: u32| f & g == 0 ==> #[trigger] ((c | f) & g) == c & g,
        forall|c: u32, f: u32, g: u32| f & g == 0 ==> #[trigger] ((c & !f) & g) == c & g,
        forall|c: u32, f: u32| f != 0 ==> #[trigger] ((c | f) & f) != 0,
        forall|x: u32| (#[trigger] (x & 0x8000_0000u32) != 0) <==> x >= 0x8000_0000u32,
        0x8000_0000u32 & 0x4000_0000u32 == 0 && 0x8000_0000u32 & 0x2000_0000u32 == 0
            && 0x8000_0000u32 & 0x1000_0000u32 == 0 && 0x4000_0000u32 & 0x2000_0000u32 == 0
            && 0x4000_0000u32 & 0x1000_0000u32 == 0 && 0x2000_0000u32 & 0x1000_0000u32 == 0,
        0x8000_0000u32 & 0x0FFF_FFFFu32 == 0 && 0x4000_0000u32 & 0x0FFF_FFFFu32 == 0
            && 0x2000_0000u32 & 0x0FFF_FFFFu32 == 0 && 0x1000_0000u32 & 0x0FFF_FFFFu32 == 0,
        0x4000_0000u32 & 0x8000_0000u32 == 0 && 0x2000_0000u32 & 0x8000_0000u32 == 0
            && 0x1000_0000u32 & 0x8000_0000u32 == 0 && 0x2000_0000u32 & 0x4000_0000u32 == 0
            && 0x1000_0000u32 & 0x4000_0000u32 == 0 && 0x1000_0000u32 & 0x2000_0000u32 == 0,
        forall|x: u32| #[trigger] ((x & 0x3FFFu32) as u64) == (x as u64) & 0x3FFFu64,
        forall|p: u8| p < 8u8 ==> (((#[trigger] (0x01u8 >> p)) & 1u8 != 0u8) <==> p == 0u8),
        forall|p: u8| p < 8u8 ==> (((#[trigger] (0x81u8 >> p)) & 1u8 != 0u8) <==> (p == 0u8 || p == 7u8)),
        forall|p: u8| p < 8u8 ==> (((#[trigger] (0x87u8 >> p)) & 1u8 != 0u8) <==> (p <= 2u8 || p == 7u8)),
        forall|p: u8| p < 8u8 ==> (((#[trigger] (0x7Eu8 >> p)) & 1u8 != 0u8) <==> (1u8 <= p && p <= 6u8)),
        0x13u32 | 0x80 | 0x40 == 0xD3,
{
}

/// Register-index arithmetic and the constant masks used by the register
/// files.
pub proof fn lemma_register_fields()
    by (bit_vector)
    ensures
        forall|x: u32| #[trigger] ((x & 0x3FF) >> 1) < 512,
        forall|x: u32| #[trigger] ((x & 0x3FE) >> 1) == (x & 0x3FF) >> 1,
        forall|x: u32| #[trigger] (x & 0xFF) == ((x as u8) as u32),
        forall|x: u32| x <= 0xFFFF ==> #[trigger] (x & 0xFFFF) == x,
        forall|b: u32| #[trigger] (!b) == 0xFFFF_FFFFu32 - b,
        forall|h: u16, v: u16, c: u16| v == 0 && c == 0 ==> #[trigger] (h | v | c) == h,
        4u32 & 0x3E == 4,
        1u64 << 30u64 == 0x4000_0000,
        0x202u32 & 0x3FE == 0x202,
        0x130u32 & 0x3FE == 0x130,
        ((0x1Fu8 << 3) | (0x1Fu8 >> 2)) == 255u8,
        ((0u8 << 3) | (0u8 >> 2)) == 0u8,
        0u16 & 0xFFF8 == 0,
        0u16 & 0xFF87 == 0,
        0x5555u32 & 0xFFFF == 0x5555,
        0x2AAAu32 & 0xFFFF == 0x2AAA,
        0u32 & 0xFFFF == 0,
        1u32 & 0xFFFF == 1,
{
}

/// All of the above at once.
pub proof fn lemma_bit_facts()
    ensures
        forall|x: u8, m: u8| #[trigger] (x & m) <= m,
        forall|x: u16, m: u16| #[trigger] (x & m) <= m,
        forall|x: u32, m: u32| #[trigger] (x & m) <= m,
        forall|x: u64, m: u64| #[trigger] (x & m) <= m,
        forall|x: usize, m: usize| #[trigger] (x & m) <= m,
        forall|x: u8, s: u8| #[trigger] (x >> s) <= x,
        forall|x: u16, s: u16| #[trigger] (x >> s) <= x,
        forall|x: u32, s: u32| #[trigger] (x >> s) <= x,
        forall|x: u8| #[trigger] (x >> 4u8) <= 0xF,
        forall|x: u16| #[trigger] (x >> 12u16) <= 0xF,
        forall|x: u32| #[trigger] (x >> 24u32) <= 0xFF,
        forall|x: u32| #[trigger] (x >> 8u32) <= 0xFF_FFFF,
        forall|x: u64| #[trigger] (x >> 1u64) == x / 2,
        forall|x: u64| #[trigger] (x >> 2u64) == x / 4,
        forall|x: u32| #[trigger] (x & !3u32) % 4 == 0,
        forall|x: u32| #[trigger] (x & !1u32) % 2 == 0,
        forall|x: u32| #[trigger] (x & !1u32) <= x,
        forall|x: u32| #[trigger] (x & 0x3FF) % 2 == x % 2,
        forall|x: u32| #[trigger] (x & 0x3FF) % 4 == x % 4,
        forall|s: u32| 1 <= s <= 16 ==> 2 <= #[trigger] (1u32 << s) <= 65536,
        forall|s: u32| s <= 14 ==> #[trigger] (1u32 << s) <= 16384,
        forall|x: u32| #[trigger] ((x >> 15u32) & 1) == (if x & 0x8000 == 0 { 0u32 } else { 1u32 }),
        forall|c: u32, mb: u32| #[trigger] (((c & !(0x1Fu32 | 0x20)) | mb | 0x80) & 0x1F) == mb & 0x1F,
        forall|c: u32, mb: u32| #[trigger] ((((c & !(0x1Fu32 | 0x20)) | mb | 0x80) | 0x40) & 0x1F) == mb & 0x1F,
        forall|x: u64| #[trigger] (x & 0xFFFF_FFFF) == x % 0x1_0000_0000,
        forall|x: u64| #[trigger] (x >> 32u64) == x / 0x1_0000_0000,
        forall|x: u64| #[trigger] (x >> 63u64) != 0 <==> x >= 0x8000_0000_0000_0000,
        forall|x: usize| x < 16 ==> #[trigger] (x & 0xF) == x,
        forall|a: u32, b: u32| #[trigger] ((a & 7) | (b & 8)) < 16,
        forall|x: u32| x >= 0xB0 ==> #[trigger] (x & !1u32) >= 0xB0,
        0x13u32 | 0x80 | 0x40 == 0xD3,
        forall|x: u32| #[trigger] ((x & 0x3FF) >> 1) < 512,
        forall|x: u32| #[trigger] ((x & 0x3FE) >> 1) == (x & 0x3FF) >> 1,
        forall|x: u32| #[trigger] (x & 0xFF) == ((x as u8) as u32),
        forall|x: u32| x <= 0xFFFF ==> #[trigger] (x & 0xFFFF) == x,
        forall|b: u32| #[trigger] (!b) == 0xFFFF_FFFFu32 - b,
        forall|h: u16, v: u16, c: u16| v == 0 && c == 0 ==> #[trigger] (h | v | c) == h,
        4u32 & 0x3E == 4,
        1u64 << 30u64 == 0x4000_0000,
        0x202u32 & 0x3FE == 0x202,
        0x130u32 & 0x3FE == 0x130,
        ((0x1Fu8 << 3) | (0x1Fu8 >> 2)) == 255u8,
        ((0u8 << 3) | (0u8 >> 2)) == 0u8,
        0u16 & 0xFFF8 == 0,
        0u16 & 0xFF87 == 0,
        0x5555u32 & 0xFFFF == 0x5555,
        0x2AAAu32 & 0xFFFF == 0x2AAA,
        0u32 & 0xFFFF == 0,
        1u32 & 0xFFFF == 1,
{
    lemma_mask_bounds();
    lemma_shift_bounds();
    lemma_alignment();
    lemma_bit_identities();
    lemma_register_fields();
}

} // verus!
