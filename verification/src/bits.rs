//! Bit fields of 64-bit words.
//!
//! Registers and in-memory descriptors are described by the inclusive bit
//! numbers of their fields, `[hi:lo]`, as hardware manuals do.

use vstd::prelude::*;

verus! {

/// The value held in bits `[hi:lo]` of `word`.
pub open spec fn bit_field(word: u64, hi: u64, lo: u64) -> u64 {
    (word >> lo) & low_mask((hi - lo + 1) as u64)
}

/// A word whose `width` low bits are one.
pub open spec fn low_mask(width: u64) -> u64 {
    ((1u64 << width) - 1) as u64
}

/// Whether bit `index` of `word` is one.
pub open spec fn bit_set(word: u64, index: u64) -> bool {
    (word >> index) & 1 == 1
}

/// Whether `value` is a power of two that fits in 64 bits.
pub open spec fn is_pow2(value: int) -> bool {
    0 < value <= u64::MAX && (value as u64) & (((value as u64) - 1) as u64) == 0
}

/// A field never exceeds the mask of its width.
pub(crate) proof fn lemma_field_bound(word: u64, width: u64, lo: u64)
    by (bit_vector)
    requires
        0 < width < 64,
        lo < 64,
    ensures
        (1u64 << width) >= 2,
        (word >> lo) & (((1u64 << width) - 1) as u64) <= ((1u64 << width) - 1) as u64,
        width <= 32 ==> ((1u64 << width) - 1) as u64 <= 0xffff_ffff,
        width <= 16 ==> ((1u64 << width) - 1) as u64 <= 0xffff,
        width <= 8 ==> ((1u64 << width) - 1) as u64 <= 0xff,
        width <= 7 ==> ((1u64 << width) - 1) as u64 <= 0x7f,
        width <= 6 ==> ((1u64 << width) - 1) as u64 <= 0x3f,
        width <= 4 ==> ((1u64 << width) - 1) as u64 <= 0xf,
        width <= 3 ==> ((1u64 << width) - 1) as u64 <= 0x7,
{
}

/// Bits `[hi:lo]` of `word`.
pub fn field(word: u64, hi: u64, lo: u64) -> (r: u64)
    requires
        lo <= hi < 64,
        hi - lo < 63,
    ensures
        r == bit_field(word, hi, lo),
        hi - lo < 32 ==> r <= 0xffff_ffff,
        hi - lo < 16 ==> r <= 0xffff,
        hi - lo < 8 ==> r <= 0xff,
        hi - lo < 7 ==> r <= 0x7f,
        hi - lo < 6 ==> r <= 0x3f,
        hi - lo < 4 ==> r <= 0xf,
        hi - lo < 3 ==> r <= 0x7,
{
    let width: u64 = hi - lo + 1;
    proof {
        lemma_field_bound(word, width, lo);
    }
    (word >> lo) & ((1u64 << width) - 1)
}

/// Bit `index` of `word`.
pub fn bit(word: u64, index: u64) -> (r: bool)
    requires
        index < 64,
    ensures
        r == bit_set(word, index),
{
    (word >> index) & 1 == 1
}

/// Whether `value` is a power of two.
pub fn is_power_of_two(value: usize) -> (r: bool)
    ensures
        r == is_pow2(value as int),
{
    if value == 0 {
        false
    } else {
        let wide: u64 = value as u64;
        wide & (wide - 1) == 0
    }
}

/// One step down a power of two: halving keeps the shape, and a mask splits
/// into its halved mask and its lowest bit.
proof fn lemma_pow2_halves(value: u64, size: u64)
    by (bit_vector)
    requires
        size > 1,
        size & ((size - 1) as u64) == 0,
    ensures
        size % 2 == 0,
        (size / 2) & ((size / 2 - 1) as u64) == 0,
        value & ((size - 1) as u64) == 2 * ((value / 2) & ((size / 2 - 1) as u64)) + value % 2,
{
}

/// Masking with a power of two less one is the remainder by it.
pub proof fn lemma_pow2_mask_is_mod(value: u64, size: u64)
    requires
        is_pow2(size as int),
    ensures
        value & ((size - 1) as u64) == value % size,
    decreases size,
{
    if size == 1 {
        assert(value & 0 == 0) by (bit_vector);
    } else {
        lemma_pow2_halves(value, size);
        let half = size / 2;
        assert(is_pow2(half as int));
        lemma_pow2_mask_is_mod(value / 2, half);
        let q = (value / 2) / half;
        let r = (value / 2) % half;
        vstd::arithmetic::div_mod::lemma_fundamental_div_mod((value / 2) as int, half as int);
        assert(value == 2 * (half * q + r) + value % 2);
        assert(value == size * q + (2 * r + value % 2)) by (nonlinear_arith)
            requires
                value == 2 * (half * q + r) + value % 2,
                size == 2 * half,
        ;
        vstd::arithmetic::div_mod::lemma_fundamental_div_mod_converse(
            value as int,
            size as int,
            q as int,
            2 * r + value % 2,
        );
    }
}

/// The exponent of the largest power of two that is at most `value`.
pub open spec fn spec_log2(value: int) -> int
    decreases value,
{
    if value <= 1 {
        0
    } else {
        1 + spec_log2(value / 2)
    }
}

/// The exponent of the largest power of two that is at most `value`.
pub fn floor_log2(value: usize) -> (r: u32)
    ensures
        r == spec_log2(value as int),
        r < 64,
        r < usize::BITS,
{
    let mut rest: usize = value;
    let mut r: u32 = 0;
    assert(value <= usize::MAX);
    proof {
        lemma_log2_bound(value);
    }
    while rest > 1
        invariant
            r + spec_log2(rest as int) == spec_log2(value as int),
            spec_log2(value as int) < usize::BITS,
            usize::BITS <= 64,
        decreases rest,
    {
        proof {
            lemma_log2_nonnegative((rest / 2) as int);
        }
        rest = rest / 2;
        r = r + 1;
    }
    r
}

proof fn lemma_log2_nonnegative(value: int)
    ensures
        spec_log2(value) >= 0,
    decreases value,
{
    if value > 1 {
        lemma_log2_nonnegative(value / 2);
    }
}

/// The exponent is the one that the power was chosen by.
pub proof fn lemma_log2_bounds(value: int)
    requires
        value >= 1,
    ensures
        spec_log2(value) >= 0,
        vstd::arithmetic::power2::pow2(spec_log2(value) as nat) <= value,
        value < 2 * vstd::arithmetic::power2::pow2(spec_log2(value) as nat),
    decreases value,
{
    if value > 1 {
        lemma_log2_bounds(value / 2);
        vstd::arithmetic::power2::lemma_pow2_unfold(spec_log2(value) as nat);
    } else {
        vstd::arithmetic::power2::lemma2_to64();
    }
}

proof fn lemma_log2_bound(value: usize)
    ensures
        spec_log2(value as int) < usize::BITS,
        usize::BITS <= 64,
{
    if value >= 1 {
        lemma_log2_bounds(value as int);
        let e = spec_log2(value as int);
        if e >= usize::BITS {
            vstd::arithmetic::power2::lemma2_to64();
            vstd::arithmetic::power2::lemma2_to64_rest();
            if usize::BITS < e {
                vstd::arithmetic::power2::lemma_pow2_strictly_increases(
                    usize::BITS as nat,
                    e as nat,
                );
            }
        }
    }
}

/// The logarithm of a power of two is exact.
pub proof fn lemma_log2_of_pow2(value: int)
    requires
        is_pow2(value),
    ensures
        vstd::arithmetic::power2::pow2(spec_log2(value) as nat) == value,
    decreases value,
{
    lemma_log2_nonnegative(value);
    if value > 1 {
        lemma_pow2_halves(0, value as u64);
        assert(is_pow2(value / 2));
        lemma_log2_of_pow2(value / 2);
        lemma_log2_nonnegative(value / 2);
        vstd::arithmetic::power2::lemma_pow2_unfold(spec_log2(value) as nat);
    } else {
        vstd::arithmetic::power2::lemma2_to64();
    }
}

/// The page size is a power of two.
pub proof fn lemma_page_is_pow2()
    ensures
        is_pow2(0x1000),
{
    assert(0x1000u64 & 0xfffu64 == 0) by (bit_vector);
}

/// A field is what is left of a word when the bits below the field and above it
/// are taken away, and a bit is the field of width one.
pub proof fn law_field_is_a_part_of_its_word(word: u64, hi: u64, lo: u64)
    requires
        lo <= hi < 64,
        hi - lo < 63,
    ensures
        bit_field(word, hi, lo) == (word as int / vstd::arithmetic::power2::pow2(lo as nat) as int)
            % vstd::arithmetic::power2::pow2((hi - lo + 1) as nat) as int,
        bit_set(word, lo) <==> (word as int / vstd::arithmetic::power2::pow2(lo as nat) as int) % 2
            == 1,
{
    let width = (hi - lo + 1) as nat;
    vstd::bits::lemma_u64_shr_is_div(word, lo);
    vstd::bits::lemma_u64_pow2_no_overflow(width);
    vstd::bits::lemma_u64_shl_is_mul(1, width as u64);
    vstd::bits::lemma_u64_low_bits_mask_is_mod(word >> lo, width);
    vstd::arithmetic::power2::lemma2_to64();
    vstd::bits::lemma_u64_low_bits_mask_is_mod(word >> lo, 1);
}

/// The powers of two that fit in a word are those that are a power of two by an
/// exponent below 64.
pub proof fn law_powers_of_two_have_an_exponent(value: int, exponent: nat)
    ensures
        is_pow2(value) ==> vstd::arithmetic::power2::pow2(spec_log2(value) as nat) == value,
        exponent < 64 && value == vstd::arithmetic::power2::pow2(exponent) ==> is_pow2(value),
{
    if is_pow2(value) {
        lemma_log2_of_pow2(value);
    }
    if exponent < 64 && value == vstd::arithmetic::power2::pow2(exponent) {
        vstd::bits::lemma_u64_pow2_no_overflow(exponent);
        vstd::arithmetic::power2::lemma_pow2_pos(exponent);
        vstd::bits::lemma_u64_low_bits_mask_is_mod(value as u64, exponent);
    }
}

} // verus!
