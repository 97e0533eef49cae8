//! Reading and writing signed and unsigned bit fields of a 64-bit word.
use vstd::arithmetic::div_mod::{lemma_mod_multiples_vanish, lemma_small_mod};
use vstd::arithmetic::power2::{
    lemma2_to64, lemma2_to64_rest, lemma_pow2_adds, lemma_pow2_pos, lemma_pow2_strictly_increases,
    lemma_pow2_unfold, pow2,
};
use vstd::bits::{
    lemma_u64_low_bits_mask_is_mod, lemma_u64_shl_is_mul, lemma_u64_shr_is_div, low_bits_mask,
};
use vstd::prelude::*;

verus! {

/// Number of bits in a word.
pub const WORD_BITS: u64 = 64;

/// `n` needs no more than `width` bits as an unsigned number.
pub open spec fn fits_unsigned(n: int, width: nat) -> bool {
    0 <= n < pow2(width)
}

/// `n` lies in the closed interval `[-2^(width-1), 2^(width-1)]`.
pub open spec fn fits_signed(n: int, width: nat) -> bool {
    -(pow2((width - 1) as nat) as int) <= n <= pow2((width - 1) as nat)
}

/// The unsigned value of the bits `[lsb, lsb + width)` of `word`.
pub open spec fn field_unsigned(word: u64, width: nat, lsb: nat) -> nat {
    (word as nat / pow2(lsb)) % pow2(width)
}

/// The bits `[lsb, lsb + width)` of `word`, read as a two's-complement number.
pub open spec fn field_signed(word: u64, width: nat, lsb: nat) -> int {
    let u = field_unsigned(word, width, lsb);
    if u < pow2((width - 1) as nat) {
        u as int
    } else {
        u - pow2(width)
    }
}

/// `word` with `value` shifted to `lsb` and or-ed into it.
pub open spec fn put_unsigned(word: u64, lsb: nat, value: u64) -> u64 {
    ((value << lsb) | word) as u64
}

/// `word` with the low `width` bits of the two's complement of `value`
/// shifted to `lsb` and or-ed into it.
pub open spec fn put_signed(word: u64, width: nat, lsb: nat, value: int) -> u64 {
    put_unsigned(word, lsb, (value % pow2(width) as int) as u64)
}

/// Tells whether the signed value `n` fits in `width` bits.
pub fn fitss(n: i64, width: u64) -> (r: bool)
    requires
        1 <= width <= WORD_BITS,
    ensures
        r == fits_signed(n as int, width as nat),
{
    let half: u64 = 1u64 << (width - 1);
    proof {
        lemma_pow2_strictly_increases((width - 1) as nat, 64);
        lemma2_to64();
        lemma_u64_shl_is_mul(1, (width - 1) as u64);
    }
    (n as i128) >= -(half as i128) && (n as i128) <= (half as i128)
}

/// Tells whether the unsigned value `n` fits in `width` bits.
pub fn fitsu(n: u64, width: u64) -> (r: bool)
    requires
        width < WORD_BITS,
    ensures
        r == fits_unsigned(n as int, width as nat),
{
    proof {
        lemma_u64_shr_is_div(n, width);
        lemma_pow2_pos(width as nat);
        let p = pow2(width as nat) as int;
        assert((n as int) / p == 0 <==> (n as int) < p) by (nonlinear_arith)
            requires
                p > 0,
                n >= 0,
        ;
    }
    (n >> width) == 0
}

/// Shifting the field to the top of the word and then to the bottom is
/// shifting it to the bottom and masking its width.
#[verifier::rlimit(100)]
proof fn lemma_shift_pair_masks(word: u64, width: u64, lsb: u64, up: u64, down: u64)
    by (bit_vector)
    requires
        1 <= width < 64,
        up + width + lsb == 64,
        down + width == 64,
    ensures
        (word << up) >> down == (word >> lsb) & (((1u64 << width) - 1) as u64),
{
}

/// An arithmetic right shift that leaves `width` bits gives their unsigned
/// value when the top one is clear and that value less `2^width` when it is
/// set.
#[verifier::rlimit(100)]
proof fn lemma_arithmetic_shift_sign(x: u64, width: u64, down: u64)
    by (bit_vector)
    requires
        1 <= width < 64,
        down + width == 64,
    ensures
        (x >> down) < (1u64 << ((width - 1) as u64)) ==> ((x as i64) >> down) as int == (x
            >> down) as int,
        (x >> down) >= (1u64 << ((width - 1) as u64)) ==> ((x as i64) >> down) as int == (x
            >> down) as int - (1u64 << width) as int,
{
}

/// Shifting left then right by these amounts keeps exactly the bits of the field.
proof fn lemma_shift_pair_is_field(word: u64, width: u64, lsb: u64)
    requires
        1 <= width,
        width + lsb <= WORD_BITS,
    ensures
        (word << ((WORD_BITS - width - lsb) as u64)) >> ((WORD_BITS - width) as u64)
            == field_unsigned(word, width as nat, lsb as nat),
{
    lemma2_to64();
    if width == WORD_BITS {
        assert((word << 0u64) >> 0u64 == word) by (bit_vector);
        assert(word as nat / pow2(0) == word);
    } else {
        let x = word >> lsb;
        lemma_shift_pair_masks(word, width, lsb, (64 - width - lsb) as u64, (64 - width) as u64);
        lemma_u64_shr_is_div(word, lsb);
        lemma_pow2_strictly_increases(width as nat, 64);
        lemma_u64_shl_is_mul(1, width);
        lemma_u64_low_bits_mask_is_mod(x, width as nat);
        lemma_pow2_pos(width as nat);
        assert(((1u64 << width) - 1) as u64 == low_bits_mask(width as nat) as u64);
    }
}

/// Reads the unsigned field of `width` bits that starts at bit `lsb` of `word`.
pub fn getu(word: u64, width: u64, lsb: u64) -> (r: u64)
    requires
        1 <= width,
        width + lsb <= WORD_BITS,
    ensures
        r == field_unsigned(word, width as nat, lsb as nat),
{
    proof {
        lemma_shift_pair_is_field(word, width, lsb);
    }
    word << (WORD_BITS - width - lsb) >> (WORD_BITS - width)
}

/// Reads the field of `width` bits that starts at bit `lsb` of `word` as a
/// two's-complement number: the final shift copies the sign bit.
pub fn gets(word: u64, width: u64, lsb: u64) -> (r: i64)
    requires
        1 <= width,
        width + lsb <= WORD_BITS,
    ensures
        r == field_signed(word, width as nat, lsb as nat),
{
    let up: u64 = WORD_BITS - width - lsb;
    let down: u64 = WORD_BITS - width;
    let x: u64 = word << up;
    proof {
        lemma_shift_pair_is_field(word, width, lsb);
        lemma2_to64();
        if width == WORD_BITS {
            lemma2_to64_rest();
            assert((word << 0u64) >> 0u64 == word) by (bit_vector);
            assert(((word << 0u64) as i64) >> 0u64 == word as i64) by (bit_vector);
            assert(word < 0x8000_0000_0000_0000u64 ==> (word as i64) as int == word as int)
                by (bit_vector);
            assert(word >= 0x8000_0000_0000_0000u64 ==> (word as i64) as int == word as int
                - 0x1_0000_0000_0000_0000int) by (bit_vector);
        } else {
            lemma_arithmetic_shift_sign(x, width, down);
            lemma_pow2_strictly_increases(width as nat, 64);
            lemma_pow2_pos(width as nat);
            lemma_u64_shl_is_mul(1, width);
            lemma_pow2_strictly_increases((width - 1) as nat, 64);
            lemma_u64_shl_is_mul(1, (width - 1) as u64);
        }
    }
    (x as i64) >> down
}

/// Writes the unsigned `value` into the field of `width` bits that starts at
/// bit `lsb` of `word`, or gives `None` when it does not fit. The field's bits
/// are or-ed in, not cleared first.
pub fn newu(word: u64, width: u64, lsb: u64, value: u64) -> (r: Option<u64>)
    requires
        width < WORD_BITS,
        lsb < WORD_BITS,
    ensures
        r == if fits_unsigned(value as int, width as nat) {
            Some(put_unsigned(word, lsb as nat, value))
        } else {
            None::<u64>
        },
{
    if fitsu(value, width) {
        return Some((value << lsb) | word);
    }
    None
}

/// The low `width` bits of `value`, as an unsigned number.
proof fn lemma_two_complement_bits(value: i64, width: nat)
    requires
        1 <= width <= 64,
    ensures
        (value as u64) as int % pow2(width) as int == value as int % pow2(width) as int,
{
    lemma2_to64();
    lemma_pow2_pos(width);
    assert(value >= 0 ==> (value as u64) as int == value as int) by (bit_vector);
    assert(value < 0 ==> (value as u64) as int == value as int + 0x1_0000_0000_0000_0000int)
        by (bit_vector);
    if value < 0 {
        lemma_pow2_adds(width, (64 - width) as nat);
        lemma_pow2_pos((64 - width) as nat);
        lemma_mod_multiples_vanish(pow2((64 - width) as nat) as int, value as int, pow2(width) as int);
        assert(pow2(width) * pow2((64 - width) as nat) == 0x1_0000_0000_0000_0000int);
    }
}

/// Writes the signed `value` into the field of `width` bits that starts at
/// bit `lsb` of `word`, in two's complement, or gives `None` when it does not
/// fit. The field's bits are or-ed in, not cleared first.
pub fn news(word: u64, width: u64, lsb: u64, value: i64) -> (r: Option<u64>)
    requires
        1 <= width <= WORD_BITS,
        lsb < WORD_BITS,
    ensures
        r == if fits_signed(value as int, width as nat) {
            Some(put_signed(word, width as nat, lsb as nat, value as int))
        } else {
            None::<u64>
        },
{
    if fitss(value, width) {
        let mask: u64 = if width == WORD_BITS {
            u64::MAX
        } else {
            proof {
                lemma_pow2_strictly_increases(width as nat, 64);
                lemma2_to64();
                lemma_u64_shl_is_mul(1, width);
                lemma_pow2_pos(width as nat);
            }
            (1u64 << width) - 1
        };
        let bits: u64 = (#[verifier::truncate] (value as u64)) & mask;
        proof {
            lemma_two_complement_bits(value, width as nat);
            lemma_pow2_pos(width as nat);
            lemma2_to64();
            if width == WORD_BITS {
                assert((value as u64) & 0xffff_ffff_ffff_ffffu64 == value as u64) by (bit_vector);
            } else {
                lemma_u64_low_bits_mask_is_mod(value as u64, width as nat);
            }
        }
        return Some((bits << lsb) | word);
    }
    None
}

/// Writing a fitting unsigned value into the low field of an empty word and
/// reading the field back gives the value.
pub proof fn lemma_unsigned_field_round_trip(width: nat, value: u64)
    requires
        1 <= width <= 63,
        fits_unsigned(value as int, width),
    ensures
        field_unsigned(put_unsigned(0, 0, value), width, 0) == value,
{
    lemma2_to64();
    assert((value << 0u64) | 0u64 == value) by (bit_vector);
    assert(value as nat / pow2(0) == value);
    lemma_small_mod(value as nat, pow2(width));
}

/// Writing a signed value into the low field of an empty word and reading the
/// field back gives the value, for every value in the two's-complement range
/// of the field. The one value that fits but lies above that range,
/// `2^(width-1)`, reads back as `-2^(width-1)`.
pub proof fn lemma_signed_field_round_trip(width: nat, value: int)
    requires
        1 <= width <= 63,
        fits_signed(value, width),
        value < pow2((width - 1) as nat),
    ensures
        field_signed(put_signed(0, width, 0, value), width, 0) == value,
{
    lemma2_to64();
    lemma_pow2_unfold(width);
    lemma_pow2_strictly_increases(width, 64);
    let p = pow2(width) as int;
    let m = value % p;
    assert(0 <= m < p);
    if value >= 0 {
        lemma_small_mod(value as nat, p as nat);
    } else {
        lemma_mod_multiples_vanish(1, value, p);
        lemma_small_mod((value + p) as nat, p as nat);
        assert(m == value + p);
    }
    let v = m as u64;
    assert((v << 0u64) | 0u64 == v) by (bit_vector);
    assert(v as nat / pow2(0) == v);
    lemma_small_mod(v as nat, pow2(width));
}

} // verus!
