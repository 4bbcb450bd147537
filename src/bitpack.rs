use vstd::prelude::*;
use vstd::arithmetic::power2::{pow2, lemma2_to64, lemma2_to64_rest, lemma_pow2_unfold};
use vstd::bits::{lemma_u64_shl_is_mul, lemma_u64_shr_is_div, lemma_u64_low_bits_mask_is_mod, lemma_u64_pow2_no_overflow};
use vstd::arithmetic::div_mod::lemma_small_mod;

verus! {

/// A bit span (width, lsb) that lies inside a 64-bit word.
pub open spec fn valid_span(width: nat, lsb: nat) -> bool {
    0 < width <= 64 && lsb + width <= 64
}

/// True iff `n` lies in the range of a two's-complement field of `width` bits.
pub open spec fn fits_signed(n: int, width: nat) -> bool {
    width > 0 && -pow2((width - 1) as nat) <= n && n < pow2((width - 1) as nat)
}

/// True iff `n` lies in the range of an unsigned field of `width` bits.
pub open spec fn fits_unsigned(n: int, width: nat) -> bool {
    0 <= n < pow2(width)
}

/// The unsigned value held by the `width` bits of `word` starting at bit `lsb`.
pub open spec fn field_u(word: u64, width: nat, lsb: nat) -> nat {
    ((word as nat / pow2(lsb)) % pow2(width)) as nat
}

/// The same field read as a two's-complement number: a set top bit makes it negative.
pub open spec fn field_s(word: u64, width: nat, lsb: nat) -> int {
    let u = field_u(word, width, lsb);
    if u >= pow2((width - 1) as nat) {
        u - pow2(width)
    } else {
        u as int
    }
}

/// Bit `i` of `w`.
pub open spec fn bit(w: u64, i: nat) -> bool {
    (w as nat / pow2(i)) % 2 == 1
}

/// `new` agrees with `old` on every bit outside the span (width, lsb).
pub open spec fn keeps_outside(old: u64, new: u64, width: nat, lsb: nat) -> bool {
    forall|i: nat| i < 64 && !(lsb <= i < lsb + width) ==> #[trigger] bit(new, i) == bit(old, i)
}

/// A word whose low `width` bits are set and all others clear.
pub open spec fn low_mask(width: nat) -> u64 {
    (pow2(width) - 1) as u64
}

/// `word` with the bits of the span cleared and then set to `value`.
pub open spec fn insert_unsigned(word: u64, width: nat, lsb: nat, value: u64) -> u64 {
    (word & !(low_mask(width) << (lsb as u64))) | (value << (lsb as u64))
}

/// The low `width` bits of the two's-complement representation of `value`.
pub open spec fn twos_complement(value: int, width: nat) -> u64 {
    if value >= 0 {
        value as u64
    } else {
        (pow2(width) + value) as u64
    }
}

/// `word` with the span cleared and then set to the field encoding of the signed `value`.
pub open spec fn insert_signed(word: u64, width: nat, lsb: nat, value: int) -> u64 {
    insert_unsigned(word, width, lsb, twos_complement(value, width))
}

proof fn lemma_pow2_bounds(k: nat)
    requires
        k <= 64,
    ensures
        pow2(k) > 0,
        k < 64 ==> pow2(k) <= u64::MAX,
        k == 64 ==> pow2(k) == u64::MAX + 1,
        k > 0 ==> pow2(k) == 2 * pow2((k - 1) as nat),
{
    lemma2_to64();
    lemma2_to64_rest();
    if k < 64 {
        lemma_u64_pow2_no_overflow(k);
    }
    if k > 0 {
        lemma_pow2_unfold(k);
    }
}

proof fn lemma_one_shl(k: u64)
    requires
        k < 64,
    ensures
        (1u64 << k) == pow2(k as nat),
{
    lemma_u64_pow2_no_overflow(k as nat);
    lemma_u64_shl_is_mul(1, k);
}

/// Bit `i` of `x` in terms of shifts.
proof fn lemma_bit(x: u64, i: u64)
    requires
        i < 64,
    ensures
        bit(x, i as nat) == (((x >> i) & 1u64) == 1u64),
{
    lemma_u64_shr_is_div(x, i);
    let y = x >> i;
    assert(y & 1u64 == y % 2) by (bit_vector);
}

/// The field of `word` in terms of shifts and masks.
pub proof fn lemma_field(word: u64, width: u64, lsb: u64)
    requires
        valid_span(width as nat, lsb as nat),
    ensures
        field_u(word, width as nat, lsb as nat) == ((word >> lsb) & low_mask(width as nat)),
        low_mask(width as nat) == pow2(width as nat) - 1,
{
    lemma_pow2_bounds(width as nat);
    lemma_u64_shr_is_div(word, lsb);
    let x = word >> lsb;
    if width == 64 {
        lemma_small_mod(x as nat, pow2(64));
        assert(low_mask(64) == 0xffff_ffff_ffff_ffffu64);
        assert(x & 0xffff_ffff_ffff_ffffu64 == x) by (bit_vector);
    } else {
        lemma_u64_low_bits_mask_is_mod(x, width as nat);
    }
}

/// Inserting an in-range value and reading the span back gives the value,
/// and every bit outside the span keeps its value from the original word.
pub proof fn lemma_extract_insert_unsigned(word: u64, width: u64, lsb: u64, value: u64)
    requires
        valid_span(width as nat, lsb as nat),
        fits_unsigned(value as int, width as nat),
    ensures
        field_u(insert_unsigned(word, width as nat, lsb as nat, value), width as nat, lsb as nat)
            == value,
        keeps_outside(word, insert_unsigned(word, width as nat, lsb as nat, value), width as nat, lsb as nat),
{
    let r = insert_unsigned(word, width as nat, lsb as nat, value);
    let m = low_mask(width as nat);
    lemma_field(r, width, lsb);
    if width < 64 {
        lemma_one_shl(width);
        assert(m == (1u64 << width) - 1u64);
        assert(((r >> lsb) & m) == value) by (bit_vector)
            requires
                r == (word & !(m << lsb)) | (value << lsb),
                m == (1u64 << width) - 1u64,
                value <= m,
                width < 64,
                lsb + width <= 64,
        ;
    } else {
        lemma_pow2_bounds(64);
        assert(m == 0xffff_ffff_ffff_ffffu64);
        assert(((r >> lsb) & m) == value) by (bit_vector)
            requires
                r == (word & !(m << lsb)) | (value << lsb),
                m == 0xffff_ffff_ffff_ffffu64,
                lsb == 0,
        ;
    }
    assert forall|i: nat| i < 64 && !(lsb <= i < lsb + width) implies #[trigger] bit(r, i) == bit(word, i) by {
        let k = i as u64;
        lemma_bit(r, k);
        lemma_bit(word, k);
        if width < 64 {
            assert(((r >> k) & 1u64) == ((word >> k) & 1u64)) by (bit_vector)
                requires
                    r == (word & !(m << lsb)) | (value << lsb),
                    m == (1u64 << width) - 1u64,
                    value <= m,
                    width < 64,
                    lsb + width <= 64,
                    k < 64,
                    k < lsb || k >= lsb + width,
            ;
        }
    }
}

/// Inserting an in-range signed value and reading the span back as signed gives
/// the value, and every bit outside the span keeps its value from the original word.
pub proof fn lemma_extract_insert_signed(word: u64, width: u64, lsb: u64, value: i64)
    requires
        valid_span(width as nat, lsb as nat),
        fits_signed(value as int, width as nat),
    ensures
        field_s(insert_signed(word, width as nat, lsb as nat, value as int), width as nat, lsb as nat)
            == value,
        keeps_outside(word, insert_signed(word, width as nat, lsb as nat, value as int), width as nat, lsb as nat),
{
    lemma_pow2_bounds(width as nat);
    let enc = twos_complement(value as int, width as nat);
    lemma_extract_insert_unsigned(word, width, lsb, enc);
}

/// The field mask `pow2(width) - 1` as a machine word.
fn mask_of(width: u64) -> (m: u64)
    requires
        0 < width <= 64,
    ensures
        m == low_mask(width as nat),
        m as int == pow2(width as nat) - 1,
{
    proof {
        lemma_pow2_bounds(width as nat);
    }
    if width == 64 {
        u64::MAX
    } else {
        proof {
            lemma_one_shl(width);
        }
        (1u64 << width) - 1
    }
}

/// Returns true iff the signed value `n` fits into `width` signed bits.
pub fn fitss(n: i64, width: u64) -> (r: bool)
    requires
        0 < width <= 64,
    ensures
        r == fits_signed(n as int, width as nat),
{
    proof {
        lemma_pow2_bounds(width as nat);
        lemma_pow2_bounds((width - 1) as nat);
        lemma_one_shl((width - 1) as u64);
    }
    if width == 64 {
        proof {
            lemma2_to64_rest();
        }
        true
    } else {
        let half: u64 = 1u64 << (width - 1);
        proof {
            vstd::arithmetic::power2::lemma_pow2_strictly_increases((width - 1) as nat, 63);
            lemma2_to64_rest();
        }
        let h = half as i64;
        -h <= n && n < h
    }
}

/// Returns true iff the unsigned value `n` fits into `width` unsigned bits.
pub fn fitsu(n: u64, width: u64) -> (r: bool)
    requires
        0 < width <= 64,
    ensures
        r == fits_unsigned(n as int, width as nat),
{
    let m = mask_of(width);
    n <= m
}

/// Retrieves the signed value held by the `width` bits of `word` starting at `lsb`.
pub fn gets(word: u64, width: u64, lsb: u64) -> (r: Option<i64>)
    requires
        valid_span(width as nat, lsb as nat),
    ensures
        r matches Some(v) && v == field_s(word, width as nat, lsb as nat),
{
    let m = mask_of(width);
    let val = (word >> lsb) & m;
    proof {
        lemma_field(word, width, lsb);
        lemma_pow2_bounds(width as nat);
        lemma_pow2_bounds((width - 1) as nat);
        lemma_one_shl((width - 1) as u64);
    }
    let half: u64 = 1u64 << (width - 1);
    if val >= half {
        let gap = m - val;
        Some(-(gap as i64) - 1)
    } else {
        Some(val as i64)
    }
}

/// Retrieves the unsigned value held by the `width` bits of `word` starting at `lsb`.
pub fn getu(word: u64, width: u64, lsb: u64) -> (r: Option<u64>)
    requires
        valid_span(width as nat, lsb as nat),
    ensures
        r matches Some(v) && v == field_u(word, width as nat, lsb as nat),
{
    let m = mask_of(width);
    proof {
        lemma_field(word, width, lsb);
    }
    Some((word >> lsb) & m)
}

/// Returns `word` with the span (width, lsb) replaced by the unsigned `value`,
/// or `None` iff the value does not fit in `width` unsigned bits.
pub fn newu(word: u64, width: u64, lsb: u64, value: u64) -> (r: Option<u64>)
    requires
        valid_span(width as nat, lsb as nat),
    ensures
        r.is_some() == fits_unsigned(value as int, width as nat),
        r matches Some(w) ==> w == insert_unsigned(word, width as nat, lsb as nat, value)
            && field_u(w, width as nat, lsb as nat) == value
            && keeps_outside(word, w, width as nat, lsb as nat),
{
    if !fitsu(value, width) {
        return None;
    }
    let m = mask_of(width);
    let clear_mask = !(m << lsb);
    proof {
        lemma_extract_insert_unsigned(word, width, lsb, value);
    }
    Some((word & clear_mask) | (value << lsb))
}

/// Returns `word` with the span (width, lsb) replaced by the two's-complement
/// encoding of `value`, or `None` iff the value does not fit in `width` signed bits.
pub fn news(word: u64, width: u64, lsb: u64, value: i64) -> (r: Option<u64>)
    requires
        valid_span(width as nat, lsb as nat),
    ensures
        r.is_some() == fits_signed(value as int, width as nat),
        r matches Some(w) ==> w == insert_signed(word, width as nat, lsb as nat, value as int)
            && field_s(w, width as nat, lsb as nat) == value
            && keeps_outside(word, w, width as nat, lsb as nat),
{
    if !fitss(value, width) {
        return None;
    }
    let m = mask_of(width);
    proof {
        lemma_pow2_bounds(width as nat);
        lemma_extract_insert_signed(word, width, lsb, value);
    }
    let enc: u64 = if value >= 0 {
        value as u64
    } else {
        m - ((-(value + 1)) as u64)
    };
    let clear_mask = !(m << lsb);
    Some((word & clear_mask) | (enc << lsb))
}

} // verus!
