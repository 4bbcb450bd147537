use vstd::prelude::*;
use vstd::arithmetic::power2::lemma2_to64;
use crate::bitpack::{
    fits_signed, fits_unsigned, field_s, field_u, gets, getu, insert_signed, insert_unsigned,
    lemma_field, low_mask, news, newu, twos_complement,
};

verus! {

/// The six quantized fields of one 2x2 block.
pub open spec fn block_fits(a: int, b: int, c: int, d: int, pb: int, pr: int) -> bool {
    &&& fits_unsigned(a, 9)
    &&& fits_signed(b, 5)
    &&& fits_signed(c, 5)
    &&& fits_signed(d, 5)
    &&& fits_unsigned(pb, 4)
    &&& fits_unsigned(pr, 4)
}

/// The codeword layout: starting from a zero word, `a` at bits 23..32, `b`, `c`, `d`
/// signed at 18, 13 and 8 (five bits each), `pb` at 4 and `pr` at 0 (four bits each).
pub open spec fn pack_word(a: u64, b: int, c: int, d: int, pb: u64, pr: u64) -> u64 {
    let w = insert_unsigned(0, 9, 23, a);
    let w = insert_signed(w, 5, 18, b);
    let w = insert_signed(w, 5, 13, c);
    let w = insert_signed(w, 5, 8, d);
    let w = insert_unsigned(w, 4, 4, pb);
    insert_unsigned(w, 4, 0, pr)
}

/// The six fields that a codeword holds, read back with the codeword layout.
pub open spec fn word_fields(w: u32) -> (int, int, int, int, int, int) {
    (
        field_u(w as u64, 9, 23) as int,
        field_s(w as u64, 5, 18),
        field_s(w as u64, 5, 13),
        field_s(w as u64, 5, 8),
        field_u(w as u64, 4, 4) as int,
        field_u(w as u64, 4, 0) as int,
    )
}

/// Packing six fields that fit the layout and reading the codeword back gives
/// the same six fields; the packed word never exceeds 32 bits.
pub proof fn lemma_unpack_pack(a: u64, b: i64, c: i64, d: i64, pb: u64, pr: u64)
    requires
        block_fits(a as int, b as int, c as int, d as int, pb as int, pr as int),
    ensures
        pack_word(a, b as int, c as int, d as int, pb, pr) <= u32::MAX,
        word_fields(pack_word(a, b as int, c as int, d as int, pb, pr) as u32) == (
            a as int,
            b as int,
            c as int,
            d as int,
            pb as int,
            pr as int,
        ),
{
    lemma2_to64();
    let eb = twos_complement(b as int, 5);
    let ec = twos_complement(c as int, 5);
    let ed = twos_complement(d as int, 5);
    assert(low_mask(9) == 511u64);
    assert(low_mask(5) == 31u64);
    assert(low_mask(4) == 15u64);
    let w1 = insert_unsigned(0, 9, 23, a);
    let w2 = insert_unsigned(w1, 5, 18, eb);
    let w3 = insert_unsigned(w2, 5, 13, ec);
    let w4 = insert_unsigned(w3, 5, 8, ed);
    let w5 = insert_unsigned(w4, 4, 4, pb);
    let w = insert_unsigned(w5, 4, 0, pr);
    assert(w == pack_word(a, b as int, c as int, d as int, pb, pr));
    assert(w <= 0xffff_ffffu64 && ((w >> 23u64) & 511u64) == a && ((w >> 18u64) & 31u64) == eb
        && ((w >> 13u64) & 31u64) == ec && ((w >> 8u64) & 31u64) == ed && ((w >> 4u64) & 15u64)
        == pb && ((w >> 0u64) & 15u64) == pr) by (bit_vector)
        requires
            w1 == (0u64 & !(511u64 << 23u64)) | (a << 23u64),
            w2 == (w1 & !(31u64 << 18u64)) | (eb << 18u64),
            w3 == (w2 & !(31u64 << 13u64)) | (ec << 13u64),
            w4 == (w3 & !(31u64 << 8u64)) | (ed << 8u64),
            w5 == (w4 & !(15u64 << 4u64)) | (pb << 4u64),
            w == (w5 & !(15u64 << 0u64)) | (pr << 0u64),
            a <= 511u64,
            eb <= 31u64,
            ec <= 31u64,
            ed <= 31u64,
            pb <= 15u64,
            pr <= 15u64,
    ;
    assert((w as u32) as u64 == w);
    lemma_field(w, 9, 23);
    lemma_field(w, 5, 18);
    lemma_field(w, 5, 13);
    lemma_field(w, 5, 8);
    lemma_field(w, 4, 4);
    lemma_field(w, 4, 0);
}

/// Packs values a, b, c, d, pb and pr into a 32-bit codeword, or returns `None`
/// iff one of them does not fit its field.
pub fn pack_block(a: u64, b: i64, c: i64, d: i64, pb: u64, pr: u64) -> (r: Option<u32>)
    ensures
        r.is_some() == block_fits(a as int, b as int, c as int, d as int, pb as int, pr as int),
        r matches Some(w) ==> w as u64 == pack_word(a, b as int, c as int, d as int, pb, pr)
            && word_fields(w) == (a as int, b as int, c as int, d as int, pb as int, pr as int),
{
    proof {
        lemma2_to64();
    }
    let word = 0u64;
    let word = match newu(word, 9, 23, a) {
        Some(w) => w,
        None => return None,
    };
    let word = match news(word, 5, 18, b) {
        Some(w) => w,
        None => return None,
    };
    let word = match news(word, 5, 13, c) {
        Some(w) => w,
        None => return None,
    };
    let word = match news(word, 5, 8, d) {
        Some(w) => w,
        None => return None,
    };
    let word = match newu(word, 4, 4, pb) {
        Some(w) => w,
        None => return None,
    };
    let word = match newu(word, 4, 0, pr) {
        Some(w) => w,
        None => return None,
    };
    proof {
        lemma_unpack_pack(a, b, c, d, pb, pr);
    }
    Some(word as u32)
}

/// Unpacks a 32-bit codeword into its six fields, in the order a, b, c, d, pb, pr.
pub fn unpack_block(packed_word: u32) -> (r: (
    Option<u64>,
    Option<i64>,
    Option<i64>,
    Option<i64>,
    Option<u64>,
    Option<u64>,
))
    ensures
        r.0 matches Some(v) && v as int == word_fields(packed_word).0,
        r.1 matches Some(v) && v as int == word_fields(packed_word).1,
        r.2 matches Some(v) && v as int == word_fields(packed_word).2,
        r.3 matches Some(v) && v as int == word_fields(packed_word).3,
        r.4 matches Some(v) && v as int == word_fields(packed_word).4,
        r.5 matches Some(v) && v as int == word_fields(packed_word).5,
{
    let w = packed_word as u64;
    let a = getu(w, 9, 23);
    let b = gets(w, 5, 18);
    let c = gets(w, 5, 13);
    let d = gets(w, 5, 8);
    let pb = getu(w, 4, 4);
    let pr = getu(w, 4, 0);
    (a, b, c, d, pb, pr)
}

} // verus!
