//! µ-law (ITU-T G.711) companding: conversion between 16-bit linear PCM
//! samples and 8-bit µ-law codes.
//!
//! The transform is pure and total: every 16-bit sample encodes to a valid
//! code and every byte decodes to a 16-bit sample. `linear2ulaw` and
//! `ulaw2linear` carry exact contracts against the arithmetic model in
//! [`model`]; the properties of the companding curve (totality, round-trip
//! monotonicity, boundary saturation, segment-search behaviour) are proved
//! in [`laws`].

mod bits;
pub mod laws;
pub mod model;

use crate::bits::{
    lemma_complement, lemma_compose_code, lemma_encode_mantissa, lemma_mantissa_base,
    lemma_segment_bits, lemma_shl_is_mul_pow2, lemma_shr2_is_div4, lemma_sign_bit,
    lemma_xor_mask,
};
use crate::laws::lemma_least_index_is_segment;
use crate::model::{decoded, encoded, seg_table, segment_of};
use vstd::prelude::*;

verus! {

/// Mask of the four mantissa bits of a code.
pub const QUANT_MASK: u8 = 0xF;

/// The µ-law bias: the segment-0 floor added back by the decoder.
pub const BIAS: u8 = 0x84;

/// Mask of the three segment bits of a code.
pub const SEG_MASK: u8 = 0x70;

/// Position of the segment bits within a code.
pub const SEG_SHIFT: u8 = 4;

/// Mask of the sign bit of a code.
pub const SIGN_BIT: u8 = 0x80;

/// Saturation level for the shifted magnitude.
pub const CLIP: i16 = 8159;

/// Number of entries in the segment table.
pub const SEG_UEND_SIZE: usize = 8;

/// The fixed table of segment upper bounds, as the encoder passes it to
/// [`search`].
pub fn seg_uend() -> (t: [i16; SEG_UEND_SIZE])
    ensures
        t@ == seg_table(),
{
    let t: [i16; SEG_UEND_SIZE] = [0x3F, 0x7F, 0xFF, 0x1FF, 0x3FF, 0x7FF, 0xFFF, 0x1FFF];
    proof {
        assert(t@ =~= seg_table());
    }
    t
}

/// Linear scan for the first table entry that is at least `val`; returns
/// the table size (8) when every entry is below `val`. Ties go to the
/// lower index. Over the fixed segment table the result is exactly
/// [`segment_of`].
pub fn search(val: i16, table: [i16; SEG_UEND_SIZE], size: usize) -> (r: u8)
    requires
        size == SEG_UEND_SIZE,
    ensures
        r <= 8,
        forall|j: int| 0 <= j < r ==> table@[j] < val,
        r < 8 ==> val <= table@[r as int],
        table@ == seg_table() ==> r as int == segment_of(val as int),
{
    let mut i: usize = 0;
    while i < size
        invariant
            i <= SEG_UEND_SIZE,
            size == SEG_UEND_SIZE,
            forall|j: int| 0 <= j < i ==> table@[j] < val,
        decreases SEG_UEND_SIZE - i,
    {
        if val <= table[i] {
            proof {
                if table@ == seg_table() {
                    lemma_least_index_is_segment(val as int, i as int);
                }
            }
            return i as u8;
        }
        i += 1;
    }
    proof {
        if table@ == seg_table() {
            lemma_least_index_is_segment(val as int, 8);
        }
    }
    size as u8
}

/// Expand an 8-bit µ-law code to the linear PCM sample it stands for.
/// The result is exactly the model's expansion: complement the byte,
/// rebuild the biased base from the mantissa, scale it into the segment,
/// and apply the standard's asymmetric sign convention.
pub fn ulaw2linear(u_val: u8) -> (r: i16)
    ensures
        r as int == decoded(u_val),
{
    let c: u8 = !u_val;
    proof {
        lemma_complement(u_val);
        lemma_mantissa_base(c);
        lemma_segment_bits(c);
        lemma_sign_bit(c);
    }
    let t: i16 = (((c & QUANT_MASK) << 3) + BIAS) as i16;
    let shiftval: u8 = (c & SEG_MASK) >> SEG_SHIFT;
    proof {
        lemma_shl_is_mul_pow2(t, shiftval);
    }
    let t: i16 = t << shiftval;
    if c & SIGN_BIT > 0 {
        (BIAS as i16) - t
    } else {
        t - (BIAS as i16)
    }
}

/// Compress a 16-bit linear PCM sample to an 8-bit µ-law code. The code
/// is exactly the model's encoding: the sample loses its two low bits to
/// an arithmetic shift, its magnitude is clipped at [`CLIP`] and biased,
/// the segment is looked up in the fixed table, and segment and mantissa
/// are packed and inverted through the sign-dependent mask.
pub fn linear2ulaw(pcm_val: i16) -> (r: u8)
    ensures
        r == encoded(pcm_val),
{
    proof {
        lemma_shr2_is_div4(pcm_val);
    }
    let shifted_val: i16 = pcm_val >> 2;
    let mut mask: u8 = 0;
    let mut val: i16;
    if shifted_val < 0 {
        val = -shifted_val;
        mask = 0x7F;
    } else {
        val = shifted_val;
        mask = 0xFF;
    }
    if val > CLIP {
        val = CLIP;
    }
    proof {
        assert(BIAS >> 2 == 33) by (bit_vector);
    }
    let val: i16 = val + ((BIAS >> 2) as i16);
    let seg: u8 = search(val, seg_uend(), SEG_UEND_SIZE);
    if seg >= 8 {
        proof {
            lemma_xor_mask(0x7F);
        }
        0x7F ^ mask
    } else {
        proof {
            lemma_encode_mantissa(val, seg);
        }
        let mant: u8 = ((val >> (seg + 1)) as u8) & QUANT_MASK;
        proof {
            lemma_compose_code(seg, mant);
        }
        let uval: u8 = (seg << 4) | mant;
        proof {
            lemma_xor_mask(uval);
        }
        uval ^ mask
    }
}

} // verus!
