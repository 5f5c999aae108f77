//! Bridges between the machine bit operations the transforms execute and
//! the integer arithmetic the model is written in.

use vstd::arithmetic::div_mod::lemma_fundamental_div_mod_converse;
use vstd::arithmetic::power2::{lemma2_to64, pow2};
use vstd::prelude::*;

verus! {

/// An arithmetic right shift by two bits is floor division by four.
pub proof fn lemma_shr2_is_div4(p: i16)
    ensures
        -8192 <= (p >> 2) <= 8191,
        (p >> 2) as int == (p as int) / 4,
{
    assert(-8192 <= (p >> 2) <= 8191) by (bit_vector);
    assert(4 * ((p >> 2) as int) <= p as int) by (bit_vector);
    assert((p as int) < 4 * ((p >> 2) as int) + 4) by (bit_vector);
    lemma_fundamental_div_mod_converse(
        p as int,
        4,
        (p >> 2) as int,
        p as int - 4 * ((p >> 2) as int),
    );
}

/// Complementing a byte is subtracting it from 255.
pub proof fn lemma_complement(u: u8)
    ensures
        (!u) as int == 255 - u as int,
{
    assert((!u) as int == 255 - u as int) by (bit_vector);
}

/// The low four bits of a byte, shifted up by three, are eight times its
/// residue modulo 16.
pub proof fn lemma_mantissa_base(c: u8)
    ensures
        ((c & 0xF) << 3) as int == 8 * ((c as int) % 16),
        ((c & 0xF) << 3) <= 120,
{
    assert(((c & 0xF) << 3) as int == 8 * ((c as int) % 16) && ((c & 0xF) << 3) <= 120)
        by (bit_vector);
}

/// Bits four to six of a byte are its sixteenth, modulo eight.
pub proof fn lemma_segment_bits(c: u8)
    ensures
        ((c & 0x70) >> 4) as int == ((c as int) / 16) % 8,
        ((c & 0x70) >> 4) < 8,
{
    assert(((c & 0x70) >> 4) as int == ((c as int) / 16) % 8 && ((c & 0x70) >> 4) < 8)
        by (bit_vector);
}

/// The top bit of a byte is set exactly when the byte is at least 128.
pub proof fn lemma_sign_bit(c: u8)
    ensures
        (c & 0x80 > 0) <==> (c as int >= 128),
{
    assert((c & 0x80 > 0) <==> (c as int >= 128)) by (bit_vector);
}

/// Shifting a small non-negative value left is multiplying it by the
/// power of two of the shift, with bounds that rule out overflow.
pub proof fn lemma_shl_is_mul_pow2(t: i16, s: u8)
    requires
        0 <= t <= 252,
        s < 8,
    ensures
        (t << s) as int == t as int * (pow2(s as nat) as int),
        t as int <= (t << s) as int,
        (t << s) as int <= 128 * (t as int),
{
    lemma2_to64();
    if s == 0 {
        assert((t << s) as int == 1 * (t as int)) by (bit_vector)
            requires
                0 <= t <= 252 && s == 0,
        ;
        assert(pow2(s as nat) == 1);
        assert((t << s) as int == t as int * (pow2(s as nat) as int));
    } else if s == 1 {
        assert((t << s) as int == 2 * (t as int)) by (bit_vector)
            requires
                0 <= t <= 252 && s == 1,
        ;
        assert(pow2(s as nat) == 2);
        assert((t << s) as int == t as int * (pow2(s as nat) as int));
    } else if s == 2 {
        assert((t << s) as int == 4 * (t as int)) by (bit_vector)
            requires
                0 <= t <= 252 && s == 2,
        ;
        assert(pow2(s as nat) == 4);
        assert((t << s) as int == t as int * (pow2(s as nat) as int));
    } else if s == 3 {
        assert((t << s) as int == 8 * (t as int)) by (bit_vector)
            requires
                0 <= t <= 252 && s == 3,
        ;
        assert(pow2(s as nat) == 8);
        assert((t << s) as int == t as int * (pow2(s as nat) as int));
    } else if s == 4 {
        assert((t << s) as int == 16 * (t as int)) by (bit_vector)
            requires
                0 <= t <= 252 && s == 4,
        ;
        assert(pow2(s as nat) == 16);
        assert((t << s) as int == t as int * (pow2(s as nat) as int));
    } else if s == 5 {
        assert((t << s) as int == 32 * (t as int)) by (bit_vector)
            requires
                0 <= t <= 252 && s == 5,
        ;
        assert(pow2(s as nat) == 32);
        assert((t << s) as int == t as int * (pow2(s as nat) as int));
    } else if s == 6 {
        assert((t << s) as int == 64 * (t as int)) by (bit_vector)
            requires
                0 <= t <= 252 && s == 6,
        ;
        assert(pow2(s as nat) == 64);
        assert((t << s) as int == t as int * (pow2(s as nat) as int));
    } else {
        assert(s == 7);
        assert((t << s) as int == 128 * (t as int)) by (bit_vector)
            requires
                0 <= t <= 252 && s == 7,
        ;
        assert(pow2(s as nat) == 128);
        assert((t << s) as int == t as int * (pow2(s as nat) as int));
    }
}

/// The four mantissa bits the encoder extracts — the biased magnitude
/// shifted right past the segment and masked — are the floor quotient by
/// the segment's step size, modulo 16.
pub proof fn lemma_encode_mantissa(v: i16, s: u8)
    requires
        0 <= v <= 8192,
        s < 8,
    ensures
        (((v >> (s + 1)) as u8) & 0xF) as int == ((v as int) / (pow2((s + 1) as nat) as int))
            % 16,
        (((v >> (s + 1)) as u8) & 0xF) < 16,
{
    lemma2_to64();
    assert((((v >> (s + 1)) as u8) & 0xF) < 16) by (bit_vector);
    if s == 0 {
        assert((((v >> (s + 1)) as u8) & 0xF) as int == ((v as int) / 2) % 16) by (bit_vector)
            requires
                0 <= v <= 8192 && s == 0,
        ;
        assert(pow2((s + 1) as nat) == 2);
    } else if s == 1 {
        assert((((v >> (s + 1)) as u8) & 0xF) as int == ((v as int) / 4) % 16) by (bit_vector)
            requires
                0 <= v <= 8192 && s == 1,
        ;
        assert(pow2((s + 1) as nat) == 4);
    } else if s == 2 {
        assert((((v >> (s + 1)) as u8) & 0xF) as int == ((v as int) / 8) % 16) by (bit_vector)
            requires
                0 <= v <= 8192 && s == 2,
        ;
        assert(pow2((s + 1) as nat) == 8);
    } else if s == 3 {
        assert((((v >> (s + 1)) as u8) & 0xF) as int == ((v as int) / 16) % 16) by (bit_vector)
            requires
                0 <= v <= 8192 && s == 3,
        ;
        assert(pow2((s + 1) as nat) == 16);
    } else if s == 4 {
        assert((((v >> (s + 1)) as u8) & 0xF) as int == ((v as int) / 32) % 16) by (bit_vector)
            requires
                0 <= v <= 8192 && s == 4,
        ;
        assert(pow2((s + 1) as nat) == 32);
    } else if s == 5 {
        assert((((v >> (s + 1)) as u8) & 0xF) as int == ((v as int) / 64) % 16) by (bit_vector)
            requires
                0 <= v <= 8192 && s == 5,
        ;
        assert(pow2((s + 1) as nat) == 64);
    } else if s == 6 {
        assert((((v >> (s + 1)) as u8) & 0xF) as int == ((v as int) / 128) % 16) by (bit_vector)
            requires
                0 <= v <= 8192 && s == 6,
        ;
        assert(pow2((s + 1) as nat) == 128);
    } else {
        assert(s == 7);
        assert((((v >> (s + 1)) as u8) & 0xF) as int == ((v as int) / 256) % 16) by (bit_vector)
            requires
                0 <= v <= 8192 && s == 7,
        ;
        assert(pow2((s + 1) as nat) == 256);
    }
}

/// Placing the segment in the top nibble and the mantissa in the bottom
/// one adds them as sixteens and units; the sign bit stays clear.
pub proof fn lemma_compose_code(s: u8, m: u8)
    requires
        s < 8,
        m < 16,
    ensures
        ((s << 4) | m) as int == 16 * (s as int) + (m as int),
        ((s << 4) | m) <= 0x7F,
{
    assert(((s << 4) | m) as int == 16 * (s as int) + (m as int) && ((s << 4) | m) <= 0x7F)
        by (bit_vector)
        requires
            s < 8 && m < 16,
    ;
}

/// The final inversion of a seven-bit code: against 0x7F it yields the
/// seven-bit complement, against 0xFF the full-byte complement.
pub proof fn lemma_xor_mask(x: u8)
    requires
        x <= 0x7F,
    ensures
        (x ^ 0x7F) as int == 0x7F - x as int,
        (x ^ 0xFF) as int == 0xFF - x as int,
{
    assert((x ^ 0x7F) as int == 0x7F - x as int && (x ^ 0xFF) as int == 0xFF - x as int)
        by (bit_vector)
        requires
            x <= 0x7F,
    ;
}

} // verus!
