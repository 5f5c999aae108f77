//! Proved properties of the companding curve.

use crate::model::{
    biased, decoded, encoded, is_negative, magnitude, raw_code, seg_table, segment_of,
    shifted,
};
use vstd::arithmetic::div_mod::{lemma_div_is_ordered, lemma_fundamental_div_mod_converse};
use vstd::arithmetic::mul::{lemma_mul_inequality, lemma_mul_upper_bound};
use vstd::arithmetic::power2::{
    lemma2_to64, lemma_pow2_adds, lemma_pow2_pos, lemma_pow2_strictly_increases, pow2,
};
use vstd::prelude::*;

verus! {

/// The linear step a complemented byte `c` expands to before the sign is
/// applied: the decoder's `(8 * mantissa + 132) << segment`.
spec fn code_expand(c: int) -> int {
    (8 * (c % 16) + 132) * (pow2(((c / 16) % 8) as nat) as int)
}

/// The step the decoder rebuilds for the biased magnitude `v` after a
/// round trip through the encoder's data bits.
spec fn expand_mag(v: int) -> int {
    code_expand(raw_code(v))
}

/// A least-index bound search over the fixed segment table agrees with
/// [`segment_of`]: whatever index satisfies the first-match conditions is
/// the segment of the value, so ties at a threshold fall to that
/// threshold's own index and anything above the last threshold yields the
/// sentinel 8.
pub proof fn lemma_least_index_is_segment(val: int, r: int)
    requires
        0 <= r <= 8,
        forall|j: int| 0 <= j < r ==> seg_table()[j] < val,
        r < 8 ==> val <= seg_table()[r],
    ensures
        r == segment_of(val),
{
    assert(seg_table()[0] == 0x3F);
    assert(seg_table()[1] == 0x7F);
    assert(seg_table()[2] == 0xFF);
    assert(seg_table()[3] == 0x1FF);
    assert(seg_table()[4] == 0x3FF);
    assert(seg_table()[5] == 0x7FF);
    assert(seg_table()[6] == 0xFFF);
    assert(seg_table()[7] == 0x1FFF);
    if r > 0 {
        assert(seg_table()[r - 1] < val);
    }
}

/// Any value above the last segment bound searches to the out-of-range
/// sentinel.
pub proof fn lemma_segment_sentinel(v: int)
    requires
        v > 0x1FFF,
    ensures
        segment_of(v) == 8,
{
}

/// A value exactly equal to a segment bound falls in that segment, not
/// the next one.
pub proof fn lemma_segment_at_bound(k: int)
    requires
        0 <= k < 8,
    ensures
        segment_of(seg_table()[k] as int) == k,
{
    assert(seg_table()[0] == 0x3F);
    assert(seg_table()[1] == 0x7F);
    assert(seg_table()[2] == 0xFF);
    assert(seg_table()[3] == 0x1FF);
    assert(seg_table()[4] == 0x3FF);
    assert(seg_table()[5] == 0x7FF);
    assert(seg_table()[6] == 0xFFF);
    assert(seg_table()[7] == 0x1FFF);
}

/// Concrete values of the small powers of two the segments scale by.
proof fn lemma_pow2_small(s: int)
    requires
        0 <= s <= 7,
    ensures
        1 <= pow2(s as nat) <= 128,
{
    lemma2_to64();
    if s == 0 {
        assert(pow2(s as nat) == 1);
    } else if s == 1 {
        assert(pow2(s as nat) == 2);
    } else if s == 2 {
        assert(pow2(s as nat) == 4);
    } else if s == 3 {
        assert(pow2(s as nat) == 8);
    } else if s == 4 {
        assert(pow2(s as nat) == 16);
    } else if s == 5 {
        assert(pow2(s as nat) == 32);
    } else if s == 6 {
        assert(pow2(s as nat) == 64);
    } else {
        assert(pow2(s as nat) == 128);
    }
}

/// Inside the table's range the data bits decompose exactly: the floor
/// quotient of the biased magnitude by the segment's step lies in
/// [16, 31], and the code is the segment in the top nibble plus that
/// quotient less its leading bit in the bottom one.
proof fn lemma_raw_code_structure(v: int)
    requires
        33 <= v <= 8191,
    ensures
        0 <= segment_of(v) < 8,
        16 <= v / (pow2((segment_of(v) + 1) as nat) as int) <= 31,
        raw_code(v) == 16 * segment_of(v) + (v / (pow2((segment_of(v) + 1) as nat) as int) - 16),
{
    lemma2_to64();
    let s = segment_of(v);
    let p = pow2((s + 1) as nat) as int;
    if s == 0 {
        assert(p == 2);
        lemma_div_is_ordered(33, v, 2);
        lemma_div_is_ordered(v, 63, 2);
    } else if s == 1 {
        assert(p == 4);
        lemma_div_is_ordered(64, v, 4);
        lemma_div_is_ordered(v, 127, 4);
    } else if s == 2 {
        assert(p == 8);
        lemma_div_is_ordered(128, v, 8);
        lemma_div_is_ordered(v, 255, 8);
    } else if s == 3 {
        assert(p == 16);
        lemma_div_is_ordered(256, v, 16);
        lemma_div_is_ordered(v, 511, 16);
    } else if s == 4 {
        assert(p == 32);
        lemma_div_is_ordered(512, v, 32);
        lemma_div_is_ordered(v, 1023, 32);
    } else if s == 5 {
        assert(p == 64);
        lemma_div_is_ordered(1024, v, 64);
        lemma_div_is_ordered(v, 2047, 64);
    } else if s == 6 {
        assert(p == 128);
        lemma_div_is_ordered(2048, v, 128);
        lemma_div_is_ordered(v, 4095, 128);
    } else {
        assert(s == 7);
        assert(p == 256);
        lemma_div_is_ordered(4096, v, 256);
        lemma_div_is_ordered(v, 8191, 256);
    }
    let d = v / p;
    assert(16 <= d <= 31);
    lemma_fundamental_div_mod_converse(d, 16, 1, d - 16);
}

/// The reconstructed step of a biased magnitude: its closed form inside
/// the table's range, its fixed value at the saturated point, and its
/// bounds.
proof fn lemma_expand_mag_structure(v: int)
    requires
        33 <= v <= 8192,
    ensures
        132 <= expand_mag(v) <= 32256,
        v <= 8191 ==> expand_mag(v) == (8 * (v / (pow2((segment_of(v) + 1) as nat) as int)) + 4)
            * (pow2(segment_of(v) as nat) as int),
        v == 8192 ==> expand_mag(v) == 32256,
{
    lemma2_to64();
    if v <= 8191 {
        lemma_raw_code_structure(v);
        let s = segment_of(v);
        let d = v / (pow2((s + 1) as nat) as int);
        let code = raw_code(v);
        lemma_fundamental_div_mod_converse(code, 16, s, d - 16);
        lemma_fundamental_div_mod_converse(s, 8, 0, s);
        let coeff = 8 * d + 4;
        let p = pow2(s as nat) as int;
        assert(expand_mag(v) == coeff * p);
        lemma_pow2_small(s);
        lemma_mul_inequality(1, p, coeff);
        lemma_mul_upper_bound(coeff, 252, p, 128);
    } else {
        assert(raw_code(v) == 127);
        lemma_fundamental_div_mod_converse(127, 16, 7, 15);
        lemma_fundamental_div_mod_converse(7, 8, 0, 7);
        assert(expand_mag(v) == (8 * 15 + 132) * (pow2(7) as int));
    }
}

/// The reconstructed step never falls as the biased magnitude grows:
/// within a segment the floor quotient is ordered, and from one segment
/// to the next the doubled scale clears the previous segment's ceiling.
proof fn lemma_expand_mag_monotone(v1: int, v2: int)
    requires
        33 <= v1 <= v2 <= 8192,
    ensures
        expand_mag(v1) <= expand_mag(v2),
{
    lemma2_to64();
    lemma_expand_mag_structure(v1);
    lemma_expand_mag_structure(v2);
    if v2 <= 8191 {
        let s1 = segment_of(v1);
        let s2 = segment_of(v2);
        lemma_raw_code_structure(v1);
        lemma_raw_code_structure(v2);
        assert(s1 <= s2);
        let p1 = pow2((s1 + 1) as nat) as int;
        let p2 = pow2((s2 + 1) as nat) as int;
        let d1 = v1 / p1;
        let d2 = v2 / p2;
        if s1 == s2 {
            lemma_pow2_pos((s1 + 1) as nat);
            lemma_div_is_ordered(v1, v2, p1);
            lemma_mul_inequality(8 * d1 + 4, 8 * d2 + 4, pow2(s1 as nat) as int);
        } else {
            let q1 = pow2(s1 as nat) as int;
            let q2 = pow2(s2 as nat) as int;
            lemma_pow2_small(s1);
            lemma_pow2_small(s2);
            lemma_mul_inequality(8 * d1 + 4, 252, q1);
            lemma_mul_inequality(132, 8 * d2 + 4, q2);
            lemma_pow2_adds(1, s1 as nat);
            assert(pow2((s1 + 1) as nat) == 2 * q1);
            if s1 + 1 < s2 {
                lemma_pow2_strictly_increases((s1 + 1) as nat, s2 as nat);
            }
            assert(q2 >= 2 * q1);
            lemma_mul_inequality(2 * q1, q2, 132);
            assert(252 * q1 <= 264 * q1 - 12);
            assert(expand_mag(v1) <= 252 * q1);
            assert(132 * q2 <= expand_mag(v2));
        }
    }
}

/// What a full round trip produces: the reconstructed step of the biased
/// magnitude, shifted down by the bias and reflected through the sign.
proof fn lemma_round_trip_form(pcm: i16)
    ensures
        33 <= biased(pcm) <= 8192,
        is_negative(pcm) ==> decoded(encoded(pcm)) == 132 - expand_mag(biased(pcm)),
        !is_negative(pcm) ==> decoded(encoded(pcm)) == expand_mag(biased(pcm)) - 132,
{
    lemma_div_is_ordered(-32768, pcm as int, 4);
    lemma_div_is_ordered(pcm as int, 32767, 4);
    assert(-8192 <= shifted(pcm) <= 8191);
    let v = biased(pcm);
    assert(33 <= v <= 8192);
    let code = raw_code(v);
    let q: int;
    let e: int;
    if v <= 8191 {
        lemma_raw_code_structure(v);
        q = segment_of(v);
        e = v / (pow2((q + 1) as nat) as int) - 16;
    } else {
        q = 7;
        e = 15;
        assert(code == 127);
    }
    assert(0 <= q <= 7 && 0 <= e <= 15 && code == 16 * q + e);
    lemma_fundamental_div_mod_converse(code, 16, q, e);
    lemma_fundamental_div_mod_converse(q, 8, 0, q);
    if is_negative(pcm) {
        assert(encoded(pcm) == (127 - code) as u8);
        let c = 255 - ((127 - code) as u8) as int;
        assert(c == 128 + code);
        lemma_fundamental_div_mod_converse(128 + code, 16, 8 + q, e);
        lemma_fundamental_div_mod_converse(8 + q, 8, 1, q);
        assert(code_expand(c) == code_expand(code));
        assert(decoded(encoded(pcm)) == 132 - expand_mag(v));
    } else {
        assert(encoded(pcm) == (255 - code) as u8);
        let c = 255 - ((255 - code) as u8) as int;
        assert(c == code);
        assert(decoded(encoded(pcm)) == expand_mag(v) - 132);
    }
}

/// Totality of the decoder: every one of the 256 byte codes expands to a
/// linear value well inside the signed 16-bit range.
pub proof fn lemma_decoded_total(u: u8)
    ensures
        -32124 <= decoded(u) <= 32124,
{
    lemma2_to64();
    let c = 255 - u as int;
    let m = c % 16;
    let q = (c / 16) % 8;
    assert(0 <= m <= 15 && 0 <= q <= 7);
    lemma_pow2_small(q);
    let p = pow2(q as nat) as int;
    lemma_mul_inequality(1, p, 8 * m + 132);
    lemma_mul_upper_bound(8 * m + 132, 252, p, 128);
    assert(132 <= (8 * m + 132) * p <= 32256);
}

/// Monotonicity of the companding round trip: a sample never decodes
/// below any smaller sample after encoding, over the whole 16-bit input
/// range.
pub proof fn lemma_round_trip_monotone(a: i16, b: i16)
    requires
        a <= b,
    ensures
        decoded(encoded(a)) <= decoded(encoded(b)),
{
    lemma_round_trip_form(a);
    lemma_round_trip_form(b);
    lemma_expand_mag_structure(biased(a));
    lemma_expand_mag_structure(biased(b));
    lemma_div_is_ordered(a as int, b as int, 4);
    if is_negative(a) && is_negative(b) {
        assert(magnitude(b) <= magnitude(a));
        assert(biased(b) <= biased(a));
        lemma_expand_mag_monotone(biased(b), biased(a));
    } else if !is_negative(a) && !is_negative(b) {
        assert(magnitude(a) <= magnitude(b));
        assert(biased(a) <= biased(b));
        lemma_expand_mag_monotone(biased(a), biased(b));
    } else {
        assert(is_negative(a) && !is_negative(b));
    }
}

/// Boundary saturation: every sample whose shifted magnitude lies beyond
/// the clip level encodes to the saturated code of its sign — the same
/// code as a sample sitting exactly at the clip level.
pub proof fn lemma_saturation(pcm: i16)
    requires
        magnitude(pcm) > 8159,
    ensures
        encoded(pcm) == (if is_negative(pcm) {
            0u8
        } else {
            0x80u8
        }),
        encoded(pcm) == encoded(
            if is_negative(pcm) {
                -32636i16
            } else {
                32636i16
            },
        ),
{
    assert(biased(pcm) == 8192);
    assert(raw_code(8192) == 127);
    assert(shifted(32636i16) == 8159);
    assert(shifted(-32636i16) == -8159);
    assert(biased(32636i16) == 8192);
    assert(biased(-32636i16) == 8192);
}

} // verus!
