//! Mathematical model of the µ-law transform.
//!
//! Every executable function of the crate is specified against the spec
//! functions here: a linear sample encodes to `encoded(pcm)` and a µ-law
//! code expands to `decoded(u)`. The model is written over `int`
//! arithmetic (floor division, multiplication by powers of two) rather
//! than over machine bit operations, so the proved properties read as the
//! companding curve itself.

use vstd::arithmetic::power2::pow2;
use vstd::prelude::*;

verus! {

/// Upper bounds (inclusive) of the eight exponential segments on the
/// biased-magnitude axis: 2^(k+6) - 1 for segment k.
pub open spec fn seg_table() -> Seq<i16> {
    seq![0x3Fi16, 0x7Fi16, 0xFFi16, 0x1FFi16, 0x3FFi16, 0x7FFi16, 0xFFFi16, 0x1FFFi16]
}

/// Index of the first segment whose upper bound is at least `v`, or 8
/// (the out-of-range sentinel) when `v` lies above all of them. A value
/// exactly equal to a bound falls in that segment, not the next.
pub open spec fn segment_of(v: int) -> int {
    if v <= 0x3F {
        0
    } else if v <= 0x7F {
        1
    } else if v <= 0xFF {
        2
    } else if v <= 0x1FF {
        3
    } else if v <= 0x3FF {
        4
    } else if v <= 0x7FF {
        5
    } else if v <= 0xFFF {
        6
    } else if v <= 0x1FFF {
        7
    } else {
        8
    }
}

/// The sample after the encoder's arithmetic right shift by two bits.
/// For two's-complement values that shift is exactly floor division by 4.
pub open spec fn shifted(pcm: i16) -> int {
    (pcm as int) / 4
}

/// Whether the encoder takes the negative branch: the shifted sample is
/// below zero.
pub open spec fn is_negative(pcm: i16) -> bool {
    shifted(pcm) < 0
}

/// Magnitude of the shifted sample.
pub open spec fn magnitude(pcm: i16) -> int {
    if shifted(pcm) < 0 {
        -shifted(pcm)
    } else {
        shifted(pcm)
    }
}

/// Saturation of a magnitude at the clip level 8159.
pub open spec fn clip_mag(m: int) -> int {
    if m > 8159 {
        8159
    } else {
        m
    }
}

/// The biased magnitude handed to the segment search: the clipped
/// magnitude plus the quarter bias 33 (the 16-bit bias 132 shifted by
/// the same two bits as the sample).
pub open spec fn biased(pcm: i16) -> int {
    clip_mag(magnitude(pcm)) + 33
}

/// The seven data bits of a code before sign inversion: segment in the
/// top three, mantissa in the bottom four; 0x7F when `v` is above every
/// segment bound.
pub open spec fn raw_code(v: int) -> int {
    let seg = segment_of(v);
    if seg >= 8 {
        0x7F
    } else {
        16 * seg + (v / (pow2((seg + 1) as nat) as int)) % 16
    }
}

/// µ-law encoding of a linear sample: the data bits of the biased
/// magnitude, inverted through the sign-dependent mask (0x7F for
/// negative samples, 0xFF otherwise).
pub open spec fn encoded(pcm: i16) -> u8 {
    let code = raw_code(biased(pcm));
    if is_negative(pcm) {
        (0x7F - code) as u8
    } else {
        (0xFF - code) as u8
    }
}

/// Linear expansion of a µ-law code: complement the byte, rebuild the
/// segment-0 base from the mantissa, scale it by the segment, and apply
/// the sign convention of the standard (`132 - t` on the negative side,
/// `t - 132` on the positive one).
pub open spec fn decoded(u: u8) -> int {
    let c = 0xFF - (u as int);
    let t = (8 * (c % 16) + 132) * (pow2(((c / 16) % 8) as nat) as int);
    if c >= 128 {
        132 - t
    } else {
        t - 132
    }
}

} // verus!
