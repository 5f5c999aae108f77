//! Behavioural checks of the codec: totality over both full input
//! domains, determinism, the known value scenarios, boundary saturation,
//! round-trip monotonicity, and the segment search.

use mulaw::{linear2ulaw, search, seg_uend, ulaw2linear, SEG_UEND_SIZE};

#[test]
fn totality_every_sample_encodes() {
    for s in i16::MIN..=i16::MAX {
        let _code: u8 = linear2ulaw(s);
    }
}

#[test]
fn totality_every_code_decodes_in_range() {
    for c in 0u8..=255u8 {
        let d: i16 = ulaw2linear(c);
        assert!(-32124 <= d && d <= 32124);
    }
}

#[test]
fn determinism_repeated_calls_agree() {
    let samples: Vec<i16> = vec![i16::MIN, -8031, -120, -1, 0, 4, 7804, 8159, i16::MAX];
    for i in 0usize..samples.len() {
        assert_eq!(linear2ulaw(samples[i]), linear2ulaw(samples[i]));
    }
    for c in 0u8..=255u8 {
        assert_eq!(ulaw2linear(c), ulaw2linear(c));
    }
}

#[test]
fn known_value_scenarios() {
    assert_eq!(ulaw2linear(1), -31100);
    assert_eq!(ulaw2linear(linear2ulaw(-8031)), -7932);
    assert_eq!(ulaw2linear(linear2ulaw(0)), 0);
    assert_eq!(ulaw2linear(linear2ulaw(4)), 8);
    assert_eq!(ulaw2linear(linear2ulaw(7804)), 7932);
    assert_eq!(ulaw2linear(linear2ulaw(-120)), -120);
}

#[test]
fn boundary_saturation_positive() {
    // 32636 >> 2 is exactly the clip level 8159; anything above saturates
    // to the same code.
    let clipped: u8 = linear2ulaw(32636);
    assert_eq!(clipped, 0x80);
    for s in 32640i16..=i16::MAX {
        assert_eq!(linear2ulaw(s), clipped);
    }
}

#[test]
fn boundary_saturation_negative() {
    let clipped: u8 = linear2ulaw(-32636);
    assert_eq!(clipped, 0x00);
    for s in i16::MIN..=-32640i16 {
        assert_eq!(linear2ulaw(s), clipped);
    }
}

#[test]
fn round_trip_is_monotone() {
    let mut previous: i16 = ulaw2linear(linear2ulaw(i16::MIN));
    for s in (i16::MIN + 1)..=i16::MAX {
        let current: i16 = ulaw2linear(linear2ulaw(s));
        assert!(previous <= current);
        previous = current;
    }
}

#[test]
fn search_sentinel_above_last_threshold() {
    assert_eq!(search(8192, seg_uend(), SEG_UEND_SIZE), 8);
    assert_eq!(search(i16::MAX, seg_uend(), SEG_UEND_SIZE), 8);
}

#[test]
fn search_tie_takes_lower_segment() {
    let thresholds: Vec<i16> = vec![0x3F, 0x7F, 0xFF, 0x1FF, 0x3FF, 0x7FF, 0xFFF, 0x1FFF];
    for k in 0usize..thresholds.len() {
        assert_eq!(search(thresholds[k], seg_uend(), SEG_UEND_SIZE), k as u8);
        if k + 1 < thresholds.len() {
            assert_eq!(search(thresholds[k] + 1, seg_uend(), SEG_UEND_SIZE), (k + 1) as u8);
        }
    }
}
