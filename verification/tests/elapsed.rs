use std::time::Duration;
use telegram_video_converter::report::Elapsed;

fn written(secs: u64, nanos: u32) -> String {
    Elapsed::new(secs, nanos).unwrap().format()
}

/// The same span as the standard library turns it into floating-point
/// seconds, written with two digits.
fn in_floating_point(secs: u64, nanos: u32) -> String {
    format!("{:.2}", Duration::new(secs, nanos).as_secs_f64())
}

fn pseudo_random(state: &mut u64) -> u64 {
    *state ^= *state << 13;
    *state ^= *state >> 7;
    *state ^= *state << 17;
    *state
}

#[test]
fn elapsed_needs_nanoseconds_below_a_second() {
    assert!(Elapsed::new(0, 999_999_999).is_some());
    assert!(Elapsed::new(0, 1_000_000_000).is_none());
    assert!(Elapsed::new(7, u32::MAX).is_none());
}

#[test]
fn elapsed_is_written_with_two_digits() {
    assert_eq!(written(0, 0), "0.00");
    assert_eq!(written(1, 0), "1.00");
    assert_eq!(written(12, 345_678_901), "12.35");
    assert_eq!(written(0, 4_999_999), "0.00");
    assert_eq!(written(0, 5_000_001), "0.01");
    assert_eq!(written(59, 999_999_999), "60.00");
    assert_eq!(written(3600, 250_000_000), "3600.25");
}

#[test]
fn elapsed_on_half_a_hundredth() {
    // 0.015 and 0.025 are not held exactly: the nearest values lie just
    // below the first and just above the second.
    assert_eq!(written(0, 15_000_000), "0.01");
    assert_eq!(written(0, 25_000_000), "0.03");
    assert_eq!(written(1, 5_000_000), "1.00");
    // 0.125 and 0.375 are held exactly and tie.
    assert_eq!(written(0, 125_000_000), "0.12");
    assert_eq!(written(0, 375_000_000), "0.38");
}

#[test]
fn elapsed_agrees_with_floating_point_on_ties() {
    for secs in [0u64, 1, 2, 3, 7, 8, 63, 64, 1000, 4095, 4096, 1 << 20, (1 << 33) - 1, 1 << 40] {
        for step in 0..100u32 {
            for delta in [0u32, 1, 2] {
                let nanos = step * 10_000_000 + 5_000_000;
                assert_eq!(written(secs, nanos - delta), in_floating_point(secs, nanos - delta));
                assert_eq!(written(secs, nanos + delta), in_floating_point(secs, nanos + delta));
            }
        }
    }
}

#[test]
fn elapsed_agrees_with_floating_point() {
    let mut state = 0x9E37_79B9_7F4A_7C15u64;
    for round in 0..200_000u32 {
        let secs = pseudo_random(&mut state) >> (round % 64);
        let nanos = (pseudo_random(&mut state) % 1_000_000_000) as u32;
        assert_eq!(written(secs, nanos), in_floating_point(secs, nanos), "{} s {} ns", secs, nanos);
    }
    for shift in 0..64 {
        for delta in 0..4u64 {
            for nanos in [0u32, 1, 499_999_999, 500_000_000, 500_000_001, 999_999_999] {
                let low = (1u64 << shift).wrapping_sub(delta);
                let high = (1u64 << shift) + delta;
                assert_eq!(written(low, nanos), in_floating_point(low, nanos));
                assert_eq!(written(high, nanos), in_floating_point(high, nanos));
            }
        }
    }
    for nanos in (0..1_000_000_000u32).step_by(9973) {
        assert_eq!(written(0, nanos), in_floating_point(0, nanos));
        assert_eq!(written(1, nanos), in_floating_point(1, nanos));
        assert_eq!(written((1 << 53) - 1, nanos), in_floating_point((1 << 53) - 1, nanos));
        assert_eq!(written(1 << 52, nanos), in_floating_point(1 << 52, nanos));
        assert_eq!(written((1 << 52) + 1, nanos), in_floating_point((1 << 52) + 1, nanos));
    }
}
