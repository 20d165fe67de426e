use telegram_video_converter::report::{format_bytes, format_ratio};

/// The same scaling carried out in double-precision floating point.
fn scaled_in_floating_point(bytes: u64) -> String {
    let units = ["B", "KB", "MB", "GB"];
    let mut size = bytes as f64;
    let mut unit = 0;
    while size >= 1024.0 && unit < units.len() - 1 {
        size /= 1024.0;
        unit += 1;
    }
    format!("{:.1} {}", size, units[unit])
}

#[test]
fn format_bytes_writes_each_unit() {
    assert_eq!(format_bytes(500), "500.0 B");
    assert_eq!(format_bytes(2048), "2.0 KB");
    assert_eq!(format_bytes(1_572_864), "1.5 MB");
    assert_eq!(format_bytes(1_073_741_824), "1.0 GB");
}

#[test]
fn format_bytes_at_the_unit_boundaries() {
    assert_eq!(format_bytes(0), "0.0 B");
    assert_eq!(format_bytes(1023), "1023.0 B");
    assert_eq!(format_bytes(1024), "1.0 KB");
    assert_eq!(format_bytes(1_048_575), "1024.0 KB");
    assert_eq!(format_bytes(1_048_576), "1.0 MB");
    assert_eq!(format_bytes(1_073_741_823), "1024.0 MB");
    assert_eq!(format_bytes(1024 * 1_073_741_824), "1024.0 GB");
    assert_eq!(format_bytes(u64::MAX), "17179869184.0 GB");
}

#[test]
fn format_bytes_rounds_ties_to_even() {
    // 1280 bytes are 1.25 KB, 1792 bytes are 1.75 KB.
    assert_eq!(format_bytes(1280), "1.2 KB");
    assert_eq!(format_bytes(1792), "1.8 KB");
}

#[test]
fn format_bytes_agrees_with_floating_point() {
    let mut samples: Vec<u64> = Vec::new();
    for n in 0..5000u64 {
        samples.push(n);
        samples.push(n * 257);
        samples.push(n * 1_048_573);
        samples.push(n.wrapping_mul(0x9E37_79B9_7F4A_7C15));
        samples.push(u64::MAX - n);
        samples.push((1u64 << 53) + n);
        samples.push((1u64 << 60) + n * 77);
        samples.push((1u64 << 63) + n * 1023);
    }
    for shift in 0..64 {
        for delta in 0..3u64 {
            samples.push((1u64 << shift).wrapping_sub(delta));
            samples.push((1u64 << shift) + delta);
        }
    }
    for bytes in samples {
        assert_eq!(format_bytes(bytes), scaled_in_floating_point(bytes), "bytes = {}", bytes);
    }
}

/// The same percentage carried out in double-precision floating point.
fn percent_in_floating_point(output: u64, input: u64) -> String {
    let ratio = (output as f64 / input as f64) * 100.0;
    format!("{:.1}", ratio)
}

fn pseudo_random(state: &mut u64) -> u64 {
    *state ^= *state << 13;
    *state ^= *state >> 7;
    *state ^= *state << 17;
    *state
}

#[test]
fn ratio_of_three_to_ten_megabytes() {
    assert_eq!(format_ratio(3 * 1024 * 1024, 10 * 1024 * 1024), "30.0");
    assert_eq!(format_ratio(3_000_000, 10_000_000), "30.0");
}

#[test]
fn ratio_of_simple_fractions() {
    assert_eq!(format_ratio(0, 7), "0.0");
    assert_eq!(format_ratio(7, 7), "100.0");
    assert_eq!(format_ratio(1, 3), "33.3");
    assert_eq!(format_ratio(2, 3), "66.7");
    assert_eq!(format_ratio(5, 2), "250.0");
    assert_eq!(format_ratio(u64::MAX, 1), "1844674407370955161600.0");
}

#[test]
fn ratio_without_input_bytes() {
    assert_eq!(format_ratio(5, 0), "inf");
    assert_eq!(format_ratio(0, 0), "NaN");
}

#[test]
fn ratio_agrees_with_floating_point_near_ties() {
    for input in [2000u64, 200, 20, 40, 80, 400, 8000, 16000, 2000000, 3000, 7000] {
        for output in 0..(3 * input) {
            assert_eq!(
                format_ratio(output, input),
                percent_in_floating_point(output, input),
                "{} / {}",
                output,
                input
            );
        }
    }
}

#[test]
fn ratio_agrees_with_floating_point() {
    let mut state = 0x2545_F491_4F6C_DD1Du64;
    for round in 0..60_000u32 {
        let a = pseudo_random(&mut state) >> (round % 64);
        let b = pseudo_random(&mut state) >> ((round / 64) % 64);
        if b > 0 {
            assert_eq!(format_ratio(a, b), percent_in_floating_point(a, b), "{} / {}", a, b);
        }
        if a > 0 {
            assert_eq!(format_ratio(b, a), percent_in_floating_point(b, a), "{} / {}", b, a);
        }
    }
    for small in 1..400u64 {
        for other in 1..400u64 {
            assert_eq!(
                format_ratio(small, other),
                percent_in_floating_point(small, other),
                "{} / {}",
                small,
                other
            );
            assert_eq!(
                format_ratio(u64::MAX - small, other),
                percent_in_floating_point(u64::MAX - small, other),
                "max - {} / {}",
                small,
                other
            );
            assert_eq!(
                format_ratio(small, u64::MAX - other),
                percent_in_floating_point(small, u64::MAX - other),
                "{} / max - {}",
                small,
                other
            );
        }
    }
}
