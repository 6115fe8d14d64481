use httpress::metrics::{format_duration, format_megabytes, format_seconds};
use httpress::time::Duration;

#[test]
fn format_duration_microseconds() {
    assert_eq!(format_duration(Duration::from_micros(500)), "500us");
    assert_eq!(format_duration(Duration::from_micros(0)), "0us");
    assert_eq!(format_duration(Duration::from_micros(999)), "999us");
}

#[test]
fn format_duration_milliseconds() {
    assert_eq!(format_duration(Duration::from_micros(1000)), "1.00ms");
    assert_eq!(format_duration(Duration::from_millis(12)), "12.00ms");
    assert_eq!(format_duration(Duration::from_micros(999_999)), "1000.00ms");
}

#[test]
fn format_duration_seconds() {
    assert_eq!(format_duration(Duration::from_secs(1)), "1.00s");
    assert_eq!(format_duration(Duration::from_millis(2500)), "2.50s");
}

/// Decimal halves are rounded as the binary64 value lies: 1.015 is held just
/// below the half, 1.125 is held exactly and goes to the even neighbour.
#[test]
fn format_duration_rounds_the_binary64_value() {
    assert_eq!(format_duration(Duration::from_micros(1015)), "1.01ms");
    assert_eq!(format_duration(Duration::from_micros(1125)), "1.12ms");
    assert_eq!(format_duration(Duration::from_micros(1135)), "1.14ms");
    assert_eq!(format_duration(Duration::from_millis(1015)), "1.01s");
    assert_eq!(format_seconds(Duration::from_millis(1015)), "1.01s");
    assert_eq!(format_seconds(Duration::from_millis(125)), "0.12s");
    assert_eq!(format_seconds(Duration::from_millis(10_000)), "10.00s");
    assert_eq!(format_seconds(Duration::from_millis(999)), "1.00s");
    assert_eq!(format_seconds(Duration::from_secs(0)), "0.00s");
}

#[test]
fn format_duration_matches_float_rendering_in_milliseconds() {
    for micros in 1000u64..1_000_000 {
        assert_eq!(
            format_duration(Duration::from_micros(micros)),
            format!("{:.2}ms", micros as f64 / 1000.0),
            "micros = {}",
            micros
        );
    }
}

#[test]
fn format_seconds_matches_float_rendering() {
    let mut spans: Vec<(u64, u32)> = Vec::new();
    for nanos in (0u64..30_000_000_000).step_by(3_000_017) {
        spans.push((nanos / 1_000_000_000, (nanos % 1_000_000_000) as u32));
    }
    for secs in [0u64, 1, 2, 3, 7, 59, 3600, 1 << 20, (1 << 52) - 1, 1 << 52, (1 << 53) - 1] {
        for tenth_ms in 0..1000u32 {
            spans.push((secs, tenth_ms * 1_000_000 + 500_000 * (tenth_ms % 2)));
            spans.push((secs, tenth_ms * 1_000_000 + 5_000_000));
        }
        spans.push((secs, 999_999_999));
        spans.push((secs, 500_000_000));
        spans.push((secs, 1));
    }
    for secs in [1u64 << 53, (1 << 53) + 1, (1 << 53) + 3, 1 << 60, u64::MAX - 1, u64::MAX] {
        for nanos in [0u32, 1, 499_999_999, 500_000_000, 999_999_999] {
            spans.push((secs, nanos));
        }
    }
    for (secs, nanos) in spans {
        if nanos >= 1_000_000_000 {
            continue;
        }
        let d = std::time::Duration::new(secs, nanos);
        let ours = Duration::new(secs, nanos);
        assert_eq!(
            format_seconds(ours),
            format!("{:.2}s", d.as_secs_f64()),
            "secs = {}, nanos = {}",
            secs,
            nanos
        );
        if secs >= 1 {
            assert_eq!(format_duration(ours), format!("{:.2}s", d.as_secs_f64()));
        }
    }
}

#[test]
fn format_megabytes_matches_float_rendering() {
    let mut counts: Vec<u64> = (0u64..50_000_000).step_by(4_099).collect();
    for k in 0..2000u64 {
        counts.push(k * 5_243 + 524_288 * (k % 3));
    }
    counts.extend([1 << 53, (1 << 53) + 1, (1 << 53) + 3, u64::MAX - 1, u64::MAX]);
    for bytes in counts {
        assert_eq!(
            format_megabytes(bytes),
            format!("{:.2} MB", bytes as f64 / 1_048_576.0),
            "bytes = {}",
            bytes
        );
    }
    assert_eq!(format_megabytes(650_214), "0.62 MB");
    assert_eq!(format_megabytes(0), "0.00 MB");
}
