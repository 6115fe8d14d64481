use httpress::time::Duration;

#[test]
fn duration_constructors_and_parts() {
    let d = Duration::new(3, 1_500_000_000);
    assert_eq!(d.as_secs(), 4);
    assert_eq!(d.subsec_nanos(), 500_000_000);
    assert_eq!(d.as_millis(), 4500);
    assert_eq!(d.as_micros(), 4_500_000);
    assert_eq!(d.as_nanos(), 4_500_000_000);
    assert_eq!(Duration::from_micros(1), Duration::from_nanos(1000));
    assert_eq!(Duration::from_secs(u64::MAX).as_secs(), u64::MAX);
    assert!(Duration::from_millis(1).le(&Duration::from_micros(1000)));
    assert!(!Duration::from_millis(2).le(&Duration::from_micros(1999)));
}

#[test]
fn duration_matches_standard_duration() {
    for (secs, nanos) in [(0u64, 0u32), (1, 1), (59, 999_999_999), (u64::MAX, 999_999_999)] {
        let ours = Duration::new(secs, nanos);
        let std = std::time::Duration::new(secs, nanos);
        assert_eq!(ours.as_nanos(), std.as_nanos());
        assert_eq!(ours.as_micros(), std.as_micros());
        assert_eq!(ours.as_millis(), std.as_millis());
        assert_eq!(ours.as_secs(), std.as_secs());
        assert_eq!(ours.subsec_nanos(), std.subsec_nanos());
    }
}
