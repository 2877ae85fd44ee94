use esp32_lb::metrics::{Duration, Metrics};

fn averaged(samples: &[u64]) -> u64 {
    let mut m = Metrics::new();
    for s in samples {
        m.record(Duration::from_nanos(*s));
    }
    m.avg_ns()
}

#[test]
fn starts_at_zero() {
    assert_eq!(Metrics::new().avg_ns(), 0);
    assert_eq!(Metrics::new().avg_duration(), Duration::new(0, 0));
}

#[test]
fn first_sample_is_taken_as_it_is() {
    assert_eq!(averaged(&[1_500]), 1_500);
    assert_eq!(averaged(&[0, 0, 1_500]), 1_500);
}

#[test]
fn an_eighth_of_the_excess_is_added() {
    assert_eq!(averaged(&[1_000, 1_800]), 1_100);
    assert_eq!(averaged(&[1_000, 1_807]), 1_100);
    assert_eq!(averaged(&[1_000, 1_808]), 1_101);
}

#[test]
fn smaller_samples_leave_the_average_alone() {
    assert_eq!(averaged(&[1_000, 10, 1_000, 0]), 1_000);
}

#[test]
fn average_never_decreases_and_stays_below_the_largest_sample() {
    let mut m = Metrics::new();
    let mut last = 0;
    for s in [5u64, 900, 3, 70_000, 12, 70_001] {
        m.record(Duration::from_nanos(s));
        assert!(m.avg_ns() >= last);
        assert!(m.avg_ns() <= 70_001);
        last = m.avg_ns();
    }
}

#[test]
fn largest_samples_do_not_overflow() {
    assert_eq!(averaged(&[u64::MAX, u64::MAX]), u64::MAX);
    assert_eq!(averaged(&[1, u64::MAX]), 1 + (u64::MAX - 1) / 8);
}

#[test]
fn spans_beyond_64_bits_keep_their_low_bits() {
    let mut m = Metrics::new();
    // 2^64 nanoseconds and 5 more
    m.record(Duration::new(18_446_744_073, 709_551_621));
    assert_eq!(m.avg_ns(), 5);
}

#[test]
fn durations_agree_with_std() {
    for (secs, nanos) in [(0, 0), (1, 1), (7, 999_999_999), (u64::MAX, 999_999_999)] {
        let ours = Duration::new(secs, nanos);
        let theirs = std::time::Duration::new(secs, nanos);
        assert_eq!(ours.as_nanos(), theirs.as_nanos());
    }
    for n in [0, 999_999_999, 1_000_000_000, u64::MAX] {
        let theirs = std::time::Duration::from_nanos(n);
        assert_eq!(
            Duration::from_nanos(n),
            Duration::new(theirs.as_secs(), theirs.subsec_nanos())
        );
    }
}

#[test]
fn average_as_a_span() {
    let mut m = Metrics::new();
    m.record(Duration::new(2, 5));
    assert_eq!(m.avg_duration(), Duration::new(2, 5));
}

#[test]
fn longer_samples_give_larger_averages() {
    let mut last = 0;
    for sample in [1u64, 999, 1_000, 1_008, 5_000, 90_000] {
        let avg = averaged(&[1_000, sample]);
        assert!(avg >= last);
        assert!(avg >= 1_000);
        last = avg;
    }
    assert_eq!(last, 1_000 + 89_000 / 8);
}
