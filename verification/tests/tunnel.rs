use vedavid_connector::tunnel::{backoff, backoff_with, jitter_at, jitter_of, rand_ms};

#[test]
fn backoff_grows_and_then_stops() {
    let secs = |a| backoff(a).as_secs();
    assert_eq!(secs(0), 1);
    assert_eq!(secs(1), 2);
    assert_eq!(secs(4), 16);
    assert_eq!(secs(5), 30, "capped");
    assert_eq!(secs(50), 30, "still capped");
}

#[test]
fn backoff_carries_jitter() {
    assert!(backoff(0).subsec_millis() < 1000);
}

#[test]
fn jitter_is_below_a_second_and_ends_up_in_the_wait() {
    assert!(rand_ms() < 1000);
    assert_eq!(jitter_of(999_999_999), 999);
    let w = backoff_with(3, 250);
    assert_eq!((w.as_secs(), w.subsec_millis()), (8, 250));
    let w = backoff_with(u32::MAX, 2500);
    assert_eq!((w.as_secs(), w.subsec_millis()), (32, 500));
}

#[test]
fn jitter_comes_from_the_nanoseconds_of_the_clock() {
    let epoch = std::time::SystemTime::UNIX_EPOCH;
    assert_eq!(jitter_at(epoch), 0);
    assert_eq!(jitter_at(epoch + std::time::Duration::new(5, 123_456_789)), 789);
    assert_eq!(jitter_at(epoch - std::time::Duration::new(5, 123_456_789)), 0);
}
