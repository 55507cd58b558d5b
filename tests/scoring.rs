use typing_tutor::score::{accuracy, evaluate, score, wpm, Outcome, Score};

#[test]
fn fifteen_slow_characters_fail_on_speed() {
    let s = score(15, 0, 18000);
    assert_eq!(s.wpm, 10);
    assert_eq!(s.accuracy, 100);
    assert!(!s.speed_ok);
    assert!(s.accuracy_ok);
    assert!(!s.passed());
    assert!(!evaluate(15, 0, 18000).passed());
}

#[test]
fn short_chunk_is_exempt_from_speed() {
    let s = score(10, 1, 5000);
    assert_eq!(s.accuracy, 90);
    assert!(s.speed_ok);
    assert!(s.accuracy_ok);
    assert!(s.passed());
    assert!(evaluate(10, 1, 5000).passed());
}

#[test]
fn words_per_minute_values() {
    assert_eq!(wpm(50, 12000), 50);
    assert_eq!(wpm(250, 60000), 50);
    assert_eq!(wpm(14, 60000), 2);
    assert_eq!(wpm(4, 1000), 48);
    assert_eq!(wpm(19, 30000), 7);
    assert_eq!(wpm(7, 60000), 1);
    assert_eq!(wpm(60, 7000), 102);
}

#[test]
fn no_time_at_all() {
    assert_eq!(wpm(10, 0), u32::MAX);
    assert_eq!(wpm(3, 0), u32::MAX);
    assert_eq!(wpm(0, 0), 0);
    assert_eq!(wpm(0, 5000), 0);
}

#[test]
fn words_per_minute_saturates() {
    assert_eq!(wpm(u64::MAX, 1), u32::MAX);
}

#[test]
fn accuracy_truncates() {
    assert_eq!(accuracy(9, 1), 90);
    assert_eq!(accuracy(89, 11), 89);
    assert_eq!(accuracy(2, 1), 66);
    assert_eq!(accuracy(1, 0), 100);
    assert_eq!(accuracy(0, 0), 0);
    assert_eq!(accuracy(u64::MAX, u64::MAX), 50);
}

#[test]
fn fast_accurate_long_chunk_passes() {
    let s = score(80, 2, 10000);
    assert_eq!(s, Score { accuracy: 97, wpm: 96, accuracy_ok: true, speed_ok: true });
}

#[test]
fn inaccurate_chunk_fails() {
    let s = score(80, 20, 10000);
    assert_eq!(s.accuracy, 80);
    assert!(!s.accuracy_ok);
    assert!(s.speed_ok);
    assert!(!s.passed());
}

#[test]
fn nothing_typed_passes_unmeasured() {
    assert_eq!(evaluate(0, 0, 0), Outcome::Empty);
    assert_eq!(evaluate(0, 0, 99999), Outcome::Empty);
    assert!(evaluate(0, 0, 1).passed());
}

#[test]
fn scored_outcome_carries_score() {
    assert_eq!(evaluate(15, 0, 18000), Outcome::Scored(score(15, 0, 18000)));
}
