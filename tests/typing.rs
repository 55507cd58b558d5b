use typing_tutor::normalize::normalize;
use typing_tutor::practice::{Attempt, KeyAction, KeyEvent};
use typing_tutor::score::Outcome;
use typing_tutor::wrap::wrap_lines;

fn type_text(a: &mut Attempt, text: &str) -> Vec<KeyAction> {
    text.chars().map(|c| a.press(KeyEvent::Char(c))).collect()
}

#[test]
fn matching_keys_advance() {
    let mut a = Attempt::new("abc");
    assert!(a.needs_key());
    assert_eq!(type_text(&mut a, "abc"), vec![KeyAction::Advance; 3]);
    assert!(a.is_done());
    assert!(!a.needs_key());
    assert_eq!(a.correct(), 3);
    assert_eq!(a.errors(), 0);
}

#[test]
fn wrong_key_is_counted_and_waits() {
    let mut a = Attempt::new("ab");
    assert_eq!(a.press(KeyEvent::Char('x')), KeyAction::Mismatch);
    assert_eq!(a.press(KeyEvent::Char('b')), KeyAction::Mismatch);
    assert_eq!(a.press(KeyEvent::Char('a')), KeyAction::Advance);
    assert_eq!(a.press(KeyEvent::Char('b')), KeyAction::Advance);
    assert!(a.is_done());
    assert_eq!(a.correct(), 2);
    assert_eq!(a.errors(), 2);
}

#[test]
fn interrupt_aborts_and_other_keys_are_ignored() {
    let mut a = Attempt::new("a");
    assert_eq!(a.press(KeyEvent::Other), KeyAction::Ignore);
    assert_eq!(a.press(KeyEvent::Interrupt), KeyAction::Abort);
    assert_eq!(a.correct(), 0);
    assert_eq!(a.errors(), 0);
    assert!(!a.is_done());
}

#[test]
fn keys_after_the_end_are_ignored() {
    let mut a = Attempt::new("a");
    assert_eq!(a.press(KeyEvent::Char('a')), KeyAction::Advance);
    assert_eq!(a.press(KeyEvent::Char('a')), KeyAction::Ignore);
    assert_eq!(a.press(KeyEvent::Interrupt), KeyAction::Abort);
    assert_eq!(a.correct(), 1);
}

#[test]
fn non_ascii_target_is_skipped_without_a_key() {
    let mut a = Attempt::new("a\u{e9}b");
    assert!(!a.skip_untypeable());
    assert_eq!(a.press(KeyEvent::Char('a')), KeyAction::Advance);
    assert!(!a.needs_key());
    assert_eq!(a.press(KeyEvent::Char('\u{e9}')), KeyAction::Ignore);
    assert!(a.skip_untypeable());
    assert!(a.needs_key());
    assert_eq!(a.press(KeyEvent::Char('b')), KeyAction::Advance);
    assert!(a.is_done());
    assert_eq!(a.correct(), 2);
}

#[test]
fn empty_chunk_passes_without_keys() {
    let chunk = normalize(" \t \u{3000} ");
    assert_eq!(chunk, "");
    let a = Attempt::new(&chunk);
    assert!(a.is_done());
    assert!(!a.needs_key());
    assert_eq!(a.finish(0), Outcome::Empty);
    assert!(a.finish(123456).passed());
}

#[test]
fn retry_starts_from_nothing() {
    let mut a = Attempt::new(&"q".repeat(20));
    assert_eq!(a.press(KeyEvent::Char('w')), KeyAction::Mismatch);
    for _ in 0..20 {
        assert_eq!(a.press(KeyEvent::Char('q')), KeyAction::Advance);
    }
    assert!(!a.finish(600_000).passed());
    let b = Attempt::new(&"q".repeat(20));
    assert_eq!(b.correct(), 0);
    assert_eq!(b.errors(), 0);
}

#[test]
fn long_line_typed_perfectly_takes_two_attempts() {
    let line: String = "the quick brown fox jumps over the lazy dog "
        .repeat(2)
        .chars()
        .take(85)
        .collect();
    assert_eq!(line.len(), 85);
    let chunks = wrap_lines(&vec![line], 80);
    assert_eq!(chunks.len(), 2);
    assert_eq!(chunks[0].len(), 80);
    assert_eq!(chunks[1].len(), 5);
    let mut passed = 0;
    for chunk in &chunks {
        let text = normalize(chunk);
        let mut a = Attempt::new(&text);
        for c in text.chars() {
            assert_eq!(a.press(KeyEvent::Char(c)), KeyAction::Advance);
        }
        assert!(a.is_done());
        assert_eq!(a.errors(), 0);
        let outcome = a.finish(1000);
        assert!(outcome.passed());
        passed += 1;
    }
    assert_eq!(passed, 2);
}
