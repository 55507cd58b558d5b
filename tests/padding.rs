use typing_tutor::pad::{left_pad, right_pad};

#[test]
fn left_pad_aligns_right() {
    assert_eq!(left_pad(5, 3), "  5");
    assert_eq!(left_pad(90, 3), " 90");
    assert_eq!(left_pad(100, 3), "100");
    assert_eq!(left_pad(0, 3), "  0");
}

#[test]
fn left_pad_keeps_long_numbers() {
    assert_eq!(left_pad(12345, 3), "12345");
    assert_eq!(left_pad(u32::MAX, 0), "4294967295");
}

#[test]
fn right_pad_aligns_left() {
    assert_eq!(right_pad(42, 4), "42  ");
    assert_eq!(right_pad(0, 4), "0   ");
    assert_eq!(right_pad(1234, 4), "1234");
}

#[test]
fn right_pad_keeps_long_numbers() {
    assert_eq!(right_pad(4294967295, 4), "4294967295");
    assert_eq!(right_pad(7, 0), "7");
}
