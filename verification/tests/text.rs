//! Tests for the text and viewport helpers and the decimal renderer.

use notnow::error::decimal_string;
use notnow::text::align_center;
use notnow::text::sanitize_offset;

#[test]
fn pad_string() {
    assert_eq!(align_center("", 0), "");
    assert_eq!(align_center("", 1), " ");
    assert_eq!(align_center("", 8), "        ");
    assert_eq!(align_center("a", 1), "a");
    assert_eq!(align_center("a", 2), "a ");
    assert_eq!(align_center("a", 3), " a ");
    assert_eq!(align_center("a", 4), " a  ");
    assert_eq!(align_center("hello", 20), "       hello        ");
}

#[test]
fn crop_string() {
    assert_eq!(align_center("hello", 4), "h...");
    assert_eq!(align_center("hello", 5), "hello");
    assert_eq!(align_center("that's a test", 8), "that'...");
}

#[test]
fn offset_keeps_selection_visible() {
    // The selection sits before the window: the window moves up to it.
    assert_eq!(sanitize_offset(5, 2, 3), 2);
    // The selection sits past the window: the window moves down to it.
    assert_eq!(sanitize_offset(5, 10, 3), 8);
    // The selection sits inside the window: the offset is kept.
    assert_eq!(sanitize_offset(5, 6, 3), 5);
    // A window of one element always starts at the selection.
    assert_eq!(sanitize_offset(0, 4, 1), 4);
}

#[test]
fn decimal_rendering() {
    assert_eq!(decimal_string(0), "0");
    assert_eq!(decimal_string(7), "7");
    assert_eq!(decimal_string(42), "42");
    assert_eq!(decimal_string(1234567890), "1234567890");
    assert_eq!(decimal_string(u64::MAX), "18446744073709551615");
}
