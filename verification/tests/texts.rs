use serial_commander::text::{can_split_at_four, decimal, has_prefix_of_four, hex, joined};

#[test]
fn decimal_numerals() {
    for n in [0u64, 7, 9, 10, 99, 100, 115200, u32::MAX as u64, u64::MAX] {
        assert_eq!(decimal(n), format!("{n}"));
    }
}

#[test]
fn hexadecimal_numerals() {
    for n in [0u32, 9, 10, 15, 16, 255, 0xDEADBEEF, u32::MAX] {
        assert_eq!(hex(n), format!("{n:X}"));
    }
}

#[test]
fn texts_are_joined() {
    assert_eq!(joined("Write failed: ", "broken pipe"), "Write failed: broken pipe");
    assert_eq!(joined("", ""), "");
}

#[test]
fn prefixes_of_four() {
    assert!(has_prefix_of_four("Opened COM3", "Open"));
    assert!(has_prefix_of_four("Open", "Open"));
    assert!(!has_prefix_of_four("Ope", "Open"));
    assert!(!has_prefix_of_four("Closed", "Open"));
    assert!(!has_prefix_of_four("", "Open"));
}

#[test]
fn texts_that_split_at_four() {
    assert!(can_split_at_four(""));
    assert!(can_split_at_four("\u{e9}"));
    assert!(can_split_at_four("Open"));
    assert!(can_split_at_four("\u{e9}\u{e9}x"));
    assert!(!can_split_at_four("abc\u{e9}"));
    assert!(can_split_at_four("\u{1F600}"));
    assert!(!can_split_at_four("a\u{1F600}"));
}
