use canvas_cli::text::{is_space_char, u32_to_string};

#[test]
fn decimal_rendering_is_exact() {
    assert_eq!(u32_to_string(0), "0");
    assert_eq!(u32_to_string(7), "7");
    assert_eq!(u32_to_string(10), "10");
    assert_eq!(u32_to_string(409), "409");
    assert_eq!(u32_to_string(u32::MAX), "4294967295");
}

#[test]
fn white_space_classification_covers_trimmed_characters() {
    assert!(is_space_char(' '));
    assert!(is_space_char('\t'));
    assert!(is_space_char('\n'));
    assert!(is_space_char('\u{00A0}'));
    assert!(is_space_char('\u{3000}'));
    assert!(!is_space_char('a'));
    assert!(!is_space_char('0'));
    // Agreement with the standard library's trim set on a sample.
    for c in ['\r', '\u{2028}', '\u{205F}', 'x', '_', '✓'] {
        assert_eq!(is_space_char(c), c.is_whitespace());
    }
}
