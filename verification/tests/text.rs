use canopy::text::{char_is_whitespace, is_blank};

#[test]
fn whitespace_agrees_with_std_on_every_char() {
    for u in 0u32..=0x10FFFF {
        if let Some(c) = char::from_u32(u) {
            assert_eq!(char_is_whitespace(c), c.is_whitespace(), "U+{u:04X}");
        }
    }
}

#[test]
fn blank_descriptions_are_whitespace_only() {
    assert!(is_blank(""));
    assert!(is_blank(" \t\u{3000}\n"));
    assert!(!is_blank(" a "));
}

#[test]
fn a_space_is_one_cell_wide() {
    assert!(canopy::text::space_is_one_cell());
}
