use ttfx::utils::text::{char_is_control, char_is_whitespace, is_blank};

#[test]
fn white_space_agrees_with_std_on_every_char() {
    for c in (0..=0x10ffffu32).filter_map(char::from_u32) {
        assert_eq!(char_is_whitespace(c), c.is_whitespace(), "{:x}", c as u32);
    }
}

#[test]
fn control_agrees_with_std_on_every_char() {
    for c in (0..=0x10ffffu32).filter_map(char::from_u32) {
        assert_eq!(char_is_control(c), c.is_control(), "{:x}", c as u32);
    }
}

#[test]
fn blank_means_empty_once_trimmed() {
    for s in ["", " ", "\t\n", "\u{2028}\u{3000}", "x", " x", "\u{200b}"] {
        assert_eq!(is_blank(s), s.trim().is_empty(), "{s:?}");
    }
}
