use textfiles_browser::ui::{marquee, wrap_line};

#[test]
fn wrap_empty_line_keeps_one_empty_row() {
    assert_eq!(wrap_line("", 10), vec![String::new()]);
}

#[test]
fn wrap_short_line_is_unchanged() {
    assert_eq!(wrap_line("hello", 10), vec!["hello".to_string()]);
}

#[test]
fn wrap_splits_into_width_chunks() {
    assert_eq!(
        wrap_line("abcdefg", 3),
        vec!["abc".to_string(), "def".to_string(), "g".to_string()]
    );
    assert_eq!(wrap_line("abcdef", 3), vec!["abc".to_string(), "def".to_string()]);
}

#[test]
fn marquee_short_text_is_unchanged() {
    assert_eq!(marquee("hi", 5, 99), "hi");
}

#[test]
fn marquee_windows_wrap_over_padded_text() {
    assert_eq!(marquee("abcdef", 3, 0), "abc");
    assert_eq!(marquee("abcdef", 3, 4), "ef ");
    assert_eq!(marquee("abcdef", 3, 7), "  a");
    assert_eq!(marquee("abcdef", 3, 9), "abc");
}
