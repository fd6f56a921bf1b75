use brewy::text::{sanitize_text, truncate};

#[test]
fn terminal_control_characters_are_removed_from_external_text() {
    assert_eq!(
        sanitize_text("safe\u{1b}]52;secret\u{7} text\r"),
        "safe]52;secret text"
    );
}

#[test]
fn zero_width_truncation_is_empty() {
    assert_eq!(truncate("brewy", 0), "");
}
