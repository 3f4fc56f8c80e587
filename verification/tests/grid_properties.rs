use text_canvas::TextCanvas;

#[test]
fn round_trip_empty() {
    let canvas = TextCanvas::from_text("").unwrap();
    assert_eq!(canvas.total_lines(), 0);
    assert_eq!(canvas.to_text(), "");
}

#[test]
fn round_trip_trailing_terminator() {
    let canvas = TextCanvas::from_text("a\n").unwrap();
    assert_eq!(canvas.total_lines(), 2);
    assert_eq!(canvas.line_width(1), Some(0));
    assert_eq!(canvas.to_text(), "a\n");
}

#[test]
fn round_trip_consecutive_terminators() {
    let canvas = TextCanvas::from_text("a\n\nb").unwrap();
    assert_eq!(canvas.total_lines(), 3);
    assert_eq!(canvas.line_width(1), Some(0));
    assert_eq!(canvas.to_text(), "a\n\nb");
}

#[test]
fn round_trip_mixed_width() {
    let canvas = TextCanvas::from_text("Hello 文件系统\nc文").unwrap();
    assert_eq!(canvas.to_text(), "Hello 文件系统\nc文");
}

#[test]
fn wide_char_addressing() {
    // widths 1 and 2: column 2 is right after the wide character, so the
    // insert lands after it, not inside its span
    let mut canvas = TextCanvas::from_text("c文").unwrap();
    canvas.insert_char(2, 0, 'Y');
    assert_eq!(canvas.to_text(), "c文Y");
}

#[test]
fn wide_char_span_start_addresses_wide_cell() {
    // column 1 falls at the start of the wide character's span, so the
    // insert lands before it
    let mut canvas = TextCanvas::from_text("c文").unwrap();
    canvas.insert_char(1, 0, 'Y');
    assert_eq!(canvas.to_text(), "cY文");
}

#[test]
fn width_updated_after_each_mutation() {
    let mut canvas = TextCanvas::from_text("Hello 文件系统").unwrap();
    assert_eq!(canvas.line_width(0), Some(14));
    canvas.insert_char(13, 0, 'Y');
    assert_eq!(canvas.line_width(0), Some(15));
    canvas.replace_char(14, 0, '文');
    assert_eq!(canvas.line_width(0), Some(16));
    canvas.delete_char(0, 0);
    assert_eq!(canvas.line_width(0), Some(15));
}

#[test]
fn growth_fills_every_missing_row() {
    let mut canvas = TextCanvas::default();
    canvas.insert_char(0, 5, 'Y');
    assert_eq!(canvas.total_lines(), 6);
    for row in 0..5 {
        assert_eq!(canvas.line_width(row), Some(0));
    }
    assert_eq!(canvas.line_width(5), Some(1));
}

#[test]
fn growth_from_existing_rows() {
    let mut canvas = TextCanvas::from_text("Hello").unwrap();
    canvas.insert_char(0, 3, 'Y');
    assert_eq!(canvas.total_lines(), 4);
    assert_eq!(canvas.line_width(1), Some(0));
    assert_eq!(canvas.line_width(2), Some(0));
    assert_eq!(canvas.to_text(), "Hello\n\n\nY");
}

#[test]
fn growth_at_exactly_one_past_last_row() {
    let mut canvas = TextCanvas::from_text("Hello").unwrap();
    canvas.insert_char(0, 1, 'Y');
    assert_eq!(canvas.total_lines(), 2);
    assert_eq!(canvas.to_text(), "Hello\nY");
}

#[test]
fn padding_is_exact() {
    let mut canvas = TextCanvas::from_text("ab").unwrap();
    canvas.insert_char(5, 0, 'Y');
    assert_eq!(canvas.line_width(0), Some(6));
    assert_eq!(canvas.to_text(), "ab   Y");
}

#[test]
fn padding_counts_display_columns() {
    // the row is 4 columns wide, so one space pads it out to column 5
    let mut canvas = TextCanvas::from_text("文文").unwrap();
    canvas.insert_char(5, 0, 'Y');
    assert_eq!(canvas.line_width(0), Some(6));
    assert_eq!(canvas.to_text(), "文文 Y");
}

#[test]
fn delete_middle() {
    let mut canvas = TextCanvas::from_text("Hello world").unwrap();
    canvas.delete_char(5, 0);
    assert_eq!(canvas.to_text(), "Helloworld");
    assert_eq!(canvas.line_width(0), Some(10));
}

#[test]
fn delete_missing_row_is_noop() {
    let mut canvas = TextCanvas::from_text("Hello").unwrap();
    canvas.delete_char(0, 5);
    assert_eq!(canvas.to_text(), "Hello");
}

#[test]
fn delete_past_end_of_line_is_noop() {
    let mut canvas = TextCanvas::from_text("Hello").unwrap();
    canvas.delete_char(99, 0);
    assert_eq!(canvas.to_text(), "Hello");
    assert_eq!(canvas.line_width(0), Some(5));
}

#[test]
fn delete_wide_char() {
    let mut canvas = TextCanvas::from_text("c文d").unwrap();
    canvas.delete_char(1, 0);
    assert_eq!(canvas.to_text(), "cd");
    assert_eq!(canvas.line_width(0), Some(2));
}

#[test]
fn break_line_splits_widths() {
    let mut canvas = TextCanvas::from_text("Hello world").unwrap();
    canvas.break_line(5, 0);
    assert_eq!(canvas.total_lines(), 2);
    assert_eq!(canvas.line_width(0), Some(5));
    assert_eq!(canvas.line_width(1), Some(6));
    assert_eq!(canvas.to_text(), "Hello\n world");
}

#[test]
fn break_line_missing_row_is_noop() {
    let mut canvas = TextCanvas::from_text("Hello").unwrap();
    canvas.break_line(0, 3);
    assert_eq!(canvas.to_text(), "Hello");
    assert_eq!(canvas.total_lines(), 1);
}

#[test]
fn break_line_at_start_and_end() {
    let mut canvas = TextCanvas::from_text("ab").unwrap();
    canvas.break_line(0, 0);
    assert_eq!(canvas.to_text(), "\nab");
    let mut other = TextCanvas::from_text("ab").unwrap();
    other.break_line(2, 0);
    assert_eq!(other.to_text(), "ab\n");
    assert_eq!(other.total_lines(), 2);
}

#[test]
fn from_text_rejects_undefined_width() {
    // a tab is a control character with no display width
    assert!(TextCanvas::from_text("a\tb").is_none());
    // so is the bell character
    assert!(TextCanvas::from_text("a\u{7}b").is_none());
}

#[test]
fn from_text_accepts_zero_width_characters() {
    // a combining accent has width zero, so "e" plus the accent spans one column
    let canvas = TextCanvas::from_text("e\u{301}").unwrap();
    assert_eq!(canvas.line_width(0), Some(1));
    assert_eq!(canvas.to_text(), "e\u{301}");
}

#[test]
fn try_insert_rejects_control_characters() {
    let mut canvas = TextCanvas::from_text("ab").unwrap();
    assert!(!canvas.try_insert_char(0, 0, '\n'));
    assert!(!canvas.try_insert_char(0, 0, '\t'));
    assert!(!canvas.try_insert_char(0, 0, '\u{7}'));
    assert_eq!(canvas.to_text(), "ab");
}

#[test]
fn try_insert_accepts_ordinary_characters() {
    let mut canvas = TextCanvas::from_text("ab").unwrap();
    assert!(canvas.try_insert_char(1, 0, 'Y'));
    assert_eq!(canvas.to_text(), "aYb");
}

#[test]
fn try_replace_matches_replace() {
    let mut canvas = TextCanvas::from_text("Hello").unwrap();
    assert!(canvas.try_replace_char(2, 0, 'Y'));
    assert_eq!(canvas.to_text(), "HeYlo");
    assert!(!canvas.try_replace_char(2, 0, '\t'));
    assert_eq!(canvas.to_text(), "HeYlo");
}

#[test]
fn replace_wide_char_shrinks_width() {
    let mut canvas = TextCanvas::from_text("c文").unwrap();
    canvas.replace_char(1, 0, 'Y');
    assert_eq!(canvas.to_text(), "cY");
    assert_eq!(canvas.line_width(0), Some(2));
}

#[test]
fn empty_grid_has_no_lines() {
    let canvas = TextCanvas::empty();
    assert_eq!(canvas.total_lines(), 0);
    assert_eq!(canvas.line_width(0), None);
    assert_eq!(canvas.to_text(), "");
}
