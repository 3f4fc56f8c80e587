use text_canvas::TextCanvas;

#[test]
fn line_length() {
    let raw = "Hello world";
    let canvas = TextCanvas::from_text(raw).unwrap();
    assert_eq!(canvas.total_lines(), 1);
    assert_eq!(canvas.line_width(0), Some(11));
}

#[test]
fn break_line() {
    let raw = "Hello world";
    let mut canvas = TextCanvas::from_text(raw).unwrap();
    canvas.break_line(5, 0);
    assert_eq!(canvas.to_text(), "Hello\n world");
}

#[test]
fn insert_anywhere_col() {
    let mut canvas = TextCanvas::default();
    canvas.insert_char(5, 0, 'Y');
    assert_eq!(canvas.to_text(), "     Y");
}

#[test]
fn insert_anywhere_line() {
    let mut canvas = TextCanvas::default();
    canvas.insert_char(0, 5, 'Y');
    assert_eq!(canvas.to_text(), "\n\n\n\n\nY");
}

#[test]
fn lines_2() {
    let raw = "Hello\nworld";
    let canvas = TextCanvas::from_text(raw).unwrap();
    assert_eq!(canvas.total_lines(), 2);
    assert_eq!(canvas.line_width(0), Some(5));
    assert_eq!(canvas.line_width(1), Some(5));
    assert_eq!(canvas.line_width(2), None);
}

#[test]
fn cjk() {
    let raw = "Hello 文件系统";
    let canvas = TextCanvas::from_text(raw).unwrap();
    assert_eq!(canvas.total_lines(), 1);
    assert_eq!(canvas.line_width(0), Some(14));
}

#[test]
fn insert_end_cjk() {
    let raw = "Hello 文件系统";
    let mut canvas = TextCanvas::from_text(raw).unwrap();
    canvas.insert_char(13, 0, 'Y');
    assert_eq!(canvas.to_text(), "Hello 文件系统Y");
}

#[test]
fn insert_end_cjk_same_insert_on_13th_or_14th() {
    let raw = "Hello 文件系统";
    let mut canvas = TextCanvas::from_text(raw).unwrap();
    canvas.insert_char(14, 0, 'Y');
    assert_eq!(canvas.to_text(), "Hello 文件系统Y");
}

#[test]
fn insert_end_cjk_but_not_15th() {
    let raw = "Hello 文件系统";
    let mut canvas = TextCanvas::from_text(raw).unwrap();
    canvas.insert_char(15, 0, 'Y');
    assert_eq!(canvas.to_text(), "Hello 文件系统 Y");
}

#[test]
fn replace_start() {
    let raw = "Hello";
    let mut canvas = TextCanvas::from_text(raw).unwrap();
    canvas.replace_char(0, 0, 'Y');
    assert_eq!(canvas.to_text(), "Yello");
}

#[test]
fn replace_middle() {
    let raw = "Hello";
    let mut canvas = TextCanvas::from_text(raw).unwrap();
    canvas.replace_char(2, 0, 'Y');
    assert_eq!(canvas.to_text(), "HeYlo");
}

#[test]
fn replace_end() {
    let raw = "Hello";
    let mut canvas = TextCanvas::from_text(raw).unwrap();
    canvas.replace_char(4, 0, 'Y');
    assert_eq!(canvas.to_text(), "HellY");
}

#[test]
fn insert_start() {
    let raw = "Hello";
    let mut canvas = TextCanvas::from_text(raw).unwrap();
    canvas.insert_char(0, 0, 'Y');
    assert_eq!(canvas.to_text(), "YHello");
}

#[test]
fn insert_middle() {
    let raw = "Hello";
    let mut canvas = TextCanvas::from_text(raw).unwrap();
    canvas.insert_char(2, 0, 'Y');
    assert_eq!(canvas.to_text(), "HeYllo");
}

#[test]
fn insert_end() {
    let raw = "Hello";
    let mut canvas = TextCanvas::from_text(raw).unwrap();
    canvas.insert_char(5, 0, 'Y');
    assert_eq!(canvas.to_text(), "HelloY");
}

#[test]
fn lib_line_length() {
    let raw = "Hello world";
    let buffer = TextCanvas::from_text(raw).unwrap();
    assert_eq!(buffer.total_lines(), 1);
    assert_eq!(buffer.line_width(0), Some(11));
}

#[test]
fn lib_insert_anywhere_col() {
    let mut buffer = TextCanvas::default();
    buffer.insert_char(5, 0, 'Y');
    assert_eq!(buffer.to_text(), "     Y");
}

#[test]
fn lib_insert_anywhere_line() {
    let mut buffer = TextCanvas::default();
    buffer.insert_char(0, 5, 'Y');
    assert_eq!(buffer.to_text(), "\n\n\n\n\nY");
}

#[test]
fn lib_lines_2() {
    let raw = "Hello\nworld";
    let buffer = TextCanvas::from_text(raw).unwrap();
    assert_eq!(buffer.total_lines(), 2);
    assert_eq!(buffer.line_width(0), Some(5));
    assert_eq!(buffer.line_width(1), Some(5));
    assert_eq!(buffer.line_width(2), None);
}

#[test]
fn lib_cjk() {
    let raw = "Hello 文件系统";
    let buffer = TextCanvas::from_text(raw).unwrap();
    assert_eq!(buffer.total_lines(), 1);
    assert_eq!(buffer.line_width(0), Some(14));
}

#[test]
fn lib_insert_end_cjk() {
    let raw = "Hello 文件系统";
    let mut buffer = TextCanvas::from_text(raw).unwrap();
    buffer.insert_char(13, 0, 'Y');
    assert_eq!(buffer.to_text(), "Hello 文件系统Y");
}

#[test]
fn lib_insert_end_cjk_same_insert_on_13th_or_14th() {
    let raw = "Hello 文件系统";
    let mut buffer = TextCanvas::from_text(raw).unwrap();
    buffer.insert_char(14, 0, 'Y');
    assert_eq!(buffer.to_text(), "Hello 文件系统Y");
}

#[test]
fn lib_insert_end_cjk_but_not_15th() {
    let raw = "Hello 文件系统";
    let mut buffer = TextCanvas::from_text(raw).unwrap();
    buffer.insert_char(15, 0, 'Y');
    assert_eq!(buffer.to_text(), "Hello 文件系统 Y");
}

#[test]
fn lib_replace_start() {
    let raw = "Hello";
    let mut buffer = TextCanvas::from_text(raw).unwrap();
    buffer.replace_char(0, 0, 'Y');
    assert_eq!(buffer.to_text(), "Yello");
}

#[test]
fn lib_replace_middle() {
    let raw = "Hello";
    let mut buffer = TextCanvas::from_text(raw).unwrap();
    buffer.replace_char(2, 0, 'Y');
    assert_eq!(buffer.to_text(), "HeYlo");
}

#[test]
fn lib_replace_end() {
    let raw = "Hello";
    let mut buffer = TextCanvas::from_text(raw).unwrap();
    buffer.replace_char(4, 0, 'Y');
    assert_eq!(buffer.to_text(), "HellY");
}

#[test]
fn lib_insert_start() {
    let raw = "Hello";
    let mut buffer = TextCanvas::from_text(raw).unwrap();
    buffer.insert_char(0, 0, 'Y');
    assert_eq!(buffer.to_text(), "YHello");
}

#[test]
fn lib_insert_middle() {
    let raw = "Hello";
    let mut buffer = TextCanvas::from_text(raw).unwrap();
    buffer.insert_char(2, 0, 'Y');
    assert_eq!(buffer.to_text(), "HeYllo");
}

#[test]
fn lib_insert_end() {
    let raw = "Hello";
    let mut buffer = TextCanvas::from_text(raw).unwrap();
    buffer.insert_char(5, 0, 'Y');
    assert_eq!(buffer.to_text(), "HelloY");
}
