use asciimath_text_renderer::text_canvas::TextCanvas;

#[test]
fn test_text_canvas() {
    let mut tc = TextCanvas::new(1, 1);
    assert_eq!(tc.to_string(), " ");
    tc.set(0, 0, "a");
    assert_eq!(tc.to_string(), "a");
}

#[test]
fn test_text_canvas_to_string_with_newlines() {
    let tc = TextCanvas::new(1, 2);
    assert_eq!(tc.to_string(), " \n ");
}

#[test]
fn test_text_canvas_draw() {
    let mut tc = TextCanvas::new(2, 2);
    tc.set(0, 0, "a");
    tc.set(1, 0, "b");
    tc.set(0, 1, "c");
    tc.set(1, 1, "d");
    assert_eq!(tc.to_string(), "ab\ncd");
    let mut bigger_tc = TextCanvas::new(4, 4);
    bigger_tc.draw(&tc, 0, 0);
    let expected = "ab  \ncd  \n    \n    ";
    assert_eq!(bigger_tc.to_string(), expected);
}

#[test]
fn test_text_canvas_get() {
    let mut tc = TextCanvas::new(2, 1);
    assert_eq!(tc.get(0, 0), " ");
    tc.set(1, 0, "\u{2571}");
    assert_eq!(tc.get(1, 0), "\u{2571}");
    assert_eq!(tc.to_string(), " \u{2571}");
}

#[test]
fn test_text_canvas_draw_offset() {
    let mut small = TextCanvas::new(1, 1);
    small.set(0, 0, "x");
    let mut big = TextCanvas::new(3, 2);
    big.draw(&small, 2, 1);
    assert_eq!(big.to_string(), "   \n  x");
}

#[test]
fn test_text_canvas_zero_height_serializes_empty() {
    let tc = TextCanvas::new(5, 0);
    assert_eq!(tc.to_string(), "");
}
