use asciimath_text_renderer::brackets::{
    draw_bracket, draw_long_curly_bracket, BracketType,
};
use asciimath_text_renderer::text_canvas::TextCanvas;

// The brace's waist sits at the bracket's own half-height row, wherever
// on the canvas the bracket starts.
#[test]
fn test_curly_waist_follows_bracket_row() {
    let mut tc = TextCanvas::new(1, 4);
    draw_long_curly_bracket(
        &mut tc,
        3,
        0,
        1,
        "\u{23a7}",
        "\u{23aa}",
        "\u{23a8}",
        "\u{23a9}",
    );
    assert_eq!(tc.to_string(), " \n\u{23a7}\n\u{23a8}\n\u{23a9}");
}

// The right angled bracket's point sits at the apex, one column right of
// its halves, wherever on the canvas the bracket starts.
#[test]
fn test_angled_point_follows_bracket_position() {
    let mut tc = TextCanvas::new(2, 5);
    draw_bracket(&mut tc, &BracketType::RightAngled, 3, 0, 2);
    assert_eq!(
        tc.to_string(),
        "  \n  \n\u{2572} \n \u{1fba5}\n\u{2571} "
    );
}

// A vertical bracket told to wrap empty content still paints one glyph.
#[test]
fn test_vertical_bracket_empty_content() {
    let mut tc = TextCanvas::new(1, 1);
    draw_bracket(&mut tc, &BracketType::Vertical, 0, 0, 0);
    assert_eq!(tc.to_string(), "\u{ffe8}");
}
