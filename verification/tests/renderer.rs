use asciimath_text_renderer::brackets::BracketType;
use asciimath_text_renderer::renderer::{
    Div, Drawable, Expr, Group, Literal, Matrix, Node, Root, ScriptExpr, Sqrt, Stack,
};

fn lit(s: &str) -> Box<Node> {
    Box::new(Node::Literal(Literal::new(s)))
}

#[test]
fn test_literal() {
    let l = Literal::new("abc");
    assert_eq!(l.width(), 3);
    assert_eq!(l.height(), 1);
    assert_eq!(&l.as_text(), "abc");
}

#[test]
fn renderer_test_literal() {
    let l = Literal::new("abc");
    assert_eq!(l.width(), 3);
    assert_eq!(l.height(), 1);
    assert_eq!(&l.as_text(), "abc");
}

#[test]
fn test_div() {
    let div = Div::new(lit("1"), lit("2"));
    assert_eq!(div.width(), 3);
    assert_eq!(div.height(), 3);
    assert_eq!(&div.as_text(), " 1 \n\u{2500}\u{2500}\u{2500}\n 2 ");
}

#[test]
fn renderer_test_div() {
    let div = Div::new(lit("1"), lit("2"));
    assert_eq!(div.width(), 3);
    assert_eq!(div.height(), 3);
    assert_eq!(&div.as_text(), " 1 \n\u{2500}\u{2500}\u{2500}\n 2 ");
}

#[test]
fn test_stack() {
    let stack = Stack::new(lit("1"), lit("2"));
    assert_eq!(stack.width(), 1);
    assert_eq!(stack.height(), 2);
    assert_eq!(&stack.as_text(), "1\n2");
}

#[test]
fn renderer_test_stack() {
    let stack = Stack::new(lit("1"), lit("2"));
    assert_eq!(stack.width(), 1);
    assert_eq!(stack.height(), 2);
    assert_eq!(&stack.as_text(), "1\n2");
}

#[test]
fn test_sqrt() {
    let sqrt = Sqrt::new(lit("1"));
    assert_eq!(sqrt.width(), 3);
    assert_eq!(sqrt.height(), 2);
    assert_eq!(&sqrt.as_text(), "  \u{2581}\n\u{2572}\u{2571}1");

    let div = Div::new(lit("1"), lit("2"));
    let sqrt = Sqrt::new(Box::new(Node::Div(div)));
    assert_eq!(sqrt.width(), 8);
    assert_eq!(sqrt.height(), 4);
    assert_eq!(
        &sqrt.as_text(),
        "     \u{2581}\u{2581}\u{2581}\n    \u{2571} 1 \n\u{2572}  \u{2571} \u{2500}\u{2500}\u{2500}\n \u{2572}\u{2571}   2 "
    );
}

#[test]
fn renderer_test_sqrt() {
    let sqrt = Sqrt::new(lit("1"));
    assert_eq!(sqrt.width(), 3);
    assert_eq!(sqrt.height(), 2);
    assert_eq!(&sqrt.as_text(), "  \u{2581}\n\u{2572}\u{2571}1");

    let div = Div::new(lit("1"), lit("2"));
    let sqrt = Sqrt::new(Box::new(Node::Div(div)));
    assert_eq!(sqrt.width(), 8);
    assert_eq!(sqrt.height(), 4);
    assert_eq!(
        &sqrt.as_text(),
        "     \u{2581}\u{2581}\u{2581}\n    \u{2571} 1 \n\u{2572}  \u{2571} \u{2500}\u{2500}\u{2500}\n \u{2572}\u{2571}   2 "
    );
}

#[test]
fn test_expression() {
    let expr = Expr::new(vec![]);
    assert_eq!(&expr.as_text(), "");
    let expr = Expr::new(vec![lit("a")]);
    assert_eq!(&expr.as_text(), "a");
    let expr = Expr::new(vec![lit("a"), lit("b")]);
    assert_eq!(&expr.as_text(), "ab");
}

#[test]
fn renderer_test_expression() {
    let expr = Expr::new(vec![]);
    assert_eq!(&expr.as_text(), "");
    let expr = Expr::new(vec![lit("a")]);
    assert_eq!(&expr.as_text(), "a");
    let expr = Expr::new(vec![lit("a"), lit("b")]);
    assert_eq!(&expr.as_text(), "ab");
}

// Row composition is associative on rendered text, also when the pieces
// have different heights and levels.
#[test]
fn test_row_concatenation_associative() {
    let a = || Box::new(Node::Div(Div::new(lit("1"), lit("2"))));
    let b = || lit("x");
    let c = || Box::new(Node::Sqrt(Sqrt::new(lit("y"))));

    let flat = Expr::new(vec![a(), b(), c()]);
    let left = Expr::new(vec![Box::new(Node::Expr(Expr::new(vec![a(), b()]))), c()]);
    let right = Expr::new(vec![a(), Box::new(Node::Expr(Expr::new(vec![b(), c()])))]);

    let flat_text = flat.as_text();
    assert_eq!(left.as_text(), flat_text);
    assert_eq!(right.as_text(), flat_text);
}

// Sizing and painting are idempotent: asking twice changes nothing.
#[test]
fn test_queries_idempotent() {
    let div = Div::new(lit("1"), lit("22"));
    assert_eq!(div.width(), div.width());
    assert_eq!(div.height(), div.height());
    assert_eq!(div.level(), div.level());
    assert_eq!(div.as_text(), div.as_text());
    assert_eq!(div.to_canvas().to_string(), div.to_canvas().to_string());
}

// A literal's text survives the round trip through painting.
#[test]
fn test_literal_round_trip() {
    let l = Literal::new("x+\u{03b1}");
    assert_eq!(&l.as_text(), "x+\u{03b1}");
}

// One displayed unit can span several characters and still fills one cell.
#[test]
fn test_literal_combining_grapheme() {
    let l = Literal::new("a\u{301}b");
    assert_eq!(l.width(), 2);
    assert_eq!(&l.as_text(), "a\u{301}b");
}

#[test]
fn test_empty_group_round_brackets() {
    let g = Group::new(BracketType::LeftRound, None, BracketType::RightRound);
    assert_eq!(g.width(), 2);
    assert_eq!(g.height(), 1);
    assert_eq!(&g.as_text(), "()");
}

#[test]
fn test_group_square_brackets() {
    let g = Group::new(BracketType::LeftSquare, Some(lit("x")), BracketType::RightSquare);
    assert_eq!(&g.as_text(), "[x]");
}

#[test]
fn test_group_tall_curly_brackets() {
    let div = Div::new(lit("1"), lit("2"));
    let g = Group::new(
        BracketType::LeftCurly,
        Some(Box::new(Node::Div(div))),
        BracketType::RightCurly,
    );
    assert_eq!(g.height(), 3);
    assert_eq!(
        &g.as_text(),
        "\u{23a7} 1 \u{23ab}\n\u{23a8}\u{2500}\u{2500}\u{2500}\u{23ac}\n\u{23a9} 2 \u{23ad}"
    );
}

// A radical over a fraction: the canvas is as wide as the fraction plus
// its height plus the rounded-up half of that height, one row taller than
// the fraction.
#[test]
fn test_sqrt_of_fraction_dimensions() {
    let div = Div::new(lit("1"), lit("2"));
    let fw = div.width();
    let fh = div.height();
    let sqrt = Sqrt::new(Box::new(Node::Div(Div::new(lit("1"), lit("2")))));
    assert_eq!(sqrt.width(), fw + fh + fh.div_ceil(2));
    assert_eq!(sqrt.height(), fh + 1);
}

// A two-by-two matrix of single characters: one blank row between the data
// rows, one blank column between the data columns, one bracket column on
// each side.
#[test]
fn test_matrix_two_by_two() {
    let m = Matrix::new(
        BracketType::LeftSquare,
        vec![lit("a"), lit("b"), lit("c"), lit("d")],
        BracketType::RightSquare,
        2,
    );
    assert_eq!(m.width(), 5);
    assert_eq!(m.height(), 3);
    assert_eq!(
        &m.as_text(),
        "\u{23a1}a b\u{23a4}\n\u{23a5}   \u{23a5}\n\u{23a3}c d\u{23a6}"
    );
}

#[test]
fn test_matrix_max_sizes() {
    let m = Matrix::new(
        BracketType::LeftRound,
        vec![lit("aa"), lit("b"), lit("c"), lit("d")],
        BracketType::RightRound,
        2,
    );
    let sizes = m.max_sizes();
    assert_eq!(sizes.len(), 2);
    assert_eq!(sizes[0], vec![(2, 1), (1, 1)]);
    assert_eq!(sizes[1], vec![(2, 1), (1, 1)]);
}

// A base with both scripts: superscript row, base row, subscript row, the
// scripts right of the base's width.
#[test]
fn test_scripted_node_rows() {
    let s = ScriptExpr::new(lit("x"), Some(lit("1")), Some(lit("2")));
    assert_eq!(s.width(), 2);
    assert_eq!(s.height(), 3);
    assert_eq!(&s.as_text(), " 2\nx \n 1");
}

#[test]
fn test_scripted_node_sub_only() {
    let s = ScriptExpr::new(lit("x"), Some(lit("0")), None);
    assert_eq!(&s.as_text(), "x \n 0");
}

#[test]
fn test_root_with_index() {
    let root = Root::new(lit("3"), lit("8"));
    let text = root.as_text();
    assert_eq!(root.height(), 2);
    assert_eq!(root.width(), 3);
    assert_eq!(&text, " 3\u{2581}\n\u{2572}\u{2571}8");
}

#[test]
fn test_vertical_bracket_group() {
    let g = Group::new(BracketType::Vertical, Some(lit("x")), BracketType::Vertical);
    assert_eq!(&g.as_text(), "\u{ffe8}x\u{ffe8}");
}

#[test]
fn test_group_angled_brackets_two_rows() {
    let st = Stack::new(lit("1"), lit("2"));
    let g = Group::new(
        BracketType::LeftAngled,
        Some(Box::new(Node::Stack(st))),
        BracketType::RightAngled,
    );
    assert_eq!(g.width(), 3);
    assert_eq!(
        &g.as_text(),
        "\u{2571}1\u{2572}\n\u{2572}2\u{2571}"
    );
}

#[test]
fn test_group_angled_brackets_odd_height() {
    let div = Div::new(lit("1"), lit("2"));
    let g = Group::new(
        BracketType::LeftAngled,
        Some(Box::new(Node::Div(div))),
        BracketType::RightAngled,
    );
    assert_eq!(g.width(), 7);
    assert_eq!(g.height(), 3);
    assert_eq!(
        &g.as_text(),
        " \u{2571} 1 \u{2572} \n\u{1fba4} \u{2500}\u{2500}\u{2500} \u{1fba5}\n \u{2572} 2 \u{2571} "
    );
}

#[test]
fn test_root_with_tall_radicand() {
    let div = Div::new(lit("1"), lit("2"));
    let root = Root::new(lit("2"), Box::new(Node::Div(div)));
    assert_eq!(root.width(), 7);
    assert_eq!(root.height(), 4);
    assert_eq!(
        &root.as_text(),
        "    \u{2581}\u{2581}\u{2581}\n   \u{2571} 1 \n 2\u{2571} \u{2500}\u{2500}\u{2500}\n\u{2572}\u{2571}   2 "
    );
}

// A bare vertical bracket beside an empty interior still draws one glyph.
#[test]
fn test_group_vertical_brackets_empty() {
    let g = Group::new(BracketType::Vertical, None, BracketType::Vertical);
    assert_eq!(g.width(), 2);
    assert_eq!(g.height(), 1);
    assert_eq!(&g.as_text(), "\u{ffe8}\u{ffe8}");
}
