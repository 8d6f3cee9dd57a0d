use asciimath_text_renderer::asciimath::{
    bracket_type, visit_expr, visit_fraction, visit_script_func, visit_simple,
    visit_simple_script, Expression, Frac, FuncCall, Intermediate, RenderError, Script,
    ScriptFunc, Simple, SimpleScript, SymbolTable,
};
use asciimath_text_renderer::brackets::BracketType;
use asciimath_text_renderer::renderer::Drawable;

fn table() -> SymbolTable {
    let mut t = SymbolTable::new();
    t.insert("alpha", "\u{03b1}");
    t.insert("sum", "\u{2211}");
    t
}

fn plain(s: Simple) -> Intermediate {
    Intermediate::ScriptFunc(ScriptFunc::Simple(SimpleScript {
        simple: s,
        script: Script::NoScript,
    }))
}

fn expr_of(items: Vec<Intermediate>) -> Expression {
    Expression { items }
}

fn render_simple(s: Simple) -> String {
    let node = visit_simple(&s, &table(), false).unwrap().unwrap();
    node.as_text()
}

#[test]
fn test_bracket_type_tokens() {
    assert_eq!(bracket_type("("), BracketType::LeftRound);
    assert_eq!(bracket_type(")"), BracketType::RightRound);
    assert_eq!(bracket_type("["), BracketType::LeftSquare);
    assert_eq!(bracket_type("]"), BracketType::RightSquare);
    assert_eq!(bracket_type("{"), BracketType::LeftCurly);
    assert_eq!(bracket_type("}"), BracketType::RightCurly);
    assert_eq!(bracket_type("<<"), BracketType::LeftAngled);
    assert_eq!(bracket_type("(:"), BracketType::LeftAngled);
    assert_eq!(bracket_type(">>"), BracketType::RightAngled);
    assert_eq!(bracket_type(":)"), BracketType::RightAngled);
    assert_eq!(bracket_type("|"), BracketType::Vertical);
    assert_eq!(bracket_type("{:"), BracketType::NoBracket);
    assert_eq!(bracket_type(":}"), BracketType::NoBracket);
    assert_eq!(bracket_type("??"), BracketType::NoBracket);
}

#[test]
fn test_symbol_lookup_hit_and_miss() {
    let t = table();
    assert_eq!(t.lookup("alpha"), "\u{03b1}");
    assert_eq!(t.lookup("beta"), "beta");
}

// Scenario: the tokens of "abc" resolve so that the rendered row is "abc".
#[test]
fn test_render_idents_in_a_row() {
    let e = expr_of(vec![
        plain(Simple::Ident("a".to_string())),
        plain(Simple::Ident("b".to_string())),
        plain(Simple::Ident("c".to_string())),
    ]);
    let node = visit_expr(&e, &table()).unwrap().unwrap();
    assert_eq!(node.as_text(), "abc");
}

#[test]
fn test_symbol_resolves_to_glyph() {
    assert_eq!(render_simple(Simple::Symbol("alpha".to_string())), "\u{03b1}");
    assert_eq!(render_simple(Simple::Symbol("beta".to_string())), "beta");
}

// Scenario: a fraction of "1" over "2" renders as three lines.
#[test]
fn test_render_fraction() {
    let fr = Frac {
        numer: Box::new(ScriptFunc::Simple(SimpleScript {
            simple: Simple::Number("1".to_string()),
            script: Script::NoScript,
        })),
        denom: Box::new(ScriptFunc::Simple(SimpleScript {
            simple: Simple::Number("2".to_string()),
            script: Script::NoScript,
        })),
    };
    let node = visit_fraction(&fr, &table()).unwrap().unwrap();
    assert_eq!(node.as_text(), " 1 \n\u{2500}\u{2500}\u{2500}\n 2 ");
}

#[test]
fn test_render_sqrt_unary() {
    let s = Simple::Unary {
        op: "sqrt".to_string(),
        arg: Box::new(Simple::Number("1".to_string())),
    };
    assert_eq!(render_simple(s), "  \u{2581}\n\u{2572}\u{2571}1");
}

#[test]
fn test_unsupported_unary_fails() {
    let s = Simple::Unary {
        op: "hat".to_string(),
        arg: Box::new(Simple::Number("1".to_string())),
    };
    assert_eq!(
        visit_simple(&s, &table(), false).unwrap_err(),
        RenderError::UnsupportedConstruct
    );
}

#[test]
fn test_unsupported_binary_fails() {
    let s = Simple::Binary {
        op: "color".to_string(),
        first: Box::new(Simple::Number("1".to_string())),
        second: Box::new(Simple::Number("2".to_string())),
    };
    assert_eq!(
        visit_simple(&s, &table(), false).unwrap_err(),
        RenderError::UnsupportedConstruct
    );
}

#[test]
fn test_malformed_matrix_fails() {
    let s = Simple::Matrix {
        left_bracket: "[".to_string(),
        cells: vec![
            expr_of(vec![plain(Simple::Ident("a".to_string()))]),
            expr_of(vec![plain(Simple::Ident("b".to_string()))]),
            expr_of(vec![plain(Simple::Ident("c".to_string()))]),
        ],
        num_cols: 2,
        right_bracket: "]".to_string(),
    };
    assert_eq!(
        visit_simple(&s, &table(), false).unwrap_err(),
        RenderError::MalformedMatrix
    );
}

#[test]
fn test_error_messages() {
    assert_eq!(RenderError::UnsupportedConstruct.message(), "unsupported construct");
    assert_eq!(RenderError::MalformedMatrix.message(), "malformed matrix");
}

#[test]
fn test_missing_translates_to_no_node() {
    assert!(visit_simple(&Simple::Missing, &table(), false).unwrap().is_none());
}

// An operand group keeps author-written brackets but loses the ones a
// group used purely for precedence when braces are omitted.
#[test]
fn test_omit_braces_on_group() {
    let g = Simple::Group {
        left_bracket: "(".to_string(),
        expr: expr_of(vec![plain(Simple::Ident("x".to_string()))]),
        right_bracket: ")".to_string(),
    };
    let kept = visit_simple(&g, &table(), false).unwrap().unwrap();
    assert_eq!(kept.as_text(), "(x)");
    let g2 = Simple::Group {
        left_bracket: "(".to_string(),
        expr: expr_of(vec![plain(Simple::Ident("x".to_string()))]),
        right_bracket: ")".to_string(),
    };
    let dropped = visit_simple(&g2, &table(), true).unwrap().unwrap();
    assert_eq!(dropped.as_text(), "x");
}

#[test]
fn test_empty_group_renders_bare_brackets() {
    let g = Simple::Group {
        left_bracket: "(".to_string(),
        expr: expr_of(vec![]),
        right_bracket: ")".to_string(),
    };
    let node = visit_simple(&g, &table(), false).unwrap().unwrap();
    assert_eq!(node.as_text(), "()");
}

#[test]
fn test_scripted_ident() {
    let ss = SimpleScript {
        simple: Simple::Ident("x".to_string()),
        script: Script::Subsuper(
            Box::new(Simple::Number("1".to_string())),
            Box::new(Simple::Number("2".to_string())),
        ),
    };
    let node = visit_simple_script(&ss, &table(), false).unwrap().unwrap();
    assert_eq!(node.as_text(), " 2\nx \n 1");
}

#[test]
fn test_function_with_argument() {
    let f = FuncCall {
        func: "sin".to_string(),
        script: Script::NoScript,
        arg: Box::new(ScriptFunc::Simple(SimpleScript {
            simple: Simple::Ident("x".to_string()),
            script: Script::NoScript,
        })),
    };
    let node = visit_script_func(&ScriptFunc::Func(f), &table(), false).unwrap().unwrap();
    assert_eq!(node.as_text(), "sinx");
}

#[test]
fn test_matrix_via_translator() {
    let s = Simple::Matrix {
        left_bracket: "[".to_string(),
        cells: vec![
            expr_of(vec![plain(Simple::Ident("a".to_string()))]),
            expr_of(vec![plain(Simple::Ident("b".to_string()))]),
            expr_of(vec![plain(Simple::Ident("c".to_string()))]),
            expr_of(vec![plain(Simple::Ident("d".to_string()))]),
        ],
        num_cols: 2,
        right_bracket: "]".to_string(),
    };
    let node = visit_simple(&s, &table(), false).unwrap().unwrap();
    assert_eq!(
        node.as_text(),
        "\u{23a1}a b\u{23a4}\n\u{23a5}   \u{23a5}\n\u{23a3}c d\u{23a6}"
    );
}
