//! Properties of the layout engine stated and proved in one place: the
//! dimensions of literals and fractions, the rule row of a painted
//! fraction, the round trip from a literal's text through painting and
//! serialization, and what the empty row and the bare bracket pair render
//! to.

use vstd::prelude::*;

use crate::graphemes::graphemes_of;
use crate::renderer::{
    dims_of, lmax, max2, node_dims, node_height, node_level, node_paint, node_width, node_wf,
    row_cells_paint, Div, Expr, Group, Literal, Node,
};
use crate::brackets::{
    spec_angled_left, spec_angled_right, spec_curly_rows, spec_draw_bracket,
    spec_long_bracket, spec_long_curly_bracket, BracketType,
};
use crate::text_canvas::{
    blank_cell, blank_grid, grid_blit, grid_diag_back, grid_diag_down, grid_diag_up, grid_hline,
    grid_put, grid_text, grid_text_upto, grid_vline, grid_wf, row_text, row_text_upto, Cell, Grid,
};

verus! {

/// A blank grid has its stated dimensions.
pub proof fn lemma_blank_grid_wf(w: nat, h: nat)
    ensures
        grid_wf(blank_grid(w, h), w, h),
{
}

/// A blit changes cells, never the shape of the grid.
pub proof fn lemma_grid_blit_wf(g: Grid, s: Grid, ax: int, ay: int, w: nat, h: nat)
    requires
        grid_wf(g, w, h),
    ensures
        grid_wf(grid_blit(g, s, ax, ay), w, h),
{
}

/// A horizontal run keeps the grid's shape, sets exactly its own cells to
/// the given cell, and leaves every other cell unchanged.
pub proof fn lemma_grid_hline_cells(g: Grid, x0: int, y: int, n: int, c: Cell, w: nat, h: nat)
    requires
        grid_wf(g, w, h),
        0 <= y < h,
        0 <= x0,
        x0 + n <= w,
    ensures
        grid_wf(grid_hline(g, x0, y, n, c), w, h),
        forall|i: int| x0 <= i < x0 + n ==> grid_hline(g, x0, y, n, c)[y][i] == c,
        forall|yy: int, xx: int|
            0 <= yy < h && 0 <= xx < w && (yy != y || xx < x0 || xx >= x0 + n) ==> grid_hline(
                g,
                x0,
                y,
                n,
                c,
            )[yy][xx] == g[yy][xx],
    decreases n,
{
    if n > 0 {
        lemma_grid_hline_cells(g, x0, y, n - 1, c, w, h);
    }
}

/// A single cell write keeps the grid's shape.
pub proof fn lemma_grid_put_wf(g: Grid, x: int, y: int, c: Cell, w: nat, h: nat)
    requires
        grid_wf(g, w, h),
    ensures
        grid_wf(grid_put(g, x, y, c), w, h),
{
}

/// A horizontal run keeps the grid's shape.
pub proof fn lemma_grid_hline_wf(g: Grid, x0: int, y: int, n: int, c: Cell, w: nat, h: nat)
    requires
        grid_wf(g, w, h),
    ensures
        grid_wf(grid_hline(g, x0, y, n, c), w, h),
    decreases n,
{
    if n > 0 {
        lemma_grid_hline_wf(g, x0, y, n - 1, c, w, h);
        lemma_grid_put_wf(grid_hline(g, x0, y, n - 1, c), x0 + n - 1, y, c, w, h);
    }
}

/// A vertical run keeps the grid's shape.
pub proof fn lemma_grid_vline_wf(g: Grid, x: int, y0: int, n: int, c: Cell, w: nat, h: nat)
    requires
        grid_wf(g, w, h),
    ensures
        grid_wf(grid_vline(g, x, y0, n, c), w, h),
    decreases n,
{
    if n > 0 {
        lemma_grid_vline_wf(g, x, y0, n - 1, c, w, h);
        lemma_grid_put_wf(grid_vline(g, x, y0, n - 1, c), x, y0 + n - 1, c, w, h);
    }
}

/// A falling diagonal keeps the grid's shape.
pub proof fn lemma_grid_diag_down_wf(g: Grid, x0: int, y0: int, n: int, c: Cell, w: nat, h: nat)
    requires
        grid_wf(g, w, h),
    ensures
        grid_wf(grid_diag_down(g, x0, y0, n, c), w, h),
    decreases n,
{
    if n > 0 {
        lemma_grid_diag_down_wf(g, x0, y0, n - 1, c, w, h);
        lemma_grid_put_wf(grid_diag_down(g, x0, y0, n - 1, c), x0 + n - 1, y0 + n - 1, c, w, h);
    }
}

/// A rising diagonal keeps the grid's shape.
pub proof fn lemma_grid_diag_up_wf(g: Grid, x0: int, y0: int, n: int, c: Cell, w: nat, h: nat)
    requires
        grid_wf(g, w, h),
    ensures
        grid_wf(grid_diag_up(g, x0, y0, n, c), w, h),
    decreases n,
{
    if n > 0 {
        lemma_grid_diag_up_wf(g, x0, y0, n - 1, c, w, h);
        lemma_grid_put_wf(grid_diag_up(g, x0, y0, n - 1, c), x0 + n - 1, y0 - (n - 1), c, w, h);
    }
}

/// A backward diagonal keeps the grid's shape.
pub proof fn lemma_grid_diag_back_wf(g: Grid, x0: int, y0: int, n: int, c: Cell, w: nat, h: nat)
    requires
        grid_wf(g, w, h),
    ensures
        grid_wf(grid_diag_back(g, x0, y0, n, c), w, h),
    decreases n,
{
    if n > 0 {
        lemma_grid_diag_back_wf(g, x0, y0, n - 1, c, w, h);
        lemma_grid_put_wf(grid_diag_back(g, x0, y0, n - 1, c), x0 - (n - 1), y0 + n - 1, c, w, h);
    }
}

/// The interior rows of a curly bracket keep the grid's shape.
pub proof fn lemma_curly_rows_wf(
    g: Grid,
    x: int,
    y0: int,
    k: int,
    mid: int,
    extension: Cell,
    middle: Cell,
    w: nat,
    h: nat,
)
    requires
        grid_wf(g, w, h),
    ensures
        grid_wf(spec_curly_rows(g, x, y0, k, mid, extension, middle), w, h),
    decreases k,
{
    if k > 0 {
        lemma_curly_rows_wf(g, x, y0, k - 1, mid, extension, middle, w, h);
        lemma_grid_put_wf(
            spec_curly_rows(g, x, y0, k - 1, mid, extension, middle),
            x,
            y0 + k - 1,
            if y0 + k - 1 == mid {
                middle
            } else {
                extension
            },
            w,
            h,
        );
    }
}

/// Painting any bracket keeps the grid's shape.
pub proof fn lemma_draw_bracket_wf(g: Grid, b: BracketType, bh: int, x: int, y: int, w: nat, h: nat)
    requires
        grid_wf(g, w, h),
    ensures
        grid_wf(spec_draw_bracket(g, b, bh, x, y), w, h),
{
    let g1 = grid_put(g, x, y, "\u{23b0}"@);
    lemma_grid_put_wf(g, x, y, "\u{23b0}"@, w, h);
    assert forall|top: Cell, ext: Cell, bot: Cell|
        grid_wf(#[trigger] spec_long_bracket(g, x, y, bh, top, ext, bot), w, h) by {
        lemma_grid_put_wf(g, x, y, top, w, h);
        lemma_grid_vline_wf(grid_put(g, x, y, top), x, y + 1, bh - 2, ext, w, h);
        lemma_grid_put_wf(
            grid_vline(grid_put(g, x, y, top), x, y + 1, bh - 2, ext),
            x,
            y + bh - 1,
            bot,
            w,
            h,
        );
    }
    assert forall|top: Cell, ext: Cell, mid: Cell, bot: Cell|
        grid_wf(#[trigger] spec_long_curly_bracket(g, x, y, bh, top, ext, mid, bot), w, h) by {
        lemma_grid_put_wf(g, x, y, top, w, h);
        lemma_curly_rows_wf(grid_put(g, x, y, top), x, y + 1, bh - 2, y + bh / 2, ext, mid, w, h);
        lemma_grid_put_wf(
            spec_curly_rows(grid_put(g, x, y, top), x, y + 1, bh - 2, y + bh / 2, ext, mid),
            x,
            y + bh - 1,
            bot,
            w,
            h,
        );
    }
    assert forall|up: Cell, mid: Cell, lo: Cell|
        grid_wf(#[trigger] spec_angled_left(g, x, y, bh, up, mid, lo), w, h) by {
        if bh % 2 == 0 {
            lemma_grid_diag_back_wf(g, x + bh / 2 - 1, y, bh / 2, up, w, h);
            lemma_grid_diag_down_wf(
                grid_diag_back(g, x + bh / 2 - 1, y, bh / 2, up),
                x,
                y + bh / 2,
                bh / 2,
                lo,
                w,
                h,
            );
        } else {
            lemma_grid_diag_back_wf(g, x + bh / 2, y, bh / 2, up, w, h);
            lemma_grid_put_wf(
                grid_diag_back(g, x + bh / 2, y, bh / 2, up),
                x,
                y + bh / 2,
                mid,
                w,
                h,
            );
            lemma_grid_diag_down_wf(
                grid_put(grid_diag_back(g, x + bh / 2, y, bh / 2, up), x, y + bh / 2, mid),
                x + 1,
                y + bh / 2 + 1,
                bh / 2,
                lo,
                w,
                h,
            );
        }
    }
    assert forall|up: Cell, mid: Cell, lo: Cell|
        grid_wf(#[trigger] spec_angled_right(g, x, y, bh, up, mid, lo), w, h) by {
        if bh % 2 == 0 {
            lemma_grid_diag_down_wf(g, x, y, bh / 2, up, w, h);
            lemma_grid_diag_back_wf(
                grid_diag_down(g, x, y, bh / 2, up),
                x + bh / 2 - 1,
                y + bh / 2,
                bh / 2,
                lo,
                w,
                h,
            );
        } else {
            lemma_grid_diag_down_wf(g, x, y, bh / 2, up, w, h);
            lemma_grid_put_wf(
                grid_diag_down(g, x, y, bh / 2, up),
                x + bh / 2,
                y + bh / 2,
                mid,
                w,
                h,
            );
            lemma_grid_diag_back_wf(
                grid_put(grid_diag_down(g, x, y, bh / 2, up), x + bh / 2, y + bh / 2, mid),
                x + bh / 2 - 1,
                y + bh / 2 + 1,
                bh / 2,
                lo,
                w,
                h,
            );
        }
    }
    match b {
        BracketType::NoBracket => {},
        BracketType::Vertical => {
            lemma_grid_put_wf(g, x, y, "\u{ffe8}"@, w, h);
            lemma_grid_vline_wf(g, x, y, bh, "\u{ffe8}"@, w, h);
        },
        _ => {
            assert forall|c: Cell| grid_wf(#[trigger] grid_put(g, x, y, c), w, h) by {
                lemma_grid_put_wf(g, x, y, c, w, h);
            }
            assert forall|c1: Cell, c2: Cell|
                grid_wf(#[trigger] grid_put(grid_put(g, x, y, c1), x, y + 1, c2), w, h) by {
                lemma_grid_put_wf(g, x, y, c1, w, h);
                lemma_grid_put_wf(grid_put(g, x, y, c1), x, y + 1, c2, w, h);
            }
        },
    }
}

/// Painting a row of nodes keeps the grid's shape.
pub proof fn lemma_row_cells_paint_wf(
    g: Grid,
    s: Seq<Box<Node>>,
    ds: Seq<(nat, nat, nat)>,
    lev: int,
    k: int,
    w: nat,
    h: nat,
)
    requires
        grid_wf(g, w, h),
    ensures
        grid_wf(row_cells_paint(g, s, ds, lev, k), w, h),
    decreases k,
{
    if 0 < k <= s.len() {
        lemma_row_cells_paint_wf(g, s, ds, lev, k - 1, w, h);
        lemma_grid_blit_wf(
            row_cells_paint(g, s, ds, lev, k - 1),
            node_paint(*s[k - 1]),
            crate::renderer::wsum(ds, k - 1) as int,
            lev - ds[k - 1].2,
            w,
            h,
        );
    }
}

/// Painting the cells of a matrix keeps the grid's shape.
pub proof fn lemma_matrix_cells_paint_wf(
    g: Grid,
    s: Seq<Box<Node>>,
    ds: Seq<(nat, nat, nat)>,
    ncols: int,
    k: int,
    w: nat,
    h: nat,
)
    requires
        grid_wf(g, w, h),
    ensures
        grid_wf(crate::renderer::matrix_cells_paint(g, s, ds, ncols, k), w, h),
    decreases k,
{
    if k > 0 && ncols > 0 && k <= s.len() {
        lemma_matrix_cells_paint_wf(g, s, ds, ncols, k - 1, w, h);
        lemma_grid_blit_wf(
            crate::renderer::matrix_cells_paint(g, s, ds, ncols, k - 1),
            node_paint(*s[k - 1]),
            crate::renderer::cell_x(ds, ncols, s.len() as int / ncols, (k - 1) / ncols, (k - 1)
                % ncols),
            crate::renderer::cell_y(ds, ncols, (k - 1) / ncols),
            w,
            h,
        );
    }
}

/// Whatever a node paints is a grid of exactly the node's own extent.
pub proof fn lemma_node_paint_wf(n: Node)
    ensures
        grid_wf(node_paint(n), node_width(n), node_height(n)),
{
    let w = node_width(n);
    let h = node_height(n);
    lemma_blank_grid_wf(w, h);
    match n {
        Node::Literal(l) => {
            let cells = l.value@.map_values(|t: String| t@);
            assert(node_paint(n) =~= seq![cells]);
            assert(node_paint(n)[0].len() == w);
        },
        Node::Div(d) => {
            let a = node_dims(*d.expr1);
            let b = node_dims(*d.expr2);
            let g1 = grid_blit(blank_grid(w, h), node_paint(*d.expr1), (w - a.0 + 1) / 2, 0);
            let g2 = grid_blit(g1, node_paint(*d.expr2), (w - b.0 + 1) / 2, (a.1 + 1) as int);
            lemma_grid_blit_wf(blank_grid(w, h), node_paint(*d.expr1), (w - a.0 + 1) / 2, 0, w, h);
            lemma_grid_blit_wf(g1, node_paint(*d.expr2), (w - b.0 + 1) / 2, (a.1 + 1) as int, w, h);
            lemma_grid_hline_wf(g2, 0, a.1 as int, w as int, "\u{2500}"@, w, h);
        },
        Node::Stack(st) => {
            let a = node_dims(*st.expr1);
            let b = node_dims(*st.expr2);
            let g1 = grid_blit(blank_grid(w, h), node_paint(*st.expr1), (w - a.0 + 1) / 2, 0);
            lemma_grid_blit_wf(blank_grid(w, h), node_paint(*st.expr1), (w - a.0 + 1) / 2, 0, w, h);
            lemma_grid_blit_wf(g1, node_paint(*st.expr2), (w - b.0 + 1) / 2, a.1 as int, w, h);
        },
        Node::Group(g) => {
            let ih: nat = match g.expr {
                Option::Some(i) => node_height(*i),
                Option::None => 0,
            };
            let iw: nat = match g.expr {
                Option::Some(i) => node_width(*i),
                Option::None => 0,
            };
            let bl = crate::brackets::spec_bracket_width(g.left_bracket, ih);
            let br = crate::brackets::spec_bracket_width(g.right_bracket, ih);
            let g0 = blank_grid(w, h);
            let g1 = if bl > 0 {
                spec_draw_bracket(g0, g.left_bracket, ih as int, 0, 0)
            } else {
                g0
            };
            lemma_draw_bracket_wf(g0, g.left_bracket, ih as int, 0, 0, w, h);
            let g2 = match g.expr {
                Option::Some(i) => grid_blit(g1, node_paint(*i), bl as int, 0),
                Option::None => g1,
            };
            match g.expr {
                Option::Some(i) => {
                    lemma_grid_blit_wf(g1, node_paint(*i), bl as int, 0, w, h);
                },
                Option::None => {},
            }
            lemma_draw_bracket_wf(g2, g.right_bracket, ih as int, (bl + iw) as int, 0, w, h);
        },
        Node::Matrix(m) => {
            let s = m.exprs@;
            let ds = dims_of(s);
            let ncols = m.num_colls as int;
            let g1 = spec_draw_bracket(blank_grid(w, h), m.left_bracket, h as int, 0, 0);
            lemma_draw_bracket_wf(blank_grid(w, h), m.left_bracket, h as int, 0, 0, w, h);
            let g2 = crate::renderer::matrix_cells_paint(g1, s, ds, ncols, s.len() as int);
            lemma_matrix_cells_paint_wf(g1, s, ds, ncols, s.len() as int, w, h);
            lemma_draw_bracket_wf(g2, m.right_bracket, h as int, w - 1, 0, w, h);
        },
        Node::ScriptExpr(sc) => {
            let b = node_dims(*sc.expr);
            let g0 = blank_grid(w, h);
            match (sc.sup_expr, sc.sub_expr) {
                (Option::Some(e1), Option::None) => {
                    let g1 = grid_blit(g0, node_paint(*e1), b.0 as int, 0);
                    lemma_grid_blit_wf(g0, node_paint(*e1), b.0 as int, 0, w, h);
                    lemma_grid_blit_wf(g1, node_paint(*sc.expr), 0, node_height(*e1) as int, w, h);
                },
                (Option::None, Option::Some(e2)) => {
                    let g1 = grid_blit(g0, node_paint(*sc.expr), 0, 0);
                    lemma_grid_blit_wf(g0, node_paint(*sc.expr), 0, 0, w, h);
                    lemma_grid_blit_wf(g1, node_paint(*e2), b.0 as int, b.1 as int, w, h);
                },
                (Option::Some(e1), Option::Some(e2)) => {
                    let hp = node_height(*e1);
                    let g1 = grid_blit(g0, node_paint(*e1), b.0 as int, 0);
                    lemma_grid_blit_wf(g0, node_paint(*e1), b.0 as int, 0, w, h);
                    let g2 = grid_blit(g1, node_paint(*sc.expr), 0, hp as int);
                    lemma_grid_blit_wf(g1, node_paint(*sc.expr), 0, hp as int, w, h);
                    lemma_grid_blit_wf(g2, node_paint(*e2), b.0 as int, (hp + b.1) as int, w, h);
                },
                (Option::None, Option::None) => {
                    lemma_grid_blit_wf(g0, node_paint(*sc.expr), 0, 0, w, h);
                },
            }
        },
        Node::Sqrt(sq) => {
            let d = node_dims(*sq.expr);
            let m = (d.1 + 1) / 2;
            let g1 = grid_blit(blank_grid(w, h), node_paint(*sq.expr), w - d.0, 1);
            lemma_grid_blit_wf(blank_grid(w, h), node_paint(*sq.expr), w - d.0, 1, w, h);
            let g2 = grid_diag_down(g1, 0, h - m, m as int, "\u{2572}"@);
            lemma_grid_diag_down_wf(g1, 0, h - m, m as int, "\u{2572}"@, w, h);
            let g3 = grid_diag_up(g2, m as int, h - 1, d.1 as int, "\u{2571}"@);
            lemma_grid_diag_up_wf(g2, m as int, h - 1, d.1 as int, "\u{2571}"@, w, h);
            lemma_grid_hline_wf(g3, (m + d.1) as int, 0, d.0 as int, "\u{2581}"@, w, h);
        },
        Node::Root(rt) => {
            let i = node_dims(*rt.index);
            let rd = node_dims(*rt.radicand);
            let rsh = (i.0 + 1) / 2;
            let g1 = grid_blit(blank_grid(w, h), node_paint(*rt.index), (i.0 % 2) as int, h - i.1
                - rsh);
            lemma_grid_blit_wf(
                blank_grid(w, h),
                node_paint(*rt.index),
                (i.0 % 2) as int,
                h - i.1 - rsh,
                w,
                h,
            );
            let g2 = grid_diag_down(g1, 0, h - rsh, rsh as int, "\u{2572}"@);
            lemma_grid_diag_down_wf(g1, 0, h - rsh, rsh as int, "\u{2572}"@, w, h);
            let g3 = grid_diag_up(g2, rsh as int, h - 1, rsh as int, "\u{2571}"@);
            lemma_grid_diag_up_wf(g2, rsh as int, h - 1, rsh as int, "\u{2571}"@, w, h);
            let g4 = if rd.1 > rsh {
                grid_diag_up(g3, (2 * rsh) as int, h - rsh - 1, rd.1 - rsh, "\u{2571}"@)
            } else {
                g3
            };
            if rd.1 > rsh {
                lemma_grid_diag_up_wf(g3, (2 * rsh) as int, h - rsh - 1, rd.1 - rsh, "\u{2571}"@, w, h);
            }
            let top: int = if rd.1 > rsh {
                h - rd.1
            } else {
                h - rsh
            };
            let xbar: int = (2 * rsh) as int + (if rd.1 > rsh {
                rd.1 - rsh
            } else {
                0
            });
            let g5 = grid_hline(g4, xbar, top - 1, rd.0 as int, "\u{2581}"@);
            lemma_grid_hline_wf(g4, xbar, top - 1, rd.0 as int, "\u{2581}"@, w, h);
            lemma_grid_blit_wf(
                g5,
                node_paint(*rt.radicand),
                w - rd.0,
                top + (h - top - rd.1 + 1) / 2,
                w,
                h,
            );
        },
        Node::Expr(e) => {
            let s = e.exprs@;
            let ds = dims_of(s);
            let lev = lmax(ds, ds.len() as int);
            lemma_row_cells_paint_wf(blank_grid(w, h), s, ds, lev as int, s.len() as int, w, h);
        },
    }
}

/// For all literal nodes built from a non-empty text, the height is one
/// row and the width is the number of displayed units of the text.
pub proof fn lemma_literal_dimensions(l: Literal, t: Seq<char>)
    requires
        l.value@.map_values(|x: String| x@) == graphemes_of(t),
        1 <= t.len(),
    ensures
        node_height(Node::Literal(l)) == 1,
        node_width(Node::Literal(l)) == graphemes_of(t).len(),
{
}

/// For all fraction nodes, the width is two more than the wider operand
/// and the height is one more than the two operands together.
pub proof fn lemma_fraction_dimensions(d: Div)
    ensures
        node_width(Node::Div(d)) == max2(node_width(*d.expr1), node_width(*d.expr2)) + 2,
        node_height(Node::Div(d)) == node_height(*d.expr1) + node_height(*d.expr2) + 1,
{
}

/// For all fraction nodes, the painted canvas's middle row — the row just
/// below the numerator — is a full-width horizontal rule.
pub proof fn lemma_fraction_rule_row(d: Div)
    ensures
        ({
            let n = Node::Div(d);
            let g = node_paint(n);
            let mid = node_height(*d.expr1) as int;
            &&& g.len() == node_height(n)
            &&& g[mid].len() == node_width(n)
            &&& forall|x: int| 0 <= x < node_width(n) ==> g[mid][x] == "\u{2500}"@
        }),
{
    let n = Node::Div(d);
    let w = node_width(n);
    let h = node_height(n);
    let a = crate::renderer::node_dims(*d.expr1);
    let b = crate::renderer::node_dims(*d.expr2);
    let g1 = grid_blit(blank_grid(w, h), node_paint(*d.expr1), (w - a.0 + 1) / 2, 0);
    let g2 = grid_blit(g1, node_paint(*d.expr2), (w - b.0 + 1) / 2, (a.1 + 1) as int);
    lemma_blank_grid_wf(w, h);
    lemma_grid_blit_wf(blank_grid(w, h), node_paint(*d.expr1), (w - a.0 + 1) / 2, 0, w, h);
    lemma_grid_blit_wf(g1, node_paint(*d.expr2), (w - b.0 + 1) / 2, (a.1 + 1) as int, w, h);
    lemma_grid_hline_cells(g2, 0, a.1 as int, w as int, "\u{2500}"@, w, h);
}

/// Round trip: painting a literal and serializing the canvas returns
/// exactly the literal's text, when that text has no embedded line break.
pub proof fn lemma_literal_round_trip(l: Literal, t: Seq<char>)
    requires
        l.value@.map_values(|x: String| x@) == graphemes_of(t),
        row_text(l.value@.map_values(|x: String| x@)) == t,
        !t.contains('\n'),
    ensures
        grid_text(node_paint(Node::Literal(l))) == t,
{
    let cells = l.value@.map_values(|x: String| x@);
    let g = node_paint(Node::Literal(l));
    assert(g =~= seq![cells]);
    assert(g.len() == 1);
    assert(grid_text(g) == grid_text_upto(g, 1));
    assert(grid_text_upto(g, 0) == Seq::<char>::empty());
    assert(grid_text_upto(g, 1) =~= row_text(g[0]));
    assert(g[0] == cells);
}

/// Boundary: an empty row paints a canvas with no rows, which serializes
/// to the empty text.
pub proof fn lemma_empty_row_renders_empty(e: Expr)
    requires
        e.exprs@.len() == 0,
    ensures
        node_width(Node::Expr(e)) == 0,
        node_height(Node::Expr(e)) == 0,
        grid_text(node_paint(Node::Expr(e))) == Seq::<char>::empty(),
{
    let n = Node::Expr(e);
    let ds = dims_of(e.exprs@);
    assert(ds =~= Seq::<(nat, nat, nat)>::empty());
    assert(node_paint(n) == row_cells_paint(
        blank_grid(node_width(n), node_height(n)),
        e.exprs@,
        ds,
        lmax(ds, 0) as int,
        0,
    ));
    assert(node_paint(n) =~= blank_grid(0, 0));
    assert(node_paint(n).len() == 0);
}

/// Boundary: a group with no inner node and round brackets renders to a
/// bare bracket pair.
pub proof fn lemma_empty_group_round_brackets(g: Group)
    requires
        g.left_bracket == BracketType::LeftRound,
        g.expr is None,
        g.right_bracket == BracketType::RightRound,
    ensures
        grid_text(node_paint(Node::Group(g))) == "()"@,
{
    let n = Node::Group(g);
    assert(node_width(n) == 2);
    assert(node_height(n) == 1);
    let g0 = blank_grid(2, 1);
    let g1 = grid_put(g0, 0, 0, "("@);
    let g2 = grid_put(g1, 1, 0, ")"@);
    assert(node_paint(n) == g2);
    assert(g0.len() == 1 && g0[0].len() == 2);
    assert(g0[0][0] == blank_cell() && g0[0][1] == blank_cell());
    let row = g2[0];
    assert(row.len() == 2);
    assert(row[0] == "("@);
    assert(row[1] == ")"@);
    assert(grid_text(g2) == grid_text_upto(g2, 1));
    assert(grid_text_upto(g2, 0) == Seq::<char>::empty());
    assert(grid_text_upto(g2, 1) =~= row_text(row));
    assert(row_text(row) == row_text_upto(row, 2));
    assert(row_text_upto(row, 0) == Seq::<char>::empty());
    reveal_strlit("(");
    reveal_strlit(")");
    reveal_strlit("()");
    assert(row_text_upto(row, 1) =~= "("@);
    assert(row_text_upto(row, 2) =~= "()"@);
}


/// Blitting a composite — two grids blitted onto a blank background —
/// into a window of `g` that is itself blank paints the same cells as
/// blitting the two grids into `g` directly, at shifted positions.
pub proof fn lemma_blit_compose(
    g: Grid,
    w: nat,
    h: nat,
    win: nat,
    hin: nat,
    pa: Grid,
    wa: nat,
    ha: nat,
    pb: Grid,
    wb: nat,
    hb: nat,
    xa: int,
    ya: int,
    xb: int,
    yb: int,
    x0: int,
    y0: int,
)
    requires
        grid_wf(g, w, h),
        grid_wf(pa, wa, ha),
        grid_wf(pb, wb, hb),
        0 <= xa,
        xa + wa <= win,
        0 <= ya,
        ya + ha <= hin,
        0 <= xb,
        xb + wb <= win,
        0 <= yb,
        yb + hb <= hin,
        0 <= x0,
        x0 + win <= w,
        0 <= y0,
        y0 + hin <= h,
        forall|x: int, y: int|
            x0 <= x < x0 + win && y0 <= y < y0 + hin ==> #[trigger] g[y][x] == blank_cell(),
    ensures
        grid_blit(g, grid_blit(grid_blit(blank_grid(win, hin), pa, xa, ya), pb, xb, yb), x0, y0)
            =~~= grid_blit(grid_blit(g, pa, x0 + xa, y0 + ya), pb, x0 + xb, y0 + yb),
{
    let inner = grid_blit(grid_blit(blank_grid(win, hin), pa, xa, ya), pb, xb, yb);
    lemma_blank_grid_wf(win, hin);
    lemma_grid_blit_wf(blank_grid(win, hin), pa, xa, ya, win, hin);
    lemma_grid_blit_wf(grid_blit(blank_grid(win, hin), pa, xa, ya), pb, xb, yb, win, hin);
    let lhs = grid_blit(g, inner, x0, y0);
    let rhs = grid_blit(grid_blit(g, pa, x0 + xa, y0 + ya), pb, x0 + xb, y0 + yb);
    lemma_grid_blit_wf(g, inner, x0, y0, w, h);
    lemma_grid_blit_wf(g, pa, x0 + xa, y0 + ya, w, h);
    lemma_grid_blit_wf(grid_blit(g, pa, x0 + xa, y0 + ya), pb, x0 + xb, y0 + yb, w, h);
    assert forall|y: int, x: int| 0 <= y < h && 0 <= x < w implies #[trigger] lhs[y][x]
        == rhs[y][x] by {
        if y0 <= y < y0 + hin && x0 <= x < x0 + win {
            assert(inner[y - y0].len() == win);
            assert(lhs[y][x] == inner[y - y0][x - x0]);
            if yb <= y - y0 < yb + hb && xb <= x - x0 < xb + wb {
                assert(pb[y - y0 - yb].len() == wb);
                assert(inner[y - y0][x - x0] == pb[y - y0 - yb][x - x0 - xb]);
                assert(rhs[y][x] == pb[y - (y0 + yb)][x - (x0 + xb)]);
            } else if ya <= y - y0 < ya + ha && xa <= x - x0 < xa + wa {
                assert(pa[y - y0 - ya].len() == wa);
                assert(inner[y - y0][x - x0] == pa[y - y0 - ya][x - x0 - xa]);
                assert(rhs[y][x] == pa[y - (y0 + ya)][x - (x0 + xa)]);
            } else {
                assert(inner[y - y0][x - x0] == blank_grid(win, hin)[y - y0][x - x0]);
                assert(blank_grid(win, hin)[y - y0][x - x0] == blank_cell());
                assert(rhs[y][x] == g[y][x]);
                assert(g[y][x] == blank_cell());
            }
        } else {
            assert(lhs[y][x] == g[y][x]);
            assert(rhs[y][x] == g[y][x]);
        }
    }
    assert(lhs =~~= rhs);
}


/// Row composition is associative on rendered text: a row holding a
/// nested row of `a` and `b` followed by `c`, a row of `a` followed by a
/// nested row of `b` and `c`, and the flat row of `a`, `b`, `c` all
/// paint the same canvas, so they serialize to the same text.
#[verifier::rlimit(100)]
pub proof fn lemma_row_concatenation_associative(
    a: Box<Node>,
    b: Box<Node>,
    c: Box<Node>,
    ab: Box<Node>,
    bc: Box<Node>,
    inner_left: Expr,
    inner_right: Expr,
    left: Expr,
    right: Expr,
    flat: Expr,
)
    requires
        node_wf(*a),
        node_wf(*b),
        node_wf(*c),
        1 <= node_height(*a),
        1 <= node_height(*b),
        1 <= node_height(*c),
        inner_left.exprs@ == seq![a, b],
        inner_right.exprs@ == seq![b, c],
        *ab == Node::Expr(inner_left),
        *bc == Node::Expr(inner_right),
        left.exprs@ == seq![ab, c],
        right.exprs@ == seq![a, bc],
        flat.exprs@ == seq![a, b, c],
    ensures
        grid_text(node_paint(Node::Expr(left))) == grid_text(node_paint(Node::Expr(flat))),
        grid_text(node_paint(Node::Expr(right))) == grid_text(node_paint(Node::Expr(flat))),
{
    crate::renderer::lemma_wf_level_below_height(*a);
    crate::renderer::lemma_wf_level_below_height(*b);
    crate::renderer::lemma_wf_level_below_height(*c);
    lemma_node_paint_wf(*a);
    lemma_node_paint_wf(*b);
    lemma_node_paint_wf(*c);
    let pa = node_paint(*a);
    let pb = node_paint(*b);
    let pc = node_paint(*c);
    let wa = node_width(*a);
    let wb = node_width(*b);
    let wc = node_width(*c);
    let ha = node_height(*a);
    let hb = node_height(*b);
    let hc = node_height(*c);
    let la = node_level(*a);
    let lb = node_level(*b);
    let lc = node_level(*c);
    let da: nat = (ha - la - 1) as nat;
    let db: nat = (hb - lb - 1) as nat;
    let dc: nat = (hc - lc - 1) as nat;

    // the flat row's sizes
    let s3 = flat.exprs@;
    let ds3 = dims_of(s3);
    crate::renderer::lemma_dims_of_len(s3);
    crate::renderer::lemma_dims_of_index(s3, 0);
    crate::renderer::lemma_dims_of_index(s3, 1);
    crate::renderer::lemma_dims_of_index(s3, 2);
    assert(ds3[0] == node_dims(*a) && ds3[1] == node_dims(*b) && ds3[2] == node_dims(*c));
    let lev = lmax(ds3, 3);
    assert(lmax(ds3, 0) == 0);
    assert(lmax(ds3, 1) == max2(0, la));
    assert(lmax(ds3, 2) == max2(lmax(ds3, 1), lb));
    assert(lev == max2(lmax(ds3, 2), lc));
    let dmax = crate::renderer::dropmax(ds3, 3);
    assert(crate::renderer::below_level(ds3[0]) == da);
    assert(crate::renderer::below_level(ds3[1]) == db);
    assert(crate::renderer::below_level(ds3[2]) == dc);
    assert(crate::renderer::dropmax(ds3, 0) == 0);
    assert(crate::renderer::dropmax(ds3, 1) == max2(0, da));
    assert(crate::renderer::dropmax(ds3, 2) == max2(crate::renderer::dropmax(ds3, 1), db));
    assert(dmax == max2(crate::renderer::dropmax(ds3, 2), dc));
    assert(crate::renderer::wsum(ds3, 0) == 0);
    assert(crate::renderer::wsum(ds3, 1) == wa);
    assert(crate::renderer::wsum(ds3, 2) == wa + wb);
    assert(crate::renderer::wsum(ds3, 3) == wa + wb + wc);
    let bigw: nat = (wa + wb + wc) as nat;
    let bigh: nat = (lev + dmax + 1) as nat;
    assert(node_dims(Node::Expr(flat)) == (bigw, bigh, lev));

    // the nested left pair's sizes
    let s2 = inner_left.exprs@;
    let ds2 = dims_of(s2);
    crate::renderer::lemma_dims_of_len(s2);
    crate::renderer::lemma_dims_of_index(s2, 0);
    crate::renderer::lemma_dims_of_index(s2, 1);
    let lin = lmax(ds2, 2);
    assert(lmax(ds2, 0) == 0);
    assert(lmax(ds2, 1) == max2(0, la));
    assert(lin == max2(lmax(ds2, 1), lb));
    let din = crate::renderer::dropmax(ds2, 2);
    assert(crate::renderer::dropmax(ds2, 0) == 0);
    assert(crate::renderer::dropmax(ds2, 1) == max2(0, da));
    assert(din == max2(crate::renderer::dropmax(ds2, 1), db));
    assert(crate::renderer::wsum(ds2, 0) == 0);
    assert(crate::renderer::wsum(ds2, 1) == wa);
    assert(crate::renderer::wsum(ds2, 2) == wa + wb);
    let win: nat = (wa + wb) as nat;
    let hin: nat = (lin + din + 1) as nat;
    assert(node_dims(*ab) == (win, hin, lin));

    // the nested right pair's sizes
    let t2 = inner_right.exprs@;
    let dt2 = dims_of(t2);
    crate::renderer::lemma_dims_of_len(t2);
    crate::renderer::lemma_dims_of_index(t2, 0);
    crate::renderer::lemma_dims_of_index(t2, 1);
    let lin2 = lmax(dt2, 2);
    assert(lmax(dt2, 0) == 0);
    assert(lmax(dt2, 1) == max2(0, lb));
    assert(lin2 == max2(lmax(dt2, 1), lc));
    let din2 = crate::renderer::dropmax(dt2, 2);
    assert(crate::renderer::dropmax(dt2, 0) == 0);
    assert(crate::renderer::dropmax(dt2, 1) == max2(0, db));
    assert(din2 == max2(crate::renderer::dropmax(dt2, 1), dc));
    assert(crate::renderer::wsum(dt2, 0) == 0);
    assert(crate::renderer::wsum(dt2, 1) == wb);
    assert(crate::renderer::wsum(dt2, 2) == wb + wc);
    let win2: nat = (wb + wc) as nat;
    let hin2: nat = (lin2 + din2 + 1) as nat;
    assert(node_dims(*bc) == (win2, hin2, lin2));

    // the two outer rows have the flat row's sizes
    let sl = left.exprs@;
    let dsl = dims_of(sl);
    crate::renderer::lemma_dims_of_len(sl);
    crate::renderer::lemma_dims_of_index(sl, 0);
    crate::renderer::lemma_dims_of_index(sl, 1);
    assert(dsl[0] == (win, hin, lin) && dsl[1] == node_dims(*c));
    assert(crate::renderer::wsum(dsl, 0) == 0);
    assert(crate::renderer::dropmax(dsl, 0) == 0);
    assert(lmax(dsl, 0) == 0);
    assert(lmax(dsl, 1) == max2(0, lin));
    assert(lmax(dsl, 2) == max2(lmax(dsl, 1), lc));
    assert(lmax(dsl, 2) == lev);
    assert(crate::renderer::below_level(dsl[0]) == din);
    assert(crate::renderer::dropmax(dsl, 1) == max2(0, din));
    assert(crate::renderer::dropmax(dsl, 2) == max2(crate::renderer::dropmax(dsl, 1), dc));
    assert(crate::renderer::dropmax(dsl, 2) == dmax);
    assert(crate::renderer::wsum(dsl, 1) == win);
    assert(crate::renderer::wsum(dsl, 2) == win + wc);
    assert(node_dims(Node::Expr(left)) == (bigw, bigh, lev));

    let sr = right.exprs@;
    let dsr = dims_of(sr);
    crate::renderer::lemma_dims_of_len(sr);
    crate::renderer::lemma_dims_of_index(sr, 0);
    crate::renderer::lemma_dims_of_index(sr, 1);
    assert(dsr[0] == node_dims(*a) && dsr[1] == (win2, hin2, lin2));
    assert(crate::renderer::wsum(dsr, 0) == 0);
    assert(crate::renderer::dropmax(dsr, 0) == 0);
    assert(lmax(dsr, 0) == 0);
    assert(lmax(dsr, 1) == max2(0, la));
    assert(lmax(dsr, 2) == max2(lmax(dsr, 1), lin2));
    assert(lmax(dsr, 2) == lev);
    assert(crate::renderer::below_level(dsr[1]) == din2);
    assert(crate::renderer::dropmax(dsr, 1) == max2(0, da));
    assert(crate::renderer::dropmax(dsr, 2) == max2(crate::renderer::dropmax(dsr, 1), din2));
    assert(crate::renderer::dropmax(dsr, 2) == dmax);
    assert(crate::renderer::wsum(dsr, 1) == wa);
    assert(crate::renderer::wsum(dsr, 2) == wa + win2);
    assert(node_dims(Node::Expr(right)) == (bigw, bigh, lev));

    let base = blank_grid(bigw, bigh);
    lemma_blank_grid_wf(bigw, bigh);

    // the three paints, written out blit by blit
    let f1 = grid_blit(base, pa, 0, lev - la);
    let f2 = grid_blit(f1, pb, wa as int, lev - lb);
    let f3 = grid_blit(f2, pc, (wa + wb) as int, lev - lc);
    assert(row_cells_paint(base, s3, ds3, lev as int, 0) == base);
    assert(row_cells_paint(base, s3, ds3, lev as int, 1) == f1);
    assert(row_cells_paint(base, s3, ds3, lev as int, 2) == f2);
    assert(row_cells_paint(base, s3, ds3, lev as int, 3) == f3);
    assert(node_paint(Node::Expr(flat)) == f3);

    let ibase = blank_grid(win, hin);
    let pin = grid_blit(grid_blit(ibase, pa, 0, lin - la), pb, wa as int, lin - lb);
    assert(row_cells_paint(ibase, s2, ds2, lin as int, 0) == ibase);
    assert(row_cells_paint(ibase, s2, ds2, lin as int, 1) == grid_blit(ibase, pa, 0, lin - la));
    assert(row_cells_paint(ibase, s2, ds2, lin as int, 2) == pin);
    assert(node_paint(*ab) == pin);

    let ibase2 = blank_grid(win2, hin2);
    let pin2 = grid_blit(grid_blit(ibase2, pb, 0, lin2 - lb), pc, wb as int, lin2 - lc);
    assert(row_cells_paint(ibase2, t2, dt2, lin2 as int, 0) == ibase2);
    assert(row_cells_paint(ibase2, t2, dt2, lin2 as int, 1) == grid_blit(ibase2, pb, 0, lin2 - lb));
    assert(row_cells_paint(ibase2, t2, dt2, lin2 as int, 2) == pin2);
    assert(node_paint(*bc) == pin2);

    let l1 = grid_blit(base, pin, 0, lev - lin);
    let l2 = grid_blit(l1, pc, win as int, lev - lc);
    assert(row_cells_paint(base, sl, dsl, lev as int, 0) == base);
    assert(row_cells_paint(base, sl, dsl, lev as int, 1) == l1);
    assert(row_cells_paint(base, sl, dsl, lev as int, 2) == l2);
    assert(node_paint(Node::Expr(left)) == l2);

    let r1 = grid_blit(base, pa, 0, lev - la);
    let r2 = grid_blit(r1, pin2, wa as int, lev - lin2);
    assert(row_cells_paint(base, sr, dsr, lev as int, 0) == base);
    assert(row_cells_paint(base, sr, dsr, lev as int, 1) == r1);
    assert(row_cells_paint(base, sr, dsr, lev as int, 2) == r2);
    assert(node_paint(Node::Expr(right)) == r2);
    assert(r1 == f1);

    // the left nesting: compose the inner pair's blits over the blank base
    assert(forall|x: int, y: int|
        0 <= x < bigw && (lev - lin) <= y < (lev - lin) + hin ==> #[trigger] base[y][x]
            == blank_cell());
    lemma_blit_compose(
        base,
        bigw,
        bigh,
        win,
        hin,
        pa,
        wa,
        ha,
        pb,
        wb,
        hb,
        0,
        lin - la,
        wa as int,
        lin - lb,
        0,
        lev - lin,
    );
    assert(l1 =~~= f2);
    assert(l2 =~~= grid_blit(f2, pc, win as int, lev - lc));
    assert(l2 =~~= f3);

    // the right nesting: the window right of `a` in `f1` is still blank
    lemma_grid_blit_wf(base, pa, 0, lev - la, bigw, bigh);
    assert forall|x: int, y: int|
        wa <= x < wa + win2 && (lev - lin2) <= y < (lev - lin2) + hin2 implies #[trigger] f1[y][x]
        == blank_cell() by {
        if lev - la <= y < lev - la + pa.len() {
            assert(pa[y - (lev - la)].len() == wa);
        }
        assert(base[y][x] == blank_cell());
    }
    lemma_blit_compose(
        f1,
        bigw,
        bigh,
        win2,
        hin2,
        pb,
        wb,
        hb,
        pc,
        wc,
        hc,
        0,
        lin2 - lb,
        wb as int,
        lin2 - lc,
        wa as int,
        lev - lin2,
    );
    assert(r2 =~~= grid_blit(grid_blit(f1, pb, wa as int, lev - lb), pc, (wa + wb) as int, lev
        - lc));
    assert(r2 =~~= f3);
}

} // verus!


