//! The layout engine: expression nodes that size and paint themselves.
//!
//! An expression is a tree of `Node` values. Every node answers the same
//! four questions: its width and height in canvas cells, its level (the
//! row, counted from its own top edge, on which it lines up with its
//! siblings), and its painting, a canvas of exactly its width and height.
//! The spec functions `node_width`, `node_height`, `node_level` and
//! `node_paint` give the intended answers; the executable methods are
//! proved to return exactly them.

use vstd::prelude::*;

use crate::brackets::{bracket_width, spec_bracket_width, BracketType};
use crate::graphemes::{graphemes_of, split_graphemes};
use crate::brackets::{draw_bracket, spec_draw_bracket};
use crate::text_canvas::{
    blank_cell, blank_grid, grid_blit, grid_diag_down, grid_diag_up, grid_hline, grid_text, Grid,
    TextCanvas,
};

verus! {

/// A line of text: one displayed unit per canvas cell.
#[derive(Debug)]
pub struct Literal {
    pub value: Vec<String>,
}

/// A fraction: numerator over denominator, separated by a horizontal rule.
#[derive(Debug)]
pub struct Div {
    pub expr1: Box<Node>,
    pub expr2: Box<Node>,
}

/// One expression directly above another, with no rule between them.
#[derive(Debug)]
pub struct Stack {
    pub expr1: Box<Node>,
    pub expr2: Box<Node>,
}

/// An optional expression wrapped in an optional pair of brackets.
#[derive(Debug)]
pub struct Group {
    pub left_bracket: BracketType,
    pub expr: Option<Box<Node>>,
    pub right_bracket: BracketType,
}

/// A bracketed matrix: its cells in row-major order, `num_colls` per row.
#[derive(Debug)]
pub struct Matrix {
    pub left_bracket: BracketType,
    pub exprs: Vec<Box<Node>>,
    pub right_bracket: BracketType,
    pub num_colls: usize,
}

/// A base expression with an optional subscript and/or superscript.
#[derive(Debug)]
pub struct ScriptExpr {
    pub expr: Box<Node>,
    pub sup_expr: Option<Box<Node>>,
    pub sub_expr: Option<Box<Node>>,
}

/// A square root: a radical symbol drawn around a radicand.
#[derive(Debug)]
pub struct Sqrt {
    pub expr: Box<Node>,
}

/// A root with an explicit index sitting in the mouth of the radical's V.
#[derive(Debug)]
pub struct Root {
    pub index: Box<Node>,
    pub radicand: Box<Node>,
}

/// A row of expressions laid out left to right on a shared level.
#[derive(Debug)]
pub struct Expr {
    pub exprs: Vec<Box<Node>>,
}

/// The closed set of expression shapes.
#[derive(Debug)]
pub enum Node {
    Literal(Literal),
    Div(Div),
    Stack(Stack),
    Group(Group),
    Matrix(Matrix),
    ScriptExpr(ScriptExpr),
    Sqrt(Sqrt),
    Root(Root),
    Expr(Expr),
}

/// The larger of two sizes.
pub open spec fn max2(a: nat, b: nat) -> nat {
    if a >= b {
        a
    } else {
        b
    }
}

/// The (width, height, level) triples of a sequence of nodes.
pub open spec fn dims_of(s: Seq<Box<Node>>) -> Seq<(nat, nat, nat)>
    decreases s, 0int,
{
    if s.len() == 0 {
        Seq::empty()
    } else {
        dims_of(s.subrange(0, s.len() - 1)).push(node_dims(*s[s.len() - 1]))
    }
}

/// The total width of the first `k` entries.
pub open spec fn wsum(ds: Seq<(nat, nat, nat)>, k: int) -> nat
    decreases k,
{
    if k <= 0 {
        0
    } else {
        wsum(ds, k - 1) + ds[k - 1].0
    }
}

/// The greatest level among the first `k` entries.
pub open spec fn lmax(ds: Seq<(nat, nat, nat)>, k: int) -> nat
    decreases k,
{
    if k <= 0 {
        0
    } else {
        max2(lmax(ds, k - 1), ds[k - 1].2)
    }
}

/// How far an entry reaches below its level row.
pub open spec fn below_level(d: (nat, nat, nat)) -> nat {
    if d.1 >= d.2 + 1 {
        (d.1 - d.2 - 1) as nat
    } else {
        0
    }
}

/// The greatest reach below the level row among the first `k` entries.
pub open spec fn dropmax(ds: Seq<(nat, nat, nat)>, k: int) -> nat
    decreases k,
{
    if k <= 0 {
        0
    } else {
        max2(dropmax(ds, k - 1), below_level(ds[k - 1]))
    }
}

/// The widest cell of column `c` among the first `k` matrix rows.
pub open spec fn col_w(ds: Seq<(nat, nat, nat)>, ncols: int, c: int, k: int) -> nat
    decreases k,
{
    if k <= 0 {
        0
    } else {
        max2(col_w(ds, ncols, c, k - 1), ds[(k - 1) * ncols + c].0)
    }
}

/// The tallest cell of row `r` among its first `k` columns.
pub open spec fn row_h(ds: Seq<(nat, nat, nat)>, ncols: int, r: int, k: int) -> nat
    decreases k,
{
    if k <= 0 {
        0
    } else {
        max2(row_h(ds, ncols, r, k - 1), ds[r * ncols + k - 1].1)
    }
}

/// The total width of the first `k` matrix columns, `nrows` rows deep.
pub open spec fn cols_total(ds: Seq<(nat, nat, nat)>, ncols: int, nrows: int, k: int) -> nat
    decreases k,
{
    if k <= 0 {
        0
    } else {
        cols_total(ds, ncols, nrows, k - 1) + col_w(ds, ncols, k - 1, nrows)
    }
}

/// The total height of the first `k` matrix rows, `ncols` columns wide.
pub open spec fn rows_total(ds: Seq<(nat, nat, nat)>, ncols: int, k: int) -> nat
    decreases k,
{
    if k <= 0 {
        0
    } else {
        rows_total(ds, ncols, k - 1) + row_h(ds, ncols, k - 1, ncols)
    }
}

/// The width, height and level of a node, in that order.
pub open spec fn node_dims(n: Node) -> (nat, nat, nat)
    decreases n, 0int,
{
    match n {
        Node::Literal(l) => (l.value@.len(), 1nat, 0nat),
        Node::Div(d) => {
            let a = node_dims(*d.expr1);
            let b = node_dims(*d.expr2);
            (max2(a.0, b.0) + 2, a.1 + b.1 + 1, a.1)
        },
        Node::Stack(st) => {
            let a = node_dims(*st.expr1);
            let b = node_dims(*st.expr2);
            (max2(a.0, b.0), a.1 + b.1, if a.1 >= 1 { (a.1 - 1) as nat } else { 0 })
        },
        Node::Group(g) => match g.expr {
            Option::Some(inner) => {
                let d = node_dims(*inner);
                (
                    spec_bracket_width(g.left_bracket, d.1) + d.0 + spec_bracket_width(
                        g.right_bracket,
                        d.1,
                    ),
                    d.1,
                    d.1 / 2,
                )
            },
            Option::None => {
                (
                    spec_bracket_width(g.left_bracket, 0) + spec_bracket_width(g.right_bracket, 0),
                    1nat,
                    0nat,
                )
            },
        },
        Node::Matrix(m) => {
            let ds = dims_of(m.exprs@);
            let ncols = m.num_colls as int;
            let nrows = if ncols > 0 {
                m.exprs@.len() as int / ncols
            } else {
                0
            };
            let w = 1 + cols_total(ds, ncols, nrows, ncols) + (if ncols >= 1 {
                ncols - 1
            } else {
                0
            }) + 1;
            let h = rows_total(ds, ncols, nrows) + (if nrows >= 1 {
                nrows - 1
            } else {
                0
            });
            (w as nat, h as nat, 0nat)
        },
        Node::ScriptExpr(s) => {
            let b = node_dims(*s.expr);
            match (s.sup_expr, s.sub_expr) {
                (Option::Some(e1), Option::None) => {
                    let p = node_dims(*e1);
                    (b.0 + p.0, b.1 + p.1, b.2 + p.1)
                },
                (Option::None, Option::Some(e2)) => {
                    let q = node_dims(*e2);
                    (b.0 + q.0, b.1 + q.1, b.2)
                },
                (Option::Some(e1), Option::Some(e2)) => {
                    let p = node_dims(*e1);
                    let q = node_dims(*e2);
                    (b.0 + max2(p.0, q.0), b.1 + p.1 + q.1, b.2 + p.1)
                },
                (Option::None, Option::None) => (b.0, b.1, b.2),
            }
        },
        Node::Sqrt(sq) => {
            let d = node_dims(*sq.expr);
            (d.0 + d.1 + (d.1 + 1) / 2, d.1 + 1, (d.1 + 1) / 2)
        },
        Node::Root(r) => {
            let i = node_dims(*r.index);
            let rd = node_dims(*r.radicand);
            let rsh = (i.0 + 1) / 2;
            let w = 2 * rsh + (if rd.1 > rsh {
                (rd.1 - rsh) as nat
            } else {
                0
            }) + rd.0;
            let h = max2(i.1 + rsh, rd.1 + 1);
            let k = (i.1 + 1) / 2;
            (w, h, if h >= k {
                (h - k) as nat
            } else {
                0
            })
        },
        Node::Expr(e) => {
            let ds = dims_of(e.exprs@);
            let k = ds.len() as int;
            let lev = lmax(ds, k);
            (
                wsum(ds, k),
                if e.exprs@.len() == 0 {
                    0nat
                } else {
                    lev + dropmax(ds, k) + 1
                },
                lev,
            )
        },
    }
}

/// A node's width in cells.
pub open spec fn node_width(n: Node) -> nat {
    node_dims(n).0
}

/// A node's height in cells.
pub open spec fn node_height(n: Node) -> nat {
    node_dims(n).1
}

/// The row, counted from the node's own top edge, on which the node
/// lines up with its siblings.
pub open spec fn node_level(n: Node) -> nat {
    node_dims(n).2
}

/// Every node of a sequence is well formed.
pub open spec fn all_wf(s: Seq<Box<Node>>) -> bool
    decreases s, 0int,
{
    if s.len() == 0 {
        true
    } else {
        all_wf(s.subrange(0, s.len() - 1)) && node_wf(*s[s.len() - 1])
    }
}

/// The structural conditions under which a node can be sized and painted:
/// the conditions every constructor of the translator establishes.
pub open spec fn node_wf(n: Node) -> bool
    decreases n, 0int,
{
    match n {
        Node::Literal(_) => true,
        Node::Div(d) => node_wf(*d.expr1) && node_wf(*d.expr2),
        Node::Stack(st) => node_wf(*st.expr1) && node_wf(*st.expr2) && node_height(*st.expr1) >= 1,
        Node::Group(g) => match g.expr {
            Option::Some(inner) => node_wf(*inner) && node_height(*inner) >= 1,
            Option::None => true,
        },
        Node::Matrix(m) => {
            &&& all_wf(m.exprs@)
            &&& m.num_colls >= 1
            &&& m.exprs@.len() >= 1
            &&& m.exprs@.len() as int % (m.num_colls as int) == 0
            &&& node_height(n) >= 1
            &&& spec_bracket_width(m.left_bracket, node_height(n)) <= 1
            &&& spec_bracket_width(m.right_bracket, node_height(n)) <= 1
        },
        Node::ScriptExpr(s) => {
            &&& node_wf(*s.expr)
            &&& match s.sup_expr {
                Option::Some(e) => node_wf(*e),
                Option::None => true,
            }
            &&& match s.sub_expr {
                Option::Some(e) => node_wf(*e),
                Option::None => true,
            }
            &&& (s.sup_expr is Some ==> node_height(*s.expr) >= 1)
        },
        Node::Sqrt(sq) => node_wf(*sq.expr),
        Node::Root(r) => node_wf(*r.index) && node_wf(*r.radicand) && node_height(*r.index) >= 1,
        Node::Expr(e) => all_wf(e.exprs@) && (forall|i: int|
            0 <= i < e.exprs@.len() ==> node_height(*#[trigger] e.exprs@[i]) >= 1),
    }
}

/// Every node of a sequence fits the machine's size limits.
pub open spec fn all_fits(s: Seq<Box<Node>>) -> bool
    decreases s, 0int,
{
    if s.len() == 0 {
        true
    } else {
        all_fits(s.subrange(0, s.len() - 1)) && node_fits(*s[s.len() - 1])
    }
}

/// The node's extent, and every intermediate value its sizing and painting
/// compute, fit in a machine word.
pub open spec fn node_fits(n: Node) -> bool
    decreases n, 0int,
{
    &&& node_width(n) <= usize::MAX
    &&& node_height(n) <= usize::MAX
    &&& node_width(n) * node_height(n) <= usize::MAX
    &&& match n {
        Node::Literal(_) => true,
        Node::Div(d) => node_fits(*d.expr1) && node_fits(*d.expr2) && node_width(n) < usize::MAX,
        Node::Stack(st) => node_fits(*st.expr1) && node_fits(*st.expr2) && node_width(n)
            < usize::MAX,
        Node::Group(g) => match g.expr {
            Option::Some(inner) => node_fits(*inner) && node_height(*inner) < usize::MAX,
            Option::None => true,
        },
        Node::Matrix(m) => all_fits(m.exprs@) && node_height(n) < usize::MAX,
        Node::ScriptExpr(s) => {
            &&& node_fits(*s.expr)
            &&& match s.sup_expr {
                Option::Some(e) => node_fits(*e),
                Option::None => true,
            }
            &&& match s.sub_expr {
                Option::Some(e) => node_fits(*e),
                Option::None => true,
            }
        },
        Node::Sqrt(sq) => node_fits(*sq.expr),
        Node::Root(r) => {
            &&& node_fits(*r.index)
            &&& node_fits(*r.radicand)
            &&& node_width(*r.index) < usize::MAX
            &&& node_height(*r.index) < usize::MAX
        },
        Node::Expr(e) => all_fits(e.exprs@),
    }
}

/// The sizes of a node sequence are the entries of `dims_of`.
pub proof fn lemma_dims_of_len(s: Seq<Box<Node>>)
    ensures
        dims_of(s).len() == s.len(),
    decreases s.len(),
{
    if s.len() > 0 {
        lemma_dims_of_len(s.subrange(0, s.len() - 1));
    }
}

pub proof fn lemma_dims_of_index(s: Seq<Box<Node>>, i: int)
    requires
        0 <= i < s.len(),
    ensures
        dims_of(s).len() == s.len(),
        dims_of(s)[i] == node_dims(*s[i]),
    decreases s.len(),
{
    lemma_dims_of_len(s);
    if i < s.len() - 1 {
        lemma_dims_of_index(s.subrange(0, s.len() - 1), i);
        assert(s.subrange(0, s.len() - 1)[i] == s[i]);
    }
}

/// Every node of a well-formed sequence is well formed.
pub proof fn lemma_all_wf_index(s: Seq<Box<Node>>, i: int)
    requires
        all_wf(s),
        0 <= i < s.len(),
    ensures
        node_wf(*s[i]),
    decreases s.len(),
{
    if i < s.len() - 1 {
        lemma_all_wf_index(s.subrange(0, s.len() - 1), i);
        assert(s.subrange(0, s.len() - 1)[i] == s[i]);
    }
}

/// Every node of a fitting sequence fits.
pub proof fn lemma_all_fits_index(s: Seq<Box<Node>>, i: int)
    requires
        all_fits(s),
        0 <= i < s.len(),
    ensures
        node_fits(*s[i]),
    decreases s.len(),
{
    if i < s.len() - 1 {
        lemma_all_fits_index(s.subrange(0, s.len() - 1), i);
        assert(s.subrange(0, s.len() - 1)[i] == s[i]);
    }
}

/// Width sums over more entries are no smaller.
pub proof fn lemma_wsum_mono(ds: Seq<(nat, nat, nat)>, i: int, j: int)
    requires
        i <= j,
    ensures
        wsum(ds, i) <= wsum(ds, j),
    decreases j - i,
{
    if i < j {
        lemma_wsum_mono(ds, i, j - 1);
    }
}

/// Each level is bounded by the running maximum.
pub proof fn lemma_lmax_bound(ds: Seq<(nat, nat, nat)>, i: int, k: int)
    requires
        0 <= i < k,
    ensures
        ds[i].2 <= lmax(ds, k),
    decreases k,
{
    if i < k - 1 {
        lemma_lmax_bound(ds, i, k - 1);
    }
}

/// Each reach below the level row is bounded by the running maximum.
pub proof fn lemma_dropmax_bound(ds: Seq<(nat, nat, nat)>, i: int, k: int)
    requires
        0 <= i < k,
    ensures
        below_level(ds[i]) <= dropmax(ds, k),
    decreases k,
{
    if i < k - 1 {
        lemma_dropmax_bound(ds, i, k - 1);
    }
}

/// Each cell width of a column is bounded by the column's maximum.
pub proof fn lemma_col_w_bound(ds: Seq<(nat, nat, nat)>, ncols: int, c: int, r: int, k: int)
    requires
        0 <= r < k,
    ensures
        ds[r * ncols + c].0 <= col_w(ds, ncols, c, k),
    decreases k,
{
    if r < k - 1 {
        lemma_col_w_bound(ds, ncols, c, r, k - 1);
    }
}

/// Each cell height of a row is bounded by the row's maximum.
pub proof fn lemma_row_h_bound(ds: Seq<(nat, nat, nat)>, ncols: int, r: int, c: int, k: int)
    requires
        0 <= c < k,
    ensures
        ds[r * ncols + c].1 <= row_h(ds, ncols, r, k),
    decreases k,
{
    if c < k - 1 {
        lemma_row_h_bound(ds, ncols, r, c, k - 1);
    }
}

/// Column totals over more columns are no smaller.
pub proof fn lemma_cols_total_mono(ds: Seq<(nat, nat, nat)>, ncols: int, nrows: int, i: int, j: int)
    requires
        i <= j,
    ensures
        cols_total(ds, ncols, nrows, i) <= cols_total(ds, ncols, nrows, j),
    decreases j - i,
{
    if i < j {
        lemma_cols_total_mono(ds, ncols, nrows, i, j - 1);
    }
}

/// Row totals over more rows are no smaller.
pub proof fn lemma_rows_total_mono(ds: Seq<(nat, nat, nat)>, ncols: int, i: int, j: int)
    requires
        i <= j,
    ensures
        rows_total(ds, ncols, i) <= rows_total(ds, ncols, j),
    decreases j - i,
{
    if i < j {
        lemma_rows_total_mono(ds, ncols, i, j - 1);
    }
}

/// The shared shape invariant: whenever a well-formed node has any rows at
/// all, its level row lies strictly inside them; a node with no rows has
/// level zero.
pub proof fn lemma_wf_level_below_height(n: Node)
    requires
        node_wf(n),
    ensures
        node_height(n) >= 1 ==> node_level(n) < node_height(n),
        node_height(n) == 0 ==> node_level(n) == 0,
    decreases n,
{
    match n {
        Node::ScriptExpr(s) => {
            lemma_wf_level_below_height(*s.expr);
        },
        Node::Expr(e) => {
            if e.exprs@.len() == 0 {
                assert(dims_of(e.exprs@) == Seq::<(nat, nat, nat)>::empty());
            }
        },
        _ => {},
    }
}

/// The column at which matrix cell (`r`, `c`) is painted: one bracket
/// column, the earlier columns with one separator column after each, and
/// the centering offset inside the cell's own column.
pub open spec fn cell_x(
    ds: Seq<(nat, nat, nat)>,
    ncols: int,
    nrows: int,
    r: int,
    c: int,
) -> int {
    1 + cols_total(ds, ncols, nrows, c) + c + (col_w(ds, ncols, c, nrows) - ds[r * ncols + c].0)
        / 2
}

/// The row at which matrix row `r` is painted: the earlier rows with one
/// separator row after each.
pub open spec fn cell_y(ds: Seq<(nat, nat, nat)>, ncols: int, r: int) -> int {
    rows_total(ds, ncols, r) + r
}

/// The first `k` matrix cells painted into their slots, row-major.
pub open spec fn matrix_cells_paint(
    g: Grid,
    s: Seq<Box<Node>>,
    ds: Seq<(nat, nat, nat)>,
    ncols: int,
    k: int,
) -> Grid
    decreases s, k,
{
    if k <= 0 || ncols <= 0 || k > s.len() {
        g
    } else {
        let i = k - 1;
        let nrows = s.len() as int / ncols;
        grid_blit(
            matrix_cells_paint(g, s, ds, ncols, k - 1),
            node_paint(*s[i]),
            cell_x(ds, ncols, nrows, i / ncols, i % ncols),
            cell_y(ds, ncols, i / ncols),
        )
    }
}

/// The first `k` nodes of a row painted left to right, each shifted so
/// that its level row falls on the row's level `lev`.
pub open spec fn row_cells_paint(
    g: Grid,
    s: Seq<Box<Node>>,
    ds: Seq<(nat, nat, nat)>,
    lev: int,
    k: int,
) -> Grid
    decreases s, k,
{
    if k <= 0 || k > s.len() {
        g
    } else {
        grid_blit(
            row_cells_paint(g, s, ds, lev, k - 1),
            node_paint(*s[k - 1]),
            wsum(ds, k - 1) as int,
            lev - ds[k - 1].2,
        )
    }
}

/// The canvas a node paints: a blank grid of the node's own extent,
/// filled by the same sequence of cell writes and child blits that the
/// executable painting performs.
pub open spec fn node_paint(n: Node) -> Grid
    decreases n, 0int,
{
    let w = node_width(n);
    let h = node_height(n);
    match n {
        Node::Literal(l) => seq![l.value@.map_values(|t: String| t@)],
        Node::Div(d) => {
            let a = node_dims(*d.expr1);
            let b = node_dims(*d.expr2);
            let g1 = grid_blit(blank_grid(w, h), node_paint(*d.expr1), (w - a.0 + 1) / 2, 0);
            let g2 = grid_blit(g1, node_paint(*d.expr2), (w - b.0 + 1) / 2, (a.1 + 1) as int);
            grid_hline(g2, 0, a.1 as int, w as int, "\u{2500}"@)
        },
        Node::Stack(st) => {
            let a = node_dims(*st.expr1);
            let b = node_dims(*st.expr2);
            let g1 = grid_blit(blank_grid(w, h), node_paint(*st.expr1), (w - a.0 + 1) / 2, 0);
            grid_blit(g1, node_paint(*st.expr2), (w - b.0 + 1) / 2, a.1 as int)
        },
        Node::Group(g) => {
            let ih: nat = match g.expr {
                Option::Some(i) => node_height(*i),
                Option::None => 0,
            };
            let iw: nat = match g.expr {
                Option::Some(i) => node_width(*i),
                Option::None => 0,
            };
            let bl = spec_bracket_width(g.left_bracket, ih);
            let br = spec_bracket_width(g.right_bracket, ih);
            let g0 = blank_grid(w, h);
            let g1 = if bl > 0 {
                spec_draw_bracket(g0, g.left_bracket, ih as int, 0, 0)
            } else {
                g0
            };
            let g2 = match g.expr {
                Option::Some(i) => grid_blit(g1, node_paint(*i), bl as int, 0),
                Option::None => g1,
            };
            if br > 0 {
                spec_draw_bracket(g2, g.right_bracket, ih as int, (bl + iw) as int, 0)
            } else {
                g2
            }
        },
        Node::Matrix(m) => {
            let s = m.exprs@;
            let ds = dims_of(s);
            let ncols = m.num_colls as int;
            let g1 = spec_draw_bracket(blank_grid(w, h), m.left_bracket, h as int, 0, 0);
            let g2 = matrix_cells_paint(g1, s, ds, ncols, s.len() as int);
            spec_draw_bracket(g2, m.right_bracket, h as int, w - 1, 0)
        },
        Node::ScriptExpr(sc) => {
            let b = node_dims(*sc.expr);
            let g0 = blank_grid(w, h);
            match (sc.sup_expr, sc.sub_expr) {
                (Option::Some(e1), Option::None) => {
                    let g1 = grid_blit(g0, node_paint(*e1), b.0 as int, 0);
                    grid_blit(g1, node_paint(*sc.expr), 0, node_height(*e1) as int)
                },
                (Option::None, Option::Some(e2)) => {
                    let g1 = grid_blit(g0, node_paint(*sc.expr), 0, 0);
                    grid_blit(g1, node_paint(*e2), b.0 as int, b.1 as int)
                },
                (Option::Some(e1), Option::Some(e2)) => {
                    let hp = node_height(*e1);
                    let g1 = grid_blit(g0, node_paint(*e1), b.0 as int, 0);
                    let g2 = grid_blit(g1, node_paint(*sc.expr), 0, hp as int);
                    grid_blit(g2, node_paint(*e2), b.0 as int, (hp + b.1) as int)
                },
                (Option::None, Option::None) => grid_blit(g0, node_paint(*sc.expr), 0, 0),
            }
        },
        Node::Sqrt(sq) => {
            let d = node_dims(*sq.expr);
            let m = (d.1 + 1) / 2;
            let g1 = grid_blit(blank_grid(w, h), node_paint(*sq.expr), w - d.0, 1);
            let g2 = grid_diag_down(g1, 0, h - m, m as int, "\u{2572}"@);
            let g3 = grid_diag_up(g2, m as int, h - 1, d.1 as int, "\u{2571}"@);
            grid_hline(g3, (m + d.1) as int, 0, d.0 as int, "\u{2581}"@)
        },
        Node::Root(rt) => {
            let i = node_dims(*rt.index);
            let rd = node_dims(*rt.radicand);
            let rsh = (i.0 + 1) / 2;
            let g1 = grid_blit(blank_grid(w, h), node_paint(*rt.index), (i.0 % 2) as int, h - i.1
                - rsh);
            let g2 = grid_diag_down(g1, 0, h - rsh, rsh as int, "\u{2572}"@);
            let g3 = grid_diag_up(g2, rsh as int, h - 1, rsh as int, "\u{2571}"@);
            let g4 = if rd.1 > rsh {
                grid_diag_up(g3, (2 * rsh) as int, h - rsh - 1, rd.1 - rsh, "\u{2571}"@)
            } else {
                g3
            };
            let top: int = if rd.1 > rsh {
                h - rd.1
            } else {
                h - rsh
            };
            let xbar: int = (2 * rsh) as int + (if rd.1 > rsh {
                rd.1 - rsh
            } else {
                0
            });
            let g5 = grid_hline(g4, xbar, top - 1, rd.0 as int, "\u{2581}"@);
            grid_blit(g5, node_paint(*rt.radicand), w - rd.0, top + (h - top - rd.1 + 1) / 2)
        },
        Node::Expr(e) => {
            let s = e.exprs@;
            let ds = dims_of(s);
            let lev = lmax(ds, ds.len() as int);
            row_cells_paint(blank_grid(w, h), s, ds, lev as int, s.len() as int)
        },
    }
}

/// A matrix cell's row-major index lies inside the flat cell vector.
pub proof fn lemma_matrix_cell_index(len: int, ncols: int, nrows: int, r: int, c: int)
    requires
        1 <= ncols,
        len % ncols == 0,
        nrows == len / ncols,
        0 <= r < nrows,
        0 <= c < ncols,
    ensures
        0 <= r * ncols + c,
        r * ncols + c < len,
        len == nrows * ncols,
{
    vstd::arithmetic::div_mod::lemma_fundamental_div_mod(len, ncols);
    assert(len == ncols * nrows);
    assert(ncols * nrows == nrows * ncols) by (nonlinear_arith);
    assert(0 <= r * ncols + c < nrows * ncols) by (nonlinear_arith)
        requires
            1 <= ncols,
            0 <= r < nrows,
            0 <= c < ncols,
    ;
}

/// A non-empty flat cell vector has at least one full row.
pub proof fn lemma_matrix_nrows(len: int, ncols: int)
    requires
        1 <= ncols,
        1 <= len,
        len % ncols == 0,
    ensures
        1 <= len / ncols,
        len == (len / ncols) * ncols,
{
    vstd::arithmetic::div_mod::lemma_fundamental_div_mod(len, ncols);
    assert(ncols * (len / ncols) == (len / ncols) * ncols) by (nonlinear_arith);
    assert(1 <= len / ncols) by (nonlinear_arith)
        requires
            1 <= ncols,
            1 <= len,
            len == ncols * (len / ncols),
    ;
}

/// What every expression shape can answer: its size, its level, and its
/// painting. The executable methods return exactly what the spec
/// functions `node_width`, `node_height` and `node_level` say of the
/// node the value stands for.
pub trait Drawable {
    /// The node this value stands for.
    spec fn s_node(&self) -> Node;

    fn width(&self) -> (r: usize)
        requires
            node_wf(self.s_node()),
            node_fits(self.s_node()),
        ensures
            r == node_width(self.s_node()),
    ;

    fn height(&self) -> (r: usize)
        requires
            node_wf(self.s_node()),
            node_fits(self.s_node()),
        ensures
            r == node_height(self.s_node()),
    ;

    fn level(&self) -> (r: usize)
        requires
            node_wf(self.s_node()),
            node_fits(self.s_node()),
        ensures
            r == node_level(self.s_node()),
    ;

    fn to_canvas(&self) -> (r: TextCanvas)
        requires
            node_wf(self.s_node()),
            node_fits(self.s_node()),
        ensures
            r.wf(),
            r.width == node_width(self.s_node()),
            r.height == node_height(self.s_node()),
            r.grid() == node_paint(self.s_node()),
    ;

    fn as_text(&self) -> (r: String)
        requires
            node_wf(self.s_node()),
            node_fits(self.s_node()),
        ensures
            r@ == grid_text(node_paint(self.s_node())),
    ;
}

impl Drawable for Node {
    open spec fn s_node(&self) -> Node {
        *self
    }

    fn width(&self) -> (r: usize)
        decreases *self, 2int,
    {
        match self {
            Node::Literal(l) => l.width(),
            Node::Div(d) => d.width(),
            Node::Stack(st) => st.width(),
            Node::Group(g) => g.width(),
            Node::Matrix(m) => m.width(),
            Node::ScriptExpr(s) => s.width(),
            Node::Sqrt(sq) => sq.width(),
            Node::Root(rt) => rt.width(),
            Node::Expr(e) => e.width(),
        }
    }

    fn height(&self) -> (r: usize)
        decreases *self, 2int,
    {
        match self {
            Node::Literal(l) => l.height(),
            Node::Div(d) => d.height(),
            Node::Stack(st) => st.height(),
            Node::Group(g) => g.height(),
            Node::Matrix(m) => m.height(),
            Node::ScriptExpr(s) => s.height(),
            Node::Sqrt(sq) => sq.height(),
            Node::Root(rt) => rt.height(),
            Node::Expr(e) => e.height(),
        }
    }

    fn level(&self) -> (r: usize)
        decreases *self, 2int,
    {
        match self {
            Node::Literal(l) => l.level(),
            Node::Div(d) => d.level(),
            Node::Stack(st) => st.level(),
            Node::Group(g) => g.level(),
            Node::Matrix(m) => m.level(),
            Node::ScriptExpr(s) => s.level(),
            Node::Sqrt(sq) => sq.level(),
            Node::Root(rt) => rt.level(),
            Node::Expr(e) => e.level(),
        }
    }

    fn to_canvas(&self) -> (r: TextCanvas)
        decreases *self, 2int,
    {
        match self {
            Node::Literal(l) => l.to_canvas(),
            Node::Div(d) => d.to_canvas(),
            Node::Stack(st) => st.to_canvas(),
            Node::Group(g) => g.to_canvas(),
            Node::Matrix(m) => m.to_canvas(),
            Node::ScriptExpr(sc) => sc.to_canvas(),
            Node::Sqrt(sq) => sq.to_canvas(),
            Node::Root(rt) => rt.to_canvas(),
            Node::Expr(e) => e.to_canvas(),
        }
    }

    fn as_text(&self) -> (r: String) {
        self.to_canvas().to_string()
    }
}

impl Literal {
    /// A literal whose cells are the displayed units of `from_str`.
    pub fn new(from_str: &str) -> (r: Literal)
        ensures
            r.value@.map_values(|t: String| t@) == graphemes_of(from_str@),
            crate::text_canvas::row_text(r.value@.map_values(|t: String| t@)) == from_str@,
            forall|i: int| 0 <= i < r.value@.len() ==> 1 <= (#[trigger] r.value@[i])@.len(),
            node_wf(Node::Literal(r)),
    {
        Literal { value: split_graphemes(from_str) }
    }
}

impl Drawable for Literal {
    open spec fn s_node(&self) -> Node {
        Node::Literal(*self)
    }

    fn width(&self) -> (r: usize) {
        self.value.len()
    }

    fn height(&self) -> (r: usize) {
        1
    }

    fn level(&self) -> (r: usize) {
        0
    }

    fn to_canvas(&self) -> (r: TextCanvas) {
        let ghost cells = self.value@.map_values(|t: String| t@);
        let n = self.value.len();
        let mut tc = TextCanvas::new(n, 1);
        for idx in 0..n
            invariant
                tc.wf(),
                tc.width == n,
                tc.height == 1,
                n == self.value@.len(),
                cells == self.value@.map_values(|t: String| t@),
                tc.grid().len() == 1,
                tc.grid()[0].len() == n,
                forall|j: int| 0 <= j < idx ==> tc.grid()[0][j] == cells[j],
                forall|j: int| idx <= j < n ==> tc.grid()[0][j] == blank_cell(),
        {
            tc.set(idx, 0, self.value[idx].as_str());
        }
        proof {
            assert(tc.grid() =~~= seq![cells]);
        }
        tc
    }

    fn as_text(&self) -> (r: String) {
        self.to_canvas().to_string()
    }
}

impl Div {
    pub fn new(expr1: Box<Node>, expr2: Box<Node>) -> (r: Div)
        ensures
            r.expr1 == expr1,
            r.expr2 == expr2,
    {
        Div { expr1, expr2 }
    }
}

impl Drawable for Div {
    open spec fn s_node(&self) -> Node {
        Node::Div(*self)
    }

    fn width(&self) -> (r: usize)
        decreases self.s_node(), 1int,
    {
        let w1 = self.expr1.width();
        let w2 = self.expr2.width();
        (if w1 >= w2 {
            w1
        } else {
            w2
        }) + 2
    }

    fn height(&self) -> (r: usize)
        decreases self.s_node(), 1int,
    {
        self.expr1.height() + self.expr2.height() + 1
    }

    fn level(&self) -> (r: usize)
        decreases self.s_node(), 1int,
    {
        self.expr1.height()
    }

    fn to_canvas(&self) -> (r: TextCanvas)
        decreases self.s_node(), 1int,
    {
        let ghost n = self.s_node();
        let w = self.width();
        let h = self.height();
        let h1 = self.expr1.height();
        let mut result = TextCanvas::new(w, h);
        let expr1_tc = self.expr1.to_canvas();
        let expr2_tc = self.expr2.to_canvas();
        result.draw(&expr1_tc, (w - self.expr1.width() + 1) / 2, 0);
        result.draw(&expr2_tc, (w - self.expr2.width() + 1) / 2, h1 + 1);
        let ghost g2 = result.grid();
        for idx in 0..w
            invariant
                result.wf(),
                result.width == w,
                result.height == h,
                h1 < h,
                n == self.s_node(),
                w == node_width(n),
                h == node_height(n),
                h1 == node_height(*self.expr1),
                result.grid() == grid_hline(g2, 0, h1 as int, idx as int, "\u{2500}"@),
        {
            result.set(idx, h1, "\u{2500}");
        }
        result
    }

    fn as_text(&self) -> (r: String) {
        self.to_canvas().to_string()
    }
}

impl Stack {
    pub fn new(expr1: Box<Node>, expr2: Box<Node>) -> (r: Stack)
        ensures
            r.expr1 == expr1,
            r.expr2 == expr2,
    {
        Stack { expr1, expr2 }
    }
}

impl Drawable for Stack {
    open spec fn s_node(&self) -> Node {
        Node::Stack(*self)
    }

    fn width(&self) -> (r: usize)
        decreases self.s_node(), 1int,
    {
        let w1 = self.expr1.width();
        let w2 = self.expr2.width();
        if w1 >= w2 {
            w1
        } else {
            w2
        }
    }

    fn height(&self) -> (r: usize)
        decreases self.s_node(), 1int,
    {
        self.expr1.height() + self.expr2.height()
    }

    fn level(&self) -> (r: usize)
        decreases self.s_node(), 1int,
    {
        self.expr1.height() - 1
    }

    fn to_canvas(&self) -> (r: TextCanvas)
        decreases self.s_node(), 1int,
    {
        let w = self.width();
        let h = self.height();
        let mut result = TextCanvas::new(w, h);
        let expr1_tc = self.expr1.to_canvas();
        let expr2_tc = self.expr2.to_canvas();
        result.draw(&expr1_tc, (w - self.expr1.width() + 1) / 2, 0);
        result.draw(&expr2_tc, (w - self.expr2.width() + 1) / 2, self.expr1.height());
        result
    }

    fn as_text(&self) -> (r: String) {
        self.to_canvas().to_string()
    }
}

impl Group {
    pub fn new(left_bracket: BracketType, expr: Option<Box<Node>>, right_bracket: BracketType) -> (r:
        Group)
        ensures
            r.left_bracket == left_bracket,
            r.expr == expr,
            r.right_bracket == right_bracket,
    {
        Group { left_bracket, expr, right_bracket }
    }
}

impl Drawable for Group {
    open spec fn s_node(&self) -> Node {
        Node::Group(*self)
    }

    fn width(&self) -> (r: usize)
        decreases self.s_node(), 1int,
    {
        let inner_h = if let Some(e) = &self.expr {
            e.height()
        } else {
            0
        };
        let inner_w = if let Some(e) = &self.expr {
            e.width()
        } else {
            0
        };
        bracket_width(&self.left_bracket, inner_h) + inner_w + bracket_width(
            &self.right_bracket,
            inner_h,
        )
    }

    fn height(&self) -> (r: usize)
        decreases self.s_node(), 1int,
    {
        if let Some(e) = &self.expr {
            e.height()
        } else {
            1
        }
    }

    fn level(&self) -> (r: usize)
        decreases self.s_node(), 1int,
    {
        if let Some(e) = &self.expr {
            e.height() / 2
        } else {
            0
        }
    }

    fn to_canvas(&self) -> (r: TextCanvas)
        decreases self.s_node(), 1int,
    {
        let w = self.width();
        let h = self.height();
        let mut result = TextCanvas::new(w, h);
        let inner_h = if let Some(e) = &self.expr {
            e.height()
        } else {
            0
        };
        let lbw = bracket_width(&self.left_bracket, inner_h);
        let rbw = bracket_width(&self.right_bracket, inner_h);
        let expr_width = if let Some(e) = &self.expr {
            e.width()
        } else {
            0
        };
        if lbw > 0 {
            draw_bracket(&mut result, &self.left_bracket, inner_h, 0, 0);
        }
        if let Some(e) = &self.expr {
            let expr_tc = e.to_canvas();
            result.draw(&expr_tc, lbw, 0);
        }
        if rbw > 0 {
            draw_bracket(&mut result, &self.right_bracket, inner_h, lbw + expr_width, 0);
        }
        result
    }

    fn as_text(&self) -> (r: String) {
        self.to_canvas().to_string()
    }
}

impl ScriptExpr {
    pub fn new(expr: Box<Node>, sub_expr: Option<Box<Node>>, sup_expr: Option<Box<Node>>) -> (r:
        ScriptExpr)
        ensures
            r.expr == expr,
            r.sub_expr == sub_expr,
            r.sup_expr == sup_expr,
    {
        ScriptExpr { expr, sup_expr, sub_expr }
    }
}

impl Drawable for ScriptExpr {
    open spec fn s_node(&self) -> Node {
        Node::ScriptExpr(*self)
    }

    fn width(&self) -> (r: usize)
        decreases self.s_node(), 1int,
    {
        self.expr.width() + (match (&self.sup_expr, &self.sub_expr) {
            (Some(e), None) => e.width(),
            (None, Some(e)) => e.width(),
            (Some(e1), Some(e2)) => {
                let a = e1.width();
                let b = e2.width();
                if a >= b {
                    a
                } else {
                    b
                }
            },
            (None, None) => 0,
        })
    }

    fn height(&self) -> (r: usize)
        decreases self.s_node(), 1int,
    {
        self.expr.height() + (match (&self.sup_expr, &self.sub_expr) {
            (Some(e), None) => e.height(),
            (None, Some(e)) => e.height(),
            (Some(e1), Some(e2)) => e1.height() + e2.height(),
            (None, None) => 0,
        })
    }

    fn level(&self) -> (r: usize)
        decreases self.s_node(), 1int,
    {
        proof {
            lemma_wf_level_below_height(*self.expr);
        }
        match (&self.sup_expr, &self.sub_expr) {
            (Some(e), Some(_)) | (Some(e), None) => self.expr.level() + e.height(),
            (None, Some(_)) | (None, None) => self.expr.level(),
        }
    }

    fn to_canvas(&self) -> (r: TextCanvas)
        decreases self.s_node(), 1int,
    {
        let w = self.width();
        let h = self.height();
        let mut result = TextCanvas::new(w, h);
        let expr_tc = self.expr.to_canvas();
        match (&self.sup_expr, &self.sub_expr) {
            (Some(e), None) => {
                let tc = e.to_canvas();
                result.draw(&tc, self.expr.width(), 0);
                result.draw(&expr_tc, 0, e.height());
            },
            (None, Some(e)) => {
                let tc = e.to_canvas();
                result.draw(&expr_tc, 0, 0);
                result.draw(&tc, self.expr.width(), self.expr.height());
            },
            (Some(e1), Some(e2)) => {
                let tc1 = e1.to_canvas();
                let tc2 = e2.to_canvas();
                result.draw(&tc1, self.expr.width(), 0);
                result.draw(&expr_tc, 0, e1.height());
                result.draw(&tc2, self.expr.width(), e1.height() + self.expr.height());
            },
            (None, None) => {
                result.draw(&expr_tc, 0, 0);
            },
        }
        result
    }

    fn as_text(&self) -> (r: String) {
        self.to_canvas().to_string()
    }
}

impl Sqrt {
    pub fn new(expr: Box<Node>) -> (r: Sqrt)
        ensures
            r.expr == expr,
    {
        Sqrt { expr }
    }
}

impl Drawable for Sqrt {
    open spec fn s_node(&self) -> Node {
        Node::Sqrt(*self)
    }

    fn width(&self) -> (r: usize)
        decreases self.s_node(), 1int,
    {
        self.expr.width() + self.expr.height() + (self.expr.height() + 1) / 2
    }

    fn height(&self) -> (r: usize)
        decreases self.s_node(), 1int,
    {
        self.expr.height() + 1
    }

    fn level(&self) -> (r: usize)
        decreases self.s_node(), 1int,
    {
        (self.expr.height() + 1) / 2
    }

    fn to_canvas(&self) -> (r: TextCanvas)
        decreases self.s_node(), 1int,
    {
        let ghost n = self.s_node();
        let w = self.width();
        let h = self.height();
        let we = self.expr.width();
        let he = self.expr.height();
        let m = (he + 1) / 2;
        let mut result = TextCanvas::new(w, h);
        let expr_tc = self.expr.to_canvas();
        result.draw(&expr_tc, w - we, 1);
        let ghost g1 = result.grid();
        for pos in 0..m
            invariant
                result.wf(),
                result.width == w,
                result.height == h,
                n == self.s_node(),
                w == node_width(n),
                h == node_height(n),
                we == node_width(*self.expr),
                he == node_height(*self.expr),
                m == (he + 1) / 2,
                w == we + he + m,
                h == he + 1,
                result.grid() == grid_diag_down(g1, 0, h - m, pos as int, "\u{2572}"@),
        {
            result.set(pos, h - m + pos, "\u{2572}");
        }
        let ghost g2 = result.grid();
        for pos in 0..he
            invariant
                result.wf(),
                result.width == w,
                result.height == h,
                n == self.s_node(),
                w == node_width(n),
                h == node_height(n),
                we == node_width(*self.expr),
                he == node_height(*self.expr),
                m == (he + 1) / 2,
                w == we + he + m,
                h == he + 1,
                g2 == grid_diag_down(g1, 0, h - m, m as int, "\u{2572}"@),
                result.grid() == grid_diag_up(g2, m as int, h - 1, pos as int, "\u{2571}"@),
        {
            result.set(m + pos, h - 1 - pos, "\u{2571}");
        }
        let ghost g3 = result.grid();
        for i in 0..we
            invariant
                result.wf(),
                result.width == w,
                result.height == h,
                n == self.s_node(),
                w == node_width(n),
                h == node_height(n),
                we == node_width(*self.expr),
                he == node_height(*self.expr),
                m == (he + 1) / 2,
                w == we + he + m,
                h == he + 1,
                g3 == grid_diag_up(g2, m as int, h - 1, he as int, "\u{2571}"@),
                result.grid() == grid_hline(g3, (m + he) as int, 0, i as int, "\u{2581}"@),
        {
            result.set(m + he + i, 0, "\u{2581}");
        }
        result
    }

    fn as_text(&self) -> (r: String) {
        self.to_canvas().to_string()
    }
}

impl Root {
    pub fn new(index: Box<Node>, radicand: Box<Node>) -> (r: Root)
        ensures
            r.index == index,
            r.radicand == radicand,
    {
        Root { index, radicand }
    }
}

impl Drawable for Root {
    open spec fn s_node(&self) -> Node {
        Node::Root(*self)
    }

    fn width(&self) -> (r: usize)
        decreases self.s_node(), 1int,
    {
        let radical_symbol_height = (self.index.width() + 1) / 2;
        radical_symbol_height * 2 + (if self.radicand.height() > radical_symbol_height {
            self.radicand.height() - radical_symbol_height
        } else {
            0
        }) + self.radicand.width()
    }

    fn height(&self) -> (r: usize)
        decreases self.s_node(), 1int,
    {
        let radical_symbol_height = (self.index.width() + 1) / 2;
        let above = self.index.height() + radical_symbol_height;
        let below = self.radicand.height() + 1;
        if above >= below {
            above
        } else {
            below
        }
    }

    fn level(&self) -> (r: usize)
        decreases self.s_node(), 1int,
    {
        let radical_symbol_height = (self.index.width() + 1) / 2;
        let above = self.index.height() + radical_symbol_height;
        let below = self.radicand.height() + 1;
        let h = if above >= below {
            above
        } else {
            below
        };
        h - (self.index.height() + 1) / 2
    }

    fn to_canvas(&self) -> (r: TextCanvas)
        decreases self.s_node(), 1int,
    {
        let ghost n = self.s_node();
        let w = self.width();
        let h = self.height();
        let wi = self.index.width();
        let hi = self.index.height();
        let wr = self.radicand.width();
        let hr = self.radicand.height();
        let radical_symbol_height = (wi + 1) / 2;
        let mut result = TextCanvas::new(w, h);
        let index_tc = self.index.to_canvas();
        let radicand_tc = self.radicand.to_canvas();
        result.draw(&index_tc, wi % 2, h - hi - radical_symbol_height);
        let ghost g1 = result.grid();
        for i in 0..radical_symbol_height
            invariant
                result.wf(),
                result.width == w,
                result.height == h,
                n == self.s_node(),
                w == node_width(n),
                h == node_height(n),
                wi == node_width(*self.index),
                hi == node_height(*self.index),
                wr == node_width(*self.radicand),
                hr == node_height(*self.radicand),
                radical_symbol_height == (wi + 1) / 2,
                1 <= hi,
                result.grid() == grid_diag_down(
                    g1,
                    0,
                    h - radical_symbol_height,
                    i as int,
                    "\u{2572}"@,
                ),
        {
            result.set(i, h - radical_symbol_height + i, "\u{2572}");
        }
        let ghost g2 = result.grid();
        for i in 0..radical_symbol_height
            invariant
                result.wf(),
                result.width == w,
                result.height == h,
                n == self.s_node(),
                w == node_width(n),
                h == node_height(n),
                wi == node_width(*self.index),
                hi == node_height(*self.index),
                wr == node_width(*self.radicand),
                hr == node_height(*self.radicand),
                radical_symbol_height == (wi + 1) / 2,
                1 <= hi,
                g2 == grid_diag_down(
                    g1,
                    0,
                    h - radical_symbol_height,
                    radical_symbol_height as int,
                    "\u{2572}"@,
                ),
                result.grid() == grid_diag_up(
                    g2,
                    radical_symbol_height as int,
                    h - 1,
                    i as int,
                    "\u{2571}"@,
                ),
        {
            result.set(radical_symbol_height + i, h - i - 1, "\u{2571}");
        }
        let ghost g3 = result.grid();
        if hr > radical_symbol_height {
            for i in 0..hr - radical_symbol_height
                invariant
                    result.wf(),
                    result.width == w,
                    result.height == h,
                    n == self.s_node(),
                    w == node_width(n),
                    h == node_height(n),
                    wi == node_width(*self.index),
                    hi == node_height(*self.index),
                    wr == node_width(*self.radicand),
                    hr == node_height(*self.radicand),
                    radical_symbol_height == (wi + 1) / 2,
                    1 <= hi,
                    hr > radical_symbol_height,
                    g3 == grid_diag_up(
                        g2,
                        radical_symbol_height as int,
                        h - 1,
                        radical_symbol_height as int,
                        "\u{2571}"@,
                    ),
                    result.grid() == grid_diag_up(
                        g3,
                        2 * (radical_symbol_height as int),
                        h - radical_symbol_height - 1,
                        i as int,
                        "\u{2571}"@,
                    ),
            {
                result.set(
                    2 * radical_symbol_height + i,
                    h - radical_symbol_height - i - 1,
                    "\u{2571}",
                );
            }
        }
        let top_line_level = if hr > radical_symbol_height {
            h - hr
        } else {
            h - radical_symbol_height
        };
        let x_bar = 2 * radical_symbol_height + (if hr > radical_symbol_height {
            hr - radical_symbol_height
        } else {
            0
        });
        let ghost g4 = result.grid();
        for i in 0..wr
            invariant
                result.wf(),
                result.width == w,
                result.height == h,
                n == self.s_node(),
                w == node_width(n),
                h == node_height(n),
                wi == node_width(*self.index),
                hi == node_height(*self.index),
                wr == node_width(*self.radicand),
                hr == node_height(*self.radicand),
                radical_symbol_height == (wi + 1) / 2,
                1 <= hi,
                top_line_level == (if hr > radical_symbol_height {
                    h - hr
                } else {
                    h - radical_symbol_height
                }),
                1 <= top_line_level,
                x_bar == 2 * radical_symbol_height + (if hr > radical_symbol_height {
                    hr - radical_symbol_height
                } else {
                    0
                }),
                x_bar + wr == w,
                result.grid() == grid_hline(
                    g4,
                    x_bar as int,
                    top_line_level - 1,
                    i as int,
                    "\u{2581}"@,
                ),
        {
            result.set(x_bar + i, top_line_level - 1, "\u{2581}");
        }
        result.draw(
            &radicand_tc,
            w - wr,
            top_line_level + (h - top_line_level - hr + 1) / 2,
        );
        result
    }

    fn as_text(&self) -> (r: String) {
        self.to_canvas().to_string()
    }
}

impl Expr {
    pub fn new(exprs: Vec<Box<Node>>) -> (r: Expr)
        ensures
            r.exprs == exprs,
    {
        Expr { exprs }
    }
}

impl Drawable for Expr {
    open spec fn s_node(&self) -> Node {
        Node::Expr(*self)
    }

    fn width(&self) -> (r: usize)
        decreases self.s_node(), 1int,
    {
        let ghost ds = dims_of(self.exprs@);
        let mut total: usize = 0;
        for i in 0..self.exprs.len()
            invariant
                node_wf(self.s_node()),
                node_fits(self.s_node()),
                ds == dims_of(self.exprs@),
                total == wsum(ds, i as int),
        {
            proof {
                lemma_all_wf_index(self.exprs@, i as int);
                lemma_all_fits_index(self.exprs@, i as int);
                lemma_dims_of_index(self.exprs@, i as int);
                lemma_wsum_mono(ds, i + 1, self.exprs@.len() as int);
            }
            total = total + self.exprs[i].width();
        }
        proof {
            lemma_dims_of_len(self.exprs@);
        }
        total
    }

    fn height(&self) -> (r: usize)
        decreases self.s_node(), 1int,
    {
        let ghost ds = dims_of(self.exprs@);
        if self.exprs.len() == 0 {
            return 0;
        }
        let mut lev: usize = 0;
        for i in 0..self.exprs.len()
            invariant
                node_wf(self.s_node()),
                node_fits(self.s_node()),
                ds == dims_of(self.exprs@),
                lev == lmax(ds, i as int),
        {
            proof {
                lemma_all_wf_index(self.exprs@, i as int);
                lemma_all_fits_index(self.exprs@, i as int);
                lemma_dims_of_index(self.exprs@, i as int);
                lemma_wf_level_below_height(*self.exprs@[i as int]);
            }
            let l = self.exprs[i].level();
            if l > lev {
                lev = l;
            }
        }
        proof {
            lemma_dims_of_len(self.exprs@);
        }
        let ghost k = self.exprs@.len() as int;
        let mut best: usize = 0;
        for i in 0..self.exprs.len()
            invariant
                node_wf(self.s_node()),
                node_fits(self.s_node()),
                ds == dims_of(self.exprs@),
                k == self.exprs@.len() as int,
                lev == lmax(ds, k),
                best == (if i == 0 {
                    0nat
                } else {
                    lmax(ds, k) + dropmax(ds, i as int)
                }),
        {
            proof {
                lemma_all_wf_index(self.exprs@, i as int);
                lemma_all_fits_index(self.exprs@, i as int);
                lemma_dims_of_index(self.exprs@, i as int);
                lemma_wf_level_below_height(*self.exprs@[i as int]);
                lemma_dropmax_bound(ds, i as int, k);
            }
            let hh = self.exprs[i].height();
            let ll = self.exprs[i].level();
            let v = lev + (hh - ll - 1);
            if v > best {
                best = v;
            }
            proof {
                if i == 0 {
                    assert(dropmax(ds, 0) == 0);
                }
            }
        }
        proof {
            lemma_dims_of_len(self.exprs@);
        }
        best + 1
    }

    fn level(&self) -> (r: usize)
        decreases self.s_node(), 1int,
    {
        let ghost ds = dims_of(self.exprs@);
        let mut lev: usize = 0;
        for i in 0..self.exprs.len()
            invariant
                node_wf(self.s_node()),
                node_fits(self.s_node()),
                ds == dims_of(self.exprs@),
                lev == lmax(ds, i as int),
        {
            proof {
                lemma_all_wf_index(self.exprs@, i as int);
                lemma_all_fits_index(self.exprs@, i as int);
                lemma_dims_of_index(self.exprs@, i as int);
                lemma_wf_level_below_height(*self.exprs@[i as int]);
            }
            let l = self.exprs[i].level();
            if l > lev {
                lev = l;
            }
        }
        proof {
            lemma_dims_of_len(self.exprs@);
        }
        lev
    }

    fn to_canvas(&self) -> (r: TextCanvas)
        decreases self.s_node(), 1int,
    {
        let ghost n = self.s_node();
        let ghost s = self.exprs@;
        let ghost ds = dims_of(self.exprs@);
        proof {
            lemma_dims_of_len(self.exprs@);
        }
        let w = self.width();
        let h = self.height();
        let level = self.level();
        let mut result = TextCanvas::new(w, h);
        let ghost g0 = result.grid();
        let mut idx: usize = 0;
        for i in 0..self.exprs.len()
            invariant
                node_wf(n),
                node_fits(n),
                n == self.s_node(),
                s == self.exprs@,
                ds == dims_of(self.exprs@),
                ds.len() == s.len(),
                result.wf(),
                result.width == w,
                result.height == h,
                w == node_width(n),
                h == node_height(n),
                level == node_level(n),
                level == lmax(ds, s.len() as int),
                idx == wsum(ds, i as int),
                result.grid() == row_cells_paint(g0, s, ds, level as int, i as int),
        {
            proof {
                lemma_all_wf_index(self.exprs@, i as int);
                lemma_all_fits_index(self.exprs@, i as int);
                lemma_dims_of_index(self.exprs@, i as int);
                lemma_wf_level_below_height(*self.exprs@[i as int]);
                lemma_lmax_bound(ds, i as int, s.len() as int);
                lemma_dropmax_bound(ds, i as int, s.len() as int);
                lemma_wsum_mono(ds, i + 1, s.len() as int);
            }
            let tc = self.exprs[i].to_canvas();
            let cl = self.exprs[i].level();
            result.draw(&tc, idx, level - cl);
            idx = idx + tc.width;
        }
        result
    }

    fn as_text(&self) -> (r: String) {
        self.to_canvas().to_string()
    }
}

impl Matrix {
    pub fn new(
        left_bracket: BracketType,
        exprs: Vec<Box<Node>>,
        right_bracket: BracketType,
        num_colls: usize,
    ) -> (r: Matrix)
        ensures
            r.left_bracket == left_bracket,
            r.exprs == exprs,
            r.right_bracket == right_bracket,
            r.num_colls == num_colls,
    {
        Matrix { left_bracket, exprs, right_bracket, num_colls }
    }

    /// The greatest width of each column and the greatest height of each
    /// row: entry `(c, r)` of the result is that pair for the cell at row
    /// `r`, column `c`.
    pub fn max_sizes(&self) -> (r: Vec<Vec<(usize, usize)>>)
        requires
            node_wf(self.s_node()),
            node_fits(self.s_node()),
        ensures
            ({
                let ds = dims_of(self.exprs@);
                let ncols = self.num_colls as int;
                let nrows = self.exprs@.len() as int / ncols;
                &&& r@.len() == nrows
                &&& forall|i: int| 0 <= i < nrows ==> (#[trigger] r@[i])@.len() == ncols
                &&& forall|i: int, j: int|
                    0 <= i < nrows && 0 <= j < ncols ==> (#[trigger] r@[i]@[j]) == (
                    col_w(ds, ncols, j, nrows) as usize,
                    row_h(ds, ncols, i, ncols) as usize,
                    )
            }),
        decreases self.s_node(), 0int,
    {
        let ghost ds = dims_of(self.exprs@);
        let num_rows = self.exprs.len() / self.num_colls;
        proof {
            lemma_matrix_nrows(self.exprs@.len() as int, self.num_colls as int);
        }
        let mut col_ws: Vec<usize> = Vec::new();
        for c in 0..self.num_colls
            invariant
                node_wf(self.s_node()),
                node_fits(self.s_node()),
                ds == dims_of(self.exprs@),
                num_rows == self.exprs@.len() as int / self.num_colls as int,
                self.exprs@.len() == num_rows * self.num_colls,
                self.exprs@.len() <= usize::MAX,
                col_ws@.len() == c,
                forall|j: int|
                    0 <= j < c ==> #[trigger] col_ws@[j] == col_w(
                        ds,
                        self.num_colls as int,
                        j,
                        num_rows as int,
                    ) as usize,
        {
            let mut m: usize = 0;
            for rr in 0..num_rows
                invariant
                    node_wf(self.s_node()),
                    node_fits(self.s_node()),
                    ds == dims_of(self.exprs@),
                    num_rows == self.exprs@.len() as int / self.num_colls as int,
                    self.exprs@.len() == num_rows * self.num_colls,
                    self.exprs@.len() <= usize::MAX,
                    c < self.num_colls,
                    m == col_w(ds, self.num_colls as int, c as int, rr as int),
            {
                proof {
                    lemma_matrix_cell_index(
                        self.exprs@.len() as int,
                        self.num_colls as int,
                        num_rows as int,
                        rr as int,
                        c as int,
                    );
                }
                let idx = rr * self.num_colls + c;
                proof {
                    lemma_all_wf_index(self.exprs@, idx as int);
                    lemma_all_fits_index(self.exprs@, idx as int);
                    lemma_dims_of_index(self.exprs@, idx as int);
                }
                let w = self.exprs[idx].width();
                if w > m {
                    m = w;
                }
            }
            col_ws.push(m);
        }
        let mut row_hs: Vec<usize> = Vec::new();
        for rr in 0..num_rows
            invariant
                node_wf(self.s_node()),
                node_fits(self.s_node()),
                ds == dims_of(self.exprs@),
                num_rows == self.exprs@.len() as int / self.num_colls as int,
                self.exprs@.len() == num_rows * self.num_colls,
                self.exprs@.len() <= usize::MAX,
                row_hs@.len() == rr,
                forall|i: int|
                    0 <= i < rr ==> #[trigger] row_hs@[i] == row_h(
                        ds,
                        self.num_colls as int,
                        i,
                        self.num_colls as int,
                    ) as usize,
        {
            let mut m: usize = 0;
            for c in 0..self.num_colls
                invariant
                    node_wf(self.s_node()),
                    node_fits(self.s_node()),
                    ds == dims_of(self.exprs@),
                    num_rows == self.exprs@.len() as int / self.num_colls as int,
                    self.exprs@.len() == num_rows * self.num_colls,
                    self.exprs@.len() <= usize::MAX,
                    rr < num_rows,
                    m == row_h(ds, self.num_colls as int, rr as int, c as int),
            {
                proof {
                    lemma_matrix_cell_index(
                        self.exprs@.len() as int,
                        self.num_colls as int,
                        num_rows as int,
                        rr as int,
                        c as int,
                    );
                }
                let idx = rr * self.num_colls + c;
                proof {
                    lemma_all_wf_index(self.exprs@, idx as int);
                    lemma_all_fits_index(self.exprs@, idx as int);
                    lemma_dims_of_index(self.exprs@, idx as int);
                }
                let h = self.exprs[idx].height();
                if h > m {
                    m = h;
                }
            }
            row_hs.push(m);
        }
        let mut data: Vec<Vec<(usize, usize)>> = Vec::new();
        for rr in 0..num_rows
            invariant
                num_rows <= row_hs@.len(),
                self.num_colls <= col_ws@.len(),
                data@.len() == rr,
                forall|i: int| 0 <= i < rr ==> (#[trigger] data@[i])@.len() == self.num_colls,
                forall|i: int, j: int|
                    0 <= i < rr && 0 <= j < self.num_colls ==> (#[trigger] data@[i]@[j]) == (
                    col_ws@[j],
                    row_hs@[i],
                    ),
        {
            let mut row: Vec<(usize, usize)> = Vec::new();
            for c in 0..self.num_colls
                invariant
                    num_rows <= row_hs@.len(),
                    self.num_colls <= col_ws@.len(),
                    rr < num_rows,
                    row@.len() == c,
                    forall|j: int|
                        0 <= j < c ==> #[trigger] row@[j] == (col_ws@[j], row_hs@[rr as int]),
            {
                row.push((col_ws[c], row_hs[rr]));
            }
            data.push(row);
        }
        data
    }
}

impl Drawable for Matrix {
    open spec fn s_node(&self) -> Node {
        Node::Matrix(*self)
    }

    fn width(&self) -> (r: usize)
        decreases self.s_node(), 1int,
    {
        let ghost ds = dims_of(self.exprs@);
        let max_sizes = self.max_sizes();
        let ghost ncols = self.num_colls as int;
        let ghost nrows = self.exprs@.len() as int / ncols;
        proof {
            lemma_matrix_nrows(self.exprs@.len() as int, ncols);
        }
        let mut total: usize = 1;
        for c in 0..self.num_colls
            invariant
                node_wf(self.s_node()),
                node_fits(self.s_node()),
                ds == dims_of(self.exprs@),
                ncols == self.num_colls as int,
                nrows == self.exprs@.len() as int / ncols,
                1 <= nrows,
                max_sizes@.len() == nrows,
                forall|i: int| 0 <= i < nrows ==> (#[trigger] max_sizes@[i])@.len() == ncols,
                forall|i: int, j: int|
                    0 <= i < nrows && 0 <= j < ncols ==> (#[trigger] max_sizes@[i]@[j]) == (
                    col_w(ds, ncols, j, nrows) as usize,
                    row_h(ds, ncols, i, ncols) as usize,
                    ),
                total == 1 + cols_total(ds, ncols, nrows, c as int),
        {
            proof {
                lemma_cols_total_mono(ds, ncols, nrows, c + 1, ncols);
            }
            total = total + max_sizes[0][c].0;
        }
        total + (self.num_colls - 1) + 1
    }

    fn height(&self) -> (r: usize)
        decreases self.s_node(), 1int,
    {
        let ghost ds = dims_of(self.exprs@);
        let num_rows = self.exprs.len() / self.num_colls;
        let max_sizes = self.max_sizes();
        let ghost ncols = self.num_colls as int;
        let ghost nrows = self.exprs@.len() as int / ncols;
        proof {
            lemma_matrix_nrows(self.exprs@.len() as int, ncols);
        }
        let mut total: usize = 0;
        for rr in 0..num_rows
            invariant
                node_wf(self.s_node()),
                node_fits(self.s_node()),
                ds == dims_of(self.exprs@),
                ncols == self.num_colls as int,
                nrows == self.exprs@.len() as int / ncols,
                num_rows == nrows,
                1 <= nrows,
                max_sizes@.len() == nrows,
                forall|i: int| 0 <= i < nrows ==> (#[trigger] max_sizes@[i])@.len() == ncols,
                forall|i: int, j: int|
                    0 <= i < nrows && 0 <= j < ncols ==> (#[trigger] max_sizes@[i]@[j]) == (
                    col_w(ds, ncols, j, nrows) as usize,
                    row_h(ds, ncols, i, ncols) as usize,
                    ),
                total == rows_total(ds, ncols, rr as int),
        {
            proof {
                lemma_rows_total_mono(ds, ncols, rr + 1, nrows);
            }
            total = total + max_sizes[rr][0].1;
        }
        total + (num_rows - 1)
    }

    fn level(&self) -> (r: usize)
        decreases self.s_node(), 1int,
    {
        0
    }

    fn to_canvas(&self) -> (r: TextCanvas)
        decreases self.s_node(), 1int,
    {
        let ghost n = self.s_node();
        let ghost s = self.exprs@;
        let ghost ds = dims_of(self.exprs@);
        let ghost ncols = self.num_colls as int;
        let ghost nrows = self.exprs@.len() as int / ncols;
        proof {
            lemma_dims_of_len(self.exprs@);
            lemma_matrix_nrows(self.exprs@.len() as int, ncols);
        }
        let num_rows = self.exprs.len() / self.num_colls;
        let max_sizes = self.max_sizes();
        let w = self.width();
        let h = self.height();
        let mut result = TextCanvas::new(w, h);
        draw_bracket(&mut result, &self.left_bracket, h, 0, 0);
        let ghost gb = result.grid();
        let mut y: usize = 0;
        proof {
            assert(0int * ncols == 0) by (nonlinear_arith);
            assert(matrix_cells_paint(gb, s, ds, ncols, 0) == gb);
        }
        for row_idx in 0..num_rows
            invariant
                node_wf(n),
                node_fits(n),
                n == self.s_node(),
                s == self.exprs@,
                ds == dims_of(self.exprs@),
                ds.len() == s.len(),
                ncols == self.num_colls as int,
                nrows == self.exprs@.len() as int / ncols,
                num_rows == nrows,
                1 <= nrows,
                s.len() == nrows * ncols,
                s.len() <= usize::MAX,
                max_sizes@.len() == nrows,
                forall|i: int| 0 <= i < nrows ==> (#[trigger] max_sizes@[i])@.len() == ncols,
                forall|i: int, j: int|
                    0 <= i < nrows && 0 <= j < ncols ==> (#[trigger] max_sizes@[i]@[j]) == (
                    col_w(ds, ncols, j, nrows) as usize,
                    row_h(ds, ncols, i, ncols) as usize,
                    ),
                result.wf(),
                result.width == w,
                result.height == h,
                w == node_width(n),
                h == node_height(n),
                h < usize::MAX,
                y == cell_y(ds, ncols, row_idx as int),
                result.grid() == matrix_cells_paint(gb, s, ds, ncols, row_idx as int * ncols),
        {
            let mut x: usize = 1;
            let mut max_row_height: usize = 0;
            proof {
                assert(row_idx as int * ncols <= (nrows - 1) * ncols) by (nonlinear_arith)
                    requires
                        row_idx < nrows,
                        0 <= row_idx,
                        1 <= ncols,
                ;
                assert((nrows - 1) * ncols + ncols == nrows * ncols) by (nonlinear_arith);
            }
            for coll_idx in 0..self.num_colls
                invariant
                    node_wf(n),
                    node_fits(n),
                    n == self.s_node(),
                    s == self.exprs@,
                    ds == dims_of(self.exprs@),
                    ds.len() == s.len(),
                    ncols == self.num_colls as int,
                    nrows == self.exprs@.len() as int / ncols,
                    num_rows == nrows,
                    1 <= nrows,
                    s.len() == nrows * ncols,
                    s.len() <= usize::MAX,
                    row_idx < nrows,
                    row_idx as int * ncols <= (nrows - 1) * ncols,
                    (nrows - 1) * ncols + ncols == nrows * ncols,
                    max_sizes@.len() == nrows,
                    forall|i: int| 0 <= i < nrows ==> (#[trigger] max_sizes@[i])@.len() == ncols,
                    forall|i: int, j: int|
                        0 <= i < nrows && 0 <= j < ncols ==> (#[trigger] max_sizes@[i]@[j]) == (
                        col_w(ds, ncols, j, nrows) as usize,
                        row_h(ds, ncols, i, ncols) as usize,
                        ),
                    result.wf(),
                    result.width == w,
                    result.height == h,
                    w == node_width(n),
                    h == node_height(n),
                    h < usize::MAX,
                    y == cell_y(ds, ncols, row_idx as int),
                    x == 1 + cols_total(ds, ncols, nrows, coll_idx as int) + coll_idx,
                    max_row_height == row_h(ds, ncols, row_idx as int, coll_idx as int),
                    result.grid() == matrix_cells_paint(
                        gb,
                        s,
                        ds,
                        ncols,
                        row_idx as int * ncols + coll_idx,
                    ),
            {
                proof {
                    lemma_matrix_cell_index(
                        s.len() as int,
                        ncols,
                        nrows,
                        row_idx as int,
                        coll_idx as int,
                    );
                }
                let idx = row_idx * self.num_colls + coll_idx;
                proof {
                    lemma_all_wf_index(self.exprs@, idx as int);
                    lemma_all_fits_index(self.exprs@, idx as int);
                    lemma_dims_of_index(self.exprs@, idx as int);
                    vstd::arithmetic::div_mod::lemma_fundamental_div_mod_converse(
                        idx as int,
                        ncols,
                        row_idx as int,
                        coll_idx as int,
                    );
                    lemma_col_w_bound(ds, ncols, coll_idx as int, row_idx as int, nrows);
                    lemma_row_h_bound(ds, ncols, row_idx as int, coll_idx as int, ncols);
                    lemma_cols_total_mono(ds, ncols, nrows, coll_idx + 1, ncols);
                    lemma_rows_total_mono(ds, ncols, row_idx + 1, nrows);
                }
                let tc = self.exprs[idx].to_canvas();
                result.draw(&tc, x + (max_sizes[row_idx][coll_idx].0 - tc.width) / 2, y);
                x = x + max_sizes[row_idx][coll_idx].0 + 1;
                if tc.height > max_row_height {
                    max_row_height = tc.height;
                }
            }
            proof {
                lemma_rows_total_mono(ds, ncols, row_idx + 1, nrows);
                assert((row_idx + 1) as int * ncols == row_idx as int * ncols + ncols)
                    by (nonlinear_arith);
            }
            y = y + max_row_height + 1;
        }
        proof {
            assert(nrows * ncols == s.len());
        }
        draw_bracket(&mut result, &self.right_bracket, h, w - 1, 0);
        result
    }

    fn as_text(&self) -> (r: String) {
        self.to_canvas().to_string()
    }
}

} // verus!
