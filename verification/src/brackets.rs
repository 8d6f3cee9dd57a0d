//! Bracket glyph selection and painting.
//!
//! Given a bracket kind and the height of the bracketed content, these
//! functions decide how many columns the bracket occupies and paint it:
//! a single glyph for height one, a hand-picked glyph pair for height two,
//! and a column (or, for angled brackets, a diagonal) assembled from top,
//! extension and bottom glyphs for greater heights.

use vstd::prelude::*;

use crate::text_canvas::{
    grid_diag_back, grid_diag_down, grid_put, grid_vline, Grid, TextCanvas,
};

verus! {

/// Which glyph family wraps a group or matrix.
#[derive(Clone, Debug, PartialEq, Eq, Structural)]
pub enum BracketType {
    NoBracket,
    LeftRound,
    RightRound,
    LeftSquare,
    RightSquare,
    LeftCurly,
    RightCurly,
    LeftAngled,
    RightAngled,
    Vertical,
}

/// How many columns a bracket of this kind occupies beside content of
/// height `h`: none for an absent bracket, one column for every straight
/// kind, and a widening diagonal for angled kinds. A bare bracket beside
/// empty content still occupies one column.
pub open spec fn spec_bracket_width(b: BracketType, h: nat) -> nat {
    if h == 0 {
        if b == BracketType::NoBracket {
            0
        } else {
            1
        }
    } else {
        match b {
            BracketType::NoBracket => 0,
            BracketType::LeftAngled | BracketType::RightAngled => ((h + 1) / 2) as nat,
            _ => 1,
        }
    }
}

pub fn bracket_width(bracket_type: &BracketType, expr_height: usize) -> (r: usize)
    requires
        expr_height < usize::MAX,
    ensures
        r == spec_bracket_width(*bracket_type, expr_height as nat),
{
    if expr_height == 0 {
        if *bracket_type == BracketType::NoBracket {
            return 0;
        } else {
            return 1;
        }
    }
    match bracket_type {
        BracketType::NoBracket => 0,
        BracketType::LeftRound | BracketType::RightRound => 1,
        BracketType::LeftSquare | BracketType::RightSquare => 1,
        BracketType::LeftCurly | BracketType::RightCurly => 1,
        BracketType::LeftAngled | BracketType::RightAngled => (expr_height + 1) / 2,
        BracketType::Vertical => 1,
    }
}

/// Paint a one-glyph-per-row bracket: the same glyph repeated down a column.
pub fn draw_simple_bracket(
    text_canvas: &mut TextCanvas,
    expr_height: usize,
    at_x: usize,
    at_y: usize,
    bracket: &str,
)
    requires
        old(text_canvas).wf(),
        at_x < old(text_canvas).width,
        at_y + expr_height <= old(text_canvas).height,
    ensures
        final(text_canvas).wf(),
        final(text_canvas).width == old(text_canvas).width,
        final(text_canvas).height == old(text_canvas).height,
        final(text_canvas).grid() == grid_vline(
            old(text_canvas).grid(),
            at_x as int,
            at_y as int,
            expr_height as int,
            bracket@,
        ),
{
    let ghost g0 = text_canvas.grid();
    for y_idx in 0..expr_height
        invariant
            text_canvas.wf(),
            text_canvas.width == old(text_canvas).width,
            text_canvas.height == old(text_canvas).height,
            at_x < text_canvas.width,
            at_y + expr_height <= text_canvas.height,
            text_canvas.grid() == grid_vline(g0, at_x as int, at_y as int, y_idx as int, bracket@),
    {
        text_canvas.set(at_x, at_y + y_idx, bracket);
    }
}

/// A straight bracket column: top glyph, `h - 2` extension rows, bottom glyph.
pub open spec fn spec_long_bracket(
    g: Grid,
    x: int,
    y: int,
    h: int,
    top: Seq<char>,
    extension: Seq<char>,
    bottom: Seq<char>,
) -> Grid {
    grid_put(grid_vline(grid_put(g, x, y, top), x, y + 1, h - 2, extension), x, y + h - 1, bottom)
}

/// Paint a straight bracket taller than two rows from its three glyphs.
pub fn draw_long_bracket(
    text_canvas: &mut TextCanvas,
    expr_height: usize,
    at_x: usize,
    at_y: usize,
    top: &str,
    extension: &str,
    bottom: &str,
)
    requires
        old(text_canvas).wf(),
        2 <= expr_height,
        at_x < old(text_canvas).width,
        at_y + expr_height <= old(text_canvas).height,
    ensures
        final(text_canvas).wf(),
        final(text_canvas).width == old(text_canvas).width,
        final(text_canvas).height == old(text_canvas).height,
        final(text_canvas).grid() == spec_long_bracket(
            old(text_canvas).grid(),
            at_x as int,
            at_y as int,
            expr_height as int,
            top@,
            extension@,
            bottom@,
        ),
{
    let ghost g0 = text_canvas.grid();
    let mut y: usize = at_y;
    text_canvas.set(at_x, at_y, top);
    let ghost g1 = text_canvas.grid();
    y += 1;
    for i in 0..expr_height - 2
        invariant
            text_canvas.wf(),
            text_canvas.width == old(text_canvas).width,
            text_canvas.height == old(text_canvas).height,
            at_x < text_canvas.width,
            at_y + expr_height <= text_canvas.height,
            2 <= expr_height,
            y == at_y + 1 + i,
            g1 == grid_put(g0, at_x as int, at_y as int, top@),
            text_canvas.grid() == grid_vline(g1, at_x as int, at_y + 1, i as int, extension@),
    {
        text_canvas.set(at_x, y, extension);
        y += 1;
    }
    text_canvas.set(at_x, y, bottom);
}

/// The interior rows of a tall curly bracket: `k` rows below `y0 - 1`,
/// each an extension glyph, except that the row `mid` carries the
/// brace's waist glyph.
pub open spec fn spec_curly_rows(
    g: Grid,
    x: int,
    y0: int,
    k: int,
    mid: int,
    extension: Seq<char>,
    middle: Seq<char>,
) -> Grid
    decreases k,
{
    if k <= 0 {
        g
    } else {
        grid_put(
            spec_curly_rows(g, x, y0, k - 1, mid, extension, middle),
            x,
            y0 + k - 1,
            if y0 + k - 1 == mid {
                middle
            } else {
                extension
            },
        )
    }
}

/// A tall curly bracket: top glyph, extension rows with a waist glyph at
/// the bracket's own half-height row, bottom glyph.
pub open spec fn spec_long_curly_bracket(
    g: Grid,
    x: int,
    y: int,
    h: int,
    top: Seq<char>,
    extension: Seq<char>,
    middle: Seq<char>,
    bottom: Seq<char>,
) -> Grid {
    grid_put(
        spec_curly_rows(grid_put(g, x, y, top), x, y + 1, h - 2, y + h / 2, extension, middle),
        x,
        y + h - 1,
        bottom,
    )
}

/// Paint a curly bracket taller than two rows from its four glyphs.
pub fn draw_long_curly_bracket(
    text_canvas: &mut TextCanvas,
    expr_height: usize,
    at_x: usize,
    at_y: usize,
    top: &str,
    extension: &str,
    middle: &str,
    bottom: &str,
)
    requires
        old(text_canvas).wf(),
        2 <= expr_height,
        at_x < old(text_canvas).width,
        at_y + expr_height <= old(text_canvas).height,
    ensures
        final(text_canvas).wf(),
        final(text_canvas).width == old(text_canvas).width,
        final(text_canvas).height == old(text_canvas).height,
        final(text_canvas).grid() == spec_long_curly_bracket(
            old(text_canvas).grid(),
            at_x as int,
            at_y as int,
            expr_height as int,
            top@,
            extension@,
            middle@,
            bottom@,
        ),
{
    let ghost g0 = text_canvas.grid();
    let mut y: usize = at_y;
    text_canvas.set(at_x, at_y, top);
    let ghost g1 = text_canvas.grid();
    y += 1;
    for i in 0..expr_height - 2
        invariant
            text_canvas.wf(),
            text_canvas.width == old(text_canvas).width,
            text_canvas.height == old(text_canvas).height,
            at_x < text_canvas.width,
            at_y + expr_height <= text_canvas.height,
            2 <= expr_height,
            y == at_y + 1 + i,
            g1 == grid_put(g0, at_x as int, at_y as int, top@),
            text_canvas.grid() == spec_curly_rows(
                g1,
                at_x as int,
                at_y + 1,
                i as int,
                at_y + expr_height as int / 2,
                extension@,
                middle@,
            ),
    {
        if y == at_y + expr_height / 2 {
            text_canvas.set(at_x, y, middle);
        } else {
            text_canvas.set(at_x, y, extension);
        }
        y += 1;
    }
    text_canvas.set(at_x, y, bottom);
}

/// A tall left angled bracket. For even height the upper half steps
/// leftward row by row and meets the lower half, which steps back out;
/// for odd height a single point glyph sits between the two halves.
pub open spec fn spec_angled_left(
    g: Grid,
    x: int,
    y: int,
    h: int,
    upper: Seq<char>,
    middle: Seq<char>,
    lower: Seq<char>,
) -> Grid {
    if h % 2 == 0 {
        grid_diag_down(
            grid_diag_back(g, x + h / 2 - 1, y, h / 2, upper),
            x,
            y + h / 2,
            h / 2,
            lower,
        )
    } else {
        grid_diag_down(
            grid_put(grid_diag_back(g, x + h / 2, y, h / 2, upper), x, y + h / 2, middle),
            x + 1,
            y + h / 2 + 1,
            h / 2,
            lower,
        )
    }
}

/// Paint a left angled bracket taller than two rows.
pub fn draw_long_angled_bracket_left(
    text_canvas: &mut TextCanvas,
    expr_height: usize,
    at_x: usize,
    at_y: usize,
    upper: &str,
    middle: &str,
    lower: &str,
)
    requires
        old(text_canvas).wf(),
        2 <= expr_height,
        at_x + (expr_height + 1) / 2 <= old(text_canvas).width,
        at_y + expr_height <= old(text_canvas).height,
    ensures
        final(text_canvas).wf(),
        final(text_canvas).width == old(text_canvas).width,
        final(text_canvas).height == old(text_canvas).height,
        final(text_canvas).grid() == spec_angled_left(
            old(text_canvas).grid(),
            at_x as int,
            at_y as int,
            expr_height as int,
            upper@,
            middle@,
            lower@,
        ),
{
    let ghost g0 = text_canvas.grid();
    let half: usize = expr_height / 2;
    if expr_height % 2 == 0 {
        for r in 0..half
            invariant
                text_canvas.wf(),
                text_canvas.width == old(text_canvas).width,
                text_canvas.height == old(text_canvas).height,
                half == expr_height / 2,
                expr_height % 2 == 0,
                2 <= expr_height,
                at_x + (expr_height + 1) / 2 <= text_canvas.width,
                at_y + expr_height <= text_canvas.height,
                text_canvas.grid() == grid_diag_back(
                    g0,
                    at_x + half - 1,
                    at_y as int,
                    r as int,
                    upper@,
                ),
        {
            text_canvas.set(at_x + half - 1 - r, at_y + r, upper);
        }
        let ghost g1 = text_canvas.grid();
        for r in 0..half
            invariant
                text_canvas.wf(),
                text_canvas.width == old(text_canvas).width,
                text_canvas.height == old(text_canvas).height,
                half == expr_height / 2,
                expr_height % 2 == 0,
                2 <= expr_height,
                at_x + (expr_height + 1) / 2 <= text_canvas.width,
                at_y + expr_height <= text_canvas.height,
                g1 == grid_diag_back(g0, at_x + half - 1, at_y as int, half as int, upper@),
                text_canvas.grid() == grid_diag_down(g1, at_x as int, at_y + half, r as int, lower@),
        {
            text_canvas.set(at_x + r, at_y + half + r, lower);
        }
    } else {
        for r in 0..half
            invariant
                text_canvas.wf(),
                text_canvas.width == old(text_canvas).width,
                text_canvas.height == old(text_canvas).height,
                half == expr_height / 2,
                expr_height % 2 == 1,
                2 <= expr_height,
                at_x + (expr_height + 1) / 2 <= text_canvas.width,
                at_y + expr_height <= text_canvas.height,
                text_canvas.grid() == grid_diag_back(g0, at_x + half, at_y as int, r as int, upper@),
        {
            text_canvas.set(at_x + half - r, at_y + r, upper);
        }
        text_canvas.set(at_x, at_y + half, middle);
        let ghost g1 = text_canvas.grid();
        for r in 0..half
            invariant
                text_canvas.wf(),
                text_canvas.width == old(text_canvas).width,
                text_canvas.height == old(text_canvas).height,
                half == expr_height / 2,
                expr_height % 2 == 1,
                2 <= expr_height,
                at_x + (expr_height + 1) / 2 <= text_canvas.width,
                at_y + expr_height <= text_canvas.height,
                g1 == grid_put(
                    grid_diag_back(g0, at_x + half, at_y as int, half as int, upper@),
                    at_x as int,
                    at_y + half,
                    middle@,
                ),
                text_canvas.grid() == grid_diag_down(
                    g1,
                    at_x + 1,
                    at_y + half + 1,
                    r as int,
                    lower@,
                ),
        {
            text_canvas.set(at_x + 1 + r, at_y + half + 1 + r, lower);
        }
    }
}

/// A tall right angled bracket: the mirror image of the left one. For odd
/// height a single point glyph sits at the apex, one column right of
/// the two mirrored halves.
pub open spec fn spec_angled_right(
    g: Grid,
    x: int,
    y: int,
    h: int,
    upper: Seq<char>,
    middle: Seq<char>,
    lower: Seq<char>,
) -> Grid {
    if h % 2 == 0 {
        grid_diag_back(
            grid_diag_down(g, x, y, h / 2, upper),
            x + h / 2 - 1,
            y + h / 2,
            h / 2,
            lower,
        )
    } else {
        grid_diag_back(
            grid_put(grid_diag_down(g, x, y, h / 2, upper), x + h / 2, y + h / 2, middle),
            x + h / 2 - 1,
            y + h / 2 + 1,
            h / 2,
            lower,
        )
    }
}

/// Paint a right angled bracket taller than two rows.
pub fn draw_long_angled_bracket_right(
    text_canvas: &mut TextCanvas,
    expr_height: usize,
    at_x: usize,
    at_y: usize,
    upper: &str,
    middle: &str,
    lower: &str,
)
    requires
        old(text_canvas).wf(),
        2 <= expr_height,
        at_x + (expr_height + 1) / 2 <= old(text_canvas).width,
        at_y + expr_height <= old(text_canvas).height,
    ensures
        final(text_canvas).wf(),
        final(text_canvas).width == old(text_canvas).width,
        final(text_canvas).height == old(text_canvas).height,
        final(text_canvas).grid() == spec_angled_right(
            old(text_canvas).grid(),
            at_x as int,
            at_y as int,
            expr_height as int,
            upper@,
            middle@,
            lower@,
        ),
{
    let ghost g0 = text_canvas.grid();
    let half: usize = expr_height / 2;
    if expr_height % 2 == 0 {
        for r in 0..half
            invariant
                text_canvas.wf(),
                text_canvas.width == old(text_canvas).width,
                text_canvas.height == old(text_canvas).height,
                half == expr_height / 2,
                expr_height % 2 == 0,
                2 <= expr_height,
                at_x + (expr_height + 1) / 2 <= text_canvas.width,
                at_y + expr_height <= text_canvas.height,
                text_canvas.grid() == grid_diag_down(g0, at_x as int, at_y as int, r as int, upper@),
        {
            text_canvas.set(at_x + r, at_y + r, upper);
        }
        let ghost g1 = text_canvas.grid();
        for r in 0..half
            invariant
                text_canvas.wf(),
                text_canvas.width == old(text_canvas).width,
                text_canvas.height == old(text_canvas).height,
                half == expr_height / 2,
                expr_height % 2 == 0,
                2 <= expr_height,
                at_x + (expr_height + 1) / 2 <= text_canvas.width,
                at_y + expr_height <= text_canvas.height,
                g1 == grid_diag_down(g0, at_x as int, at_y as int, half as int, upper@),
                text_canvas.grid() == grid_diag_back(
                    g1,
                    at_x + half - 1,
                    at_y + half,
                    r as int,
                    lower@,
                ),
        {
            text_canvas.set(at_x + half - 1 - r, at_y + half + r, lower);
        }
    } else {
        for r in 0..half
            invariant
                text_canvas.wf(),
                text_canvas.width == old(text_canvas).width,
                text_canvas.height == old(text_canvas).height,
                half == expr_height / 2,
                expr_height % 2 == 1,
                2 <= expr_height,
                at_x + (expr_height + 1) / 2 <= text_canvas.width,
                at_y + expr_height <= text_canvas.height,
                text_canvas.grid() == grid_diag_down(g0, at_x as int, at_y as int, r as int, upper@),
        {
            text_canvas.set(at_x + r, at_y + r, upper);
        }
        text_canvas.set(at_x + half, at_y + half, middle);
        let ghost g1 = text_canvas.grid();
        for r in 0..half
            invariant
                text_canvas.wf(),
                text_canvas.width == old(text_canvas).width,
                text_canvas.height == old(text_canvas).height,
                half == expr_height / 2,
                expr_height % 2 == 1,
                2 <= expr_height,
                at_x + (expr_height + 1) / 2 <= text_canvas.width,
                at_y + expr_height <= text_canvas.height,
                g1 == grid_put(
                    grid_diag_down(g0, at_x as int, at_y as int, half as int, upper@),
                    at_x + half,
                    at_y + half,
                    middle@,
                ),
                text_canvas.grid() == grid_diag_back(
                    g1,
                    at_x + half - 1,
                    at_y + half + 1,
                    r as int,
                    lower@,
                ),
        {
            text_canvas.set(at_x + half - 1 - r, at_y + half + 1 + r, lower);
        }
    }
}

/// What painting a bracket of kind `b` beside content of height `h` does
/// to a grid, the bracket's top-left corner at (`x`, `y`).
pub open spec fn spec_draw_bracket(g: Grid, b: BracketType, h: int, x: int, y: int) -> Grid {
    match b {
        BracketType::NoBracket => g,
        BracketType::LeftRound => if h <= 1 {
            grid_put(g, x, y, "("@)
        } else {
            spec_long_bracket(g, x, y, h, "\u{239b}"@, "\u{239c}"@, "\u{239d}"@)
        },
        BracketType::RightRound => if h <= 1 {
            grid_put(g, x, y, ")"@)
        } else {
            spec_long_bracket(g, x, y, h, "\u{239e}"@, "\u{239c}"@, "\u{23a0}"@)
        },
        BracketType::LeftSquare => if h <= 1 {
            grid_put(g, x, y, "["@)
        } else {
            spec_long_bracket(g, x, y, h, "\u{23a1}"@, "\u{23a5}"@, "\u{23a3}"@)
        },
        BracketType::RightSquare => if h <= 1 {
            grid_put(g, x, y, "]"@)
        } else {
            spec_long_bracket(g, x, y, h, "\u{23a4}"@, "\u{23a5}"@, "\u{23a6}"@)
        },
        BracketType::LeftCurly => if h <= 1 {
            grid_put(g, x, y, "{"@)
        } else if h == 2 {
            grid_put(grid_put(g, x, y, "\u{23b0}"@), x, y + 1, "\u{23b1}"@)
        } else {
            spec_long_curly_bracket(g, x, y, h, "\u{23a7}"@, "\u{23aa}"@, "\u{23a8}"@, "\u{23a9}"@)
        },
        BracketType::RightCurly => if h <= 1 {
            grid_put(g, x, y, "}"@)
        } else if h == 2 {
            grid_put(grid_put(g, x, y, "\u{23b1}"@), x, y + 1, "\u{23b0}"@)
        } else {
            spec_long_curly_bracket(g, x, y, h, "\u{23ab}"@, "\u{23aa}"@, "\u{23ac}"@, "\u{23ad}"@)
        },
        BracketType::LeftAngled => if h <= 1 {
            grid_put(g, x, y, "\u{27e8}"@)
        } else if h == 2 {
            grid_put(grid_put(g, x, y, "\u{2571}"@), x, y + 1, "\u{2572}"@)
        } else {
            spec_angled_left(g, x, y, h, "\u{2571}"@, "\u{1fba4}"@, "\u{2572}"@)
        },
        BracketType::RightAngled => if h <= 1 {
            grid_put(g, x, y, "\u{27e9}"@)
        } else if h == 2 {
            grid_put(grid_put(g, x, y, "\u{2572}"@), x, y + 1, "\u{2571}"@)
        } else {
            spec_angled_right(g, x, y, h, "\u{2572}"@, "\u{1fba5}"@, "\u{2571}"@)
        },
        BracketType::Vertical => if h == 0 {
            grid_put(g, x, y, "\u{ffe8}"@)
        } else {
            grid_vline(g, x, y, h, "\u{ffe8}"@)
        },
    }
}

/// Paint a bracket of kind `bracket_type` for content of height
/// `expr_height`, the bracket's top-left corner at (`at_x`, `at_y`).
pub fn draw_bracket(
    text_canvas: &mut TextCanvas,
    bracket_type: &BracketType,
    expr_height: usize,
    at_x: usize,
    at_y: usize,
)
    requires
        old(text_canvas).wf(),
        *bracket_type != BracketType::NoBracket ==> at_x + spec_bracket_width(
            *bracket_type,
            expr_height as nat,
        ) <= old(text_canvas).width && at_y + expr_height <= old(text_canvas).height && at_y < old(
            text_canvas,
        ).height,
    ensures
        final(text_canvas).wf(),
        final(text_canvas).width == old(text_canvas).width,
        final(text_canvas).height == old(text_canvas).height,
        final(text_canvas).grid() == spec_draw_bracket(
            old(text_canvas).grid(),
            *bracket_type,
            expr_height as int,
            at_x as int,
            at_y as int,
        ),
{
    match bracket_type {
        BracketType::NoBracket => {},
        BracketType::LeftRound => {
            if expr_height <= 1 {
                text_canvas.set(at_x, at_y, "(");
            } else {
                draw_long_bracket(
                    text_canvas,
                    expr_height,
                    at_x,
                    at_y,
                    "\u{239b}",
                    "\u{239c}",
                    "\u{239d}",
                );
            }
        },
        BracketType::RightRound => {
            if expr_height <= 1 {
                text_canvas.set(at_x, at_y, ")");
            } else {
                draw_long_bracket(
                    text_canvas,
                    expr_height,
                    at_x,
                    at_y,
                    "\u{239e}",
                    "\u{239c}",
                    "\u{23a0}",
                );
            }
        },
        BracketType::LeftSquare => {
            if expr_height <= 1 {
                text_canvas.set(at_x, at_y, "[");
            } else {
                draw_long_bracket(
                    text_canvas,
                    expr_height,
                    at_x,
                    at_y,
                    "\u{23a1}",
                    "\u{23a5}",
                    "\u{23a3}",
                );
            }
        },
        BracketType::RightSquare => {
            if expr_height <= 1 {
                text_canvas.set(at_x, at_y, "]");
            } else {
                draw_long_bracket(
                    text_canvas,
                    expr_height,
                    at_x,
                    at_y,
                    "\u{23a4}",
                    "\u{23a5}",
                    "\u{23a6}",
                );
            }
        },
        BracketType::LeftCurly => {
            if expr_height <= 1 {
                text_canvas.set(at_x, at_y, "{");
            } else if expr_height == 2 {
                text_canvas.set(at_x, at_y, "\u{23b0}");
                text_canvas.set(at_x, at_y + 1, "\u{23b1}");
            } else {
                draw_long_curly_bracket(
                    text_canvas,
                    expr_height,
                    at_x,
                    at_y,
                    "\u{23a7}",
                    "\u{23aa}",
                    "\u{23a8}",
                    "\u{23a9}",
                );
            }
        },
        BracketType::RightCurly => {
            if expr_height <= 1 {
                text_canvas.set(at_x, at_y, "}");
            } else if expr_height == 2 {
                text_canvas.set(at_x, at_y, "\u{23b1}");
                text_canvas.set(at_x, at_y + 1, "\u{23b0}");
            } else {
                draw_long_curly_bracket(
                    text_canvas,
                    expr_height,
                    at_x,
                    at_y,
                    "\u{23ab}",
                    "\u{23aa}",
                    "\u{23ac}",
                    "\u{23ad}",
                );
            }
        },
        BracketType::LeftAngled => {
            if expr_height <= 1 {
                text_canvas.set(at_x, at_y, "\u{27e8}");
            } else if expr_height == 2 {
                text_canvas.set(at_x, at_y, "\u{2571}");
                text_canvas.set(at_x, at_y + 1, "\u{2572}");
            } else {
                draw_long_angled_bracket_left(
                    text_canvas,
                    expr_height,
                    at_x,
                    at_y,
                    "\u{2571}",
                    "\u{1fba4}",
                    "\u{2572}",
                );
            }
        },
        BracketType::RightAngled => {
            if expr_height <= 1 {
                text_canvas.set(at_x, at_y, "\u{27e9}");
            } else if expr_height == 2 {
                text_canvas.set(at_x, at_y, "\u{2572}");
                text_canvas.set(at_x, at_y + 1, "\u{2571}");
            } else {
                draw_long_angled_bracket_right(
                    text_canvas,
                    expr_height,
                    at_x,
                    at_y,
                    "\u{2572}",
                    "\u{1fba5}",
                    "\u{2571}",
                );
            }
        },
        BracketType::Vertical => {
            if expr_height == 0 {
                text_canvas.set(at_x, at_y, "\u{ffe8}");
            } else {
                draw_simple_bracket(text_canvas, expr_height, at_x, at_y, "\u{ffe8}");
            }
        },
    }
}

} // verus!
