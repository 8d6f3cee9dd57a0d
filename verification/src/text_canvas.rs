//! A canvas of text cells.
//!
//! A `TextCanvas` is a two-dimensional grid of cells. Each cell holds one
//! displayed unit (a grapheme cluster), stored as a `String` because a
//! displayed unit may span several characters. The grid is stored row-major
//! in a flat vector; the specification views it as a sequence of rows, each
//! row a sequence of cells, each cell a sequence of characters.

use vstd::prelude::*;
use vstd::string::StringExecFns;

verus! {

/// One cell of a canvas: the characters of a single displayed unit.
pub type Cell = Seq<char>;

/// A canvas, viewed as rows of cells.
pub type Grid = Seq<Seq<Seq<char>>>;

/// The cell every canvas position starts out as: a single space.
pub open spec fn blank_cell() -> Cell {
    seq![' ']
}

/// A grid has `h` rows of `w` cells each.
pub open spec fn grid_wf(g: Grid, w: nat, h: nat) -> bool {
    &&& g.len() == h
    &&& forall|y: int| 0 <= y < h ==> (#[trigger] g[y]).len() == w
}

/// The all-space grid of the given dimensions.
pub open spec fn blank_grid(w: nat, h: nat) -> Grid {
    Seq::new(h, |y: int| Seq::new(w, |x: int| blank_cell()))
}

/// `g` with the cell at column `x`, row `y` replaced by `c`. A position
/// outside the grid leaves it unchanged; every position the library
/// paints at is shown in bounds.
pub open spec fn grid_put(g: Grid, x: int, y: int, c: Cell) -> Grid {
    if 0 <= y < g.len() && 0 <= x < g[y].len() {
        g.update(y, g[y].update(x, c))
    } else {
        g
    }
}

/// `g` with every cell of `s` copied in, `s`'s top-left corner placed at
/// column `ax`, row `ay` of `g`.
pub open spec fn grid_blit(g: Grid, s: Grid, ax: int, ay: int) -> Grid {
    Seq::new(
        g.len(),
        |y: int|
            Seq::new(
                g[y].len(),
                |x: int|
                    if ay <= y < ay + s.len() && ax <= x < ax + s[y - ay].len() {
                        s[y - ay][x - ax]
                    } else {
                        g[y][x]
                    },
            ),
    )
}

/// A partially performed blit: the first `cols` source columns are fully
/// copied, and of source column `cols` the first `rows` cells are copied.
pub open spec fn grid_blit_part(g: Grid, s: Grid, ax: int, ay: int, cols: int, rows: int) -> Grid {
    Seq::new(
        g.len(),
        |y: int|
            Seq::new(
                g[y].len(),
                |x: int|
                    if ay <= y < ay + s.len() && ax <= x && x < ax + s[y - ay].len() && (x < ax
                        + cols || (x == ax + cols && y < ay + rows)) {
                        s[y - ay][x - ax]
                    } else {
                        g[y][x]
                    },
            ),
    )
}

/// `g` with `n` cells set to `c` in a horizontal run starting at
/// (`x0`, `y`) and growing to the right.
pub open spec fn grid_hline(g: Grid, x0: int, y: int, n: int, c: Cell) -> Grid
    decreases n,
{
    if n <= 0 {
        g
    } else {
        grid_put(grid_hline(g, x0, y, n - 1, c), x0 + n - 1, y, c)
    }
}

/// `g` with `n` cells set to `c` in a vertical run starting at
/// (`x`, `y0`) and growing downward.
pub open spec fn grid_vline(g: Grid, x: int, y0: int, n: int, c: Cell) -> Grid
    decreases n,
{
    if n <= 0 {
        g
    } else {
        grid_put(grid_vline(g, x, y0, n - 1, c), x, y0 + n - 1, c)
    }
}

/// `g` with `n` cells set to `c` along the diagonal that starts at
/// (`x0`, `y0`) and steps right and down.
pub open spec fn grid_diag_down(g: Grid, x0: int, y0: int, n: int, c: Cell) -> Grid
    decreases n,
{
    if n <= 0 {
        g
    } else {
        grid_put(grid_diag_down(g, x0, y0, n - 1, c), x0 + n - 1, y0 + n - 1, c)
    }
}

/// `g` with `n` cells set to `c` along the diagonal that starts at
/// (`x0`, `y0`) and steps right and up.
pub open spec fn grid_diag_up(g: Grid, x0: int, y0: int, n: int, c: Cell) -> Grid
    decreases n,
{
    if n <= 0 {
        g
    } else {
        grid_put(grid_diag_up(g, x0, y0, n - 1, c), x0 + n - 1, y0 - (n - 1), c)
    }
}

/// `g` with `n` cells set to `c` along the diagonal that starts at
/// (`x0`, `y0`) and steps left and down.
pub open spec fn grid_diag_back(g: Grid, x0: int, y0: int, n: int, c: Cell) -> Grid
    decreases n,
{
    if n <= 0 {
        g
    } else {
        grid_put(grid_diag_back(g, x0, y0, n - 1, c), x0 - (n - 1), y0 + n - 1, c)
    }
}

/// The characters of the first `k` cells of a row, in order.
pub open spec fn row_text_upto(row: Seq<Cell>, k: int) -> Seq<char>
    decreases k,
{
    if k <= 0 {
        Seq::empty()
    } else {
        row_text_upto(row, k - 1) + row[k - 1]
    }
}

/// The characters of a whole row, in order, with no separator.
pub open spec fn row_text(row: Seq<Cell>) -> Seq<char> {
    row_text_upto(row, row.len() as int)
}

/// The text of the first `k` rows of `g`: each row's cells joined, with a
/// line break after every row but the last row of `g`.
pub open spec fn grid_text_upto(g: Grid, k: int) -> Seq<char>
    decreases k,
{
    if k <= 0 {
        Seq::empty()
    } else {
        grid_text_upto(g, k - 1) + row_text(g[k - 1]) + (if k - 1 < g.len() - 1 {
            seq!['\n']
        } else {
            Seq::empty()
        })
    }
}

/// The serialized text of a grid: rows joined top to bottom with single
/// line breaks; a zero-height grid serializes to the empty sequence.
pub open spec fn grid_text(g: Grid) -> Seq<char> {
    grid_text_upto(g, g.len() as int)
}

/// A row-major index stays within the flat extent of the grid.
pub proof fn lemma_row_major_in_range(w: int, h: int, x: int, y: int)
    requires
        0 <= x < w,
        0 <= y < h,
    ensures
        0 <= y * w + x < w * h,
{
    assert(0 <= y * w + x < w * h) by (nonlinear_arith)
        requires
            0 <= x < w,
            0 <= y < h,
    ;
}

/// Distinct coordinates give distinct row-major indices.
pub proof fn lemma_row_major_injective(w: int, x1: int, y1: int, x2: int, y2: int)
    requires
        0 <= x1 < w,
        0 <= x2 < w,
        y1 * w + x1 == y2 * w + x2,
    ensures
        x1 == x2,
        y1 == y2,
{
    assert(x1 == x2 && y1 == y2) by (nonlinear_arith)
        requires
            0 <= x1 < w,
            0 <= x2 < w,
            y1 * w + x1 == y2 * w + x2,
    ;
}

/// Before any cell is copied, a partial blit leaves the grid unchanged.
proof fn lemma_blit_part_zero(g: Grid, s: Grid, ax: int, ay: int)
    ensures
        grid_blit_part(g, s, ax, ay, 0, 0) =~~= g,
{
}

/// Copying one more cell of source column `x` extends the partial blit.
proof fn lemma_blit_part_step(
    g: Grid,
    s: Grid,
    ax: int,
    ay: int,
    x: int,
    y: int,
    w: nat,
    h: nat,
    sw: nat,
    sh: nat,
)
    requires
        grid_wf(g, w, h),
        grid_wf(s, sw, sh),
        0 <= ax,
        0 <= ay,
        ax + sw <= w,
        ay + sh <= h,
        0 <= x < sw,
        0 <= y < sh,
    ensures
        grid_put(grid_blit_part(g, s, ax, ay, x, y), ax + x, ay + y, s[y][x]) =~~= grid_blit_part(
            g,
            s,
            ax,
            ay,
            x,
            y + 1,
        ),
{
}

/// A fully copied source column advances the partial blit to the next one.
proof fn lemma_blit_part_col(g: Grid, s: Grid, ax: int, ay: int, x: int, sw: nat, sh: nat)
    requires
        grid_wf(s, sw, sh),
        0 <= x < sw,
    ensures
        grid_blit_part(g, s, ax, ay, x, sh as int) =~~= grid_blit_part(g, s, ax, ay, x + 1, 0),
{
}

/// Once every source column is copied, the partial blit is the blit.
proof fn lemma_blit_part_full(g: Grid, s: Grid, ax: int, ay: int, sw: nat, sh: nat)
    requires
        grid_wf(s, sw, sh),
    ensures
        grid_blit_part(g, s, ax, ay, sw as int, 0) =~~= grid_blit(g, s, ax, ay),
{
}

/// The canvas every expression paints itself onto.
pub struct TextCanvas {
    pub data: Vec<String>,
    pub width: usize,
    pub height: usize,
}

impl TextCanvas {
    /// The flat store holds exactly one cell per grid position.
    pub open spec fn wf(&self) -> bool {
        &&& self.data@.len() == self.width * self.height
        &&& self.width * self.height <= usize::MAX
    }

    /// The grid this canvas represents.
    pub open spec fn grid(&self) -> Grid {
        Seq::new(
            self.height as nat,
            |y: int|
                Seq::new(
                    self.width as nat,
                    |x: int| self.data@[y * (self.width as int) + x]@,
                ),
        )
    }

    pub proof fn lemma_grid_wf(&self)
        ensures
            grid_wf(self.grid(), self.width as nat, self.height as nat),
    {
    }

    /// A fresh canvas of the given dimensions, every cell a single space.
    pub fn new(width: usize, height: usize) -> (r: TextCanvas)
        requires
            width * height <= usize::MAX,
        ensures
            r.wf(),
            r.width == width,
            r.height == height,
            r.grid() == blank_grid(width as nat, height as nat),
    {
        let total: usize = width * height;
        let mut data: Vec<String> = Vec::with_capacity(total);
        for i in 0..total
            invariant
                data@.len() == i,
                forall|j: int| 0 <= j < i ==> (#[trigger] data@[j])@ == blank_cell(),
        {
            proof {
                reveal_strlit(" ");
                assert(" "@ =~= blank_cell());
            }
            data.push(" ".to_owned());
        }
        let r = TextCanvas { data, width, height };
        proof {
            assert forall|y: int, x: int|
                0 <= y < height && 0 <= x < width implies (#[trigger] r.grid()[y][x])
                == blank_cell() by {
                lemma_row_major_in_range(width as int, height as int, x, y);
            }
            assert(r.grid() =~~= blank_grid(width as nat, height as nat));
        }
        r
    }

    /// The cell at column `x`, row `y`.
    pub fn get(&self, x: usize, y: usize) -> (r: &str)
        requires
            self.wf(),
            x < self.width,
            y < self.height,
        ensures
            r@ == self.grid()[y as int][x as int],
    {
        proof {
            lemma_row_major_in_range(self.width as int, self.height as int, x as int, y as int);
        }
        let idx: usize = y * self.width + x;
        self.data[idx].as_str()
    }

    /// Replace the cell at column `x`, row `y` by `value`.
    pub fn set(&mut self, x: usize, y: usize, value: &str)
        requires
            old(self).wf(),
            x < old(self).width,
            y < old(self).height,
        ensures
            final(self).wf(),
            final(self).width == old(self).width,
            final(self).height == old(self).height,
            final(self).grid() == grid_put(old(self).grid(), x as int, y as int, value@),
    {
        proof {
            lemma_row_major_in_range(self.width as int, self.height as int, x as int, y as int);
        }
        let ghost g0 = self.grid();
        let idx: usize = y * self.width + x;
        self.data[idx] = value.to_owned();
        proof {
            assert forall|yy: int, xx: int|
                0 <= yy < self.height && 0 <= xx < self.width implies #[trigger] self.grid()[yy][xx]
                == grid_put(g0, x as int, y as int, value@)[yy][xx] by {
                lemma_row_major_in_range(self.width as int, self.height as int, xx, yy);
                if yy * (self.width as int) + xx == idx {
                    lemma_row_major_injective(self.width as int, xx, yy, x as int, y as int);
                }
            }
            assert(self.grid() =~~= grid_put(g0, x as int, y as int, value@));
        }
    }

    /// Copy every cell of `other` into this canvas, `other`'s top-left
    /// corner placed at column `at_x`, row `at_y`.
    pub fn draw(&mut self, other: &TextCanvas, at_x: usize, at_y: usize)
        requires
            old(self).wf(),
            other.wf(),
            at_x + other.width <= old(self).width,
            at_y + other.height <= old(self).height,
        ensures
            final(self).wf(),
            final(self).width == old(self).width,
            final(self).height == old(self).height,
            final(self).grid() == grid_blit(
                old(self).grid(),
                other.grid(),
                at_x as int,
                at_y as int,
            ),
    {
        let ghost g0 = self.grid();
        let ghost s = other.grid();
        proof {
            self.lemma_grid_wf();
            other.lemma_grid_wf();
            lemma_blit_part_zero(g0, s, at_x as int, at_y as int);
        }
        for x in 0..other.width
            invariant
                self.wf(),
                self.width == old(self).width,
                self.height == old(self).height,
                other.wf(),
                at_x + other.width <= self.width,
                at_y + other.height <= self.height,
                s == other.grid(),
                g0 == old(self).grid(),
                self.grid() == grid_blit_part(g0, s, at_x as int, at_y as int, x as int, 0),
        {
            for y in 0..other.height
                invariant
                    self.wf(),
                    self.width == old(self).width,
                    self.height == old(self).height,
                    other.wf(),
                    at_x + other.width <= self.width,
                    at_y + other.height <= self.height,
                    x < other.width,
                    s == other.grid(),
                    g0 == old(self).grid(),
                    self.grid() == grid_blit_part(
                        g0,
                        s,
                        at_x as int,
                        at_y as int,
                        x as int,
                        y as int,
                    ),
            {
                self.set(at_x + x, at_y + y, other.get(x, y));
                proof {
                    lemma_blit_part_step(
                        g0,
                        s,
                        at_x as int,
                        at_y as int,
                        x as int,
                        y as int,
                        self.width as nat,
                        self.height as nat,
                        other.width as nat,
                        other.height as nat,
                    );
                }
            }
            proof {
                lemma_blit_part_col(
                    g0,
                    s,
                    at_x as int,
                    at_y as int,
                    x as int,
                    other.width as nat,
                    other.height as nat,
                );
            }
        }
        proof {
            lemma_blit_part_full(
                g0,
                s,
                at_x as int,
                at_y as int,
                other.width as nat,
                other.height as nat,
            );
        }
    }

    /// The canvas text: rows joined left to right, rows separated by
    /// single line breaks, no trailing line break.
    pub fn to_string(&self) -> (r: String)
        requires
            self.wf(),
        ensures
            r@ == grid_text(self.grid()),
    {
        let ghost g = self.grid();
        let mut result = String::new();
        for y in 0..self.height
            invariant
                self.wf(),
                g == self.grid(),
                result@ == grid_text_upto(g, y as int),
        {
            for x in 0..self.width
                invariant
                    self.wf(),
                    g == self.grid(),
                    y < self.height,
                    result@ == grid_text_upto(g, y as int) + row_text_upto(g[y as int], x as int),
            {
                result.append(self.get(x, y));
            }
            assert(row_text_upto(g[y as int], self.width as int) == row_text(g[y as int]));
            if y < self.height - 1 {
                proof {
                    reveal_strlit("\n");
                    assert("\n"@ =~= seq!['\n']);
                }
                result.append("\n");
            }
        }
        result
    }
}

} // verus!
