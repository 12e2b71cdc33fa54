//! The assistant frame at the left end of the bar: a grid of cells, one for
//! each assistant that is shown.

use crate::panel;
use crate::panel::{clamp_of, minus, Rect, INSET};
use crate::tuning::Tuning;
use vstd::prelude::*;

verus! {

pub const CLAWD_PAD_X: u32 = 8;

pub const CLAWD_PAD_Y: u32 = 4;

/// Space between a sprite and the edges of its row.
pub const CLAWD_ROW_GAP: u32 = 2;

/// Space between columns.
pub const CLAWD_COL_GAP: u32 = 12;

/// Space between a sprite and the text beside it.
pub const CLAWD_NAME_GAP: u32 = 8;

/// A frame narrower than this is not shown.
pub const CLAWD_MIN_W: u32 = 96;

/// Width and height of the picture that the sprites are made from.
pub const ASPECT_W: u32 = 514;

pub const ASPECT_H: u32 = 318;

/// What the frame's layout follows from: the height of the bar, the frame's
/// left edge and wanted width, and the knobs.
pub struct GridIn {
    pub h: int,
    pub x: int,
    pub want: int,
    pub t: Tuning,
}

impl GridIn {
    pub open spec fn panel_w(self) -> int {
        panel::or_int(self.t.clawd_w, self.want)
    }

    pub open spec fn panel_h(self) -> int {
        panel::less(self.h, INSET * 2)
    }

    pub open spec fn rows(self) -> int {
        panel::clamped(self.t.clawd_rows as int, 1, 8)
    }

    pub open spec fn cols(self) -> int {
        panel::clamped(self.t.clawd_cols as int, 1, 4)
    }

    pub open spec fn row_h(self) -> int {
        panel::less(self.panel_h(), CLAWD_PAD_Y * 2) / self.rows()
    }

    pub open spec fn sprite_h(self) -> int {
        self.row_h() - CLAWD_ROW_GAP
    }

    pub open spec fn sprite_w(self) -> int {
        self.sprite_h() * ASPECT_W / ASPECT_H as int
    }

    pub open spec fn col_w(self) -> int {
        panel::less(
            panel::less(self.panel_w(), CLAWD_PAD_X * 2),
            CLAWD_COL_GAP * (self.cols() - 1),
        ) / self.cols()
    }

    /// The frame is wide enough, and each cell has room for a sprite and text.
    pub open spec fn shown(self) -> bool {
        &&& self.panel_w() >= CLAWD_MIN_W
        &&& self.row_h() > CLAWD_ROW_GAP
        &&& self.col_w() > self.sprite_w() + CLAWD_NAME_GAP
    }

    pub open spec fn top(self) -> int {
        INSET + (self.panel_h() - self.row_h() * self.rows()) / 2
    }

    /// Cells fill the first column from top to bottom, then the next.
    pub open spec fn cell_x(self, i: int) -> int {
        self.x + CLAWD_PAD_X + (i / self.rows()) * (self.col_w() + CLAWD_COL_GAP)
    }

    pub open spec fn cell_y(self, i: int) -> int {
        self.top() + (i % self.rows()) * self.row_h()
    }
}

/// Where the frame and its cells lie, in the bar's own coordinates.
pub struct ClawdLayout {
    pub panel: Rect,
    /// Column by column, each from top to bottom.
    pub cells: Vec<Rect>,
    /// Cells in a column: the cell to the right of cell `i` is `i + grid_rows`.
    pub grid_rows: usize,
    pub sprite_w: u32,
    pub sprite_h: u32,
}

impl ClawdLayout {
    /// The layout that follows from `g`.
    pub open spec fn is_of(self, g: GridIn) -> bool {
        &&& panel::rect_is(self.panel, g.x, INSET as int, g.panel_w(), g.panel_h())
        &&& self.grid_rows == g.rows()
        &&& self.sprite_w == g.sprite_w()
        &&& self.sprite_h == g.sprite_h()
        &&& self.cells@.len() == g.rows() * g.cols()
        &&& forall|i: int|
            0 <= i < g.rows() * g.cols() ==> panel::rect_is(
                #[trigger] self.cells@[i],
                g.cell_x(i),
                g.cell_y(i),
                g.col_w(),
                g.row_h(),
            )
    }
}

proof fn lemma_grid(g: GridIn)
    requires
        g.h >= 0,
        g.shown(),
    ensures
        0 < g.row_h() * g.rows() <= g.panel_h() - 8,
        0 < g.sprite_w(),
        g.sprite_h() < g.sprite_w() + 1,
        g.col_w() * g.cols() + CLAWD_COL_GAP * (g.cols() - 1) <= g.panel_w() - 16,
{
    let c = panel::less(g.panel_h(), 8);
    assert(g.row_h() * g.rows() <= c) by (nonlinear_arith)
        requires
            g.row_h() == c / g.rows(),
            g.rows() > 0,
    ;
    assert(g.row_h() * g.rows() >= g.rows()) by (nonlinear_arith)
        requires
            g.row_h() > 1,
            g.rows() > 0,
    ;
    let d = panel::less(panel::less(g.panel_w(), 16), 12 * (g.cols() - 1));
    assert(g.col_w() * g.cols() <= d) by (nonlinear_arith)
        requires
            g.col_w() == d / g.cols(),
            g.cols() > 0,
    ;
    assert(g.col_w() * g.cols() >= g.cols()) by (nonlinear_arith)
        requires
            g.col_w() >= 1,
            g.cols() > 0,
    ;
}

proof fn lemma_index(g: GridIn, i: int)
    requires
        0 <= i < g.rows() * g.cols(),
    ensures
        0 <= i / g.rows() < g.cols(),
        0 <= i % g.rows() < g.rows(),
        i == (i / g.rows()) * g.rows() + i % g.rows(),
{
    let r = g.rows();
    let c = g.cols();
    assert(0 <= i / r < c && 0 <= i % r < r && i == (i / r) * r + i % r) by (nonlinear_arith)
        requires
            0 <= i < r * c,
            r > 0,
    ;
}

pub(crate) proof fn lemma_cell(g: GridIn, i: int)
    requires
        g.h >= 0,
        g.shown(),
        0 <= i < g.rows() * g.cols(),
    ensures
        g.x + CLAWD_PAD_X <= g.cell_x(i),
        g.cell_x(i) + g.col_w() + CLAWD_PAD_X <= g.x + g.panel_w(),
        INSET < g.cell_y(i),
        g.cell_y(i) + g.row_h() < INSET + g.panel_h(),
{
    lemma_grid(g);
    lemma_index(g, i);
    let k = i / g.rows();
    let m = i % g.rows();
    let w = g.col_w();
    let c = g.cols();
    assert(0 <= k * (w + 12) && k * (w + 12) + w <= w * c + 12 * (c - 1)) by (nonlinear_arith)
        requires
            0 <= k <= c - 1,
            0 <= w,
    ;
    let rh = g.row_h();
    let r = g.rows();
    assert(0 <= m * rh && m * rh + rh <= rh * r) by (nonlinear_arith)
        requires
            0 <= m <= r - 1,
            0 <= rh,
    ;
}

impl ClawdLayout {
    /// Lays the frame out at `x`, `want` pixels wide where no knob says
    /// otherwise. `None` if the place does not suffice.
    pub fn new(h: u32, x: u32, want: u32, t: &Tuning) -> (r: Option<ClawdLayout>)
        requires
            x + (GridIn { h: h as int, x: x as int, want: want as int, t: *t }).panel_w()
                <= u32::MAX,
        ensures
            match r {
                Some(l) => {
                    &&& (GridIn { h: h as int, x: x as int, want: want as int, t: *t }).shown()
                    &&& l.is_of((GridIn { h: h as int, x: x as int, want: want as int, t: *t }))
                },
                None => !(GridIn { h: h as int, x: x as int, want: want as int, t: *t }).shown(),
            },
    {
        let ghost g = GridIn { h: h as int, x: x as int, want: want as int, t: *t };
        let panel_w: u32 = match t.clawd_w {
            Some(v) => v,
            None => want,
        };
        if panel_w < CLAWD_MIN_W {
            return None;
        }
        let panel_h: u64 = minus(h as u64, INSET as u64 * 2);
        let rows: u64 = clamp_of(t.clawd_rows as u64, 1, 8);
        let cols: u64 = clamp_of(t.clawd_cols as u64, 1, 4);
        let row_h: u64 = minus(panel_h, CLAWD_PAD_Y as u64 * 2) / rows;
        if row_h <= CLAWD_ROW_GAP as u64 {
            return None;
        }
        assert(row_h <= panel_h) by (nonlinear_arith)
            requires
                row_h == panel::less(panel_h as int, 8) / rows as int,
                rows >= 1,
        ;
        let sprite_h: u64 = row_h - CLAWD_ROW_GAP as u64;
        let sprite_w: u64 = sprite_h * ASPECT_W as u64 / ASPECT_H as u64;
        let content_w: u64 = minus(panel_w as u64, CLAWD_PAD_X as u64 * 2);
        let col_w: u64 = minus(content_w, CLAWD_COL_GAP as u64 * (cols - 1)) / cols;
        if col_w <= sprite_w + CLAWD_NAME_GAP as u64 {
            return None;
        }
        assert(g.shown());
        proof {
            lemma_grid(g);
        }
        assert(0 <= rows * cols <= 32) by (nonlinear_arith)
            requires
                0 <= rows <= 8,
                0 <= cols <= 4,
        ;
        let n: u64 = rows * cols;
        let used: u64 = row_h * rows;
        let top: u64 = INSET as u64 + (panel_h - used) / 2;
        let left: u64 = x as u64 + CLAWD_PAD_X as u64;
        let mut cells: Vec<Rect> = Vec::new();
        let mut i: u64 = 0;
        while i < n
            invariant
                i <= n,
                n == rows * cols,
                g.h == h,
                g.x == x,
                g.shown(),
                rows == g.rows(),
                cols == g.cols(),
                row_h == g.row_h(),
                col_w == g.col_w(),
                top == g.top(),
                left == x + CLAWD_PAD_X,
                x + g.panel_w() <= u32::MAX,
                cells@.len() == i,
                forall|j: int|
                    0 <= j < i ==> panel::rect_is(
                        #[trigger] cells@[j],
                        g.cell_x(j),
                        g.cell_y(j),
                        g.col_w(),
                        g.row_h(),
                    ),
            decreases n - i,
        {
            proof {
                lemma_cell(g, i as int);
                lemma_grid(g);
                lemma_index(g, i as int);
            }
            let k: u64 = i / rows;
            let m: u64 = i % rows;
            let right: u64 = k * (col_w + CLAWD_COL_GAP as u64);
            let down: u64 = m * row_h;
            cells.push(
                Rect {
                    x: (left + right) as u32,
                    y: (top + down) as u32,
                    w: col_w as u32,
                    h: row_h as u32,
                },
            );
            i = i + 1;
        }
        Some(
            ClawdLayout {
                panel: Rect { x, y: INSET, w: panel_w, h: panel_h as u32 },
                cells,
                grid_rows: rows as usize,
                sprite_w: sprite_w as u32,
                sprite_h: sprite_h as u32,
            },
        )
    }
}

/// Every cell lies inside the frame and leaves its padding free.
pub proof fn cells_lie_in_the_frame(g: GridIn, i: int)
    requires
        g.h >= 0,
        g.shown(),
        0 <= i < g.rows() * g.cols(),
    ensures
        g.x + CLAWD_PAD_X <= g.cell_x(i),
        g.cell_x(i) + g.col_w() + CLAWD_PAD_X <= g.x + g.panel_w(),
        INSET <= g.cell_y(i),
        g.cell_y(i) + g.row_h() <= INSET + g.panel_h(),
{
    lemma_cell(g, i);
}

/// The cell below a cell begins where that one ends.
pub proof fn cells_stack_in_columns(g: GridIn, i: int)
    requires
        0 <= i,
        i + 1 < g.rows() * g.cols(),
        i % g.rows() + 1 < g.rows(),
    ensures
        g.cell_x(i + 1) == g.cell_x(i),
        g.cell_y(i + 1) == g.cell_y(i) + g.row_h(),
{
    let r = g.rows();
    let k = i / r;
    let m = i % r;
    lemma_index(g, i);
    assert((i + 1) / r == k && (i + 1) % r == m + 1) by {
        vstd::arithmetic::div_mod::lemma_fundamental_div_mod_converse(i + 1, r, k, m + 1);
    }
    assert((m + 1) * g.row_h() == m * g.row_h() + g.row_h()) by (nonlinear_arith);
}

/// The cell to the right of a cell lies at the same height, one gap further.
pub proof fn columns_lie_side_by_side(g: GridIn, i: int)
    requires
        0 <= i,
        i + g.rows() < g.rows() * g.cols(),
    ensures
        g.cell_x(i + g.rows()) == g.cell_x(i) + g.col_w() + CLAWD_COL_GAP,
        g.cell_y(i + g.rows()) == g.cell_y(i),
{
    let r = g.rows();
    let k = i / r;
    let m = i % r;
    lemma_index(g, i);
    assert((k + 1) * r == k * r + r) by (nonlinear_arith);
    assert((i + r) / r == k + 1 && (i + r) % r == m) by {
        vstd::arithmetic::div_mod::lemma_fundamental_div_mod_converse(i + r, r, k + 1, m);
    }
    assert((k + 1) * (g.col_w() + 12) == k * (g.col_w() + 12) + g.col_w() + 12)
        by (nonlinear_arith);
}

/// No point lies in two cells.
pub proof fn cells_are_apart(g: GridIn, i: int, j: int, x: int, y: int)
    requires
        g.h >= 0,
        g.shown(),
        0 <= i < g.rows() * g.cols(),
        0 <= j < g.rows() * g.cols(),
        g.cell_x(i) <= x < g.cell_x(i) + g.col_w(),
        g.cell_y(i) <= y < g.cell_y(i) + g.row_h(),
        g.cell_x(j) <= x < g.cell_x(j) + g.col_w(),
        g.cell_y(j) <= y < g.cell_y(j) + g.row_h(),
    ensures
        i == j,
{
    lemma_index(g, i);
    lemma_index(g, j);
    lemma_apart(i / g.rows(), j / g.rows(), g.col_w() + 12, x - g.x - 8);
    lemma_apart(i % g.rows(), j % g.rows(), g.row_h(), y - g.top());
}

proof fn lemma_apart(a: int, b: int, step: int, v: int)
    requires
        a * step <= v < a * step + step,
        b * step <= v < b * step + step,
    ensures
        a == b,
{
    assert(a == b) by (nonlinear_arith)
        requires
            a * step <= v < a * step + step,
            b * step <= v < b * step + step,
    ;
}

/// The rows are centred: the space above the first and the space below the
/// last differ by one pixel at most.
pub proof fn rows_are_centred(g: GridIn)
    requires
        g.h >= 0,
        g.shown(),
    ensures
        0 <= (INSET + g.panel_h() - (g.cell_y(g.rows() - 1) + g.row_h())) - (g.cell_y(0) - INSET)
            <= 1,
{
    lemma_grid(g);
    let r = g.rows();
    assert(0 * g.row_h() == 0) by (nonlinear_arith);
    assert((r - 1) / r == 0 && (r - 1) % r == r - 1) by {
        assert(0 * r == 0) by (nonlinear_arith);
        vstd::arithmetic::div_mod::lemma_fundamental_div_mod_converse(r - 1, r, 0, r - 1);
    }
    assert(0int % r == 0) by {
        vstd::arithmetic::div_mod::lemma_small_mod(0, r as nat);
    }
    assert((r - 1) * g.row_h() + g.row_h() == g.row_h() * r) by (nonlinear_arith);
}

/// The frame lies at its left edge, four pixels from the bar's upper and lower
/// edge, as wide as the knob says or as is asked for. It has as many cells as rows
/// and columns make, of which there are eight and four at most, and one at least.
pub proof fn the_frame_has_rows_and_columns(l: ClawdLayout, g: GridIn)
    requires
        g.h >= 8,
        g.shown(),
        l.is_of(g),
    ensures
        l.panel.x == g.x,
        l.panel.y == 4,
        l.panel.y + l.panel.h + 4 == g.h,
        g.t.clawd_w is None ==> l.panel.w == g.want,
        g.t.clawd_w is Some ==> l.panel.w == g.t.clawd_w->0,
        l.panel.w >= 96,
        1 <= g.t.clawd_rows <= 8 ==> l.grid_rows == g.t.clawd_rows,
        g.t.clawd_rows > 8 ==> l.grid_rows == 8,
        g.t.clawd_rows == 0 ==> l.grid_rows == 1,
        1 <= g.t.clawd_rows <= 8 && 1 <= g.t.clawd_cols <= 4 ==> l.cells@.len()
            == g.t.clawd_rows * g.t.clawd_cols,
        g.t.clawd_cols > 4 ==> l.cells@.len() == 4 * l.grid_rows,
        g.t.clawd_cols == 0 ==> l.cells@.len() == l.grid_rows,
{
    let r = g.rows();
    assert(r * 4 == 4 * r && r * 1 == r);
}

/// Cells fill a column from top to bottom before the next: one below the other
/// without a gap, and a column twelve pixels behind the one before. A sprite is
/// two pixels lower than its cell, keeps the picture's proportions to within a
/// pixel, and leaves more than eight pixels beside it.
pub proof fn cells_fill_columns_first(l: ClawdLayout, g: GridIn, i: int)
    requires
        g.h >= 0,
        g.shown(),
        l.is_of(g),
        0 <= i < l.cells@.len(),
    ensures
        i + 1 < l.cells@.len() && (i + 1) % (l.grid_rows as int) != 0 ==> l.cells@[i + 1].x
            == l.cells@[i].x && l.cells@[i + 1].y == l.cells@[i].y + l.cells@[i].h,
        i + l.grid_rows < l.cells@.len() ==> l.cells@[i + l.grid_rows].y == l.cells@[i].y
            && l.cells@[i + l.grid_rows].x == l.cells@[i].x + l.cells@[i].w + 12,
        l.cells@[0].x == l.panel.x + 8,
        l.cells@[i].x + l.cells@[i].w + 8 <= l.panel.x + l.panel.w,
        l.sprite_h + 2 == l.cells@[i].h,
        318 * l.sprite_w <= 514 * l.sprite_h < 318 * (l.sprite_w + 1),
        l.sprite_w + 8 < l.cells@[i].w,
{
    lemma_cell(g, i);
    lemma_index(g, i);
    let r = g.rows();
    assert(panel::rect_is(l.cells@[i], g.cell_x(i), g.cell_y(i), g.col_w(), g.row_h()));
    assert(panel::rect_is(l.cells@[0], g.cell_x(0), g.cell_y(0), g.col_w(), g.row_h()));
    assert(0int / r == 0 && 0 * (g.col_w() + CLAWD_COL_GAP) == 0) by (nonlinear_arith)
        requires
            r > 0,
    ;
    if i + 1 < l.cells@.len() && (i + 1) % r != 0 {
        let j = i + 1;
        assert(i % r + 1 < r) by (nonlinear_arith)
            requires
                (i + 1) % r != 0,
                r > 0,
                i >= 0,
        ;
        assert(panel::rect_is(l.cells@[j], g.cell_x(j), g.cell_y(j), g.col_w(), g.row_h()));
        cells_stack_in_columns(g, i);
    }
    if i + r < l.cells@.len() {
        let j = i + r;
        assert(panel::rect_is(l.cells@[j], g.cell_x(j), g.cell_y(j), g.col_w(), g.row_h()));
        columns_lie_side_by_side(g, i);
    }
}

/// The frame is shown exactly if it is ninety-six pixels wide or wider and its
/// cells have room for a sprite and for something to be written beside it. The
/// rows share the frame's height but for four pixels above and below.
pub proof fn a_frame_is_shown_if_there_is_room(g: GridIn)
    requires
        g.h >= 16,
    ensures
        g.shown() <==> g.panel_w() >= 96 && g.row_h() > 2 && g.col_w() > g.sprite_w() + 8,
        g.row_h() * g.rows() <= g.h - 16 < (g.row_h() + 1) * g.rows(),
        g.panel_w() >= 16 + 12 * (g.cols() - 1) ==> g.col_w() * g.cols() + 12 * (g.cols() - 1) + 16
            <= g.panel_w() < (g.col_w() + 1) * g.cols() + 12 * (g.cols() - 1) + 16,
{
    let c = g.h - 16;
    assert(c / g.rows() * g.rows() <= c < (c / g.rows() + 1) * g.rows()) by (nonlinear_arith)
        requires
            g.rows() > 0,
            c >= 0,
    ;
    let d = g.panel_w() - 16 - 12 * (g.cols() - 1);
    if d >= 0 {
        assert(d / g.cols() * g.cols() <= d < (d / g.cols() + 1) * g.cols()) by (nonlinear_arith)
            requires
                g.cols() > 0,
                d >= 0,
        ;
    }
}

} // verus!
