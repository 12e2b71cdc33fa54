//! The bar: a band across the bottom of the screen, with the assistant frame at
//! its left end, the icons in the middle and the now-playing panel at its right
//! end; and what a touch on it hits.

use crate::actions::ICON_COUNT;
use crate::grid;
use crate::grid::{ClawdLayout, GridIn, CLAWD_NAME_GAP, CLAWD_PAD_X};
use crate::panel;
use crate::panel::{max_of, min_of, minus, NpIn, NpLayout, Rect, GAP};
use crate::player::Ctrl;
use crate::sprite::Sprite;
use crate::tuning::Tuning;
use vstd::prelude::*;

verus! {

/// Thickness of the line below an icon.
pub const MARK_H: u32 = 4;

/// Space between an icon and the line below it.
pub const MARK_GAP: u32 = 4;

/// How far outside an icon a touch still counts for it.
pub const ICON_HIT_PAD: u32 = 8;

/// Size of the picture on an icon, in percent of the icon's diameter.
pub const ICON_GLYPH_PCT: u32 = 58;

/// Diameter of an icon where no knob gives it, in percent of the bar's height.
pub const ICON_D_PCT: u32 = 73;

/// An icon is no smaller than this.
pub const ICON_D_MIN: u32 = 16;

/// What the icons leave to each of the frames at their sides.
pub const NP_MIN_W: u32 = 200;

/// Size of the picture on the play button, in percent of its diameter.
pub const PLAY_GLYPH_PCT: u32 = 58;

/// Size of the picture that stands for missing art, in percent of the art.
pub const ART_GLYPH_PCT: u32 = 55;

/// The diameter of an icon: `want`, unless the bar is too low for the icon and
/// its line or too narrow for all icons and the frames at their sides, and
/// never less than the minimum.
pub open spec fn icon_d_of(w: int, h: int, want: int, gap: int, margin: int) -> int {
    panel::most(
        panel::least(
            panel::least(want, panel::less(h, MARK_GAP + MARK_H)),
            panel::less(
                w,
                margin * 2 + GAP * 2 + NP_MIN_W * 2 + (ICON_COUNT - 1) * gap,
            ) / ICON_COUNT as int,
        ),
        ICON_D_MIN as int,
    )
}

pub fn icon_d(w: u32, h: u32, want: u32, gap: u32, margin: u32) -> (r: u32)
    ensures
        r == icon_d_of(w as int, h as int, want as int, gap as int, margin as int),
{
    let by_h: u64 = minus(h as u64, MARK_GAP as u64 + MARK_H as u64);
    let used: u64 = margin as u64 * 2 + GAP as u64 * 2 + NP_MIN_W as u64 * 2 + 5
        * gap as u64;
    let room: u64 = minus(w as u64, used);
    max_of(min_of(min_of(want as u64, by_h), room / 6), ICON_D_MIN as u64) as u32
}

/// What the bar's layout follows from: its size and the knobs.
pub struct BarIn {
    pub w: int,
    pub h: int,
    pub t: Tuning,
}

impl BarIn {
    pub open spec fn tile_d(self) -> int {
        icon_d_of(
            self.w,
            self.h,
            panel::or_int(self.t.icon_d, self.h * ICON_D_PCT / 100),
            self.t.gap as int,
            self.t.margin as int,
        )
    }

    /// The width of all icons and the gaps between them.
    pub open spec fn total(self) -> int {
        ICON_COUNT * self.tile_d() + (ICON_COUNT - 1) * self.t.gap
    }

    /// An icon and its line lie in the middle of the bar's height.
    pub open spec fn tile_y(self) -> int {
        panel::less(self.h, self.tile_d() + MARK_GAP + MARK_H) / 2
    }

    pub open spec fn mark_y(self) -> int {
        self.tile_y() + self.tile_d() + MARK_GAP
    }

    /// The frames at both sides share what the icons leave.
    pub open spec fn avail(self) -> int {
        panel::less(self.w, self.t.margin * 2 + GAP * 2 + self.total()) / 2
    }

    pub open spec fn np(self) -> NpIn {
        NpIn {
            w: self.w,
            h: self.h,
            margin: self.t.margin as int,
            avail: self.avail(),
            t: self.t,
        }
    }

    /// The assistant frame is as wide as the panel.
    pub open spec fn grid(self) -> GridIn {
        GridIn {
            h: self.h,
            x: self.t.margin as int,
            want: self.np().panel_w(),
            t: self.t,
        }
    }

    /// Where the icons may start.
    pub open spec fn icons_left(self) -> int {
        if self.grid().shown() {
            self.t.margin + self.grid().panel_w() + GAP
        } else {
            self.t.margin as int
        }
    }

    /// Where the icons have to end.
    pub open spec fn icons_right(self) -> int {
        panel::less(self.np().panel_x(), GAP as int)
    }

    /// The icons lie in the middle between the frames.
    pub open spec fn icon_x(self, i: int) -> int {
        self.icons_left() + panel::less(
            panel::less(self.icons_right(), self.icons_left()),
            self.total(),
        ) / 2 + i * (self.tile_d() + self.t.gap)
    }

    /// The panel can be laid out, and everything ends where a `u32` can say it.
    pub open spec fn fits(self) -> bool {
        &&& self.np().fits()
        &&& self.t.margin + self.grid().panel_w() <= u32::MAX
        &&& self.icon_x(0) + self.total() <= u32::MAX
    }
}

/// What a touch hits.
#[derive(Debug, Clone, Copy, PartialEq, Eq, Structural)]
pub enum Hit {
    Icon(usize),
    Ctrl(Ctrl),
    /// The panel outside its buttons.
    Panel,
    /// A cell of the assistant frame.
    Clawd(usize),
}

pub struct Bar {
    pub w: u32,
    pub h: u32,
    /// Diameter of an icon.
    pub tile_d: u32,
    /// Left edge of each icon.
    pub xs: Vec<u32>,
    /// Top of the icons.
    pub tile_y: u32,
    /// Top of the lines below them.
    pub mark_y: u32,
    pub np: NpLayout,
    pub clawd: Option<ClawdLayout>,
    /// The picture of an assistant; without one the frame stays empty.
    pub sprite: Option<Sprite>,
}

impl Bar {
    /// Everything lies where a `u32` can say it, and the parts of an icon, of a
    /// cell and of the art lie inside it.
    pub open spec fn wf(self) -> bool {
        &&& self.xs@.len() == ICON_COUNT
        &&& forall|i: int|
            0 <= i < ICON_COUNT ==> (#[trigger] self.xs@[i]) + self.tile_d <= u32::MAX
        &&& ICON_D_MIN <= self.tile_d <= u32::MAX / 6
        &&& self.tile_y + self.tile_d <= u32::MAX
        &&& self.np.panel.x + self.np.panel.w <= u32::MAX
        &&& self.np.panel.y + self.np.panel.h <= u32::MAX
        &&& self.np.art.x + self.np.art.w <= u32::MAX
        &&& self.np.art.y + self.np.art.h <= u32::MAX
        &&& self.np.art.w == self.np.art.h
        &&& forall|i: int|
            0 <= i < 5 ==> (#[trigger] self.np.btn_xs@[i]) + self.np.btn_d@[i] <= u32::MAX
        &&& forall|i: int|
            0 <= i < 5 ==> (#[trigger] self.np.btn_y@[i]) + self.np.btn_d@[i] <= u32::MAX
        &&& match self.clawd {
            Some(l) => {
                &&& CLAWD_PAD_X <= l.panel.x + l.panel.w <= u32::MAX
                &&& forall|i: int|
                    0 <= i < l.cells@.len() ==> {
                        let r = #[trigger] l.cells@[i];
                        &&& l.sprite_h <= r.h
                        &&& r.y + r.h + 4 <= u32::MAX
                        &&& l.sprite_w + CLAWD_NAME_GAP <= r.w
                        &&& r.x + r.w <= u32::MAX
                    }
            },
            None => true,
        }
        &&& match self.sprite {
            Some(s) => s.wf(),
            None => true,
        }
    }

    /// The layout that follows from `b`.
    pub open spec fn is_of(self, b: BarIn) -> bool {
        &&& self.w == b.w
        &&& self.h == b.h
        &&& self.tile_d == b.tile_d()
        &&& self.tile_y == b.tile_y()
        &&& self.mark_y == b.mark_y()
        &&& self.xs@.len() == ICON_COUNT
        &&& forall|i: int| 0 <= i < ICON_COUNT ==> #[trigger] self.xs@[i] == b.icon_x(i)
        &&& self.np.is_of(b.np())
        &&& match self.clawd {
            Some(l) => b.grid().shown() && l.is_of(b.grid()),
            None => !b.grid().shown(),
        }
    }
}

/// The width that each frame may take, in exec code.
fn side_width(w: u32, margin: u32, total: u64) -> (r: u32)
    requires
        total <= u64::MAX / 2,
    ensures
        r == panel::less(w as int, margin * 2 + GAP * 2 + total) / 2,
{
    (minus(w as u64, margin as u64 * 2 + GAP as u64 * 2 + total) / 2) as u32
}

proof fn lemma_icon_d(w: int, h: int, want: int, gap: int, margin: int)
    requires
        0 <= w <= u32::MAX,
        0 <= gap,
        0 <= margin,
        0 <= h,
    ensures
        ICON_D_MIN <= icon_d_of(w, h, want, gap, margin) <= panel::most(w / 6, 16),
{
}

proof fn lemma_icons(b: BarIn)
    requires
        0 <= b.w <= u32::MAX,
        0 <= b.h <= u32::MAX,
    ensures
        ICON_D_MIN <= b.tile_d() <= panel::most(b.w / 6, 16),
        b.total() == 6 * b.tile_d() + 5 * b.t.gap,
        0 <= b.tile_y(),
        b.mark_y() + MARK_H <= panel::most(b.h, 24),
        0 <= b.avail() <= b.w,
{
    lemma_icon_d(
        b.w,
        b.h,
        panel::or_int(b.t.icon_d, b.h * ICON_D_PCT / 100),
        b.t.gap as int,
        b.t.margin as int,
    );
    assert(ICON_COUNT * b.tile_d() == 6 * b.tile_d());
}

proof fn lemma_wf(r: Bar, b: BarIn)
    requires
        0 <= b.w <= u32::MAX,
        0 <= b.h <= u32::MAX,
        b.fits(),
        r.is_of(b),
        match r.sprite {
            Some(s) => s.wf(),
            None => true,
        },
    ensures
        r.wf(),
{
    lemma_icons(b);
    assert forall|i: int| 0 <= i < ICON_COUNT implies (#[trigger] r.xs@[i]) + r.tile_d
        <= u32::MAX by {
        assert(i * (b.tile_d() + b.t.gap) + b.tile_d() <= b.total()) by (nonlinear_arith)
            requires
                0 <= i <= 5,
                b.total() == 6 * b.tile_d() + 5 * b.t.gap,
                b.tile_d() >= 16,
                b.t.gap >= 0,
        ;
    }
    panel::lemma_ends(b.np());
    match r.clawd {
        Some(l) => {
            assert forall|i: int| 0 <= i < l.cells@.len() implies {
                let c = #[trigger] l.cells@[i];
                &&& l.sprite_h <= c.h
                &&& c.y + c.h + 4 <= u32::MAX
                &&& l.sprite_w + CLAWD_NAME_GAP <= c.w
                &&& c.x + c.w <= u32::MAX
            } by {
                grid::lemma_cell(b.grid(), i);
            }
        },
        None => {},
    }
}

impl Bar {
    /// The diameter of an icon in a bar of `w` by `h` pixels.
    fn diameter(w: u32, h: u32, t: &Tuning) -> (r: u32)
        ensures
            r == (BarIn { w: w as int, h: h as int, t: *t }).tile_d(),
    {
        let want: u32 = match t.icon_d {
            Some(d) => d,
            None => (h as u64 * ICON_D_PCT as u64 / 100) as u32,
        };
        icon_d(w, h, want, t.gap, t.margin)
    }

    /// Whether the bar can be laid out: what `new` asks for.
    pub fn fits(w: u32, h: u32, t: &Tuning) -> (r: bool)
        ensures
            r == (BarIn { w: w as int, h: h as int, t: *t }).fits(),
    {
        let ghost b = BarIn { w: w as int, h: h as int, t: *t };
        proof {
            lemma_icons(b);
        }
        let tile_d: u32 = Self::diameter(w, h, t);
        let total: u64 = 6 * tile_d as u64 + 5 * t.gap as u64;
        let avail: u32 = side_width(w, t.margin, total);
        if !NpLayout::fits(w, h, t.margin, avail, t) {
            return false;
        }
        let np = NpLayout::new(w, h, t.margin, avail, t);
        let frame: u64 = match t.clawd_w {
            Some(v) => v as u64,
            None => np.panel.w as u64,
        };
        if t.margin as u64 + frame > u32::MAX as u64 {
            return false;
        }
        let clawd = ClawdLayout::new(h, t.margin, np.panel.w, t);
        let x0: u64 = Self::first_icon(&np, &clawd, t.margin, total);
        assert(x0 == b.icon_x(0));
        x0 + total <= u32::MAX as u64
    }

    /// The left edge of the first icon.
    fn first_icon(np: &NpLayout, clawd: &Option<ClawdLayout>, margin: u32, total: u64) -> (r: u64)
        ensures
            ({
                let left = match *clawd {
                    Some(l) => l.panel.x + l.panel.w + GAP,
                    None => margin as int,
                };
                r == left + panel::less(
                    panel::less(panel::less(np.panel.x as int, GAP as int), left),
                    total as int,
                ) / 2
            }),
            r <= 0x3_0000_0000,
    {
        let left: u64 = match clawd {
            Some(l) => l.panel.x as u64 + l.panel.w as u64 + GAP as u64,
            None => margin as u64,
        };
        let right: u64 = minus(np.panel.x as u64, GAP as u64);
        left + minus(minus(right, left), total) / 2
    }

    /// Lays out a bar of `w` by `h` pixels.
    pub fn new(w: u32, h: u32, t: &Tuning, sprite: Option<Sprite>) -> (r: Bar)
        requires
            (BarIn { w: w as int, h: h as int, t: *t }).fits(),
            match sprite {
                Some(s) => s.wf(),
                None => true,
            },
        ensures
            r.is_of((BarIn { w: w as int, h: h as int, t: *t })),
            r.sprite == sprite,
            r.wf(),
    {
        let ghost b = BarIn { w: w as int, h: h as int, t: *t };
        proof {
            lemma_icons(b);
        }
        let tile_d: u32 = Self::diameter(w, h, t);
        let total: u64 = 6 * tile_d as u64 + 5 * t.gap as u64;
        let block_h: u64 = tile_d as u64 + MARK_GAP as u64 + MARK_H as u64;
        let tile_y: u32 = (minus(h as u64, block_h) / 2) as u32;
        let mark_y: u32 = tile_y + tile_d + MARK_GAP;
        let avail: u32 = side_width(w, t.margin, total);
        let np = NpLayout::new(w, h, t.margin, avail, t);
        let clawd = ClawdLayout::new(h, t.margin, np.panel.w, t);
        let x0: u64 = Self::first_icon(&np, &clawd, t.margin, total);
        assert(x0 == b.icon_x(0));
        let mut xs: Vec<u32> = Vec::new();
        let step: u64 = tile_d as u64 + t.gap as u64;
        let mut i: u64 = 0;
        while i < 6
            invariant
                i <= 6,
                xs@.len() == i,
                x0 == b.icon_x(0),
                x0 + total <= u32::MAX,
                total == 6 * b.tile_d() + 5 * b.t.gap,
                step == b.tile_d() + b.t.gap,
                b.tile_d() >= 16,
                forall|j: int| 0 <= j < i ==> #[trigger] xs@[j] == b.icon_x(j),
            decreases 6 - i,
        {
            assert(0 <= i * step <= total) by (nonlinear_arith)
                requires
                    0 <= i <= 5,
                    step == b.tile_d() + b.t.gap,
                    total == 6 * b.tile_d() + 5 * b.t.gap,
                    b.tile_d() >= 16,
                    b.t.gap >= 0,
            ;
            xs.push((x0 + i * step) as u32);
            i = i + 1;
        }
        let r = Bar { w, h, tile_d, xs, tile_y, mark_y, np, clawd, sprite };
        proof {
            lemma_wf(r, b);
        }
        r
    }
}

/// The first number from `i` on and below `n` that `p` holds of.
pub open spec fn first_from(i: int, n: int, p: spec_fn(int) -> bool) -> Option<int>
    decreases n - i,
{
    if i >= n {
        None
    } else if p(i) {
        Some(i)
    } else {
        first_from(i + 1, n, p)
    }
}

proof fn lemma_first_is(i: int, n: int, p: spec_fn(int) -> bool, k: int)
    requires
        i <= k < n,
        p(k),
        forall|j: int| i <= j < k ==> !#[trigger] p(j),
    ensures
        first_from(i, n, p) == Some(k),
    decreases k - i,
{
    if i < k {
        assert(!p(i));
        lemma_first_is(i + 1, n, p, k);
    }
}

proof fn lemma_first_none(i: int, n: int, p: spec_fn(int) -> bool)
    requires
        forall|j: int| i <= j < n ==> !#[trigger] p(j),
    ensures
        first_from(i, n, p) == None::<int>,
    decreases n - i,
{
    if i < n {
        assert(!p(i));
        lemma_first_none(i + 1, n, p);
    }
}

proof fn lemma_first_holds(i: int, n: int, p: spec_fn(int) -> bool)
    ensures
        match first_from(i, n, p) {
            Some(k) => i <= k < n && p(k),
            None => true,
        },
    decreases n - i,
{
    if i < n && !p(i) {
        lemma_first_holds(i + 1, n, p);
    }
}

/// Whether the point lies in the rectangle `r`: left, top, width and height.
pub open spec fn in_area(r: (int, int, int, int), x: int, y: int) -> bool {
    r.0 <= x < r.0 + r.2 && r.1 <= y < r.1 + r.3
}

fn within(left: i64, top: i64, w: i64, h: i64, x: i64, y: i64) -> (r: bool)
    requires
        0 <= left <= 0x1_0000_0000,
        0 <= top <= 0x1_0000_0000,
        -0x1_0000_0000 <= w <= 0x2_0000_0000,
        -0x1_0000_0000 <= h <= 0x2_0000_0000,
    ensures
        r == in_area((left as int, top as int, w as int, h as int), x as int, y as int),
{
    x >= left && x < left + w && y >= top && y < top + h
}

impl Bar {
    /// Cell `i` of the assistant frame is there and holds the point.
    pub open spec fn in_cell(self, i: int, x: int, y: int) -> bool {
        match self.clawd {
            Some(l) => 0 <= i < l.cells@.len() && l.cells@[i].has(x, y),
            None => false,
        }
    }

    /// How many of `n` assistants have a cell.
    pub open spec fn cells(self, n: int) -> int {
        match self.clawd {
            Some(l) => panel::least(n, l.cells@.len() as int),
            None => 0,
        }
    }

    /// The point lies in the touch area of button `i`.
    pub open spec fn in_slot(self, i: int, x: int, y: int) -> bool {
        in_area(self.np.slot(i), x, y)
    }

    /// The point lies in the touch area of icon `i`: the icon and its line, and
    /// a little around them.
    pub open spec fn in_icon(self, i: int, x: int, y: int) -> bool {
        in_area(
            (
                panel::less(self.xs@[i] as int, ICON_HIT_PAD as int),
                panel::less(self.tile_y as int, ICON_HIT_PAD as int),
                self.tile_d + ICON_HIT_PAD * 2,
                self.mark_y + MARK_H - self.tile_y + ICON_HIT_PAD * 2,
            ),
            x,
            y,
        )
    }

    /// What a touch hits: a cell that an assistant is drawn in, or else a button
    /// if buttons are drawn, or else the panel, or else an icon.
    pub open spec fn hit_of(self, x: int, y: int, ctrls_shown: bool, drawn: int) -> Option<Hit> {
        let cell = first_from(0, self.cells(drawn), |i: int| self.in_cell(i, x, y));
        let ctrl = first_from(0, 5, |i: int| self.in_slot(i, x, y));
        let icon = first_from(0, self.xs@.len() as int, |i: int| self.in_icon(i, x, y));
        if cell is Some {
            Some(Hit::Clawd(cell->0 as usize))
        } else if ctrls_shown && ctrl is Some {
            Some(Hit::Ctrl(Ctrl::at_place(ctrl->0)))
        } else if self.np.panel.has(x, y) {
            Some(Hit::Panel)
        } else if icon is Some {
            Some(Hit::Icon(icon->0 as usize))
        } else {
            None
        }
    }

    /// What a touch on the pixel (`lx`, `ly`) hits. `ctrls_shown` says whether
    /// the buttons are drawn, `drawn` how many assistants are.
    pub fn hit(&self, lx: i64, ly: i64, ctrls_shown: bool, drawn: usize) -> (r: Option<Hit>)
        ensures
            r == self.hit_of(lx as int, ly as int, ctrls_shown, drawn as int),
    {
        match self.cell_at(lx, ly, drawn) {
            Some(i) => {
                return Some(Hit::Clawd(i));
            },
            None => {},
        }
        if ctrls_shown {
            match self.ctrl_at(lx, ly) {
                Some(i) => {
                    return Some(Hit::Ctrl(Ctrl::at(i)));
                },
                None => {},
            }
        }
        if self.np.panel.contains(lx, ly) {
            return Some(Hit::Panel);
        }
        match self.icon_at(lx, ly) {
            Some(i) => Some(Hit::Icon(i)),
            None => None,
        }
    }

    fn cell_at(&self, lx: i64, ly: i64, drawn: usize) -> (r: Option<usize>)
        ensures
            ({
                let want = first_from(
                    0,
                    self.cells(drawn as int),
                    |i: int| self.in_cell(i, lx as int, ly as int),
                );
                match r {
                    Some(i) => want == Some(i as int),
                    None => want is None,
                }
            }),
    {
        let ghost p = |i: int| self.in_cell(i, lx as int, ly as int);
        match &self.clawd {
            Some(l) => {
                let n: usize = if drawn < l.cells.len() {
                    drawn
                } else {
                    l.cells.len()
                };
                let mut i: usize = 0;
                while i < n
                    invariant
                        i <= n <= l.cells@.len(),
                        n == self.cells(drawn as int),
                        p == (|i: int| self.in_cell(i, lx as int, ly as int)),
                        self.clawd == Some(*l),
                        forall|j: int| 0 <= j < i ==> !#[trigger] p(j),
                    decreases n - i,
                {
                    if l.cells[i].contains(lx, ly) {
                        proof {
                            lemma_first_is(0, n as int, p, i as int);
                        }
                        return Some(i);
                    }
                    i = i + 1;
                }
                proof {
                    lemma_first_none(0, n as int, p);
                }
            },
            None => {},
        }
        None
    }

    fn ctrl_at(&self, lx: i64, ly: i64) -> (r: Option<usize>)
        ensures
            ({
                let want = first_from(0, 5, |i: int| self.in_slot(i, lx as int, ly as int));
                match r {
                    Some(i) => i < 5 && want == Some(i as int),
                    None => want is None,
                }
            }),
    {
        let ghost p = |i: int| self.in_slot(i, lx as int, ly as int);
        let half: u64 = panel::BTN_GAP as u64 / 2;
        let mut i: usize = 0;
        while i < 5
            invariant
                i <= 5,
                half == 5,
                p == (|i: int| self.in_slot(i, lx as int, ly as int)),
                forall|j: int| 0 <= j < i ==> !#[trigger] p(j),
            decreases 5 - i,
        {
            let left: u64 = minus(self.np.btn_xs[i] as u64, half);
            if within(
                left as i64,
                self.np.panel.y as i64,
                self.np.btn_d[i] as i64 + panel::BTN_GAP as i64,
                self.np.panel.h as i64,
                lx,
                ly,
            ) {
                proof {
                    lemma_first_is(0, 5, p, i as int);
                }
                return Some(i);
            }
            i = i + 1;
        }
        proof {
            lemma_first_none(0, 5, p);
        }
        None
    }

    fn icon_at(&self, lx: i64, ly: i64) -> (r: Option<usize>)
        ensures
            ({
                let want = first_from(
                    0,
                    self.xs@.len() as int,
                    |i: int| self.in_icon(i, lx as int, ly as int),
                );
                match r {
                    Some(i) => want == Some(i as int),
                    None => want is None,
                }
            }),
    {
        let ghost p = |i: int| self.in_icon(i, lx as int, ly as int);
        let n: usize = self.xs.len();
        let pad: u64 = ICON_HIT_PAD as u64;
        let mut i: usize = 0;
        while i < n
            invariant
                i <= n == self.xs@.len(),
                pad == 8,
                p == (|i: int| self.in_icon(i, lx as int, ly as int)),
                forall|j: int| 0 <= j < i ==> !#[trigger] p(j),
            decreases n - i,
        {
            let left: u64 = minus(self.xs[i] as u64, pad);
            let top: u64 = minus(self.tile_y as u64, pad);
            if within(
                left as i64,
                top as i64,
                self.tile_d as i64 + 16,
                self.mark_y as i64 + MARK_H as i64 - self.tile_y as i64 + 16,
                lx,
                ly,
            ) {
                proof {
                    lemma_first_is(0, n as int, p, i as int);
                }
                return Some(i);
            }
            i = i + 1;
        }
        proof {
            lemma_first_none(0, n as int, p);
        }
        None
    }

    /// How many assistants the frame has room for; none without a picture.
    pub fn clawd_cells(&self) -> (r: usize)
        ensures
            r == match (self.clawd, self.sprite) {
                (Some(l), Some(_)) => l.cells@.len() as int,
                _ => 0,
            },
    {
        match (&self.clawd, &self.sprite) {
            (Some(l), Some(_)) => l.cells.len(),
            _ => 0,
        }
    }

    /// The assistant frame.
    pub fn clawd_rect(&self) -> (r: Option<Rect>)
        ensures
            r == match self.clawd {
                Some(l) => Some(l.panel),
                None => None,
            },
    {
        match &self.clawd {
            Some(l) => Some(l.panel),
            None => None,
        }
    }

    /// The side of the album art.
    pub fn art_side(&self) -> (r: u32)
        ensures
            r == self.np.art.w,
    {
        self.np.art.w
    }

    /// The now-playing panel.
    pub fn np_rect(&self) -> (r: Rect)
        ensures
            r == self.np.panel,
    {
        self.np.panel
    }
}

impl Bar {
    /// The size of the picture on an icon.
    pub open spec fn glyph_side(self) -> int {
        panel::most(self.tile_d * ICON_GLYPH_PCT / 100, 1)
    }

    pub fn glyph_px(&self) -> (r: u32)
        ensures
            r == self.glyph_side(),
    {
        max_of(self.tile_d as u64 * ICON_GLYPH_PCT as u64 / 100, 1) as u32
    }

    /// The size of the picture on button `i`: the button's own, but smaller on
    /// the play button, whose picture lies in a disc.
    pub open spec fn ctrl_side(self, i: int) -> int {
        panel::most(
            if i == 2 {
                self.np.btn_d@[i] * PLAY_GLYPH_PCT / 100
            } else {
                self.np.btn_d@[i] as int
            },
            1,
        )
    }

    pub fn ctrl_px(&self, i: usize) -> (r: u32)
        requires
            i < 5,
        ensures
            r == self.ctrl_side(i as int),
    {
        let d: u64 = self.np.btn_d[i] as u64;
        let d: u64 = if i == 2 {
            d * PLAY_GLYPH_PCT as u64 / 100
        } else {
            d
        };
        max_of(d, 1) as u32
    }

    /// The size of the picture that stands for missing art.
    pub open spec fn art_glyph_side(self) -> int {
        panel::most(self.np.art.w * ART_GLYPH_PCT / 100, 1)
    }

    pub fn art_glyph_px(&self) -> (r: u32)
        ensures
            r == self.art_glyph_side(),
    {
        max_of(self.np.art.w as u64 * ART_GLYPH_PCT as u64 / 100, 1) as u32
    }
}

/// An icon is never smaller than the minimum. In a bar that is high enough the
/// icon and its line fit, and where the icons have room at that size, they
/// leave each frame its least width.
pub proof fn an_icon_fits_its_bar(w: int, h: int, want: int, gap: int, margin: int)
    requires
        0 <= gap,
        0 <= margin,
    ensures
        icon_d_of(w, h, want, gap, margin) >= ICON_D_MIN,
        want >= ICON_D_MIN ==> icon_d_of(w, h, want, gap, margin) <= want,
        h >= ICON_D_MIN + MARK_GAP + MARK_H ==> icon_d_of(w, h, want, gap, margin) + MARK_GAP
            + MARK_H <= h,
        w >= margin * 2 + GAP * 2 + NP_MIN_W * 2 + 5 * gap + 6 * ICON_D_MIN ==> 6 * icon_d_of(
            w,
            h,
            want,
            gap,
            margin,
        ) + 5 * gap + margin * 2 + GAP * 2 + NP_MIN_W * 2 <= w,
{
}

/// The line below an icon lies in the bar, and the icon with its line lies in
/// the middle of the bar's height.
pub proof fn icons_lie_in_the_bars_height(b: BarIn)
    requires
        0 <= b.w <= u32::MAX,
        ICON_D_MIN + MARK_GAP + MARK_H <= b.h <= u32::MAX,
    ensures
        0 <= b.tile_y(),
        b.mark_y() + MARK_H <= b.h,
        ({
            let above = b.tile_y();
            let below = b.h - (b.mark_y() + MARK_H);
            0 <= below - above <= 1
        }),
{
    lemma_icons(b);
}

/// The two frames are as wide as each other, as high, and as far from the sides
/// of the bar, unless a knob gives the assistant frame a width of its own.
pub proof fn frames_mirror_each_other(b: BarIn)
    requires
        b.t.clawd_w is None,
    ensures
        b.grid().panel_w() == b.np().panel_w(),
        b.grid().panel_h() == b.np().panel_h(),
        b.grid().x == b.w - (b.np().panel_x() + b.np().panel_w()),
{
}

proof fn lemma_between(b: BarIn)
    requires
        0 <= b.w <= u32::MAX,
        0 <= b.h <= u32::MAX,
        b.fits(),
        b.t.clawd_w is None,
    ensures
        b.icons_right() == b.np().panel_x() - GAP,
        b.icons_left() + b.total() <= b.icons_right(),
        b.icon_x(5) + b.tile_d() == b.icon_x(0) + b.total(),
        b.tile_d() >= 16,
{
    lemma_icons(b);
    assert(b.np().panel_w() <= b.avail());
    assert(b.avail() >= 16);
    assert(b.icon_x(5) == b.icon_x(0) + 5 * (b.tile_d() + b.t.gap)) by (nonlinear_arith);
}

/// The icons keep clear of both frames, by a gap at least, at any size of the
/// bar that can be laid out.
pub proof fn icons_keep_clear_of_the_frames(b: BarIn, i: int)
    requires
        0 <= b.w <= u32::MAX,
        0 <= b.h <= u32::MAX,
        b.fits(),
        b.t.clawd_w is None,
        0 <= i < ICON_COUNT,
    ensures
        b.grid().shown() ==> b.grid().x + b.grid().panel_w() + GAP <= b.icon_x(i),
        b.icon_x(i) + b.tile_d() + GAP <= b.np().panel_x(),
{
    lemma_between(b);
    let step = b.tile_d() + b.t.gap;
    assert(0 <= i * step && i * step <= 5 * step) by (nonlinear_arith)
        requires
            0 <= i <= 5,
            step >= 0,
    ;
    assert(b.icon_x(i) == b.icon_x(0) + i * step) by (nonlinear_arith)
        requires
            step == b.tile_d() + b.t.gap,
            b.icon_x(i) - i * (b.tile_d() + b.t.gap) == b.icon_x(0) - 0 * (b.tile_d() + b.t.gap),
    ;
}

/// The icons lie in the middle between the frames, to within a pixel.
pub proof fn icons_are_centred(b: BarIn)
    requires
        0 <= b.w <= u32::MAX,
        0 <= b.h <= u32::MAX,
        b.fits(),
        b.t.clawd_w is None,
        b.grid().shown(),
    ensures
        ({
            let left = b.icon_x(0) - (b.grid().x + b.grid().panel_w());
            let right = b.np().panel_x() - (b.icon_x(5) + b.tile_d());
            0 <= right - left <= 1
        }),
{
    lemma_between(b);
    assert(0 * (b.tile_d() + b.t.gap) == 0) by (nonlinear_arith);
}

/// A touch hits a button only while buttons are drawn, and a cell only while an
/// assistant is drawn in it.
pub proof fn only_what_is_drawn_is_hit(bar: Bar, x: int, y: int, ctrls: bool, drawn: int)
    requires
        0 <= drawn <= usize::MAX,
    ensures
        match bar.hit_of(x, y, ctrls, drawn) {
            Some(Hit::Ctrl(_)) => ctrls,
            Some(Hit::Clawd(i)) => i < drawn && bar.in_cell(i as int, x, y),
            Some(Hit::Panel) => bar.np.panel.has(x, y),
            _ => true,
        },
{
    lemma_first_holds(0, bar.cells(drawn), |i: int| bar.in_cell(i, x, y));
}

/// A touch in a cell that an assistant is drawn in hits that cell.
pub proof fn a_drawn_cell_is_hit(
    bar: Bar,
    b: BarIn,
    i: int,
    x: int,
    y: int,
    ctrls: bool,
    drawn: int,
)
    requires
        0 <= b.h,
        bar.is_of(b),
        0 <= i < bar.cells(drawn),
        bar.in_cell(i, x, y),
        drawn <= usize::MAX,
    ensures
        bar.hit_of(x, y, ctrls, drawn) == Some(Hit::Clawd(i as usize)),
{
    let p = |k: int| bar.in_cell(k, x, y);
    let l = bar.clawd->0;
    assert forall|j: int| 0 <= j < i implies !#[trigger] p(j) by {
        if p(j) {
            assert(l.cells@[j].has(x, y) && l.cells@[i].has(x, y));
            grid::cells_are_apart(b.grid(), i, j, x, y);
        }
    }
    assert(p(i));
    lemma_first_is(0, bar.cells(drawn), p, i);
}

proof fn lemma_no_cell(bar: Bar, b: BarIn, x: int, y: int, drawn: int)
    requires
        0 <= b.w <= u32::MAX,
        0 <= b.h <= u32::MAX,
        b.fits(),
        bar.is_of(b),
        bar.clawd is Some ==> x >= b.grid().x + b.grid().panel_w(),
    ensures
        first_from(0, bar.cells(drawn), |i: int| bar.in_cell(i, x, y)) is None,
{
    let p = |k: int| bar.in_cell(k, x, y);
    assert forall|j: int| 0 <= j < bar.cells(drawn) implies !#[trigger] p(j) by {
        if p(j) {
            let l = bar.clawd->0;
            assert(l.cells@[j].has(x, y));
            grid::lemma_cell(b.grid(), j);
        }
    }
    lemma_first_none(0, bar.cells(drawn), p);
}

/// While buttons are drawn and the column has room for their gaps, a touch in
/// the area of a button hits that button.
pub proof fn a_shown_button_is_hit(bar: Bar, b: BarIn, i: int, x: int, y: int, drawn: int)
    requires
        0 <= b.w <= u32::MAX,
        0 <= b.h <= u32::MAX,
        b.fits(),
        b.t.clawd_w is None,
        bar.is_of(b),
        b.np().col3_w() >= panel::BTN_GAP * 4,
        0 <= i < 5,
        bar.in_slot(i, x, y),
    ensures
        bar.hit_of(x, y, true, drawn) == Some(Hit::Ctrl(Ctrl::at_place(i))),
{
    let n = b.np();
    lemma_between(b);
    panel::lemma_lefts(n);
    panel::lemma_rights(n);
    assert(bar.np.btn_xs@[i] == n.btn_x(i) && bar.np.btn_d@[i] == n.btn_d(i));
    lemma_no_cell(bar, b, x, y, drawn);
    let p = |k: int| bar.in_slot(k, x, y);
    assert forall|j: int| 0 <= j < i implies !#[trigger] p(j) by {
        assert(bar.np.btn_xs@[j] == n.btn_x(j) && bar.np.btn_d@[j] == n.btn_d(j));
    }
    lemma_first_is(0, 5, p, i);
}

/// A touch on the panel that hits no button leads to the player, also while
/// there are no buttons.
pub proof fn the_rest_of_the_panel_is_one_target(
    bar: Bar,
    b: BarIn,
    x: int,
    y: int,
    ctrls: bool,
    drawn: int,
)
    requires
        0 <= b.w <= u32::MAX,
        0 <= b.h <= u32::MAX,
        b.fits(),
        b.t.clawd_w is None,
        bar.is_of(b),
        bar.np.panel.has(x, y),
        ctrls ==> forall|i: int| 0 <= i < 5 ==> !#[trigger] bar.in_slot(i, x, y),
    ensures
        bar.hit_of(x, y, ctrls, drawn) == Some(Hit::Panel),
{
    lemma_between(b);
    lemma_no_cell(bar, b, x, y, drawn);
    if ctrls {
        let p = |k: int| bar.in_slot(k, x, y);
        assert forall|j: int| 0 <= j < 5 implies !#[trigger] p(j) by {
            assert(!bar.in_slot(j, x, y));
        }
        lemma_first_none(0, 5, p);
    }
}

/// A touch on an icon hits that icon, where icons are as far apart as touches
/// are lenient.
pub proof fn an_icon_is_hit(bar: Bar, b: BarIn, i: int, x: int, y: int, ctrls: bool, drawn: int)
    requires
        0 <= b.w <= u32::MAX,
        0 <= b.h <= u32::MAX,
        b.fits(),
        b.t.clawd_w is None,
        b.t.gap >= ICON_HIT_PAD,
        bar.is_of(b),
        0 <= i < ICON_COUNT,
        b.icon_x(i) <= x < b.icon_x(i) + b.tile_d(),
        b.tile_y() <= y < b.mark_y() + MARK_H,
    ensures
        bar.hit_of(x, y, ctrls, drawn) == Some(Hit::Icon(i as usize)),
{
    let n = b.np();
    lemma_between(b);
    icons_keep_clear_of_the_frames(b, i);
    panel::lemma_lefts(n);
    lemma_no_cell(bar, b, x, y, drawn);
    let q = |k: int| bar.in_slot(k, x, y);
    assert forall|j: int| 0 <= j < 5 implies !#[trigger] q(j) by {
        assert(bar.np.btn_xs@[j] == n.btn_x(j) && bar.np.btn_d@[j] == n.btn_d(j));
    }
    lemma_first_none(0, 5, q);
    let p = |k: int| bar.in_icon(k, x, y);
    let step = b.tile_d() + b.t.gap;
    assert forall|j: int| 0 <= j < i implies !#[trigger] p(j) by {
        assert(bar.xs@[j] == b.icon_x(j));
        assert(i * step >= j * step + step) by (nonlinear_arith)
            requires
                0 <= j <= i - 1,
                step >= 0,
        ;
    }
    assert(bar.xs@[i] == b.icon_x(i));
    assert(p(i));
    lemma_first_is(0, 6, p, i);
}

/// The icons lie in a row, all as large and as high, each a gap behind the one
/// before; the lines lie four pixels below them.
pub proof fn icons_lie_in_a_row(bar: Bar, b: BarIn, i: int)
    requires
        0 <= b.w <= u32::MAX,
        0 <= b.h <= u32::MAX,
        bar.is_of(b),
        0 <= i < 5,
    ensures
        bar.xs@[i + 1] == bar.xs@[i] + bar.tile_d + b.t.gap,
        bar.mark_y == bar.tile_y + bar.tile_d + 4,
        bar.tile_d >= 16,
        bar.xs@.len() == 6,
        bar.w == b.w && bar.h == b.h,
{
    lemma_icons(b);
    let step = b.tile_d() + b.t.gap;
    assert((i + 1) * step == i * step + step) by (nonlinear_arith);
    assert(bar.xs@[i] == b.icon_x(i) && bar.xs@[i + 1] == b.icon_x(i + 1));
}

/// An icon is as large as the knob says, or else seventy-three hundredths of the
/// bar's height, wherever that is at least sixteen pixels and leaves room for the
/// line and for the frames.
pub proof fn an_icon_is_as_large_as_asked(b: BarIn)
    requires
        0 <= b.w <= u32::MAX,
        0 <= b.h <= u32::MAX,
    ensures
        ({
            let want = if b.t.icon_d is Some {
                b.t.icon_d->0 as int
            } else {
                b.h * 73 / 100
            };
            want >= 16 && want + 8 <= b.h && 6 * want + 5 * b.t.gap + 2 * b.t.margin + 424 <= b.w
                ==> b.tile_d() == want
        }),
{
}

/// Pictures are smaller than what they lie on: fifty-eight hundredths of an icon
/// and of the play button, fifty-five of the art, all of the other buttons.
pub proof fn pictures_are_smaller_than_their_ground(bar: Bar, i: int)
    requires
        0 <= i < 5,
    ensures
        bar.tile_d >= 2 ==> bar.glyph_side() == bar.tile_d * 58 / 100,
        bar.np.btn_d@[2] >= 2 ==> bar.ctrl_side(2) == bar.np.btn_d@[2] * 58 / 100,
        i != 2 && bar.np.btn_d@[i] >= 1 ==> bar.ctrl_side(i) == bar.np.btn_d@[i],
        bar.np.art.w >= 2 ==> bar.art_glyph_side() == bar.np.art.w * 55 / 100,
        bar.glyph_side() >= 1 && bar.ctrl_side(i) >= 1 && bar.art_glyph_side() >= 1,
{
}

/// A touch counts for an icon up to eight pixels beside it and its line, where the
/// bar has as many, and no farther.
pub proof fn touches_are_lenient_by_eight_pixels(bar: Bar, i: int, x: int, y: int)
    requires
        0 <= i < bar.xs@.len(),
        bar.xs@[i] >= 8,
        bar.tile_y >= 8,
        bar.mark_y >= bar.tile_y,
    ensures
        bar.in_icon(i, x, y) <==> bar.xs@[i] - 8 <= x < bar.xs@[i] + bar.tile_d + 8 && bar.tile_y
            - 8 <= y < bar.mark_y + 4 + 8,
{
}

/// A touch counts for a button anywhere in the panel's height, up to half the gap
/// to its neighbours.
pub proof fn buttons_take_half_the_gaps(bar: Bar, i: int, x: int, y: int)
    requires
        0 <= i < 5,
        bar.np.btn_xs@[i] >= 5,
    ensures
        bar.in_slot(i, x, y) <==> bar.np.btn_xs@[i] - 5 <= x < bar.np.btn_xs@[i]
            + bar.np.btn_d@[i] + 5 && bar.np.panel.y <= y < bar.np.panel.y + bar.np.panel.h,
{
}

proof fn lemma_first_complete(i: int, n: int, p: spec_fn(int) -> bool)
    ensures
        match first_from(i, n, p) {
            Some(k) => i <= k < n && p(k) && forall|j: int| i <= j < k ==> !#[trigger] p(j),
            None => forall|j: int| i <= j < n ==> !#[trigger] p(j),
        },
    decreases n - i,
{
    if i < n && !p(i) {
        lemma_first_complete(i + 1, n, p);
    }
}

/// What a touch hits holds the point, and it hits something wherever one of these
/// holds it: a cell in which somebody is drawn, a button that is drawn, the panel,
/// an icon. Where several do, cells come first, then buttons, then the panel, then
/// the icons, and of several icons the first.
pub proof fn a_touch_hits_what_holds_it(bar: Bar, x: int, y: int, ctrls: bool, drawn: int)
    requires
        0 <= drawn <= usize::MAX,
    ensures
        ({
            let hit = bar.hit_of(x, y, ctrls, drawn);
            let cell = bar.clawd is Some && exists|i: int|
                0 <= i < drawn && i < bar.clawd->0.cells@.len() && (
                #[trigger] bar.clawd->0.cells@[i]).has(x, y);
            let button = ctrls && exists|i: int| 0 <= i < 5 && #[trigger] bar.in_slot(i, x, y);
            let panel = bar.np.panel.x <= x < bar.np.panel.x + bar.np.panel.w && bar.np.panel.y <= y
                < bar.np.panel.y + bar.np.panel.h;
            let icon = exists|i: int| 0 <= i < bar.xs@.len() && #[trigger] bar.in_icon(i, x, y);
            &&& hit is Some && hit->0 is Clawd <==> cell
            &&& hit is Some && hit->0 is Ctrl <==> !cell && button
            &&& hit == Some(Hit::Panel) <==> !cell && !button && panel
            &&& hit is Some && hit->0 is Icon <==> !cell && !button && !panel && icon
            &&& hit is None <==> !cell && !button && !panel && !icon
        }),
{
    let p = |i: int| bar.in_cell(i, x, y);
    let q = |i: int| bar.in_slot(i, x, y);
    let s = |i: int| bar.in_icon(i, x, y);
    lemma_first_complete(0, bar.cells(drawn), p);
    lemma_first_complete(0, 5, q);
    lemma_first_complete(0, bar.xs@.len() as int, s);
    match first_from(0, bar.cells(drawn), p) {
        Some(k) => {
            assert(bar.clawd->0.cells@[k].has(x, y));
        },
        None => {
            if bar.clawd is Some {
                assert forall|i: int| 0 <= i < drawn && i < bar.clawd->0.cells@.len() implies !(
                #[trigger] bar.clawd->0.cells@[i]).has(x, y) by {
                    assert(!p(i));
                }
            }
        },
    }
    match first_from(0, 5, q) {
        Some(k) => {
            assert(bar.in_slot(k, x, y));
        },
        None => {
            assert forall|i: int| 0 <= i < 5 implies !#[trigger] bar.in_slot(i, x, y) by {
                assert(!q(i));
            }
        },
    }
    match first_from(0, bar.xs@.len() as int, s) {
        Some(k) => {
            assert(bar.in_icon(k, x, y));
        },
        None => {
            assert forall|i: int| 0 <= i < bar.xs@.len() implies !#[trigger] bar.in_icon(
                i,
                x,
                y,
            ) by {
                assert(!s(i));
            }
        },
    }
}

/// The frames at both sides get half of what the icons, the gaps and the margins
/// leave, and two hundred pixels at least wherever icons of the least size leave
/// that.
pub proof fn the_frames_share_what_is_left(b: BarIn)
    requires
        0 <= b.w <= u32::MAX,
        0 <= b.h <= u32::MAX,
    ensures
        b.w >= 2 * b.t.margin + 24 + b.total() ==> 0 <= b.w - (2 * b.avail() + 2 * b.t.margin + 24
            + b.total()) <= 1,
        b.w < 2 * b.t.margin + 24 + b.total() ==> b.avail() == 0,
        b.total() == 6 * b.tile_d() + 5 * b.t.gap,
        b.w >= 2 * b.t.margin + 424 + 5 * b.t.gap + 96 ==> b.avail() >= 200,
        b.np().avail == b.avail(),
        b.np().margin == b.t.margin,
        b.np().w == b.w && b.np().h == b.h && b.np().t == b.t,
        b.grid().x == b.t.margin,
        b.grid().want == b.np().panel_w(),
        b.grid().h == b.h && b.grid().t == b.t,
{
    lemma_icons(b);
}

} // verus!
