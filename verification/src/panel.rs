//! The now-playing panel at the right end of the bar: album art, text column,
//! five buttons and a progress bar.

use crate::tuning::Tuning;
use vstd::prelude::*;

verus! {

/// Space above and below the frames.
pub const INSET: u32 = 4;

/// Space inside the panel's border.
pub const PAD: u32 = 8;

/// Space between columns.
pub const GAP: u32 = 12;

/// The height of the progress bar where no knob gives it.
pub const PROG_H: u32 = 4;

/// Space between buttons.
pub const BTN_GAP: u32 = 10;

/// A rectangle in the bar's own coordinates.
#[derive(Clone, Copy, Debug, PartialEq, Eq, Structural)]
pub struct Rect {
    pub x: u32,
    pub y: u32,
    pub w: u32,
    pub h: u32,
}

impl Rect {
    /// Whether the point lies in the rectangle, left and top edge included.
    pub open spec fn has(self, x: int, y: int) -> bool {
        self.x <= x < self.x + self.w && self.y <= y < self.y + self.h
    }

    /// Whether the rectangle lies inside `o`.
    pub open spec fn inside(self, o: Rect) -> bool {
        &&& o.x <= self.x
        &&& self.x + self.w <= o.x + o.w
        &&& o.y <= self.y
        &&& self.y + self.h <= o.y + o.h
    }

    /// Whether the pixel (`x`, `y`) lies in the rectangle.
    pub fn contains(&self, x: i64, y: i64) -> (r: bool)
        ensures
            r == self.has(x as int, y as int),
    {
        x >= self.x as i64 && x < self.x as i64 + self.w as i64 && y >= self.y as i64 && y
            < self.y as i64 + self.h as i64
    }
}

pub open spec fn least(a: int, b: int) -> int {
    if a <= b {
        a
    } else {
        b
    }
}

pub open spec fn most(a: int, b: int) -> int {
    if a >= b {
        a
    } else {
        b
    }
}

/// `a - b`, or zero if that is negative.
pub open spec fn less(a: int, b: int) -> int {
    most(a - b, 0)
}

/// `v` moved into the range from `lo` to `hi`.
pub open spec fn clamped(v: int, lo: int, hi: int) -> int {
    if v < lo {
        lo
    } else if v > hi {
        hi
    } else {
        v
    }
}

pub open spec fn or_int(o: Option<u32>, d: int) -> int {
    match o {
        Some(v) => v as int,
        None => d,
    }
}

pub fn min_of(a: u64, b: u64) -> (r: u64)
    ensures
        r == least(a as int, b as int),
{
    if a <= b {
        a
    } else {
        b
    }
}

pub fn max_of(a: u64, b: u64) -> (r: u64)
    ensures
        r == most(a as int, b as int),
{
    if a >= b {
        a
    } else {
        b
    }
}

/// `a - b`, or zero if that is negative.
pub fn minus(a: u64, b: u64) -> (r: u64)
    ensures
        r == less(a as int, b as int),
{
    if a >= b {
        a - b
    } else {
        0
    }
}

pub fn clamp_of(v: u64, lo: u64, hi: u64) -> (r: u64)
    requires
        lo <= hi,
    ensures
        r == clamped(v as int, lo as int, hi as int),
{
    if v < lo {
        lo
    } else if v > hi {
        hi
    } else {
        v
    }
}

/// The width of the panel.
///
/// The wanted width `np_w` counts, unless a text width is given: then the
/// panel is as wide as its padding, its gaps, the art, the text and the third
/// column are together. Neither may exceed `avail`.
pub open spec fn panel_width_of(
    avail: int,
    np_w: int,
    text_w: Option<u32>,
    art: int,
    col3: int,
) -> int {
    least(
        match text_w {
            Some(t) => PAD * 2 + art + GAP + t + GAP + col3,
            None => np_w,
        },
        avail,
    )
}

pub fn panel_width(avail: u32, np_w: u32, text_w: Option<u32>, art: u32, col3: u32) -> (r: u32)
    ensures
        r == panel_width_of(avail as int, np_w as int, text_w, art as int, col3 as int),
{
    let want: u64 = match text_w {
        Some(t) => PAD as u64 * 2 + art as u64 + GAP as u64 + t as u64 + GAP as u64 + col3 as u64,
        None => np_w as u64,
    };
    min_of(want, avail as u64) as u32
}

/// What the panel's layout follows from: the size of the bar, the space at its
/// sides, the width that the panel may take, and the knobs.
pub struct NpIn {
    pub w: int,
    pub h: int,
    pub margin: int,
    pub avail: int,
    pub t: Tuning,
}

/// The diameter of button `i` where no knob gives it.
pub open spec fn btn_default(i: int) -> int {
    if i == 0 || i == 4 {
        20
    } else if i == 2 {
        30
    } else {
        16
    }
}

/// Where button `i` starts when buttons of the diameters `d` are laid side by
/// side from `x` on.
pub open spec fn btn_start(x: int, d: spec_fn(int) -> int, i: int) -> int
    decreases i,
{
    if i <= 0 {
        x
    } else {
        btn_start(x, d, i - 1) + d(i - 1) + BTN_GAP
    }
}

pub open spec fn most_of_five(a: int, b: int, c: int, d: int, e: int) -> int {
    most(a, most(b, most(c, most(d, e))))
}

/// The top of a group of height `group_h`: centred in the panel, then moved by
/// `dy` as far as the panel allows.
pub open spec fn group_top_of(panel_h: int, group_h: int, dy: int) -> int {
    clamped(
        INSET + less(panel_h, group_h) / 2 + dy,
        INSET as int,
        most(less(INSET + panel_h, group_h), INSET as int),
    )
}

impl NpIn {
    pub open spec fn panel_h(self) -> int {
        less(self.h, INSET * 2)
    }

    pub open spec fn content_h(self) -> int {
        most(less(self.panel_h(), PAD * 2), 1)
    }

    pub open spec fn row1_h(self) -> int {
        least(self.content_h() / 2 + 2, self.content_h())
    }

    pub open spec fn prog_h(self) -> int {
        clamped(
            or_int(self.t.prog_h, PROG_H as int),
            1,
            most(self.content_h() / 2, 1),
        )
    }

    pub open spec fn ctrl_gap(self) -> int {
        least(self.t.ctrl_gap as int, less(self.panel_h(), self.prog_h()))
    }

    /// The largest diameter that leaves room for the progress bar.
    pub open spec fn btn_cap(self) -> int {
        less(self.panel_h(), self.ctrl_gap() + self.prog_h())
    }

    /// The diameter that button `i` asks for.
    pub open spec fn want(self, i: int) -> int {
        least(or_int(self.t.btn@[i], or_int(self.t.btn_d, btn_default(i))), self.btn_cap())
    }

    pub open spec fn want_sum(self) -> int {
        self.want(0) + self.want(1) + self.want(2) + self.want(3) + self.want(4)
    }

    pub open spec fn want_col3(self) -> int {
        self.want_sum() + BTN_GAP * 4
    }

    pub open spec fn panel_w(self) -> int {
        panel_width_of(
            self.avail,
            self.t.np_w as int,
            self.t.text_w,
            self.content_h(),
            self.want_col3(),
        )
    }

    pub open spec fn panel_x(self) -> int {
        self.w - self.margin - self.panel_w()
    }

    /// The panel and its padding fit between the bar's sides, and the columns
    /// are as wide and end where a `u32` can say it.
    pub open spec fn fits(self) -> bool {
        &&& self.panel_w() >= PAD * 2
        &&& self.margin + self.panel_w() <= self.w
        &&& self.want_col3() <= u32::MAX
        &&& self.col3_x() + self.col3_w() <= u32::MAX
    }

    pub open spec fn content_w(self) -> int {
        self.panel_w() - PAD * 2
    }

    pub open spec fn art_side(self) -> int {
        least(self.content_h(), self.content_w())
    }

    /// What is left for the second and third column.
    pub open spec fn rest(self) -> int {
        less(self.content_w(), self.art_side() + GAP)
    }

    pub open spec fn col3_w(self) -> int {
        least(self.want_col3(), less(self.rest(), GAP as int))
    }

    /// The third column is narrower than its buttons ask for.
    pub open spec fn squeezed(self) -> bool {
        self.col3_w() < self.want_col3()
    }

    /// The diameter of button `i`: what it asks for, or, where the column is
    /// too narrow, the same share of it for every button.
    pub open spec fn btn_d(self, i: int) -> int {
        if self.squeezed() {
            self.want(i) * less(self.col3_w(), BTN_GAP * 4) / most(self.want_sum(), 1)
        } else {
            self.want(i)
        }
    }

    pub open spec fn col2_w(self) -> int {
        less(self.rest(), GAP + self.col3_w())
    }

    pub open spec fn col2_x(self) -> int {
        self.panel_x() + PAD + self.art_side() + GAP
    }

    pub open spec fn col3_x(self) -> int {
        self.col2_x() + self.col2_w() + GAP
    }

    pub open spec fn btn_max(self) -> int {
        most_of_five(
            self.btn_d(0),
            self.btn_d(1),
            self.btn_d(2),
            self.btn_d(3),
            self.btn_d(4),
        )
    }

    /// The height of the buttons and the progress bar together.
    pub open spec fn group_h(self) -> int {
        self.btn_max() + self.ctrl_gap() + self.prog_h()
    }

    /// The top of the buttons and the progress bar.
    pub open spec fn group_y(self) -> int {
        group_top_of(self.panel_h(), self.group_h(), self.t.ctrl_dy as int)
    }

    pub open spec fn btn_y(self, i: int) -> int {
        self.group_y() + (self.btn_max() - self.btn_d(i)) / 2
    }

    /// The left edge of button `i`: where the buttons are laid side by side,
    /// unless it would leave the column there.
    pub open spec fn btn_x(self, i: int) -> int {
        least(
            btn_start(self.col3_x(), |j: int| self.btn_d(j), i),
            less(self.col3_x() + self.col3_w(), self.btn_d(i)),
        )
    }

    pub open spec fn prog_w(self) -> int {
        less(self.btn_x(4) + self.btn_d(4), self.col3_x())
    }

    pub open spec fn prog_y(self) -> int {
        self.group_y() + self.btn_max() + self.ctrl_gap()
    }
}

/// Where the elements of the panel lie, in the bar's own coordinates.
pub struct NpLayout {
    pub panel: Rect,
    pub art: Rect,
    pub col2_x: u32,
    pub col2_w: u32,
    pub row1_y: u32,
    pub row1_h: u32,
    pub row2_y: u32,
    pub row2_h: u32,
    /// Diameter of each button, in the order of `Ctrl`.
    pub btn_d: [u32; 5],
    pub btn_xs: [u32; 5],
    pub btn_y: [u32; 5],
    pub prog: Rect,
}

pub open spec fn rect_is(r: Rect, x: int, y: int, w: int, h: int) -> bool {
    r.x == x && r.y == y && r.w == w && r.h == h
}

impl NpLayout {
    /// The layout that follows from `n`.
    pub open spec fn is_of(self, n: NpIn) -> bool {
        &&& rect_is(self.panel, n.panel_x(), INSET as int, n.panel_w(), n.panel_h())
        &&& rect_is(self.art, n.panel_x() + PAD, INSET + PAD, n.art_side(), n.art_side())
        &&& self.col2_x == n.col2_x()
        &&& self.col2_w == n.col2_w()
        &&& self.row1_y == INSET + PAD
        &&& self.row1_h == n.row1_h()
        &&& self.row2_y == INSET + PAD + n.row1_h()
        &&& self.row2_h == n.content_h() - n.row1_h()
        &&& forall|i: int| 0 <= i < 5 ==> #[trigger] self.btn_d@[i] == n.btn_d(i)
        &&& forall|i: int| 0 <= i < 5 ==> #[trigger] self.btn_xs@[i] == n.btn_x(i)
        &&& forall|i: int| 0 <= i < 5 ==> #[trigger] self.btn_y@[i] == n.btn_y(i)
        &&& rect_is(self.prog, n.col3_x(), n.prog_y(), n.prog_w(), n.prog_h())
    }
}

} // verus!
verus! {

proof fn lemma_share(d: int, usable: int, total: int)
    requires
        0 <= d <= total,
        0 <= usable,
        0 < total,
    ensures
        0 <= d * usable / total <= usable,
        d * usable / total <= d || usable > total,
        d * usable <= total * usable,
{
    assert(0 <= d * usable <= total * usable) by (nonlinear_arith)
        requires
            0 <= d <= total,
            0 <= usable,
    ;
    assert(0 <= d * usable / total <= usable) by (nonlinear_arith)
        requires
            0 <= d * usable <= total * usable,
            0 < total,
    ;
    if usable <= total {
        assert(d * usable <= d * total) by (nonlinear_arith)
            requires
                0 <= d,
                usable <= total,
        ;
        assert(d * usable / total <= d) by (nonlinear_arith)
            requires
                d * usable <= d * total,
                0 < total,
        ;
    }
}

/// Bounds on the sizes of the buttons.
proof fn lemma_btn_bounds(n: NpIn, i: int)
    requires
        0 <= i < 5,
        n.h >= 0,
        n.fits(),
    ensures
        0 <= n.want(i) <= n.btn_cap() <= n.panel_h(),
        0 <= n.btn_d(i) <= n.want(i),
        n.btn_d(i) <= n.col3_w(),
        n.squeezed() ==> n.btn_d(i) <= less(n.col3_w(), BTN_GAP * 4),
{
    if n.squeezed() {
        let usable = less(n.col3_w(), BTN_GAP * 4);
        let total = most(n.want_sum(), 1);
        lemma_share(n.want(i), usable, total);
        if n.want_sum() < 1 {
            assert(n.want(i) == 0);
        } else {
            assert(usable <= total);
        }
    }
}

proof fn lemma_btn_starts(x: int, d: spec_fn(int) -> int)
    ensures
        btn_start(x, d, 0) == x,
        btn_start(x, d, 1) == x + d(0) + 10,
        btn_start(x, d, 2) == x + d(0) + d(1) + 20,
        btn_start(x, d, 3) == x + d(0) + d(1) + d(2) + 30,
        btn_start(x, d, 4) == x + d(0) + d(1) + d(2) + d(3) + 40,
{
    reveal_with_fuel(btn_start, 6);
}

#[verifier::opaque]
spec fn roomy(n: NpIn) -> bool {
    n.fits()
}

#[verifier::opaque]
spec fn laid_out(l: NpLayout, n: NpIn) -> bool {
    l.is_of(n)
}

/// The heights in the panel.
struct Heights {
    panel_h: u64,
    content_h: u64,
    prog_h: u64,
    ctrl_gap: u64,
    btn_cap: u64,
}

/// The widths in the panel and the sizes of its buttons.
struct Widths {
    panel_w: u64,
    art_side: u64,
    col2_w: u64,
    col3_w: u64,
    d: [u64; 5],
}

impl Heights {
    #[verifier::opaque]
    spec fn is_of(self, n: NpIn) -> bool {
        &&& self.panel_h == n.panel_h()
        &&& self.content_h == n.content_h()
        &&& self.prog_h == n.prog_h()
        &&& self.ctrl_gap == n.ctrl_gap()
        &&& self.btn_cap == n.btn_cap()
    }

    fn new(h: u32, t: &Tuning, Ghost(n): Ghost<NpIn>) -> (r: Heights)
        requires
            n.h == h,
            n.t == *t,
        ensures
            r.is_of(n),
            r.panel_h == less(h as int, 8),
            1 <= r.content_h <= most(h as int, 1),
            1 <= r.prog_h <= most(r.panel_h as int, 1),
            r.btn_cap <= r.panel_h,
            r.ctrl_gap + r.prog_h <= most(r.panel_h as int, 1),
            r.btn_cap + r.ctrl_gap + r.prog_h <= most(r.panel_h as int, 1),
    {
        let panel_h: u64 = minus(h as u64, INSET as u64 * 2);
        let content_h: u64 = max_of(minus(panel_h, PAD as u64 * 2), 1);
        let prog_want: u64 = match t.prog_h {
            Some(v) => v as u64,
            None => PROG_H as u64,
        };
        let prog_h: u64 = clamp_of(prog_want, 1, max_of(content_h / 2, 1));
        let ctrl_gap: u64 = min_of(t.ctrl_gap as u64, minus(panel_h, prog_h));
        let btn_cap: u64 = minus(panel_h, ctrl_gap + prog_h);
        proof {
            reveal(Heights::is_of);
        }
        Heights { panel_h, content_h, prog_h, ctrl_gap, btn_cap }
    }
}

/// The diameters that the buttons ask for.
fn wants(t: &Tuning, cap: u64, Ghost(n): Ghost<NpIn>) -> (r: [u64; 5])
    requires
        n.t == *t,
        cap == n.btn_cap(),
        cap <= u32::MAX,
    ensures
        r@[0] == n.want(0) <= cap,
        r@[1] == n.want(1) <= cap,
        r@[2] == n.want(2) <= cap,
        r@[3] == n.want(3) <= cap,
        r@[4] == n.want(4) <= cap,
{
    let a: u64 = min_of(NpLayout::wanted(t, 0, 20), cap);
    let b: u64 = min_of(NpLayout::wanted(t, 1, 16), cap);
    let c: u64 = min_of(NpLayout::wanted(t, 2, 30), cap);
    let d: u64 = min_of(NpLayout::wanted(t, 3, 16), cap);
    let e: u64 = min_of(NpLayout::wanted(t, 4, 20), cap);
    [a, b, c, d, e]
}

impl Widths {
    #[verifier::opaque]
    spec fn is_of(self, n: NpIn) -> bool {
        &&& self.panel_w == n.panel_w()
        &&& self.art_side == n.art_side()
        &&& self.col2_w == n.col2_w()
        &&& self.col3_w == n.col3_w()
        &&& self.d@[0] == n.btn_d(0)
        &&& self.d@[1] == n.btn_d(1)
        &&& self.d@[2] == n.btn_d(2)
        &&& self.d@[3] == n.btn_d(3)
        &&& self.d@[4] == n.btn_d(4)
    }

    fn new(avail: u32, t: &Tuning, v: &Heights, Ghost(n): Ghost<NpIn>) -> (r: Widths)
        requires
            n.t == *t,
            n.avail == avail,
            0 <= n.h <= u32::MAX,
            roomy(n),
            v.is_of(n),
            v.btn_cap <= u32::MAX,
            v.content_h <= u32::MAX,
        ensures
            r.is_of(n),
            16 <= r.panel_w,
            n.margin + r.panel_w <= n.w,
            r.art_side <= r.panel_w - 16,
            n.w - n.margin - r.panel_w + 32 + r.art_side + r.col2_w + r.col3_w <= u32::MAX,
            forall|i: int| 0 <= i < 5 ==> #[trigger] r.d@[i] <= v.btn_cap,
            forall|i: int| 0 <= i < 5 ==> #[trigger] r.d@[i] <= r.col3_w,
    {
        proof {
            reveal(roomy);
            reveal(Heights::is_of);
            reveal(Widths::is_of);
            lemma_btn_bounds(n, 0);
            lemma_btn_bounds(n, 1);
            lemma_btn_bounds(n, 2);
            lemma_btn_bounds(n, 3);
            lemma_btn_bounds(n, 4);
        }
        let want = wants(t, v.btn_cap, Ghost(n));
        let want_sum: u64 = want[0] + want[1] + want[2] + want[3] + want[4];
        let want_col3: u64 = want_sum + BTN_GAP as u64 * 4;
        let panel_w: u64 = panel_width(
            avail,
            t.np_w,
            t.text_w,
            v.content_h as u32,
            want_col3 as u32,
        ) as u64;
        let content_w: u64 = panel_w - PAD as u64 * 2;
        let art_side: u64 = min_of(v.content_h, content_w);
        let rest: u64 = minus(content_w, art_side + GAP as u64);
        let col3_w: u64 = min_of(want_col3, minus(rest, GAP as u64));
        let col2_w: u64 = minus(rest, GAP as u64 + col3_w);
        let squeezed = col3_w < want_col3;
        let usable: u64 = minus(col3_w, BTN_GAP as u64 * 4);
        let total: u64 = max_of(want_sum, 1);
        let d: [u64; 5] = [
            NpLayout::share(want[0], squeezed, usable, total),
            NpLayout::share(want[1], squeezed, usable, total),
            NpLayout::share(want[2], squeezed, usable, total),
            NpLayout::share(want[3], squeezed, usable, total),
            NpLayout::share(want[4], squeezed, usable, total),
        ];
        Widths { panel_w, art_side, col2_w, col3_w, d }
    }
}

/// The largest of five diameters.
fn largest(d: &[u64; 5]) -> (r: u64)
    ensures
        r == most_of_five(
            d@[0] as int,
            d@[1] as int,
            d@[2] as int,
            d@[3] as int,
            d@[4] as int,
        ),
        forall|i: int| 0 <= i < 5 ==> #[trigger] d@[i] <= r,
        r == d@[0] || r == d@[1] || r == d@[2] || r == d@[3] || r == d@[4],
{
    max_of(d[0], max_of(d[1], max_of(d[2], max_of(d[3], d[4]))))
}

/// The top of the buttons and the progress bar.
fn group_top(panel_h: u64, group_h: u64, dy: i32) -> (r: u64)
    requires
        panel_h <= u32::MAX,
        group_h <= u32::MAX,
    ensures
        r == group_top_of(panel_h as int, group_h as int, dy as int),
        INSET <= r <= most(less(INSET + panel_h, group_h as int), INSET as int),
{
    let centered: u64 = INSET as u64 + minus(panel_h, group_h) / 2;
    let lowest: u64 = max_of(minus(INSET as u64 + panel_h, group_h), INSET as u64);
    let moved: i64 = centered as i64 + dy as i64;
    if moved < INSET as i64 {
        INSET as u64
    } else {
        min_of(moved as u64, lowest)
    }
}

/// The top of a button of diameter `d` in a row of height `row` from `top` on.
fn centred(top: u64, row: u64, d: u64) -> (r: u32)
    requires
        d <= row,
        top + row <= u32::MAX,
    ensures
        r == top + (row - d) / 2,
{
    (top + (row - d) / 2) as u32
}

/// The left edges of buttons of the diameters `d` in a column.
fn lefts(x: u64, w: u64, d: &[u64; 5]) -> (r: [u64; 5])
    requires
        x + w <= u32::MAX,
        forall|i: int| 0 <= i < 5 ==> #[trigger] d@[i] <= w,
    ensures
        forall|i: int|
            0 <= i < 5 ==> #[trigger] r@[i] == least(
                btn_start(x as int, |j: int| d@[j] as int, i),
                less(x + w, d@[i] as int),
            ),
        forall|i: int| 0 <= i < 5 ==> #[trigger] r@[i] + d@[i] <= x + w,
{
    let ghost f = |j: int| d@[j] as int;
    proof {
        lemma_btn_starts(x as int, f);
    }
    let right: u64 = x + w;
    let s1: u64 = x + d[0] + BTN_GAP as u64;
    let s2: u64 = s1 + d[1] + BTN_GAP as u64;
    let s3: u64 = s2 + d[2] + BTN_GAP as u64;
    let s4: u64 = s3 + d[3] + BTN_GAP as u64;
    let r: [u64; 5] = [
        min_of(x, minus(right, d[0])),
        min_of(s1, minus(right, d[1])),
        min_of(s2, minus(right, d[2])),
        min_of(s3, minus(right, d[3])),
        min_of(s4, minus(right, d[4])),
    ];
    assert(r@[0] == least(btn_start(x as int, f, 0), less(x + w, d@[0] as int)));
    assert(r@[1] == least(btn_start(x as int, f, 1), less(x + w, d@[1] as int)));
    assert(r@[2] == least(btn_start(x as int, f, 2), less(x + w, d@[2] as int)));
    assert(r@[3] == least(btn_start(x as int, f, 3), less(x + w, d@[3] as int)));
    assert(r@[4] == least(btn_start(x as int, f, 4), less(x + w, d@[4] as int)));
    r
}

proof fn lemma_btn_start_agrees(x: int, d: spec_fn(int) -> int, e: spec_fn(int) -> int, i: int)
    requires
        forall|j: int| 0 <= j < i ==> #[trigger] d(j) == e(j),
    ensures
        btn_start(x, d, i) == btn_start(x, e, i),
    decreases i,
{
    if i > 0 {
        lemma_btn_start_agrees(x, d, e, i - 1);
        assert(d(i - 1) == e(i - 1));
    }
}

/// The parts of the layout make up the whole.
proof fn lemma_assembled(l: NpLayout, n: NpIn, v: Heights, c: Widths, m: int, top: int)
    requires
        v.is_of(n),
        c.is_of(n),
        rect_is(
            l.panel,
            n.w - n.margin - c.panel_w,
            INSET as int,
            c.panel_w as int,
            v.panel_h as int,
        ),
        rect_is(
            l.art,
            n.w - n.margin - c.panel_w + PAD,
            INSET + PAD,
            c.art_side as int,
            c.art_side as int,
        ),
        l.col2_x == n.w - n.margin - c.panel_w + PAD + c.art_side + GAP,
        l.col2_w == c.col2_w,
        l.row1_y == INSET + PAD,
        l.row1_h == least((v.content_h / 2 + 2) as int, v.content_h as int),
        l.row2_y == INSET + PAD + l.row1_h,
        l.row2_h == v.content_h - l.row1_h,
        forall|i: int| 0 <= i < 5 ==> #[trigger] l.btn_d@[i] == c.d@[i],
        forall|i: int|
            0 <= i < 5 ==> #[trigger] l.btn_xs@[i] == least(
                btn_start(l.prog.x as int, |j: int| c.d@[j] as int, i),
                less(l.prog.x + c.col3_w, c.d@[i] as int),
            ),
        m == most_of_five(
            c.d@[0] as int,
            c.d@[1] as int,
            c.d@[2] as int,
            c.d@[3] as int,
            c.d@[4] as int,
        ),
        top == group_top_of(v.panel_h as int, m + v.ctrl_gap + v.prog_h, n.t.ctrl_dy as int),
        forall|i: int| 0 <= i < 5 ==> #[trigger] l.btn_y@[i] == top + (m - c.d@[i]) / 2,
        rect_is(
            l.prog,
            l.col2_x + c.col2_w + GAP,
            top + m + v.ctrl_gap,
            less(l.btn_xs@[4] + c.d@[4], l.prog.x as int),
            v.prog_h as int,
        ),
    ensures
        laid_out(l, n),
{
    reveal(laid_out);
    reveal(Heights::is_of);
    reveal(Widths::is_of);
    assert forall|i: int| 0 <= i < 5 implies #[trigger] c.d@[i] == n.btn_d(i) by {}
    let f = |j: int| c.d@[j] as int;
    let g = |j: int| n.btn_d(j);
    assert(n.col3_x() == l.prog.x);
    assert(n.btn_max() == m);
    assert forall|i: int| 0 <= i < 5 implies #[trigger] l.btn_xs@[i] == n.btn_x(i) by {
        assert forall|j: int| 0 <= j < i implies #[trigger] f(j) == g(j) by {
            assert(c.d@[j] == n.btn_d(j));
        }
        lemma_btn_start_agrees(l.prog.x as int, f, g, i);
        assert(c.d@[i] == n.btn_d(i));
    }
}

impl NpLayout {
    /// Lays the panel out in a bar of `w` by `h` pixels.
    pub fn new(w: u32, h: u32, margin: u32, avail: u32, t: &Tuning) -> (l: NpLayout)
        requires
            (NpIn { w: w as int, h: h as int, margin: margin as int, avail: avail as int, t: *t })
                .fits(),
        ensures
            l.is_of(
                (NpIn {
                    w: w as int,
                    h: h as int,
                    margin: margin as int,
                    avail: avail as int,
                    t: *t,
                }),
            ),
    {
        let ghost n = NpIn {
            w: w as int,
            h: h as int,
            margin: margin as int,
            avail: avail as int,
            t: *t,
        };
        proof {
            reveal(roomy);
            reveal(laid_out);
        }
        Self::build(w, h, margin, avail, t, Ghost(n))
    }

    /// Whether the panel can be laid out: what `new` asks for.
    pub fn fits(w: u32, h: u32, margin: u32, avail: u32, t: &Tuning) -> (r: bool)
        ensures
            r == (NpIn {
                w: w as int,
                h: h as int,
                margin: margin as int,
                avail: avail as int,
                t: *t,
            }).fits(),
    {
        let ghost n = NpIn {
            w: w as int,
            h: h as int,
            margin: margin as int,
            avail: avail as int,
            t: *t,
        };
        let v = Heights::new(h, t, Ghost(n));
        proof {
            reveal(Heights::is_of);
        }
        let want = wants(t, v.btn_cap, Ghost(n));
        let want_col3: u64 = want[0] + want[1] + want[2] + want[3] + want[4] + BTN_GAP as u64 * 4;
        if want_col3 > u32::MAX as u64 {
            return false;
        }
        let panel_w: u64 = panel_width(
            avail,
            t.np_w,
            t.text_w,
            v.content_h as u32,
            want_col3 as u32,
        ) as u64;
        assert(panel_w == n.panel_w());
        if panel_w < PAD as u64 * 2 || margin as u64 + panel_w > w as u64 {
            return false;
        }
        let content_w: u64 = panel_w - PAD as u64 * 2;
        let art_side: u64 = min_of(v.content_h, content_w);
        let rest: u64 = minus(content_w, art_side + GAP as u64);
        let col3_w: u64 = min_of(want_col3, minus(rest, GAP as u64));
        let col2_w: u64 = minus(rest, GAP as u64 + col3_w);
        let panel_x: u64 = w as u64 - margin as u64 - panel_w;
        let col3_x: u64 = panel_x + PAD as u64 + art_side + GAP as u64 + col2_w + GAP as u64;
        assert(col3_x == n.col3_x() && col3_w == n.col3_w());
        col3_x + col3_w <= u32::MAX as u64
    }

    #[verifier::spinoff_prover]
    #[verifier::rlimit(60)]
    fn build(w: u32, h: u32, margin: u32, avail: u32, t: &Tuning, Ghost(n): Ghost<NpIn>) -> (l:
        NpLayout)
        requires
            n.w == w,
            n.h == h,
            n.margin == margin,
            n.avail == avail,
            n.t == *t,
            roomy(n),
        ensures
            laid_out(l, n),
    {
        let v = Heights::new(h, t, Ghost(n));
        let c = Widths::new(avail, t, &v, Ghost(n));
        let row1_h: u64 = min_of(v.content_h / 2 + 2, v.content_h);
        let panel_x: u64 = w as u64 - margin as u64 - c.panel_w;
        let col2_x: u64 = panel_x + PAD as u64 + c.art_side + GAP as u64;
        let col3_x: u64 = col2_x + c.col2_w + GAP as u64;
        let x = lefts(col3_x, c.col3_w, &c.d);
        let btn_max: u64 = largest(&c.d);
        let top: u64 = group_top(v.panel_h, btn_max + v.ctrl_gap + v.prog_h, t.ctrl_dy);
        let prog_w: u64 = minus(x[4] + c.d[4], col3_x);
        let prog_y: u64 = top + btn_max + v.ctrl_gap;
        assert(btn_max <= v.btn_cap);
        assert(top + btn_max + v.ctrl_gap + v.prog_h <= INSET + v.panel_h + 1);
        let l = NpLayout {
            panel: Rect { x: panel_x as u32, y: INSET, w: c.panel_w as u32, h: v.panel_h as u32 },
            art: Rect {
                x: (panel_x + PAD as u64) as u32,
                y: INSET + PAD,
                w: c.art_side as u32,
                h: c.art_side as u32,
            },
            col2_x: col2_x as u32,
            col2_w: c.col2_w as u32,
            row1_y: INSET + PAD,
            row1_h: row1_h as u32,
            row2_y: (INSET as u64 + PAD as u64 + row1_h) as u32,
            row2_h: (v.content_h - row1_h) as u32,
            btn_d: [c.d[0] as u32, c.d[1] as u32, c.d[2] as u32, c.d[3] as u32, c.d[4] as u32],
            btn_xs: [x[0] as u32, x[1] as u32, x[2] as u32, x[3] as u32, x[4] as u32],
            btn_y: [
                centred(top, btn_max, c.d[0]),
                centred(top, btn_max, c.d[1]),
                centred(top, btn_max, c.d[2]),
                centred(top, btn_max, c.d[3]),
                centred(top, btn_max, c.d[4]),
            ],
            prog: Rect {
                x: col3_x as u32,
                y: prog_y as u32,
                w: prog_w as u32,
                h: v.prog_h as u32,
            },
        };
        proof {
            lemma_assembled(l, n, v, c, btn_max as int, top as int);
        }
        l
    }

    /// The diameter that the knobs give button `i`.
    fn wanted(t: &Tuning, i: usize, default: u32) -> (r: u64)
        requires
            i < 5,
        ensures
            r == or_int(t.btn@[i as int], or_int(t.btn_d, default as int)),
    {
        match t.btn[i] {
            Some(v) => v as u64,
            None => match t.btn_d {
                Some(v) => v as u64,
                None => default as u64,
            },
        }
    }

    /// The diameter that is left of `d`.
    fn share(d: u64, squeezed: bool, usable: u64, total: u64) -> (r: u64)
        requires
            d <= total,
            0 < total,
            d <= u32::MAX,
            usable <= u32::MAX,
        ensures
            r == if squeezed {
                d * usable / (total as int)
            } else {
                d as int
            },
    {
        if squeezed {
            assert(d * usable <= u32::MAX * u32::MAX) by (nonlinear_arith)
                requires
                    0 <= d <= u32::MAX,
                    0 <= usable <= u32::MAX,
            ;
            d * usable / total
        } else {
            d
        }
    }

    /// The part of the panel in which a touch counts for button `i`: as high as
    /// the panel, and wider than the button by half a gap on either side.
    pub open spec fn slot(self, i: int) -> (int, int, int, int) {
        (
            less(self.btn_xs@[i] as int, (BTN_GAP / 2) as int),
            self.panel.y as int,
            self.btn_d@[i] + BTN_GAP,
            self.panel.h as int,
        )
    }

    pub fn ctrl_slot(&self, i: usize) -> (r: Rect)
        requires
            i < 5,
            self.btn_d@[i as int] + BTN_GAP <= u32::MAX,
        ensures
            rect_is(
                r,
                self.slot(i as int).0,
                self.slot(i as int).1,
                self.slot(i as int).2,
                self.slot(i as int).3,
            ),
    {
        let half: u32 = BTN_GAP / 2;
        let x: u32 = self.btn_xs[i];
        Rect {
            x: if x >= half {
                x - half
            } else {
                0
            },
            y: self.panel.y,
            w: self.btn_d[i] + BTN_GAP,
            h: self.panel.h,
        }
    }
}

} // verus!

verus! {

/// The panel takes no more than the width it may, and its right edge keeps the
/// margin from the end of the bar.
pub proof fn panel_keeps_to_its_place(n: NpIn)
    requires
        n.fits(),
    ensures
        n.panel_w() <= n.avail,
        n.panel_x() + n.panel_w() == n.w - n.margin,
{
}

/// Every button lies above the progress bar, and all of them lie inside the
/// panel's height.
pub proof fn controls_stay_in_the_panels_height(n: NpIn, i: int)
    requires
        n.fits(),
        n.h > INSET * 2,
        0 <= i < 5,
    ensures
        INSET <= n.btn_y(i),
        n.btn_y(i) + n.btn_d(i) + n.ctrl_gap() <= n.prog_y(),
        n.prog_y() + n.prog_h() <= INSET + n.panel_h(),
{
    lemma_btn_bounds(n, 0);
    lemma_btn_bounds(n, 1);
    lemma_btn_bounds(n, 2);
    lemma_btn_bounds(n, 3);
    lemma_btn_bounds(n, 4);
    lemma_group(n);
}

proof fn lemma_group(n: NpIn)
    requires
        n.fits(),
        n.h > INSET * 2,
    ensures
        0 <= n.btn_max() <= n.btn_cap(),
        forall|i: int| 0 <= i < 5 ==> #[trigger] n.btn_d(i) <= n.btn_max(),
        n.group_h() <= n.panel_h(),
        INSET <= n.group_y(),
        n.group_y() + n.group_h() <= INSET + n.panel_h(),
        n.t.ctrl_dy == 0 ==> n.group_y() == INSET + (n.panel_h() - n.group_h()) / 2,
{
    lemma_btn_bounds(n, 0);
    lemma_btn_bounds(n, 1);
    lemma_btn_bounds(n, 2);
    lemma_btn_bounds(n, 3);
    lemma_btn_bounds(n, 4);
}

/// Without a displacement the buttons and the progress bar are centred: the
/// space above the tallest button and the space below the progress bar differ
/// by one pixel at most.
pub proof fn controls_are_centred(n: NpIn)
    requires
        n.fits(),
        n.h > INSET * 2,
        n.t.ctrl_dy == 0,
    ensures
        exists|i: int| 0 <= i < 5 && #[trigger] n.btn_y(i) == n.group_y(),
        forall|i: int| 0 <= i < 5 ==> #[trigger] n.btn_y(i) >= n.group_y(),
        0 <= (INSET + n.panel_h() - (n.prog_y() + n.prog_h())) - (n.group_y() - INSET) <= 1,
{
    lemma_group(n);
    let m = n.btn_max();
    assert(n.btn_d(0) == m || n.btn_d(1) == m || n.btn_d(2) == m || n.btn_d(3) == m || n.btn_d(4)
        == m);
    assert(n.btn_y(0) == n.group_y() || n.btn_y(1) == n.group_y() || n.btn_y(2) == n.group_y()
        || n.btn_y(3) == n.group_y() || n.btn_y(4) == n.group_y());
    assert forall|i: int| 0 <= i < 5 implies #[trigger] n.btn_y(i) >= n.group_y() by {
        assert(n.btn_d(i) <= m);
    }
}

/// The buttons lie in the third column, and this ends where the panel's
/// padding begins, as soon as the gaps beside the text column have room.
pub proof fn buttons_stay_in_their_column(n: NpIn, i: int)
    requires
        n.fits(),
        n.h >= 0,
        0 <= i < 5,
        n.rest() >= GAP,
    ensures
        n.col3_x() <= n.btn_x(i),
        n.btn_x(i) + n.btn_d(i) <= n.col3_x() + n.col3_w(),
        n.col3_x() + n.col3_w() + PAD == n.panel_x() + n.panel_w(),
        n.col3_x() + n.prog_w() + PAD <= n.panel_x() + n.panel_w(),
{
    lemma_column(n, i);
    lemma_column(n, 4);
    assert(n.content_w() >= n.art_side() + GAP + GAP);
}

proof fn lemma_column(n: NpIn, i: int)
    requires
        n.fits(),
        n.h >= 0,
        0 <= i < 5,
    ensures
        n.col3_x() <= n.btn_x(i),
        n.btn_x(i) + n.btn_d(i) <= n.col3_x() + n.col3_w(),
{
    lemma_btn_bounds(n, 0);
    lemma_btn_bounds(n, 1);
    lemma_btn_bounds(n, 2);
    lemma_btn_bounds(n, 3);
    lemma_btn_bounds(n, 4);
    lemma_btn_starts(n.col3_x(), |j: int| n.btn_d(j));
}

/// The progress bar begins at the left edge of the first button and ends at
/// the right edge of the last one.
pub proof fn progress_bar_spans_the_buttons(n: NpIn)
    requires
        n.fits(),
        n.h >= 0,
    ensures
        n.col3_x() == n.btn_x(0),
        n.col3_x() + n.prog_w() == n.btn_x(4) + n.btn_d(4),
{
    lemma_column(n, 0);
    lemma_column(n, 4);
    lemma_btn_starts(n.col3_x(), |j: int| n.btn_d(j));
}

/// A column that has room for the gaps keeps them: each button starts one gap
/// behind the one before, so that the touch areas meet without overlapping.
pub proof fn buttons_keep_their_gaps(n: NpIn, i: int)
    requires
        n.fits(),
        n.h >= 0,
        n.col3_w() >= BTN_GAP * 4,
        0 <= i < 4,
    ensures
        n.btn_x(i + 1) == n.btn_x(i) + n.btn_d(i) + BTN_GAP,
{
    lemma_btn_bounds(n, 0);
    lemma_btn_bounds(n, 1);
    lemma_btn_bounds(n, 2);
    lemma_btn_bounds(n, 3);
    lemma_btn_bounds(n, 4);
    lemma_btn_starts(n.col3_x(), |j: int| n.btn_d(j));
    lemma_row_fits(n);
}

proof fn lemma_row_fits(n: NpIn)
    requires
        n.fits(),
        n.h >= 0,
        n.col3_w() >= BTN_GAP * 4,
    ensures
        n.btn_d(0) + n.btn_d(1) + n.btn_d(2) + n.btn_d(3) + n.btn_d(4) + BTN_GAP * 4
            <= n.col3_w(),
{
    lemma_btn_bounds(n, 0);
    lemma_btn_bounds(n, 1);
    lemma_btn_bounds(n, 2);
    lemma_btn_bounds(n, 3);
    lemma_btn_bounds(n, 4);
    if n.squeezed() {
        let u = less(n.col3_w(), BTN_GAP * 4);
        let t = most(n.want_sum(), 1);
        lemma_shares(n.want(0), n.want(1), n.want(2), n.want(3), n.want(4), u, t);
    }
}

proof fn lemma_shares(a: int, b: int, c: int, d: int, e: int, u: int, t: int)
    requires
        0 <= a,
        0 <= b,
        0 <= c,
        0 <= d,
        0 <= e,
        a + b + c + d + e <= t,
        0 < t,
        0 <= u,
    ensures
        a * u / t + b * u / t + c * u / t + d * u / t + e * u / t <= u,
{
    lemma_floor(a * u, t);
    lemma_floor(b * u, t);
    lemma_floor(c * u, t);
    lemma_floor(d * u, t);
    lemma_floor(e * u, t);
    let q = a * u / t + b * u / t + c * u / t + d * u / t + e * u / t;
    assert(q * t == (a * u / t) * t + (b * u / t) * t + (c * u / t) * t + (d * u / t) * t + (e * u
        / t) * t) by (nonlinear_arith)
        requires
            q == a * u / t + b * u / t + c * u / t + d * u / t + e * u / t,
    ;
    assert(a * u + b * u + c * u + d * u + e * u == (a + b + c + d + e) * u) by (nonlinear_arith);
    assert((a + b + c + d + e) * u <= t * u) by (nonlinear_arith)
        requires
            a + b + c + d + e <= t,
            0 <= u,
    ;
    assert(q <= u) by (nonlinear_arith)
        requires
            q * t <= t * u,
            0 < t,
    ;
}

proof fn lemma_floor(x: int, t: int)
    requires
        0 < t,
    ensures
        (x / t) * t <= x,
{
    assert((x / t) * t <= x) by (nonlinear_arith)
        requires
            0 < t,
    ;
}

/// Where the panel need not give way, the text column is exactly as wide as
/// the knob says.
pub proof fn text_width_is_met(n: NpIn, text_w: u32)
    requires
        n.fits(),
        n.h >= 0,
        n.t.text_w == Some(text_w),
        PAD * 2 + n.content_h() + GAP + text_w + GAP + n.want_col3() <= n.avail,
    ensures
        n.col2_w() == text_w,
        n.col3_w() == n.want_col3(),
{
    lemma_btn_bounds(n, 0);
    lemma_btn_bounds(n, 1);
    lemma_btn_bounds(n, 2);
    lemma_btn_bounds(n, 3);
    lemma_btn_bounds(n, 4);
}

/// A button that asks for no more than another is drawn no larger.
pub proof fn buttons_keep_their_order(n: NpIn, i: int, j: int)
    requires
        0 <= i < 5,
        0 <= j < 5,
        n.fits(),
        n.h >= 0,
        n.want(i) <= n.want(j),
    ensures
        n.btn_d(i) <= n.btn_d(j),
{
    let u = less(n.col3_w(), BTN_GAP * 4);
    let t = most(n.want_sum(), 1);
    lemma_scaled(n.want(i), n.want(j), u, t);
}

proof fn lemma_scaled(a: int, b: int, u: int, t: int)
    requires
        a <= b,
        0 <= u,
        0 < t,
    ensures
        a * u / t <= b * u / t,
{
    assert(a * u <= b * u) by (nonlinear_arith)
        requires
            a <= b,
            0 <= u,
    ;
    vstd::arithmetic::div_mod::lemma_div_is_ordered(a * u, b * u, t);
}

proof fn lemma_btn_ends(n: NpIn, i: int)
    requires
        n.fits(),
        0 <= n.h <= u32::MAX,
        0 <= i < 5,
    ensures
        n.btn_y(i) + n.btn_d(i) <= u32::MAX,
{
    lemma_btn_bounds(n, 0);
    lemma_btn_bounds(n, 1);
    lemma_btn_bounds(n, 2);
    lemma_btn_bounds(n, 3);
    lemma_btn_bounds(n, 4);
    if n.h > INSET * 2 {
        lemma_group(n);
        assert(n.btn_y(i) + n.btn_d(i) <= n.group_y() + n.group_h());
    } else {
        assert(n.btn_max() == 0);
        assert(n.group_y() == INSET);
    }
}

/// The buttons and the art end where a `u32` can say it.
pub(crate) proof fn lemma_ends(n: NpIn)
    requires
        n.fits(),
        0 <= n.h <= u32::MAX,
        n.w <= u32::MAX,
        0 <= n.margin,
    ensures
        n.panel_x() + n.panel_w() <= u32::MAX,
        INSET + n.panel_h() <= u32::MAX,
        n.panel_x() + PAD + n.art_side() <= u32::MAX,
        INSET + PAD + n.art_side() <= u32::MAX,
        forall|i: int| 0 <= i < 5 ==> #[trigger] n.btn_x(i) + n.btn_d(i) <= u32::MAX,
        forall|i: int| 0 <= i < 5 ==> #[trigger] n.btn_y(i) + n.btn_d(i) <= u32::MAX,
{
    assert forall|i: int| 0 <= i < 5 implies #[trigger] n.btn_x(i) + n.btn_d(i) <= u32::MAX by {
        lemma_column(n, i);
    }
    assert forall|i: int| 0 <= i < 5 implies #[trigger] n.btn_y(i) + n.btn_d(i) <= u32::MAX by {
        lemma_btn_ends(n, i);
    }
}

/// Buttons lie right of the panel's padding and the gap behind the art.
pub(crate) proof fn lemma_lefts(n: NpIn)
    requires
        n.fits(),
        n.h >= 0,
    ensures
        forall|i: int| 0 <= i < 5 ==> n.panel_x() + PAD + GAP <= #[trigger] n.btn_x(i),
        forall|i: int| 0 <= i < 5 ==> 0 <= #[trigger] n.btn_d(i),
{
    assert forall|i: int| 0 <= i < 5 implies n.panel_x() + PAD + GAP <= #[trigger] n.btn_x(i) by {
        lemma_column(n, i);
    }
    assert forall|i: int| 0 <= i < 5 implies 0 <= #[trigger] n.btn_d(i) by {
        lemma_btn_bounds(n, i);
    }
}

/// Buttons lie one gap apart or more.
pub(crate) proof fn lemma_rights(n: NpIn)
    requires
        n.fits(),
        n.h >= 0,
        n.col3_w() >= BTN_GAP * 4,
    ensures
        forall|i: int, j: int|
            0 <= i < j < 5 ==> #[trigger] n.btn_x(i) + n.btn_d(i) + BTN_GAP <= #[trigger] n.btn_x(
                j,
            ),
{
    buttons_keep_their_gaps(n, 0);
    buttons_keep_their_gaps(n, 1);
    buttons_keep_their_gaps(n, 2);
    buttons_keep_their_gaps(n, 3);
    lemma_lefts(n);
}

/// The two lines of text lie below each other without overlapping, the first a
/// little higher than the second, and fill the height of the contents; where the
/// panel is high enough they lie inside it, eight pixels from its edges.
pub proof fn lines_of_text_lie_below_each_other(l: NpLayout, n: NpIn)
    requires
        n.fits(),
        n.h >= 0,
        l.is_of(n),
    ensures
        l.row2_y == l.row1_y + l.row1_h,
        l.row1_y == l.panel.y + 8,
        l.panel.h >= 9 ==> l.row2_y + l.row2_h <= l.panel.y + l.panel.h,
        l.panel.h >= 17 ==> l.row2_y + l.row2_h + 8 == l.panel.y + l.panel.h,
        l.panel.h >= 20 ==> 3 <= l.row1_h - l.row2_h <= 4,
        l.row1_h > 0,
{
}

/// From left to right there are the art, the text, and the buttons above the
/// progress bar, twelve pixels apart and eight from the edges of the panel.
pub proof fn columns_lie_beside_each_other(l: NpLayout, n: NpIn)
    requires
        n.fits(),
        n.h >= 0,
        l.is_of(n),
    ensures
        l.art.x == l.panel.x + 8,
        l.art.y == l.panel.y + 8,
        l.art.w == l.art.h,
        l.art.x + l.art.w + 8 <= l.panel.x + l.panel.w,
        l.panel.h >= 17 ==> l.art.y + l.art.h + 8 <= l.panel.y + l.panel.h,
        l.panel.h >= 17 && l.panel.w >= l.panel.h ==> l.art.h + 16 == l.panel.h,
        l.col2_x == l.art.x + l.art.w + 12,
        l.col2_x + l.col2_w + 12 == l.btn_xs@[0],
        l.prog.x == l.btn_xs@[0],
        l.prog.x + l.prog.w == l.btn_xs@[4] + l.btn_d@[4],
        l.panel.w >= 40 + l.art.w ==> l.prog.x + l.prog.w + 8 <= l.panel.x + l.panel.w,
{
    progress_bar_spans_the_buttons(n);
    assert(l.btn_xs@[0] == n.btn_x(0) && l.btn_xs@[4] == n.btn_x(4) && l.btn_d@[4] == n.btn_d(4));
    if l.panel.w >= 40 + l.art.w {
        assert(n.rest() >= GAP);
        buttons_stay_in_their_column(n, 4);
    }
}

/// The panel lies at the right end of the bar, inside the margin, and four pixels
/// from its upper and lower edge. Where no width is asked of the text, it is as
/// wide as the knob says, or as there is room.
pub proof fn the_panel_lies_at_the_right_end(l: NpLayout, n: NpIn)
    requires
        n.fits(),
        n.h >= 8,
        l.is_of(n),
    ensures
        l.panel.x + l.panel.w + n.margin == n.w,
        l.panel.y == 4,
        l.panel.y + l.panel.h + 4 == n.h,
        l.panel.w <= n.avail,
        n.t.text_w is None && n.t.np_w <= n.avail ==> l.panel.w == n.t.np_w,
        n.t.text_w is None && n.t.np_w > n.avail ==> l.panel.w == n.avail,
{
}

/// The buttons lie on one line, each in the middle of it to within a pixel, and
/// the progress bar lies below them all, inside the panel.
pub proof fn buttons_lie_on_one_line(l: NpLayout, n: NpIn, i: int, j: int)
    requires
        n.fits(),
        n.h > 8,
        l.is_of(n),
        0 <= i < 5,
        0 <= j < 5,
    ensures
        -1 <= (2 * l.btn_y@[i] + l.btn_d@[i]) - (2 * l.btn_y@[j] + l.btn_d@[j]) <= 1,
        l.panel.y <= l.btn_y@[i],
        l.btn_y@[i] + l.btn_d@[i] <= l.prog.y,
        l.prog.y + l.prog.h <= l.panel.y + l.panel.h,
        l.prog.h >= 1,
        n.t.prog_h is None && l.panel.h >= 24 ==> l.prog.h == 4,
        n.t.prog_h matches Some(p) ==> 1 <= p && 2 * p + 17 <= l.panel.h ==> l.prog.h == p,
{
    controls_stay_in_the_panels_height(n, i);
    controls_stay_in_the_panels_height(n, j);
    lemma_group(n);
    assert(l.btn_y@[i] == n.btn_y(i) && l.btn_y@[j] == n.btn_y(j));
    assert(l.btn_d@[i] == n.btn_d(i) && l.btn_d@[j] == n.btn_d(j));
}

/// Where the column and the panel have room for what is asked, each button has
/// the diameter that its own knob gives, or the common one, or else its own.
pub proof fn buttons_have_the_size_they_ask_for(l: NpLayout, n: NpIn, i: int)
    requires
        n.fits(),
        n.h >= 0,
        l.is_of(n),
        0 <= i < 5,
        n.col3_w() >= n.want_col3(),
    ensures
        n.t.btn@[i] matches Some(d) ==> d <= n.btn_cap() ==> l.btn_d@[i] == d,
        n.t.btn@[i] is None ==> (n.t.btn_d matches Some(d) ==> d <= n.btn_cap() ==> l.btn_d@[i]
            == d),
        n.t.btn@[i] is None && n.t.btn_d is None && 30 <= n.btn_cap() ==> l.btn_d@[i] == (if i
            == 2 {
            30int
        } else if i == 0 || i == 4 {
            20
        } else {
            16
        }),
        l.btn_d@[i] <= n.btn_cap(),
{
    assert(l.btn_d@[i] == n.btn_d(i));
}

/// The lesser of two numbers is one of them and exceeds neither; so is the greater,
/// and it falls short of neither; a difference is never negative; and what is
/// moved into a range lies there, or was there.
pub proof fn bounds_are_bounds(a: int, b: int, v: int)
    ensures
        least(a, b) <= a && least(a, b) <= b && (least(a, b) == a || least(a, b) == b),
        most(a, b) >= a && most(a, b) >= b && (most(a, b) == a || most(a, b) == b),
        a >= b ==> less(a, b) + b == a,
        a <= b ==> less(a, b) == 0,
        a <= b ==> a <= clamped(v, a, b) <= b,
        a <= v <= b ==> clamped(v, a, b) == v,
        v < a <= b ==> clamped(v, a, b) == a,
        a <= b < v ==> clamped(v, a, b) == b,
{
}

/// A displacement moves the buttons and the progress bar together, down if it is
/// positive and up if it is negative, by as many pixels as asked for unless they
/// would leave the panel.
pub proof fn a_displacement_moves_the_controls(n: NpIn, m: NpIn)
    requires
        n.fits(),
        m.fits(),
        n.h > 8,
        n.t.ctrl_dy == 0,
        m.w == n.w,
        m.h == n.h,
        m.margin == n.margin,
        m.avail == n.avail,
        m.t == (Tuning { ctrl_dy: m.t.ctrl_dy, ..n.t }),
    ensures
        ({
            let dy = m.t.ctrl_dy as int;
            let moved = m.prog_y() - n.prog_y();
            &&& dy >= 0 ==> 0 <= moved <= dy
            &&& dy <= 0 ==> dy <= moved <= 0
            &&& moved == m.btn_y(0) - n.btn_y(0)
            &&& 4 <= n.group_y() + dy && n.group_y() + dy + n.group_h() <= 4 + n.panel_h()
                ==> moved == dy
        }),
{
    lemma_group(n);
    lemma_group(m);
    assert(forall|i: int| #[trigger] m.want(i) == n.want(i));
    assert(m.want_sum() == n.want_sum());
    assert(m.panel_w() == n.panel_w());
    assert(m.col3_w() == n.col3_w());
    assert(m.btn_d(0) == n.btn_d(0) && m.btn_d(1) == n.btn_d(1) && m.btn_d(2) == n.btn_d(2)
        && m.btn_d(3) == n.btn_d(3) && m.btn_d(4) == n.btn_d(4));
    assert(m.group_h() == n.group_h());
}

/// Where the column is too narrow, every button gets the same share of what it
/// asks for, to within a pixel.
pub proof fn narrow_columns_are_shared_fairly(n: NpIn, i: int)
    requires
        n.fits(),
        n.h >= 0,
        0 <= i < 5,
        n.col3_w() < n.want_col3(),
        n.col3_w() >= 40,
        n.want_sum() > 0,
    ensures
        n.btn_d(i) * n.want_sum() <= n.want(i) * (n.col3_w() - 40) < (n.btn_d(i) + 1)
            * n.want_sum(),
        n.want_col3() == n.want(0) + n.want(1) + n.want(2) + n.want(3) + n.want(4) + 40,
{
    let a = n.want(i) * (n.col3_w() - 40);
    let t = n.want_sum();
    assert(a / t * t <= a < (a / t + 1) * t) by (nonlinear_arith)
        requires
            t > 0,
    ;
}

/// The progress bar lies as far below the tallest button as the knob says, unless
/// the panel is too low.
pub proof fn the_gap_above_the_progress_bar(n: NpIn)
    requires
        n.fits(),
        n.h > 8,
        n.t.ctrl_gap <= n.panel_h() - n.prog_h(),
    ensures
        forall|i: int|
            0 <= i < 5 ==> (#[trigger] n.btn_y(i)) + n.btn_d(i) + n.t.ctrl_gap <= n.prog_y(),
        exists|i: int|
            0 <= i < 5 && (#[trigger] n.btn_y(i)) + n.btn_d(i) + n.t.ctrl_gap == n.prog_y(),
{
    lemma_group(n);
    assert(n.ctrl_gap() == n.t.ctrl_gap);
    assert forall|i: int| 0 <= i < 5 implies (#[trigger] n.btn_y(i)) + n.btn_d(i) + n.t.ctrl_gap
        <= n.prog_y() by {
        assert(n.btn_d(i) <= n.btn_max());
    }
    let m = n.btn_max();
    assert(n.btn_d(0) == m || n.btn_d(1) == m || n.btn_d(2) == m || n.btn_d(3) == m || n.btn_d(4)
        == m);
    assert(n.btn_y(0) + n.btn_d(0) + n.t.ctrl_gap == n.prog_y() || n.btn_y(1) + n.btn_d(1)
        + n.t.ctrl_gap == n.prog_y() || n.btn_y(2) + n.btn_d(2) + n.t.ctrl_gap == n.prog_y()
        || n.btn_y(3) + n.btn_d(3) + n.t.ctrl_gap == n.prog_y() || n.btn_y(4) + n.btn_d(4)
        + n.t.ctrl_gap == n.prog_y());
}

/// A button is no larger than the panel's height leaves beside the progress bar
/// and the gap above it.
pub proof fn a_button_leaves_room_for_the_progress_bar(n: NpIn)
    requires
        n.fits(),
        n.h > 8,
    ensures
        n.btn_cap() + n.ctrl_gap() + n.prog_h() == n.h - 8,
        n.t.ctrl_gap + n.prog_h() <= n.h - 8 ==> n.ctrl_gap() == n.t.ctrl_gap,
        n.t.ctrl_gap + n.prog_h() > n.h - 8 ==> n.btn_cap() == 0,
{
}

} // verus!
