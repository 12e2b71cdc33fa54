//! The picture of an assistant: three kinds of pixels, drawn at any size and
//! with any body colour.

use crate::picture;
use crate::picture::decode;
use vstd::prelude::*;

verus! {

/// Background.
pub const WHITE: u8 = 0;

/// Outline.
pub const BLACK: u8 = 1;

/// The part that takes the body colour.
pub const BODY: u8 = 2;

/// Why there is no sprite.
#[derive(Debug, Clone, Copy, PartialEq, Eq, Structural)]
pub enum SpriteError {
    /// The bytes hold no picture.
    Decode,
}

/// A picture, each pixel of it sorted into one of three classes.
pub struct Sprite {
    pub w: u32,
    pub h: u32,
    /// The classes of the pixels, row by row.
    pub class: Vec<u8>,
    /// The body colour of the picture itself, blue first.
    pub body: [u8; 3],
}

/// The class of a pixel: background if it is clear or light, outline if it is
/// dark, body else.
pub open spec fn class_of(r: u8, g: u8, b: u8, a: u8) -> u8 {
    if a < 128 || (r >= 200 && g >= 200 && b >= 200) {
        WHITE
    } else if r <= 60 && g <= 60 && b <= 60 {
        BLACK
    } else {
        BODY
    }
}

/// The class of pixel `i` of a picture.
pub open spec fn class_at(px: Seq<u8>, i: int) -> u8 {
    class_of(px[i * 4], px[i * 4 + 1], px[i * 4 + 2], px[i * 4 + 3])
}

/// The body colour of the first `n` pixels of a picture: that of the first body
/// pixel, or orange if there is none.
pub open spec fn body_of(px: Seq<u8>, n: int) -> Seq<u8>
    decreases n,
{
    if n <= 0 {
        seq![80u8, 108u8, 217u8]
    } else if class_at(px, n - 1) == BODY && !has_body(px, n - 1) {
        seq![px[(n - 1) * 4 + 2], px[(n - 1) * 4 + 1], px[(n - 1) * 4]]
    } else {
        body_of(px, n - 1)
    }
}

/// Whether one of the first `n` pixels is a body pixel.
pub open spec fn has_body(px: Seq<u8>, n: int) -> bool {
    exists|i: int| 0 <= i < n && #[trigger] class_at(px, i) == BODY
}

impl Sprite {
    /// There is a class for each pixel.
    pub open spec fn wf(self) -> bool {
        self.class@.len() == self.w * self.h
    }

    /// The sprite of a picture.
    pub open spec fn is_of(self, w: u32, h: u32, px: Seq<u8>) -> bool {
        &&& self.w == w
        &&& self.h == h
        &&& self.class@.len() == w * h
        &&& forall|i: int| 0 <= i < w * h ==> #[trigger] self.class@[i] == class_at(px, i)
        &&& self.body@ == body_of(px, w * h)
    }
}

/// Sorts the pixels of a picture of `w` by `h` pixels, four bytes each.
pub fn classify(w: u32, h: u32, px: &Vec<u8>) -> (r: Sprite)
    requires
        px@.len() == w * h * 4,
    ensures
        r.is_of(w, h, px@),
        r.wf(),
{
    let n: usize = px.len() / 4;
    assert(n == w * h);
    let mut class: Vec<u8> = Vec::new();
    let mut body: [u8; 3] = [80, 108, 217];
    let mut found = false;
    assert(body@ =~= body_of(px@, 0));
    for i in 0..n
        invariant
            px@.len() == n * 4 <= usize::MAX,
            class@.len() == i,
            forall|j: int| 0 <= j < i ==> #[trigger] class@[j] == class_at(px@, j),
            body@ == body_of(px@, i as int),
            found == has_body(px@, i as int),
    {
        let (r, g, b, a) = (px[i * 4], px[i * 4 + 1], px[i * 4 + 2], px[i * 4 + 3]);
        let c: u8 = if a < 128 || (r >= 200 && g >= 200 && b >= 200) {
            WHITE
        } else if r <= 60 && g <= 60 && b <= 60 {
            BLACK
        } else {
            BODY
        };
        assert(c == class_at(px@, i as int));
        if c == BODY && !found {
            body = [b, g, r];
            assert(body@ =~= seq![b, g, r]);
        }
        proof {
            if c == BODY {
                assert(class_at(px@, i as int) == BODY);
            }
            if has_body(px@, i + 1) && c != BODY {
                let k = choose|k: int| 0 <= k < i + 1 && #[trigger] class_at(px@, k) == BODY;
                assert(k < i);
            }
        }
        if c == BODY {
            found = true;
        }
        class.push(c);
    }
    Sprite { w, h, class, body }
}

/// Reads the sprite from the bytes of a picture file.
pub fn load(data: &[u8]) -> (r: Result<Sprite, SpriteError>)
    ensures
        match picture::decoded(data@) {
            Some(p) => r is Ok && r->Ok_0.is_of(p.0, p.1, p.2) && r->Ok_0.wf(),
            None => r == Err::<Sprite, SpriteError>(SpriteError::Decode),
        },
{
    match decode(data) {
        Ok((w, h, px)) => Ok(classify(w, h, &px)),
        Err(_) => Err(SpriteError::Decode),
    }
}

/// The first of the `n` source pixels that output pixel `o` of `out` covers.
pub open spec fn span_start(o: int, n: int, out: int) -> int {
    o * n / out
}

/// The end of the source pixels that output pixel `o` of `out` covers.
pub open spec fn span_end(o: int, n: int, out: int) -> int {
    let up = ((o + 1) * n + out - 1) / out;
    let end = if up > span_start(o, n, out) {
        up
    } else {
        span_start(o, n, out) + 1
    };
    if end < n {
        end
    } else {
        n
    }
}

impl Sprite {
    /// The class of the pixel (`x`, `y`).
    pub open spec fn at(self, x: int, y: int) -> u8 {
        self.class@[y * self.w + x]
    }

    /// How many pixels from `x0` to `x1` of row `y` have class `c`.
    pub open spec fn in_row(self, x0: int, x1: int, y: int, c: u8) -> int
        decreases x1 - x0,
    {
        if x1 <= x0 {
            0
        } else {
            self.in_row(x0, x1 - 1, y, c) + if self.at(x1 - 1, y) == c {
                1int
            } else {
                0int
            }
        }
    }

    /// How many pixels of the rectangle have class `c`.
    pub open spec fn in_rect(self, x0: int, x1: int, y0: int, y1: int, c: u8) -> int
        decreases y1 - y0,
    {
        if y1 <= y0 {
            0
        } else {
            self.in_rect(x0, x1, y0, y1 - 1, c) + self.in_row(x0, x1, y1 - 1, c)
        }
    }

    /// How many of the source pixels under an output pixel have class `c`.
    pub open spec fn under(self, ox: int, oy: int, out_w: int, out_h: int, c: u8) -> int {
        self.in_rect(
            span_start(ox, self.w as int, out_w),
            span_end(ox, self.w as int, out_w),
            span_start(oy, self.h as int, out_h),
            span_end(oy, self.h as int, out_h),
            c,
        )
    }

    /// How many source pixels lie under an output pixel.
    pub open spec fn area(self, ox: int, oy: int, out_w: int, out_h: int) -> int {
        (span_end(ox, self.w as int, out_w) - span_start(ox, self.w as int, out_w)) * (span_end(
            oy,
            self.h as int,
            out_h,
        ) - span_start(oy, self.h as int, out_h))
    }

    /// Channel `k` of an output pixel: blue, green, red, opacity. Background
    /// is clear; the rest is as opaque as its share of the area, and its colour
    /// is the mean of black and the body colour.
    pub open spec fn shade(
        self,
        ox: int,
        oy: int,
        out_w: int,
        out_h: int,
        body: Seq<u8>,
        k: int,
    ) -> int {
        let black = self.under(ox, oy, out_w, out_h, BLACK);
        let fill = self.under(ox, oy, out_w, out_h, BODY);
        if black + fill == 0 {
            0
        } else if k == 3 {
            (black + fill) * 255 / self.area(ox, oy, out_w, out_h)
        } else {
            body[k] * fill / (black + fill)
        }
    }
}


proof fn lemma_span(o: int, n: int, out: int)
    requires
        0 <= o < out,
        0 <= n,
    ensures
        0 <= span_start(o, n, out) <= span_end(o, n, out) <= n,
        0 < n ==> span_start(o, n, out) < span_end(o, n, out),
{
    let s = span_start(o, n, out);
    assert(0 <= s && s * out <= o * n) by (nonlinear_arith)
        requires
            s == o * n / out,
            0 <= o < out,
            0 <= n,
    ;
    if n > 0 {
        assert(s < n) by (nonlinear_arith)
            requires
                s * out <= o * n,
                0 <= o < out,
                0 < n,
        ;
    } else {
        assert(s == 0) by (nonlinear_arith)
            requires
                s == o * n / out,
                n == 0,
                0 < out,
        ;
    }
}

/// Every source pixel lies under an output pixel, so nothing of the picture is
/// passed over however small it is drawn.
pub proof fn every_pixel_counts(v: int, n: int, out: int) -> (o: int)
    requires
        0 <= v < n,
        0 < out,
    ensures
        0 <= o < out,
        span_start(o, n, out) <= v < span_end(o, n, out),
{
    let o = v * out / n;
    assert(0 <= o && o * n <= v * out < (o + 1) * n) by (nonlinear_arith)
        requires
            o == v * out / n,
            0 <= v < n,
            0 < out,
    ;
    assert(o < out) by (nonlinear_arith)
        requires
            o * n <= v * out,
            0 <= v < n,
            0 < out,
    ;
    let s = span_start(o, n, out);
    assert(s <= v) by (nonlinear_arith)
        requires
            s == o * n / out,
            o * n <= v * out,
            0 < out,
    ;
    let up = ((o + 1) * n + out - 1) / out;
    assert(v < up) by (nonlinear_arith)
        requires
            up == ((o + 1) * n + out - 1) / out,
            v * out < (o + 1) * n,
            0 < out,
    ;
    o
}

/// The source pixels that output pixel `o` of `out` covers, of `n`.
fn span(o: u32, n: u32, out: u32) -> (r: (u32, u32))
    requires
        o < out,
    ensures
        r.0 == span_start(o as int, n as int, out as int),
        r.1 == span_end(o as int, n as int, out as int),
        r.0 <= r.1 <= n,
        0 < n ==> r.0 < r.1,
{
    proof {
        lemma_span(o as int, n as int, out as int);
    }
    assert(0 <= o * n <= 0xfffffffe_00000001) by (nonlinear_arith)
        requires
            0 <= o <= 0xffffffff,
            0 <= n <= 0xffffffff,
    ;
    assert(0 <= (o + 1) * n <= 0xfffffffe_00000001) by (nonlinear_arith)
        requires
            0 <= o < 0xffffffff,
            0 <= n <= 0xffffffff,
    ;
    let start: u64 = o as u64 * n as u64 / out as u64;
    let up: u64 = ((o as u64 + 1) * n as u64 + out as u64 - 1) / out as u64;
    let end: u64 = if up > start {
        up
    } else {
        start + 1
    };
    let end: u64 = if end < n as u64 {
        end
    } else {
        n as u64
    };
    (start as u32, end as u32)
}

proof fn lemma_in_row(s: Sprite, x0: int, x1: int, y: int)
    requires
        x0 <= x1,
    ensures
        0 <= s.in_row(x0, x1, y, BLACK),
        0 <= s.in_row(x0, x1, y, BODY),
        s.in_row(x0, x1, y, BLACK) + s.in_row(x0, x1, y, BODY) <= x1 - x0,
    decreases x1 - x0,
{
    if x0 < x1 {
        lemma_in_row(s, x0, x1 - 1, y);
    }
}

proof fn lemma_in_rect(s: Sprite, x0: int, x1: int, y0: int, y1: int)
    requires
        x0 <= x1,
        y0 <= y1,
    ensures
        0 <= s.in_rect(x0, x1, y0, y1, BLACK),
        0 <= s.in_rect(x0, x1, y0, y1, BODY),
        s.in_rect(x0, x1, y0, y1, BLACK) + s.in_rect(x0, x1, y0, y1, BODY) <= (x1 - x0) * (y1
            - y0),
    decreases y1 - y0,
{
    if y0 < y1 {
        lemma_in_rect(s, x0, x1, y0, y1 - 1);
        lemma_in_row(s, x0, x1, y1 - 1);
        assert((x1 - x0) * (y1 - y0) == (x1 - x0) * (y1 - 1 - y0) + (x1 - x0)) by (nonlinear_arith);
    } else {
        assert((x1 - x0) * (y1 - y0) == 0) by (nonlinear_arith)
            requires
                y1 == y0,
        ;
    }
}

/// `v` times `part`, over `whole`.
fn portion(v: u8, part: u64, whole: u64) -> (r: u8)
    requires
        part <= whole,
        0 < whole,
    ensures
        r == v * part / (whole as int),
{
    assert(0 <= v * part <= 255 * u64::MAX) by (nonlinear_arith)
        requires
            0 <= v <= 255,
            0 <= part <= u64::MAX,
    ;
    assert(v * part / (whole as int) <= 255) by (nonlinear_arith)
        requires
            0 <= v <= 255,
            0 <= part <= whole,
            0 < whole,
    ;
    (v as u128 * part as u128 / whole as u128) as u8
}

impl Sprite {
    /// Counts the outline pixels and the body pixels of a rectangle.
    fn count(&self, x0: u32, x1: u32, y0: u32, y1: u32) -> (r: (u64, u64))
        requires
            self.wf(),
            x0 <= x1 <= self.w,
            y0 <= y1 <= self.h,
        ensures
            r.0 == self.in_rect(x0 as int, x1 as int, y0 as int, y1 as int, BLACK),
            r.1 == self.in_rect(x0 as int, x1 as int, y0 as int, y1 as int, BODY),
    {
        let mut black: u64 = 0;
        let mut fill: u64 = 0;
        let mut y: u32 = y0;
        while y < y1
            invariant
                self.wf(),
                x0 <= x1 <= self.w,
                y0 <= y <= y1 <= self.h,
                black == self.in_rect(x0 as int, x1 as int, y0 as int, y as int, BLACK),
                fill == self.in_rect(x0 as int, x1 as int, y0 as int, y as int, BODY),
            decreases y1 - y,
        {
            let (b, f) = self.count_row(x0, x1, y);
            proof {
                lemma_in_rect(*self, x0 as int, x1 as int, y0 as int, y + 1);
                assert((x1 - x0) * (y + 1 - y0) <= 0xffffffff * 0xffffffff) by (nonlinear_arith)
                    requires
                        0 <= x1 - x0 <= 0xffffffff,
                        0 <= y + 1 - y0 <= 0xffffffff,
                ;
            }
            black = black + b;
            fill = fill + f;
            y = y + 1;
        }
        (black, fill)
    }

    fn count_row(&self, x0: u32, x1: u32, y: u32) -> (r: (u64, u64))
        requires
            self.wf(),
            x0 <= x1 <= self.w,
            y < self.h,
        ensures
            r.0 == self.in_row(x0 as int, x1 as int, y as int, BLACK),
            r.1 == self.in_row(x0 as int, x1 as int, y as int, BODY),
    {
        let n: usize = self.class.len();
        let mut black: u64 = 0;
        let mut fill: u64 = 0;
        let mut x: u32 = x0;
        while x < x1
            invariant
                self.wf(),
                n == self.class@.len(),
                x0 <= x <= x1 <= self.w,
                y < self.h,
                black + fill <= x - x0,
                black == self.in_row(x0 as int, x as int, y as int, BLACK),
                fill == self.in_row(x0 as int, x as int, y as int, BODY),
            decreases x1 - x,
        {
            assert(0 <= y * self.w && y * self.w + x < self.w * self.h) by (nonlinear_arith)
                requires
                    0 <= y <= self.h - 1,
                    0 <= x < self.w,
            ;
            let c: u8 = self.class[y as usize * self.w as usize + x as usize];
            if c == BLACK {
                black = black + 1;
            } else if c == BODY {
                fill = fill + 1;
            }
            x = x + 1;
        }
        (black, fill)
    }

    /// An output pixel: blue, green, red, opacity.
    fn pixel(&self, ox: u32, oy: u32, out_w: u32, out_h: u32, body: &[u8; 3]) -> (r: [u8; 4])
        requires
            self.wf(),
            ox < out_w,
            oy < out_h,
        ensures
            forall|k: int|
                0 <= k < 4 ==> #[trigger] r@[k] == self.shade(
                    ox as int,
                    oy as int,
                    out_w as int,
                    out_h as int,
                    body@,
                    k,
                ),
    {
        let (x0, x1) = span(ox, self.w, out_w);
        let (y0, y1) = span(oy, self.h, out_h);
        let (black, fill) = self.count(x0, x1, y0, y1);
        proof {
            lemma_in_rect(*self, x0 as int, x1 as int, y0 as int, y1 as int);
        }
        assert(0 <= (x1 - x0) * (y1 - y0) <= 0xffffffff * 0xffffffff) by (nonlinear_arith)
            requires
                0 <= x1 - x0 <= 0xffffffff,
                0 <= y1 - y0 <= 0xffffffff,
        ;
        let total: u64 = (x1 - x0) as u64 * (y1 - y0) as u64;
        let ink: u64 = black + fill;
        if ink == 0 {
            return [0, 0, 0, 0];
        }
        assert(255 * ink == ink * 255);
        [
            portion(body[0], fill, ink),
            portion(body[1], fill, ink),
            portion(body[2], fill, ink),
            portion(255, ink, total),
        ]
    }

    /// Byte `i` of the picture drawn at `out_w` by `out_h` pixels.
    pub open spec fn byte(self, i: int, out_w: int, out_h: int, body: Seq<u8>) -> int {
        self.shade((i / 4) % out_w, (i / 4) / out_w, out_w, out_h, body, i % 4)
    }

    /// Draws the picture at `out_w` by `out_h` pixels, four bytes each: blue,
    /// green, red, opacity.
    pub fn render(&self, out_w: u32, out_h: u32, body: [u8; 3]) -> (r: Vec<u8>)
        requires
            self.wf(),
            out_w * out_h * 4 <= usize::MAX,
        ensures
            r@.len() == out_w * out_h * 4,
            forall|i: int|
                0 <= i < out_w * out_h * 4 ==> #[trigger] r@[i] == self.byte(
                    i,
                    out_w as int,
                    out_h as int,
                    body@,
                ),
    {
        let mut r: Vec<u8> = Vec::new();
        assert(out_w * out_h <= usize::MAX) by (nonlinear_arith)
            requires
                out_w * out_h * 4 <= usize::MAX,
                0 <= out_w * out_h,
        ;
        let n: usize = out_w as usize * out_h as usize;
        for p in 0..n
            invariant
                self.wf(),
                n == out_w * out_h,
                r@.len() == p * 4,
                forall|i: int|
                    0 <= i < p * 4 ==> #[trigger] r@[i] == self.byte(
                        i,
                        out_w as int,
                        out_h as int,
                        body@,
                    ),
        {
            assert(out_w > 0) by (nonlinear_arith)
                requires
                    p < out_w * out_h,
                    0 <= p,
                    0 <= out_w,
            ;
            assert(p / (out_w as usize) < out_h) by (nonlinear_arith)
                requires
                    0 <= p < out_w * out_h,
                    0 < out_w,
            ;
            let ox: u32 = (p % out_w as usize) as u32;
            let oy: u32 = (p / out_w as usize) as u32;
            let c = self.pixel(ox, oy, out_w, out_h, &body);
            let ghost before = r@;
            r.push(c[0]);
            r.push(c[1]);
            r.push(c[2]);
            r.push(c[3]);
            assert forall|i: int| 0 <= i < (p + 1) * 4 implies #[trigger] r@[i] == self.byte(
                i,
                out_w as int,
                out_h as int,
                body@,
            ) by {
                if i < p * 4 {
                    assert(r@[i] == before[i]);
                } else {
                    let k = i - p * 4;
                    assert(r@[i] == c@[k]);
                    assert(i / 4 == p && i % 4 == k);
                }
            }
        }
        r
    }
}

/// A picture without outline and body is drawn clear, at any size.
pub proof fn background_is_clear(
    s: Sprite,
    ox: int,
    oy: int,
    out_w: int,
    out_h: int,
    body: Seq<u8>,
    k: int,
)
    requires
        s.wf(),
        0 <= ox < out_w,
        0 <= oy < out_h,
        forall|i: int| 0 <= i < s.class@.len() ==> #[trigger] s.class@[i] == WHITE,
    ensures
        s.shade(ox, oy, out_w, out_h, body, k) == 0,
{
    lemma_span(ox, s.w as int, out_w);
    lemma_span(oy, s.h as int, out_h);
    let (x0, x1) = (span_start(ox, s.w as int, out_w), span_end(ox, s.w as int, out_w));
    let (y0, y1) = (span_start(oy, s.h as int, out_h), span_end(oy, s.h as int, out_h));
    lemma_uniform(s, x0, x1, y0, y1, WHITE);
}

/// Where all is body, the colour asked for is drawn, fully opaque.
pub proof fn body_takes_its_colour(
    s: Sprite,
    ox: int,
    oy: int,
    out_w: int,
    out_h: int,
    body: Seq<u8>,
    k: int,
)
    requires
        s.wf(),
        s.w > 0,
        s.h > 0,
        0 <= ox < out_w,
        0 <= oy < out_h,
        forall|i: int| 0 <= i < s.class@.len() ==> #[trigger] s.class@[i] == BODY,
        0 <= k < 4,
    ensures
        s.shade(ox, oy, out_w, out_h, body, k) == if k == 3 {
            255
        } else {
            body[k] as int
        },
{
    lemma_span(ox, s.w as int, out_w);
    lemma_span(oy, s.h as int, out_h);
    let (x0, x1) = (span_start(ox, s.w as int, out_w), span_end(ox, s.w as int, out_w));
    let (y0, y1) = (span_start(oy, s.h as int, out_h), span_end(oy, s.h as int, out_h));
    lemma_uniform(s, x0, x1, y0, y1, BODY);
    let a = s.area(ox, oy, out_w, out_h);
    assert(a > 0) by (nonlinear_arith)
        requires
            a == (x1 - x0) * (y1 - y0),
            x0 < x1,
            y0 < y1,
    ;
    let c = body[k];
    assert(a * 255 / a == 255) by (nonlinear_arith)
        requires
            a > 0,
    ;
    assert(c * a / a == c) by (nonlinear_arith)
        requires
            a > 0,
    ;
}

proof fn lemma_uniform(s: Sprite, x0: int, x1: int, y0: int, y1: int, c: u8)
    requires
        s.wf(),
        0 <= x0 <= x1 <= s.w,
        0 <= y0 <= y1 <= s.h,
        forall|i: int| 0 <= i < s.class@.len() ==> #[trigger] s.class@[i] == c,
    ensures
        forall|d: u8|
            #[trigger] s.in_rect(x0, x1, y0, y1, d) == if d == c {
                (x1 - x0) * (y1 - y0)
            } else {
                0
            },
    decreases y1 - y0,
{
    if y0 < y1 {
        lemma_uniform(s, x0, x1, y0, y1 - 1, c);
        lemma_uniform_row(s, x0, x1, y1 - 1, c);
        assert((x1 - x0) * (y1 - y0) == (x1 - x0) * (y1 - 1 - y0) + (x1 - x0)) by (nonlinear_arith);
        assert forall|d: u8|
            #[trigger] s.in_rect(x0, x1, y0, y1, d) == if d == c {
                (x1 - x0) * (y1 - y0)
            } else {
                0
            } by {
            assert(s.in_rect(x0, x1, y0, y1 - 1, d) == if d == c {
                (x1 - x0) * (y1 - 1 - y0)
            } else {
                0
            });
            assert(s.in_row(x0, x1, y1 - 1, d) == if d == c {
                x1 - x0
            } else {
                0
            });
        }
    } else {
        assert((x1 - x0) * (y1 - y0) == 0) by (nonlinear_arith)
            requires
                y1 == y0,
        ;
    }
}

proof fn lemma_uniform_row(s: Sprite, x0: int, x1: int, y: int, c: u8)
    requires
        s.wf(),
        0 <= x0 <= x1 <= s.w,
        0 <= y < s.h,
        forall|i: int| 0 <= i < s.class@.len() ==> #[trigger] s.class@[i] == c,
    ensures
        forall|d: u8|
            #[trigger] s.in_row(x0, x1, y, d) == if d == c {
                x1 - x0
            } else {
                0
            },
    decreases x1 - x0,
{
    if x0 < x1 {
        lemma_uniform_row(s, x0, x1 - 1, y, c);
        assert(0 <= y * s.w && y * s.w + (x1 - 1) < s.w * s.h) by (nonlinear_arith)
            requires
                0 <= y <= s.h - 1,
                0 <= x1 - 1 < s.w,
        ;
        assert(s.at(x1 - 1, y) == c);
        assert forall|d: u8|
            #[trigger] s.in_row(x0, x1, y, d) == if d == c {
                x1 - x0
            } else {
                0
            } by {
            assert(s.in_row(x0, x1 - 1, y, d) == if d == c {
                x1 - 1 - x0
            } else {
                0
            });
        }
    }
}

/// A pixel that is more clear than not, or light in all its channels, is
/// background; of the others one that is dark in all its channels is outline; all
/// else is body. The three differ.
pub proof fn pixels_fall_into_three_classes(r: u8, g: u8, b: u8, a: u8)
    ensures
        a < 128 ==> class_of(r, g, b, a) == WHITE,
        r >= 200 && g >= 200 && b >= 200 ==> class_of(r, g, b, a) == WHITE,
        a >= 128 && r <= 60 && g <= 60 && b <= 60 ==> class_of(r, g, b, a) == BLACK,
        a >= 128 && (60 < r < 200 || 60 < g < 200 || 60 < b < 200) ==> class_of(r, g, b, a)
            == BODY,
        a >= 128 && (r > 60 || g > 60 || b > 60) && (r < 200 || g < 200 || b < 200) ==> class_of(
            r,
            g,
            b,
            a,
        ) == BODY,
        WHITE != BLACK && WHITE != BODY && BLACK != BODY,
{
}

/// The body colour is that of the first body pixel, turned to blue first, and
/// orange where there is no body.
pub proof fn the_first_body_pixel_gives_the_colour(px: Seq<u8>, n: int, i: int)
    requires
        0 <= i <= n,
        i < n ==> class_of(px[i * 4], px[i * 4 + 1], px[i * 4 + 2], px[i * 4 + 3]) == BODY,
        forall|j: int| 0 <= j < i ==> #[trigger] class_at(px, j) != BODY,
    ensures
        i < n ==> body_of(px, n) == seq![px[i * 4 + 2], px[i * 4 + 1], px[i * 4]],
        i == n ==> body_of(px, n) == seq![80u8, 108u8, 217u8],
    decreases n,
{
    if n > 0 {
        if i == n {
            assert(class_at(px, n - 1) != BODY);
            the_first_body_pixel_gives_the_colour(px, n - 1, n - 1);
        } else if i == n - 1 {
            assert(!has_body(px, n - 1));
        } else {
            assert(class_at(px, i) == BODY);
            assert(has_body(px, n - 1));
            the_first_body_pixel_gives_the_colour(px, n - 1, i);
        }
    }
}

/// A picture drawn at its own size is drawn pixel for pixel: output pixel `o`
/// covers source pixel `o` and no other.
pub proof fn at_its_own_size_each_pixel_stands_for_itself(o: int, n: int)
    requires
        0 <= o < n,
    ensures
        span_start(o, n, n) == o,
        span_end(o, n, n) == o + 1,
{
    assert(o * n / n == o) by (nonlinear_arith)
        requires
            n > 0,
    ;
    vstd::arithmetic::div_mod::lemma_fundamental_div_mod_converse(
        (o + 1) * n + n - 1,
        n,
        o + 1,
        n - 1,
    );
}

/// An output pixel covers what lies under it: it begins at or before the place
/// where the pixel begins, less than one source pixel earlier, and ends at or
/// after the place where the pixel ends.
pub proof fn an_output_pixel_covers_what_is_under_it(o: int, n: int, out: int)
    requires
        0 <= o < out,
        0 < n,
    ensures
        span_start(o, n, out) * out <= o * n < (span_start(o, n, out) + 1) * out,
        span_end(o, n, out) * out >= (o + 1) * n || span_end(o, n, out) == n,
        span_end(o, n, out) > span_start(o, n, out),
{
    lemma_span(o, n, out);
    let s = span_start(o, n, out);
    assert(s * out <= o * n < (s + 1) * out) by (nonlinear_arith)
        requires
            s == o * n / out,
            0 < out,
    ;
    let m = (o + 1) * n;
    let up = (m + out - 1) / out;
    assert(up * out >= m) by (nonlinear_arith)
        requires
            up == (m + out - 1) / out,
            0 < out,
    ;
    let e = span_end(o, n, out);
    if e != n && e != up {
        assert(e * out >= up * out) by (nonlinear_arith)
            requires
                e >= up,
                0 < out,
        ;
    }
}

/// Drawn at its own size, a background pixel is clear, an outline pixel is opaque
/// and black, and a body pixel is opaque and has the colour asked for.
pub proof fn at_its_own_size_classes_are_drawn(
    s: Sprite,
    x: int,
    y: int,
    body: Seq<u8>,
    k: int,
)
    requires
        s.wf(),
        0 <= x < s.w,
        0 <= y < s.h,
        0 <= k < 4,
        body.len() == 3,
    ensures
        ({
            let v = s.shade(x, y, s.w as int, s.h as int, body, k);
            let c = s.class@[y * s.w + x];
            &&& c == WHITE ==> v == 0
            &&& c == BLACK && k == 3 ==> v == 255
            &&& c == BLACK && k < 3 ==> v == 0
            &&& c == BODY && k == 3 ==> v == 255
            &&& c == BODY && k < 3 ==> v == body[k]
        }),
{
    let (w, h) = (s.w as int, s.h as int);
    at_its_own_size_each_pixel_stands_for_itself(x, w);
    at_its_own_size_each_pixel_stands_for_itself(y, h);
    reveal_with_fuel(Sprite::in_row, 3);
    reveal_with_fuel(Sprite::in_rect, 3);
    let c = s.class@[y * s.w + x];
    assert(s.at(x, y) == c);
    assert(s.in_row(x, x + 1, y, BLACK) == if c == BLACK {
        1int
    } else {
        0int
    });
    assert(s.in_row(x, x + 1, y, BODY) == if c == BODY {
        1int
    } else {
        0int
    });
    assert(s.under(x, y, w, h, BLACK) == s.in_row(x, x + 1, y, BLACK));
    assert(s.under(x, y, w, h, BODY) == s.in_row(x, x + 1, y, BODY));
    assert(s.area(x, y, w, h) == 1) by (nonlinear_arith)
        requires
            s.area(x, y, w, h) == (x + 1 - x) * (y + 1 - y),
    ;
    assert(1 * 255 / 1 == 255int);
    if k < 3 {
        let b = body[k] as int;
        assert(b * 1 / 1 == b && b * 0 / 1 == 0) by (nonlinear_arith);
    }
}

/// Outline makes a pixel darker and never lighter: no channel exceeds that of the
/// body colour.
pub proof fn outline_only_darkens(
    s: Sprite,
    ox: int,
    oy: int,
    out_w: int,
    out_h: int,
    body: Seq<u8>,
    k: int,
)
    requires
        s.under(ox, oy, out_w, out_h, BLACK) >= 0,
        s.under(ox, oy, out_w, out_h, BODY) >= 0,
        0 <= k < 3,
    ensures
        0 <= s.shade(ox, oy, out_w, out_h, body, k) <= body[k],
{
    let black = s.under(ox, oy, out_w, out_h, BLACK);
    let fill = s.under(ox, oy, out_w, out_h, BODY);
    let c = body[k] as int;
    if black + fill != 0 {
        assert(0 <= c * fill / (black + fill) <= c) by (nonlinear_arith)
            requires
                0 <= c,
                0 <= fill,
                0 <= black,
                black + fill > 0,
        ;
    }
}

/// The bytes of a drawn picture lie row by row, four to a pixel.
pub proof fn drawn_pixels_lie_row_by_row(
    s: Sprite,
    x: int,
    y: int,
    out_w: int,
    out_h: int,
    body: Seq<u8>,
    k: int,
)
    requires
        0 <= x < out_w,
        0 <= y,
        0 <= k < 4,
    ensures
        s.byte((y * out_w + x) * 4 + k, out_w, out_h, body) == s.shade(
            x,
            y,
            out_w,
            out_h,
            body,
            k,
        ),
{
    let q = y * out_w + x;
    vstd::arithmetic::div_mod::lemma_fundamental_div_mod_converse(q, out_w, y, x);
    assert((q * 4 + k) / 4 == q && (q * 4 + k) % 4 == k);
}

/// Opacity is the share of the pixels that are no background, and a colour the
/// body colour's share of those, each rounded down.
pub proof fn shades_are_shares(
    s: Sprite,
    ox: int,
    oy: int,
    out_w: int,
    out_h: int,
    body: Seq<u8>,
    k: int,
)
    requires
        s.under(ox, oy, out_w, out_h, BLACK) >= 0,
        s.under(ox, oy, out_w, out_h, BODY) >= 0,
        s.under(ox, oy, out_w, out_h, BLACK) + s.under(ox, oy, out_w, out_h, BODY) > 0,
        s.area(ox, oy, out_w, out_h) > 0,
        0 <= k < 4,
    ensures
        ({
            let ink = s.under(ox, oy, out_w, out_h, BLACK) + s.under(ox, oy, out_w, out_h, BODY);
            let fill = s.under(ox, oy, out_w, out_h, BODY);
            let area = s.area(ox, oy, out_w, out_h);
            let v = s.shade(ox, oy, out_w, out_h, body, k);
            &&& k == 3 ==> v * area <= 255 * ink < (v + 1) * area
            &&& k < 3 ==> v * ink <= body[k] * fill < (v + 1) * ink
        }),
{
    let ink = s.under(ox, oy, out_w, out_h, BLACK) + s.under(ox, oy, out_w, out_h, BODY);
    let fill = s.under(ox, oy, out_w, out_h, BODY);
    let area = s.area(ox, oy, out_w, out_h);
    if k == 3 {
        let a = ink * 255;
        assert(a / area * area <= a < (a / area + 1) * area) by (nonlinear_arith)
            requires
                area > 0,
        ;
    } else {
        let a = body[k] * fill;
        assert(a / ink * ink <= a < (a / ink + 1) * ink) by (nonlinear_arith)
            requires
                ink > 0,
        ;
    }
}

proof fn lemma_row_splits(s: Sprite, x0: int, x1: int, x2: int, y: int, c: u8)
    requires
        x0 <= x1 <= x2,
    ensures
        s.in_row(x0, x2, y, c) == s.in_row(x0, x1, y, c) + s.in_row(x1, x2, y, c),
    decreases x2 - x1,
{
    if x1 < x2 {
        lemma_row_splits(s, x0, x1, x2 - 1, y, c);
    }
}

/// Pixels are counted one by one: a rectangle has as many of a class as its parts
/// have, whether it is cut across or along, and a single pixel counts for its own
/// class.
pub proof fn pixels_are_counted_one_by_one(
    s: Sprite,
    x0: int,
    x1: int,
    x2: int,
    y0: int,
    y1: int,
    y2: int,
    c: u8,
)
    requires
        x0 <= x1 <= x2,
        y0 <= y1 <= y2,
    ensures
        s.in_rect(x0, x2, y0, y2, c) == s.in_rect(x0, x1, y0, y2, c) + s.in_rect(
            x1,
            x2,
            y0,
            y2,
            c,
        ),
        s.in_rect(x0, x2, y0, y2, c) == s.in_rect(x0, x2, y0, y1, c) + s.in_rect(
            x0,
            x2,
            y1,
            y2,
            c,
        ),
        s.in_rect(x0, x0 + 1, y0, y0 + 1, c) == if s.class@[y0 * s.w + x0] == c {
            1int
        } else {
            0int
        },
    decreases y2 - y0,
{
    reveal_with_fuel(Sprite::in_row, 3);
    reveal_with_fuel(Sprite::in_rect, 3);
    if y0 < y2 {
        lemma_row_splits(s, x0, x1, x2, y2 - 1, c);
        if y1 < y2 {
            pixels_are_counted_one_by_one(s, x0, x1, x2, y0, y1, y2 - 1, c);
        } else {
            pixels_are_counted_one_by_one(s, x0, x1, x2, y0, y2 - 1, y2 - 1, c);
        }
    }
}

} // verus!
