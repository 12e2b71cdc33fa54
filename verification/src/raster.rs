//! Pixels: what is painted over what. A buffer holds four bytes for each pixel,
//! blue, green, red and zero, row by row.

use crate::panel::Rect;
use vstd::prelude::*;

verus! {

/// A square picture of `px` by `px` pixels, four bytes each: red, green, blue
/// and opacity, the colours already weighed by the opacity.
pub struct Glyph {
    pub px: u32,
    pub rgba: Vec<u8>,
}

impl Glyph {
    pub open spec fn wf(self) -> bool {
        self.rgba@.len() == self.px * self.px * 4
    }
}

/// `c` painted over `dst` with opacity `a` of 255, rounded to the nearest.
pub open spec fn mixed(dst: u8, c: u8, a: u8) -> int {
    (dst * (255 - a) + c * a + 127) / 255
}

fn mix(dst: u8, c: u8, a: u8) -> (r: u8)
    ensures
        r == mixed(dst, c, a),
{
    assert(0 <= dst * (255 - a) + c * a <= 255 * 255) by (nonlinear_arith)
        requires
            0 <= dst <= 255,
            0 <= c <= 255,
            0 <= a <= 255,
    ;
    assert(0 <= c * a <= 255 * 255) by (nonlinear_arith)
        requires
            0 <= c <= 255,
            0 <= a <= 255,
    ;
    assert(0 <= dst * (255 - a) <= 255 * 255) by (nonlinear_arith)
        requires
            0 <= dst <= 255,
            0 <= a <= 255,
    ;
    ((dst as u32 * (255 - a as u32) + c as u32 * a as u32 + 127) / 255) as u8
}

/// The two ways to write a number by a multiple of `w` and a rest agree.
proof fn lemma_unique(a: int, b: int, c: int, d: int, w: int)
    requires
        a * w + b == c * w + d,
        0 <= b < w,
        0 <= d < w,
    ensures
        a == c,
        b == d,
{
    vstd::arithmetic::div_mod::lemma_fundamental_div_mod_converse(a * w + b, w, a, b);
    vstd::arithmetic::div_mod::lemma_fundamental_div_mod_converse(c * w + d, w, c, d);
}

/// The column of byte `n` in a buffer `w` pixels wide.
pub open spec fn col(n: int, w: int) -> int {
    (n / 4) % w
}

/// The row of byte `n` in a buffer `w` pixels wide.
pub open spec fn row(n: int, w: int) -> int {
    (n / 4) / w
}

proof fn lemma_place(n: int, w: int)
    requires
        0 <= n,
        0 < w,
    ensures
        n / 4 == row(n, w) * w + col(n, w),
        0 <= col(n, w) < w,
        0 <= row(n, w),
{
    let q = n / 4;
    assert(q == (q / w) * w + q % w && 0 <= q % w < w && 0 <= q / w) by (nonlinear_arith)
        requires
            0 <= q,
            0 < w,
    ;
}

/// Fills a buffer with one colour.
pub open spec fn cleared(old: Seq<u8>, color: Seq<u8>, n: int) -> u8 {
    if n >= old.len() / 4 * 4 {
        old[n]
    } else if n % 4 == 3 {
        0
    } else {
        color[n % 4]
    }
}

/// A buffer after it was filled with one colour.
pub open spec fn filled(old: Seq<u8>, color: Seq<u8>) -> Seq<u8> {
    Seq::new(old.len(), |n: int| cleared(old, color, n))
}

/// The fourth byte of every pixel is zero.
pub open spec fn fourths_zero(buf: Seq<u8>) -> bool {
    forall|n: int| 0 <= n < buf.len() && n % 4 == 3 ==> #[trigger] buf[n] == 0
}

pub fn clear(buf: &mut Vec<u8>, color: [u8; 3])
    ensures
        final(buf)@.len() == old(buf)@.len(),
        forall|n: int|
            0 <= n < old(buf)@.len() ==> #[trigger] final(buf)@[n] == cleared(
                old(buf)@,
                color@,
                n,
            ),
{
    let ghost before = buf@;
    let count: usize = buf.len() / 4;
    for p in 0..count
        invariant
            count == before.len() / 4,
            buf@.len() == before.len() <= usize::MAX,
            forall|n: int|
                0 <= n < before.len() ==> #[trigger] buf@[n] == if n < p * 4 {
                    cleared(before, color@, n)
                } else {
                    before[n]
                },
    {
        buf.set(p * 4, color[0]);
        buf.set(p * 4 + 1, color[1]);
        buf.set(p * 4 + 2, color[2]);
        buf.set(p * 4 + 3, 0);
    }
}

/// A picture of `sw` by `sh` pixels, laid with its corner at (`x`, `y`) over a
/// buffer of `w` by `h`.
pub struct Place {
    pub w: int,
    pub h: int,
    pub x: int,
    pub y: int,
    pub sw: int,
    pub sh: int,
}

impl Place {
    /// The pixel of byte `n` lies under the picture.
    pub open spec fn covers(self, n: int) -> bool {
        &&& 0 <= n < self.w * self.h * 4
        &&& self.x <= col(n, self.w) < self.x + self.sw
        &&& self.y <= row(n, self.w) < self.y + self.sh
    }

    /// Which pixel of the picture lies over the pixel of byte `n`.
    pub open spec fn source(self, n: int) -> int {
        (row(n, self.w) - self.y) * self.sw + (col(n, self.w) - self.x)
    }
}

/// Byte `n` after pixel `p` of the picture `src` was painted over it. A clear
/// pixel changes nothing; every other one leaves the fourth byte zero.
pub open spec fn over(dst: u8, src: Seq<u8>, p: int, n: int) -> int {
    let a = src[p * 4 + 3];
    if a == 0 {
        dst as int
    } else if n % 4 == 3 {
        0
    } else {
        mixed(dst, src[p * 4 + n % 4], a)
    }
}

/// Byte `n` of a buffer after a picture was painted over it.
pub open spec fn stamped(old: Seq<u8>, at: Place, src: Seq<u8>, n: int) -> int {
    if at.covers(n) {
        over(old[n], src, at.source(n), n)
    } else {
        old[n] as int
    }
}

/// Paints one pixel, if it lies in the buffer.
fn paint(buf: &mut Vec<u8>, w: u32, h: u32, x: u64, y: u64, c: [u8; 4])
    requires
        w * h * 4 <= old(buf)@.len(),
    ensures
        final(buf)@.len() == old(buf)@.len(),
        forall|n: int|
            0 <= n < old(buf)@.len() ==> #[trigger] final(buf)@[n] == if x < w && y < h && n / 4
                == y * w + x {
                over(old(buf)@[n], c@, 0, n)
            } else {
                old(buf)@[n] as int
            },
{
    let a: u8 = c[3];
    if a == 0 || x >= w as u64 || y >= h as u64 {
        return;
    }
    let len: usize = buf.len();
    assert(0 <= y * w && (y * w + x) * 4 + 4 <= w * h * 4) by (nonlinear_arith)
        requires
            0 <= x <= w - 1,
            0 <= y <= h - 1,
    ;
    let off: usize = (y as usize * w as usize + x as usize) * 4;
    let b0: u8 = buf[off];
    let b1: u8 = buf[off + 1];
    let b2: u8 = buf[off + 2];
    buf.set(off, mix(b0, c[0], a));
    buf.set(off + 1, mix(b1, c[1], a));
    buf.set(off + 2, mix(b2, c[2], a));
    buf.set(off + 3, 0);
    assert forall|n: int| 0 <= n < old(buf)@.len() implies #[trigger] buf@[n] == if x < w && y < h
        && n / 4 == y * w + x {
        over(old(buf)@[n], c@, 0, n)
    } else {
        old(buf)@[n] as int
    } by {
        if n / 4 == y * w + x {
            assert(n == off || n == off + 1 || n == off + 2 || n == off + 3);
        }
    }
}

/// Paints a picture of `sw` by `sh` pixels, blue first and opacity last, with
/// its corner at (`x`, `y`). What lies outside the buffer is cut off.
pub fn blit_alpha(
    buf: &mut Vec<u8>,
    w: u32,
    h: u32,
    x: u32,
    y: u32,
    sw: u32,
    sh: u32,
    src: &[u8],
)
    requires
        w * h * 4 <= old(buf)@.len(),
        sw * sh * 4 <= src@.len(),
    ensures
        final(buf)@.len() == old(buf)@.len(),
        forall|n: int|
            0 <= n < old(buf)@.len() ==> #[trigger] final(buf)@[n] == stamped(
                old(buf)@,
                (Place {
                    w: w as int,
                    h: h as int,
                    x: x as int,
                    y: y as int,
                    sw: sw as int,
                    sh: sh as int,
                }),
                src@,
                n,
            ),
{
    let ghost before = buf@;
    let ghost at = Place {
        w: w as int,
        h: h as int,
        x: x as int,
        y: y as int,
        sw: sw as int,
        sh: sh as int,
    };
    let len: usize = src.len();
    assert(sw * sh <= len) by (nonlinear_arith)
        requires
            sw * sh * 4 <= len,
            0 <= sw * sh,
    ;
    let count: usize = sw as usize * sh as usize;
    proof {
        lemma_none_covered(at);
    }
    for p in 0..count
        invariant
            count == sw * sh,
            sw * sh * 4 <= src@.len() == len,
            w * h * 4 <= buf@.len() == before.len(),
            at == (Place {
                w: w as int,
                h: h as int,
                x: x as int,
                y: y as int,
                sw: sw as int,
                sh: sh as int,
            }),
            forall|n: int| #[trigger] at.covers(n) ==> 0 <= at.source(n) < count,
            forall|n: int|
                0 <= n < before.len() ==> #[trigger] buf@[n] == if at.covers(n) && at.source(n)
                    < p {
                    over(before[n], src@, at.source(n), n)
                } else {
                    before[n] as int
                },
    {
        assert(sw > 0) by (nonlinear_arith)
            requires
                p < sw * sh,
                0 <= p,
                0 <= sw,
        ;
        let i: usize = p % sw as usize;
        let j: usize = p / sw as usize;
        let ghost now = buf@;
        let c = [src[p * 4], src[p * 4 + 1], src[p * 4 + 2], src[p * 4 + 3]];
        paint(buf, w, h, x as u64 + i as u64, y as u64 + j as u64, c);
        assert forall|n: int| 0 <= n < before.len() implies #[trigger] buf@[n] == if at.covers(n)
            && at.source(n) < p + 1 {
            over(before[n], src@, at.source(n), n)
        } else {
            before[n] as int
        } by {
            lemma_step(at, n, p as int);
            assert(now[n] == if at.covers(n) && at.source(n) < p {
                over(before[n], src@, at.source(n), n)
            } else {
                before[n] as int
            });
        }
    }
}

proof fn lemma_none_covered(at: Place)
    requires
        0 <= at.w,
        0 <= at.h,
        0 <= at.sw,
        0 <= at.sh,
    ensures
        forall|n: int| #[trigger] at.covers(n) ==> 0 <= at.source(n) < at.sw * at.sh,
{
    assert forall|n: int| #[trigger] at.covers(n) implies 0 <= at.source(n) < at.sw * at.sh by {
        let i = col(n, at.w) - at.x;
        let j = row(n, at.w) - at.y;
        assert(0 <= j * at.sw + i < at.sw * at.sh) by (nonlinear_arith)
            requires
                0 <= i <= at.sw - 1,
                0 <= j <= at.sh - 1,
        ;
    }
}

/// The pixel painted in step `p` is the one that pixel `p` of the picture lies
/// over.
proof fn lemma_step(at: Place, n: int, p: int)
    requires
        0 <= n,
        0 <= at.w,
        0 <= at.h,
        0 <= at.x,
        0 <= at.y,
        0 < at.sw,
        0 <= p < at.sw * at.sh,
    ensures
        ({
            let x = at.x + p % at.sw;
            let y = at.y + p / at.sw;
            (x < at.w && y < at.h && n / 4 == y * at.w + x) <==> (at.covers(n) && at.source(n)
                == p)
        }),
{
    let i = p % at.sw;
    let j = p / at.sw;
    assert(0 <= i < at.sw && 0 <= j < at.sh && p == j * at.sw + i) by (nonlinear_arith)
        requires
            i == p % at.sw,
            j == p / at.sw,
            0 <= p < at.sw * at.sh,
            0 < at.sw,
    ;
    let x = at.x + i;
    let y = at.y + j;
    if x < at.w && y < at.h && n / 4 == y * at.w + x {
        lemma_place(n, at.w);
        lemma_unique(row(n, at.w), col(n, at.w), y, x, at.w);
        assert(y * at.w + x < at.h * at.w) by (nonlinear_arith)
            requires
                x <= at.w - 1,
                y <= at.h - 1,
                0 <= at.w,
        ;
        assert(at.h * at.w * 4 == at.w * at.h * 4) by (nonlinear_arith);
    }
    if at.covers(n) && at.source(n) == p {
        assert(0 < at.w) by (nonlinear_arith)
            requires
                0 <= n < at.w * at.h * 4,
                0 <= at.w,
        ;
        lemma_place(n, at.w);
        lemma_unique(row(n, at.w) - at.y, col(n, at.w) - at.x, j, i, at.sw);
        assert(row(n, at.w) < at.h) by (nonlinear_arith)
            requires
                n / 4 == row(n, at.w) * at.w + col(n, at.w),
                0 <= col(n, at.w),
                n / 4 < at.w * at.h,
                0 < at.w,
        ;
    }
}

/// The picture of one colour that is as opaque as the glyph.
pub open spec fn tinted(glyph: Seq<u8>, color: Seq<u8>) -> Seq<u8> {
    Seq::new(
        glyph.len(),
        |i: int|
            if i % 4 == 3 {
                glyph[i]
            } else {
                color[i % 4]
            },
    )
}

/// Paints a glyph in one colour, with its corner at (`x`, `y`).
pub fn tint_glyph(buf: &mut Vec<u8>, w: u32, h: u32, x: u32, y: u32, glyph: &Glyph, color: [u8; 3])
    requires
        w * h * 4 <= old(buf)@.len(),
        glyph.wf(),
    ensures
        final(buf)@.len() == old(buf)@.len(),
        forall|n: int|
            0 <= n < old(buf)@.len() ==> #[trigger] final(buf)@[n] == stamped(
                old(buf)@,
                (Place {
                    w: w as int,
                    h: h as int,
                    x: x as int,
                    y: y as int,
                    sw: glyph.px as int,
                    sh: glyph.px as int,
                }),
                tinted(glyph.rgba@, color@),
                n,
            ),
{
    let count: usize = glyph.rgba.len() / 4;
    let mut src: Vec<u8> = Vec::new();
    for p in 0..count
        invariant
            count * 4 == glyph.rgba@.len() <= usize::MAX,
            src@.len() == p * 4,
            forall|i: int|
                0 <= i < p * 4 ==> #[trigger] src@[i] == tinted(glyph.rgba@, color@)[i],
    {
        src.push(color[0]);
        src.push(color[1]);
        src.push(color[2]);
        src.push(glyph.rgba[p * 4 + 3]);
    }
    assert(src@ =~= tinted(glyph.rgba@, color@));
    blit_alpha(buf, w, h, x, y, glyph.px, glyph.px, src.as_slice());
}

/// How far the pixel of byte `n` lies behind pixel (`x`, `y`), counted row by
/// row.
pub open spec fn behind(n: int, w: int, x: int, y: int) -> int {
    n / 4 - (y * w + x)
}

/// The pixel of byte `n` lies under a glyph of `px` by `px` pixels.
pub open spec fn under_glyph(n: int, w: int, x: int, y: int, px: int) -> bool {
    let d = behind(n, w, x, y);
    0 <= d && 0 <= d / w < px && 0 <= d % w < px
}

/// Which pixel of the glyph lies over the pixel of byte `n`.
pub open spec fn glyph_pixel(n: int, w: int, x: int, y: int, px: int) -> int {
    let d = behind(n, w, x, y);
    (d / w) * px + d % w
}

/// Byte `n` after pixel `p` of a glyph was laid over it: the glyph's colour
/// and what its opacity leaves of the old one. The fourth byte stays.
pub open spec fn laid(dst: u8, glyph: Seq<u8>, p: int, n: int) -> int {
    let a = glyph[p * 4 + 3];
    if a == 0 || n % 4 == 3 {
        dst as int
    } else {
        (glyph[p * 4 + 2 - n % 4] + dst * (255 - a) / 255) % 256
    }
}

/// What the glyph's channel `c` and its opacity `a` make of `dst`.
fn lay(dst: u8, c: u8, a: u8) -> (r: u8)
    ensures
        r == (c + dst * (255 - a) / 255) % 256,
{
    assert(0 <= dst * (255 - a) <= 255 * 255) by (nonlinear_arith)
        requires
            0 <= dst <= 255,
            0 <= a <= 255,
    ;
    ((c as u32 + dst as u32 * (255 - a as u32) / 255) % 256) as u8
}

/// Lays a glyph in its own colours over a buffer `w` pixels wide, with its
/// corner at (`x`, `y`).
pub fn premul_glyph(buf: &mut Vec<u8>, w: u32, x: u32, y: u32, glyph: &Glyph)
    requires
        glyph.wf(),
        glyph.px <= w,
        glyph.px > 0 ==> ((y + glyph.px - 1) * w + x + glyph.px) * 4 <= old(buf)@.len(),
    ensures
        final(buf)@.len() == old(buf)@.len(),
        forall|n: int|
            0 <= n < old(buf)@.len() ==> #[trigger] final(buf)@[n] == if under_glyph(
                n,
                w as int,
                x as int,
                y as int,
                glyph.px as int,
            ) {
                laid(
                    old(buf)@[n],
                    glyph.rgba@,
                    glyph_pixel(n, w as int, x as int, y as int, glyph.px as int),
                    n,
                )
            } else {
                old(buf)@[n] as int
            },
{
    let ghost before = buf@;
    let ghost (gw, gx, gy, gp) = (w as int, x as int, y as int, glyph.px as int);
    let px: usize = glyph.px as usize;
    let len: usize = buf.len();
    let size: usize = glyph.rgba.len();
    assert(px * px <= size) by (nonlinear_arith)
        requires
            px * px * 4 == size,
            0 <= px * px,
    ;
    let count: usize = px * px;
    assert forall|n: int| #[trigger] under_glyph(n, gw, gx, gy, gp) implies 0 <= glyph_pixel(
        n,
        gw,
        gx,
        gy,
        gp,
    ) < count by {
        lemma_glyph_pixel(n, gw, gx, gy, gp);
    }
    for p in 0..count
        invariant
            px == gp == glyph.px,
            w == gw,
            x == gx,
            y == gy,
            glyph.wf(),
            count == px * px,
            size == glyph.rgba@.len(),
            px <= w,
            ((y + px - 1) * w + x + px) * 4 <= before.len() || px == 0,
            buf@.len() == before.len() == len,
            forall|n: int|
                #[trigger] under_glyph(n, gw, gx, gy, gp) ==> 0 <= glyph_pixel(n, gw, gx, gy, gp)
                    < count,
            forall|n: int|
                0 <= n < before.len() ==> #[trigger] buf@[n] == if under_glyph(n, gw, gx, gy, gp)
                    && glyph_pixel(n, gw, gx, gy, gp) < p {
                    laid(before[n], glyph.rgba@, glyph_pixel(n, gw, gx, gy, gp), n)
                } else {
                    before[n] as int
                },
    {
        assert(px > 0) by (nonlinear_arith)
            requires
                p < px * px,
                0 <= p,
                0 <= px,
        ;
        let i: usize = p % px;
        let j: usize = p / px;
        assert(0 <= i < px && 0 <= j < px && p == j * px + i) by (nonlinear_arith)
            requires
                i == p % px,
                j == p / px,
                0 <= p < px * px,
                0 < px,
        ;
        assert(p * 4 + 4 <= size) by (nonlinear_arith)
            requires
                p < px * px,
                px * px * 4 == size,
        ;
        let a: u8 = glyph.rgba[p * 4 + 3];
        let ghost now = buf@;
        if a != 0 {
            assert(0 <= (y + j) * w && ((y + j) * w + x + i) * 4 + 4 <= ((y + px - 1) * w + x + px)
                * 4) by (nonlinear_arith)
                requires
                    0 <= y,
                    0 <= j <= px - 1,
                    0 <= i <= px - 1,
                    0 <= w,
            ;
            assert(y + j <= (y + j) * w) by (nonlinear_arith)
                requires
                    0 <= y + j,
                    1 <= w,
            ;
            let off: usize = ((y as usize + j) * w as usize + x as usize + i) * 4;
            let b0: u8 = buf[off];
            let b1: u8 = buf[off + 1];
            let b2: u8 = buf[off + 2];
            buf.set(off, lay(b0, glyph.rgba[p * 4 + 2], a));
            buf.set(off + 1, lay(b1, glyph.rgba[p * 4 + 1], a));
            buf.set(off + 2, lay(b2, glyph.rgba[p * 4], a));
        }
        assert forall|n: int| 0 <= n < before.len() implies #[trigger] buf@[n] == if under_glyph(
            n,
            gw,
            gx,
            gy,
            gp,
        ) && glyph_pixel(n, gw, gx, gy, gp) < p + 1 {
            laid(before[n], glyph.rgba@, glyph_pixel(n, gw, gx, gy, gp), n)
        } else {
            before[n] as int
        } by {
            lemma_glyph_step(n, gw, gx, gy, gp, p as int);
            assert(now[n] == if under_glyph(n, gw, gx, gy, gp) && glyph_pixel(n, gw, gx, gy, gp)
                < p {
                laid(before[n], glyph.rgba@, glyph_pixel(n, gw, gx, gy, gp), n)
            } else {
                before[n] as int
            });
            if n / 4 == (gy + j) * gw + gx + i {
                let off = ((gy + j) * gw + gx + i) * 4;
                assert(n == off || n == off + 1 || n == off + 2 || n == off + 3);
            }
        }
    }
}

proof fn lemma_glyph_pixel(n: int, w: int, x: int, y: int, px: int)
    requires
        under_glyph(n, w, x, y, px),
        0 <= px <= w,
    ensures
        0 <= glyph_pixel(n, w, x, y, px) < px * px,
{
    let q = behind(n, w, x, y) / w;
    let r = behind(n, w, x, y) % w;
    assert(0 <= q * px + r < px * px) by (nonlinear_arith)
        requires
            0 <= q <= px - 1,
            0 <= r <= px - 1,
    ;
}

proof fn lemma_glyph_step(n: int, w: int, x: int, y: int, px: int, p: int)
    requires
        0 < px <= w,
        0 <= p < px * px,
    ensures
        n / 4 == (y + p / px) * w + x + p % px <==> under_glyph(n, w, x, y, px) && glyph_pixel(
            n,
            w,
            x,
            y,
            px,
        ) == p,
{
    let i = p % px;
    let j = p / px;
    let d = behind(n, w, x, y);
    assert(0 <= i < px && 0 <= j < px && p == j * px + i) by (nonlinear_arith)
        requires
            i == p % px,
            j == p / px,
            0 <= p < px * px,
            0 < px,
    ;
    assert((y + j) * w + x + i == y * w + x + (j * w + i)) by (nonlinear_arith);
    if n / 4 == (y + j) * w + x + i {
        assert(0 <= j * w) by (nonlinear_arith)
            requires
                0 <= j,
                0 <= w,
        ;
        vstd::arithmetic::div_mod::lemma_fundamental_div_mod_converse(d, w, j, i);
    }
    if under_glyph(n, w, x, y, px) && glyph_pixel(n, w, x, y, px) == p {
        assert(d == (d / w) * w + d % w && 0 <= d % w) by (nonlinear_arith)
            requires
                0 <= d,
                0 < w,
        ;
        lemma_unique(d / w, d % w, j, i, px);
    }
}

/// Byte `n` of the part `r` of a buffer `w` pixels wide.
pub open spec fn part_byte(buf: Seq<u8>, w: int, r: Rect, n: int) -> u8 {
    buf[((r.y + row(n, r.w as int)) * w + r.x + col(n, r.w as int)) * 4 + n % 4]
}

/// Cuts the part `r` out of a buffer.
pub fn sub_rect(buf: &[u8], buf_w: u32, r: Rect) -> (out: Vec<u8>)
    requires
        r.h > 0 ==> ((r.y + r.h - 1) * buf_w + r.x + r.w) * 4 <= buf@.len(),
        r.w * r.h * 4 <= usize::MAX,
        r.y + r.h <= u32::MAX,
    ensures
        out@.len() == r.w * r.h * 4,
        forall|n: int|
            0 <= n < r.w * r.h * 4 ==> #[trigger] out@[n] == part_byte(buf@, buf_w as int, r, n),
{
    let len: usize = buf.len();
    let mut out: Vec<u8> = Vec::new();
    assert(r.w * r.h <= usize::MAX) by (nonlinear_arith)
        requires
            r.w * r.h * 4 <= usize::MAX,
            0 <= r.w * r.h,
    ;
    let count: usize = r.w as usize * r.h as usize;
    for p in 0..count
        invariant
            len == buf@.len(),
            count == r.w * r.h,
            r.y + r.h <= u32::MAX,
            r.h > 0 ==> ((r.y + r.h - 1) * buf_w + r.x + r.w) * 4 <= len,
            out@.len() == p * 4,
            forall|n: int|
                0 <= n < p * 4 ==> #[trigger] out@[n] == part_byte(buf@, buf_w as int, r, n),
    {
        assert(r.w > 0 && r.h > 0) by (nonlinear_arith)
            requires
                p < r.w * r.h,
                0 <= p,
                0 <= r.w,
                0 <= r.h,
        ;
        let i: usize = p % r.w as usize;
        let j: usize = p / r.w as usize;
        assert(0 <= i < r.w && 0 <= j < r.h) by (nonlinear_arith)
            requires
                i == p % (r.w as usize),
                j == p / (r.w as usize),
                0 <= p < r.w * r.h,
                0 < r.w,
        ;
        assert(0 <= (r.y + j) * buf_w && ((r.y + j) * buf_w + r.x + i) * 4 + 4 <= ((r.y + r.h - 1)
            * buf_w + r.x + r.w) * 4) by (nonlinear_arith)
            requires
                0 <= r.y,
                0 <= j <= r.h - 1,
                0 <= i <= r.w - 1,
                0 <= buf_w,
        ;
        let off: usize = ((r.y as usize + j) * buf_w as usize + r.x as usize + i) * 4;
        out.push(buf[off]);
        out.push(buf[off + 1]);
        out.push(buf[off + 2]);
        out.push(buf[off + 3]);
        assert forall|n: int| 0 <= n < (p + 1) * 4 implies #[trigger] out@[n] == part_byte(
            buf@,
            buf_w as int,
            r,
            n,
        ) by {
            if n >= p * 4 {
                assert(n / 4 == p);
            }
        }
    }
    out
}

/// A buffer of whole pixels that is filled forgets what it held, and the fourth
/// byte of every pixel is zero.
pub proof fn a_filled_buffer_forgets(a: Seq<u8>, b: Seq<u8>, color: Seq<u8>)
    requires
        a.len() == b.len(),
        a.len() % 4 == 0,
    ensures
        filled(a, color) == filled(b, color),
        fourths_zero(filled(a, color)),
{
    assert(filled(a, color) =~= filled(b, color));
}

/// Neither a picture nor a glyph that is painted makes the fourth byte of a
/// pixel anything but zero.
pub proof fn paint_keeps_the_fourth_byte_zero(
    old: Seq<u8>,
    at: Place,
    src: Seq<u8>,
    glyph: Seq<u8>,
    p: int,
    n: int,
)
    requires
        n % 4 == 3,
        old[n] == 0,
    ensures
        stamped(old, at, src, n) == 0,
        laid(old[n], glyph, p, n) == 0,
{
}

/// Opaque paint shows its own colour, clear paint leaves what is there, and any
/// other gives a shade between the two.
pub proof fn paint_lies_between(dst: u8, c: u8, a: u8)
    ensures
        mixed(dst, c, 255) == c,
        mixed(dst, c, 0) == dst,
        (if dst <= c {
            dst
        } else {
            c
        }) <= mixed(dst, c, a) <= (if dst <= c {
            c
        } else {
            dst
        }),
{
    let lo = if dst <= c {
        dst
    } else {
        c
    };
    let hi = if dst <= c {
        c
    } else {
        dst
    };
    let v = dst * (255 - a) + c * a;
    assert(lo * 255 <= v <= hi * 255) by (nonlinear_arith)
        requires
            v == dst * (255 - a) + c * a,
            lo <= dst <= hi,
            lo <= c <= hi,
            0 <= a <= 255,
    ;
}

/// A glyph whose colours are weighed by its opacity never runs past white.
pub proof fn a_weighed_glyph_stays_in_range(dst: u8, c: u8, a: u8)
    requires
        c <= a,
    ensures
        c + dst * (255 - a) / 255 <= 255,
{
    assert(dst * (255 - a) <= 255 * (255 - a)) by (nonlinear_arith)
        requires
            0 <= dst <= 255,
            0 <= a <= 255,
    ;
}

/// The colour of the pixel (`x`, `y`), if it lies in the buffer.
pub fn pixel(buf: &Vec<u8>, w: u32, h: u32, x: u32, y: u32) -> (r: Option<[u8; 3]>)
    requires
        w * h * 4 <= buf@.len(),
    ensures
        match r {
            Some(c) => {
                &&& x < w && y < h
                &&& forall|k: int| 0 <= k < 3 ==> #[trigger] c@[k] == buf@[(y * w + x) * 4 + k]
            },
            None => x >= w || y >= h,
        },
{
    if x >= w || y >= h {
        return None;
    }
    let len: usize = buf.len();
    assert(0 <= y * w && (y * w + x) * 4 + 4 <= w * h * 4) by (nonlinear_arith)
        requires
            0 <= x <= w - 1,
            0 <= y <= h - 1,
    ;
    let off: usize = (y as usize * w as usize + x as usize) * 4;
    Some([buf[off], buf[off + 1], buf[off + 2]])
}

/// Gives the pixel (`x`, `y`) a colour, if it lies in the buffer, and its fourth
/// byte zero.
pub fn set_pixel(buf: &mut Vec<u8>, w: u32, h: u32, x: u32, y: u32, c: [u8; 3])
    requires
        w * h * 4 <= old(buf)@.len(),
    ensures
        final(buf)@.len() == old(buf)@.len(),
        forall|n: int|
            0 <= n < old(buf)@.len() ==> #[trigger] final(buf)@[n] == if x < w && y < h && n / 4
                == y * w + x {
                if n % 4 == 3 {
                    0
                } else {
                    c@[n % 4]
                }
            } else {
                old(buf)@[n]
            },
{
    let ghost before = buf@;
    paint(buf, w, h, x as u64, y as u64, [c[0], c[1], c[2], 255]);
    assert forall|n: int| 0 <= n < before.len() && x < w && y < h && n / 4 == y * w
        + x implies #[trigger] buf@[n] == if n % 4 == 3 {
        0
    } else {
        c@[n % 4]
    } by {
        if n % 4 != 3 {
            paint_lies_between(before[n], c@[n % 4], 255);
        }
    }
}

/// A mixed colour is the one nearest to the weighed mean of the two: a part of
/// `a` in 255 of the paint and the rest of what lies below.
pub proof fn a_mixed_colour_is_the_nearest(dst: u8, c: u8, a: u8)
    ensures
        ({
            let mean = dst * (255 - a) + c * a;
            -127 <= 255 * mixed(dst, c, a) - mean <= 127
        }),
{
}

/// A buffer is filled pixel by pixel with the colour, and a zero behind it.
pub proof fn every_pixel_is_filled(old: Seq<u8>, color: Seq<u8>, p: int)
    requires
        0 <= p,
        4 * p + 4 <= old.len(),
    ensures
        ({
            let f = filled(old, color);
            &&& f.len() == old.len()
            &&& f[4 * p] == color[0]
            &&& f[4 * p + 1] == color[1]
            &&& f[4 * p + 2] == color[2]
            &&& f[4 * p + 3] == 0
        }),
{
}

proof fn lemma_pixel_place(w: int, x: int, y: int, k: int)
    requires
        0 <= x < w,
        0 <= y,
        0 <= k < 4,
    ensures
        ({
            let n = (y * w + x) * 4 + k;
            n / 4 == y * w + x && col(n, w) == x && row(n, w) == y && n % 4 == k && n >= 0
        }),
{
    let q = y * w + x;
    assert(q >= 0) by (nonlinear_arith)
        requires
            q == y * w + x,
            0 <= x,
            0 <= y,
            0 < w,
    ;
    vstd::arithmetic::div_mod::lemma_fundamental_div_mod_converse(q, w, y, x);
}

/// The pixel (`i`, `j`) of a picture comes to lie over the pixel of the buffer
/// that is as far from the picture's corner. Where it is clear, that one stays;
/// otherwise each channel is mixed with its own.
pub proof fn a_picture_is_stamped_pixel_by_pixel(
    old: Seq<u8>,
    at: Place,
    src: Seq<u8>,
    i: int,
    j: int,
    k: int,
)
    requires
        0 <= i < at.sw,
        0 <= j < at.sh,
        0 <= at.x,
        0 <= at.y,
        at.x + i < at.w,
        at.y + j < at.h,
        0 <= k < 4,
    ensures
        ({
            let n = ((at.y + j) * at.w + at.x + i) * 4 + k;
            let p = (j * at.sw + i) * 4;
            &&& src[p + 3] == 0 ==> stamped(old, at, src, n) == old[n]
            &&& src[p + 3] != 0 && k == 3 ==> stamped(old, at, src, n) == 0
            &&& src[p + 3] != 0 && k < 3 ==> stamped(old, at, src, n) == mixed(
                old[n],
                src[p + k],
                src[p + 3],
            )
            &&& src[p + 3] == 255 && k < 3 ==> stamped(old, at, src, n) == src[p + k]
        }),
{
    let (x, y) = (at.x + i, at.y + j);
    let n = (y * at.w + x) * 4 + k;
    lemma_pixel_place(at.w, x, y, k);
    assert(n < at.w * at.h * 4) by (nonlinear_arith)
        requires
            n == (y * at.w + x) * 4 + k,
            0 <= x <= at.w - 1,
            0 <= y <= at.h - 1,
            k < 4,
    ;
    assert(((at.y + j) * at.w + at.x + i) * 4 + k == n);
    assert(at.covers(n));
    if k < 3 {
        paint_lies_between(old[n], src[(j * at.sw + i) * 4 + k], 255);
    }
}

/// What lies beside a picture is left as it is.
pub proof fn beside_a_picture_nothing_changes(
    old: Seq<u8>,
    at: Place,
    src: Seq<u8>,
    x: int,
    y: int,
    k: int,
)
    requires
        0 <= x < at.w,
        0 <= y < at.h,
        0 <= k < 4,
        !(at.x <= x < at.x + at.sw && at.y <= y < at.y + at.sh),
    ensures
        stamped(old, at, src, (y * at.w + x) * 4 + k) == old[(y * at.w + x) * 4 + k],
{
    lemma_pixel_place(at.w, x, y, k);
}

/// A tinted glyph has the one colour everywhere and the glyph's own opacity.
pub proof fn a_tint_keeps_the_opacity(glyph: Seq<u8>, color: Seq<u8>, p: int)
    requires
        0 <= p,
        4 * p + 4 <= glyph.len(),
    ensures
        ({
            let t = tinted(glyph, color);
            &&& t.len() == glyph.len()
            &&& t[4 * p] == color[0]
            &&& t[4 * p + 1] == color[1]
            &&& t[4 * p + 2] == color[2]
            &&& t[4 * p + 3] == glyph[4 * p + 3]
        }),
{
}

/// The pixel (`i`, `j`) of a glyph comes to lie over the pixel of the buffer that
/// is as far from its corner.
pub proof fn a_glyph_lies_pixel_by_pixel(w: int, x: int, y: int, px: int, i: int, j: int, k: int)
    requires
        0 <= i < px,
        0 <= j < px,
        0 <= x,
        0 <= y,
        px <= w,
        0 <= k < 4,
    ensures
        ({
            let n = ((y + j) * w + x + i) * 4 + k;
            under_glyph(n, w, x, y, px) && glyph_pixel(n, w, x, y, px) == j * px + i
        }),
{
    let n = ((y + j) * w + x + i) * 4 + k;
    assert((y + j) * w == y * w + j * w) by (nonlinear_arith);
    assert(n / 4 == (y + j) * w + x + i);
    let d = j * w + i;
    assert(behind(n, w, x, y) == d);
    assert(d >= 0) by (nonlinear_arith)
        requires
            d == j * w + i,
            0 <= i,
            0 <= j,
            0 < w,
    ;
    vstd::arithmetic::div_mod::lemma_fundamental_div_mod_converse(d, w, j, i);
}

/// A glyph holds red first and the buffer blue first. An opaque pixel of a glyph
/// shows its own colour, a clear one changes nothing, and neither touches the
/// fourth byte.
pub proof fn a_glyph_shows_its_colours(dst: u8, glyph: Seq<u8>, p: int, n: int)
    requires
        0 <= p,
        0 <= n,
    ensures
        ({
            let a = glyph[p * 4 + 3];
            &&& a == 0 ==> laid(dst, glyph, p, n) == dst
            &&& n % 4 == 3 ==> laid(dst, glyph, p, n) == dst
            &&& a == 255 && n % 4 == 0 ==> laid(dst, glyph, p, n) == glyph[p * 4 + 2]
            &&& a == 255 && n % 4 == 1 ==> laid(dst, glyph, p, n) == glyph[p * 4 + 1]
            &&& a == 255 && n % 4 == 2 ==> laid(dst, glyph, p, n) == glyph[p * 4]
            &&& 0 < a && n % 4 < 3 && glyph[p * 4 + 2 - n % 4] <= a ==> laid(dst, glyph, p, n)
                == glyph[p * 4 + 2 - n % 4] + dst * (255 - a) / 255
        }),
{
    let a = glyph[p * 4 + 3];
    if 0 < a && n % 4 < 3 && glyph[p * 4 + 2 - n % 4] <= a {
        a_weighed_glyph_stays_in_range(dst, glyph[p * 4 + 2 - n % 4], a);
        assert(dst * (255 - a) >= 0) by (nonlinear_arith)
            requires
                0 <= dst,
                0 <= a <= 255,
        ;
    }
    if a == 255 {
        assert(dst * (255 - a) == 0) by (nonlinear_arith)
            requires
                a == 255,
        ;
    }
}

/// The pixel (`i`, `j`) of a part is the pixel of the whole that is as far from
/// the part's corner.
pub proof fn a_part_is_cut_out_in_place(buf: Seq<u8>, w: int, r: Rect, i: int, j: int, k: int)
    requires
        0 <= i < r.w,
        0 <= j < r.h,
        0 <= k < 4,
    ensures
        part_byte(buf, w, r, (j * r.w + i) * 4 + k) == buf[((r.y + j) * w + r.x + i) * 4 + k],
{
    lemma_pixel_place(r.w as int, i, j, k);
}

} // verus!
