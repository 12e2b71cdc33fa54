//! The framebuffer: its size and turn, and which bytes go where on it.
//!
//! Positions are those of the screen as the user sees it. The device may be
//! turned against it, and its rows may be longer than the screen is wide.

use crate::panel;
use crate::panel::min_of;
use crate::scan::{chars_of, lines, parse_u32, parse_u8, split_once, starts_with, trim};
use crate::scan;
use vstd::prelude::*;
use vstd::slice::slice_subrange;

verus! {

/// The turn that a text stands for: a number, taken modulo a full turn.
pub open spec fn turn_in(s: Seq<char>) -> Option<int> {
    match scan::unsigned_of(scan::trimmed(s), u8::MAX as int) {
        Some(n) => Some(n % 4),
        None => None,
    }
}

/// The turn that a line of the terminal's settings gives.
pub open spec fn turn_of_line(line: Seq<char>) -> Option<int> {
    let t = scan::trimmed(line);
    let key = "screen-rotate="@;
    if key.is_prefix_of(t) {
        turn_in(t.skip(key.len() as int))
    } else {
        None
    }
}

/// The first turn that the lines give, or none.
pub open spec fn turn_of_lines(lines: Seq<Seq<char>>) -> int
    decreases lines.len(),
{
    if lines.len() == 0 {
        0
    } else {
        match turn_of_line(lines[0]) {
            Some(n) => n,
            None => turn_of_lines(lines.drop_first()),
        }
    }
}

/// The turn of the screen: what the variable says, or else the settings, or
/// else none.
pub open spec fn turn_of(var: Option<Seq<char>>, rc: Option<Seq<char>>) -> int {
    let given = match var {
        Some(v) => turn_in(v),
        None => None,
    };
    match given {
        Some(n) => n,
        None => match rc {
            Some(text) => turn_of_lines(scan::lines_of(text)),
            None => 0,
        },
    }
}

fn read_turn(s: &[char]) -> (r: Option<u8>)
    ensures
        match r {
            Some(n) => turn_in(s@) == Some(n as int) && n < 4,
            None => turn_in(s@) is None,
        },
{
    match parse_u8(trim(s)) {
        Some(n) => Some(n % 4),
        None => None,
    }
}

fn read_turn_line(line: &[char]) -> (r: Option<u8>)
    ensures
        match r {
            Some(n) => turn_of_line(line@) == Some(n as int) && n < 4,
            None => turn_of_line(line@) is None,
        },
{
    let t = trim(line);
    if starts_with(t, "screen-rotate=") {
        proof {
            reveal_strlit("screen-rotate=");
        }
        let rest = slice_subrange(t, 14, t.len());
        assert(rest@ =~= t@.skip(14));
        read_turn(rest)
    } else {
        None
    }
}

/// The first turn that the lines of a text give, or none.
fn read_turn_lines(text: &str) -> (r: u8)
    ensures
        r == turn_of_lines(scan::lines_of(text@)),
        r < 4,
{
    let chars = chars_of(text);
    let rows = lines(chars.as_slice());
    let ghost all = scan::slices(rows@);
    let n: usize = rows.len();
    let mut i: usize = 0;
    assert(all.skip(0) =~= all);
    while i < n
        invariant
            i <= n == rows@.len(),
            all == scan::slices(rows@),
            all == scan::lines_of(text@),
            turn_of_lines(all) == turn_of_lines(all.skip(i as int)),
        decreases n - i,
    {
        assert(all.skip(i as int)[0] == rows@[i as int]@);
        assert(all.skip(i as int).drop_first() =~= all.skip(i + 1));
        match read_turn_line(rows[i]) {
            Some(k) => {
                return k;
            },
            None => {},
        }
        i = i + 1;
    }
    0
}

/// The turn of the screen in quarters, clockwise. `var` is `TOUCH_ROTATE`, `rc`
/// what the terminal's settings hold, if they can be read.
pub fn screen_rotate(var: Option<&str>, rc: Option<&str>) -> (r: u8)
    ensures
        r == turn_of(scan::opt_str(var), scan::opt_str(rc)),
        r < 4,
{
    match var {
        Some(v) => {
            let v = chars_of(v);
            match read_turn(v.as_slice()) {
                Some(n) => {
                    return n;
                },
                None => {},
            }
        },
        None => {},
    }
    match rc {
        Some(text) => read_turn_lines(text),
        None => 0,
    }
}

/// Why the framebuffer cannot be used.
#[derive(Debug, Clone, Copy, PartialEq, Eq, Structural)]
pub enum FbError {
    /// The number of bits per pixel cannot be read.
    BadDepth,
    /// It is not the one that is supported.
    Depth(u32),
    /// The size is not two numbers with a comma between them.
    Size,
    /// The length of a row cannot be read.
    Stride,
    Width,
    Height,
}

/// The number that a text holds, white space around it aside.
pub open spec fn number_in(s: Seq<char>) -> Option<int> {
    scan::unsigned_of(scan::trimmed(s), u32::MAX as int)
}

fn read_number(s: &str) -> (r: Option<u32>)
    ensures
        match r {
            Some(n) => number_in(s@) == Some(n as int),
            None => number_in(s@) is None,
        },
{
    let s = chars_of(s);
    parse_u32(trim(s.as_slice()))
}

/// Checks the number of bits per pixel: only 32 is supported.
pub fn check_depth(text: &str) -> (r: Result<(), FbError>)
    ensures
        r == match number_in(text@) {
            Some(n) => if n == 32 {
                Ok(())
            } else {
                Err(FbError::Depth(n as u32))
            },
            None => Err(FbError::BadDepth),
        },
{
    match read_number(text) {
        Some(32) => Ok(()),
        Some(n) => Err(FbError::Depth(n)),
        None => Err(FbError::BadDepth),
    }
}

pub struct Framebuffer {
    /// The screen's width as the user sees it.
    pub width: u32,
    pub height: u32,
    /// How the device is turned, in quarters.
    pub rotate: u8,
    /// Pixels from one row of the device to the next.
    pub stride: u32,
}

/// The width and height that a size text holds.
pub open spec fn size_in(s: Seq<char>) -> Option<(Option<int>, Option<int>)> {
    match scan::cut(scan::trimmed(s), ',') {
        Some((w, h)) => Some((scan::unsigned_of(w, u32::MAX as int), number_in(h))),
        None => None,
    }
}

impl Framebuffer {
    pub open spec fn wf(self) -> bool {
        self.stride <= u32::MAX / 4 && self.rotate < 4
    }

    /// Reads the size of the device and the length of its rows in bytes.
    pub fn geometry(vsize: &str, stride: &str, rotate: u8) -> (r: Result<Framebuffer, FbError>)
        requires
            rotate < 4,
        ensures
            match size_in(vsize@) {
                None => r == Err::<Framebuffer, FbError>(FbError::Size),
                Some((w, h)) => match number_in(stride@) {
                    None => r == Err::<Framebuffer, FbError>(FbError::Stride),
                    Some(bytes) => if w is None {
                        r == Err::<Framebuffer, FbError>(FbError::Width)
                    } else if h is None {
                        r == Err::<Framebuffer, FbError>(FbError::Height)
                    } else {
                        &&& r is Ok
                        &&& r->Ok_0.rotate == rotate
                        &&& r->Ok_0.stride == bytes / 4
                        &&& r->Ok_0.wf()
                        &&& if rotate % 2 == 1 {
                            r->Ok_0.width == h->0 && r->Ok_0.height == w->0
                        } else {
                            r->Ok_0.width == w->0 && r->Ok_0.height == h->0
                        }
                    },
                },
            },
    {
        let vsize = chars_of(vsize);
        let (w, h) = match split_once(trim(vsize.as_slice()), ',') {
            Some(p) => p,
            None => {
                return Err(FbError::Size);
            },
        };
        let bytes: u32 = match read_number(stride) {
            Some(n) => n,
            None => {
                return Err(FbError::Stride);
            },
        };
        let w: u32 = match parse_u32(w) {
            Some(n) => n,
            None => {
                return Err(FbError::Width);
            },
        };
        let h: u32 = match parse_u32(trim(h)) {
            Some(n) => n,
            None => {
                return Err(FbError::Height);
            },
        };
        let (width, height) = if rotate % 2 == 1 {
            (h, w)
        } else {
            (w, h)
        };
        Ok(Framebuffer { width, height, rotate, stride: bytes / 4 })
    }

    /// The part of a rectangle that lies on the screen.
    pub open spec fn clamped(self, x: int, y: int, w: int, h: int) -> (int, int, int, int) {
        let cx = panel::least(x, self.width as int);
        let cy = panel::least(y, self.height as int);
        (cx, cy, panel::least(w, self.width - cx), panel::least(h, self.height - cy))
    }

    pub fn clamp(&self, x: u32, y: u32, w: u32, h: u32) -> (r: (u32, u32, u32, u32))
        ensures
            (r.0 as int, r.1 as int, r.2 as int, r.3 as int) == self.clamped(
                x as int,
                y as int,
                w as int,
                h as int,
            ),
            r.0 + r.2 <= self.width,
            r.1 + r.3 <= self.height,
    {
        let x: u32 = min_of(x as u64, self.width as u64) as u32;
        let y: u32 = min_of(y as u64, self.height as u64) as u32;
        (
            x,
            y,
            min_of(w as u64, (self.width - x) as u64) as u32,
            min_of(h as u64, (self.height - y) as u64) as u32,
        )
    }
}

/// Where the pixel (`x`, `y`) of a screen of `lw` by `lh` lies on the device.
pub open spec fn turned(rotate: int, lw: int, lh: int, x: int, y: int) -> (int, int) {
    if rotate == 1 {
        (lh - 1 - y, x)
    } else if rotate == 2 {
        (lw - 1 - x, lh - 1 - y)
    } else if rotate == 3 {
        (y, lw - 1 - x)
    } else {
        (x, y)
    }
}

/// The rectangle of the device that a rectangle of the screen takes.
pub open spec fn phys_rect_of(
    rotate: int,
    lw: int,
    lh: int,
    x: int,
    y: int,
    w: int,
    h: int,
) -> (int, int, int, int) {
    if rotate == 1 {
        (lh - y - h, x, h, w)
    } else if rotate == 2 {
        (lw - x - w, lh - y - h, w, h)
    } else {
        (y, lw - x - w, h, w)
    }
}

/// The rectangle of the device that a rectangle of the screen takes, for a
/// screen that is turned.
pub fn phys_rect(rotate: u8, lw: u32, lh: u32, x: u32, y: u32, w: u32, h: u32) -> (r: (
    u32,
    u32,
    u32,
    u32,
))
    requires
        x + w <= lw,
        y + h <= lh,
    ensures
        (r.0 as int, r.1 as int, r.2 as int, r.3 as int) == phys_rect_of(
            rotate as int,
            lw as int,
            lh as int,
            x as int,
            y as int,
            w as int,
            h as int,
        ),
{
    match rotate {
        1 => (lh - y - h, x, h, w),
        2 => (lw - x - w, lh - y - h, w, h),
        _ => (y, lw - x - w, h, w),
    }
}

/// Where the pixel (`i`, `j`) of a rectangle lies in the rectangle of the
/// device that it takes.
pub open spec fn phys_pos_of(rotate: int, w: int, h: int, i: int, j: int) -> (int, int) {
    if rotate == 1 {
        (h - 1 - j, i)
    } else if rotate == 2 {
        (w - 1 - i, h - 1 - j)
    } else {
        (j, w - 1 - i)
    }
}

pub fn phys_pos(rotate: u8, w: usize, h: usize, i: usize, j: usize) -> (r: (usize, usize))
    requires
        i < w,
        j < h,
    ensures
        (r.0 as int, r.1 as int) == phys_pos_of(
            rotate as int,
            w as int,
            h as int,
            i as int,
            j as int,
        ),
{
    match rotate {
        1 => (h - 1 - j, i),
        2 => (w - 1 - i, h - 1 - j),
        _ => (j, w - 1 - i),
    }
}

/// A turned rectangle lies on the device, and each of its pixels where the
/// whole screen's turn puts it.
pub proof fn a_rectangle_turns_like_the_screen(
    rotate: int,
    lw: int,
    lh: int,
    x: int,
    y: int,
    w: int,
    h: int,
    i: int,
    j: int,
)
    requires
        1 <= rotate <= 3,
        0 <= x,
        0 <= y,
        x + w <= lw,
        y + h <= lh,
        0 <= i < w,
        0 <= j < h,
    ensures
        ({
            let r = phys_rect_of(rotate, lw, lh, x, y, w, h);
            let d = phys_pos_of(rotate, w, h, i, j);
            let (pw, ph) = if rotate % 2 == 1 {
                (lh, lw)
            } else {
                (lw, lh)
            };
            &&& (r.0 + d.0, r.1 + d.1) == turned(rotate, lw, lh, x + i, y + j)
            &&& 0 <= r.0
            &&& 0 <= r.1
            &&& r.0 + r.2 <= pw
            &&& r.1 + r.3 <= ph
            &&& 0 <= d.0 < r.2
            &&& 0 <= d.1 < r.3
        }),
{
}

/// No two pixels of the screen share a place on the device.
pub proof fn turning_keeps_pixels_apart(
    rotate: int,
    lw: int,
    lh: int,
    a: (int, int),
    b: (int, int),
)
    requires
        0 <= rotate <= 3,
        turned(rotate, lw, lh, a.0, a.1) == turned(rotate, lw, lh, b.0, b.1),
    ensures
        a == b,
{
}

/// Bytes that go to the device from `off` on.
pub struct RowWrite {
    pub off: u64,
    pub bytes: Vec<u8>,
}

/// The pixel of a rectangle of `w` by `h` that lies at (`dx`, `dy`) of the
/// rectangle of the device that it takes.
pub open spec fn source_of(rotate: int, w: int, h: int, dx: int, dy: int) -> (int, int) {
    if rotate == 0 {
        (dx, dy)
    } else if rotate == 1 {
        (dy, h - 1 - dx)
    } else if rotate == 2 {
        (w - 1 - dx, h - 1 - dy)
    } else {
        (w - 1 - dy, dx)
    }
}

/// What lies at a place of the device is what was meant for it.
pub proof fn turning_back_finds_the_pixel(rotate: int, w: int, h: int, i: int, j: int)
    requires
        1 <= rotate <= 3,
    ensures
        ({
            let d = phys_pos_of(rotate, w, h, i, j);
            source_of(rotate, w, h, d.0, d.1) == (i, j)
        }),
{
}

/// Byte `n` of row `dy` of the rectangle of the device that a rectangle of `w` by
/// `h` pixels takes. The picture it is filled from is `pitch` pixels wide.
pub open spec fn row_byte(
    rotate: int,
    w: int,
    h: int,
    pitch: int,
    bgra: Seq<u8>,
    dy: int,
    n: int,
) -> u8 {
    let s = source_of(rotate, w, h, n / 4, dy);
    bgra[(s.1 * pitch + s.0) * 4 + n % 4]
}

impl Framebuffer {
    /// The rectangle of the device that a rectangle of the screen takes.
    pub open spec fn region_of(self, x: int, y: int, w: int, h: int) -> (int, int, int, int) {
        let c = self.clamped(x, y, w, h);
        if self.rotate == 0 {
            c
        } else {
            phys_rect_of(
                self.rotate as int,
                self.width as int,
                self.height as int,
                c.0,
                c.1,
                c.2,
                c.3,
            )
        }
    }

    /// The rectangle of the device that the part of a rectangle on the screen
    /// takes.
    pub fn phys_region(&self, x: u32, y: u32, w: u32, h: u32) -> (r: (u32, u32, u32, u32))
        ensures
            (r.0 as int, r.1 as int, r.2 as int, r.3 as int) == self.region_of(
                x as int,
                y as int,
                w as int,
                h as int,
            ),
    {
        let (x, y, w, h) = self.clamp(x, y, w, h);
        if self.rotate == 0 {
            (x, y, w, h)
        } else {
            phys_rect(self.rotate, self.width, self.height, x, y, w, h)
        }
    }

    /// Where row `dy` of a rectangle of the device starts, in bytes.
    pub open spec fn row_start(self, r: (int, int, int, int), dy: int) -> int {
        ((r.1 + dy) * self.stride + r.0) * 4
    }

    /// Row `dy` of what is written when the picture `bgra` goes to a rectangle.
    pub open spec fn row_is(
        self,
        x: int,
        y: int,
        w: int,
        h: int,
        bgra: Seq<u8>,
        dy: int,
        row: RowWrite,
    ) -> bool {
        let c = self.clamped(x, y, w, h);
        let r = self.region_of(x, y, w, h);
        &&& row.off == self.row_start(r, dy)
        &&& row.bytes@ == Seq::new(
            (r.2 * 4) as nat,
            |n: int| row_byte(self.rotate as int, c.2, c.3, w, bgra, dy, n),
        )
    }

    /// The rows to write when a picture of `w` by `h` pixels goes to a rectangle of
    /// the screen. What lies beside the screen is left out; a rectangle that lies
    /// beside it altogether takes no rows.
    pub fn blit(&self, x: u32, y: u32, w: u32, h: u32, bgra: &[u8]) -> (rows: Vec<RowWrite>)
        requires
            self.wf(),
            ({
                let c = self.clamped(x as int, y as int, w as int, h as int);
                c.2 > 0 && c.3 > 0 ==> ((c.3 - 1) * w + c.2) * 4 <= bgra@.len()
            }),
        ensures
            ({
                let c = self.clamped(x as int, y as int, w as int, h as int);
                rows@.len() == if c.2 == 0 || c.3 == 0 {
                    0
                } else {
                    self.region_of(x as int, y as int, w as int, h as int).3
                }
            }),
            forall|dy: int|
                0 <= dy < rows@.len() ==> self.row_is(
                    x as int,
                    y as int,
                    w as int,
                    h as int,
                    bgra@,
                    dy,
                    #[trigger] rows@[dy],
                ),
    {
        let (cx, cy, cw, ch) = self.clamp(x, y, w, h);
        let mut rows: Vec<RowWrite> = Vec::new();
        if cw == 0 || ch == 0 {
            return rows;
        }
        let (px, py, pw, ph) = self.phys_region(x, y, w, h);
        let ghost c = self.clamped(x as int, y as int, w as int, h as int);
        let ghost r = self.region_of(x as int, y as int, w as int, h as int);
        for dy in 0..ph
            invariant
                self.wf(),
                c == self.clamped(x as int, y as int, w as int, h as int),
                r == self.region_of(x as int, y as int, w as int, h as int),
                cw == c.2,
                ch == c.3,
                cw > 0,
                ch > 0,
                px == r.0,
                py == r.1,
                pw == r.2,
                ph == r.3,
                py + ph <= u32::MAX,
                (pw, ph) == if self.rotate % 2 == 1 {
                    (ch, cw)
                } else {
                    (cw, ch)
                },
                ((ch - 1) * w + cw) * 4 <= bgra@.len(),
                rows@.len() == dy,
                forall|k: int|
                    0 <= k < dy ==> self.row_is(
                        x as int,
                        y as int,
                        w as int,
                        h as int,
                        bgra@,
                        k,
                        #[trigger] rows@[k],
                    ),
        {
            assert((py + dy) * self.stride <= 0xffff_fffe * 0x3fff_ffff) by (nonlinear_arith)
                requires
                    0 <= py + dy <= 0xffff_fffe,
                    0 <= self.stride <= 0x3fff_ffff,
            ;
            let off: u64 = ((py as u64 + dy as u64) * self.stride as u64 + px as u64) * 4;
            let bytes = Self::device_row(self.rotate, cw, ch, w, bgra, dy, pw);
            rows.push(RowWrite { off, bytes });
        }
        rows
    }

    /// Row `dy` of a rectangle of `w` by `h` pixels on the device, where it is
    /// `pw` pixels wide, from a picture that is `pitch` pixels wide.
    fn device_row(rotate: u8, w: u32, h: u32, pitch: u32, bgra: &[u8], dy: u32, pw: u32) -> (r: Vec<
        u8,
    >)
        requires
            rotate < 4,
            h > 0,
            ((h - 1) * pitch + w) * 4 <= bgra@.len(),
            pw == if rotate % 2 == 1 {
                h
            } else {
                w
            },
            dy < if rotate % 2 == 1 {
                w
            } else {
                h
            },
        ensures
            r@ == Seq::new(
                (pw * 4) as nat,
                |n: int|
                    row_byte(
                        rotate as int,
                        w as int,
                        h as int,
                        pitch as int,
                        bgra@,
                        dy as int,
                        n,
                    ),
            ),
    {
        let len: usize = bgra.len();
        let mut r: Vec<u8> = Vec::new();
        for dx in 0..pw
            invariant
                rotate < 4,
                ((h - 1) * pitch + w) * 4 <= bgra@.len() == len,
                pw == if rotate % 2 == 1 {
                    h
                } else {
                    w
                },
                dy < if rotate % 2 == 1 {
                    w
                } else {
                    h
                },
                r@.len() == dx * 4,
                forall|n: int|
                    0 <= n < dx * 4 ==> #[trigger] r@[n] == row_byte(
                        rotate as int,
                        w as int,
                        h as int,
                        pitch as int,
                        bgra@,
                        dy as int,
                        n,
                    ),
        {
            let (i, j): (u32, u32) = match rotate {
                0 => (dx, dy),
                1 => (dy, h - 1 - dx),
                2 => (w - 1 - dx, h - 1 - dy),
                _ => (w - 1 - dy, dx),
            };
            assert(i < w && j < h);
            assert(0 <= j * pitch && (j * pitch + i) * 4 + 4 <= ((h - 1) * pitch + w) * 4)
                by (nonlinear_arith)
                requires
                    0 <= i <= w - 1,
                    0 <= j <= h - 1,
                    0 <= pitch,
            ;
            let off: usize = (j as usize * pitch as usize + i as usize) * 4;
            r.push(bgra[off]);
            r.push(bgra[off + 1]);
            r.push(bgra[off + 2]);
            r.push(bgra[off + 3]);
            assert forall|n: int| 0 <= n < (dx + 1) * 4 implies #[trigger] r@[n] == row_byte(
                rotate as int,
                w as int,
                h as int,
                pitch as int,
                bgra@,
                dy as int,
                n,
            ) by {
                if n >= dx * 4 {
                    assert(n / 4 == dx);
                }
            }
        }
        r
    }

    /// The rows to write when a rectangle of the screen is made black.
    pub fn clear(&self, x: u32, y: u32, w: u32, h: u32) -> (rows: Vec<RowWrite>)
        requires
            self.wf(),
            ({
                let c = self.clamped(x as int, y as int, w as int, h as int);
                c.2 * c.3 * 4 <= usize::MAX
            }),
        ensures
            ({
                let c = self.clamped(x as int, y as int, w as int, h as int);
                rows@.len() == if c.2 == 0 || c.3 == 0 {
                    0
                } else {
                    self.region_of(x as int, y as int, w as int, h as int).3
                }
            }),
            forall|dy: int| #![trigger rows@[dy]]
                0 <= dy < rows@.len() ==> {
                    let r = self.region_of(x as int, y as int, w as int, h as int);
                    &&& rows@[dy].off == self.row_start(r, dy)
                    &&& rows@[dy].bytes@ == Seq::new((r.2 * 4) as nat, |n: int| 0u8)
                },
    {
        let (cx, cy, cw, ch) = self.clamp(x, y, w, h);
        assert(cw * ch <= usize::MAX) by (nonlinear_arith)
            requires
                cw * ch * 4 <= usize::MAX,
                0 <= cw * ch,
        ;
        let n: usize = cw as usize * ch as usize * 4;
        let mut black: Vec<u8> = Vec::new();
        for i in 0..n
            invariant
                black@.len() == i,
                forall|k: int| 0 <= k < i ==> #[trigger] black@[k] == 0,
        {
            black.push(0);
        }
        assert(cw > 0 && ch > 0 ==> (ch - 1) * cw + cw == cw * ch) by (nonlinear_arith);
        let rows = self.blit(cx, cy, cw, ch, black.as_slice());
        assert forall|dy: int| #![trigger rows@[dy]] 0 <= dy < rows@.len() implies {
            let r = self.region_of(x as int, y as int, w as int, h as int);
            &&& rows@[dy].off == self.row_start(r, dy)
            &&& rows@[dy].bytes@ == Seq::new((r.2 * 4) as nat, |n: int| 0u8)
        } by {
            let r = self.region_of(x as int, y as int, w as int, h as int);
            assert(self.row_is(cx as int, cy as int, cw as int, ch as int, black@, dy, rows@[dy]));
            assert forall|n: int| 0 <= n < r.2 * 4 implies row_byte(
                self.rotate as int,
                cw as int,
                ch as int,
                cw as int,
                black@,
                dy,
                n,
            ) == 0 by {
                let s = source_of(self.rotate as int, cw as int, ch as int, n / 4, dy);
                assert(0 <= s.0 <= cw - 1 && 0 <= s.1 <= ch - 1);
                assert(0 <= s.1 * cw && (s.1 * cw + s.0) * 4 + 4 <= cw * ch * 4)
                    by (nonlinear_arith)
                    requires
                        0 <= s.0 <= cw - 1,
                        0 <= s.1 <= ch - 1,
                ;
            }
            assert(rows@[dy].bytes@ =~= Seq::new((r.2 * 4) as nat, |n: int| 0u8));
        }
        rows
    }
}

/// A pixel of a picture that lies on the screen ends up where the turn of the
/// whole screen puts it, in the row that holds that place of the device, also
/// where other pixels of the picture lie beside the screen.
pub proof fn a_blit_puts_every_pixel_in_its_place(
    fb: Framebuffer,
    x: int,
    y: int,
    w: int,
    h: int,
    bgra: Seq<u8>,
    rows: Seq<RowWrite>,
    i: int,
    j: int,
    k: int,
)
    requires
        fb.wf(),
        0 <= x,
        0 <= y,
        0 <= i < w,
        0 <= j < h,
        x + i < fb.width,
        y + j < fb.height,
        0 <= k < 4,
        rows.len() == fb.region_of(x, y, w, h).3,
        forall|dy: int|
            0 <= dy < rows.len() ==> fb.row_is(x, y, w, h, bgra, dy, #[trigger] rows[dy]),
    ensures
        ({
            let at = turned(fb.rotate as int, fb.width as int, fb.height as int, x + i, y + j);
            let r = fb.region_of(x, y, w, h);
            let row = rows[at.1 - r.1];
            &&& 0 <= at.1 - r.1 < rows.len()
            &&& row.off <= (at.1 * fb.stride + at.0) * 4 + k < row.off + row.bytes@.len()
            &&& row.bytes@[(at.1 * fb.stride + at.0) * 4 + k - row.off] == bgra[(j * w + i) * 4
                + k]
        }),
{
    let rot = fb.rotate as int;
    let at = turned(rot, fb.width as int, fb.height as int, x + i, y + j);
    let r = fb.region_of(x, y, w, h);
    let c = fb.clamped(x, y, w, h);
    assert(c.0 == x && c.1 == y && i < c.2 && j < c.3);
    if rot != 0 {
        a_rectangle_turns_like_the_screen(
            rot,
            fb.width as int,
            fb.height as int,
            x,
            y,
            c.2,
            c.3,
            i,
            j,
        );
        turning_back_finds_the_pixel(rot, c.2, c.3, i, j);
    }
    let dy = at.1 - r.1;
    let dx = at.0 - r.0;
    assert(0 <= dy < rows.len());
    assert(fb.row_is(x, y, w, h, bgra, dy, rows[dy]));
    let n = dx * 4 + k;
    assert((at.1 * fb.stride + at.0) * 4 + k - rows[dy].off == n);
    assert(n / 4 == dx && n % 4 == k);
}

/// A turn is a number of quarters, of which four are none; white space around the
/// number does not count.
pub proof fn four_quarters_make_no_turn(n: nat, a: Seq<char>, b: Seq<char>)
    requires
        n <= u8::MAX,
        forall|i: int| 0 <= i < a.len() ==> scan::is_space(#[trigger] a[i]),
        forall|i: int| 0 <= i < b.len() ==> scan::is_space(#[trigger] b[i]),
    ensures
        ({
            let t = turn_in(a + scan::decimal(n) + b);
            t is Some && 0 <= t->0 < 4 && (n - t->0) % 4 == 0
        }),
        turn_in(a) is None,
{
    let d = scan::decimal(n);
    let none = Seq::<char>::empty();
    scan::decimals_are_digits(n);
    assert('0' <= d[0] <= '9' && '0' <= d[d.len() - 1] <= '9');
    scan::white_space_is_what_separates_words(d[0]);
    scan::white_space_is_what_separates_words(d.last());
    scan::only_outer_white_space_is_trimmed(a, d, b);
    scan::decimal_reads_back(n, u8::MAX as int);
    scan::only_outer_white_space_is_trimmed(a, none, none);
    assert(a + none + none =~= a);
    scan::only_digits_make_a_number(none, 0, 0, u8::MAX as int);
}

/// A line of the settings gives a turn if it starts with the word for it, and
/// then the one that follows it.
pub proof fn a_setting_gives_a_turn(value: Seq<char>, line: Seq<char>)
    requires
        value.len() > 0,
        !scan::is_space(value.last()),
    ensures
        turn_of_line("screen-rotate="@ + value) == turn_in(value),
        line.len() > 0 && !scan::is_space(line[0]) && !scan::is_space(line.last()) && line[0]
            != 's' ==> turn_of_line(line) is None,
        turn_of_line(seq![]) is None,
{
    reveal_strlit("screen-rotate=");
    let key = "screen-rotate="@;
    assert(key.len() == 14 && key[0] == 's');
    let none = Seq::<char>::empty();
    let t = key + value;
    assert(t.last() == value.last());
    scan::white_space_is_what_separates_words('s');
    scan::only_outer_white_space_is_trimmed(none, t, none);
    assert(none + t + none =~= t);
    assert(t.take(14) =~= key);
    assert(key.is_prefix_of(t));
    assert(t.skip(14) =~= value);
    if line.len() > 0 && !scan::is_space(line[0]) && !scan::is_space(line.last()) && line[0]
        != 's' {
        scan::only_outer_white_space_is_trimmed(none, line, none);
        assert(none + line + none =~= line);
        if key.is_prefix_of(line) {
            assert(key[0] == line[0]);
        }
    }
    scan::only_outer_white_space_is_trimmed(none, none, none);
    assert(none + none + none =~= none);
}

/// Of several lines the first that gives a turn counts; where none does, there is
/// no turn.
pub proof fn the_first_setting_counts(lines: Seq<Seq<char>>, i: int)
    requires
        0 <= i <= lines.len(),
        i < lines.len() ==> turn_of_line(lines[i]) is Some,
        forall|j: int| 0 <= j < i ==> turn_of_line(#[trigger] lines[j]) is None,
    ensures
        i < lines.len() ==> turn_of_lines(lines) == turn_of_line(lines[i])->0,
        i == lines.len() ==> turn_of_lines(lines) == 0,
    decreases i,
{
    if i > 0 {
        let t = lines.drop_first();
        assert(turn_of_line(lines[0]) is None);
        assert forall|j: int| 0 <= j < i - 1 implies turn_of_line(#[trigger] t[j]) is None by {
            assert(turn_of_line(lines[j + 1]) is None);
        }
        the_first_setting_counts(t, i - 1);
    }
}

/// The variable counts before the settings, but only if it is a number; without
/// either there is no turn.
pub proof fn the_variable_counts_first(var: Seq<char>, rc: Option<Seq<char>>, text: Seq<char>)
    ensures
        turn_in(var) is Some ==> turn_of(Some(var), rc) == turn_in(var)->0,
        turn_in(var) is None ==> turn_of(Some(var), rc) == turn_of(None, rc),
        turn_of(None, Some(text)) == turn_of_lines(scan::lines_of(text)),
        turn_of(None, None) == 0,
{
}

/// A size is the width, a comma and the height; without a comma there is none.
pub proof fn a_size_is_width_and_height(w: nat, h: nat, text: Seq<char>)
    requires
        w <= u32::MAX,
        h <= u32::MAX,
        forall|i: int| 0 <= i < text.len() ==> #[trigger] text[i] != ',',
        text.len() > 0 ==> !scan::is_space(text[0]) && !scan::is_space(text.last()),
    ensures
        size_in(scan::decimal(w).push(',') + scan::decimal(h).push('\n')) == Some(
            (Some(w as int), Some(h as int)),
        ),
        number_in(scan::decimal(w).push('\n')) == Some(w as int),
        size_in(text) is None,
{
    let a = scan::decimal(w);
    let b = scan::decimal(h);
    let none = Seq::<char>::empty();
    let end = seq!['\n'];
    scan::decimals_are_digits(w);
    scan::decimals_are_digits(h);
    assert('0' <= a[0] <= '9' && '0' <= b[0] <= '9' && '0' <= b[b.len() - 1] <= '9' && '0' <= a[
        a.len() - 1] <= '9');
    scan::white_space_is_what_separates_words(a[0]);
    scan::white_space_is_what_separates_words(a.last());
    scan::white_space_is_what_separates_words(b[0]);
    scan::white_space_is_what_separates_words(b.last());
    let s = a.push(',') + b;
    assert(s.last() == b.last());
    scan::only_outer_white_space_is_trimmed(none, s, end);
    assert(none + s + end =~= a.push(',') + b.push('\n'));
    assert forall|i: int| 0 <= i < a.len() implies #[trigger] a[i] != ',' by {
        assert('0' <= a[i] <= '9');
    }
    scan::the_first_separator_cuts(a, b, ',');
    scan::only_outer_white_space_is_trimmed(none, b, none);
    assert(none + b + none =~= b);
    scan::only_outer_white_space_is_trimmed(none, a, end);
    assert(none + a + end =~= a.push('\n'));
    scan::decimal_reads_back(w, u32::MAX as int);
    scan::decimal_reads_back(h, u32::MAX as int);
    scan::only_outer_white_space_is_trimmed(none, text, none);
    assert(none + text + none =~= text);
    scan::the_first_separator_cuts(text, none, ',');
}

/// The part of a rectangle that lies on the screen holds exactly the points of the
/// rectangle that the screen has.
pub proof fn a_clamped_rectangle_is_what_the_screen_shows(
    fb: Framebuffer,
    x: int,
    y: int,
    w: int,
    h: int,
    px: int,
    py: int,
)
    requires
        0 <= x,
        0 <= y,
        0 <= w,
        0 <= h,
    ensures
        ({
            let c = fb.clamped(x, y, w, h);
            let kept = c.0 <= px < c.0 + c.2 && c.1 <= py < c.1 + c.3;
            let meant = x <= px < x + w && y <= py < y + h;
            let seen = 0 <= px < fb.width && 0 <= py < fb.height;
            &&& kept <==> meant && seen
            &&& c.2 >= 0 && c.3 >= 0
            &&& x + w <= fb.width && y + h <= fb.height ==> c == (x, y, w, h)
        }),
{
}

/// A quarter turn takes the screen's left edge to the device's top, with the
/// screen's top at the right; half a turn takes each corner to the one across; and
/// three quarters undo what one does.
pub proof fn quarters_turn_corners(lw: int, lh: int, x: int, y: int)
    ensures
        turned(0, lw, lh, x, y) == (x, y),
        turned(1, lw, lh, 0, 0) == (lh - 1, 0int),
        turned(1, lw, lh, 0, lh - 1) == (0int, 0int),
        turned(2, lw, lh, 0, 0) == (lw - 1, lh - 1),
        turned(3, lw, lh, 0, 0) == (0int, lw - 1),
        ({
            let a = turned(1, lw, lh, x, y);
            turned(3, lh, lw, a.0, a.1) == (x, y) && turned(1, lh, lw, a.0, a.1) == turned(
                2,
                lw,
                lh,
                x,
                y,
            )
        }),
        ({
            let a = turned(2, lw, lh, x, y);
            turned(2, lw, lh, a.0, a.1) == (x, y)
        }),
{
}

/// Rows of the device lie one stride apart, four bytes to a pixel, and a row of a
/// rectangle starts at its left edge.
pub proof fn device_rows_lie_a_stride_apart(fb: Framebuffer, r: (int, int, int, int), dy: int)
    ensures
        fb.row_start(r, dy + 1) - fb.row_start(r, dy) == 4 * fb.stride,
        fb.row_start((0, 0, r.2, r.3), 0) == 0,
        fb.row_start((r.0 + 1, r.1, r.2, r.3), dy) - fb.row_start(r, dy) == 4,
        fb.row_start((r.0, r.1 + 1, r.2, r.3), dy) == fb.row_start(r, dy + 1),
{
    let s = fb.stride as int;
    assert((r.1 + dy + 1) * s == (r.1 + dy) * s + s) by (nonlinear_arith);
    assert((r.1 + (dy + 1)) * s == (r.1 + dy + 1) * s);
    assert((r.1 + 1 + dy) * s == (r.1 + dy + 1) * s);
    assert((0 + 0) * s == 0) by (nonlinear_arith);
}

/// The pixel (`i`, `j`) of a picture goes, with all its bytes, to the place that
/// the turn of the rectangle gives it.
pub proof fn a_row_holds_whole_pixels(
    rotate: int,
    w: int,
    h: int,
    pitch: int,
    bgra: Seq<u8>,
    i: int,
    j: int,
    k: int,
)
    requires
        0 <= rotate <= 3,
        0 <= i < w,
        0 <= j < h,
        0 <= k < 4,
    ensures
        ({
            let at = turned(rotate, w, h, i, j);
            row_byte(rotate, w, h, pitch, bgra, at.1, 4 * at.0 + k) == bgra[4 * (j * pitch + i)
                + k]
        }),
{
    let at = turned(rotate, w, h, i, j);
    assert((4 * at.0 + k) / 4 == at.0 && (4 * at.0 + k) % 4 == k);
}

} // verus!
