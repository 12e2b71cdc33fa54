//! What is drawn on the bar, in which order, where and in which colours.

use crate::actions::{icon, ICON_COUNT};
use crate::actions;
use crate::art::{Accent, ACCENT_EDGE};
use crate::bar::{Bar, MARK_H};
use crate::clawd::{Row, St};
use crate::grid;
use crate::grid::{ClawdLayout, GridIn, CLAWD_COL_GAP, CLAWD_NAME_GAP, CLAWD_PAD_X};
use crate::mark::{mark, Mark};
use crate::mark;
use crate::np::NowPlaying;
use crate::panel;
use crate::panel::{max_of, minus, Rect};
use crate::player::{Ctrl, Loop, PlayerState};
use crate::raster;
use crate::tmux::State;
use vstd::prelude::*;

verus! {

// Colours are given blue first, as the buffer holds them.
/// The bar's own colour.
pub const BG: [u8; 3] = [0xFA, 0xE0, 0xD6];

pub const WHITE: [u8; 3] = [255, 255, 255];

pub const BLACK: [u8; 3] = [0, 0, 0];

pub const SHADOW: [u8; 3] = [0x5A, 0x2D, 0x1E];

pub const PANEL: [u8; 3] = [0x33, 0x1E, 0x16];

pub const PANEL_EDGE: [u8; 3] = [0x5E, 0x40, 0x33];

pub const GREEN: [u8; 3] = [0x60, 0xD7, 0x1E];

pub const SUB_TEXT: [u8; 3] = [0xB3, 0xB3, 0xB3];

pub const GROOVE: [u8; 3] = [0x78, 0x55, 0x4A];

pub const ART_BG: [u8; 3] = [0x50, 0x30, 0x26];

pub const CLAWD_NAME: [u8; 3] = [0x1A, 0x1A, 0x14];

pub const CLAWD_NAME_SEEN: [u8; 3] = [0x8C, 0x82, 0x78];

pub const CLAWD_ASK: [u8; 3] = [217, 144, 74];

pub const CLAWD_DONE: [u8; 3] = [76, 201, 242];

pub const CLAWD_SEEN: [u8; 3] = [158, 158, 158];

/// How far a running assistant bobs.
pub const CLAWD_BOB: u32 = 2;

/// How long it stays up or down, in milliseconds.
pub const CLAWD_BOB_MS: u64 = 300;

pub const CLAWD_SHADOW_DX: u32 = 1;

pub const CLAWD_SHADOW_DY: u32 = 2;

/// The pictures on the buttons.
pub const G_SHUFFLE: usize = 0;

pub const G_PREV: usize = 1;

pub const G_PLAY: usize = 2;

pub const G_PAUSE: usize = 3;

pub const G_NEXT: usize = 4;

pub const G_REPEAT: usize = 5;

pub const G_REPEAT1: usize = 6;

/// Which picture is laid on the bar in its own colours.
#[derive(Clone, Copy, Debug, PartialEq, Eq)]
pub enum Picture {
    /// That of an icon.
    Icon(usize),
    /// The one that stands for missing art.
    NoArt,
}

/// Which text is written.
#[derive(Clone, Copy, Debug, PartialEq, Eq)]
pub enum Text {
    Title,
    Artist,
    /// What is written beside an assistant.
    Label(usize),
}

/// A step of drawing. A radius is given twice over, in half pixels.
#[derive(Clone, Copy, Debug, PartialEq, Eq)]
pub enum Op {
    /// Fills the bar.
    Clear { color: [u8; 3] },
    /// The shadow of a disc.
    DiscShadow { x: u32, y: u32, d: u32 },
    Disc { x: u32, y: u32, d: u32, color: [u8; 3] },
    /// A picture in its own colours.
    Glyph { picture: Picture, x: u32, y: u32 },
    /// A button's picture in one colour.
    Tint { button: usize, x: u32, y: u32, color: [u8; 3] },
    /// A rectangle with round corners.
    Round { rect: Rect, radius2: u32, color: [u8; 3] },
    /// The same, from one colour at its left to another.
    Fade { rect: Rect, radius2: u32, from: [u8; 3], to: [u8; 3] },
    RectShadow { rect: Rect, radius2: u32 },
    /// The album art, with round corners.
    Art { rect: Rect, radius2: u32 },
    /// A line of text at `x`, in the middle of the rows from `y` on, no wider
    /// than `max`.
    Text { line: Text, x: u32, y: u32, h: u32, max: u32, color: [u8; 3] },
    /// An assistant, in the given body colour.
    Sprite { x: u32, y: u32, w: u32, h: u32, body: [u8; 3] },
    /// The shadow of an assistant.
    SpriteShadow { x: u32, y: u32, w: u32, h: u32 },
}

/// The assistants to draw.
pub struct ClawdView<'a> {
    pub rows: &'a [Row],
    /// Whether those at work are down.
    pub phase: bool,
}

/// What the panel shows.
pub struct NpView<'a> {
    pub np: &'a NowPlaying,
    pub player: PlayerState,
    /// The album art in the bytes of the screen, if it is there.
    pub art: Option<&'a [u8]>,
    pub accent: Accent,
    /// How many pixels of the progress bar are filled.
    pub filled: u32,
}

impl Bar {
    /// The steps that draw icon `i`: the disc, the picture on it, and the line
    /// below it if there is one.
    pub open spec fn tile_ops(self, i: int, m: Mark) -> Seq<Op> {
        let x = self.xs@[i];
        let d = self.tile_d;
        let off = (d - self.glyph_side()) / 2;
        let base = seq![
            Op::Disc { x, y: self.tile_y, d, color: WHITE },
            Op::Glyph {
                picture: Picture::Icon(i as usize),
                x: (x + off) as u32,
                y: (self.tile_y + off) as u32,
            },
        ];
        match m.look() {
            Some((color, pct)) => {
                let mw = panel::most(d * pct / 100, MARK_H as int);
                base.push(
                    Op::Round {
                        rect: Rect {
                            x: (x + (d - mw) / 2) as u32,
                            y: self.mark_y,
                            w: mw as u32,
                            h: MARK_H,
                        },
                        radius2: MARK_H,
                        color,
                    },
                )
            },
            None => base,
        }
    }

    /// The steps that draw the first `n` icons.
    pub open spec fn tiles_ops(self, state: State, n: int) -> Seq<Op>
        decreases n,
    {
        if n <= 0 {
            seq![]
        } else {
            self.tiles_ops(state, n - 1) + self.tile_ops(
                n - 1,
                mark::mark_of(actions::icon_session(n - 1), state),
            )
        }
    }

    /// The shadows of all icons, which are drawn before any of them.
    pub open spec fn shadow_ops(self) -> Seq<Op> {
        Seq::new(
            self.xs@.len(),
            |i: int| Op::DiscShadow { x: self.xs@[i], y: self.tile_y, d: self.tile_d },
        )
    }

    /// The panel's background: shadow, border and fill. A panel of no size has
    /// none.
    pub open spec fn np_bg_ops(self, accent: Accent) -> Seq<Op> {
        let p = self.np.panel;
        if p.w < 3 || p.h < 3 {
            seq![]
        } else {
            seq![
                Op::RectShadow { rect: p, radius2: 20 },
                Op::Fade { rect: p, radius2: 20, from: accent.edge, to: PANEL_EDGE },
                Op::Fade {
                    rect: Rect {
                        x: (p.x + 1) as u32,
                        y: (p.y + 1) as u32,
                        w: (p.w - 2) as u32,
                        h: (p.h - 2) as u32,
                    },
                    radius2: 18,
                    from: accent.fill,
                    to: PANEL,
                },
            ]
        }
    }

    /// What stands for missing art.
    pub open spec fn no_art_ops(self) -> Seq<Op> {
        let a = self.np.art;
        let off = (a.w - self.art_glyph_side()) / 2;
        seq![
            Op::Round { rect: a, radius2: 12, color: ART_BG },
            Op::Glyph {
                picture: Picture::NoArt,
                x: (a.x + off) as u32,
                y: (a.y + off) as u32,
            },
        ]
    }

    /// The picture on button `i` and its colour: green where the button is on.
    pub open spec fn button_look(i: int, p: PlayerState) -> (usize, [u8; 3]) {
        match Ctrl::at_place(i) {
            Ctrl::Shuffle => (
                G_SHUFFLE,
                if p.shuffle {
                    GREEN
                } else {
                    WHITE
                },
            ),
            Ctrl::Prev => (G_PREV, WHITE),
            Ctrl::PlayPause => (
                if p.playing {
                    G_PAUSE
                } else {
                    G_PLAY
                },
                BLACK,
            ),
            Ctrl::Next => (G_NEXT, WHITE),
            Ctrl::Repeat => match p.repeat {
                Loop::Off => (G_REPEAT, WHITE),
                Loop::Playlist => (G_REPEAT, GREEN),
                Loop::Track => (G_REPEAT1, GREEN),
            },
        }
    }

    /// The steps that draw button `i`. The play button lies on a white disc.
    pub open spec fn ctrl_ops(self, i: int, p: PlayerState) -> Seq<Op> {
        let (x, y, d) = (self.np.btn_xs@[i], self.np.btn_y@[i], self.np.btn_d@[i]);
        let off = panel::less(d as int, self.ctrl_side(i)) / 2;
        let (button, color) = Self::button_look(i, p);
        let glyph = Op::Tint { button, x: (x + off) as u32, y: (y + off) as u32, color };
        if i == 2 {
            seq![Op::Disc { x, y, d, color: WHITE }, glyph]
        } else {
            seq![glyph]
        }
    }

    /// The steps that draw the first `n` buttons.
    pub open spec fn ctrls_ops(self, p: PlayerState, n: int) -> Seq<Op>
        decreases n,
    {
        if n <= 0 {
            seq![]
        } else {
            self.ctrls_ops(p, n - 1) + self.ctrl_ops(n - 1, p)
        }
    }

    /// The title and the artist, if there is a font and the column is wide
    /// enough.
    pub open spec fn np_text_ops(self, text: bool) -> Seq<Op> {
        let l = self.np;
        if text && l.col2_w > 4 {
            seq![
                Op::Text {
                    line: Text::Title,
                    x: l.col2_x,
                    y: l.row1_y,
                    h: l.row1_h,
                    max: l.col2_w,
                    color: WHITE,
                },
                Op::Text {
                    line: Text::Artist,
                    x: l.col2_x,
                    y: l.row2_y,
                    h: l.row2_h,
                    max: l.col2_w,
                    color: SUB_TEXT,
                },
            ]
        } else {
            seq![]
        }
    }

    /// The progress bar: the groove, and the part that is filled unless it is
    /// shorter than it is high.
    pub open spec fn progress_ops(self, filled: u32) -> Seq<Op> {
        let p = self.np.prog;
        let groove = Op::Round { rect: p, radius2: p.h, color: GROOVE };
        if filled >= p.h {
            seq![
                groove,
                Op::Round {
                    rect: Rect { x: p.x, y: p.y, w: filled, h: p.h },
                    radius2: p.h,
                    color: GREEN,
                },
            ]
        } else {
            seq![groove]
        }
    }

    /// Whether there are enough bytes for the art.
    pub open spec fn art_there(self, art: Option<&[u8]>) -> bool {
        match art {
            Some(b) => b@.len() >= self.np.art.w * self.np.art.h * 4,
            None => false,
        }
    }

    /// The steps that draw the panel.
    pub open spec fn np_ops(self, v: NpView, text: bool) -> Seq<Op> {
        self.np_bg_ops(v.accent) + (if self.art_there(v.art) {
            seq![Op::Art { rect: self.np.art, radius2: 12 }]
        } else {
            self.no_art_ops()
        }) + self.np_text_ops(text) + self.ctrls_ops(v.player, 5) + self.progress_ops(v.filled)
    }
}

/// The colour of an assistant's body; `own` is that of the picture itself.
pub open spec fn body_of(st: St, own: [u8; 3]) -> [u8; 3] {
    match st {
        St::Run => own,
        St::Ask => CLAWD_ASK,
        St::Done => CLAWD_DONE,
        St::Seen => CLAWD_SEEN,
    }
}

/// The height of an assistant: a little less while at work, to leave room for
/// its bobbing.
pub open spec fn height_of(st: St, h: int) -> int {
    if st == St::Run {
        panel::most(panel::less(h, CLAWD_BOB as int), 1)
    } else {
        h
    }
}

/// How far down an assistant is drawn.
pub open spec fn drop_of(st: St, phase: bool) -> int {
    if st == St::Run && phase {
        CLAWD_BOB as int
    } else {
        0
    }
}

/// Where the text of cell `i` has to end when `n` assistants are drawn: at the
/// end of the cell, or at the end of the frame if the cell to its right is
/// empty.
pub open spec fn text_right(l: ClawdLayout, i: int, n: int) -> int {
    if i + l.grid_rows >= n {
        l.panel.x + l.panel.w - CLAWD_PAD_X
    } else {
        l.cells@[i].x + l.cells@[i].w
    }
}

/// The steps that draw the assistant in cell `i`: its shadow, itself, and the
/// text beside it.
pub open spec fn cell_ops(
    l: ClawdLayout,
    own: [u8; 3],
    rows: Seq<Row>,
    phase: bool,
    text: bool,
    i: int,
) -> Seq<Op> {
    let r = l.cells@[i];
    let st = rows[i].st;
    let h = height_of(st, l.sprite_h as int) as u32;
    let y = r.y + (r.h - l.sprite_h) / 2 + drop_of(st, phase);
    let tx = r.x + l.sprite_w + CLAWD_NAME_GAP;
    let max = panel::less(text_right(l, i, rows.len() as int), tx);
    let base = seq![
        Op::SpriteShadow {
            x: (r.x + CLAWD_SHADOW_DX) as u32,
            y: (y + CLAWD_SHADOW_DY) as u32,
            w: l.sprite_w,
            h,
        },
        Op::Sprite { x: r.x, y: y as u32, w: l.sprite_w, h, body: body_of(st, own) },
    ];
    if text && max > 4 {
        base.push(
            Op::Text {
                line: Text::Label(i as usize),
                x: tx as u32,
                y: r.y,
                h: r.h,
                max: max as u32,
                color: if st == St::Seen {
                    CLAWD_NAME_SEEN
                } else {
                    CLAWD_NAME
                },
            },
        )
    } else {
        base
    }
}

/// The steps that draw the first `n` assistants.
pub open spec fn cells_ops(
    l: ClawdLayout,
    own: [u8; 3],
    rows: Seq<Row>,
    phase: bool,
    text: bool,
    n: int,
) -> Seq<Op>
    decreases n,
{
    if n <= 0 {
        seq![]
    } else {
        cells_ops(l, own, rows, phase, text, n - 1) + cell_ops(l, own, rows, phase, text, n - 1)
    }
}

impl Bar {
    /// The steps that draw the assistants: as many as have a cell, and none
    /// without a frame or a picture.
    pub open spec fn clawd_ops(self, v: ClawdView, text: bool) -> Seq<Op> {
        match (self.clawd, self.sprite) {
            (Some(l), Some(s)) => cells_ops(
                l,
                s.body,
                v.rows@,
                v.phase,
                text,
                panel::least(v.rows@.len() as int, l.cells@.len() as int),
            ),
            _ => seq![],
        }
    }

    /// The steps that draw the bar. `text` says whether there is a font.
    pub open spec fn ops(
        self,
        state: State,
        np: Option<NpView>,
        clawd: Option<ClawdView>,
        text: bool,
    ) -> Seq<Op> {
        seq![Op::Clear { color: BG }] + self.shadow_ops() + self.tiles_ops(
            state,
            ICON_COUNT as int,
        ) + (match np {
            Some(v) => self.np_ops(v, text),
            None => self.np_bg_ops(Accent::plain()) + self.no_art_ops(),
        }) + (match clawd {
            Some(v) => self.clawd_ops(v, text),
            None => seq![],
        })
    }
}


impl Bar {
    fn draw_tile(&self, out: &mut Vec<Op>, i: usize, m: Mark)
        requires
            self.wf(),
            i < ICON_COUNT,
        ensures
            final(out)@ == old(out)@ + self.tile_ops(i as int, m),
    {
        let x: u32 = self.xs[i];
        let d: u32 = self.tile_d;
        let px: u32 = self.glyph_px();
        let off: u32 = (d - px) / 2;
        let ghost before = out@;
        out.push(Op::Disc { x, y: self.tile_y, d, color: WHITE });
        out.push(Op::Glyph { picture: Picture::Icon(i), x: x + off, y: self.tile_y + off });
        match m.style() {
            Some((color, pct)) => {
                assert(0 <= d * pct <= d * 50) by (nonlinear_arith)
                    requires
                        0 <= pct <= 50,
                        0 <= d,
                ;
                let mw: u32 = max_of(d as u64 * pct as u64 / 100, MARK_H as u64) as u32;
                let rect = Rect { x: x + (d - mw) / 2, y: self.mark_y, w: mw, h: MARK_H };
                out.push(Op::Round { rect, radius2: MARK_H, color });
            },
            None => {},
        }
        assert(out@ =~= before + self.tile_ops(i as int, m));
    }

    fn draw_shadow(&self, out: &mut Vec<Op>)
        ensures
            final(out)@ == old(out)@ + self.shadow_ops(),
    {
        let ghost before = out@;
        let n: usize = self.xs.len();
        for i in 0..n
            invariant
                n == self.xs@.len(),
                out@ == before + self.shadow_ops().take(i as int),
        {
            out.push(Op::DiscShadow { x: self.xs[i], y: self.tile_y, d: self.tile_d });
            assert(self.shadow_ops().take(i + 1) =~= self.shadow_ops().take(i as int).push(
                self.shadow_ops()[i as int],
            ));
        }
        assert(self.shadow_ops().take(n as int) =~= self.shadow_ops());
    }

    fn draw_np_bg(&self, out: &mut Vec<Op>, accent: Accent)
        requires
            self.wf(),
        ensures
            final(out)@ == old(out)@ + self.np_bg_ops(accent),
    {
        let ghost before = out@;
        let p = self.np.panel;
        if p.w >= 3 && p.h >= 3 {
            out.push(Op::RectShadow { rect: p, radius2: 20 });
            out.push(Op::Fade { rect: p, radius2: 20, from: accent.edge, to: PANEL_EDGE });
            let inner = Rect { x: p.x + 1, y: p.y + 1, w: p.w - 2, h: p.h - 2 };
            out.push(Op::Fade { rect: inner, radius2: 18, from: accent.fill, to: PANEL });
        }
        assert(out@ =~= before + self.np_bg_ops(accent));
    }

    fn draw_art_placeholder(&self, out: &mut Vec<Op>)
        requires
            self.wf(),
            self.np.art.w > 0,
        ensures
            final(out)@ == old(out)@ + self.no_art_ops(),
    {
        let ghost before = out@;
        let a = self.np.art;
        let off: u32 = (a.w - self.art_glyph_px()) / 2;
        out.push(Op::Round { rect: a, radius2: 12, color: ART_BG });
        out.push(Op::Glyph { picture: Picture::NoArt, x: a.x + off, y: a.y + off });
        assert(out@ =~= before + self.no_art_ops());
    }

    fn draw_np_idle(&self, out: &mut Vec<Op>)
        requires
            self.wf(),
            self.np.art.w > 0,
        ensures
            final(out)@ == old(out)@ + (self.np_bg_ops(Accent::plain()) + self.no_art_ops()),
    {
        let ghost before = out@;
        self.draw_np_bg(out, Accent::default());
        self.draw_art_placeholder(out);
        assert(out@ =~= before + (self.np_bg_ops(Accent::plain()) + self.no_art_ops()));
    }

    /// The picture on button `i` and its colour.
    fn look(i: usize, p: &PlayerState) -> (r: (usize, [u8; 3]))
        requires
            i < 5,
        ensures
            r == Self::button_look(i as int, *p),
    {
        match Ctrl::at(i) {
            Ctrl::Shuffle => (
                G_SHUFFLE,
                if p.shuffle {
                    GREEN
                } else {
                    WHITE
                },
            ),
            Ctrl::Prev => (G_PREV, WHITE),
            Ctrl::PlayPause => (
                if p.playing {
                    G_PAUSE
                } else {
                    G_PLAY
                },
                BLACK,
            ),
            Ctrl::Next => (G_NEXT, WHITE),
            Ctrl::Repeat => match p.repeat {
                Loop::Off => (G_REPEAT, WHITE),
                Loop::Playlist => (G_REPEAT, GREEN),
                Loop::Track => (G_REPEAT1, GREEN),
            },
        }
    }

    fn draw_ctrl(&self, out: &mut Vec<Op>, i: usize, p: &PlayerState)
        requires
            self.wf(),
            i < 5,
        ensures
            final(out)@ == old(out)@ + self.ctrl_ops(i as int, *p),
    {
        let ghost before = out@;
        let (x, y, d) = (self.np.btn_xs[i], self.np.btn_y[i], self.np.btn_d[i]);
        let off: u32 = (minus(d as u64, self.ctrl_px(i) as u64) / 2) as u32;
        let (button, color) = Self::look(i, p);
        if i == 2 {
            out.push(Op::Disc { x, y, d, color: WHITE });
        }
        out.push(Op::Tint { button, x: x + off, y: y + off, color });
        assert(out@ =~= before + self.ctrl_ops(i as int, *p));
    }

    #[verifier::spinoff_prover]
    #[verifier::rlimit(40)]
    fn draw_np(&self, out: &mut Vec<Op>, v: &NpView, text: bool)
        requires
            self.wf(),
            self.art_there(v.art) || self.np.art.w > 0,
        ensures
            final(out)@ == old(out)@ + self.np_ops(*v, text),
    {
        let ghost before = out@;
        let l = &self.np;
        self.draw_np_bg(out, v.accent);
        assert(0 <= l.art.w * l.art.h <= u32::MAX * u32::MAX) by (nonlinear_arith)
            requires
                0 <= l.art.w <= u32::MAX,
                0 <= l.art.h <= u32::MAX,
        ;
        let there = match v.art {
            Some(b) => b.len() as u128 >= l.art.w as u128 * l.art.h as u128 * 4,
            None => false,
        };
        assert(there == self.art_there(v.art));
        if there {
            out.push(Op::Art { rect: l.art, radius2: 12 });
        } else {
            self.draw_art_placeholder(out);
        }
        let ghost mid = self.np_bg_ops(v.accent) + (if self.art_there(v.art) {
            seq![Op::Art { rect: self.np.art, radius2: 12 }]
        } else {
            self.no_art_ops()
        });
        assert(out@ =~= before + mid);
        if text && l.col2_w > 4 {
            out.push(
                Op::Text {
                    line: Text::Title,
                    x: l.col2_x,
                    y: l.row1_y,
                    h: l.row1_h,
                    max: l.col2_w,
                    color: WHITE,
                },
            );
            out.push(
                Op::Text {
                    line: Text::Artist,
                    x: l.col2_x,
                    y: l.row2_y,
                    h: l.row2_h,
                    max: l.col2_w,
                    color: SUB_TEXT,
                },
            );
        }
        let ghost mid = mid + self.np_text_ops(text);
        assert(out@ =~= before + mid);
        for i in 0..5usize
            invariant
                self.wf(),
                out@ == before + mid + self.ctrls_ops(v.player, i as int),
        {
            self.draw_ctrl(out, i, &v.player);
            assert(out@ =~= before + mid + self.ctrls_ops(v.player, i + 1));
        }
        let p = l.prog;
        out.push(Op::Round { rect: p, radius2: p.h, color: GROOVE });
        if v.filled >= p.h {
            let rect = Rect { x: p.x, y: p.y, w: v.filled, h: p.h };
            out.push(Op::Round { rect, radius2: p.h, color: GREEN });
        }
        assert(out@ =~= before + self.np_ops(*v, text));
    }

    fn draw_cell(
        l: &ClawdLayout,
        own: [u8; 3],
        rows: &[Row],
        phase: bool,
        text: bool,
        i: usize,
        out: &mut Vec<Op>,
    )
        requires
            i < rows@.len(),
            i < l.cells@.len(),
            ({
                let r = l.cells@[i as int];
                &&& l.sprite_h <= r.h
                &&& r.y + r.h + 4 <= u32::MAX
                &&& l.sprite_w + CLAWD_NAME_GAP <= r.w
                &&& r.x + r.w <= u32::MAX
                &&& CLAWD_PAD_X <= l.panel.x + l.panel.w <= u32::MAX
            }),
        ensures
            final(out)@ == old(out)@ + cell_ops(*l, own, rows@, phase, text, i as int),
    {
        let ghost before = out@;
        let r = l.cells[i];
        let st = rows[i].st;
        let body = match st {
            St::Run => own,
            St::Ask => CLAWD_ASK,
            St::Done => CLAWD_DONE,
            St::Seen => CLAWD_SEEN,
        };
        let h: u32 = if st == St::Run {
            max_of(minus(l.sprite_h as u64, CLAWD_BOB as u64), 1) as u32
        } else {
            l.sprite_h
        };
        let dy: u32 = if st == St::Run && phase {
            CLAWD_BOB
        } else {
            0
        };
        let y: u32 = r.y + (r.h - l.sprite_h) / 2 + dy;
        out.push(
            Op::SpriteShadow {
                x: r.x + CLAWD_SHADOW_DX,
                y: y + CLAWD_SHADOW_DY,
                w: l.sprite_w,
                h,
            },
        );
        out.push(Op::Sprite { x: r.x, y, w: l.sprite_w, h, body });
        if text {
            let tx: u32 = r.x + l.sprite_w + CLAWD_NAME_GAP;
            let right: u32 = if l.grid_rows >= rows.len() || i >= rows.len() - l.grid_rows {
                l.panel.x + l.panel.w - CLAWD_PAD_X
            } else {
                r.x + r.w
            };
            let max: u32 = minus(right as u64, tx as u64) as u32;
            if max > 4 {
                let color = if st == St::Seen {
                    CLAWD_NAME_SEEN
                } else {
                    CLAWD_NAME
                };
                out.push(Op::Text { line: Text::Label(i), x: tx, y: r.y, h: r.h, max, color });
            }
        }
        assert(out@ =~= before + cell_ops(*l, own, rows@, phase, text, i as int));
    }

    fn draw_clawd(&self, out: &mut Vec<Op>, v: &ClawdView, text: bool)
        requires
            self.wf(),
        ensures
            final(out)@ == old(out)@ + self.clawd_ops(*v, text),
    {
        let ghost before = out@;
        match (&self.clawd, &self.sprite) {
            (Some(l), Some(s)) => {
                let n: usize = if v.rows.len() < l.cells.len() {
                    v.rows.len()
                } else {
                    l.cells.len()
                };
                for i in 0..n
                    invariant
                        self.wf(),
                        self.clawd == Some(*l),
                        n == panel::least(v.rows@.len() as int, l.cells@.len() as int),
                        out@ == before + cells_ops(
                            *l,
                            s.body,
                            v.rows@,
                            v.phase,
                            text,
                            i as int,
                        ),
                {
                    assert(l.sprite_h <= l.cells@[i as int].h);
                    Self::draw_cell(l, s.body, v.rows, v.phase, text, i, out);
                    assert(out@ =~= before + cells_ops(*l, s.body, v.rows@, v.phase, text, i + 1));
                }
            },
            _ => {
                assert(out@ =~= before + seq![]);
            },
        }
    }

    /// The steps that draw the bar. `text` says whether there is a font; without
    /// one nothing is written.
    pub fn draw(
        &self,
        state: &State,
        np: Option<&NpView>,
        clawd: Option<&ClawdView>,
        text: bool,
    ) -> (r: Vec<Op>)
        requires
            self.wf(),
            match np {
                Some(v) => self.art_there(v.art) || self.np.art.w > 0,
                None => self.np.art.w > 0,
            },
        ensures
            r@ == self.ops(*state, opt_np(np), opt_clawd(clawd), text),
    {
        let mut out: Vec<Op> = Vec::new();
        out.push(Op::Clear { color: BG });
        assert(out@ =~= seq![Op::Clear { color: BG }]);
        self.draw_shadow(&mut out);
        let ghost head = out@;
        assert(head =~= head + self.tiles_ops(*state, 0));
        for i in 0..ICON_COUNT
            invariant
                self.wf(),
                out@ == head + self.tiles_ops(*state, i as int),
        {
            let def = icon(i);
            self.draw_tile(&mut out, i, mark(&def, state));
            assert(out@ =~= head + self.tiles_ops(*state, i + 1));
        }
        let ghost upto = out@;
        match np {
            Some(v) => self.draw_np(&mut out, v, text),
            None => self.draw_np_idle(&mut out),
        }
        let ghost with_np = out@;
        match clawd {
            Some(v) => self.draw_clawd(&mut out, v, text),
            None => {
                assert(out@ =~= with_np + seq![]);
            },
        }
        assert(out@ =~= self.ops(*state, opt_np(np), opt_clawd(clawd), text));
        out
    }
}

pub open spec fn opt_np<'a>(o: Option<&NpView<'a>>) -> Option<NpView<'a>> {
    match o {
        Some(v) => Some(*v),
        None => None,
    }
}

pub open spec fn opt_clawd<'a>(o: Option<&ClawdView<'a>>) -> Option<ClawdView<'a>> {
    match o {
        Some(v) => Some(*v),
        None => None,
    }
}

/// What a buffer holds after the steps were carried out one by one; `step` says
/// what a step makes of a buffer.
pub open spec fn painted(
    step: spec_fn(Seq<u8>, Op) -> Seq<u8>,
    buf: Seq<u8>,
    ops: Seq<Op>,
) -> Seq<u8>
    decreases ops.len(),
{
    if ops.len() == 0 {
        buf
    } else {
        painted(step, step(buf, ops[0]), ops.drop_first())
    }
}

/// However the other steps are carried out, as long as the first one fills the
/// buffer: a redraw leaves nothing of what the buffer held.
pub proof fn a_redraw_forgets_the_old_pixels(
    bar: Bar,
    state: State,
    np: Option<NpView>,
    clawd: Option<ClawdView>,
    text: bool,
    step: spec_fn(Seq<u8>, Op) -> Seq<u8>,
    a: Seq<u8>,
    b: Seq<u8>,
)
    requires
        a.len() == b.len(),
        a.len() % 4 == 0,
        forall|buf: Seq<u8>, color: [u8; 3]| #[trigger]
            step(buf, Op::Clear { color }) == raster::filled(buf, color@),
    ensures
        painted(step, a, bar.ops(state, np, clawd, text)) == painted(
            step,
            b,
            bar.ops(state, np, clawd, text),
        ),
{
    let ops = bar.ops(state, np, clawd, text);
    assert(ops[0] == Op::Clear { color: BG });
    raster::a_filled_buffer_forgets(a, b, BG@);
    assert(step(a, Op::Clear { color: BG }) == step(b, Op::Clear { color: BG }));
}

/// If no step makes a fourth byte anything but zero, a redraw leaves every fourth
/// byte zero, whatever the buffer held.
pub proof fn a_redraw_leaves_the_fourth_bytes_zero(
    bar: Bar,
    state: State,
    np: Option<NpView>,
    clawd: Option<ClawdView>,
    text: bool,
    step: spec_fn(Seq<u8>, Op) -> Seq<u8>,
    a: Seq<u8>,
)
    requires
        a.len() % 4 == 0,
        forall|buf: Seq<u8>, color: [u8; 3]| #[trigger]
            step(buf, Op::Clear { color }) == raster::filled(buf, color@),
        forall|buf: Seq<u8>, op: Op|
            raster::fourths_zero(buf) ==> raster::fourths_zero(#[trigger] step(buf, op)),
    ensures
        raster::fourths_zero(painted(step, a, bar.ops(state, np, clawd, text))),
{
    let ops = bar.ops(state, np, clawd, text);
    assert(ops[0] == Op::Clear { color: BG });
    raster::a_filled_buffer_forgets(a, a, BG@);
    lemma_fourths(step, step(a, ops[0]), ops.drop_first());
}

proof fn lemma_fourths(
    step: spec_fn(Seq<u8>, Op) -> Seq<u8>,
    buf: Seq<u8>,
    ops: Seq<Op>,
)
    requires
        raster::fourths_zero(buf),
        forall|buf: Seq<u8>, op: Op|
            raster::fourths_zero(buf) ==> raster::fourths_zero(#[trigger] step(buf, op)),
    ensures
        raster::fourths_zero(painted(step, buf, ops)),
    decreases ops.len(),
{
    if ops.len() > 0 {
        lemma_fourths(step, step(buf, ops[0]), ops.drop_first());
    }
}

/// Where nobody is to be shown, nothing is drawn.
pub proof fn no_assistants_leave_no_trace(bar: Bar, v: ClawdView, text: bool)
    requires
        v.rows@.len() == 0,
    ensures
        bar.clawd_ops(v, text) == Seq::<Op>::empty(),
{
}

/// No step draws a text, a button's picture or the shadow of an icon.
spec fn plain(ops: Seq<Op>) -> bool {
    forall|k: int|
        0 <= k < ops.len() ==> !((#[trigger] ops[k]) is Text || ops[k] is Tint
            || ops[k] is DiscShadow)
}

/// No step draws the shadow of an icon.
spec fn shadowless(ops: Seq<Op>) -> bool {
    forall|k: int| 0 <= k < ops.len() ==> !((#[trigger] ops[k]) is DiscShadow)
}

proof fn lemma_tiles_plain(bar: Bar, state: State, n: int)
    ensures
        plain(bar.tiles_ops(state, n)),
    decreases n,
{
    if n > 0 {
        lemma_tiles_plain(bar, state, n - 1);
    }
}

proof fn lemma_ctrls_shadowless(bar: Bar, p: PlayerState, n: int)
    ensures
        shadowless(bar.ctrls_ops(p, n)),
    decreases n,
{
    if n > 0 {
        lemma_ctrls_shadowless(bar, p, n - 1);
    }
}

proof fn lemma_cells_shadowless(
    l: ClawdLayout,
    own: [u8; 3],
    rows: Seq<Row>,
    phase: bool,
    text: bool,
    n: int,
)
    ensures
        shadowless(cells_ops(l, own, rows, phase, text, n)),
    decreases n,
{
    if n > 0 {
        lemma_cells_shadowless(l, own, rows, phase, text, n - 1);
    }
}

/// While nothing plays, the panel keeps its frame and the player's picture, and
/// shows neither text nor buttons.
pub proof fn an_idle_panel_shows_no_controls(bar: Bar, state: State, text: bool, k: int)
    requires
        0 <= k < bar.ops(state, None, None, text).len(),
    ensures
        !(bar.ops(state, None, None, text)[k] is Text),
        !(bar.ops(state, None, None, text)[k] is Tint),
        bar.np.panel.w >= 3 && bar.np.panel.h >= 3 ==> bar.ops(state, None, None, text).contains(
            Op::Fade {
                rect: bar.np.panel,
                radius2: 20,
                from: ACCENT_EDGE,
                to: PANEL_EDGE,
            },
        ),
        bar.no_art_ops()[1]->picture == Picture::NoArt,
        bar.ops(state, None, None, text).contains(bar.no_art_ops()[1]),
{
    lemma_tiles_plain(bar, state, ICON_COUNT as int);
    let head = seq![Op::Clear { color: BG }] + bar.shadow_ops() + bar.tiles_ops(
        state,
        ICON_COUNT as int,
    );
    let bg = bar.np_bg_ops(Accent::plain());
    let all = bar.ops(state, None, None, text);
    assert(all =~= head + bg + bar.no_art_ops());
    if bar.np.panel.w >= 3 && bar.np.panel.h >= 3 {
        assert(all[head.len() as int + 1] == bg[1]);
    }
    assert(all[head.len() as int + bg.len() as int + 1] == bar.no_art_ops()[1]);
}

/// The shadows of the icons are drawn first, so that none falls on a disc.
pub proof fn shadows_lie_below_the_icons(
    bar: Bar,
    state: State,
    np: Option<NpView>,
    clawd: Option<ClawdView>,
    text: bool,
    k: int,
)
    requires
        0 <= k < bar.ops(state, np, clawd, text).len(),
    ensures
        bar.ops(state, np, clawd, text)[k] is DiscShadow <==> 1 <= k <= bar.xs@.len(),
{
    lemma_tiles_plain(bar, state, ICON_COUNT as int);
    match np {
        Some(v) => {
            lemma_ctrls_shadowless(bar, v.player, 5);
        },
        None => {},
    }
    match (clawd, bar.clawd, bar.sprite) {
        (Some(v), Some(l), Some(s)) => {
            lemma_cells_shadowless(
                l,
                s.body,
                v.rows@,
                v.phase,
                text,
                panel::least(v.rows@.len() as int, l.cells@.len() as int),
            );
        },
        _ => {},
    }
    let n = bar.xs@.len() as int;
    let tiles = bar.tiles_ops(state, ICON_COUNT as int);
    let mid = match np {
        Some(v) => bar.np_ops(v, text),
        None => bar.np_bg_ops(Accent::plain()) + bar.no_art_ops(),
    };
    let end = match clawd {
        Some(v) => bar.clawd_ops(v, text),
        None => seq![],
    };
    assert(shadowless(mid));
    assert(shadowless(end));
    let all = bar.ops(state, np, clawd, text);
    assert(all =~= seq![Op::Clear { color: BG }] + bar.shadow_ops() + tiles + mid + end);
    if k > n {
        let j = k - 1 - n;
        if j < tiles.len() {
            assert(all[k] == tiles[j]);
        } else if j < tiles.len() + mid.len() {
            assert(all[k] == mid[j - tiles.len()]);
        } else {
            assert(all[k] == end[j - tiles.len() - mid.len()]);
        }
    } else if k >= 1 {
        assert(all[k] == bar.shadow_ops()[k - 1]);
    }
}

/// An icon's picture lies on its disc, and its line is no longer than the disc
/// is wide and starts below it.
pub proof fn an_icon_is_drawn_in_its_place(bar: Bar, i: int, m: Mark)
    requires
        bar.wf(),
        0 <= i < ICON_COUNT,
        bar.mark_y >= bar.tile_y + bar.tile_d,
    ensures
        ({
            let g = bar.tile_ops(i, m)[1];
            let x = bar.xs@[i];
            &&& x <= g->Glyph_x
            &&& g->Glyph_x + bar.glyph_side() <= x + bar.tile_d
            &&& bar.tile_y <= g->Glyph_y
            &&& g->Glyph_y + bar.glyph_side() <= bar.tile_y + bar.tile_d
        }),
        m.look() is Some ==> ({
            let r = bar.tile_ops(i, m)[2]->Round_rect;
            let x = bar.xs@[i];
            &&& x <= r.x
            &&& r.x + r.w <= x + bar.tile_d
            &&& r.y >= bar.tile_y + bar.tile_d
        }),
{
    assert(bar.xs@[i] + bar.tile_d <= u32::MAX);
    match m.look() {
        Some((color, pct)) => {
            let d = bar.tile_d;
            assert(0 <= d * pct <= d * 50) by (nonlinear_arith)
                requires
                    0 <= pct <= 50,
                    0 <= d,
            ;
        },
        None => {},
    }
}

/// The line of a session that is shown is twice as long as that of one that is
/// merely open, to within the rounding, wherever both are longer than high.
pub proof fn lengths_tell_the_marks_apart(d: int)
    requires
        d >= 16,
    ensures
        ({
            let shown = panel::most(d * mark::MARK_PCT / 100, MARK_H as int);
            let open = panel::most(d * mark::MARK_OPEN_PCT / 100, MARK_H as int);
            &&& 0 <= shown - 2 * open <= 1
            &&& open < shown <= d
        }),
{
}

/// The text beside an assistant ends inside the frame, and before the next
/// column if somebody is drawn there.
pub proof fn a_label_keeps_clear_of_its_neighbour(l: ClawdLayout, g: GridIn, i: int, n: int)
    requires
        g.h >= 0,
        g.shown(),
        l.is_of(g),
        0 <= i < n <= l.cells@.len(),
    ensures
        text_right(l, i, n) <= l.panel.x + l.panel.w - CLAWD_PAD_X,
        i + l.grid_rows < n ==> text_right(l, i, n) + CLAWD_COL_GAP == l.cells@[i
            + l.grid_rows].x,
        i + l.grid_rows >= n ==> text_right(l, i, n) == l.panel.x + l.panel.w - CLAWD_PAD_X,
{
    grid::cells_lie_in_the_frame(g, i);
    assert(panel::rect_is(l.cells@[i], g.cell_x(i), g.cell_y(i), g.col_w(), g.row_h()));
    if i + l.grid_rows < n {
        let j = i + l.grid_rows;
        assert(panel::rect_is(l.cells@[j], g.cell_x(j), g.cell_y(j), g.col_w(), g.row_h()));
        grid::columns_lie_side_by_side(g, i);
    }
}

proof fn lemma_part(ops: Seq<Op>, head: Seq<Op>, part: Seq<Op>, tail: Seq<Op>, k: int)
    requires
        ops == head + part + tail,
        0 <= k < part.len(),
    ensures
        ops.contains(part[k]),
{
    assert(ops[head.len() + k] == part[k]);
}

proof fn lemma_tile_is_drawn(bar: Bar, state: State, n: int, i: int, k: int)
    requires
        0 <= i < n,
        0 <= k < bar.tile_ops(i, mark::mark_of(actions::icon_session(i), state)).len(),
    ensures
        bar.tiles_ops(state, n).contains(
            bar.tile_ops(i, mark::mark_of(actions::icon_session(i), state))[k],
        ),
    decreases n,
{
    let last = bar.tile_ops(n - 1, mark::mark_of(actions::icon_session(n - 1), state));
    let rest = bar.tiles_ops(state, n - 1);
    let part = bar.tile_ops(i, mark::mark_of(actions::icon_session(i), state));
    let all = bar.tiles_ops(state, n);
    if i == n - 1 {
        assert(all[rest.len() + k] == part[k]);
    } else {
        lemma_tile_is_drawn(bar, state, n - 1, i, k);
        let j = choose|j: int| 0 <= j < rest.len() && rest[j] == part[k];
        assert(all[j] == part[k]);
    }
}

/// Every icon is drawn: a white disc in its place, its own picture in the middle
/// of the disc to within a pixel, and below, in the middle too, a line if its
/// session is shown or open, blue and half as long as the disc is wide, or gray
/// and a quarter as long, and no shorter than it is thick.
pub proof fn every_icon_is_drawn(
    bar: Bar,
    state: State,
    np: Option<NpView>,
    clawd: Option<ClawdView>,
    text: bool,
    i: int,
)
    requires
        bar.wf(),
        0 <= i < 6,
    ensures
        ({
            let ops = bar.ops(state, np, clawd, text);
            let (x, d) = (bar.xs@[i], bar.tile_d);
            let m = mark::mark_of(actions::icon_session(i), state);
            &&& ops.contains(Op::DiscShadow { x, y: bar.tile_y, d })
            &&& ops.contains(Op::Disc { x, y: bar.tile_y, d, color: [255, 255, 255] })
            &&& exists|g: Op| #[trigger]
                ops.contains(g) && g is Glyph && g->Glyph_picture == Picture::Icon(i as usize) && (
                g->Glyph_x - x == g->Glyph_y - bar.tile_y) && 0 <= d - bar.glyph_side() - 2 * (
                g->Glyph_x - x) <= 1
            &&& m != Mark::Absent ==> exists|l: Op| #[trigger]
                ops.contains(l) && l is Round && l->Round_rect.y == bar.mark_y && l->Round_rect.h
                    == 4 && l->Round_rect.w == panel::most(
                    if m == Mark::Active {
                        d as int / 2
                    } else {
                        d as int / 4
                    },
                    4,
                ) && 0 <= d - l->Round_rect.w - 2 * (l->Round_rect.x - x) <= 1
                    && l->Round_color == (if m == Mark::Active {
                    mark::BLUE
                } else {
                    mark::GRAY
                })
        }),
{
    let ops = bar.ops(state, np, clawd, text);
    let (x, d) = (bar.xs@[i], bar.tile_d);
    let m = mark::mark_of(actions::icon_session(i), state);
    let tile = bar.tile_ops(i, m);
    let tiles = bar.tiles_ops(state, ICON_COUNT as int);
    let shadows = bar.shadow_ops();
    let clear = seq![Op::Clear { color: BG }];
    let mid = match np {
        Some(v) => bar.np_ops(v, text),
        None => bar.np_bg_ops(Accent::plain()) + bar.no_art_ops(),
    };
    let end = match clawd {
        Some(v) => bar.clawd_ops(v, text),
        None => seq![],
    };
    assert(bar.xs@[i] + bar.tile_d <= u32::MAX);
    assert(ops =~= clear + shadows + (tiles + mid + end));
    lemma_part(ops, clear, shadows, tiles + mid + end, i);
    assert(ops =~= (clear + shadows) + tiles + (mid + end));
    lemma_tile_is_drawn(bar, state, 6, i, 0);
    lemma_tile_is_drawn(bar, state, 6, i, 1);
    let k0 = choose|k: int| 0 <= k < tiles.len() && tiles[k] == tile[0];
    let k1 = choose|k: int| 0 <= k < tiles.len() && tiles[k] == tile[1];
    lemma_part(ops, clear + shadows, tiles, mid + end, k0);
    lemma_part(ops, clear + shadows, tiles, mid + end, k1);
    assert(tile[0] == Op::Disc { x, y: bar.tile_y, d, color: WHITE });
    assert(WHITE =~= [255u8, 255, 255]);
    let off = (d - bar.glyph_side()) / 2;
    assert(0 <= off <= d);
    assert(tile[1]->Glyph_x == x + off && tile[1]->Glyph_y == bar.tile_y + off);
    assert(ops.contains(tile[1]));
    if m != Mark::Absent {
        lemma_tile_is_drawn(bar, state, 6, i, 2);
        let k2 = choose|k: int| 0 <= k < tiles.len() && tiles[k] == tile[2];
        lemma_part(ops, clear + shadows, tiles, mid + end, k2);
        assert(ops.contains(tile[2]));
        let w = panel::most(
            if m == Mark::Active {
                d as int / 2
            } else {
                d as int / 4
            },
            4,
        );
        assert(tile[2]->Round_rect.w == w);
        assert(tile[2]->Round_rect.x == x + (d - w) / 2);
    }
}

/// A step that writes the given text.
spec fn writes(op: Op, line: Text) -> bool {
    match op {
        Op::Text { line: l, .. } => l == line,
        _ => false,
    }
}

/// No step writes a title or an artist.
spec fn wordless(ops: Seq<Op>) -> bool {
    forall|k: int|
        0 <= k < ops.len() ==> !writes(#[trigger] ops[k], Text::Title) && !writes(
            ops[k],
            Text::Artist,
        )
}

proof fn lemma_ctrls_wordless(bar: Bar, p: PlayerState, n: int)
    ensures
        wordless(bar.ctrls_ops(p, n)),
    decreases n,
{
    if n > 0 {
        lemma_ctrls_wordless(bar, p, n - 1);
    }
}

proof fn lemma_cells_wordless(
    l: ClawdLayout,
    own: [u8; 3],
    rows: Seq<Row>,
    phase: bool,
    text: bool,
    n: int,
)
    ensures
        wordless(cells_ops(l, own, rows, phase, text, n)),
    decreases n,
{
    if n > 0 {
        lemma_cells_wordless(l, own, rows, phase, text, n - 1);
    }
}

/// How many steps come before the text of the panel.
spec fn words_at(bar: Bar, state: State, v: NpView) -> int {
    1 + bar.xs@.len() + bar.tiles_ops(state, ICON_COUNT as int).len() + bar.np_bg_ops(
        v.accent,
    ).len() + (if bar.art_there(v.art) {
        1int
    } else {
        bar.no_art_ops().len() as int
    })
}

/// The title and the artist are written in these steps and in no other.
proof fn lemma_words(
    bar: Bar,
    state: State,
    v: NpView,
    clawd: Option<ClawdView>,
    text: bool,
    k: int,
)
    requires
        0 <= k < bar.ops(state, Some(v), clawd, text).len(),
    ensures
        ({
            let ops = bar.ops(state, Some(v), clawd, text);
            let words = bar.np_text_ops(text);
            let at = words_at(bar, state, v);
            &&& 0 <= at
            &&& at + words.len() <= ops.len()
            &&& forall|j: int| 0 <= j < words.len() ==> ops[at + j] == #[trigger] words[j]
            &&& (writes(ops[k], Text::Title) || writes(ops[k], Text::Artist)) ==> at <= k < at
                + words.len()
        }),
{
    lemma_tiles_plain(bar, state, ICON_COUNT as int);
    lemma_ctrls_wordless(bar, v.player, 5);
    match (clawd, bar.clawd, bar.sprite) {
        (Some(w), Some(l), Some(s)) => {
            lemma_cells_wordless(
                l,
                s.body,
                w.rows@,
                w.phase,
                text,
                panel::least(w.rows@.len() as int, l.cells@.len() as int),
            );
        },
        _ => {},
    }
    let ops = bar.ops(state, Some(v), clawd, text);
    let words = bar.np_text_ops(text);
    let tiles = bar.tiles_ops(state, ICON_COUNT as int);
    let art = if bar.art_there(v.art) {
        seq![Op::Art { rect: bar.np.art, radius2: 12 }]
    } else {
        bar.no_art_ops()
    };
    let first = seq![Op::Clear { color: BG }] + bar.shadow_ops();
    let bg = bar.np_bg_ops(v.accent);
    let ctrls = bar.ctrls_ops(v.player, 5);
    let prog = bar.progress_ops(v.filled);
    let end = match clawd {
        Some(w) => bar.clawd_ops(w, text),
        None => seq![],
    };
    let head = first + tiles + bg + art;
    let tail = ctrls + prog + end;
    assert(wordless(first) && wordless(bg) && wordless(art) && wordless(prog) && wordless(end));
    assert(wordless(tiles));
    assert(ops =~= head + words + tail);
    let at = head.len() as int;
    assert forall|j: int| 0 <= j < words.len() implies ops[at + j] == #[trigger] words[j] by {}
    if k < at {
        let a = first.len() as int;
        let b = a + tiles.len();
        let c = b + bg.len();
        if k < a {
            assert(ops[k] == first[k]);
        } else if k < b {
            assert(ops[k] == tiles[k - a]);
        } else if k < c {
            assert(ops[k] == bg[k - b]);
        } else {
            assert(ops[k] == art[k - c]);
        }
    } else if k >= at + words.len() {
        let a = at + words.len();
        let b = a + ctrls.len();
        let c = b + prog.len();
        if k < b {
            assert(ops[k] == ctrls[k - a]);
        } else if k < c {
            assert(ops[k] == prog[k - b]);
        } else {
            assert(ops[k] == end[k - c]);
        }
    }
}

/// Whatever else is drawn: the rows in which the title is written and those in
/// which the artist is written do not overlap, the title being above; both lie in
/// the panel if it is high enough, between the art and the buttons.
pub proof fn title_and_artist_do_not_overlap(
    bar: Bar,
    n: panel::NpIn,
    state: State,
    v: NpView,
    clawd: Option<ClawdView>,
    text: bool,
    t: int,
    a: int,
)
    requires
        n.fits(),
        n.h >= 0,
        bar.np.is_of(n),
        0 <= t < bar.ops(state, Some(v), clawd, text).len(),
        0 <= a < bar.ops(state, Some(v), clawd, text).len(),
        bar.ops(state, Some(v), clawd, text)[t] is Text,
        bar.ops(state, Some(v), clawd, text)[t]->line == Text::Title,
        bar.ops(state, Some(v), clawd, text)[a] is Text,
        bar.ops(state, Some(v), clawd, text)[a]->line == Text::Artist,
    ensures
        ({
            let title = bar.ops(state, Some(v), clawd, text)[t];
            let artist = bar.ops(state, Some(v), clawd, text)[a];
            let p = bar.np.panel;
            &&& title->Text_y + title->Text_h <= artist->Text_y
            &&& p.y < title->Text_y
            &&& title->Text_h > 0
            &&& p.h >= 9 ==> artist->Text_y + artist->Text_h <= p.y + p.h
            &&& title->Text_x == artist->Text_x
            &&& title->max == artist->max
            &&& title->Text_x == bar.np.art.x + bar.np.art.w + 12
            &&& title->Text_x + title->max + 12 == bar.np.btn_xs@[0]
            &&& t < a
        }),
{
    let ops = bar.ops(state, Some(v), clawd, text);
    lemma_words(bar, state, v, clawd, text, t);
    lemma_words(bar, state, v, clawd, text, a);
    let at = words_at(bar, state, v);
    let words = bar.np_text_ops(text);
    assert(writes(ops[t], Text::Title));
    assert(writes(ops[a], Text::Artist));
    assert(ops[at + (t - at)] == words[t - at]);
    assert(ops[at + (a - at)] == words[a - at]);
    panel::lines_of_text_lie_below_each_other(bar.np, n);
    panel::columns_lie_beside_each_other(bar.np, n);
}

/// While something plays and there is a font, the title is written in white and
/// the artist in gray, wherever the column is wide enough; without a font nothing
/// is written on the panel.
pub proof fn title_and_artist_are_written(
    bar: Bar,
    state: State,
    v: NpView,
    clawd: Option<ClawdView>,
    text: bool,
)
    ensures
        ({
            let ops = bar.ops(state, Some(v), clawd, text);
            let shown = text && bar.np.col2_w > 4;
            &&& (exists|k: int|
                0 <= k < ops.len() && (#[trigger] ops[k]) is Text && ops[k]->line == Text::Title
                    && ops[k]->Text_color == [255u8, 255u8, 255u8]) <==> shown
            &&& (exists|k: int|
                0 <= k < ops.len() && (#[trigger] ops[k]) is Text && ops[k]->line == Text::Artist
                    && ops[k]->Text_color == [179u8, 179u8, 179u8]) <==> shown
        }),
{
    let ops = bar.ops(state, Some(v), clawd, text);
    let words = bar.np_text_ops(text);
    let at = words_at(bar, state, v);
    assert(WHITE =~= [255u8, 255u8, 255u8]);
    assert(SUB_TEXT =~= [179u8, 179u8, 179u8]);
    lemma_words(bar, state, v, clawd, text, 0);
    if text && bar.np.col2_w > 4 {
        assert(ops[at + 0] == words[0]);
        assert(ops[at + 1] == words[1]);
    } else {
        assert forall|k: int| 0 <= k < ops.len() implies !((#[trigger] ops[k]) is Text && (
        ops[k]->line == Text::Title || ops[k]->line == Text::Artist)) by {
            lemma_words(bar, state, v, clawd, text, k);
            assert(!writes(ops[k], Text::Title) && !writes(ops[k], Text::Artist));
        }
    }
}

/// Green means on: the shuffle button is green exactly while shuffling, the
/// repeat button exactly while anything repeats, and no other button ever. The
/// picture of the play button offers what a touch would do, and the repeat button
/// tells one track from all.
pub proof fn buttons_show_the_players_state(p: PlayerState)
    ensures
        Bar::button_look(0, p).1 == GREEN <==> p.shuffle,
        Bar::button_look(4, p).1 == GREEN <==> p.repeat != Loop::Off,
        forall|i: int| 1 <= i <= 3 ==> #[trigger] Bar::button_look(i, p).1 != GREEN,
        !p.shuffle ==> Bar::button_look(0, p).1 == [255u8, 255u8, 255u8],
        p.repeat == Loop::Off ==> Bar::button_look(4, p).1 == [255u8, 255u8, 255u8],
        Bar::button_look(1, p).1 == [255u8, 255u8, 255u8],
        Bar::button_look(3, p).1 == [255u8, 255u8, 255u8],
        Bar::button_look(2, p).1 == [0u8, 0u8, 0u8],
        Bar::button_look(0, p).0 == 0,
        Bar::button_look(1, p).0 == 1,
        p.playing ==> Bar::button_look(2, p).0 == 3,
        !p.playing ==> Bar::button_look(2, p).0 == 2,
        Bar::button_look(3, p).0 == 4,
        p.repeat == Loop::Track ==> Bar::button_look(4, p).0 == 6,
        p.repeat != Loop::Track ==> Bar::button_look(4, p).0 == 5,
        GREEN[1] > GREEN[0] > GREEN[2],
{
    assert(GREEN[1] == 0xD7u8 && WHITE[1] == 255u8 && BLACK[1] == 0u8);
    assert(WHITE =~= [255u8, 255u8, 255u8]);
    assert(BLACK =~= [0u8, 0u8, 0u8]);
}

proof fn lemma_ctrl_is_drawn(bar: Bar, p: PlayerState, n: int, i: int, k: int)
    requires
        0 <= i < n,
        0 <= k < bar.ctrl_ops(i, p).len(),
    ensures
        bar.ctrls_ops(p, n).contains(bar.ctrl_ops(i, p)[k]),
    decreases n,
{
    let rest = bar.ctrls_ops(p, n - 1);
    let part = bar.ctrl_ops(i, p);
    let all = bar.ctrls_ops(p, n);
    if i == n - 1 {
        assert(all[rest.len() + k] == part[k]);
    } else {
        lemma_ctrl_is_drawn(bar, p, n - 1, i, k);
        let j = choose|j: int| 0 <= j < rest.len() && rest[j] == part[k];
        assert(all[j] == part[k]);
    }
}

/// While something plays, every button is drawn in its place, its picture in the
/// middle to within a pixel, and the play button on a white disc.
pub proof fn every_button_is_drawn(
    bar: Bar,
    state: State,
    v: NpView,
    clawd: Option<ClawdView>,
    text: bool,
    i: int,
)
    requires
        bar.wf(),
        0 <= i < 5,
        bar.np.btn_d@[i] >= 1,
    ensures
        ({
            let ops = bar.ops(state, Some(v), clawd, text);
            let (x, y, d) = (bar.np.btn_xs@[i], bar.np.btn_y@[i], bar.np.btn_d@[i]);
            &&& exists|g: Op| #[trigger]
                ops.contains(g) && g is Tint && g->button == Bar::button_look(i, v.player).0
                    && g->Tint_color == Bar::button_look(i, v.player).1 && g->Tint_x - x
                    == g->Tint_y - y && 0 <= d - bar.ctrl_side(i) - 2 * (g->Tint_x - x) <= 1
            &&& i == 2 ==> ops.contains(Op::Disc { x, y, d, color: [255u8, 255u8, 255u8] })
            &&& i != 2 ==> bar.ctrl_side(i) == d
            &&& i == 2 && d >= 2 ==> bar.ctrl_side(i) == d * 58 / 100
        }),
{
    let ops = bar.ops(state, Some(v), clawd, text);
    let (x, y, d) = (bar.np.btn_xs@[i], bar.np.btn_y@[i], bar.np.btn_d@[i]);
    let part = bar.ctrl_ops(i, v.player);
    let ctrls = bar.ctrls_ops(v.player, 5);
    let last = part.len() - 1;
    assert(WHITE =~= [255u8, 255u8, 255u8]);
    lemma_ctrl_is_drawn(bar, v.player, 5, i, 0);
    lemma_ctrl_is_drawn(bar, v.player, 5, i, last);
    let head = seq![Op::Clear { color: BG }] + bar.shadow_ops() + bar.tiles_ops(
        state,
        ICON_COUNT as int,
    ) + bar.np_bg_ops(v.accent) + (if bar.art_there(v.art) {
        seq![Op::Art { rect: bar.np.art, radius2: 12 }]
    } else {
        bar.no_art_ops()
    }) + bar.np_text_ops(text);
    let end = match clawd {
        Some(w) => bar.clawd_ops(w, text),
        None => seq![],
    };
    let tail = bar.progress_ops(v.filled) + end;
    assert(ops =~= head + ctrls + tail);
    let k0 = choose|k: int| 0 <= k < ctrls.len() && ctrls[k] == part[0];
    let k1 = choose|k: int| 0 <= k < ctrls.len() && ctrls[k] == part[last];
    lemma_part(ops, head, ctrls, tail, k0);
    lemma_part(ops, head, ctrls, tail, k1);
    assert(bar.np.btn_xs@[i] + bar.np.btn_d@[i] <= u32::MAX);
    assert(bar.np.btn_y@[i] + bar.np.btn_d@[i] <= u32::MAX);
    let off = (d - bar.ctrl_side(i)) / 2;
    assert(0 <= off <= d);
    assert(part[last] is Tint);
    assert(part[last]->Tint_x == x + off && part[last]->Tint_y == y + off);
}

/// The groove of the progress bar is drawn whole, and the played part from its
/// left end on, as long as it is said to be, in green and only if that is at
/// least as long as the bar is thick. It does not leave the groove.
pub proof fn the_played_part_fills_the_groove(
    bar: Bar,
    state: State,
    v: NpView,
    clawd: Option<ClawdView>,
    text: bool,
)
    ensures
        ({
            let ops = bar.ops(state, Some(v), clawd, text);
            let g = bar.np.prog;
            let done = Rect { x: g.x, y: g.y, w: v.filled, h: g.h };
            &&& ops.contains(Op::Round { rect: g, radius2: g.h, color: GROOVE })
            &&& v.filled >= g.h ==> ops.contains(
                Op::Round { rect: done, radius2: g.h, color: GREEN },
            )
            &&& v.filled <= g.w ==> done.inside(g)
            &&& v.filled < g.h ==> bar.progress_ops(v.filled).len() == 1
        }),
{
    let ops = bar.ops(state, Some(v), clawd, text);
    let part = bar.progress_ops(v.filled);
    let head = seq![Op::Clear { color: BG }] + bar.shadow_ops() + bar.tiles_ops(
        state,
        ICON_COUNT as int,
    ) + bar.np_bg_ops(v.accent) + (if bar.art_there(v.art) {
        seq![Op::Art { rect: bar.np.art, radius2: 12 }]
    } else {
        bar.no_art_ops()
    }) + bar.np_text_ops(text) + bar.ctrls_ops(v.player, 5);
    let end = match clawd {
        Some(w) => bar.clawd_ops(w, text),
        None => seq![],
    };
    assert(ops =~= head + part + end);
    lemma_part(ops, head, part, end, 0);
    if v.filled >= bar.np.prog.h {
        lemma_part(ops, head, part, end, 1);
    }
}

/// The album art is drawn exactly if there are bytes for all its pixels, four
/// each; where there are not, a picture stands in the middle of its place. In
/// either case the panel lies below, in the colours of the art at its left end.
pub proof fn art_is_drawn_if_it_is_there(
    bar: Bar,
    state: State,
    v: NpView,
    clawd: Option<ClawdView>,
    text: bool,
)
    requires
        bar.wf(),
        bar.np.art.w > 0,
        bar.np.panel.w >= 3,
        bar.np.panel.h >= 3,
    ensures
        ({
            let ops = bar.ops(state, Some(v), clawd, text);
            let a = bar.np.art;
            let p = bar.np.panel;
            let there = match v.art {
                Some(b) => b@.len() >= 4 * (a.w * a.h),
                None => false,
            };
            &&& there ==> ops.contains(Op::Art { rect: a, radius2: 12 })
            &&& !there ==> exists|g: Op| #[trigger]
                ops.contains(g) && g is Glyph && g->Glyph_picture == Picture::NoArt && g->Glyph_x
                    - a.x == g->Glyph_y - a.y && 0 <= a.w - bar.art_glyph_side() - 2 * (g->Glyph_x
                    - a.x) <= 1
            &&& !there ==> ops.contains(Op::Round { rect: a, radius2: 12, color: ART_BG })
            &&& ops.contains(Op::RectShadow { rect: p, radius2: 20 })
            &&& ops.contains(
                Op::Fade { rect: p, radius2: 20, from: v.accent.edge, to: PANEL_EDGE },
            )
            &&& exists|f: Op| #[trigger]
                ops.contains(f) && f is Fade && f->from == v.accent.fill && f->to == PANEL
                    && f->Fade_rect.x == p.x + 1 && f->Fade_rect.y == p.y + 1 && f->Fade_rect.w
                    == p.w - 2 && f->Fade_rect.h == p.h - 2
        }),
{
    let ops = bar.ops(state, Some(v), clawd, text);
    let a = bar.np.art;
    let bg = bar.np_bg_ops(v.accent);
    let art = if bar.art_there(v.art) {
        seq![Op::Art { rect: bar.np.art, radius2: 12 }]
    } else {
        bar.no_art_ops()
    };
    let head = seq![Op::Clear { color: BG }] + bar.shadow_ops() + bar.tiles_ops(
        state,
        ICON_COUNT as int,
    );
    let end = match clawd {
        Some(w) => bar.clawd_ops(w, text),
        None => seq![],
    };
    let tail = bar.np_text_ops(text) + bar.ctrls_ops(v.player, 5) + bar.progress_ops(v.filled)
        + end;
    assert(ops =~= head + bg + (art + tail));
    assert(ops =~= (head + bg) + art + tail);
    lemma_part(ops, head, bg, art + tail, 0);
    lemma_part(ops, head, bg, art + tail, 1);
    lemma_part(ops, head, bg, art + tail, 2);
    lemma_part(ops, head + bg, art, tail, 0);
    assert(4 * (a.w * a.h) == a.w * a.h * 4) by (nonlinear_arith);
    assert(ops.contains(bg[2]));
    if !bar.art_there(v.art) {
        lemma_part(ops, head + bg, art, tail, 1);
        assert(ops.contains(art[1]));
        let off = (a.w - bar.art_glyph_side()) / 2;
        assert(0 <= off <= a.w);
        assert(art[1]->Glyph_x == a.x + off && art[1]->Glyph_y == a.y + off);
    }
}

/// One that waits is drawn in blue, one that has finished in yellow, one of whom
/// the user has taken note in gray, and one at work in the picture's own colour.
pub proof fn colours_tell_the_states_apart(own: [u8; 3])
    ensures
        body_of(St::Run, own) == own,
        ({
            let c = body_of(St::Ask, own);
            c[0] > c[1] > c[2]
        }),
        ({
            let c = body_of(St::Done, own);
            c[2] > c[1] > c[0]
        }),
        ({
            let c = body_of(St::Seen, own);
            c[0] == c[1] == c[2]
        }),
{
}

/// The steps for a cell: the shadow first, one pixel to the right and two below,
/// then the assistant in the middle of its cell, at the cell's left edge. One at
/// work is two pixels smaller and stands two pixels lower every other time; all
/// others stand still. What is written beside it stands eight pixels to the right,
/// in the cell's own rows, and paler if the user has taken note.
pub proof fn an_assistant_is_drawn_in_its_cell(
    l: ClawdLayout,
    own: [u8; 3],
    rows: Seq<Row>,
    phase: bool,
    text: bool,
    i: int,
)
    requires
        0 <= i < rows.len(),
        i < l.cells@.len(),
        rows.len() <= usize::MAX,
        3 <= l.sprite_h <= l.cells@[i].h,
        l.cells@[i].y + l.cells@[i].h + 4 <= u32::MAX,
        l.cells@[i].x + l.sprite_w + 8 <= u32::MAX,
        l.panel.x + l.panel.w <= u32::MAX,
        l.cells@[i].x + l.cells@[i].w <= u32::MAX,
    ensures
        ({
            let ops = cell_ops(l, own, rows, phase, text, i);
            let c = l.cells@[i];
            let st = rows[i].st;
            let still = c.y + (c.h - l.sprite_h) / 2;
            &&& 2 <= ops.len() <= 3
            &&& ops[0] is SpriteShadow && ops[1] is Sprite
            &&& ops[1]->Sprite_x == c.x
            &&& ops[1]->Sprite_w == l.sprite_w
            &&& ops[1]->body == body_of(st, own)
            &&& st != St::Run ==> ops[1]->Sprite_y == still && ops[1]->Sprite_h == l.sprite_h
            &&& st == St::Run ==> ops[1]->Sprite_h == l.sprite_h - 2 && ops[1]->Sprite_y == (if phase {
                still + 2
            } else {
                still
            })
            &&& c.y <= ops[1]->Sprite_y
            &&& ops[1]->Sprite_y + ops[1]->Sprite_h <= c.y + c.h
            &&& ops[0]->SpriteShadow_x == ops[1]->Sprite_x + 1
            &&& ops[0]->SpriteShadow_y == ops[1]->Sprite_y + 2
            &&& ops[0]->SpriteShadow_w == ops[1]->Sprite_w
            &&& ops[0]->SpriteShadow_h == ops[1]->Sprite_h
            &&& !text ==> ops.len() == 2
            &&& ops.len() == 3 ==> {
                &&& ops[2] is Text
                &&& ops[2]->line == Text::Label(i as usize)
                &&& ops[2]->Text_x == c.x + l.sprite_w + 8
                &&& ops[2]->Text_y == c.y
                &&& ops[2]->Text_h == c.h
                &&& ops[2]->max > 4
                &&& ops[2]->Text_x + ops[2]->max == text_right(l, i, rows.len() as int)
                &&& (ops[2]->Text_color == CLAWD_NAME_SEEN <==> st == St::Seen)
                &&& (ops[2]->Text_color == CLAWD_NAME <==> st != St::Seen)
            }
            &&& text && text_right(l, i, rows.len() as int) > c.x + l.sprite_w + 12 ==> ops.len()
                == 3
        }),
{
    assert(CLAWD_NAME[0] == 0x1Au8 && CLAWD_NAME_SEEN[0] == 0x8Cu8);
    assert(text_right(l, i, rows.len() as int) <= u32::MAX);
}

/// A label may take the place of an empty cell to its right, and no more.
pub proof fn a_label_may_fill_empty_cells(l: ClawdLayout, i: int, n: int)
    requires
        0 <= i < n <= l.cells@.len(),
    ensures
        i + l.grid_rows < n ==> text_right(l, i, n) == l.cells@[i].x + l.cells@[i].w,
        i + l.grid_rows >= n ==> text_right(l, i, n) == l.panel.x + l.panel.w - 8,
{
}

proof fn lemma_cell_is_drawn(
    l: ClawdLayout,
    own: [u8; 3],
    rows: Seq<Row>,
    phase: bool,
    text: bool,
    n: int,
    i: int,
    k: int,
)
    requires
        0 <= i < n,
        0 <= k < cell_ops(l, own, rows, phase, text, i).len(),
    ensures
        cells_ops(l, own, rows, phase, text, n).contains(
            cell_ops(l, own, rows, phase, text, i)[k],
        ),
    decreases n,
{
    let rest = cells_ops(l, own, rows, phase, text, n - 1);
    let part = cell_ops(l, own, rows, phase, text, i);
    let all = cells_ops(l, own, rows, phase, text, n);
    if i == n - 1 {
        assert(all[rest.len() + k] == part[k]);
    } else {
        lemma_cell_is_drawn(l, own, rows, phase, text, n - 1, i, k);
        let j = choose|j: int| 0 <= j < rest.len() && rest[j] == part[k];
        assert(all[j] == part[k]);
    }
}

/// Every assistant that has a cell is drawn in it, and nobody else is drawn. There
/// is nothing to draw without a frame or without a picture.
pub proof fn every_assistant_with_a_cell_is_drawn(
    bar: Bar,
    state: State,
    np: Option<NpView>,
    v: ClawdView,
    text: bool,
    l: ClawdLayout,
    i: int,
    k: int,
)
    requires
        bar.clawd == Some(l),
        bar.sprite is Some,
        0 <= i < v.rows@.len(),
        i < l.cells@.len(),
        0 <= k < cell_ops(l, bar.sprite->0.body, v.rows@, v.phase, text, i).len(),
    ensures
        bar.ops(state, np, Some(v), text).contains(
            cell_ops(l, bar.sprite->0.body, v.rows@, v.phase, text, i)[k],
        ),
{
    let own = bar.sprite->0.body;
    let n = panel::least(v.rows@.len() as int, l.cells@.len() as int);
    let part = cell_ops(l, own, v.rows@, v.phase, text, i);
    let cells = cells_ops(l, own, v.rows@, v.phase, text, n);
    lemma_cell_is_drawn(l, own, v.rows@, v.phase, text, n, i, k);
    let j = choose|j: int| 0 <= j < cells.len() && cells[j] == part[k];
    let ops = bar.ops(state, np, Some(v), text);
    let head = seq![Op::Clear { color: BG }] + bar.shadow_ops() + bar.tiles_ops(
        state,
        ICON_COUNT as int,
    ) + (match np {
        Some(w) => bar.np_ops(w, text),
        None => bar.np_bg_ops(Accent::plain()) + bar.no_art_ops(),
    });
    assert(ops =~= head + cells + seq![]);
    lemma_part(ops, head, cells, seq![], j);
}

proof fn lemma_sprites(
    l: ClawdLayout,
    own: [u8; 3],
    rows: Seq<Row>,
    phase: bool,
    text: bool,
    n: int,
)
    requires
        0 <= n,
    ensures
        cells_ops(l, own, rows, phase, text, n).filter(|op: Op| op is Sprite).len() == n,
    decreases n,
{
    reveal_with_fuel(Seq::filter, 5);
    reveal(Seq::filter);
    let f = |op: Op| op is Sprite;
    if n > 0 {
        lemma_sprites(l, own, rows, phase, text, n - 1);
        let rest = cells_ops(l, own, rows, phase, text, n - 1);
        let part = cell_ops(l, own, rows, phase, text, n - 1);
        Seq::filter_distributes_over_add(rest, part, f);
        assert(part.filter(f).len() == 1) by {
            let two = part.take(2);
            assert(part.take(2).drop_last() =~= part.take(1));
            assert(part.take(1).drop_last() =~= Seq::<Op>::empty());
            assert(part.take(1).filter(f) =~= seq![]);
            assert(two.filter(f).len() == 1);
            if part.len() == 3 {
                assert(part.drop_last() =~= two);
            } else {
                assert(part =~= two);
            }
        }
    }
}

/// As many assistants are drawn as are to be shown and have a cell.
pub proof fn as_many_are_drawn_as_have_a_cell(bar: Bar, v: ClawdView, text: bool)
    ensures
        bar.clawd_ops(v, text).filter(|op: Op| op is Sprite).len() == (match (
            bar.clawd,
            bar.sprite,
        ) {
            (Some(l), Some(_)) => if v.rows@.len() <= l.cells@.len() {
                v.rows@.len()
            } else {
                l.cells@.len()
            },
            _ => 0,
        }),
{
    reveal(Seq::filter);
    match (bar.clawd, bar.sprite) {
        (Some(l), Some(s)) => {
            let n = panel::least(v.rows@.len() as int, l.cells@.len() as int);
            lemma_sprites(l, s.body, v.rows@, v.phase, text, n);
        },
        _ => {},
    }
}

/// First the bar is filled with its own colour. The disc of an icon is drawn
/// before the picture on it, the disc of the play button before its picture, and
/// the shadow of an assistant before the assistant.
pub proof fn grounds_are_drawn_before_pictures(
    bar: Bar,
    state: State,
    np: Option<NpView>,
    clawd: Option<ClawdView>,
    text: bool,
    i: int,
    m: Mark,
    p: PlayerState,
)
    ensures
        bar.ops(state, np, clawd, text)[0] == (Op::Clear { color: [0xFAu8, 0xE0u8, 0xD6u8] }),
        bar.tile_ops(i, m)[0] is Disc,
        bar.tile_ops(i, m)[1] is Glyph,
        bar.tile_ops(i, m).len() == (if m == Mark::Absent {
            2int
        } else {
            3int
        }),
        bar.ctrl_ops(2, p).len() == 2,
        bar.ctrl_ops(2, p)[0] is Disc,
        bar.ctrl_ops(2, p)[1] is Tint,
        i != 2 ==> bar.ctrl_ops(i, p).len() == 1 && bar.ctrl_ops(i, p)[0] is Tint,
{
    assert(BG =~= [0xFAu8, 0xE0u8, 0xD6u8]);
}

/// On the panel the shadow comes first, then the border, then the ground inside
/// it, then the art or what stands for it, and everything else after that.
pub proof fn the_panels_ground_is_drawn_first(bar: Bar, v: NpView, text: bool)
    requires
        bar.np.panel.w >= 3,
        bar.np.panel.h >= 3,
    ensures
        ({
            let ops = bar.np_ops(v, text);
            let p = bar.np.panel;
            &&& ops[0] == (Op::RectShadow { rect: p, radius2: 20 })
            &&& ops[1] is Fade && ops[1]->Fade_rect == p && ops[1]->Fade_radius2 == 20
            &&& ops[2] is Fade && ops[2]->Fade_radius2 == 18
            &&& ops[3] is Art || ops[3] is Round
            &&& ops[3] is Round ==> ops[4] is Glyph
            &&& forall|k: int|
                5 <= k < ops.len() ==> !((#[trigger] ops[k]) is Fade || ops[k] is Art || ops[k]
                    is RectShadow || ops[k] is Glyph)
        }),
{
    let ops = bar.np_ops(v, text);
    let bg = bar.np_bg_ops(v.accent);
    let art = if bar.art_there(v.art) {
        seq![Op::Art { rect: bar.np.art, radius2: 12 }]
    } else {
        bar.no_art_ops()
    };
    let words = bar.np_text_ops(text);
    let ctrls = bar.ctrls_ops(v.player, 5);
    let prog = bar.progress_ops(v.filled);
    lemma_ctrls_light(bar, v.player, 5);
    assert(ops =~= bg + art + words + ctrls + prog);
    assert(ops[0] == bg[0] && ops[1] == bg[1] && ops[2] == bg[2] && ops[3] == art[0]);
    assert forall|k: int| 5 <= k < ops.len() implies !((#[trigger] ops[k]) is Fade || ops[k] is Art
        || ops[k] is RectShadow || ops[k] is Glyph) by {
        let a = bg.len() + art.len();
        let b = a + words.len();
        let c = b + ctrls.len();
        if k < b {
            assert(ops[k] == words[k - a]);
        } else if k < c {
            assert(ops[k] == ctrls[k - b]);
        } else {
            assert(ops[k] == prog[k - c]);
        }
    }
}

proof fn lemma_ctrls_light(bar: Bar, p: PlayerState, n: int)
    ensures
        forall|k: int|
            0 <= k < bar.ctrls_ops(p, n).len() ==> (#[trigger] bar.ctrls_ops(p, n)[k]) is Tint
                || bar.ctrls_ops(p, n)[k] is Disc,
    decreases n,
{
    if n > 0 {
        lemma_ctrls_light(bar, p, n - 1);
        let rest = bar.ctrls_ops(p, n - 1);
        let last = bar.ctrl_ops(n - 1, p);
        let all = bar.ctrls_ops(p, n);
        assert forall|k: int| 0 <= k < all.len() implies (#[trigger] all[k]) is Tint || all[k]
            is Disc by {
            if k < rest.len() {
                assert(all[k] == rest[k]);
            } else {
                assert(all[k] == last[k - rest.len()]);
            }
        }
    }
}

/// The icons, the panel and the assistants are drawn in that order, and each icon
/// before the next.
pub proof fn parts_are_drawn_from_the_icons_on(
    bar: Bar,
    state: State,
    v: NpView,
    w: ClawdView,
    text: bool,
)
    ensures
        bar.ops(state, Some(v), Some(w), text) == bar.ops(state, None, None, text).take(
            1int + bar.xs@.len() + bar.tiles_ops(state, 6).len(),
        ) + bar.np_ops(v, text) + bar.clawd_ops(w, text),
        bar.ops(state, None, Some(w), text) == bar.ops(state, None, None, text) + bar.clawd_ops(
            w,
            text,
        ),
        bar.ops(state, Some(v), Some(w), text) == bar.ops(state, Some(v), None, text)
            + bar.clawd_ops(w, text),
{
    let idle = bar.ops(state, None, None, text);
    let head = seq![Op::Clear { color: BG }] + bar.shadow_ops() + bar.tiles_ops(state, 6);
    assert(idle.take(1int + bar.xs@.len() + bar.tiles_ops(state, 6).len()) =~= head);
    assert(bar.ops(state, Some(v), Some(w), text) =~= head + bar.np_ops(v, text) + bar.clawd_ops(
        w,
        text,
    ));
    assert(bar.ops(state, None, Some(w), text) =~= idle + bar.clawd_ops(w, text));
    assert(bar.ops(state, Some(v), None, text) =~= head + bar.np_ops(v, text));
}

/// The panel is dark and its border lighter, the groove of the progress bar stands
/// out from the panel, and what is written beside the assistants is dark, but
/// paler where the user has taken note.
pub proof fn shades_stand_out(k: int)
    requires
        0 <= k < 3,
    ensures
        PANEL[k] < 64,
        PANEL[k] < PANEL_EDGE[k] < GROOVE[k] < 128,
        PANEL[k] < ART_BG[k] < PANEL_EDGE[k],
        CLAWD_NAME[k] < 32,
        CLAWD_NAME[k] < CLAWD_NAME_SEEN[k] < BG[k],
        SHADOW[k] < 128,
{
    assert(PANEL@[0] == 0x33u8 && PANEL@[1] == 0x1Eu8 && PANEL@[2] == 0x16u8);
    assert(PANEL_EDGE@[0] == 0x5Eu8 && PANEL_EDGE@[1] == 0x40u8 && PANEL_EDGE@[2] == 0x33u8);
    assert(GROOVE@[0] == 0x78u8 && GROOVE@[1] == 0x55u8 && GROOVE@[2] == 0x4Au8);
    assert(ART_BG@[0] == 0x50u8 && ART_BG@[1] == 0x30u8 && ART_BG@[2] == 0x26u8);
    assert(CLAWD_NAME@[0] == 0x1Au8 && CLAWD_NAME@[1] == 0x1Au8 && CLAWD_NAME@[2] == 0x14u8);
    assert(CLAWD_NAME_SEEN@[0] == 0x8Cu8 && CLAWD_NAME_SEEN@[1] == 0x82u8 && CLAWD_NAME_SEEN@[2]
        == 0x78u8);
    assert(BG@[0] == 0xFAu8 && BG@[1] == 0xE0u8 && BG@[2] == 0xD6u8);
    assert(SHADOW@[0] == 0x5Au8 && SHADOW@[1] == 0x2Du8 && SHADOW@[2] == 0x1Eu8);
}

/// However low its cell, an assistant is drawn at least one pixel high, and only
/// one at work is drawn lower than its cell allows.
pub proof fn an_assistant_is_never_drawn_flat(st: St, h: int)
    requires
        h >= 1,
    ensures
        1 <= height_of(st, h) <= h,
        st != St::Run ==> height_of(st, h) == h,
        st == St::Run && h >= 3 ==> height_of(st, h) == h - 2,
        drop_of(st, false) == 0,
        drop_of(st, true) == (if st == St::Run {
            2int
        } else {
            0int
        }),
{
}

} // verus!
