//! Draws whole bars and reads their pixels. Edges, shadows and gradients are
//! painted here in floating point; a line of text is painted as a solid block
//! as wide as it may be.

use std::io::Cursor;
use task_var::actions::ICON_COUNT;
use task_var::art::Accent;
use task_var::bar::{Bar, Hit, MARK_H};
use task_var::clawd::{Row, St};
use task_var::grid::{CLAWD_NAME_GAP, CLAWD_PAD_X};
use task_var::mark::{BLUE, GRAY, MARK_OPEN_PCT, MARK_PCT};
use task_var::np::NowPlaying;
use task_var::paint::{
    ClawdView, NpView, Op, ART_BG, BG, CLAWD_DONE, CLAWD_SHADOW_DX, GREEN, GROOVE, PANEL, SHADOW,
    WHITE,
};
use task_var::panel::Rect;
use task_var::player::{Ctrl, Loop, PlayerState};
use task_var::raster::{
    blit_alpha, clear, pixel, premul_glyph, set_pixel, tint_glyph, Glyph,
};
use task_var::sprite;
use task_var::tmux::State;
use task_var::tuning::{Tuning, CLAWD_ROWS};

const SHADOW_A: f32 = 0.05;
const SHADOW_BLUR: f32 = 2.0;
const SHADOW_DY: f32 = 3.0;
const GRAD_SPREAD: f32 = 0.8;
const CLAWD_SHADOW_RATIO: f32 = 0.6;

const CTRLS: [Ctrl; 5] = [Ctrl::Shuffle, Ctrl::Prev, Ctrl::PlayPause, Ctrl::Next, Ctrl::Repeat];

/// A glyph that is opaque everywhere.
fn block(px: u32) -> Glyph {
    Glyph { px, rgba: [200, 30, 90, 255].repeat((px * px) as usize) }
}

/// An orange figure with a black outline on white.
fn figure() -> Vec<u8> {
    let mut px = Vec::new();
    for y in 0..318i32 {
        for x in 0..514i32 {
            let d = (x - 257).abs() * 318 / 514 + (y - 159).abs();
            let c = if d < 110 {
                [217, 108, 80, 255]
            } else if d < 130 {
                [0, 0, 0, 255]
            } else {
                [255, 255, 255, 255]
            };
            px.extend_from_slice(&c);
        }
    }
    let img = image::RgbaImage::from_raw(514, 318, px).unwrap();
    let mut out = Cursor::new(Vec::new());
    img.write_to(&mut out, image::ImageFormat::Png).unwrap();
    out.into_inner()
}

fn bar(w: u32, h: u32) -> Bar {
    let t = Tuning::default();
    assert!(Bar::fits(w, h, &t));
    Bar::new(w, h, &t, Some(sprite::load(&figure()).ok().unwrap()))
}

struct Canvas {
    w: u32,
    h: u32,
    buf: Vec<u8>,
}

impl Canvas {
    fn px(&self, x: u32, y: u32) -> [u8; 3] {
        pixel(&self.buf, self.w, self.h, x, y).unwrap()
    }

    fn blend(&mut self, x: u32, y: u32, color: [u8; 3], cov: f32) {
        if cov <= 0.0 {
            return;
        }
        let cov = cov.min(1.0);
        if let Some(old) = pixel(&self.buf, self.w, self.h, x, y) {
            let new = [0, 1, 2].map(|k: usize| {
                (old[k] as f32 * (1.0 - cov) + color[k] as f32 * cov).round() as u8
            });
            set_pixel(&mut self.buf, self.w, self.h, x, y, new);
        }
    }

    fn disc(&mut self, x0: u32, y0: u32, d: u32, color: [u8; 3]) {
        let c = d as f32 / 2.0;
        for j in 0..d {
            for i in 0..d {
                let (dx, dy) = (i as f32 + 0.5 - c, j as f32 + 0.5 - c);
                let cov = (c - (dx * dx + dy * dy).sqrt() + 0.5).clamp(0.0, 1.0);
                self.blend(x0 + i, y0 + j, color, cov);
            }
        }
    }

    fn shade(&mut self, x: u32, y: u32, t: f32) {
        let t = t.clamp(0.0, 1.0);
        self.blend(x, y, SHADOW, t * t * (3.0 - 2.0 * t) * SHADOW_A);
    }

    fn disc_shadow(&mut self, x0: u32, y0: u32, d: u32) {
        let r = d as f32 / 2.0;
        let (cx, cy) = (x0 as f32 + r, y0 as f32 + r + SHADOW_DY);
        let reach = r + SHADOW_BLUR;
        for y in 0..self.h {
            for x in 0..self.w {
                let (dx, dy) = (x as f32 + 0.5 - cx, y as f32 + 0.5 - cy);
                self.shade(x, y, (reach - (dx * dx + dy * dy).sqrt()) / SHADOW_BLUR);
            }
        }
    }

    fn rect_shadow(&mut self, rect: Rect, r: f32) {
        let (hx, hy) = (rect.w as f32 / 2.0, rect.h as f32 / 2.0);
        let (cx, cy) = (rect.x as f32 + hx, rect.y as f32 + hy + SHADOW_DY);
        for y in 0..self.h {
            for x in 0..self.w {
                let dx = (x as f32 + 0.5 - cx).abs() - (hx - r);
                let dy = (y as f32 + 0.5 - cy).abs() - (hy - r);
                let out = (dx.max(0.0).powi(2) + dy.max(0.0).powi(2)).sqrt();
                let d = out + dx.max(dy).min(0.0) - r;
                self.shade(x, y, (SHADOW_BLUR - d) / SHADOW_BLUR);
            }
        }
    }

    fn fade(&mut self, rect: Rect, r: f32, from: [u8; 3], to: [u8; 3]) {
        let r = r.min(rect.w as f32 / 2.0).min(rect.h as f32 / 2.0).max(0.0);
        for j in 0..rect.h {
            for i in 0..rect.w {
                let (px, py) = (i as f32 + 0.5, j as f32 + 0.5);
                let dx = (r - px).max(px - (rect.w as f32 - r)).max(0.0);
                let dy = (r - py).max(py - (rect.h as f32 - r)).max(0.0);
                let cov = (r - (dx * dx + dy * dy).sqrt() + 0.5).clamp(0.0, 1.0);
                let u = i as f32 / rect.w.max(1) as f32;
                let v = j as f32 / rect.h.max(1) as f32;
                let t = ((u * 0.85 + v * 0.15) / GRAD_SPREAD).clamp(0.0, 1.0);
                let t = t * t * (3.0 - 2.0 * t);
                let c = [0, 1, 2].map(|k: usize| {
                    (from[k] as f32 + (to[k] as f32 - from[k] as f32) * t).round() as u8
                });
                self.blend(rect.x + i, rect.y + j, c, cov);
            }
        }
    }

    fn step(&mut self, bar: &Bar, op: Op) {
        let (w, h) = (self.w, self.h);
        match op {
            Op::Clear { color } => clear(&mut self.buf, color),
            Op::DiscShadow { x, y, d } => self.disc_shadow(x, y, d),
            Op::Disc { x, y, d, color } => self.disc(x, y, d, color),
            Op::Glyph { picture, x, y } => {
                let px = match picture {
                    task_var::paint::Picture::Icon(_) => bar.glyph_px(),
                    task_var::paint::Picture::NoArt => bar.art_glyph_px(),
                };
                assert!(x + px <= w && y + px <= h, "a picture lies outside the bar");
                premul_glyph(&mut self.buf, w, x, y, &block(px));
            }
            Op::Tint { button, x, y, color } => {
                let px = bar.ctrl_px([0, 1, 2, 2, 3, 4, 4][button]);
                tint_glyph(&mut self.buf, w, h, x, y, &block(px), color);
            }
            Op::Round { rect, radius2, color } => {
                self.fade(rect, radius2 as f32 / 2.0, color, color)
            }
            Op::Fade { rect, radius2, from, to } => {
                self.fade(rect, radius2 as f32 / 2.0, from, to)
            }
            Op::RectShadow { rect, radius2 } => self.rect_shadow(rect, radius2 as f32 / 2.0),
            Op::Art { .. } => panic!("there is no art"),
            Op::Text { x, y, h, max, color, .. } => {
                for i in 0..max {
                    for j in h / 4..h * 3 / 4 {
                        self.blend(x + i, y + j, color, 1.0);
                    }
                }
            }
            Op::Sprite { x, y, w: sw, h: sh, body } => {
                let src = bar.sprite.as_ref().unwrap().render(sw, sh, body);
                blit_alpha(&mut self.buf, w, h, x, y, sw, sh, &src);
            }
            Op::SpriteShadow { x, y, w: sw, h: sh } => {
                let src = bar.sprite.as_ref().unwrap().render(sw, sh, SHADOW);
                for (p, c) in src.chunks_exact(4).enumerate() {
                    let (i, j) = (p as u32 % sw, p as u32 / sw);
                    let cov = c[3] as f32 / 255.0 * SHADOW_A * CLAWD_SHADOW_RATIO;
                    self.blend(x + i, y + j, [c[0], c[1], c[2]], cov);
                }
            }
        }
    }
}

fn draw(bar: &Bar, st: &State, np: Option<&NpView>, clawd: Option<&ClawdView>) -> Canvas {
    draw_over(bar, 0, st, np, clawd)
}

/// Draws over a buffer whose bytes are all `was`.
fn draw_over(
    bar: &Bar,
    was: u8,
    st: &State,
    np: Option<&NpView>,
    clawd: Option<&ClawdView>,
) -> Canvas {
    let buf = vec![was; (bar.w * bar.h * 4) as usize];
    let mut c = Canvas { w: bar.w, h: bar.h, buf };
    for op in bar.draw(st, np, clawd, true) {
        c.step(bar, op);
    }
    c
}

fn state(current: &str, existing: &[&str]) -> State {
    State {
        client: Some("/dev/tty1".into()),
        current: Some(current.into()),
        existing: existing.iter().map(|s| s.to_string()).collect(),
        first_session: existing.first().map(|s| s.to_string()),
    }
}

fn now_playing() -> NowPlaying {
    NowPlaying {
        track: "I mean, It's about time".into(),
        artist: "NCT 127".into(),
        art_url: None,
        progress_ms: 42_620,
        duration_ms: 128_000,
        written_at_ms: 0,
        is_playing: true,
    }
}

fn view<'a>(bar: &Bar, np: &'a NowPlaying, player: PlayerState) -> NpView<'a> {
    let ratio = np.position(1_000_000) as f32 / np.duration_ms as f32;
    let filled = (bar.np.prog.w as f32 * ratio.clamp(0.0, 1.0)).round() as u32;
    NpView { np, player, art: None, accent: Accent::default(), filled }
}

fn darker(c: [u8; 3]) -> bool {
    c.iter().zip(BG).all(|(a, b)| *a < b)
}

fn near(c: [u8; 3], want: [u8; 3], by: u8) -> bool {
    c.iter().zip(want).all(|(a, b)| a.abs_diff(b) <= by)
}

fn middle(r: Rect) -> (i64, i64) {
    ((r.x + r.w / 2) as i64, (r.y + r.h / 2) as i64)
}

#[test]
fn layout_survives_any_bar_height() {
    let w = 1366;
    let heights = (24..=200).step_by(8).chain([256, 384]);
    for h in heights {
        let bar = bar(w, h);
        let np = now_playing();
        let player = PlayerState { playing: true, shuffle: false, repeat: Loop::Off };
        let view = view(&bar, &np, player);
        let rows = vec![Row { pane: "%1".into(), label: "main".into(), st: St::Run }];
        let clawd = ClawdView { rows: &rows, phase: false };
        let ops = bar.draw(&state("main", &["main"]), Some(&view), Some(&clawd), true);
        for op in ops {
            if let Op::Glyph { x, y, .. } = op {
                assert!(x < w && y < h, "h={h}: a picture lies outside the bar");
            }
        }

        assert!(bar.mark_y + MARK_H <= h, "h={h}: the line lies outside the bar");
        let icons_right = bar.xs[ICON_COUNT - 1] + bar.tile_d;
        assert!(icons_right <= bar.np_rect().x, "h={h}: the icons overlap the panel");
        if let Some(l) = &bar.clawd {
            assert!(l.panel.x + l.panel.w <= bar.xs[0], "h={h}: the icons overlap the frame");
        }
    }
}

#[test]
fn bars_of_several_heights_are_painted() {
    for h in [24u32, 48, 96, 200] {
        let bar = bar(1366, h);
        let np = now_playing();
        let player = PlayerState { playing: true, shuffle: false, repeat: Loop::Off };
        let view = view(&bar, &np, player);
        let rows = vec![Row { pane: "%1".into(), label: "main".into(), st: St::Run }];
        let clawd = ClawdView { rows: &rows, phase: false };
        let c = draw(&bar, &state("main", &["main"]), Some(&view), Some(&clawd));
        let y = bar.mark_y + MARK_H / 2;
        assert_eq!(c.px(bar.xs[0] + bar.tile_d / 2, y), BLUE, "h={h}: the switcher's line");
    }
}

#[test]
fn draw_and_hit() {
    let (w, h) = (1366u32, 96u32);
    let bar = bar(w, h);
    let st = state("shorts", &["shorts", "bluetooth"]);
    let np = now_playing();
    let player = PlayerState { playing: true, shuffle: true, repeat: Loop::Playlist };
    let view = view(&bar, &np, player);
    let c = draw(&bar, &st, Some(&view), None);

    let (cx, cy) = (bar.xs[1] + bar.tile_d / 2, bar.tile_y + bar.tile_d / 2);
    assert_eq!(c.px(cx + bar.tile_d * 38 / 100, cy), WHITE);
    assert_eq!(c.px(cx + bar.tile_d / 2 - 2, cy), WHITE, "there is a ring");

    let mark_px = |i: usize, dx: i32| {
        let x = (bar.xs[i] + bar.tile_d / 2) as i32 + dx;
        c.px(x as u32, bar.mark_y + MARK_H / 2)
    };
    let half = (bar.tile_d * MARK_PCT / 100 / 2) as i32;
    let open_half = (bar.tile_d * MARK_OPEN_PCT / 100 / 2) as i32;
    assert_eq!(mark_px(1, 0), BLUE, "the shown session's line is not blue");
    assert_eq!(mark_px(1, half - 2), BLUE, "the shown session's line is short");
    assert_ne!(mark_px(1, half + 2), BLUE, "the shown session's line is long");
    assert_eq!(mark_px(2, 0), GRAY, "the open session's line is not grey");
    assert_eq!(mark_px(2, open_half - 2), GRAY, "the grey line is short");
    assert_ne!(mark_px(2, open_half + 2), GRAY, "the grey line is long");
    assert_ne!(mark_px(2, half - 2), GRAY, "the grey line is as long as the blue one");
    let none = mark_px(3, 0);
    assert!(none != BLUE && none != GRAY, "a line without a session: {none:?}");
    assert_eq!(mark_px(0, 0), GRAY, "the switcher's line is gone");

    let icons_right = bar.xs[ICON_COUNT - 1] + bar.tile_d;
    let l = bar.clawd.as_ref().unwrap();
    let left_gap = bar.xs[0] - (l.panel.x + l.panel.w);
    let right_gap = bar.np_rect().x - icons_right;
    assert!(left_gap.abs_diff(right_gap) <= 1, "not centred: {left_gap} and {right_gap}");
    assert_eq!(c.px(icons_right + 4, 2), BG);
    assert_eq!(c.px(l.panel.x + l.panel.w + 4, 2), BG);
    let ncx = bar.xs[3] + bar.tile_d / 2;
    let below = |dy: u32| c.px(ncx, bar.tile_y + bar.tile_d + dy);
    assert!(darker(below(1)), "no shadow below the disc: {:?}", below(1));
    let far = below((SHADOW_BLUR + SHADOW_DY).ceil() as u32);
    assert_eq!(far, BG, "the shadow reaches too far");
    assert!(below(1)[2] < below(3)[2], "the shadow does not fade");

    let p = bar.np_rect();
    assert!(p.x > icons_right, "the panel is not right of the icons");
    let left = c.px(p.x + 4, p.y + p.h / 2);
    assert!(near(left, view.accent.fill, 12), "the left end: {left:?}");
    assert_eq!(c.px(p.x + p.w - 4, p.y + p.h / 2), PANEL, "the right end");
    let side = c.px(p.x - 2, p.y + p.h / 2);
    assert!(darker(side), "no shadow beside the panel: {side:?}");

    let prog = bar.np.prog;
    assert_eq!(c.px(prog.x + 2, prog.y + prog.h / 2), GREEN);
    assert_eq!(c.px(prog.x + prog.w - 2, prog.y + prog.h / 2), GROOVE);

    let cy = cy as i64;
    assert_eq!(bar.hit(cx as i64, cy, true, 0), Some(Hit::Icon(1)));
    assert_eq!(bar.hit(2, cy, true, 0), None);

    for (i, ctrl) in CTRLS.iter().enumerate() {
        let (sx, sy) = middle(bar.np.ctrl_slot(i));
        assert_eq!(bar.hit(sx, sy, true, 0), Some(Hit::Ctrl(*ctrl)), "slot {i}");
        assert_eq!(bar.hit(sx, sy, false, 0), Some(Hit::Panel), "slot {i} without buttons");
    }

    let art_c = middle(bar.np.art);
    assert_eq!(bar.hit(art_c.0, art_c.1, true, 0), Some(Hit::Panel), "the art");
    let text_y = (p.y + p.h / 2) as i64;
    assert_eq!(bar.hit(bar.np.col2_x as i64 + 4, text_y, true, 0), Some(Hit::Panel), "the title");
    assert_eq!(bar.hit((p.x + 2) as i64, text_y, true, 0), Some(Hit::Panel), "the left end");
    assert_ne!(bar.hit((p.x - 4) as i64, text_y, true, 0), Some(Hit::Panel), "left of the panel");
    assert_eq!(bar.hit(art_c.0, art_c.1, false, 0), Some(Hit::Panel), "the art without buttons");
}

#[test]
fn empty_panel_keeps_the_frame_and_the_spotify_icon() {
    let (w, h) = (1366u32, 96u32);
    let bar = bar(w, h);
    let c = draw(&bar, &state("spotify", &["spotify"]), None, None);
    let p = bar.np_rect();

    let left = c.px(p.x + 3, p.y + p.h / 2);
    assert!(near(left, Accent::default().fill, 12), "the left end: {left:?}");
    assert_eq!(c.px(p.x + p.w - 6, p.y + p.h - 4), PANEL, "the right end");

    let art = bar.np.art;
    assert_eq!(bar.art_side(), art.w);
    assert!(
        (art.x..art.x + art.w).any(|x| (art.y..art.y + art.h).any(|y| c.px(x, y) != ART_BG)),
        "no picture stands for the art"
    );

    let l = &bar.np;
    let dark = |x: u32, y: u32| c.px(x, y).iter().all(|&v| v < 150);
    assert!(
        (l.col2_x..l.col2_x + l.col2_w).all(|x| (p.y + 4..p.y + p.h - 4).all(|y| dark(x, y))),
        "something is drawn in the title's column"
    );
    let btn = l.btn_xs[2] + l.btn_d[2] / 2;
    let at_btn = c.px(btn, l.btn_y[2] + l.btn_d[2] / 2);
    assert!(near(at_btn, PANEL, 8), "a button is drawn: {at_btn:?}");
    let prog = l.prog;
    assert_ne!(c.px(prog.x + 2, prog.y + prog.h / 2), GREEN, "the progress bar is drawn");

    let (cx, cy) = middle(p);
    assert_eq!(bar.hit(cx, cy, false, 0), Some(Hit::Panel));
}

#[test]
fn clawd_cells_draw_and_hit() {
    let bar = bar(1366, 96);
    let st = state("main", &["main"]);
    let rows = vec![
        Row { pane: "%1".into(), label: "main".into(), st: St::Run },
        Row { pane: "%2".into(), label: "task-var".into(), st: St::Done },
    ];
    let c = draw(&bar, &st, None, Some(&ClawdView { rows: &rows, phase: false }));
    let l = bar.clawd.as_ref().unwrap();
    let sprite = bar.sprite.as_ref().unwrap();

    assert_eq!(c.px(l.panel.x + 1, l.panel.y + 1), BG, "there is a frame");
    assert_eq!(c.px(l.panel.x + l.panel.w - 6, l.panel.y + l.panel.h - 4), BG);

    let has = |r: Rect, color: [u8; 3]| {
        (0..l.sprite_w).any(|i| (0..r.h).any(|j| c.px(r.x + i, r.y + j) == color))
    };
    let r0 = l.cells[0];
    assert!(has(l.cells[0], sprite.body), "the one at work is not orange");
    assert!(has(l.cells[1], CLAWD_DONE), "the one that is done is not yellow");
    assert!(!has(l.cells[2], sprite.body) && !has(l.cells[2], CLAWD_DONE));

    let shaded = (0..l.sprite_w + CLAWD_SHADOW_DX)
        .any(|i| (0..r0.h).any(|j| c.px(r0.x + i, r0.y + j) != BG && darker(c.px(r0.x + i, r0.y + j))));
    assert!(shaded, "there is no shadow");

    let name_x = r0.x + l.sprite_w + CLAWD_NAME_GAP;
    assert!(
        (name_x..r0.x + r0.w).any(|x| (r0.y..r0.y + r0.h).any(|y| c.px(x, y) != BG)),
        "there is no text"
    );

    let (x0, y0) = middle(l.cells[0]);
    assert_eq!(bar.hit(x0, y0, false, rows.len()), Some(Hit::Clawd(0)));
    let (x1, y1) = middle(l.cells[1]);
    assert_eq!(bar.hit(x1, y1, false, rows.len()), Some(Hit::Clawd(1)));
    let (x2, y2) = middle(l.cells[2]);
    assert_eq!(bar.hit(x2, y2, false, rows.len()), None, "a cell that nobody is drawn in");
    assert_eq!(bar.hit(x0, y0, false, 0), None, "an empty frame");

    let empty = draw(&bar, &st, None, Some(&ClawdView { rows: &[], phase: false }));
    assert!(
        (l.panel.x..l.panel.x + l.panel.w)
            .all(|x| (l.panel.y..l.panel.y + l.panel.h).all(|y| empty.px(x, y) == BG)),
        "nobody is there and something is drawn"
    );
}

#[test]
fn the_label_takes_the_empty_column_next_to_it() {
    let bar = bar(1366, 96);
    let l = bar.clawd.as_ref().unwrap();
    let st = state("main", &["main"]);
    let row = |i: usize, s: St| Row {
        pane: format!("%{i}"),
        label: "task-var の clawd 枠を 2 行 2 列に並べ替える".into(),
        st: s,
    };
    let paint = |rows: &[Row]| draw(&bar, &st, None, Some(&ClawdView { rows, phase: false }));
    let ink = |c: &Canvas, x0: u32, x1: u32, cell: Rect| {
        (x0..x1).any(|x| (cell.y..cell.y + cell.h).any(|y| c.px(x, y) != BG))
    };
    let next = l.cells[CLAWD_ROWS as usize];
    let (top, bottom) = (l.cells[0], l.cells[1]);
    let (gap_x0, gap_x1) = (top.x + top.w, next.x);
    let right_text = next.x + l.sprite_w + CLAWD_NAME_GAP;
    let right_end = l.panel.x + l.panel.w - CLAWD_PAD_X;

    let two = paint(&[row(1, St::Run), row(2, St::Done)]);
    assert!(ink(&two, gap_x0, gap_x1, top), "the text ends with its column");
    assert!(ink(&two, right_text, right_end, top), "the text does not reach the right column");
    assert!(ink(&two, right_text, right_end, bottom), "the lower text does not reach it");

    let three = paint(&[row(1, St::Run), row(2, St::Done), row(3, St::Ask)]);
    assert!(!ink(&three, gap_x0, gap_x1, top), "the text runs into its neighbour");
    assert!(ink(&three, right_text, right_end, bottom), "the lower text does not reach it");

    let four = paint(&[row(1, St::Run), row(2, St::Done), row(3, St::Ask), row(4, St::Seen)]);
    assert!(!ink(&four, gap_x0, gap_x1, top), "the upper text runs into its neighbour");
    assert!(!ink(&four, gap_x0, gap_x1, bottom), "the lower text runs into its neighbour");
}

#[test]
fn a_pixel_is_read_back_as_it_was_set() {
    let mut buf: Vec<u8> = (0..3 * 2 * 4 + 1).collect();
    assert_eq!(pixel(&buf, 3, 2, 1, 1), Some([16, 17, 18]));
    set_pixel(&mut buf, 3, 2, 1, 1, [200, 100, 50]);
    assert_eq!(pixel(&buf, 3, 2, 1, 1), Some([200, 100, 50]));
    assert_eq!(buf[15..21], [15, 200, 100, 50, 0, 20]);
    let before = buf.clone();
    set_pixel(&mut buf, 3, 2, 3, 0, [9, 9, 9]);
    set_pixel(&mut buf, 3, 2, 0, 2, [9, 9, 9]);
    assert_eq!(buf, before, "outside");
    assert_eq!((pixel(&buf, 3, 2, 3, 0), pixel(&buf, 3, 2, 0, 2)), (None, None));
}

#[test]
fn a_redraw_starts_afresh() {
    let bar = bar(1366, 96);
    let st = state("shorts", &["shorts", "bluetooth"]);
    let np = now_playing();
    let player = PlayerState { playing: true, shuffle: true, repeat: Loop::Playlist };
    let view = view(&bar, &np, player);
    let rows = vec![Row { pane: "%1".into(), label: "main".into(), st: St::Run }];
    let clawd = ClawdView { rows: &rows, phase: true };
    let a = draw_over(&bar, 0, &st, Some(&view), Some(&clawd));
    let b = draw_over(&bar, 0xAB, &st, Some(&view), Some(&clawd));
    assert!(a.buf == b.buf, "something of the old pixels is left");
    assert!(a.buf.iter().skip(3).step_by(4).all(|&v| v == 0), "a fourth byte is not zero");
}

#[test]
fn a_panel_without_room_shows_art_that_is_there() {
    let mut t = Tuning::default();
    t.np_w = 16;
    assert!(Bar::fits(1366, 96, &t));
    let bar = Bar::new(1366, 96, &t, None);
    assert_eq!(bar.art_side(), 0);
    let np = now_playing();
    let player = PlayerState { playing: true, shuffle: false, repeat: Loop::Off };
    let v = NpView { np: &np, player, art: Some(&[]), accent: Accent::default(), filled: 0 };
    let ops = bar.draw(&state("main", &["main"]), Some(&v), None, true);
    assert!(ops.contains(&Op::Art { rect: bar.np.art, radius2: 12 }));
}
