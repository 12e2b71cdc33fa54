use task_var::actions::ICON_COUNT;
use task_var::bar::{
    icon_d, Bar, Hit, ICON_D_MIN, ICON_D_PCT, MARK_GAP, MARK_H, NP_MIN_W,
};
use task_var::grid::{
    ClawdLayout, CLAWD_COL_GAP, CLAWD_MIN_W, CLAWD_NAME_GAP,
};
use task_var::panel::{panel_width, NpLayout, Rect, BTN_GAP, GAP, PAD};
use task_var::sprite::Sprite;
use task_var::tuning::{Env, Tuning, CLAWD_COLS, CLAWD_ROWS, MARGIN};

const BTN_D_DEFAULT: [u32; 5] = [20, 16, 30, 16, 20];

fn dot() -> Sprite {
    Sprite { w: 1, h: 1, class: vec![2], body: [80, 108, 217] }
}

fn bar(w: u32, h: u32) -> Bar {
    let t = Tuning::default();
    assert!(Bar::fits(w, h, &t));
    Bar::new(w, h, &t, Some(dot()))
}

fn layout(h: u32, avail: u32) -> NpLayout {
    NpLayout::new(1366, h, MARGIN, avail, &Tuning::default())
}

#[test]
fn icon_size_follows_the_bar_height() {
    let want = |h: u32| h * ICON_D_PCT / 100;
    assert_eq!(icon_d(1366, 88, want(88), 24, MARGIN), 64);
    assert_eq!(icon_d(1366, 128, want(128), 24, MARGIN), 93, "a higher bar has larger icons");
    assert_eq!(icon_d(1366, 48, want(48), 24, MARGIN), 35, "a lower bar has smaller icons");

    for h in [24u32, 40, 88, 200] {
        let d = icon_d(1366, h, 9999, 24, MARGIN);
        assert!(d + MARK_GAP + MARK_H <= h, "h={h}: the line lies outside the bar");
    }
    let d = icon_d(1366, 400, 9999, 24, MARGIN);
    let n = ICON_COUNT as u32;
    let total = n * d + (n - 1) * 24;
    assert!(
        total + MARGIN * 2 + GAP * 2 + NP_MIN_W * 2 <= 1366,
        "the icons take the frames' place: total={total}"
    );
    assert_eq!(icon_d(320, 88, want(88), 24, MARGIN), ICON_D_MIN);
}

#[test]
fn clawd_frame_sits_left_of_the_icons() {
    let bar = bar(1366, 96);
    assert_eq!(bar.clawd_cells(), (CLAWD_ROWS * CLAWD_COLS) as usize, "two rows, two columns");
    let l = bar.clawd.as_ref().unwrap();

    assert_eq!(l.panel.w, bar.np_rect().w, "the frame is not as wide as the panel");
    let np = bar.np_rect();
    assert_eq!(l.panel.x, bar.w - (np.x + np.w), "the margins differ");
    assert_eq!(l.panel.y, np.y, "the tops differ");
    assert_eq!(l.panel.h, np.h, "the heights differ");
    assert!(l.panel.x + l.panel.w <= bar.xs[0], "the frame overlaps the icons");
    let icons_right = bar.xs[ICON_COUNT - 1] + bar.tile_d;
    assert!(icons_right <= bar.np_rect().x, "the icons overlap the panel");
    assert_eq!(bar.clawd_rect(), Some(l.panel));

    for (i, r) in l.cells.iter().enumerate() {
        assert!(r.y >= l.panel.y && r.y + r.h <= l.panel.y + l.panel.h, "{i}: too high");
        assert!(r.x >= l.panel.x && r.x + r.w <= l.panel.x + l.panel.w, "{i}: too wide");
        assert!(l.sprite_w + CLAWD_NAME_GAP < r.w, "{i}: no room for text");
    }
    let rows = CLAWD_ROWS as usize;
    assert_eq!(l.cells[0].x, l.cells[1].x, "the first column is not straight");
    assert_eq!(l.cells[1].y, l.cells[0].y + l.cells[0].h, "the second is not below the first");
    assert_eq!(l.cells[0].y, l.cells[rows].y, "the first row is not straight");
    assert_eq!(
        l.cells[rows].x - (l.cells[0].x + l.cells[0].w),
        CLAWD_COL_GAP,
        "the gap between the columns"
    );
    assert!(ClawdLayout::new(64, 12, 400, &Tuning::default()).is_some(), "a lower bar has a frame");

    let above = l.cells[0].y - l.panel.y;
    let last = l.cells[rows - 1];
    let below = (l.panel.y + l.panel.h) - (last.y + last.h);
    assert!(above.abs_diff(below) <= 1, "not centred: {above} above, {below} below");

    let left_gap = bar.xs[0] - (l.panel.x + l.panel.w);
    let right_gap = bar.np_rect().x - icons_right;
    assert!(left_gap.abs_diff(right_gap) <= 1, "not centred: {left_gap} and {right_gap}");

    assert!(
        ClawdLayout::new(96, 24, CLAWD_MIN_W - 1, &Tuning::default()).is_none(),
        "a frame in too narrow a place"
    );
}

#[test]
fn controls_sit_centred_and_inside_the_panel() {
    let l = layout(96, 400);
    let (top, bottom) = (l.panel.y, l.panel.y + l.panel.h);
    for (i, &d) in l.btn_d.iter().enumerate() {
        assert!(l.btn_y[i] >= top, "button {i} rises above the panel");
        assert!(l.btn_y[i] + d <= l.prog.y, "button {i} reaches into the progress bar");
    }
    assert!(l.prog.y + l.prog.h <= bottom, "the progress bar lies outside the panel");

    let group_top = *l.btn_y.iter().min().unwrap();
    let slack_above = group_top - top;
    let slack_below = bottom - (l.prog.y + l.prog.h);
    assert!(
        slack_above.abs_diff(slack_below) <= 1,
        "not centred: {slack_above} above, {slack_below} below"
    );
    assert_eq!(l.prog.x, l.btn_xs[0], "the left ends differ");
    assert_eq!(l.prog.x + l.prog.w, l.btn_xs[4] + l.btn_d[4], "the right ends differ");
}

#[test]
fn text_width_drives_the_panel_when_given() {
    let want = PAD * 2 + 72 + GAP + 300 + GAP + 200;
    assert_eq!(panel_width(2000, 560, Some(300), 72, 200), want);
    let l = layout(96, 400);
    let col3 = BTN_D_DEFAULT.iter().sum::<u32>() + BTN_GAP * 4;
    assert_eq!(l.col2_w, 400 - PAD * 2 - 72 - GAP - GAP - col3);

    assert_eq!(panel_width(400, 560, Some(300), 72, 200), 400);
    assert_eq!(panel_width(2000, 560, None, 72, 200), 560);
    assert_eq!(panel_width(400, 560, None, 72, 200), 400);
}

#[test]
fn panel_never_overlaps_the_icons() {
    for avail in [160u32, 300, 800] {
        let l = layout(96, avail);
        assert!(l.panel.w <= avail, "avail={avail}: too wide");
        assert_eq!(l.panel.x + l.panel.w, 1366 - MARGIN, "avail={avail}: the right end moved");
        assert!(l.panel.x + l.panel.w <= 1366, "avail={avail}: outside the screen");
        let panel_right = l.panel.x + l.panel.w;
        assert!(l.btn_xs[4] + l.btn_d[4] + PAD <= panel_right, "a button lies outside");
        assert!(l.prog.x + l.prog.w + PAD <= panel_right, "the progress bar lies outside");
    }
}

#[test]
fn a_text_width_is_met_by_the_layout() {
    let mut t = Tuning::default();
    t.text_w = Some(300);
    let l = NpLayout::new(1366, 96, MARGIN, 800, &t);
    assert_eq!(l.col2_w, 300);
}

#[test]
fn buttons_shrink_together_and_keep_their_order() {
    let l = layout(96, 240);
    let d = l.btn_d;
    assert!(d[2] >= d[0] && d[0] >= d[1] && d[1] == d[3] && d[0] == d[4]);
    assert!(d[2] < 30, "nothing had to shrink");
    for i in 0..4 {
        assert_eq!(l.btn_xs[i + 1], l.btn_xs[i] + d[i] + BTN_GAP);
    }
}

#[test]
fn a_displacement_stays_in_the_panel() {
    let mut t = Tuning::default();
    t.ctrl_dy = 1000;
    let l = NpLayout::new(1366, 96, MARGIN, 400, &t);
    assert_eq!(l.prog.y + l.prog.h, l.panel.y + l.panel.h);
    t.ctrl_dy = -1000;
    let l = NpLayout::new(1366, 96, MARGIN, 400, &t);
    assert_eq!(*l.btn_y.iter().min().unwrap(), l.panel.y);
}

#[test]
fn the_progress_bar_has_a_height_of_its_own() {
    for h in [64u32, 96, 200] {
        assert_eq!(layout(h, 400).prog.h, 4, "h={h}");
    }
    assert_eq!(layout(24, 400).prog.h, 1, "no more than there is room for");
    let mut t = Tuning::default();
    t.prog_h = Some(9);
    assert_eq!(NpLayout::new(1366, 96, MARGIN, 400, &t).prog.h, 9);
}

#[test]
fn exact_places_on_a_usual_screen() {
    let b = bar(1366, 96);
    assert_eq!(b.tile_d, 70);
    assert_eq!((b.tile_y, b.mark_y), (9, 83));
    assert_eq!(b.np.panel, Rect { x: 965, y: 4, w: 389, h: 88 });
    assert_eq!(b.np.art, Rect { x: 973, y: 12, w: 72, h: 72 });
    assert_eq!(b.art_side(), 72);
    assert_eq!(b.glyph_px(), 40);
    assert_eq!(b.art_glyph_px(), 39);
    assert_eq!([0, 1, 2, 3, 4].map(|i| b.ctrl_px(i)), [20, 16, 17, 16, 20]);
    assert_eq!(b.xs, [413, 507, 601, 695, 789, 883].map(|x: u32| x));
}

#[test]
fn a_bar_that_cannot_be_laid_out_is_told() {
    let t = Tuning::default();
    assert!(!Bar::fits(100, 96, &t));
    assert!(Bar::fits(1366, 96, &t));
    let mut wide = t;
    wide.margin = u32::MAX;
    assert!(!Bar::fits(1366, 96, &wide));
}

#[test]
fn only_cells_that_are_there_are_hit() {
    let bar = bar(1366, 96);
    let r = bar.clawd.as_ref().unwrap().cells[0];
    let (x, y) = ((r.x + r.w / 2) as i64, (r.y + r.h / 2) as i64);
    assert_eq!(bar.hit(x, y, false, 99), Some(Hit::Clawd(0)), "more than there are cells");
    assert_eq!(bar.hit(x, y, false, 0), None);
}

#[test]
fn touches_are_lenient_around_an_icon() {
    let bar = bar(1366, 96);
    let (x, y) = (bar.xs[0] as i64, bar.tile_y as i64);
    assert_eq!(bar.hit(x - 8, y, true, 0), Some(Hit::Icon(0)));
    assert_eq!(bar.hit(x - 9, y, true, 0), None);
    assert_eq!(bar.hit(x, y - 8, true, 0), Some(Hit::Icon(0)));
    assert_eq!(bar.hit(x, y - 9, true, 0), None);
    assert_eq!(bar.hit(-1, -1, true, 0), None);
    assert_eq!(bar.hit(i64::MAX, i64::MIN, true, 0), None);
}

#[test]
fn a_bar_without_a_picture_has_no_cells() {
    let b = Bar::new(1366, 96, &Tuning::default(), None);
    assert_eq!(b.clawd_cells(), 0);
    assert!(b.clawd_rect().is_some());
}

#[test]
fn a_point_lies_in_a_rectangle_up_to_its_far_edges() {
    let r = Rect { x: 2, y: 3, w: 4, h: 5 };
    assert!(r.contains(2, 3) && r.contains(5, 7));
    assert!(!r.contains(6, 3) && !r.contains(2, 8) && !r.contains(1, 3) && !r.contains(2, 2));
}

fn env() -> Env {
    Env {
        gap: None,
        margin: None,
        icon_d: None,
        prog_h: None,
        ctrl_gap: None,
        ctrl_dy: None,
        btn_d: None,
        btn_shuffle: None,
        btn_prev: None,
        btn_play: None,
        btn_next: None,
        btn_repeat: None,
        np_w: None,
        text_w: None,
        clawd_w: None,
        clawd_rows: None,
        clawd_cols: None,
    }
}

#[test]
fn knobs_are_read_or_fall_back() {
    let t = Tuning::from_env(&env());
    assert_eq!((t.gap, t.margin, t.np_w, t.ctrl_gap, t.ctrl_dy), (24, 12, 400, 5, 0));
    assert_eq!((t.icon_d, t.prog_h, t.text_w, t.clawd_w, t.btn_d), (None, None, None, None, None));
    let mut e = env();
    e.gap = Some("30".into());
    e.margin = Some(" 30".into());
    e.ctrl_dy = Some(" -7 ".into());
    e.text_w = Some(" 200 ".into());
    e.clawd_w = Some("0".into());
    e.btn_play = Some("44".into());
    e.btn_d = Some("18".into());
    e.np_w = Some("x".into());
    e.clawd_rows = Some("3".into());
    e.clawd_cols = Some("4294967296".into());
    let t = Tuning::from_env(&e);
    assert_eq!((t.gap, t.margin, t.ctrl_dy), (30, 12, -7), "only some allow white space");
    assert_eq!((t.text_w, t.clawd_w), (Some(200), None));
    assert_eq!((t.btn[2], t.btn[0], t.btn_d), (Some(44), None, Some(18)));
    assert_eq!((t.np_w, t.clawd_rows, t.clawd_cols), (400, 3, 2));
    let l = NpLayout::new(1366, 96, MARGIN, 400, &t);
    assert_eq!(l.btn_d, [18, 18, 44, 18, 18]);
}
