use task_var::art::Accent;
use task_var::bar::{Bar, MARK_H};
use task_var::clawd::{Row, St};
use task_var::grid::{CLAWD_NAME_GAP, CLAWD_PAD_X};
use task_var::mark::{BLUE, GRAY, MARK_OPEN_PCT, MARK_PCT};
use task_var::np::NowPlaying;
use task_var::paint::{
    ClawdView, NpView, Op, Picture, Text, ART_BG, BG, BLACK, CLAWD_ASK, CLAWD_DONE, CLAWD_NAME,
    CLAWD_NAME_SEEN, CLAWD_SEEN, GREEN, GROOVE, PANEL, PANEL_EDGE, SUB_TEXT, WHITE,
};
use task_var::panel::Rect;
use task_var::player::{Loop, PlayerState};
use task_var::sprite::Sprite;
use task_var::tmux::State;
use task_var::tuning::Tuning;

const ORANGE: [u8; 3] = [80, 108, 217];

fn bar() -> Bar {
    let dot = Sprite { w: 1, h: 1, class: vec![2], body: ORANGE };
    Bar::new(1366, 96, &Tuning::default(), Some(dot))
}

fn state(current: &str, existing: &[&str]) -> State {
    State {
        client: Some("/dev/tty1".into()),
        current: Some(current.into()),
        existing: existing.iter().map(|s| s.to_string()).collect(),
        first_session: existing.first().map(|s| s.to_string()),
    }
}

fn now_playing() -> NowPlaying {
    NowPlaying {
        track: "I mean, It's about time".into(),
        artist: "NCT 127".into(),
        art_url: None,
        progress_ms: 42_620,
        duration_ms: 128_000,
        written_at_ms: 0,
        is_playing: true,
    }
}

fn view<'a>(np: &'a NowPlaying, art: Option<&'a [u8]>, filled: u32) -> NpView<'a> {
    NpView {
        np,
        player: PlayerState { playing: true, shuffle: true, repeat: Loop::Playlist },
        art,
        accent: Accent::default(),
        filled,
    }
}

fn tints(ops: &[Op]) -> Vec<(usize, [u8; 3])> {
    ops.iter()
        .filter_map(|o| match o {
            Op::Tint { button, color, .. } => Some((*button, *color)),
            _ => None,
        })
        .collect()
}

#[test]
fn the_bar_is_drawn_in_order() {
    let b = bar();
    let ops = b.draw(&state("shorts", &["shorts", "bluetooth"]), None, None, true);
    assert_eq!(ops[0], Op::Clear { color: BG });
    for i in 0..6 {
        assert_eq!(ops[1 + i], Op::DiscShadow { x: b.xs[i], y: b.tile_y, d: b.tile_d });
    }
    assert_eq!(ops[7], Op::Disc { x: b.xs[0], y: b.tile_y, d: 70, color: WHITE });
    let off = (70 - b.glyph_px()) / 2;
    let picture = Picture::Icon(0);
    assert_eq!(ops[8], Op::Glyph { picture, x: b.xs[0] + off, y: b.tile_y + off });
}

#[test]
fn lines_tell_the_sessions_apart() {
    let b = bar();
    let ops = b.draw(&state("shorts", &["shorts", "bluetooth"]), None, None, true);
    let line = |i: usize| {
        ops.iter().find_map(|o| match o {
            Op::Round { rect, color, .. }
                if rect.y == b.mark_y && b.xs[i] <= rect.x && rect.x < b.xs[i] + b.tile_d =>
            {
                Some((*rect, *color))
            }
            _ => None,
        })
    };
    let centred = |i: usize, pct: u32| {
        let w = b.tile_d * pct / 100;
        Rect { x: b.xs[i] + (b.tile_d - w) / 2, y: b.mark_y, w, h: MARK_H }
    };
    assert_eq!(line(1), Some((centred(1, MARK_PCT), BLUE)), "shown");
    assert_eq!(line(2), Some((centred(2, MARK_OPEN_PCT), GRAY)), "open");
    assert_eq!(line(3), None, "no session");
    assert_eq!(line(0), Some((centred(0, MARK_OPEN_PCT), GRAY)), "the switcher");
}

#[test]
fn an_idle_panel_has_its_frame_and_a_picture() {
    let b = bar();
    let ops = b.draw(&state("spotify", &["spotify"]), None, None, true);
    let p = b.np_rect();
    let a = Accent::default();
    assert!(ops.contains(&Op::Fade { rect: p, radius2: 20, from: a.edge, to: PANEL_EDGE }));
    let inner = Rect { x: p.x + 1, y: p.y + 1, w: p.w - 2, h: p.h - 2 };
    assert!(ops.contains(&Op::Fade { rect: inner, radius2: 18, from: a.fill, to: PANEL }));
    assert!(ops.contains(&Op::Round { rect: b.np.art, radius2: 12, color: ART_BG }));
    let off = (b.np.art.w - b.art_glyph_px()) / 2;
    let (x, y) = (b.np.art.x + off, b.np.art.y + off);
    assert!(ops.contains(&Op::Glyph { picture: Picture::NoArt, x, y }), "the player's picture");
    assert!(!ops.iter().any(|o| matches!(o, Op::Text { .. } | Op::Tint { .. })));
    assert!(!ops.iter().any(|o| matches!(o, Op::Round { color: GREEN, .. })));
    assert!(!ops.iter().any(|o| matches!(o, Op::Round { color: GROOVE, .. })));
}

#[test]
fn the_panel_shows_what_plays() {
    let b = bar();
    let np = now_playing();
    let v = view(&np, None, 45);
    let ops = b.draw(&state("main", &["main"]), Some(&v), None, true);
    assert_eq!(
        tints(&ops),
        [(0, GREEN), (1, WHITE), (3, BLACK), (4, WHITE), (5, GREEN)],
        "shuffle on, playing, the list repeated"
    );
    let l = &b.np;
    let disc = Op::Disc { x: l.btn_xs[2], y: l.btn_y[2], d: 30, color: WHITE };
    assert!(ops.contains(&disc));
    let title = Op::Text {
        line: Text::Title,
        x: l.col2_x,
        y: l.row1_y,
        h: l.row1_h,
        max: l.col2_w,
        color: WHITE,
    };
    assert!(ops.contains(&title));
    assert!(ops.iter().any(|o| matches!(o, Op::Text { line: Text::Artist, color: SUB_TEXT, .. })));
    let n = ops.len();
    assert_eq!(ops[n - 2], Op::Round { rect: l.prog, radius2: l.prog.h, color: GROOVE });
    let filled = Rect { w: 45, ..l.prog };
    assert_eq!(ops[n - 1], Op::Round { rect: filled, radius2: l.prog.h, color: GREEN });
}

#[test]
fn the_panel_changes_with_the_player() {
    let b = bar();
    let np = now_playing();
    let mut v = view(&np, None, l_short(&b));
    v.player = PlayerState { playing: false, shuffle: false, repeat: Loop::Track };
    let ops = b.draw(&state("main", &["main"]), Some(&v), None, false);
    assert_eq!(tints(&ops), [(0, WHITE), (1, WHITE), (2, BLACK), (4, WHITE), (6, GREEN)]);
    assert!(!ops.iter().any(|o| matches!(o, Op::Text { .. })), "no font, no text");
    assert_eq!(
        *ops.last().unwrap(),
        Op::Round { rect: b.np.prog, radius2: b.np.prog.h, color: GROOVE },
        "too little to be filled"
    );
    v.player.repeat = Loop::Off;
    assert_eq!(tints(&b.draw(&state("m", &[]), Some(&v), None, false))[4], (5, WHITE));
}

fn l_short(b: &Bar) -> u32 {
    b.np.prog.h - 1
}

#[test]
fn art_is_drawn_if_all_of_it_is_there() {
    let b = bar();
    let np = now_playing();
    let whole = vec![0u8; (b.np.art.w * b.np.art.h * 4) as usize];
    let art = Op::Art { rect: b.np.art, radius2: 12 };
    let st = state("main", &["main"]);
    let v = view(&np, Some(&whole), 0);
    assert!(b.draw(&st, Some(&v), None, true).contains(&art));
    let v = view(&np, Some(&whole[1..]), 0);
    let ops = b.draw(&st, Some(&v), None, true);
    assert!(!ops.contains(&art));
    assert!(ops.iter().any(|o| matches!(o, Op::Glyph { picture: Picture::NoArt, .. })));
}

fn row(i: usize, st: St) -> Row {
    Row { pane: format!("%{i}"), label: "task-var".into(), st }
}

fn assistants(b: &Bar, rows: &[Row], phase: bool) -> Vec<Op> {
    let v = ClawdView { rows, phase };
    let st = state("main", &["main"]);
    let without = b.draw(&st, None, None, true).len();
    b.draw(&st, None, Some(&v), true)[without..].to_vec()
}

#[test]
fn assistants_are_drawn_in_their_colours() {
    let b = bar();
    let l = b.clawd.as_ref().unwrap();
    let rows = [row(1, St::Run), row(2, St::Ask), row(3, St::Done), row(4, St::Seen)];
    let ops = assistants(&b, &rows, false);
    assert_eq!(ops.len(), 12);
    let (w, h) = (l.sprite_w, l.sprite_h);
    for (i, (body, sh)) in
        [(ORANGE, h - 2), (CLAWD_ASK, h), (CLAWD_DONE, h), (CLAWD_SEEN, h)].iter().enumerate()
    {
        let r = l.cells[i];
        let y = r.y + (r.h - h) / 2;
        assert_eq!(ops[i * 3], Op::SpriteShadow { x: r.x + 1, y: y + 2, w, h: *sh });
        assert_eq!(ops[i * 3 + 1], Op::Sprite { x: r.x, y, w, h: *sh, body: *body });
        let color = if i == 3 { CLAWD_NAME_SEEN } else { CLAWD_NAME };
        assert!(matches!(ops[i * 3 + 2], Op::Text { color: c, .. } if c == color));
    }
    assert!(assistants(&b, &[], false).is_empty(), "nobody is there");
}

#[test]
fn those_at_work_bob() {
    let b = bar();
    let rows = [row(1, St::Run), row(2, St::Done)];
    let y = |phase: bool, k: usize| match assistants(&b, &rows, phase)[k] {
        Op::Sprite { y, .. } => y,
        _ => panic!("no sprite"),
    };
    assert_eq!(y(true, 1), y(false, 1) + 2);
    assert_eq!(y(true, 4), y(false, 4));
}

#[test]
fn a_label_ends_with_its_column_or_the_frame() {
    let b = bar();
    let l = b.clawd.as_ref().unwrap();
    let frame_end = l.panel.x + l.panel.w - CLAWD_PAD_X;
    let own_end = |i: usize| l.cells[i].x + l.cells[i].w;
    let ends = |n: usize| -> Vec<u32> {
        let rows: Vec<Row> = (0..n).map(|i| row(i, St::Run)).collect();
        assistants(&b, &rows, false)
            .iter()
            .filter_map(|o| match o {
                Op::Text { x, max, .. } => Some(x + max),
                _ => None,
            })
            .collect()
    };
    assert_eq!(ends(2), [frame_end, frame_end]);
    assert_eq!(ends(3), [own_end(0), frame_end, frame_end]);
    assert_eq!(ends(4), [own_end(0), own_end(1), frame_end, frame_end]);
    assert_eq!(ends(9).len(), 4, "more than there are cells");
    let first = assistants(&b, &[row(0, St::Ask)], false)[2];
    let x = l.cells[0].x + l.sprite_w + CLAWD_NAME_GAP;
    assert!(matches!(first, Op::Text { line: Text::Label(0), x: tx, .. } if tx == x));
}
