use task_var::bar::Hit;
use task_var::clawd::{Model, Row, St};
use task_var::client::{server_socket, LineBuffer, VisMsg};
use task_var::daemon::{bar_geometry, Act, Blit, Daemon, Tick, Touch, HIDE_AFTER};
use task_var::mpris::Snapshot;
use task_var::player::{Ctrl, Loop, PlayerState};
use task_var::playing::Np;
use task_var::tap::{on_tap, Tapped};
use task_var::term::{cell_height, disabled, shrink, Client, Search};
use task_var::tmux::State;

fn msg(visible: bool, scene: Option<&str>) -> VisMsg {
    VisMsg { visible, scene: scene.map(|s| s.to_string()) }
}

const S: u64 = 1_000_000_000;

#[test]
fn a_scene_takes_the_screen_and_gives_it_back() {
    for scene in ["fbhalf", "ssbrowse"] {
        let mut d = Daemon::new(0);
        assert_eq!(d.on_visibility(&msg(true, Some(scene)), S), [Act::Widen, Act::Leave]);
        assert!(!d.bar_shown && d.swipe_mode);
        assert_eq!(d.on_visibility(&msg(true, Some(scene)), S), []);
        assert_eq!(d.on_visibility(&msg(true, None), 2 * S), [Act::Shrink, Act::Show]);
        assert!(d.bar_shown && !d.swipe_mode);
        assert_eq!(d.last_full, 2 * S);
    }
    let mut d = Daemon::new(0);
    assert_eq!(d.on_visibility(&msg(true, Some("other")), S), []);
}

#[test]
fn the_bar_follows_the_server_in_other_scenes() {
    let mut d = Daemon::new(0);
    assert_eq!(d.on_visibility(&msg(false, None), S), [Act::Wipe]);
    assert_eq!(d.on_visibility(&msg(false, None), S), []);
    assert_eq!(d.on_visibility(&msg(true, None), S), [Act::Show]);
    assert_eq!(d.on_visibility(&msg(false, Some("fbhalf")), S), [Act::Widen, Act::Leave]);
    assert_eq!(d.on_visibility(&msg(false, None), S), [Act::Shrink]);
    assert!(!d.bar_shown);
}

#[test]
fn a_bar_that_may_not_be_seen_leaves_with_the_scene() {
    let mut d = Daemon::new(0);
    d.on_visibility(&msg(false, Some("fbhalf")), S);
    assert_eq!(d.on_touch(true, true, 2 * S), Touch::Reveal);
    assert_eq!(d.on_visibility(&msg(false, None), 3 * S), [Act::Shrink, Act::Wipe]);
    assert!(!d.bar_shown && !d.swipe_mode);
    assert!(d.on_visibility(&msg(false, None), 4 * S).is_empty());
    assert_eq!(d.on_visibility(&msg(true, None), 5 * S), [Act::Show]);

    let mut d = Daemon::new(0);
    d.on_visibility(&msg(true, Some("ssbrowse")), S);
    d.on_touch(true, true, 2 * S);
    assert_eq!(d.on_visibility(&msg(true, None), 3 * S), [Act::Shrink], "it may be seen");
    assert!(d.bar_shown);
}

#[test]
fn a_swipe_up_shows_the_bar_for_a_while() {
    let mut d = Daemon::new(0);
    d.on_visibility(&msg(true, Some("fbhalf")), S);
    assert_eq!(d.on_touch(false, false, 2 * S), Touch::Ignore);
    assert_eq!(d.on_touch(true, true, 2 * S), Touch::Reveal);
    assert_eq!(d.hide_at, Some(2 * S + HIDE_AFTER));
    assert_eq!(d.timeout(true, true), 200);
    assert_eq!(d.on_tick(4 * S), Tick::Update { poll: true });
    assert_eq!(d.on_touch(false, true, 4 * S), Touch::Ignore);
    assert_eq!(d.on_tick(6 * S), Tick::Update { poll: true }, "a touch keeps it longer");
    assert_eq!(d.on_tick(7 * S), Tick::Leave);
    assert!(!d.bar_shown);
    assert_eq!(d.timeout(true, true), 1000);
}

#[test]
fn a_tap_counts_while_the_bar_is_shown() {
    let mut d = Daemon::new(0);
    assert_eq!(d.on_touch(false, false, S), Touch::Tap);
    assert_eq!(d.on_touch(true, true, S), Touch::Ignore);
    assert_eq!(d.hide_at, None);
    assert!(d.after_tap(5 * S));
    assert_eq!(d.last_full, 5 * S);
    d.on_visibility(&msg(false, None), S);
    assert!(!d.after_tap(9 * S));
    assert_eq!(d.last_full, 5 * S);
}

#[test]
fn the_whole_bar_is_written_once_a_second() {
    let mut d = Daemon::new(0);
    assert_eq!(d.timeout(true, true), 500);
    assert_eq!(d.timeout(false, true), 1000);
    assert_eq!(d.timeout(true, false), 1000);
    assert_eq!(d.on_tick(S / 2), Tick::Update { poll: false });
    assert_eq!(d.after_tick(true, false, S / 2), Blit::Parts { panel: true, clawd: false });
    assert_eq!(d.on_tick(S), Tick::Update { poll: true });
    assert_eq!(d.after_tick(true, true, S), Blit::Full);
    assert_eq!(d.after_tick(false, true, S), Blit::Parts { panel: false, clawd: true });
    d.on_visibility(&msg(false, None), S);
    assert_eq!(d.after_tick(true, true, 9 * S), Blit::Nothing);
}

#[test]
fn the_bars_place_on_the_screen() {
    assert_eq!(bar_geometry(768, None, None), (704, 64));
    assert_eq!(bar_geometry(768, Some("88"), None), (680, 88));
    assert_eq!(bar_geometry(768, Some("88"), Some(16)), (672, 96));
    assert_eq!(bar_geometry(768, Some("1"), None), (744, 24));
    assert_eq!(bar_geometry(768, Some("9999"), None), (384, 384));
    assert_eq!(bar_geometry(768, Some("x"), Some(1000)), (0, 768));
}

#[test]
fn messages_are_framed_wherever_the_stream_is_cut() {
    let stream = b"{\"a\":1}\n\n{\"b\"";
    let mut whole = LineBuffer::default();
    let want = whole.push(stream);
    assert_eq!(want, [b"{\"a\":1}\n".to_vec(), b"\n".to_vec()]);
    assert_eq!(whole.rest, b"{\"b\"");
    for cut in 0..=stream.len() {
        let mut b = LineBuffer::default();
        let mut got = b.push(&stream[..cut]);
        got.extend(b.push(&stream[cut..]));
        assert_eq!(got, want);
        assert_eq!(b.rest, whole.rest);
    }
}

#[test]
fn servers_listen_at_their_sockets() {
    assert_eq!(server_socket(Some("/x"), Some("/run"), "fb-server.sock"), "/x");
    assert_eq!(server_socket(Some(""), Some("/run"), "fb-server.sock"), "/run/fb-server.sock");
    assert_eq!(server_socket(None, Some(""), "touch-server.sock"), "/tmp/touch-server.sock");
    assert_eq!(server_socket(None, None, "fb-server.sock"), "/tmp/fb-server.sock");
}

fn found(s: Search) -> Option<(String, u32, u32)> {
    match s {
        Search::Done(c) => c.map(|c| (c.tty, c.cols, c.rows)),
        _ => panic!("the search goes on"),
    }
}

#[test]
fn the_search_for_the_terminal() {
    let s = Search::start(false, Some("/dev/tty9"));
    let (prog, args) = s.command().unwrap();
    assert_eq!((prog, args.join(" ").as_str()), ("stty", "-F /dev/tty9 size"));
    assert_eq!(found(s.step(Some("48 170\n"))), Some(("/dev/tty9".into(), 170, 48)));
    assert_eq!(found(Search::start(false, Some("/dev/tty9")).step(Some("48"))), None);
    assert_eq!(found(Search::start(true, Some("/dev/tty9"))), None);

    let s = Search::start(false, Some(""));
    let (prog, args) = s.command().unwrap();
    assert_eq!((prog, args.join(" ").as_str()), ("ps", "-C uim-fep -o tty="));
    let s = s.step(Some("pts/0\npts/1\n"));
    assert_eq!(s.command().unwrap().1, ["-F", "/dev/pts/0", "size"]);
    let s = s.step(None);
    let (prog, args) = s.command().unwrap();
    assert_eq!((prog, args.len()), ("tmux", 3));
    let out = "/dev/pts/3 xterm 80 24\n/dev/pts/4 fbterm 170 48\nbad\n";
    let s = s.step(Some(out));
    assert!(s.command().is_none());
    assert_eq!(found(s), Some(("/dev/pts/4".into(), 170, 48)));

    let s = Search::start(false, None).step(Some("?\n"));
    assert_eq!(found(s.step(Some("a linux x 48\n"))), None);
    let s = Search::start(false, None).step(Some("pts/0")).step(Some(" 10 20 30"));
    assert_eq!(found(s), Some(("/dev/pts/0".into(), 20, 10)));
    assert!(disabled(Some("0")) && !disabled(Some("1")) && !disabled(None));
}

#[test]
fn the_terminal_is_shrunk_and_restored() {
    let c = |rows: u32, cols: u32| Client { tty: "/dev/x".into(), cols, rows };
    assert_eq!(cell_height(1366, Some(&c(48, 170))), Some(16));
    assert_eq!(cell_height(1366, Some(&c(48, 0))), Some(2732));
    assert_eq!(cell_height(100, Some(&c(48, 170))), None);
    assert_eq!(cell_height(1366, None), None);
    let (guard, rows) = shrink(1366, 672, Some(c(48, 170))).unwrap();
    assert_eq!(rows, 42);
    assert_eq!(guard.restore(), ["-F", "/dev/x", "rows", "48"]);
    assert!(shrink(1366, 672, Some(c(42, 170))).is_none(), "it fits already");
    assert_eq!(shrink(1366, 3, Some(c(42, 170))).unwrap().1, 5, "never less than five rows");
    assert!(shrink(100, 672, Some(c(48, 170))).is_none());
    assert!(shrink(1366, 672, None).is_none());
    let wide = Client { tty: "/dev/tty1".into(), cols: 2, rows: 99 };
    assert_eq!(cell_height(u32::MAX, Some(&wide)), Some(u32::MAX - 1));
    assert_eq!(shrink(u32::MAX, u32::MAX, Some(wide)).unwrap().1, 5);
}

fn state() -> State {
    State {
        client: Some("/dev/tty1".into()),
        current: Some("main".into()),
        existing: vec!["main".into(), "spotify".into()],
        first_session: Some("main".into()),
    }
}

#[test]
fn a_tap_is_acted_on() {
    let st = state();
    let mut np = Np::default();
    let mut m = Model::default();
    m.apply("start", "%5", None);
    m.apply("stop", "%5", None);
    let rows = m.rows(4);
    assert!(matches!(on_tap(None, &st, "/h", &mut np, &mut m, &rows, 0), Tapped::Nothing));
    match on_tap(Some(Hit::Panel), &st, "/h", &mut np, &mut m, &rows, 0) {
        Tapped::Launch(Ok(task_var::actions::Launch::Show { create: None, session, .. })) => {
            assert_eq!(session, "spotify");
        }
        _ => panic!("the panel leads to the player"),
    }
    let hit = Some(Hit::Icon(0));
    assert!(matches!(on_tap(hit, &st, "/h", &mut np, &mut m, &rows, 0), Tapped::Launch(Ok(_))));
    let hit = Some(Hit::Ctrl(Ctrl::PlayPause));
    assert!(matches!(on_tap(hit, &st, "/h", &mut np, &mut m, &rows, 0), Tapped::Nothing));
    let off = PlayerState { playing: false, shuffle: false, repeat: Loop::Off };
    np.refresh(Some(Snapshot { player: off, np: None }), None, 0, 0);
    match on_tap(hit, &st, "/h", &mut np, &mut m, &rows, 0) {
        Tapped::Player(args) => assert_eq!(args.last().unwrap(), "PlayPause"),
        _ => panic!("a button asks the player"),
    }
    assert!(np.player.unwrap().playing);
    match on_tap(Some(Hit::Clawd(0)), &st, "/h", &mut np, &mut m, &rows, 0) {
        Tapped::Pane(v) => assert_eq!(v[2], ["select-pane", "-t", "%5"]),
        _ => panic!("an assistant leads to its pane"),
    }
    assert_eq!(m.rows(4), [Row { pane: "%5".into(), label: "".into(), st: St::Seen }]);
}
